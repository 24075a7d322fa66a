//! The descriptors of one package.

use crate::asset::{AssetType, AssetView, asset_views, clone_assets};
use crate::cache::opt_view;
use crate::codec::decode::{DecodeError, read_blob, read_string};
use crate::codec::encode::{write_blob, write_string};
use crate::codec::grammar::{dec_package, enc_package, package_records_len};
use crate::codec::inverse::{lemma_read_package, lemma_write_package};
use crate::text::chars_of;
use vstd::prelude::*;

verus! {

/// All assets collected from a specific package.
///
/// This is what the cache holds for a package, and what a scan makes of one
/// artifact.
#[derive(Debug, PartialEq, Eq)]
pub struct PackageAssets {
    package: String,
    assets: Vec<AssetType>,
}

/// The view of a [`PackageAssets`].
pub struct PackageView {
    pub package: Seq<char>,
    pub assets: Seq<AssetView>,
}

impl View for PackageAssets {
    type V = PackageView;

    open spec fn view(&self) -> PackageView {
        PackageView { package: self.spec_package(), assets: asset_views(self.spec_assets()) }
    }
}

impl Clone for PackageAssets {
    fn clone(&self) -> (out: Self)
        ensures
            out.spec_package() == self.spec_package(),
            out.spec_assets() == self.spec_assets(),
    {
        PackageAssets { package: self.package.clone(), assets: clone_assets(&self.assets) }
    }
}

impl PackageAssets {
    /// The identifier of the package.
    pub closed spec fn spec_package(&self) -> Seq<char> {
        self.package@
    }

    /// The assets of the package, in the order in which they were added.
    pub closed spec fn spec_assets(&self) -> Seq<AssetType> {
        self.assets@
    }

    /// The assets `assets` of the package whose identifier is `package`.
    pub fn new(package: String, assets: Vec<AssetType>) -> (out: Self)
        ensures
            out.spec_package() == package@,
            out.spec_assets() == assets@,
    {
        PackageAssets { package, assets }
    }

    /// Adds an asset to the package.
    pub fn add(&mut self, asset: AssetType)
        ensures
            final(self).spec_package() == old(self).spec_package(),
            final(self).spec_assets() == old(self).spec_assets().push(asset),
    {
        self.assets.push(asset);
    }

    /// Returns a reference to the package name.
    pub fn package(&self) -> (out: &str)
        ensures
            out@ == self.spec_package(),
    {
        self.package.as_str()
    }

    /// Returns a reference to the assets in this package.
    pub fn assets(&self) -> (out: &Vec<AssetType>)
        ensures
            out@ == self.spec_assets(),
    {
        &self.assets
    }

    /// The text that is kept for this package: its identifier as a string,
    /// then the records of its assets.
    pub fn encode(&self) -> (out: String)
        ensures
            out@ == enc_package(self@.package, self@.assets),
    {
        let mut out = String::new();
        write_string(&mut out, self.package.as_str());
        write_blob(&mut out, &self.assets);
        assert(out@ =~= enc_package(self@.package, self@.assets));
        out
    }

    /// Reads the text that was kept for a package.
    ///
    /// The text must be an identifier as a string and then records to its
    /// end. The error says how many characters were read before text that is
    /// neither.
    pub fn decode(text: &str) -> (r: Result<Self, DecodeError>)
        ensures
            match r {
                Ok(found) => dec_package(text@) == Some((found@.package, found@.assets)) && text@
                    == enc_package(found@.package, found@.assets),
                Err(e) => dec_package(text@) is None && e.offset == package_records_len(text@)
                    && forall|package: Seq<char>, assets: Seq<AssetView>|
                        text@ != #[trigger] enc_package(package, assets),
            },
    {
        let input = chars_of(text);
        assert(input@.skip(0) =~= text@);
        proof {
            lemma_read_package(text@);
            if dec_package(text@) is None {
                assert forall|package: Seq<char>, assets: Seq<AssetView>|
                    text@ != #[trigger] enc_package(package, assets) by {
                    lemma_write_package(package, assets);
                }
            }
        }
        match read_string(&input, 0) {
            None => Err(DecodeError { offset: 0 }),
            Some((package, next)) => match read_blob(&input, next) {
                Ok(assets) => Ok(PackageAssets { package, assets }),
                Err(e) => Err(DecodeError { offset: next + e.offset }),
            },
        }
    }
}

/// The package that a cache entry holds before an asset is added to it:
/// what `existing` holds, where it is the text of a package; else the
/// package of the identifier `identifier`, without assets.
pub open spec fn entry_before(existing: Option<Seq<char>>, identifier: Seq<char>) -> PackageView {
    match existing {
        Some(text) => match dec_package(text) {
            Some((package, assets)) => PackageView { package, assets },
            None => PackageView { package: identifier, assets: Seq::empty() },
        },
        None => PackageView { package: identifier, assets: Seq::empty() },
    }
}

/// The text of a package's cache entry after `asset` is added to it.
///
/// `existing` is the text that the entry holds, or `None` where there is no
/// entry yet. Where it holds no text of a package, the entry starts anew
/// for the package of the identifier `identifier`.
pub fn entry_with(existing: Option<&str>, identifier: String, asset: AssetType) -> (out: String)
    ensures
        out@ == enc_package(
            entry_before(opt_view(existing), identifier@).package,
            entry_before(opt_view(existing), identifier@).assets.push(asset@),
        ),
{
    let mut package = match existing {
        Some(text) => match PackageAssets::decode(text) {
            Ok(package) => package,
            Err(_) => PackageAssets::new(identifier, Vec::new()),
        },
        None => PackageAssets::new(identifier, Vec::new()),
    };
    let ghost before = package@;
    assert(before.assets =~= entry_before(opt_view(existing), identifier@).assets);
    package.add(asset);
    assert(package@.assets =~= before.assets.push(asset@));
    package.encode()
}

} // verus!
