//! The manifest: every asset that a build declares, grouped by the package
//! or artifact it was found in.

use crate::asset::{AssetType, AssetView, FileAsset, FileOptions, asset_views};
use crate::package::PackageAssets;
use vstd::prelude::*;
use vstd::string::StringExecFns;

verus! {

/// The assets of `packages`, group after group.
pub open spec fn flat_assets(packages: Seq<PackageAssets>) -> Seq<AssetType>
    decreases packages.len(),
{
    if packages.len() == 0 {
        Seq::empty()
    } else {
        flat_assets(packages.drop_last()) + packages.last().spec_assets()
    }
}

/// What one asset adds to the text of utility classes: its classes and a
/// space, where it is a batch of classes.
pub open spec fn class_text(asset: AssetView) -> Seq<char> {
    match asset {
        AssetView::Tailwind(classes) => classes.push(' '),
        _ => Seq::empty(),
    }
}

/// The utility classes of `assets`, each batch followed by a space.
pub open spec fn tailwind_text(assets: Seq<AssetView>) -> Seq<char>
    decreases assets.len(),
{
    if assets.len() == 0 {
        Seq::empty()
    } else {
        tailwind_text(assets.drop_last()) + class_text(assets.last())
    }
}

/// What a file is preloaded as: `Some` where its options ask for it to be
/// preloaded.
pub open spec fn preload_kind(options: FileOptions) -> Option<Seq<char>> {
    match options {
        FileOptions::Css(css) => if css.preload {
            Some("style"@)
        } else {
            None
        },
        FileOptions::Image(image) => if image.preload {
            Some("image"@)
        } else {
            None
        },
        FileOptions::Js(js) => if js.preload {
            Some("script"@)
        } else {
            None
        },
        FileOptions::Other => None,
    }
}

/// The element that asks a page to preload `href` as `kind`, and a line
/// break.
pub open spec fn preload_link(kind: Seq<char>, href: Seq<char>) -> Seq<char> {
    "<link rel=\"preload\" as=\""@ + kind + "\" href=\""@ + href + "\">\n"@
}

/// What one asset adds to the head of a page: a preload element, where it is
/// a file that is to be preloaded and has a served location.
pub open spec fn head_line(asset: AssetView) -> Seq<char> {
    match asset {
        AssetView::File(file) => match (preload_kind(file.options), file.served_location) {
            (Some(kind), Ok(href)) => preload_link(kind, href),
            _ => Seq::empty(),
        },
        _ => Seq::empty(),
    }
}

/// The preload elements of `assets`, in order.
pub open spec fn head_text(assets: Seq<AssetView>) -> Seq<char>
    decreases assets.len(),
{
    if assets.len() == 0 {
        Seq::empty()
    } else {
        head_text(assets.drop_last()) + head_line(assets.last())
    }
}

/// The file assets among `assets`, in order.
pub open spec fn files_of(assets: Seq<AssetType>) -> Seq<FileAsset>
    decreases assets.len(),
{
    if assets.len() == 0 {
        Seq::empty()
    } else {
        match assets.last() {
            AssetType::File(file) => files_of(assets.drop_last()).push(file),
            _ => files_of(assets.drop_last()),
        }
    }
}

/// A manifest of all assets collected from dependencies.
///
/// A manifest is made once and not changed afterwards. It keeps its assets
/// both in their groups and as one list.
#[derive(Debug, PartialEq, Eq)]
pub struct AssetManifest {
    packages: Vec<PackageAssets>,
    assets: Vec<AssetType>,
}

impl AssetManifest {
    #[verifier::type_invariant]
    spec fn flat_is_flat(self) -> bool {
        self.assets@ == flat_assets(self.packages@)
    }

    /// The groups of the manifest, in order.
    pub closed spec fn spec_packages(&self) -> Seq<PackageAssets> {
        self.packages@
    }

    /// All assets of the manifest, group after group.
    pub open spec fn spec_assets(&self) -> Seq<AssetType> {
        flat_assets(self.spec_packages())
    }

    /// Creates a new asset manifest.
    pub fn new(packages: Vec<PackageAssets>) -> (out: Self)
        ensures
            out.spec_packages() == packages@,
    {
        let mut assets: Vec<AssetType> = Vec::new();
        let mut i: usize = 0;
        assert(packages@.take(0) =~= Seq::empty());
        while i < packages.len()
            invariant
                i <= packages.len(),
                assets@ == flat_assets(packages@.take(i as int)),
            decreases packages.len() - i,
        {
            let group = packages[i].assets();
            let ghost before = assets@;
            let mut j: usize = 0;
            while j < group.len()
                invariant
                    j <= group.len(),
                    assets@ == before + group@.take(j as int),
                decreases group.len() - j,
            {
                assets.push(group[j].clone());
                assert(group@.take(j + 1) =~= group@.take(j as int).push(group@[j as int]));
                j += 1;
            }
            proof {
                assert(group@.take(j as int) =~= group@);
                let next = packages@.take(i + 1);
                assert(next.drop_last() =~= packages@.take(i as int));
                assert(next.last() == packages@[i as int]);
            }
            i += 1;
        }
        assert(packages@.take(i as int) =~= packages@);
        AssetManifest { packages, assets }
    }

    /// The groups of the manifest: one per package or artifact.
    pub fn packages(&self) -> (out: &Vec<PackageAssets>)
        ensures
            out@ == self.spec_packages(),
    {
        &self.packages
    }

    /// Returns all assets collected from dependencies.
    pub fn assets(&self) -> (out: &Vec<AssetType>)
        ensures
            out@ == self.spec_assets(),
    {
        proof {
            use_type_invariant(self);
        }
        &self.assets
    }

    /// Returns the HTML that should be injected into the head of the page.
    pub fn head(&self) -> (out: String)
        ensures
            out@ == head_text(asset_views(self.spec_assets())),
    {
        proof {
            use_type_invariant(self);
        }
        let ghost views = asset_views(self.assets@);
        let mut head = String::new();
        let mut i: usize = 0;
        assert(views.take(0) =~= Seq::empty());
        while i < self.assets.len()
            invariant
                i <= self.assets.len(),
                views == asset_views(self.assets@),
                head@ == head_text(views.take(i as int)),
            decreases self.assets.len() - i,
        {
            let ghost before = head@;
            proof {
                let next = views.take(i + 1);
                assert(next.drop_last() =~= views.take(i as int));
                assert(next.last() == self.assets@[i as int]@);
            }
            if let AssetType::File(file) = &self.assets[i] {
                let kind: Option<&str> = match file.options {
                    FileOptions::Css(css) => if css.preload {
                        Some("style")
                    } else {
                        None
                    },
                    FileOptions::Image(image) => if image.preload {
                        Some("image")
                    } else {
                        None
                    },
                    FileOptions::Js(js) => if js.preload {
                        Some("script")
                    } else {
                        None
                    },
                    FileOptions::Other => None,
                };
                if let Some(kind) = kind {
                    if let Ok(href) = &file.served_location {
                        head.append("<link rel=\"preload\" as=\"");
                        head.append(kind);
                        head.append("\" href=\"");
                        head.append(href.as_str());
                        head.append("\">\n");
                        assert(head@ =~= before + preload_link(kind@, href@));
                    }
                }
            }
            assert(head@ =~= before + head_line(views[i as int]));
            i += 1;
        }
        assert(views.take(i as int) =~= views);
        head
    }

    /// The utility classes of all batches in the manifest: each batch is
    /// followed by one space, the last one too.
    pub fn tailwind_classes(&self) -> (out: String)
        ensures
            out@ == tailwind_text(asset_views(self.spec_assets())),
    {
        proof {
            use_type_invariant(self);
        }
        let ghost views = asset_views(self.assets@);
        let mut all_classes = String::new();
        let mut i: usize = 0;
        assert(views.take(0) =~= Seq::empty());
        while i < self.assets.len()
            invariant
                i <= self.assets.len(),
                views == asset_views(self.assets@),
                all_classes@ == tailwind_text(views.take(i as int)),
            decreases self.assets.len() - i,
        {
            let ghost before = all_classes@;
            proof {
                let next = views.take(i + 1);
                assert(next.drop_last() =~= views.take(i as int));
                assert(next.last() == self.assets@[i as int]@);
            }
            if let AssetType::Tailwind(tailwind) = &self.assets[i] {
                all_classes.append(tailwind.classes.as_str());
                all_classes.push(' ');
            }
            assert(all_classes@ =~= before + class_text(views[i as int]));
            i += 1;
        }
        assert(views.take(i as int) =~= views);
        all_classes
    }

    /// The file assets of the manifest, in order: what is handed on to be
    /// optimized and copied. Folders and batches of classes are left out.
    pub fn file_assets(&self) -> (out: Vec<FileAsset>)
        ensures
            out@ == files_of(self.spec_assets()),
    {
        proof {
            use_type_invariant(self);
        }
        let mut out: Vec<FileAsset> = Vec::new();
        let mut i: usize = 0;
        assert(self.assets@.take(0) =~= Seq::empty());
        while i < self.assets.len()
            invariant
                i <= self.assets.len(),
                out@ == files_of(self.assets@.take(i as int)),
            decreases self.assets.len() - i,
        {
            proof {
                let next = self.assets@.take(i + 1);
                assert(next.drop_last() =~= self.assets@.take(i as int));
                assert(next.last() == self.assets@[i as int]);
            }
            if let AssetType::File(file) = &self.assets[i] {
                out.push(file.clone());
            }
            i += 1;
        }
        assert(self.assets@.take(i as int) =~= self.assets@);
        out
    }
}

/// Whether the groups `a` are the groups `b`: as many, with the same
/// identifiers and the same assets.
pub open spec fn same_groups(a: Seq<PackageAssets>, b: Seq<PackageAssets>) -> bool {
    a.len() == b.len() && forall|i: int|
        0 <= i < a.len() ==> (#[trigger] a[i]).spec_package() == b[i].spec_package()
            && a[i].spec_assets() == b[i].spec_assets()
}

impl Clone for AssetManifest {
    fn clone(&self) -> (out: Self)
        ensures
            same_groups(out.spec_packages(), self.spec_packages()),
    {
        let mut packages: Vec<PackageAssets> = Vec::new();
        let mut i: usize = 0;
        while i < self.packages.len()
            invariant
                i <= self.packages.len(),
                same_groups(packages@, self.packages@.take(i as int)),
            decreases self.packages.len() - i,
        {
            packages.push(self.packages[i].clone());
            i += 1;
        }
        assert(self.packages@.take(i as int) =~= self.packages@);
        AssetManifest::new(packages)
    }
}

impl Default for AssetManifest {
    /// The empty manifest.
    fn default() -> (out: Self)
        ensures
            out.spec_packages() == Seq::<PackageAssets>::empty(),
    {
        AssetManifest { packages: Vec::new(), assets: Vec::new() }
    }
}

} // verus!
