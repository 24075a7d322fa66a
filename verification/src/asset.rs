//! The asset descriptors: one value per declared asset.
//!
//! A descriptor is plain data. Each type has a view in which every string is
//! a sequence of characters; the contracts of the whole crate speak of these
//! views.

use crate::text::chars_of;
use vstd::prelude::*;

verus! {

/// Where an asset is to be taken from.
#[derive(Debug, PartialEq, Eq)]
pub enum AssetSource {
    /// A path on this machine.
    Local(String),
    /// A URL.
    Remote(String),
}

/// The view of an [`AssetSource`].
pub enum SourceView {
    Local(Seq<char>),
    Remote(Seq<char>),
}

impl View for AssetSource {
    type V = SourceView;

    open spec fn view(&self) -> SourceView {
        match self {
            AssetSource::Local(path) => SourceView::Local(path@),
            AssetSource::Remote(url) => SourceView::Remote(url@),
        }
    }
}

impl Clone for AssetSource {
    fn clone(&self) -> (out: Self)
        ensures
            out == *self,
    {
        match self {
            AssetSource::Local(path) => AssetSource::Local(path.clone()),
            AssetSource::Remote(url) => AssetSource::Remote(url.clone()),
        }
    }
}

/// Whether `c` separates the components of a path or URL.
pub open spec fn is_separator(c: char) -> bool {
    c == '/' || c == '\\'
}

/// What follows the last separator of `path`: all of `path` where it has
/// none.
pub open spec fn last_component(path: Seq<char>) -> Seq<char>
    decreases path.len(),
{
    if path.len() == 0 || is_separator(path.last()) {
        Seq::empty()
    } else {
        last_component(path.drop_last()).push(path.last())
    }
}

/// The location under which the asset that `path` names is served: a slash
/// and the last component of `path`.
pub fn served_name(path: &str) -> (out: String)
    ensures
        out@ == seq!['/'] + last_component(path@),
{
    let mut name = String::new();
    assert(path@.take(0) =~= Seq::<char>::empty());
    for c in it: path.chars()
        invariant
            it.seq() == path@,
            name@ == last_component(path@.take(it.index())),
    {
        proof {
            let next = path@.take(it.index() + 1);
            assert(next.drop_last() =~= path@.take(it.index()));
            assert(next.last() == c);
        }
        if c == '/' || c == '\\' {
            name = String::new();
        } else {
            name.push(c);
        }
    }
    assert(path@.take(path@.len() as int) =~= path@);
    let mut out = String::new();
    out.push('/');
    let ghost slash = out@;
    for c in it: name.as_str().chars()
        invariant
            it.seq() == name@,
            slash == seq!['/'],
            out@ == slash + name@.take(it.index()),
    {
        out.push(c);
        assert(out@ =~= slash + name@.take(it.index() + 1));
    }
    assert(name@.take(name@.len() as int) =~= name@);
    out
}

/// Whether `text` starts with `http://` or `https://`.
pub open spec fn is_url(text: Seq<char>) -> bool {
    ||| text.len() >= 7 && text.take(7) == seq!['h', 't', 't', 'p', ':', '/', '/']
    ||| text.len() >= 8 && text.take(8) == seq!['h', 't', 't', 'p', 's', ':', '/', '/']
}

impl AssetSource {
    /// The source that `text` names: a URL where it starts with `http://` or
    /// `https://`, else a local path.
    pub fn parse(text: &str) -> (out: Self)
        ensures
            out@ == if is_url(text@) {
                SourceView::Remote(text@)
            } else {
                SourceView::Local(text@)
            },
    {
        let chars = chars_of(text);
        let len = chars.len();
        let http = len >= 7 && chars[0] == 'h' && chars[1] == 't' && chars[2] == 't' && chars[3]
            == 'p' && chars[4] == ':' && chars[5] == '/' && chars[6] == '/';
        let https = len >= 8 && chars[0] == 'h' && chars[1] == 't' && chars[2] == 't' && chars[3]
            == 'p' && chars[4] == 's' && chars[5] == ':' && chars[6] == '/' && chars[7] == '/';
        proof {
            if len >= 7 {
                assert(http <==> text@.take(7) =~= seq!['h', 't', 't', 'p', ':', '/', '/']);
            }
            if len >= 8 {
                assert(https <==> text@.take(8) =~= seq!['h', 't', 't', 'p', 's', ':', '/', '/']);
            }
        }
        if http || https {
            AssetSource::Remote(text.to_owned())
        } else {
            AssetSource::Local(text.to_owned())
        }
    }

    /// The path or URL, whichever this is.
    pub open spec fn spec_text(&self) -> Seq<char> {
        match self {
            AssetSource::Local(path) => path@,
            AssetSource::Remote(url) => url@,
        }
    }

    /// The path or URL, whichever this is.
    pub fn text(&self) -> (out: &str)
        ensures
            out@ == self.spec_text(),
    {
        match self {
            AssetSource::Local(path) => path.as_str(),
            AssetSource::Remote(url) => url.as_str(),
        }
    }

    /// Whether the asset is fetched from a URL.
    pub fn is_remote(&self) -> (out: bool)
        ensures
            out == (*self is Remote),
    {
        match self {
            AssetSource::Local(_) => false,
            AssetSource::Remote(_) => true,
        }
    }
}

/// The format an image is converted to.
#[derive(Clone, Copy, Debug, PartialEq, Eq, Structural)]
pub enum ImageType {
    Png,
    Jpg,
    Webp,
    Avif,
}

/// Options of a stylesheet.
#[derive(Clone, Copy, Debug, PartialEq, Eq, Structural)]
pub struct CssOptions {
    pub preload: bool,
}

/// The size an image is resized to, in pixels.
#[derive(Clone, Copy, Debug, PartialEq, Eq, Structural)]
pub struct ImageSize {
    pub width: u32,
    pub height: u32,
}

/// Options of an image.
#[derive(Clone, Copy, Debug, PartialEq, Eq, Structural)]
pub struct ImageOptions {
    pub ty: ImageType,
    /// The size, where the image is to be resized.
    pub size: Option<ImageSize>,
    pub preload: bool,
}

/// Options of a script.
#[derive(Clone, Copy, Debug, PartialEq, Eq, Structural)]
pub struct JsOptions {
    pub minify: bool,
    pub preload: bool,
}

/// What kind of file an asset is, with the options of that kind.
#[derive(Clone, Copy, Debug, PartialEq, Eq, Structural)]
pub enum FileOptions {
    Css(CssOptions),
    Image(ImageOptions),
    Js(JsOptions),
    /// A file that is copied as it is.
    Other,
}

/// Why no served location could be worked out for an asset.
#[derive(Clone, Copy, Debug, PartialEq, Eq, Structural)]
pub enum SupportError {
    /// Assets of packages outside the workspace were not collected.
    ExternalPackageCollection,
    /// The package's manifest was not found.
    FailedToFindCargoManifest,
}

/// Clones a served location: the string where there is one, the error where
/// there is none.
pub fn clone_served(served: &Result<String, SupportError>) -> (out: Result<String, SupportError>)
    ensures
        out == *served,
{
    match served {
        Ok(location) => Ok(location.clone()),
        Err(e) => Err(*e),
    }
}

/// The view of a served location.
pub open spec fn served_view(served: Result<String, SupportError>) -> Result<
    Seq<char>,
    SupportError,
> {
    match served {
        Ok(location) => Ok(location@),
        Err(e) => Err(e),
    }
}

/// A file asset.
///
/// The served location is worked out once, when the descriptor is made, and
/// carried along from then on, whether it is a location or a failure.
#[derive(Debug, PartialEq, Eq)]
pub struct FileAsset {
    pub source: AssetSource,
    pub options: FileOptions,
    pub served_location: Result<String, SupportError>,
    pub url_encoded: bool,
}

/// The view of a [`FileAsset`].
pub struct FileView {
    pub source: SourceView,
    pub options: FileOptions,
    pub served_location: Result<Seq<char>, SupportError>,
    pub url_encoded: bool,
}

impl View for FileAsset {
    type V = FileView;

    open spec fn view(&self) -> FileView {
        FileView {
            source: self.source@,
            options: self.options,
            served_location: served_view(self.served_location),
            url_encoded: self.url_encoded,
        }
    }
}

impl Clone for FileAsset {
    fn clone(&self) -> (out: Self)
        ensures
            out == *self,
    {
        FileAsset {
            source: self.source.clone(),
            options: self.options,
            served_location: clone_served(&self.served_location),
            url_encoded: self.url_encoded,
        }
    }
}

impl FileAsset {
    /// A file asset with the options of no particular kind, not URL-encoded.
    pub fn new(source: AssetSource, served_location: Result<String, SupportError>) -> (out: Self)
        ensures
            out == (FileAsset {
                source,
                options: FileOptions::Other,
                served_location,
                url_encoded: false,
            }),
    {
        FileAsset { source, options: FileOptions::Other, served_location, url_encoded: false }
    }

    /// The same asset with other options.
    pub fn with_options(self, options: FileOptions) -> (out: Self)
        ensures
            out == (FileAsset { options, ..self }),
    {
        FileAsset {
            source: self.source,
            options,
            served_location: self.served_location,
            url_encoded: self.url_encoded,
        }
    }

    /// Replaces the options.
    pub fn set_options(&mut self, options: FileOptions)
        ensures
            *final(self) == (FileAsset { options, ..*old(self) }),
    {
        self.options = options;
    }

    /// Says whether the asset is to be embedded in its URL.
    pub fn set_url_encoded(&mut self, url_encoded: bool)
        ensures
            *final(self) == (FileAsset { url_encoded, ..*old(self) }),
    {
        self.url_encoded = url_encoded;
    }

    pub fn source(&self) -> (out: &AssetSource)
        ensures
            *out == self.source,
    {
        &self.source
    }

    pub fn options(&self) -> (out: &FileOptions)
        ensures
            *out == self.options,
    {
        &self.options
    }

    /// Where the processed asset will be reachable, or why that is unknown.
    pub fn served_location(&self) -> (out: &Result<String, SupportError>)
        ensures
            *out == self.served_location,
    {
        &self.served_location
    }

    pub fn url_encoded(&self) -> (out: bool)
        ensures
            out == self.url_encoded,
    {
        self.url_encoded
    }
}

/// A folder asset: a directory that is copied as it is.
#[derive(Debug, PartialEq, Eq)]
pub struct FolderAsset {
    pub source: AssetSource,
    pub served_location: Result<String, SupportError>,
}

/// The view of a [`FolderAsset`].
pub struct FolderView {
    pub source: SourceView,
    pub served_location: Result<Seq<char>, SupportError>,
}

impl View for FolderAsset {
    type V = FolderView;

    open spec fn view(&self) -> FolderView {
        FolderView { source: self.source@, served_location: served_view(self.served_location) }
    }
}

impl Clone for FolderAsset {
    fn clone(&self) -> (out: Self)
        ensures
            out == *self,
    {
        FolderAsset {
            source: self.source.clone(),
            served_location: clone_served(&self.served_location),
        }
    }
}

impl FolderAsset {
    pub fn new(source: AssetSource, served_location: Result<String, SupportError>) -> (out: Self)
        ensures
            out == (FolderAsset { source, served_location }),
    {
        FolderAsset { source, served_location }
    }

    pub fn source(&self) -> (out: &AssetSource)
        ensures
            *out == self.source,
    {
        &self.source
    }

    /// Where the copied folder will be reachable, or why that is unknown.
    pub fn served_location(&self) -> (out: &Result<String, SupportError>)
        ensures
            *out == self.served_location,
    {
        &self.served_location
    }
}

/// A batch of utility classes, separated by spaces.
#[derive(Debug, PartialEq, Eq)]
pub struct TailwindAsset {
    pub classes: String,
}

impl View for TailwindAsset {
    type V = Seq<char>;

    open spec fn view(&self) -> Seq<char> {
        self.classes@
    }
}

impl Clone for TailwindAsset {
    fn clone(&self) -> (out: Self)
        ensures
            out == *self,
    {
        TailwindAsset { classes: self.classes.clone() }
    }
}

impl TailwindAsset {
    pub fn new(classes: String) -> (out: Self)
        ensures
            out == (TailwindAsset { classes }),
    {
        TailwindAsset { classes }
    }

    pub fn classes(&self) -> (out: &str)
        ensures
            out@ == self@,
    {
        self.classes.as_str()
    }
}

/// One declared asset.
#[derive(Debug, PartialEq, Eq)]
pub enum AssetType {
    File(FileAsset),
    Folder(FolderAsset),
    Tailwind(TailwindAsset),
}

/// The view of an [`AssetType`].
pub enum AssetView {
    File(FileView),
    Folder(FolderView),
    Tailwind(Seq<char>),
}

impl View for AssetType {
    type V = AssetView;

    open spec fn view(&self) -> AssetView {
        match self {
            AssetType::File(file) => AssetView::File(file@),
            AssetType::Folder(folder) => AssetView::Folder(folder@),
            AssetType::Tailwind(tailwind) => AssetView::Tailwind(tailwind@),
        }
    }
}

impl Clone for AssetType {
    fn clone(&self) -> (out: Self)
        ensures
            out == *self,
    {
        match self {
            AssetType::File(file) => AssetType::File(file.clone()),
            AssetType::Folder(folder) => AssetType::Folder(folder.clone()),
            AssetType::Tailwind(tailwind) => AssetType::Tailwind(tailwind.clone()),
        }
    }
}

/// The views of a sequence of assets, in order.
pub open spec fn asset_views(assets: Seq<AssetType>) -> Seq<AssetView> {
    assets.map_values(|a: AssetType| a@)
}

/// Clones a list of assets.
pub fn clone_assets(assets: &Vec<AssetType>) -> (out: Vec<AssetType>)
    ensures
        out@ == assets@,
{
    let mut out: Vec<AssetType> = Vec::new();
    let mut i: usize = 0;
    while i < assets.len()
        invariant
            i <= assets.len(),
            out@ == assets@.subrange(0, i as int),
        decreases assets.len() - i,
    {
        out.push(assets[i].clone());
        i += 1;
    }
    assert(out@ =~= assets@);
    out
}

} // verus!
