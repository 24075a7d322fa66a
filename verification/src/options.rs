//! The options that a declaration of an asset may carry, and what they do
//! to the descriptor of the asset.
//!
//! A declaration names a file and then any number of options, each by its
//! name. An option changes the descriptor that the declaration stands for.

use crate::asset::{
    AssetSource, FileAsset, FileOptions, ImageOptions, ImageSize, ImageType, JsOptions,
    SupportError,
};
use vstd::prelude::*;

verus! {

/// Whether the two strings are the same.
pub fn same_text(a: &str, b: &str) -> (out: bool)
    ensures
        out == (a@ == b@),
{
    let left = a.to_owned();
    let right = b.to_owned();
    left == right
}

/// The image format of the given lower-case name.
pub open spec fn image_type_named(name: Seq<char>) -> Option<ImageType> {
    if name == "png"@ {
        Some(ImageType::Png)
    } else if name == "jpg"@ || name == "jpeg"@ {
        Some(ImageType::Jpg)
    } else if name == "webp"@ {
        Some(ImageType::Webp)
    } else if name == "avif"@ {
        Some(ImageType::Avif)
    } else {
        None
    }
}

/// The image format of the given lower-case name: `png`, `jpg` or `jpeg`,
/// `webp`, `avif`. `None` for any other name.
pub fn parse_image_type(name: &str) -> (out: Option<ImageType>)
    ensures
        out == image_type_named(name@),
{
    if same_text(name, "png") {
        Some(ImageType::Png)
    } else if same_text(name, "jpg") || same_text(name, "jpeg") {
        Some(ImageType::Jpg)
    } else if same_text(name, "webp") {
        Some(ImageType::Webp)
    } else if same_text(name, "avif") {
        Some(ImageType::Avif)
    } else {
        None
    }
}

/// The options that an image may be declared with, by name.
#[derive(Clone, Copy, Debug, PartialEq, Eq, Structural)]
pub enum ImageOptionName {
    Format,
    Size,
    Preload,
    UrlEncoded,
    LowQualityPreview,
}

/// The image option of the given name.
pub open spec fn image_option_named(name: Seq<char>) -> Option<ImageOptionName> {
    if name == "format"@ {
        Some(ImageOptionName::Format)
    } else if name == "size"@ {
        Some(ImageOptionName::Size)
    } else if name == "preload"@ {
        Some(ImageOptionName::Preload)
    } else if name == "url_encoded"@ {
        Some(ImageOptionName::UrlEncoded)
    } else if name == "low_quality_preview"@ {
        Some(ImageOptionName::LowQualityPreview)
    } else {
        None
    }
}

/// The image option of the given name: `format`, `size`, `preload`,
/// `url_encoded` or `low_quality_preview`. `None` for any other name.
pub fn parse_image_option_name(name: &str) -> (out: Option<ImageOptionName>)
    ensures
        out == image_option_named(name@),
{
    if same_text(name, "format") {
        Some(ImageOptionName::Format)
    } else if same_text(name, "size") {
        Some(ImageOptionName::Size)
    } else if same_text(name, "preload") {
        Some(ImageOptionName::Preload)
    } else if same_text(name, "url_encoded") {
        Some(ImageOptionName::UrlEncoded)
    } else if same_text(name, "low_quality_preview") {
        Some(ImageOptionName::LowQualityPreview)
    } else {
        None
    }
}

/// One option of an image, with its value.
#[derive(Clone, Copy, Debug, PartialEq, Eq, Structural)]
pub enum ParseImageOption {
    Format(ImageType),
    Size(ImageSize),
    Preload(bool),
    UrlEncoded(bool),
    Lqip(bool),
}

/// The image options `options` after the option `option`. Options that are
/// not those of an image are left as they are.
pub open spec fn image_options_after(options: FileOptions, option: ParseImageOption) -> FileOptions {
    match options {
        FileOptions::Image(image) => match option {
            ParseImageOption::Format(ty) => FileOptions::Image(ImageOptions { ty, ..image }),
            ParseImageOption::Size(size) => FileOptions::Image(
                ImageOptions { size: Some(size), ..image },
            ),
            ParseImageOption::Preload(preload) => FileOptions::Image(
                ImageOptions { preload, ..image },
            ),
            _ => options,
        },
        _ => options,
    }
}

/// The file `file` after the image option `option`.
pub open spec fn file_after_image_option(file: FileAsset, option: ParseImageOption) -> FileAsset {
    match option {
        ParseImageOption::UrlEncoded(url_encoded) => FileAsset { url_encoded, ..file },
        ParseImageOption::Lqip(_) => file,
        _ => FileAsset { options: image_options_after(file.options, option), ..file },
    }
}

/// Whether a low-quality preview is asked for after the option `option`,
/// where `before` says whether one was asked for before it.
pub open spec fn preview_after(before: bool, option: ParseImageOption) -> bool {
    match option {
        ParseImageOption::Lqip(lqip) => lqip,
        _ => before,
    }
}

impl ParseImageOption {
    /// Applies the option to the descriptor of an image, and to the wish
    /// for a low-quality preview.
    pub fn apply_to_options(self, file: &mut FileAsset, low_quality_preview: &mut bool)
        ensures
            *final(file) == file_after_image_option(*old(file), self),
            *final(low_quality_preview) == preview_after(*old(low_quality_preview), self),
    {
        match self {
            ParseImageOption::Format(ty) => {
                if let FileOptions::Image(image) = file.options {
                    file.options = FileOptions::Image(
                        ImageOptions { ty, size: image.size, preload: image.preload },
                    );
                }
            },
            ParseImageOption::Size(size) => {
                if let FileOptions::Image(image) = file.options {
                    file.options = FileOptions::Image(
                        ImageOptions { ty: image.ty, size: Some(size), preload: image.preload },
                    );
                }
            },
            ParseImageOption::Preload(preload) => {
                if let FileOptions::Image(image) = file.options {
                    file.options = FileOptions::Image(
                        ImageOptions { ty: image.ty, size: image.size, preload },
                    );
                }
            },
            ParseImageOption::UrlEncoded(url_encoded) => {
                file.url_encoded = url_encoded;
            },
            ParseImageOption::Lqip(lqip) => {
                *low_quality_preview = lqip;
            },
        }
    }
}

/// The file `file` after the image options `options`, one after the other.
pub open spec fn file_after_image_options(file: FileAsset, options: Seq<ParseImageOption>) -> FileAsset
    decreases options.len(),
{
    if options.len() == 0 {
        file
    } else {
        file_after_image_option(file_after_image_options(file, options.drop_last()), options.last())
    }
}

/// Whether a low-quality preview is asked for after the options `options`.
pub open spec fn preview_after_all(before: bool, options: Seq<ParseImageOption>) -> bool
    decreases options.len(),
{
    if options.len() == 0 {
        before
    } else {
        preview_after(preview_after_all(before, options.drop_last()), options.last())
    }
}

/// The options of an image, in the order in which they were written.
#[derive(Debug, PartialEq, Eq)]
pub struct ParseImageOptions {
    pub options: Vec<ParseImageOption>,
}

impl ParseImageOptions {
    /// Applies the options in their order: of two options that set the same
    /// thing, the later one stays.
    pub fn apply_to_options(self, file: &mut FileAsset, low_quality_preview: &mut bool)
        ensures
            *final(file) == file_after_image_options(*old(file), self.options@),
            *final(low_quality_preview) == preview_after_all(
                *old(low_quality_preview),
                self.options@,
            ),
    {
        let ghost file0 = *file;
        let ghost preview0 = *low_quality_preview;
        let ghost all = self.options@;
        let mut i: usize = 0;
        assert(all.take(0) =~= Seq::<ParseImageOption>::empty());
        while i < self.options.len()
            invariant
                i <= self.options.len(),
                all == self.options@,
                *file == file_after_image_options(file0, all.take(i as int)),
                *low_quality_preview == preview_after_all(preview0, all.take(i as int)),
            decreases self.options.len() - i,
        {
            proof {
                let next = all.take(i + 1);
                assert(next.drop_last() =~= all.take(i as int));
                assert(next.last() == all[i as int]);
            }
            let option = self.options[i];
            option.apply_to_options(file, low_quality_preview);
            i += 1;
        }
        assert(all.take(i as int) =~= all);
    }
}

/// The size of the low-quality preview of an image of the given size: a
/// tenth of it each way, and 32 by 32 where no size is given.
pub open spec fn preview_size_of(size: Option<ImageSize>) -> ImageSize {
    match size {
        Some(size) => ImageSize { width: size.width / 10, height: size.height / 10 },
        None => ImageSize { width: 32, height: 32 },
    }
}

/// The size of the low-quality preview of an image of the given size.
pub fn preview_size(size: Option<ImageSize>) -> (out: ImageSize)
    ensures
        out == preview_size_of(size),
{
    match size {
        Some(size) => ImageSize { width: size.width / 10, height: size.height / 10 },
        None => ImageSize { width: 32, height: 32 },
    }
}

/// The descriptor of an image that is declared with the given options: an
/// image in the format AVIF, not resized, not preloaded and not
/// URL-encoded, changed by the options. The second part says whether a
/// low-quality preview is asked for.
pub fn image_asset(
    source: AssetSource,
    served_location: Result<String, SupportError>,
    options: ParseImageOptions,
) -> (out: (FileAsset, bool))
    ensures
        out.0 == file_after_image_options(
            FileAsset {
                source,
                options: FileOptions::Image(
                    ImageOptions { ty: ImageType::Avif, size: None, preload: false },
                ),
                served_location,
                url_encoded: false,
            },
            options.options@,
        ),
        out.1 == preview_after_all(false, options.options@),
{
    let mut file = FileAsset::new(source, served_location).with_options(
        FileOptions::Image(ImageOptions { ty: ImageType::Avif, size: None, preload: false }),
    );
    let mut low_quality_preview = false;
    options.apply_to_options(&mut file, &mut low_quality_preview);
    (file, low_quality_preview)
}

/// The options that a script may be declared with, by name.
#[derive(Clone, Copy, Debug, PartialEq, Eq, Structural)]
pub enum JsOptionName {
    Preload,
    UrlEncoded,
    Minify,
}

/// The script option of the given name.
pub open spec fn js_option_named(name: Seq<char>) -> Option<JsOptionName> {
    if name == "preload"@ {
        Some(JsOptionName::Preload)
    } else if name == "url_encoded"@ {
        Some(JsOptionName::UrlEncoded)
    } else if name == "minify"@ {
        Some(JsOptionName::Minify)
    } else {
        None
    }
}

/// The script option of the given name: `preload`, `url_encoded` or
/// `minify`. `None` for any other name.
pub fn parse_js_option_name(name: &str) -> (out: Option<JsOptionName>)
    ensures
        out == js_option_named(name@),
{
    if same_text(name, "preload") {
        Some(JsOptionName::Preload)
    } else if same_text(name, "url_encoded") {
        Some(JsOptionName::UrlEncoded)
    } else if same_text(name, "minify") {
        Some(JsOptionName::Minify)
    } else {
        None
    }
}

/// One option of a script, with its value.
#[derive(Clone, Copy, Debug, PartialEq, Eq, Structural)]
pub enum ParseJsOption {
    UrlEncoded(bool),
    Preload(bool),
    Minify(bool),
}

/// The file `file` after the script option `option`. Options that are not
/// those of a script are left as they are.
pub open spec fn file_after_js_option(file: FileAsset, option: ParseJsOption) -> FileAsset {
    match option {
        ParseJsOption::UrlEncoded(url_encoded) => FileAsset { url_encoded, ..file },
        ParseJsOption::Preload(preload) => match file.options {
            FileOptions::Js(js) => FileAsset {
                options: FileOptions::Js(JsOptions { preload, ..js }),
                ..file
            },
            _ => file,
        },
        ParseJsOption::Minify(minify) => match file.options {
            FileOptions::Js(js) => FileAsset {
                options: FileOptions::Js(JsOptions { minify, ..js }),
                ..file
            },
            _ => file,
        },
    }
}

impl ParseJsOption {
    /// Applies the option to the descriptor of a script.
    pub fn apply_to_options(self, file: &mut FileAsset)
        ensures
            *final(file) == file_after_js_option(*old(file), self),
    {
        match self {
            ParseJsOption::Preload(preload) => {
                if let FileOptions::Js(js) = file.options {
                    file.options = FileOptions::Js(JsOptions { minify: js.minify, preload });
                }
            },
            ParseJsOption::Minify(minify) => {
                if let FileOptions::Js(js) = file.options {
                    file.options = FileOptions::Js(JsOptions { minify, preload: js.preload });
                }
            },
            ParseJsOption::UrlEncoded(url_encoded) => {
                file.url_encoded = url_encoded;
            },
        }
    }
}

/// The file `file` after the script options `options`, one after the other.
pub open spec fn file_after_js_options(file: FileAsset, options: Seq<ParseJsOption>) -> FileAsset
    decreases options.len(),
{
    if options.len() == 0 {
        file
    } else {
        file_after_js_option(file_after_js_options(file, options.drop_last()), options.last())
    }
}

/// The options of a script, in the order in which they were written.
#[derive(Debug, PartialEq, Eq)]
pub struct ParseJsOptions {
    pub options: Vec<ParseJsOption>,
}

impl ParseJsOptions {
    /// Applies the options in their order.
    pub fn apply_to_options(self, file: &mut FileAsset)
        ensures
            *final(file) == file_after_js_options(*old(file), self.options@),
    {
        let ghost file0 = *file;
        let ghost all = self.options@;
        let mut i: usize = 0;
        assert(all.take(0) =~= Seq::<ParseJsOption>::empty());
        while i < self.options.len()
            invariant
                i <= self.options.len(),
                all == self.options@,
                *file == file_after_js_options(file0, all.take(i as int)),
            decreases self.options.len() - i,
        {
            proof {
                let next = all.take(i + 1);
                assert(next.drop_last() =~= all.take(i as int));
                assert(next.last() == all[i as int]);
            }
            let option = self.options[i];
            option.apply_to_options(file);
            i += 1;
        }
        assert(all.take(i as int) =~= all);
    }
}

/// The descriptor of a script that is declared with the given options: a
/// script that is minified, not preloaded and not URL-encoded, changed by
/// the options.
pub fn js_asset(
    source: AssetSource,
    served_location: Result<String, SupportError>,
    options: ParseJsOptions,
) -> (out: FileAsset)
    ensures
        out == file_after_js_options(
            FileAsset {
                source,
                options: FileOptions::Js(JsOptions { minify: true, preload: false }),
                served_location,
                url_encoded: false,
            },
            options.options@,
        ),
{
    let mut file = FileAsset::new(source, served_location).with_options(
        FileOptions::Js(JsOptions { minify: true, preload: false }),
    );
    options.apply_to_options(&mut file);
    file
}

} // verus!
