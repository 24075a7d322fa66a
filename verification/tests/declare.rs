use asset_manifest::asset::{
    AssetSource, FileAsset, FileOptions, ImageOptions, ImageSize, ImageType, JsOptions,
    SupportError,
};
use asset_manifest::font::{
    decimal, join, parse_font_option_name, replace_spaces, FontOptionName, ParseFontOptions,
};
use asset_manifest::options::{
    image_asset, js_asset, parse_image_option_name, parse_image_type, parse_js_option_name,
    preview_size, same_text, ImageOptionName, JsOptionName, ParseImageOption,
    ParseImageOptions, ParseJsOption, ParseJsOptions,
};

fn strings(parts: &[&str]) -> Vec<String> {
    parts.iter().map(|p| p.to_string()).collect()
}

#[test]
fn the_address_of_no_fonts() {
    let options = ParseFontOptions {
        families: Vec::new(),
        weights: Vec::new(),
        text: None,
        display: None,
    };
    assert_eq!(options.url(), "https://fonts.googleapis.com/css2");
}

#[test]
fn the_address_of_fonts() {
    let options = ParseFontOptions {
        families: strings(&["Comfortaa", "Open Sans"]),
        weights: vec![300, 0, 4294967295],
        text: Some("Hello World".to_string()),
        display: Some("swap".to_string()),
    };
    assert_eq!(
        options.url(),
        "https://fonts.googleapis.com/css2?family=Comfortaa&Open+Sans&weight=300,0,4294967295&text=Hello+World&display=swap"
    );
}

#[test]
fn the_address_of_some_segments() {
    let weights = ParseFontOptions {
        families: Vec::new(),
        weights: vec![400],
        text: None,
        display: None,
    };
    assert_eq!(weights.url(), "https://fonts.googleapis.com/css2?weight=400");
    let display = ParseFontOptions {
        families: strings(&["Roboto"]),
        weights: Vec::new(),
        text: None,
        display: Some("block".to_string()),
    };
    assert_eq!(
        display.url(),
        "https://fonts.googleapis.com/css2?family=Roboto&display=block"
    );
}

#[test]
fn joining_replacing_and_digits() {
    assert_eq!(join(&Vec::new(), ", "), "");
    assert_eq!(join(&strings(&["a"]), ", "), "a");
    assert_eq!(join(&strings(&["a", "", "c"]), ", "), "a, , c");
    assert_eq!(replace_spaces(" a  b "), "+a++b+");
    assert_eq!(replace_spaces(""), "");
    assert_eq!(decimal(0), "0");
    assert_eq!(decimal(7), "7");
    assert_eq!(decimal(10), "10");
    assert_eq!(decimal(1234567890), "1234567890");
    assert_eq!(decimal(u32::MAX), "4294967295");
}

#[test]
fn strings_are_compared() {
    assert!(same_text("", ""));
    assert!(same_text("abc", "abc"));
    assert!(!same_text("abc", "abd"));
    assert!(!same_text("abc", "ab"));
}

#[test]
fn names_of_formats_and_options() {
    assert_eq!(parse_image_type("png"), Some(ImageType::Png));
    assert_eq!(parse_image_type("jpg"), Some(ImageType::Jpg));
    assert_eq!(parse_image_type("jpeg"), Some(ImageType::Jpg));
    assert_eq!(parse_image_type("webp"), Some(ImageType::Webp));
    assert_eq!(parse_image_type("avif"), Some(ImageType::Avif));
    assert_eq!(parse_image_type("gif"), None);
    assert_eq!(parse_image_type("PNG"), None);

    assert_eq!(parse_image_option_name("format"), Some(ImageOptionName::Format));
    assert_eq!(parse_image_option_name("size"), Some(ImageOptionName::Size));
    assert_eq!(parse_image_option_name("preload"), Some(ImageOptionName::Preload));
    assert_eq!(parse_image_option_name("url_encoded"), Some(ImageOptionName::UrlEncoded));
    assert_eq!(
        parse_image_option_name("low_quality_preview"),
        Some(ImageOptionName::LowQualityPreview)
    );
    assert_eq!(parse_image_option_name("minify"), None);

    assert_eq!(parse_js_option_name("preload"), Some(JsOptionName::Preload));
    assert_eq!(parse_js_option_name("url_encoded"), Some(JsOptionName::UrlEncoded));
    assert_eq!(parse_js_option_name("minify"), Some(JsOptionName::Minify));
    assert_eq!(parse_js_option_name("format"), None);
}

#[test]
fn an_image_is_declared_with_options() {
    let options = ParseImageOptions {
        options: vec![
            ParseImageOption::Format(ImageType::Png),
            ParseImageOption::Size(ImageSize { width: 52, height: 52 }),
            ParseImageOption::Lqip(true),
            ParseImageOption::Format(ImageType::Webp),
            ParseImageOption::Preload(true),
            ParseImageOption::UrlEncoded(true),
        ],
    };
    let (file, preview) = image_asset(
        AssetSource::Local("a.png".to_string()),
        Ok("/a.webp".to_string()),
        options,
    );
    assert!(preview);
    assert_eq!(
        file,
        FileAsset {
            source: AssetSource::Local("a.png".to_string()),
            options: FileOptions::Image(ImageOptions {
                ty: ImageType::Webp,
                size: Some(ImageSize { width: 52, height: 52 }),
                preload: true,
            }),
            served_location: Ok("/a.webp".to_string()),
            url_encoded: true,
        }
    );
}

#[test]
fn an_image_is_declared_without_options() {
    let (file, preview) = image_asset(
        AssetSource::Remote("https://example.com/a.png".to_string()),
        Err(SupportError::FailedToFindCargoManifest),
        ParseImageOptions { options: Vec::new() },
    );
    assert!(!preview);
    assert_eq!(
        *file.options(),
        FileOptions::Image(ImageOptions { ty: ImageType::Avif, size: None, preload: false })
    );
    assert!(!file.url_encoded());
}

#[test]
fn image_options_leave_other_files_alone() {
    let mut file = FileAsset::new(AssetSource::Local("a.css".to_string()), Ok("/a".to_string()));
    let mut preview = true;
    ParseImageOption::Format(ImageType::Png).apply_to_options(&mut file, &mut preview);
    ParseImageOption::Preload(true).apply_to_options(&mut file, &mut preview);
    assert_eq!(*file.options(), FileOptions::Other);
    assert!(preview);
    ParseImageOption::Lqip(false).apply_to_options(&mut file, &mut preview);
    assert!(!preview);
}

#[test]
fn the_size_of_a_preview() {
    assert_eq!(preview_size(None), ImageSize { width: 32, height: 32 });
    assert_eq!(
        preview_size(Some(ImageSize { width: 1920, height: 1085 })),
        ImageSize { width: 192, height: 108 }
    );
    assert_eq!(
        preview_size(Some(ImageSize { width: 9, height: u32::MAX })),
        ImageSize { width: 0, height: 429496729 }
    );
}

#[test]
fn a_script_is_declared_with_options() {
    let file = js_asset(
        AssetSource::Local("a.js".to_string()),
        Ok("/a.js".to_string()),
        ParseJsOptions {
            options: vec![
                ParseJsOption::Minify(false),
                ParseJsOption::Preload(true),
                ParseJsOption::UrlEncoded(true),
                ParseJsOption::UrlEncoded(false),
            ],
        },
    );
    assert_eq!(
        *file.options(),
        FileOptions::Js(JsOptions { minify: false, preload: true })
    );
    assert!(!file.url_encoded());
    let plain = js_asset(
        AssetSource::Local("a.js".to_string()),
        Ok("/a.js".to_string()),
        ParseJsOptions { options: Vec::new() },
    );
    assert_eq!(
        *plain.options(),
        FileOptions::Js(JsOptions { minify: true, preload: false })
    );
}

#[test]
fn names_of_font_options() {
    assert_eq!(parse_font_option_name("families"), Some(FontOptionName::Families));
    assert_eq!(parse_font_option_name("weights"), Some(FontOptionName::Weights));
    assert_eq!(parse_font_option_name("text"), Some(FontOptionName::Text));
    assert_eq!(parse_font_option_name("display"), Some(FontOptionName::Display));
    assert_eq!(parse_font_option_name("Families"), None);
    assert_eq!(parse_font_option_name("size"), None);
}
