use asset_manifest::asset::{
    AssetSource, AssetType, CssOptions, FileAsset, FileOptions, FolderAsset, ImageOptions,
    ImageSize, ImageType, JsOptions, SupportError, TailwindAsset,
};
use asset_manifest::codec::decode::{decode_blob, DecodeError};
use asset_manifest::codec::encode::{encode_asset, encode_blob};
use asset_manifest::package::{entry_with, PackageAssets};

fn image_file() -> AssetType {
    AssetType::File(FileAsset {
        source: AssetSource::Local("assets/logo.png".to_string()),
        options: FileOptions::Image(ImageOptions {
            ty: ImageType::Avif,
            size: Some(ImageSize { width: 64, height: 48 }),
            preload: true,
        }),
        served_location: Ok("/assets/logo-1a2b.avif".to_string()),
        url_encoded: false,
    })
}

fn samples() -> Vec<AssetType> {
    vec![
        image_file(),
        AssetType::File(FileAsset {
            source: AssetSource::Remote("https://example.com/a.css".to_string()),
            options: FileOptions::Css(CssOptions { preload: false }),
            served_location: Err(SupportError::FailedToFindCargoManifest),
            url_encoded: true,
        }),
        AssetType::File(FileAsset {
            source: AssetSource::Local("app.js".to_string()),
            options: FileOptions::Js(JsOptions { minify: true, preload: false }),
            served_location: Err(SupportError::ExternalPackageCollection),
            url_encoded: false,
        }),
        AssetType::Folder(FolderAsset {
            source: AssetSource::Local("static".to_string()),
            served_location: Ok("/static".to_string()),
        }),
        AssetType::Tailwind(TailwindAsset { classes: "flex p-4".to_string() }),
    ]
}

#[test]
fn a_file_record_is_written_field_by_field() {
    assert_eq!(
        encode_asset(&image_file()),
        "FL\"assets/logo.png\"ia[64x48]1=\"/assets/logo-1a2b.avif\"0"
    );
}

#[test]
fn records_of_every_kind_are_written() {
    let all = samples();
    assert_eq!(
        encode_asset(&all[1]),
        "FR\"https://example.com/a.css\"c0!m1"
    );
    assert_eq!(encode_asset(&all[2]), "FL\"app.js\"j10!e0");
    assert_eq!(encode_asset(&all[3]), "DL\"static\"=\"/static\"");
    assert_eq!(encode_asset(&all[4]), "T\"flex p-4\"");
}

#[test]
fn a_file_of_no_kind_and_an_image_without_size() {
    let plain = AssetType::File(FileAsset::new(
        AssetSource::Local("a.bin".to_string()),
        Ok("/a.bin".to_string()),
    ));
    assert_eq!(encode_asset(&plain), "FL\"a.bin\"o=\"/a.bin\"0");
    let image = AssetType::File(
        FileAsset::new(AssetSource::Local("a.png".to_string()), Ok("/a".to_string()))
            .with_options(FileOptions::Image(ImageOptions {
                ty: ImageType::Png,
                size: None,
                preload: false,
            })),
    );
    assert_eq!(encode_asset(&image), "FL\"a.png\"ip-0=\"/a\"0");
}

#[test]
fn quotes_backslashes_and_control_characters_are_escaped() {
    let asset = AssetType::Tailwind(TailwindAsset {
        classes: "a\"b\\c\nd\u{0}e\u{7f}f\u{9f}g\u{e9}".to_string(),
    });
    let text = encode_asset(&asset);
    assert_eq!(text, "T\"a\\\"b\\\\c\\0ad\\00e\\7ff\\9fg\u{e9}\"");
    assert!(text.chars().all(|c| !c.is_control()));
    assert_eq!(decode_blob(&text), Ok(vec![asset]));
}

#[test]
fn the_largest_size_is_read_back() {
    let asset = AssetType::File(
        FileAsset::new(AssetSource::Local("a".to_string()), Ok("b".to_string())).with_options(
            FileOptions::Image(ImageOptions {
                ty: ImageType::Webp,
                size: Some(ImageSize { width: u32::MAX, height: 0 }),
                preload: false,
            }),
        ),
    );
    let text = encode_asset(&asset);
    assert_eq!(text, "FL\"a\"iw[4294967295x0]0=\"b\"0");
    assert_eq!(decode_blob(&text), Ok(vec![asset]));
}

#[test]
fn an_empty_blob_holds_no_record() {
    assert_eq!(encode_blob(&Vec::new()), "");
    assert_eq!(decode_blob(""), Ok(Vec::new()));
}

#[test]
fn one_record_is_read_back() {
    let one = vec![image_file()];
    let text = encode_blob(&one);
    assert_eq!(decode_blob(&text), Ok(one));
}

#[test]
fn five_records_are_read_back_in_order() {
    let all = samples();
    assert_eq!(all.len(), 5);
    let mut text = String::new();
    for asset in &all {
        text.push_str(&encode_asset(asset));
    }
    assert_eq!(text, encode_blob(&all));
    assert_eq!(decode_blob(&text), Ok(all));
}

#[test]
fn a_bad_record_fails_the_blob() {
    let good = encode_asset(&image_file());
    let text = format!("{}{}X", good, good);
    assert_eq!(
        decode_blob(&text),
        Err(DecodeError { offset: 2 * good.chars().count() })
    );
}

#[test]
fn what_the_writer_does_not_write_is_not_read() {
    // an unknown tag
    assert_eq!(decode_blob("X\"a\""), Err(DecodeError { offset: 0 }));
    // a record that is cut off
    assert_eq!(decode_blob("T\"abc"), Err(DecodeError { offset: 0 }));
    // a space between two records
    assert_eq!(decode_blob("T\"a\" T\"b\""), Err(DecodeError { offset: 4 }));
    // a control character that is not escaped
    assert_eq!(decode_blob("T\"a\nb\""), Err(DecodeError { offset: 0 }));
    // an escape of a character that needs none
    assert_eq!(decode_blob("T\"\\41\""), Err(DecodeError { offset: 0 }));
    // an escape in upper case
    assert_eq!(decode_blob("T\"\\0A\""), Err(DecodeError { offset: 0 }));
    // a number with a leading zero
    assert_eq!(
        decode_blob("FL\"a\"ia[064x48]1=\"b\"0"),
        Err(DecodeError { offset: 0 })
    );
    // a number that is too large
    assert_eq!(
        decode_blob("FL\"a\"ia[4294967296x48]1=\"b\"0"),
        Err(DecodeError { offset: 0 })
    );
    // an unknown reason for a missing location
    assert_eq!(decode_blob("DL\"a\"!x"), Err(DecodeError { offset: 0 }));
}

#[test]
fn a_package_is_read_back_field_for_field() {
    let package = PackageAssets::new("demo-0.1.0".to_string(), samples());
    let text = package.encode();
    let back = PackageAssets::decode(&text).unwrap();
    assert_eq!(back.package(), "demo-0.1.0");
    assert_eq!(back.assets(), &samples());
    assert_eq!(back, package);
}

#[test]
fn a_package_without_assets_is_read_back() {
    let package = PackageAssets::new("empty \"pkg\"-1.0.0".to_string(), Vec::new());
    let text = package.encode();
    assert_eq!(text, "\"empty \\\"pkg\\\"-1.0.0\"");
    assert_eq!(PackageAssets::decode(&text), Ok(package));
}

#[test]
fn a_bad_package_text_fails() {
    assert_eq!(
        PackageAssets::decode("demo"),
        Err(DecodeError { offset: 0 })
    );
    assert_eq!(
        PackageAssets::decode("\"demo\"T\"a\"?"),
        Err(DecodeError { offset: 10 })
    );
}

#[test]
fn adding_keeps_the_order() {
    let mut package = PackageAssets::new("p-1".to_string(), Vec::new());
    for asset in samples() {
        package.add(asset);
    }
    assert_eq!(package.assets(), &samples());
    assert_eq!(package.package(), "p-1");
}

#[test]
fn an_asset_is_added_to_a_cache_entry() {
    let first = entry_with(None, "demo-0.1.0".to_string(), image_file());
    assert_eq!(
        PackageAssets::decode(&first),
        Ok(PackageAssets::new("demo-0.1.0".to_string(), vec![image_file()]))
    );
    let all = samples();
    let second = entry_with(Some(&first), "other-9.9.9".to_string(), all[4].clone());
    assert_eq!(
        PackageAssets::decode(&second),
        Ok(PackageAssets::new(
            "demo-0.1.0".to_string(),
            vec![image_file(), all[4].clone()]
        ))
    );
    let anew = entry_with(Some("no entry"), "demo-0.1.0".to_string(), all[3].clone());
    assert_eq!(anew, "\"demo-0.1.0\"DL\"static\"=\"/static\"");
}
