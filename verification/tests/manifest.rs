use asset_manifest::asset::{
    served_name, AssetSource, AssetType, CssOptions, FileAsset, FileOptions, FolderAsset,
    ImageOptions, ImageType, JsOptions, SupportError, TailwindAsset,
};
use asset_manifest::manifest::AssetManifest;
use asset_manifest::package::PackageAssets;

fn file(path: &str, options: FileOptions, served: Result<&str, SupportError>) -> AssetType {
    AssetType::File(
        FileAsset::new(
            AssetSource::Local(path.to_string()),
            served.map(|s| s.to_string()),
        )
        .with_options(options),
    )
}

fn tailwind(classes: &str) -> AssetType {
    AssetType::Tailwind(TailwindAsset::new(classes.to_string()))
}

#[test]
fn classes_are_joined_with_a_space_after_each() {
    let manifest = AssetManifest::new(vec![PackageAssets::new(
        "a-1".to_string(),
        vec![tailwind("flex"), tailwind("p-4 text-lg")],
    )]);
    assert_eq!(manifest.tailwind_classes(), "flex p-4 text-lg ");
}

#[test]
fn classes_of_all_groups_are_collected() {
    let manifest = AssetManifest::new(vec![
        PackageAssets::new("a-1".to_string(), vec![tailwind("flex")]),
        PackageAssets::new(
            "b-1".to_string(),
            vec![
                file("a.css", FileOptions::Css(CssOptions { preload: true }), Ok("/a.css")),
                tailwind("p-4"),
            ],
        ),
    ]);
    assert_eq!(manifest.tailwind_classes(), "flex p-4 ");
}

#[test]
fn no_classes_give_an_empty_text() {
    assert_eq!(AssetManifest::default().tailwind_classes(), "");
}

#[test]
fn the_assets_are_the_groups_one_after_the_other() {
    let first = vec![tailwind("a"), tailwind("b")];
    let second = vec![tailwind("c")];
    let manifest = AssetManifest::new(vec![
        PackageAssets::new("a-1".to_string(), first),
        PackageAssets::new("empty-1".to_string(), Vec::new()),
        PackageAssets::new("b-1".to_string(), second),
    ]);
    assert_eq!(manifest.packages().len(), 3);
    assert_eq!(manifest.packages()[2].package(), "b-1");
    assert_eq!(
        manifest.assets(),
        &vec![tailwind("a"), tailwind("b"), tailwind("c")]
    );
}

#[test]
fn the_empty_manifest_has_nothing_to_copy() {
    let manifest = AssetManifest::default();
    assert!(manifest.packages().is_empty());
    assert!(manifest.assets().is_empty());
    assert!(manifest.file_assets().is_empty());
    assert_eq!(manifest, AssetManifest::new(Vec::new()));
}

#[test]
fn only_files_are_handed_on_to_be_copied() {
    let css = file("a.css", FileOptions::Css(CssOptions { preload: false }), Ok("/a.css"));
    let other = file("b.bin", FileOptions::Other, Err(SupportError::ExternalPackageCollection));
    let manifest = AssetManifest::new(vec![PackageAssets::new(
        "a-1".to_string(),
        vec![
            css.clone(),
            AssetType::Folder(FolderAsset::new(
                AssetSource::Local("static".to_string()),
                Ok("/static".to_string()),
            )),
            tailwind("flex"),
            other.clone(),
        ],
    )]);
    let files: Vec<AssetType> = manifest.file_assets().into_iter().map(AssetType::File).collect();
    assert_eq!(files, vec![css, other]);
}

#[test]
fn the_head_preloads_what_asks_for_it() {
    let manifest = AssetManifest::new(vec![PackageAssets::new(
        "a-1".to_string(),
        vec![
            file("a.css", FileOptions::Css(CssOptions { preload: true }), Ok("/a.css")),
            file("b.css", FileOptions::Css(CssOptions { preload: false }), Ok("/b.css")),
            file(
                "c.png",
                FileOptions::Image(ImageOptions { ty: ImageType::Avif, size: None, preload: true }),
                Ok("/c.avif"),
            ),
            file(
                "d.js",
                FileOptions::Js(JsOptions { minify: true, preload: true }),
                Ok("/d.js"),
            ),
            file(
                "e.js",
                FileOptions::Js(JsOptions { minify: true, preload: true }),
                Err(SupportError::FailedToFindCargoManifest),
            ),
            file("f.bin", FileOptions::Other, Ok("/f.bin")),
            tailwind("flex"),
        ],
    )]);
    assert_eq!(
        manifest.head(),
        "<link rel=\"preload\" as=\"style\" href=\"/a.css\">\n\
         <link rel=\"preload\" as=\"image\" href=\"/c.avif\">\n\
         <link rel=\"preload\" as=\"script\" href=\"/d.js\">\n"
    );
}

#[test]
fn the_head_of_the_empty_manifest_is_empty() {
    assert_eq!(AssetManifest::default().head(), "");
}

#[test]
fn descriptors_are_read_through_their_getters() {
    let mut asset = FileAsset::new(
        AssetSource::Remote("https://example.com/a.js".to_string()),
        Err(SupportError::ExternalPackageCollection),
    );
    assert_eq!(*asset.options(), FileOptions::Other);
    assert!(!asset.url_encoded());
    assert!(asset.source().is_remote());
    assert_eq!(asset.source().text(), "https://example.com/a.js");
    asset.set_options(FileOptions::Js(JsOptions { minify: false, preload: true }));
    asset.set_url_encoded(true);
    assert_eq!(*asset.options(), FileOptions::Js(JsOptions { minify: false, preload: true }));
    assert!(asset.url_encoded());
    assert_eq!(*asset.served_location(), Err(SupportError::ExternalPackageCollection));
    let folder = FolderAsset::new(AssetSource::Local("d".to_string()), Ok("/d".to_string()));
    assert!(!folder.source().is_remote());
    assert_eq!(*folder.served_location(), Ok("/d".to_string()));
    assert_eq!(TailwindAsset::new("flex".to_string()).classes(), "flex");
}

#[test]
fn sources_are_told_apart_and_served_by_their_last_component() {
    assert_eq!(
        AssetSource::parse("https://example.com/a.css"),
        AssetSource::Remote("https://example.com/a.css".to_string())
    );
    assert_eq!(
        AssetSource::parse("http://example.com"),
        AssetSource::Remote("http://example.com".to_string())
    );
    assert_eq!(AssetSource::parse("http:/a"), AssetSource::Local("http:/a".to_string()));
    assert_eq!(AssetSource::parse("https:/"), AssetSource::Local("https:/".to_string()));
    assert_eq!(AssetSource::parse("assets/a.css"), AssetSource::Local("assets/a.css".to_string()));
    assert_eq!(AssetSource::parse(""), AssetSource::Local(String::new()));
    assert_eq!(served_name("assets/img/logo.png"), "/logo.png");
    assert_eq!(served_name("assets\\logo.png"), "/logo.png");
    assert_eq!(served_name("logo.png"), "/logo.png");
    assert_eq!(served_name("assets/"), "/");
    assert_eq!(served_name(""), "/");
}

#[test]
fn a_manifest_is_cloned_group_for_group() {
    let manifest = AssetManifest::new(vec![
        PackageAssets::new("a-1".to_string(), vec![tailwind("a"), tailwind("b")]),
        PackageAssets::new("b-1".to_string(), Vec::new()),
    ]);
    let copy = manifest.clone();
    assert_eq!(copy, manifest);
    assert_eq!(copy.assets(), manifest.assets());
    let group = manifest.packages()[0].clone();
    assert_eq!(&group, &manifest.packages()[0]);
}
