use asset_manifest::cache::{
    asset_cache_dir, cache_dir_in, cache_file_path, child_path, config_path, config_path_in,
    package_cache_dir, package_cache_dir_in, package_identifier, push_identifier_path,
    push_package_cache_dir, PackageContext, CACHE_DIR_NAME, CACHE_FILE_NAME, CONFIG_FILE_NAME,
};

#[test]
fn identifier_without_binary() {
    assert_eq!(package_identifier("demo", None, "0.1.0"), "demo-0.1.0");
}

#[test]
fn identifier_with_binary() {
    assert_eq!(
        package_identifier("demo", Some("server"), "0.1.0"),
        "demo-server-0.1.0"
    );
}

#[test]
fn identifier_of_empty_parts() {
    assert_eq!(package_identifier("", None, ""), "-");
    assert_eq!(package_identifier("", Some(""), ""), "--");
}

#[test]
fn identifier_is_appended_to_a_path() {
    let mut dir = "/home/me/.cargo/assets".to_string();
    push_identifier_path(&mut dir, '/', "demo", Some("cli"), "1.2.3");
    assert_eq!(dir, "/home/me/.cargo/assets/demo-cli-1.2.3");
}

#[test]
fn identifier_is_appended_after_the_platform_separator() {
    let mut dir = "cache".to_string();
    push_package_cache_dir("demo", None, "1.2.3", &mut dir);
    assert_eq!(
        dir,
        format!("cache{}demo-1.2.3", std::path::MAIN_SEPARATOR)
    );
}

#[test]
fn paths_inside_the_cache() {
    assert_eq!(child_path("/home/me/.cargo", '/', CACHE_DIR_NAME), "/home/me/.cargo/assets");
    assert_eq!(
        cache_file_path("/c", '/', "demo-0.1.0"),
        format!("/c/demo-0.1.0/{}", CACHE_FILE_NAME)
    );
}

#[test]
fn identifier_of_the_package_being_built() {
    let context = PackageContext {
        name: "demo".to_string(),
        bin: Some("server".to_string()),
        version: "2.0.0".to_string(),
    };
    assert_eq!(context.identifier(), "demo-server-2.0.0");
    let plain = PackageContext { name: "demo".to_string(), bin: None, version: "2.0.0".to_string() };
    assert_eq!(plain.identifier(), "demo-2.0.0");
}

#[test]
fn a_separator_is_not_doubled() {
    assert_eq!(child_path("/c/", '/', "a"), "/c/a");
    assert_eq!(child_path("/", '/', "a"), "/a");
    assert_eq!(child_path("", '/', "a"), "a");
    assert_eq!(child_path("c", '\\', "a"), "c\\a");
    assert_eq!(cache_file_path("/c/", '/', "p-1"), "/c/p-1/assets.toml");
}

#[test]
fn the_cache_lies_in_the_home_of_cargo() {
    let home = home::cargo_home().unwrap();
    let cache = asset_cache_dir().unwrap();
    assert_eq!(std::path::PathBuf::from(&cache), home.join(CACHE_DIR_NAME));
    assert_eq!(
        std::path::PathBuf::from(config_path().unwrap()),
        home.join(CACHE_DIR_NAME).join(CONFIG_FILE_NAME)
    );
    let context = PackageContext {
        name: "demo".to_string(),
        bin: None,
        version: "2.0.0".to_string(),
    };
    assert_eq!(
        std::path::PathBuf::from(package_cache_dir(&context).unwrap()),
        home.join(CACHE_DIR_NAME).join("demo-2.0.0")
    );
}

#[test]
fn the_cache_of_a_given_home() {
    let context = PackageContext {
        name: "demo".to_string(),
        bin: Some("cli".to_string()),
        version: "2.0.0".to_string(),
    };
    assert_eq!(
        cache_dir_in(Some("/home/me/.cargo"), '/'),
        Some("/home/me/.cargo/assets".to_string())
    );
    assert_eq!(
        config_path_in(Some("/home/me/.cargo/"), '/'),
        Some("/home/me/.cargo/assets/config.toml".to_string())
    );
    assert_eq!(
        package_cache_dir_in(Some("C:\\cargo"), '\\', &context),
        Some("C:\\cargo\\assets\\demo-cli-2.0.0".to_string())
    );
    assert_eq!(cache_dir_in(None, '/'), None);
    assert_eq!(config_path_in(None, '/'), None);
    assert_eq!(package_cache_dir_in(None, '/', &context), None);
}
