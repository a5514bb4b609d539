use tagged::cli::config::Config;

#[test]
fn settings_are_taken_as_given() {
    let config = Config::with_defaults(
        Some("/data/files".to_string()),
        Some("links".to_string()),
        "/home/me/tagged".to_string(),
    );
    assert_eq!(config.managed_directory, "/data/files");
    assert_eq!(config.link_directory_name, "links");
}

#[test]
fn missing_settings_get_their_defaults() {
    let config = Config::with_defaults(None, None, "/home/me/tagged".to_string());
    assert_eq!(config.managed_directory, "/home/me/tagged");
    assert_eq!(config.link_directory_name, "!link");
}

#[test]
fn each_setting_is_defaulted_alone() {
    let config = Config::with_defaults(Some("/d".to_string()), None, "/h".to_string());
    assert_eq!(config.managed_directory, "/d");
    assert_eq!(config.link_directory_name, "!link");
    let config = Config::with_defaults(None, Some("l".to_string()), "/h".to_string());
    assert_eq!(config.managed_directory, "/h");
    assert_eq!(config.link_directory_name, "l");
}

#[test]
fn cloned_settings_are_equal() {
    let config = Config::with_defaults(None, Some("l".to_string()), "/h".to_string());
    let copy = config.clone();
    assert_eq!(copy.managed_directory, "/h");
    assert_eq!(copy.link_directory_name, "l");
}
