use lrc_media::settings::AppSettings;

#[test]
fn settings_default_where_the_store_is_empty() {
    let settings = AppSettings::load_from_store(None, None);
    assert_eq!(settings.media_directory, "/path");
    assert_eq!(settings.theme, "dark");
}

#[test]
fn settings_come_from_the_store() {
    let settings = AppSettings::load_from_store(Some("/srv/media"), Some("light"));
    assert_eq!(settings.media_directory, "/srv/media");
    assert_eq!(settings.theme, "light");
}

#[test]
fn each_setting_defaults_on_its_own() {
    let settings = AppSettings::load_from_store(Some(""), None);
    assert_eq!(settings.media_directory, "");
    assert_eq!(settings.theme, "dark");
    let settings = AppSettings::load_from_store(None, Some("solarized"));
    assert_eq!(settings.media_directory, "/path");
    assert_eq!(settings.theme, "solarized");
}
