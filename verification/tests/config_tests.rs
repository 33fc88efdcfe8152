use libhupa::Config;
use libhupa::Error;

#[test]
fn read_config_from_json() {
    let json_str = "{\"metadata_path\":\"/\", \"autobackup_interval\":260}";
    let config = Config::from_json_stream(json_str).unwrap();
    assert_eq!(config.metadata_path, "/");
    assert_eq!(config.autobackup_interval, 260);
}

#[test]
fn read_config_keeps_named_vars_path() {
    let json_str =
        "{\"metadata_path\":\"/m\",\"autobackup_interval\":5,\"vars_path\":\"/v\"}";
    let config = Config::from_json_stream(json_str).unwrap();
    assert_eq!(config.metadata_path, "/m");
    assert_eq!(config.autobackup_interval, 5);
    assert_eq!(config.vars_path, "/v");
}

#[test]
fn read_config_defaults_interval_to_an_hour() {
    let json_str = "{\"metadata_path\":\"/m\",\"vars_path\":\"/v\"}";
    let config = Config::from_json_stream(json_str).unwrap();
    assert_eq!(config.autobackup_interval, 3600);
}

#[test]
fn read_config_requires_metadata_path() {
    let json_str = "{\"autobackup_interval\":5}";
    let r = Config::from_json_stream(json_str);
    assert!(matches!(r, Err(Error::MissingMetadataPath)));
}

#[test]
fn config_path_ends_with_config() {
    if let Ok(p) = Config::config_path() {
        assert!(p.ends_with("/config"));
    }
}

#[test]
fn config_new_keeps_fields() {
    let config = Config::new("/m".to_string(), 12, "/v".to_string());
    assert_eq!(config.metadata_path, "/m");
    assert_eq!(config.autobackup_interval, 12);
    assert_eq!(config.vars_path, "/v");
}
