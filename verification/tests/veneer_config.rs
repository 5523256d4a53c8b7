use veneer::veneer_config::{check_version, Reporters, VeneerConfig, VENEER_CONFIG_VERSION};

#[test]
fn absence_yields_working_defaults() {
    let config = VeneerConfig::default();
    assert_eq!(config.version, VENEER_CONFIG_VERSION);
    assert_eq!(config.output_dir(), "docs");
    assert!(config.reporters.is_none());
}

#[test]
fn declared_output_dir_overrides_the_default() {
    let config = VeneerConfig {
        version: 1,
        output_dir: Some("site/docs".to_string()),
        reporters: Some(Reporters { tests: vec!["reports/vitest.json".to_string()], accessibility: vec![] }),
    };
    assert_eq!(config.output_dir(), "site/docs");
    assert_eq!(check_version("/p/veneer.json", config.clone()), Ok(config));
}

#[test]
fn an_unsupported_version_is_a_named_error() {
    let config = VeneerConfig { version: 9, ..VeneerConfig::default() };
    let error = check_version("/p/veneer.json", config).expect_err("version refused");
    assert!(error.contains("version 9"), "{error}");
    assert!(error.contains("veneer.json"), "{error}");
}
