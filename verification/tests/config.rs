use mirrord_steal::config::{
    HttpHeaderFilterConfig, IncomingConfig, IncomingConfigParseError, IncomingMode,
};

#[test]
fn mode_from_booleans() {
    assert_eq!("true".parse::<IncomingMode>(), Ok(IncomingMode::Steal));
    assert_eq!("false".parse::<IncomingMode>(), Ok(IncomingMode::Mirror));
}

#[test]
fn mode_from_names() {
    assert_eq!("steal".parse::<IncomingMode>(), Ok(IncomingMode::Steal));
    assert_eq!("mirror".parse::<IncomingMode>(), Ok(IncomingMode::Mirror));
    assert_eq!(IncomingMode::parse("steal"), Ok(IncomingMode::Steal));
}

#[test]
fn mode_from_anything_else_fails() {
    assert_eq!("Steal".parse::<IncomingMode>(), Err(IncomingConfigParseError));
    assert_eq!("".parse::<IncomingMode>(), Err(IncomingConfigParseError));
    assert_eq!("1".parse::<IncomingMode>(), Err(IncomingConfigParseError));
    assert_eq!("mirror ".parse::<IncomingMode>(), Err(IncomingConfigParseError));
}

#[test]
fn parse_error_message() {
    assert_eq!(
        IncomingConfigParseError.message(),
        "could not parse IncomingConfig from string, values must be bool or mirror/steal"
    );
}

#[test]
fn default_is_mirror_without_filter() {
    let config = IncomingConfig::default();
    assert_eq!(config.mode, IncomingMode::Mirror);
    assert_eq!(config.http_header_filter, HttpHeaderFilterConfig { filter: None });
    assert!(!config.is_steal());
    assert_eq!(IncomingMode::default(), IncomingMode::Mirror);
}

#[test]
fn is_steal_follows_the_mode() {
    let steal = IncomingConfig {
        mode: IncomingMode::Steal,
        http_header_filter: HttpHeaderFilterConfig { filter: Some("Id: token.*".to_string()) },
    };
    assert!(steal.is_steal());
    let mirror = IncomingConfig { mode: IncomingMode::Mirror, ..steal.clone() };
    assert!(!mirror.is_steal());
}

#[test]
fn disabled_config_follows_the_override() {
    assert_eq!(IncomingConfig::disabled_config(None), Ok(IncomingConfig::default()));
    let stolen = IncomingConfig::disabled_config(Some("true")).unwrap();
    assert!(stolen.is_steal());
    assert_eq!(stolen.http_header_filter.filter, None);
    assert!(!IncomingConfig::disabled_config(Some("mirror")).unwrap().is_steal());
    assert_eq!(IncomingConfig::disabled_config(Some("maybe")), Err(IncomingConfigParseError));
}
