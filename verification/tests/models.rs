use ward::models::{SetupDto, Theme};

fn base_setup() -> SetupDto {
    SetupDto {
        server_name: "Ward".to_string(),
        theme: Theme::Light,
        port: 4000,
        enable_fog: true,
        background_color: "default".to_string(),
    }
}

#[test]
fn validate_ok_default_background() {
    let dto = base_setup();
    assert!(dto.validate().is_ok());
}

#[test]
fn validate_ok_hex_background() {
    let mut dto = base_setup();
    dto.background_color = "#a1B2c3".to_string();
    assert!(dto.validate().is_ok());
}

#[test]
fn validate_err_empty_server_name() {
    let mut dto = base_setup();
    dto.server_name = "   ".to_string();
    assert!(dto.validate().is_err());
}

#[test]
fn validate_err_long_server_name() {
    let mut dto = base_setup();
    dto.server_name = "012345678901234567890123456789012".to_string();
    assert!(dto.validate().is_err());
}

#[test]
fn validate_err_low_port() {
    let mut dto = base_setup();
    dto.port = 80;
    assert!(dto.validate().is_err());
}

#[test]
fn validate_err_invalid_hex_background_missing_hash() {
    let mut dto = base_setup();
    dto.background_color = "a1b2c3".to_string();
    assert!(dto.validate().is_err());
}

#[test]
fn validate_err_invalid_hex_background_wrong_length() {
    let mut dto = base_setup();
    dto.background_color = "#12345".to_string();
    assert!(dto.validate().is_err());
}

#[test]
fn validate_err_invalid_hex_background_non_hex() {
    let mut dto = base_setup();
    dto.background_color = "#12zzzz".to_string();
    assert!(dto.validate().is_err());
}

#[test]
fn validate_messages_name_each_rule() {
    let mut dto = base_setup();
    dto.server_name = " \t ".to_string();
    assert_eq!(dto.validate(), Err("serverName cannot be empty".to_string()));

    let mut dto = base_setup();
    dto.server_name = "x".repeat(33);
    assert_eq!(dto.validate(), Err("serverName too long".to_string()));

    let mut dto = base_setup();
    dto.port = 1023;
    assert_eq!(dto.validate(), Err("port must be in range 1024-65535".to_string()));

    let mut dto = base_setup();
    dto.background_color = "#GGGGGG".to_string();
    assert_eq!(
        dto.validate(),
        Err("backgroundColor must be \"default\" or a hex color like \"#RRGGBB\"".to_string())
    );
}

#[test]
fn validate_trims_name_before_counting() {
    let mut dto = base_setup();
    dto.server_name = format!("  {}  ", "a".repeat(32));
    assert!(dto.validate().is_ok());

    // Characters, not bytes, are counted.
    let mut dto = base_setup();
    dto.server_name = "é".repeat(32);
    assert!(dto.validate().is_ok());

    // Unicode spaces are trimmed as well.
    let mut dto = base_setup();
    dto.server_name = "\u{3000}\u{a0}".to_string();
    assert!(dto.validate().is_err());
}

#[test]
fn validate_port_bounds() {
    let mut dto = base_setup();
    dto.port = 1024;
    assert!(dto.validate().is_ok());
    dto.port = 65535;
    assert!(dto.validate().is_ok());
}

#[test]
fn validate_rule_order() {
    // The name is checked before the port, the port before the background.
    let mut dto = base_setup();
    dto.server_name = String::new();
    dto.port = 1;
    dto.background_color = "bad".to_string();
    assert_eq!(dto.validate(), Err("serverName cannot be empty".to_string()));
    dto.server_name = "ok".to_string();
    assert_eq!(dto.validate(), Err("port must be in range 1024-65535".to_string()));
}

#[test]
fn theme_names_round_trip() {
    assert_eq!(Theme::Light.to_string(), "light");
    assert_eq!(Theme::Dark.to_string(), "dark");
    assert_eq!(Theme::parse("light"), Ok(Theme::Light));
    assert_eq!(Theme::parse("dark"), Ok(Theme::Dark));
    assert_eq!(Theme::parse(&Theme::Dark.to_string()), Ok(Theme::Dark));
    assert_eq!(Theme::parse("Dark"), Err(()));
    assert_eq!(Theme::parse(" dark"), Err(()));
    assert_eq!("dark".parse::<Theme>(), Ok(Theme::Dark));
}
