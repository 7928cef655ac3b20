use ward::config::{parse_bool, setup_from_entries, ConfigManager};
use ward::models::{SetupDto, Theme};

#[test]
fn test_config_manager() {
    let config_manager = ConfigManager::new("test_setup.ini");
    assert_eq!(config_manager.file_path, "test_setup.ini");

    // No file yet: not configured.
    assert!(!config_manager.is_configured(None));
    assert!(config_manager.read_config(None).is_none());

    let setup_dto = SetupDto {
        server_name: "TestServer".to_string(),
        theme: Theme::Dark,
        port: 4000,
        enable_fog: false,
        background_color: "#123456".to_string(),
    };

    let text = config_manager.write_config(&setup_dto);
    assert!(text.is_ok());
    let text = text.unwrap();
    assert!(config_manager.is_configured(Some(&text)));

    let read_dto = config_manager.read_config(Some(&text)).unwrap();
    assert_eq!(read_dto.server_name, "TestServer");
    assert_eq!(read_dto.theme, Theme::Dark);
    assert_eq!(read_dto.port, 4000);
    assert_eq!(read_dto.enable_fog, false);
    assert_eq!(read_dto.background_color, "#123456");
}

#[test]
fn test_invalid_config_is_not_configured() {
    let text = "[setup]
serverName=Ward
theme=light
port=not_a_number
enableFog=true
backgroundColor=default
";
    let config_manager = ConfigManager::new("test_invalid_setup.ini");
    assert!(!config_manager.is_configured(Some(text)));
    assert!(config_manager.read_config(Some(text)).is_none());
}

#[test]
fn written_file_holds_one_setup_section() {
    let config_manager = ConfigManager::new("setup.ini");
    let dto = SetupDto {
        server_name: "Home server".to_string(),
        theme: Theme::Light,
        port: 8080,
        enable_fog: true,
        background_color: "default".to_string(),
    };
    let text = config_manager.write_config(&dto).unwrap();
    let lines: Vec<&str> = text.lines().collect();
    assert_eq!(
        lines,
        vec![
            "[setup]",
            "serverName=Home server",
            "theme=light",
            "port=8080",
            "enableFog=true",
            "backgroundColor=default",
        ]
    );
    let back = config_manager.read_config(Some(&text)).unwrap();
    assert_eq!(back.server_name, "Home server");
    assert_eq!(back.port, 8080);
}

#[test]
fn missing_entries_take_defaults() {
    let cm = ConfigManager::new("setup.ini");
    let dto = cm.read_config(Some("[setup]\n")).unwrap();
    assert_eq!(dto.server_name, "Ward");
    assert_eq!(dto.theme, Theme::Light);
    assert_eq!(dto.port, 4000);
    assert_eq!(dto.enable_fog, true);
    assert_eq!(dto.background_color, "default");
}

#[test]
fn missing_section_or_bad_values_are_not_configured() {
    let cm = ConfigManager::new("setup.ini");
    assert!(cm.read_config(Some("")).is_none());
    assert!(cm.read_config(Some("[other]\nport=4000\n")).is_none());
    assert!(cm.read_config(Some("[setup]\ntheme=blue\n")).is_none());
    assert!(cm.read_config(Some("[setup]\nport=70000\n")).is_none());
    assert!(cm.read_config(Some("[setup]\nenableFog=yes\n")).is_none());
    assert!(cm.read_config(Some("[setup]\nport=+8080\n")).is_some());
}

#[test]
fn byte_order_mark_is_skipped() {
    let cm = ConfigManager::new("setup.ini");
    let dto = cm.read_config(Some("\u{feff}[setup]\nport=5000\n")).unwrap();
    assert_eq!(dto.port, 5000);
}

#[test]
fn first_setup_section_counts() {
    let cm = ConfigManager::new("setup.ini");
    let dto = cm
        .read_config(Some("[setup]\nport=5000\n[setup]\nport=6000\n"))
        .unwrap();
    assert_eq!(dto.port, 5000);
}

#[test]
fn entries_decode_with_defaults() {
    let dto = setup_from_entries(None, Some("dark".to_string()), None, Some("false".to_string()), None)
        .unwrap();
    assert_eq!(dto.server_name, "Ward");
    assert_eq!(dto.theme, Theme::Dark);
    assert_eq!(dto.port, 4000);
    assert!(!dto.enable_fog);
    assert!(setup_from_entries(None, None, Some("-1".to_string()), None, None).is_none());
}

#[test]
fn flags_parse_exactly() {
    assert_eq!(parse_bool("true"), Some(true));
    assert_eq!(parse_bool("false"), Some(false));
    assert_eq!(parse_bool("True"), None);
    assert_eq!(parse_bool("1"), None);
}

#[test]
fn escaped_characters_round_trip() {
    let cm = ConfigManager::new("setup.ini");
    let dto = SetupDto {
        server_name: "C:\\lab\tbox\u{1}\"x\" ; # = : é".to_string(),
        theme: Theme::Dark,
        port: 1024,
        enable_fog: true,
        background_color: "default".to_string(),
    };
    let text = cm.write_config(&dto).unwrap();
    let back = cm.read_config(Some(&text)).unwrap();
    assert_eq!(back.server_name, dto.server_name);
    assert_eq!(back.theme, Theme::Dark);
    assert_eq!(back.port, 1024);
}

#[test]
fn values_are_read_back_trimmed() {
    let cm = ConfigManager::new("setup.ini");
    let dto = SetupDto {
        server_name: " Ward ".to_string(),
        theme: Theme::Light,
        port: 4000,
        enable_fog: true,
        background_color: "\u{b}A\u{c}B".to_string(),
    };
    assert!(dto.server_name.len() == 6);
    let text = cm.write_config(&dto).unwrap();
    let back = cm.read_config(Some(&text)).unwrap();
    assert_eq!(back.server_name, "Ward");
    assert_eq!(back.background_color, "vAfB");
}

#[test]
fn written_text_escapes_the_free_texts() {
    let cm = ConfigManager::new("setup.ini");
    let dto = SetupDto {
        server_name: "\"Home\" a\\b\u{1}".to_string(),
        theme: Theme::Dark,
        port: 4000,
        enable_fog: false,
        background_color: "x\ty".to_string(),
    };
    let text = cm.write_config(&dto).unwrap();
    let lines: Vec<&str> = text.lines().collect();
    assert_eq!(
        lines,
        vec![
            "[setup]",
            "serverName=\"Home\" a\\\\b\\x0001",
            "theme=dark",
            "port=4000",
            "enableFog=false",
            "backgroundColor=x\\ty",
        ]
    );
}
