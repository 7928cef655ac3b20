use ward::models::Theme;
use ward::startup::{port_in_range, select_port, setup_from_environment};

#[test]
fn port_argument_in_range() {
    assert_eq!(port_in_range("1024"), Ok(1024));
    assert_eq!(port_in_range("65535"), Ok(65535));
    assert_eq!(port_in_range("+8080"), Ok(8080));
    assert_eq!(port_in_range("08080"), Ok(8080));
}

#[test]
fn port_argument_refused() {
    assert_eq!(
        port_in_range("abc"),
        Err("`abc` isn't a valid port number".to_string())
    );
    assert_eq!(port_in_range(""), Err("`` isn't a valid port number".to_string()));
    assert_eq!(
        port_in_range(" 80"),
        Err("` 80` isn't a valid port number".to_string())
    );
    assert_eq!(
        port_in_range("80"),
        Err("Port not in range 1024-65535 (provided 80)".to_string())
    );
    assert_eq!(
        port_in_range("65536"),
        Err("Port not in range 1024-65535 (provided 65536)".to_string())
    );
    assert_eq!(
        port_in_range("0001023"),
        Err("Port not in range 1024-65535 (provided 1023)".to_string())
    );
    assert_eq!(
        port_in_range("99999999999999999999999"),
        Err("`99999999999999999999999` isn't a valid port number".to_string())
    );
}

#[test]
fn environment_without_entries_gives_nothing() {
    assert!(setup_from_environment(None, None, None, None, None).is_none());
}

#[test]
fn environment_entries_fall_back_to_defaults() {
    let dto = setup_from_environment(
        Some("Lab".to_string()),
        Some("purple".to_string()),
        Some("not a port".to_string()),
        Some("maybe".to_string()),
        None,
    )
    .unwrap();
    assert_eq!(dto.server_name, "Lab");
    assert_eq!(dto.theme, Theme::Light);
    assert_eq!(dto.port, 4000);
    assert!(dto.enable_fog);
    assert_eq!(dto.background_color, "default");

    let dto = setup_from_environment(None, Some("dark".to_string()), Some("5000".to_string()), Some("false".to_string()), Some("#000000".to_string())).unwrap();
    assert_eq!(dto.server_name, "Ward");
    assert_eq!(dto.theme, Theme::Dark);
    assert_eq!(dto.port, 5000);
    assert!(!dto.enable_fog);
    assert_eq!(dto.background_color, "#000000");
}

#[test]
fn port_choice_order() {
    assert_eq!(select_port(Some(5000), Some("6000"), Some(7000)), (5000, true));
    assert_eq!(select_port(None, Some("6000"), Some(7000)), (6000, true));
    assert_eq!(select_port(None, Some("x"), Some(7000)), (7000, false));
    assert_eq!(select_port(None, None, Some(7000)), (7000, false));
    assert_eq!(select_port(None, None, None), (4000, false));
}
