use ward::models::{SetupDto, Theme};
use ward::web::{asset_path, index_page, setup_request, setup_saved, static_reply, IndexPage, SetupStep, StaticReply};

fn setup(name: &str, port: u16) -> SetupDto {
    SetupDto {
        server_name: name.to_string(),
        theme: Theme::Dark,
        port,
        enable_fog: false,
        background_color: "default".to_string(),
    }
}

#[test]
fn index_shows_setup_until_configured() {
    match index_page(false, None, "4000", true) {
        IndexPage::Setup { port, port_overridden } => {
            assert_eq!(port, "4000");
            assert!(port_overridden);
        }
        IndexPage::Dashboard { .. } => panic!("expected the setup page"),
    }
}

#[test]
fn index_shows_dashboard_once_configured() {
    match index_page(true, Some(setup("Lab", 5000)), "4000", false) {
        IndexPage::Dashboard { setup } => {
            assert_eq!(setup.server_name, "Lab");
            assert_eq!(setup.theme, Theme::Dark);
        }
        IndexPage::Setup { .. } => panic!("expected the dashboard"),
    }
    match index_page(true, None, "4500", false) {
        IndexPage::Dashboard { setup } => {
            assert_eq!(setup.server_name, "Ward");
            assert_eq!(setup.theme, Theme::Light);
            assert_eq!(setup.port, 4500);
            assert!(setup.enable_fog);
            assert_eq!(setup.background_color, "default");
        }
        IndexPage::Setup { .. } => panic!("expected the dashboard"),
    }
}

#[test]
fn setup_request_answers() {
    match setup_request(true, &setup("", 1)) {
        SetupStep::Answer(a) => {
            assert_eq!(a.status, 200);
            assert_eq!(a.message, "Application already configured");
        }
        SetupStep::Save => panic!("a configured dashboard saves nothing"),
    }
    match setup_request(false, &setup("", 4000)) {
        SetupStep::Answer(a) => {
            assert_eq!(a.status, 400);
            assert!(a.message.contains("serverName"));
        }
        SetupStep::Save => panic!("an invalid setup is not saved"),
    }
    assert!(matches!(setup_request(false, &setup("TestServer", 4000)), SetupStep::Save));
}

#[test]
fn setup_saved_answers() {
    let ok = setup_saved(Ok(()));
    assert_eq!(ok.status, 200);
    assert_eq!(ok.message, "Settings saved correctly");
    let err = setup_saved(Err("disk full".to_string()));
    assert_eq!(err.status, 500);
    assert_eq!(err.message, "Failed to save settings: disk full");
}

#[test]
fn asset_paths_lose_leading_slashes() {
    assert_eq!(asset_path("/css/app.css"), "css/app.css");
    assert_eq!(asset_path("///js/a.js"), "js/a.js");
    assert_eq!(asset_path("img/x.png"), "img/x.png");
    assert_eq!(asset_path("/"), "");
}

#[test]
fn static_files_get_their_media_type() {
    match static_reply("css/app.css", true) {
        StaticReply::Found { content_type } => assert_eq!(content_type, "text/css"),
        StaticReply::NotFound => panic!("expected the file"),
    }
    match static_reply("fonts/x.unknownext", true) {
        StaticReply::Found { content_type } => assert_eq!(content_type, "application/octet-stream"),
        StaticReply::NotFound => panic!("expected the file"),
    }
    match static_reply("fonts/README", true) {
        StaticReply::Found { content_type } => assert_eq!(content_type, "application/octet-stream"),
        StaticReply::NotFound => panic!("expected the file"),
    }
    match static_reply("img/.hidden", true) {
        StaticReply::Found { content_type } => assert_eq!(content_type, "application/octet-stream"),
        StaticReply::NotFound => panic!("expected the file"),
    }
    match static_reply("js/app.js", true) {
        StaticReply::Found { content_type } => assert_eq!(content_type, "text/javascript"),
        StaticReply::NotFound => panic!("expected the file"),
    }
    assert!(matches!(static_reply("css/app.css", false), StaticReply::NotFound));
}
