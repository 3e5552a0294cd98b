use tabdoc::config::Config;

#[test]
fn serializes_to_flat_json() {
    let c = Config { show_home_on_startup: true };
    assert_eq!(c.to_json_bytes(), b"{\"show_home_on_startup\":true}".to_vec());
    let c = Config { show_home_on_startup: false };
    assert_eq!(c.to_json_bytes(), b"{\"show_home_on_startup\":false}".to_vec());
}

#[test]
fn save_then_load_round_trips() {
    for value in [true, false] {
        let saved = Config { show_home_on_startup: value }.to_json_bytes();
        let loaded = Config::parse_json(&saved).expect("canonical bytes must parse");
        assert_eq!(loaded.show_home_on_startup, value);
    }
}

#[test]
fn parse_accepts_whitespace() {
    let text = b" {\n\t\"show_home_on_startup\" :  true \r\n} ".to_vec();
    let c = Config::parse_json(&text).expect("whitespace is allowed around tokens");
    assert!(c.show_home_on_startup);
}

#[test]
fn parse_rejects_malformed_files() {
    assert!(Config::parse_json(&b"".to_vec()).is_none());
    assert!(Config::parse_json(&b"{}".to_vec()).is_none());
    assert!(Config::parse_json(&b"show_home_on_startup=true".to_vec()).is_none());
    assert!(Config::parse_json(&b"{\"show_home_on_startup\":maybe}".to_vec()).is_none());
}

#[test]
fn malformed_files_fall_back_to_defaults() {
    let c = Config::from_json_or_default(&b"not json at all".to_vec());
    assert!(c.show_home_on_startup);
    let c = Config::from_json_or_default(&b"{\"show_home_on_startup\":false}".to_vec());
    assert!(!c.show_home_on_startup);
    let d = Config::default();
    assert!(d.show_home_on_startup);
}
