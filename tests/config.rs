use snip_cli::config::{expand_home_dir, expand_with_home, SnipConfig};

#[test]
fn test_expand_home_dir() {
    let home = dirs_next::home_dir().unwrap();
    assert_eq!(
        expand_home_dir("~/test"),
        home.join("test").to_string_lossy().into_owned(),
        "Failed to expand home directory"
    );
    assert_eq!(
        expand_home_dir("/test"),
        "/test".to_string(),
        "Failed to expand home directory"
    );
}

#[test]
fn test_providing_pull_path_on_expand_home_dir() {
    assert_eq!(
        expand_home_dir("/Users/uriah/Code/rustacean/src"),
        "/Users/uriah/Code/rustacean/src".to_string(),
        "Failed to expand home directory"
    )
}

#[test]
fn expansion_against_a_given_home() {
    assert_eq!(
        expand_with_home("~/.config/snip.json", Some("/home/ada".to_string())),
        "/home/ada/.config/snip.json"
    );
    assert_eq!(expand_with_home("~/x", None), "/tmp/snip.json");
    assert_eq!(expand_with_home("/etc/x", Some("/home/ada".to_string())), "/etc/x");
    assert_eq!(expand_with_home("rel/x", None), "rel/x");
}

#[test]
fn update_path_expands_home() {
    let mut config = SnipConfig { path: "/old.json".to_string() };
    config.update_path("/new/snippets.json".to_string());
    assert_eq!(config.path, "/new/snippets.json");
    config.update_path("~/snippets.json".to_string());
    assert!(config.path.ends_with("snippets.json"));
    assert!(!config.path.starts_with('~'));
}

#[test]
fn config_json_round_trip() {
    let config = SnipConfig { path: "/home/ada/snippets.json".to_string() };
    let text = config.to_json();
    assert_eq!(text, "{\n  \"path\": \"/home/ada/snippets.json\"\n}");
    let back = SnipConfig::from_json(&text).unwrap();
    assert_eq!(back.path, "/home/ada/snippets.json");
}

#[test]
fn config_json_rejects_bad_text() {
    assert!(SnipConfig::from_json("").is_none());
    assert!(SnipConfig::from_json("not json").is_none());
    assert!(SnipConfig::from_json("{\"other\": \"x\"}").is_none());
    assert!(SnipConfig::from_json("{\"path\": 3}").is_none());
    assert!(SnipConfig::from_json("[\"x\"]").is_none());
    let c = SnipConfig::from_json("{\"path\": \"/a\", \"extra\": 1}").unwrap();
    assert_eq!(c.path, "/a");
}
