use web_watcher_alert::config::{Config, ConfigError};
use web_watcher_alert::watcher::Watcher;

fn plain_watcher(id: &str, url: &str) -> Watcher {
    Watcher {
        id: id.to_string(),
        url: url.to_string(),
        keywords: vec!["k".to_string()],
        check_interval: 60,
        enabled: true,
        last_checked: None,
        cache_path: format!("{}.html", id),
    }
}

#[test]
fn new_watcher_carries_defaults() {
    let w = Watcher::new(
        "http://example.com".to_string(),
        vec!["a".to_string(), "b".to_string()],
        1800,
    );
    assert_eq!(w.url, "http://example.com");
    assert_eq!(w.keywords, vec!["a".to_string(), "b".to_string()]);
    assert_eq!(w.check_interval, 1800);
    assert!(w.enabled);
    assert!(w.last_checked.is_none());
    assert_eq!(w.id.len(), 36);
    assert_eq!(w.cache_path, format!("{}.html", w.id));
}

#[test]
fn fresh_identifiers_differ_between_watchers() {
    let a = Watcher::new("u".to_string(), vec![], 60);
    let b = Watcher::new("u".to_string(), vec![], 60);
    assert_ne!(a.id, b.id);
}

#[test]
fn add_refuses_duplicate_identifier() {
    let mut config = Config::new();
    assert!(config.add_watcher(plain_watcher("one", "http://a")));
    assert!(config.add_watcher(plain_watcher("two", "http://b")));
    assert!(!config.add_watcher(plain_watcher("one", "http://c")));
    assert_eq!(config.watchers.len(), 2);
}

#[test]
fn toggle_remove_and_edit_operate_in_place() {
    let mut config = Config::new();
    config.add_watcher(plain_watcher("one", "http://a"));
    config.add_watcher(plain_watcher("two", "http://b"));
    config.toggle_watcher(0);
    assert!(!config.watchers[0].enabled);
    config.toggle_watcher(0);
    assert!(config.watchers[0].enabled);
    config.edit_watcher(1, "http://new".to_string(), vec!["x".to_string()], 120);
    assert_eq!(config.watchers[1].url, "http://new");
    assert_eq!(config.watchers[1].keywords, vec!["x".to_string()]);
    assert_eq!(config.watchers[1].check_interval, 120);
    assert_eq!(config.watchers[1].id, "two");
    config.remove_watcher(0);
    assert_eq!(config.watchers.len(), 1);
    assert_eq!(config.watchers[0].id, "two");
}

#[test]
fn update_last_checked_touches_only_the_named_watcher() {
    let mut config = Config::new();
    config.add_watcher(plain_watcher("one", "http://a"));
    config.add_watcher(plain_watcher("two", "http://b"));
    config.update_last_checked("two", "2024-01-02T03:04:05+00:00".to_string());
    assert!(config.watchers[0].last_checked.is_none());
    assert_eq!(
        config.watchers[1].last_checked.as_deref(),
        Some("2024-01-02T03:04:05+00:00")
    );
    config.update_last_checked("absent", "later".to_string());
    assert!(config.watchers[0].last_checked.is_none());
}

#[test]
fn save_writes_the_canonical_document() {
    let mut config = Config::new();
    config.add_watcher(plain_watcher("abc", "http://x"));
    let text = config.save();
    assert_eq!(
        text,
        "{\"watchers\":[{\"id\":\"abc\",\"url\":\"http://x\",\"keywords\":[\"k\"],\"check_interval\":60,\"enabled\":true,\"cache_path\":\"abc.html\"}]}"
    );
}

#[test]
fn save_writes_last_checked_when_present() {
    let mut config = Config::new();
    let mut w = plain_watcher("abc", "http://x");
    w.last_checked = Some("t0".to_string());
    config.add_watcher(w);
    let text = config.save();
    assert!(text.contains("\"last_checked\":\"t0\""));
}

#[test]
fn load_of_missing_store_is_the_empty_registry() {
    let loaded = Config::load(None);
    assert!(loaded.is_ok());
    assert!(loaded.unwrap().watchers.is_empty());
}

#[test]
fn save_then_load_reproduces_every_field() {
    let mut config = Config::new();
    let mut first = plain_watcher("id-one", "http://a?q=\"x\\y\"");
    first.keywords = vec!["rust".to_string(), "with space".to_string(), "li\nne".to_string()];
    first.last_checked = Some("2024-01-02T03:04:05+00:00".to_string());
    first.enabled = false;
    config.add_watcher(first);
    config.add_watcher(plain_watcher("id-two", "http://b"));
    let text = config.save();
    let loaded = Config::load(Some(&text)).expect("round trip must parse");
    assert_eq!(loaded.watchers.len(), 2);
    for (a, b) in config.watchers.iter().zip(loaded.watchers.iter()) {
        assert_eq!(a.id, b.id);
        assert_eq!(a.url, b.url);
        assert_eq!(a.keywords, b.keywords);
        assert_eq!(a.check_interval, b.check_interval);
        assert_eq!(a.enabled, b.enabled);
        assert_eq!(a.last_checked, b.last_checked);
        assert_eq!(a.cache_path, b.cache_path);
    }
}

#[test]
fn unparsable_text_is_a_parse_error() {
    assert!(matches!(Config::load(Some("not json")), Err(ConfigError::Parse)));
    assert!(matches!(Config::load(Some("")), Err(ConfigError::Parse)));
    assert!(matches!(
        Config::load(Some("{\"watchers\":[")),
        Err(ConfigError::Parse)
    ));
    let e = Config::load(Some("garbage")).unwrap_err();
    assert_eq!(e.message(), "Failed to parse config file");
}

#[test]
fn documents_breaking_the_invariant_are_invalid() {
    let duplicated = "{\"watchers\":[\
        {\"id\":\"same\",\"url\":\"a\",\"keywords\":[],\"check_interval\":60,\"enabled\":true,\"cache_path\":\"p\"},\
        {\"id\":\"same\",\"url\":\"b\",\"keywords\":[],\"check_interval\":60,\"enabled\":true,\"cache_path\":\"q\"}]}";
    assert!(matches!(Config::load(Some(duplicated)), Err(ConfigError::Invalid)));
    let zero_interval = "{\"watchers\":[{\"id\":\"z\",\"url\":\"a\",\"keywords\":[],\"check_interval\":0,\"enabled\":true,\"cache_path\":\"p\"}]}";
    assert!(matches!(Config::load(Some(zero_interval)), Err(ConfigError::Invalid)));
    let e = Config::load(Some(zero_interval)).unwrap_err();
    assert_eq!(e.message(), "Config file holds an invalid registry");
}
