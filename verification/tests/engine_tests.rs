use web_watcher_alert::cache::CacheStore;
use web_watcher_alert::config::Config;
use web_watcher_alert::engine::{check_cycle, plan_start, record_check, run_cycle, StartPlan};
use web_watcher_alert::notify::{notification_body, notification_title};
use web_watcher_alert::watcher::Watcher;

fn keys(names: &[&str]) -> Vec<String> {
    names.iter().map(|s| s.to_string()).collect()
}

#[test]
fn cache_round_trip_returns_what_was_written() {
    let mut store = CacheStore::new();
    assert!(store.read("k").is_none());
    store.write("k", "first snapshot");
    assert_eq!(store.read("k").as_deref(), Some("first snapshot"));
    store.write("k", "second snapshot");
    assert_eq!(store.read("k").as_deref(), Some("second snapshot"));
    store.write("other", "elsewhere");
    assert_eq!(store.read("k").as_deref(), Some("second snapshot"));
    assert_eq!(store.read("other").as_deref(), Some("elsewhere"));
}

#[test]
fn first_cycle_always_scans_whatever_was_fetched() {
    let outcome = check_cycle(None, "no keywords here", &keys(&["absent"]));
    assert!(outcome.changed);
    assert!(outcome.write_cache);
    assert!(!outcome.notify);
    assert!(outcome.matches.is_empty());
}

#[test]
fn unchanged_content_ends_the_cycle_quietly() {
    let prior = "stable page".to_string();
    let outcome = check_cycle(Some(&prior), "stable page", &keys(&["stable"]));
    assert!(!outcome.changed);
    assert!(!outcome.write_cache);
    assert!(!outcome.notify);
    assert!(outcome.matches.is_empty());
    assert!(outcome.matched_keywords.is_empty());
}

#[test]
fn changed_content_with_matches_notifies_once_with_deduped_keywords() {
    let prior = "old".to_string();
    let outcome = check_cycle(
        Some(&prior),
        "sale! big sale today",
        &keys(&["sale", "sale", "today"]),
    );
    assert!(outcome.changed);
    assert!(outcome.write_cache);
    assert!(outcome.notify);
    assert_eq!(outcome.matches.len(), 5);
    assert_eq!(outcome.matched_keywords, keys(&["sale", "today"]));
}

#[test]
fn run_cycle_advances_the_snapshot_exactly_when_changed() {
    let mut store = CacheStore::new();
    let outcome = run_cycle(&mut store, "key", "version one", &keys(&["version"]));
    assert!(outcome.changed && outcome.notify);
    assert_eq!(store.read("key").as_deref(), Some("version one"));
    let outcome = run_cycle(&mut store, "key", "version one", &keys(&["version"]));
    assert!(!outcome.changed && !outcome.notify);
    assert_eq!(store.read("key").as_deref(), Some("version one"));
    let outcome = run_cycle(&mut store, "key", "version two", &keys(&["version"]));
    assert!(outcome.changed && outcome.notify);
    assert_eq!(store.read("key").as_deref(), Some("version two"));
}

#[test]
fn start_plan_reports_empty_and_disabled_registries() {
    let config = Config::new();
    assert!(matches!(plan_start(&config), StartPlan::NoWatchers));
    let mut config = Config::new();
    let mut w = Watcher::new("http://a".to_string(), keys(&["k"]), 60);
    w.enabled = false;
    config.add_watcher(w);
    assert!(matches!(plan_start(&config), StartPlan::NoneEnabled));
}

#[test]
fn start_plan_collects_only_the_enabled_watchers() {
    let mut config = Config::new();
    let mut off = Watcher::new("http://off".to_string(), keys(&["k"]), 60);
    off.enabled = false;
    config.add_watcher(off);
    config.add_watcher(Watcher::new("http://on".to_string(), keys(&["k"]), 60));
    match plan_start(&config) {
        StartPlan::Run(ws) => {
            assert_eq!(ws.len(), 1);
            assert_eq!(ws[0].url, "http://on");
        },
        _ => panic!("expected a running plan"),
    }
}

#[test]
fn record_check_stamps_the_named_watcher() {
    let mut config = Config::new();
    config.add_watcher(Watcher::new("http://a".to_string(), keys(&["k"]), 60));
    config.add_watcher(Watcher::new("http://b".to_string(), keys(&["k"]), 60));
    let id = config.watchers[1].id.clone();
    record_check(&mut config, &id);
    assert!(config.watchers[0].last_checked.is_none());
    assert!(config.watchers[1].last_checked.is_some());
}

#[test]
fn notification_text_is_exact() {
    assert_eq!(
        notification_title(&keys(&["sale", "today"])),
        "Web Watcher Alert: sale, today found!"
    );
    let one = check_cycle(None, "big sale", &keys(&["sale"]));
    assert_eq!(
        notification_body("http://shop", &one.matches),
        "Found on http://shop\n\nbig sale"
    );
    let many = check_cycle(None, "sale sale", &keys(&["sale"]));
    assert_eq!(many.matches.len(), 2);
    assert_eq!(
        notification_body("http://shop", &many.matches),
        "Found 2 matches on http://shop\n\nsale sale"
    );
}
