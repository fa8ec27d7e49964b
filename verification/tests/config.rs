use tfpin::config::{lookup, Config, CONFIG_FILENAME};

#[test]
fn include_defaults_to_all_tf_files() {
    let cfg = Config::default();
    assert_eq!(cfg.include_patterns(), ["**/*.tf"]);
}

#[test]
fn terraform_cache_is_always_excluded() {
    let cfg = Config::default();
    assert!(cfg.exclude_patterns().contains(&"**/.terraform/**".to_string()));

    let cfg = Config { exclude_globs: vec!["custom/**".to_string()], ..Config::default() };
    let patterns = cfg.exclude_patterns();
    assert!(patterns.contains(&"custom/**".to_string()));
    assert!(patterns.contains(&"**/.terraform/**".to_string()));
}

#[test]
fn configured_globs_are_kept_as_given() {
    let cfg = Config {
        include_globs: vec!["platform/**/*.tf".to_string()],
        exclude_globs: vec!["**/.terraform/**".to_string(), "x/**".to_string()],
        ..Config::default()
    };
    assert_eq!(cfg.include_patterns(), ["platform/**/*.tf"]);
    // Already listed: not added a second time.
    assert_eq!(cfg.exclude_patterns(), ["**/.terraform/**", "x/**"]);
}

#[test]
fn lookup_finds_the_listed_value() {
    let entries = vec![
        ("aws".to_string(), "~> 6.24".to_string()),
        ("kubernetes".to_string(), "~> 2.37".to_string()),
    ];
    assert_eq!(lookup(&entries, "kubernetes").map(|s| s.as_str()), Some("~> 2.37"));
    assert_eq!(lookup(&entries, "google"), None);
}

#[test]
fn discovery_looks_upwards_and_takes_the_nearest() {
    let candidates = Config::discover_candidates("/repo/a/b");
    assert_eq!(
        candidates,
        ["/repo/a/b/.tfpin.toml", "/repo/a/.tfpin.toml", "/repo/.tfpin.toml", "/.tfpin.toml"]
    );
    assert_eq!(CONFIG_FILENAME, ".tfpin.toml");
    let found = Config::discover(&candidates, &vec![false, true, true, false]);
    assert_eq!(found.as_deref(), Some("/repo/a/.tfpin.toml"));
    assert_eq!(Config::discover(&candidates, &vec![false; 4]), None);
}
