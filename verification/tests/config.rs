use photo_dupe_resolver::cli::Args;
use photo_dupe_resolver::config::Config;

#[test]
fn test_default_config() {
    let config = Config::default();
    assert_eq!(config.db_path, "photos.db");
    assert_eq!(config.scanner_threads, 4);
    assert_eq!(config.hasher_worker_threads, 4);
}

#[test]
fn default_config_other_fields() {
    let config = Config::default();
    assert_eq!(config.scanner_batch_size, 100);
    assert_eq!(config.hasher_batch_queue_size, 10);
    assert_eq!(config.hasher_batch_size, 50);
    assert_eq!(config.hash_algorithm, "sha256");
    assert_eq!(config.perceptual_hash_algorithm, "phash");
    assert!(config.scan_paths.is_empty());
    assert!(config.scenarios.is_empty());
}

#[test]
fn overrides_replace_given_values_only() {
    let mut config = Config::default();
    let args = Args::try_parse_from(&["p", "-d", "x.db", "--hasher-threads", "9", "/a", "/b"]).unwrap();
    config.apply_cli_overrides(&args);
    assert_eq!(config.db_path, "x.db");
    assert_eq!(config.scanner_threads, 4);
    assert_eq!(config.hasher_worker_threads, 9);
    assert_eq!(config.scan_paths, vec!["/a".to_string(), "/b".to_string()]);
    assert_eq!(config.scanner_batch_size, 100);
}

#[test]
fn overrides_without_paths_keep_configured_paths() {
    let mut config = Config::default();
    config.scan_paths = vec!["/kept".to_string()];
    let args = Args::try_parse_from(&["p", "--scanner-threads", "2"]).unwrap();
    config.apply_cli_overrides(&args);
    assert_eq!(config.scan_paths, vec!["/kept".to_string()]);
    assert_eq!(config.scanner_threads, 2);
    assert_eq!(config.db_path, "photos.db");
}

#[test]
fn overrides_twice_equal_once() {
    let args = Args::try_parse_from(&["p", "-d", "y.db", "/z"]).unwrap();
    let mut once = Config::default();
    once.apply_cli_overrides(&args);
    let mut twice = Config::default();
    twice.apply_cli_overrides(&args);
    twice.apply_cli_overrides(&args);
    assert_eq!(once.db_path, twice.db_path);
    assert_eq!(once.scan_paths, twice.scan_paths);
    assert_eq!(once.scanner_threads, twice.scanner_threads);
}

#[test]
fn overrides_reach_every_setting_but_scenarios() {
    let mut config = Config::default();
    let args = Args::try_parse_from(&[
        "p",
        "--scanner-batch-size=5",
        "--hasher-batch-queue-size=6",
        "--hasher-batch-size=7",
        "--hash-algorithm=md5",
        "--perceptual-hash-algorithm=ahash",
    ])
    .unwrap();
    config.apply_cli_overrides(&args);
    assert_eq!(config.scanner_batch_size, 5);
    assert_eq!(config.hasher_batch_queue_size, 6);
    assert_eq!(config.hasher_batch_size, 7);
    assert_eq!(config.hash_algorithm, "md5");
    assert_eq!(config.perceptual_hash_algorithm, "ahash");
    assert_eq!(config.db_path, "photos.db");
    assert!(config.scenarios.is_empty());
}
