use photo_dupe_resolver::cli::{parse_args, ArgName, Args, CliError};

#[test]
fn test_parse_default_args() {
    let args = vec!["photo_dupe_resolver"];
    let parsed = Args::try_parse_from(&args).unwrap();
    assert_eq!(parsed.config, "config.toml");
    assert_eq!(parsed.scan_paths.len(), 0);
}

#[test]
fn test_parse_args_with_paths() {
    let args = vec!["photo_dupe_resolver", "/home/photos", "/media/photos"];
    let parsed = Args::try_parse_from(&args).unwrap();
    assert_eq!(parsed.scan_paths.len(), 2);
    assert_eq!(parsed.scan_paths[0], "/home/photos");
    assert_eq!(parsed.scan_paths[1], "/media/photos");
}

#[test]
fn test_parse_args_with_options() {
    let args = vec![
        "photo_dupe_resolver",
        "--config",
        "custom.toml",
        "--scanner-threads",
        "8",
    ];
    let parsed = Args::try_parse_from(&args).unwrap();
    assert_eq!(parsed.config, "custom.toml");
    assert_eq!(parsed.scanner_threads, Some(8));
}

#[test]
fn parse_defaults_leave_options_unset() {
    let parsed = parse_args(&["prog"]).unwrap();
    assert_eq!(parsed.db_path, None);
    assert_eq!(parsed.scanner_threads, None);
    assert_eq!(parsed.hasher_threads, None);
    assert!(!parsed.test);
}

#[test]
fn parse_empty_argument_list_gives_defaults() {
    let parsed = Args::try_parse_from(&[]).unwrap();
    assert_eq!(parsed.config, "config.toml");
    assert!(parsed.scan_paths.is_empty());
}

#[test]
fn parse_attached_values() {
    let parsed = Args::try_parse_from(&[
        "p",
        "--config=a.toml",
        "-dphotos.db",
        "--hasher-threads=+3",
        "--test",
    ])
    .unwrap();
    assert_eq!(parsed.config, "a.toml");
    assert_eq!(parsed.db_path, Some("photos.db".to_string()));
    assert_eq!(parsed.hasher_threads, Some(3));
    assert!(parsed.test);
}

#[test]
fn parse_short_option_with_equals_and_separate_value() {
    let parsed = Args::try_parse_from(&["p", "-c=x.toml", "-d", "db"]).unwrap();
    assert_eq!(parsed.config, "x.toml");
    assert_eq!(parsed.db_path, Some("db".to_string()));
    let parsed = Args::try_parse_from(&["p", "-c="]).unwrap();
    assert_eq!(parsed.config, "");
}

#[test]
fn parse_options_and_paths_mixed() {
    let parsed = Args::try_parse_from(&["p", "a", "--scanner-threads", "2", "b", "-", "c"]).unwrap();
    assert_eq!(parsed.scan_paths, vec!["a", "b", "-", "c"]);
    assert_eq!(parsed.scanner_threads, Some(2));
}

#[test]
fn parse_double_dash_makes_paths() {
    let parsed = Args::try_parse_from(&["p", "--", "--config", "-x", "--"]).unwrap();
    assert_eq!(parsed.config, "config.toml");
    assert_eq!(parsed.scan_paths, vec!["--config", "-x", "--"]);
}

#[test]
fn parse_help_is_reported() {
    assert!(matches!(Args::try_parse_from(&["p", "--help"]), Err(CliError::DisplayHelp)));
    assert!(matches!(Args::try_parse_from(&["p", "x", "-h"]), Err(CliError::DisplayHelp)));
    assert!(matches!(Args::try_parse_from(&["p", "-hz"]), Err(CliError::DisplayHelp)));
}

#[test]
fn parse_unknown_argument() {
    match Args::try_parse_from(&["p", "--bogus"]) {
        Err(CliError::UnknownArgument(a)) => assert_eq!(a, "--bogus"),
        other => panic!("unexpected {:?}", other.err()),
    }
    match Args::try_parse_from(&["p", "-x"]) {
        Err(CliError::UnknownArgument(a)) => assert_eq!(a, "-x"),
        other => panic!("unexpected {:?}", other.err()),
    }
    match Args::try_parse_from(&["p", "--scanner_threads=2"]) {
        Err(CliError::UnknownArgument(a)) => assert_eq!(a, "--scanner_threads=2"),
        other => panic!("unexpected {:?}", other.err()),
    }
}

#[test]
fn parse_missing_value() {
    assert!(matches!(
        Args::try_parse_from(&["p", "--config"]),
        Err(CliError::MissingValue(ArgName::Config))
    ));
    assert!(matches!(
        Args::try_parse_from(&["p", "--db-path", "--test"]),
        Err(CliError::MissingValue(ArgName::DbPath))
    ));
    assert!(matches!(
        Args::try_parse_from(&["p", "-c", "--", "x"]),
        Err(CliError::MissingValue(ArgName::Config))
    ));
    // An unknown option reports itself before the missing value.
    assert!(matches!(
        Args::try_parse_from(&["p", "--config", "--nope"]),
        Err(CliError::UnknownArgument(_))
    ));
}

#[test]
fn parse_invalid_thread_counts() {
    for bad in ["", "x", "-1", "1.5", " 4", "+", "18446744073709551616"] {
        let token = format!("--scanner-threads={}", bad);
        match Args::try_parse_from(&["p", token.as_str()]) {
            Err(CliError::InvalidValue(ArgName::ScannerThreads, v)) => assert_eq!(v, bad),
            other => panic!("{:?} gave {:?}", bad, other.err()),
        }
    }
    assert_eq!(
        Args::try_parse_from(&["p", "--hasher-threads", "007"]).unwrap().hasher_threads,
        Some(7)
    );
}

#[test]
fn parse_repeated_option_is_a_conflict() {
    assert!(matches!(
        Args::try_parse_from(&["p", "--config", "a", "-c", "b"]),
        Err(CliError::ArgumentConflict(ArgName::Config))
    ));
    assert!(matches!(
        Args::try_parse_from(&["p", "--test", "--test"]),
        Err(CliError::ArgumentConflict(ArgName::Test))
    ));
}

#[test]
fn parse_flag_with_value_is_refused() {
    assert!(matches!(
        Args::try_parse_from(&["p", "--test=yes"]),
        Err(CliError::UnexpectedValue(ArgName::Test))
    ));
}

#[test]
fn parse_every_configuration_setting() {
    let parsed = Args::try_parse_from(&[
        "p",
        "--scanner-batch-size",
        "20",
        "--hasher-batch-queue-size=3",
        "--hasher-batch-size",
        "7",
        "--hash-algorithm",
        "blake3",
        "--perceptual-hash-algorithm=dhash",
    ])
    .unwrap();
    assert_eq!(parsed.scanner_batch_size, Some(20));
    assert_eq!(parsed.hasher_batch_queue_size, Some(3));
    assert_eq!(parsed.hasher_batch_size, Some(7));
    assert_eq!(parsed.hash_algorithm, Some("blake3".to_string()));
    assert_eq!(parsed.perceptual_hash_algorithm, Some("dhash".to_string()));
    let defaults = parse_args(&["p"]).unwrap();
    assert_eq!(defaults.scanner_batch_size, None);
    assert_eq!(defaults.hash_algorithm, None);
}

#[test]
fn parse_new_settings_refuse_bad_or_repeated_values() {
    assert!(matches!(
        Args::try_parse_from(&["p", "--hasher-batch-size", "many"]),
        Err(CliError::InvalidValue(ArgName::HasherBatchSize, _))
    ));
    assert!(matches!(
        Args::try_parse_from(&["p", "--hash-algorithm", "a", "--hash-algorithm=b"]),
        Err(CliError::ArgumentConflict(ArgName::HashAlgorithm))
    ));
    assert!(matches!(
        Args::try_parse_from(&["p", "--perceptual-hash-algorithm"]),
        Err(CliError::MissingValue(ArgName::PerceptualHashAlgorithm))
    ));
}
