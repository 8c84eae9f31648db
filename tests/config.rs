use minigrep::config::{matching_lines, Config, ConfigError};

fn args(items: &[&str]) -> Vec<String> {
    items.iter().map(|s| s.to_string()).collect()
}

#[test]
fn build_without_flag_or_environment_is_case_sensitive() {
    let config = Config::build(&args(&["prog", "duct", "poem.txt"]), false).unwrap();
    assert_eq!("duct", config.query);
    assert_eq!("poem.txt", config.filepath);
    assert!(!config.ignore_case);
}

#[test]
fn build_without_flag_follows_environment() {
    let config = Config::build(&args(&["prog", "duct", "poem.txt"]), true).unwrap();
    assert!(config.ignore_case);
}

#[test]
fn build_with_short_flag_ignores_case() {
    let config = Config::build(&args(&["prog", "duct", "poem.txt", "-i"]), false).unwrap();
    assert!(config.ignore_case);
}

#[test]
fn build_with_long_flag_ignores_case() {
    let config =
        Config::build(&args(&["prog", "duct", "poem.txt", "--ignore_case"]), false).unwrap();
    assert!(config.ignore_case);
    assert_eq!("duct", config.query);
    assert_eq!("poem.txt", config.filepath);
}

#[test]
fn build_with_unknown_flag_fails() {
    let r = Config::build(&args(&["prog", "duct", "poem.txt", "-x"]), true);
    assert!(matches!(r, Err(ConfigError::UnrecognizedArgument)));
}

#[test]
fn build_with_too_few_arguments_fails() {
    let r = Config::build(&args(&["prog", "duct"]), false);
    assert!(matches!(r, Err(ConfigError::InsufficientArguments)));
    let r = Config::build(&args(&[]), true);
    assert!(matches!(r, Err(ConfigError::InsufficientArguments)));
}

#[test]
fn build_ignores_arguments_after_flag() {
    let config =
        Config::build(&args(&["prog", "duct", "poem.txt", "-i", "extra"]), false).unwrap();
    assert!(config.ignore_case);
}

#[test]
fn matching_lines_follows_configured_mode() {
    let contents = "\nRust:\nsafe, fast, productive.\nPck three.\nTrust me.";
    let exact = Config::build(&args(&["prog", "rUsT", "poem.txt"]), false).unwrap();
    assert!(matching_lines(&exact, contents).is_empty());
    let folded = Config::build(&args(&["prog", "rUsT", "poem.txt", "-i"]), false).unwrap();
    assert_eq!(vec!["Rust:", "Trust me."], matching_lines(&folded, contents));
}
