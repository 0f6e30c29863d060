use minigrep::{Config, ConfigError};

fn args(items: &[&str]) -> Vec<String> {
    items.iter().map(|s| s.to_string()).collect()
}

#[test]
fn no_arguments_miss_the_query() {
    assert_eq!(Some(ConfigError::MissingQuery), Config::build(args(&[]), false).err());
    assert_eq!(Some(ConfigError::MissingQuery), Config::build(args(&["minigrep"]), false).err());
}

#[test]
fn query_alone_misses_the_path() {
    assert_eq!(Some(ConfigError::MissingPath), Config::build(args(&["minigrep", "to"]), false).err());
}

#[test]
fn full_arguments_build_a_config() {
    let config = Config::build(args(&["minigrep", "to", "poem.txt"]), true).ok().unwrap();
    assert_eq!("to", config.query());
    assert_eq!("poem.txt", config.file_path());
    assert!(config.ignore_case());
}

#[test]
fn extra_arguments_are_ignored() {
    let config = Config::build(args(&["minigrep", "to", "poem.txt", "extra", "more"]), false)
        .ok()
        .unwrap();
    assert_eq!("to", config.query());
    assert_eq!("poem.txt", config.file_path());
    assert!(!config.ignore_case());
}

#[test]
fn error_messages() {
    assert_eq!("Missing the query string", ConfigError::MissingQuery.message());
    assert_eq!("Missing the file path", ConfigError::MissingPath.message());
}
