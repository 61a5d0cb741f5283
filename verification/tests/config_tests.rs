use minigrep::Config;
use minigrep::ConfigError;
use minigrep::Env;

#[test]
fn resolves_query_and_filename() {
    let env = Env { case_sensitive: true };
    let args = vec![
        String::from("prog"),
        String::from("hello"),
        String::from("text.txt"),
    ];
    let config = Config::new(&env, args).unwrap();
    assert_eq!("hello", config.query);
    assert_eq!("text.txt", config.filename);
    assert!(config.case_sensitive);
}

#[test]
fn missing_query_is_reported() {
    let env = Env { case_sensitive: true };
    let args = vec![String::from("prog")];
    assert_eq!(Err(ConfigError::MissingQuery), Config::new(&env, args));
}

#[test]
fn no_arguments_at_all_is_missing_query() {
    let env = Env { case_sensitive: true };
    assert_eq!(Err(ConfigError::MissingQuery), Config::new(&env, Vec::new()));
}

#[test]
fn missing_filename_is_reported() {
    let env = Env { case_sensitive: false };
    let args = vec![String::from("prog"), String::from("hello")];
    assert_eq!(Err(ConfigError::MissingFilename), Config::new(&env, args));
}

#[test]
fn extra_arguments_are_ignored() {
    let env = Env { case_sensitive: true };
    let args = vec![
        String::from("prog"),
        String::from("needle"),
        String::from("hay.txt"),
        String::from("extra"),
    ];
    let config = Config::new(&env, args).unwrap();
    assert_eq!("needle", config.query);
    assert_eq!("hay.txt", config.filename);
}

#[test]
fn env_toggle_switches_mode() {
    assert!(Env::new(None).case_sensitive);
    assert!(!Env::new(Some(String::from("1"))).case_sensitive);
    assert!(!Env::new(Some(String::new())).case_sensitive);
}

#[test]
fn config_mode_follows_env() {
    let env = Env::new(Some(String::from("yes")));
    let args = vec![String::from("prog"), String::from("q"), String::from("f")];
    let config = Config::new(&env, args).unwrap();
    assert!(!config.case_sensitive);
}
