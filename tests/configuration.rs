use interactive_class::configuration::{Environment, WSSettings};

#[test]
fn environment_names() {
    assert_eq!(Environment::Local.as_str(), "local");
    assert_eq!(Environment::Production.as_str(), "production");
}

#[test]
fn environment_parsing_ignores_case() {
    assert_eq!(Environment::try_from("LOCAL".to_string()), Ok(Environment::Local));
    assert_eq!(Environment::try_from("Production".to_string()), Ok(Environment::Production));
    assert_eq!(
        Environment::try_from("Staging".to_string()),
        Err("staging is not a supported environment. Use either `local` or `production`.".to_string())
    );
}

#[test]
fn timeout_must_exceed_interval() {
    assert!(WSSettings { heartbeat_interval: 250, client_timeout: 500 }.is_meaningful());
    assert!(!WSSettings { heartbeat_interval: 250, client_timeout: 250 }.is_meaningful());
}
