use platano::config::Environment;

#[test]
fn environment_names() {
    assert_eq!(Environment::Local.as_str(), "local");
    assert_eq!(Environment::Production.as_str(), "production");
    assert_eq!(Environment::Local.config_file_name(), "local.yaml");
    assert_eq!(Environment::Production.config_file_name(), "production.yaml");
}

#[test]
fn environment_parses_any_case() {
    assert_eq!(Environment::try_from("local".to_string()), Ok(Environment::Local));
    assert_eq!(Environment::try_from("LOCAL".to_string()), Ok(Environment::Local));
    assert_eq!(Environment::try_from("Production".to_string()), Ok(Environment::Production));
}

#[test]
fn unknown_environment_is_refused() {
    assert_eq!(
        Environment::try_from("Staging".to_string()),
        Err("staging is not a supported environment".to_string())
    );
}
