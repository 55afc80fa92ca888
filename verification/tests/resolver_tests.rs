use yaml_config::config::config_new;
use yaml_config::environment::env_or_error;
use yaml_config::node::Node;
use yaml_config::resolve::maybe_yaml_to_value;
use yaml_config::Environment;

#[test]
fn successfully_gets_environment_variable() {
    let mut environment = Environment::new();
    environment.push_var("TEST_ENV_VAR".to_string(), "1".to_string());
    let res =
        env_or_error("TEST_ENV_VAR", &environment).expect("failed to find environment variable.");
    assert_eq!(res, "1");
}

#[test]
fn error_when_environment_variable_is_not_found() {
    let environment = Environment::new();
    let res = env_or_error("TEST_ENV_VAR", &environment);
    assert!(res.is_err());
}

#[test]
fn maybe_yaml_null_gets_environment_variable_i64() {
    // This simulates something that would be mapped by
    // ```
    // test_env:
    //   var: null
    // ```
    let mut environment = Environment::new();
    environment.push_var("TEST_ENV_VAR".to_string(), "1".to_string());
    let mut config = config_new();

    let maybe_val = Node::Null;

    maybe_yaml_to_value("TEST_ENV_VAR", &maybe_val, false, &mut config, &environment).unwrap();

    assert_eq!(*config["TEST_ENV_VAR"].as_i64().unwrap(), 1);
}

#[test]
fn maybe_yaml_null_gets_environment_variable_f64() {
    let mut environment = Environment::new();
    environment.push_var("TEST_ENV_VAR".to_string(), "3.14".to_string());
    let mut config = config_new();

    let maybe_val = Node::Null;

    maybe_yaml_to_value("TEST_ENV_VAR", &maybe_val, false, &mut config, &environment).unwrap();

    assert_eq!(
        config["TEST_ENV_VAR"].as_float_text().unwrap().parse::<f64>().unwrap(),
        3.14
    );
}

#[test]
fn maybe_yaml_null_gets_environment_variable_bool() {
    let mut environment = Environment::new();
    environment.push_var("TEST_ENV_VAR".to_string(), "true".to_string());
    let mut config = config_new();

    let maybe_val = Node::Null;

    maybe_yaml_to_value("TEST_ENV_VAR", &maybe_val, false, &mut config, &environment).unwrap();

    assert_eq!(*config["TEST_ENV_VAR"].as_bool().unwrap(), true);
}

#[test]
fn maybe_yaml_null_gets_environment_variable_string() {
    let mut environment = Environment::new();
    environment.push_var("TEST_ENV_VAR".to_string(), "string".to_string());
    let mut config = config_new();

    let maybe_val = Node::Null;

    maybe_yaml_to_value("TEST_ENV_VAR", &maybe_val, false, &mut config, &environment).unwrap();

    assert_eq!(*config["TEST_ENV_VAR"].as_string().unwrap(), "string");
}

#[test]
fn maybe_yaml_null_gets_environment_variable_string_with_prefer_yaml() {
    let mut environment = Environment::new();
    environment.push_var("TEST_ENV_VAR".to_string(), "string".to_string());
    let mut config = config_new();

    let maybe_val = Node::Null;

    maybe_yaml_to_value("TEST_ENV_VAR", &maybe_val, true, &mut config, &environment).unwrap();

    assert_eq!(*config["TEST_ENV_VAR"].as_string().unwrap(), "string");
}

#[test]
fn maybe_yaml_gets_i64() {
    // This simulates something that would be mapped by
    // ```
    // test_var:
    //   val: 10
    // ```
    let environment = Environment::new();
    let mut config = config_new();

    let maybe_val = Node::Int(10);

    maybe_yaml_to_value("TEST_VAR_VAL", &maybe_val, true, &mut config, &environment).unwrap();

    assert_eq!(*config["TEST_VAR_VAL"].as_i64().unwrap(), 10);
}

#[test]
fn maybe_yaml_gets_i64_env_var_match() {
    // When an environment variable under another key matches and PreferYaml
    // is given, the YAML value stays.
    let mut environment = Environment::new();
    environment.push_var("TEST_ENV_VAL".to_string(), "15".to_string());
    let mut config = config_new();

    let maybe_val = Node::Int(10);

    maybe_yaml_to_value("TEST_VAR_VAL", &maybe_val, true, &mut config, &environment).unwrap();

    assert_eq!(*config["TEST_VAR_VAL"].as_i64().unwrap(), 10);
}

#[test]
fn maybe_yaml_gets_f64() {
    let environment = Environment::new();
    let mut config = config_new();

    let maybe_val = Node::Real("3.14".to_string());

    maybe_yaml_to_value("TEST_VAR_VAL", &maybe_val, true, &mut config, &environment).unwrap();

    assert_eq!(
        config["TEST_VAR_VAL"].as_float_text().unwrap().parse::<f64>().unwrap(),
        3.14
    );
}

#[test]
fn maybe_yaml_gets_f64_env_var_match() {
    let mut environment = Environment::new();
    environment.push_var("TEST_ENV_VAL".to_string(), "6.28".to_string());
    let mut config = config_new();

    let maybe_val = Node::Real("3.14".to_string());

    maybe_yaml_to_value("TEST_VAR_VAL", &maybe_val, true, &mut config, &environment).unwrap();

    assert_eq!(
        config["TEST_VAR_VAL"].as_float_text().unwrap().parse::<f64>().unwrap(),
        3.14
    );
}

#[test]
fn maybe_yaml_gets_bool() {
    let environment = Environment::new();
    let mut config = config_new();

    let maybe_val = Node::Bool(true);

    maybe_yaml_to_value("TEST_VAR_VAL", &maybe_val, true, &mut config, &environment).unwrap();

    assert_eq!(*config["TEST_VAR_VAL"].as_bool().unwrap(), true);
}

#[test]
fn maybe_yaml_gets_bool_env_var_match() {
    let mut environment = Environment::new();
    environment.push_var("TEST_ENV_VAL".to_string(), "true".to_string());
    let mut config = config_new();

    let maybe_val = Node::Bool(true);

    maybe_yaml_to_value("TEST_VAR_VAL", &maybe_val, true, &mut config, &environment).unwrap();

    assert_eq!(*config["TEST_VAR_VAL"].as_bool().unwrap(), true);
}

#[test]
fn maybe_yaml_gets_string() {
    let environment = Environment::new();
    let mut config = config_new();

    let maybe_val = Node::Str("test".to_string());

    maybe_yaml_to_value("TEST_VAR_VAL", &maybe_val, true, &mut config, &environment).unwrap();

    assert_eq!(*config["TEST_VAR_VAL"].as_string().unwrap(), "test");
}

#[test]
fn maybe_yaml_gets_string_env_var_match() {
    let mut environment = Environment::new();
    environment.push_var("TEST_ENV_VAL".to_string(), "test".to_string());
    let mut config = config_new();

    let maybe_val = Node::Str("test".to_string());

    maybe_yaml_to_value("TEST_VAR_VAL", &maybe_val, true, &mut config, &environment).unwrap();

    assert_eq!(*config["TEST_VAR_VAL"].as_string().unwrap(), "test");
}

#[test]
fn typed_leaf_prefer_env_parse_failure_is_hard_error() {
    // A present environment variable that fails the type-specific parse is a
    // conversion error, never a silent fallback.
    let mut environment = Environment::new();
    environment.push_var("TEST_VAR_VAL".to_string(), "not a number".to_string());
    let mut config = config_new();

    let res = maybe_yaml_to_value("TEST_VAR_VAL", &Node::Int(10), true, &mut config, &environment);

    let err = res.unwrap_err();
    assert_eq!(err.module, "config");
    assert_eq!(err.message, "Failed to convert type for TEST_VAR_VAL");
}

#[test]
fn null_leaf_missing_environment_variable_fails() {
    let environment = Environment::new();
    let mut config = config_new();

    let res = maybe_yaml_to_value("MISSING_KEY", &Node::Null, false, &mut config, &environment);

    let err = res.unwrap_err();
    assert_eq!(err.module, "std::env");
    assert_eq!(err.message, "Error parsing OS environment variable for MISSING_KEY");
}

#[test]
fn null_leaf_present_empty_value_is_a_string() {
    // Absence is distinguishable from presence with an empty value: the empty
    // value runs the ladder and comes out a string.
    let mut environment = Environment::new();
    environment.push_var("EMPTY_KEY".to_string(), "".to_string());
    let mut config = config_new();

    maybe_yaml_to_value("EMPTY_KEY", &Node::Null, false, &mut config, &environment).unwrap();

    assert_eq!(*config["EMPTY_KEY"].as_string().unwrap(), "");
}

#[test]
fn null_leaf_non_literal_boolean_stays_a_string() {
    // The boolean parse accepts exactly the literal forms.
    let mut environment = Environment::new();
    environment.push_var("FLAG".to_string(), "True".to_string());
    let mut config = config_new();

    maybe_yaml_to_value("FLAG", &Node::Null, false, &mut config, &environment).unwrap();

    assert_eq!(*config["FLAG"].as_string().unwrap(), "True");
}

#[test]
fn unparseable_real_leaf_fails_type_conversion() {
    let environment = Environment::new();
    let mut config = config_new();

    let res = maybe_yaml_to_value(
        "BAD_REAL",
        &Node::Real("wide".to_string()),
        false,
        &mut config,
        &environment,
    );

    let err = res.unwrap_err();
    assert_eq!(err.module, "config");
    assert_eq!(err.message, "Failed to convert type for BAD_REAL");
}

#[test]
fn environment_lookup_sees_the_first_entry() {
    let mut environment = Environment::new();
    environment.push_var("K".to_string(), "first".to_string());
    environment.push_var("K".to_string(), "second".to_string());
    let res = env_or_error("K", &environment).unwrap();
    assert_eq!(res, "first");
}
