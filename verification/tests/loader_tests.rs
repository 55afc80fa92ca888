use yaml_config::config::config_get_index;
use yaml_config::load_from_str;
use yaml_config::Environment;
use yaml_config::Preference;

#[test]
fn arrays_are_not_allowed() {
    let text = "
test_key_1: 1
test_key_2: \"test\"
test_key_3:
    - test_1: 0
    - test_3: 2
    - test_4: 'a'
test_key_4: true
";
    let environment = Environment::new();

    let res = load_from_str(text, None, &environment);

    assert!(res.is_err());
    let err = res.unwrap_err();
    assert_eq!(err.module, "config::build_map");
    assert_eq!(err.message, "Arrays are currently unsupported for configuration.");
}

#[test]
fn one_layer() {
    let text = "
test_key_1: 1
test_key_2: \"test\"
test_key_3: 3.14
test_key_4: true
";
    let environment = Environment::new();

    let res = load_from_str(text, None, &environment).expect("temp file not loaded.");

    assert_eq!(*res["TEST_KEY_1"].as_i64().unwrap(), 1);
    assert_eq!(*res["TEST_KEY_2"].as_string().unwrap(), "test");
    assert_eq!(res["TEST_KEY_3"].as_float_text().unwrap().parse::<f64>().unwrap(), 3.14);
    assert_eq!(*res["TEST_KEY_4"].as_bool().unwrap(), true);
}

#[test]
fn two_layer() {
    let text = "
test_key_1:
  sub_key_a: 1
  sub_key_b: 2
test_key_2: \"test\"
test_key_3:
  sub_key_a: 3.14
  sub_key_b: 6.28
test_key_4: true
";
    let environment = Environment::new();

    let res = load_from_str(text, None, &environment).expect("lol");

    assert_eq!(*res["TEST_KEY_1_SUB_KEY_A"].as_i64().unwrap(), 1);
    assert_eq!(*res["TEST_KEY_1_SUB_KEY_B"].as_i64().unwrap(), 2);
    assert_eq!(*res["TEST_KEY_2"].as_string().unwrap(), "test");
    assert_eq!(
        res["TEST_KEY_3_SUB_KEY_A"].as_float_text().unwrap().parse::<f64>().unwrap(),
        3.14
    );
    assert_eq!(
        res["TEST_KEY_3_SUB_KEY_B"].as_float_text().unwrap().parse::<f64>().unwrap(),
        6.28
    );
    assert_eq!(*res["TEST_KEY_4"].as_bool().unwrap(), true);
}

#[test]
fn three_layer() {
    let text = "
test_key_1:
  sub_key_a:
    sub_sub_key_a: 1
    sub_sub_key_b: 2
  sub_key_b: 2
test_key_2: \"test\"
test_key_3:
  sub_key_a: 3.14
  sub_key_b: 6.28
test_key_4: true
";
    let environment = Environment::new();

    let res = load_from_str(text, None, &environment).expect("lol");

    assert_eq!(*res["TEST_KEY_1_SUB_KEY_A_SUB_SUB_KEY_A"].as_i64().unwrap(), 1);
    assert_eq!(*res["TEST_KEY_1_SUB_KEY_A_SUB_SUB_KEY_B"].as_i64().unwrap(), 2);
    assert_eq!(*res["TEST_KEY_2"].as_string().unwrap(), "test");
    assert_eq!(
        res["TEST_KEY_3_SUB_KEY_A"].as_float_text().unwrap().parse::<f64>().unwrap(),
        3.14
    );
    assert_eq!(
        res["TEST_KEY_3_SUB_KEY_B"].as_float_text().unwrap().parse::<f64>().unwrap(),
        6.28
    );
    assert_eq!(*res["TEST_KEY_4"].as_bool().unwrap(), true);
}

#[test]
fn end_to_end_example_preserves_document_order() {
    let text = "test_key_1:
  sub_key_a: 1
  sub_key_b: 2
test_key_2: \"test\"
";
    let environment = Environment::new();

    let res = load_from_str(text, None, &environment).unwrap();

    assert_eq!(res.len(), 3);
    let (k0, v0) = config_get_index(&res, 0).unwrap();
    assert_eq!(k0, "TEST_KEY_1_SUB_KEY_A");
    assert_eq!(*v0.as_i64().unwrap(), 1);
    let (k1, v1) = config_get_index(&res, 1).unwrap();
    assert_eq!(k1, "TEST_KEY_1_SUB_KEY_B");
    assert_eq!(*v1.as_i64().unwrap(), 2);
    let (k2, v2) = config_get_index(&res, 2).unwrap();
    assert_eq!(k2, "TEST_KEY_2");
    assert_eq!(*v2.as_string().unwrap(), "test");
    assert!(config_get_index(&res, 3).is_none());
}

#[test]
fn loading_twice_yields_equal_configurations() {
    let text = "a: 1\nb:\n  c: null\nd: three\n";
    let mut environment = Environment::new();
    environment.push_var("B_C".to_string(), "2.5".to_string());

    let first = load_from_str(text, None, &environment).unwrap();
    let second = load_from_str(text, None, &environment).unwrap();

    assert_eq!(first.len(), second.len());
    for i in 0..first.len() {
        let (k1, v1) = config_get_index(&first, i).unwrap();
        let (k2, v2) = config_get_index(&second, i).unwrap();
        assert_eq!(k1, k2);
        assert!(v1 == v2);
    }
}

#[test]
fn null_leaf_resolves_from_environment_end_to_end() {
    let text = "test_env_var: null\n";
    let mut environment = Environment::new();
    environment.push_var("TEST_ENV_VAR".to_string(), "3.14".to_string());

    let res = load_from_str(text, None, &environment).unwrap();

    assert_eq!(res["TEST_ENV_VAR"].as_float_text().unwrap().parse::<f64>().unwrap(), 3.14);
}

#[test]
fn null_leaf_without_environment_variable_fails_load() {
    let text = "test_env_var: null\n";
    let environment = Environment::new();

    let res = load_from_str(text, None, &environment);

    let err = res.unwrap_err();
    assert_eq!(err.module, "std::env");
    assert_eq!(err.message, "Error parsing OS environment variable for TEST_ENV_VAR");
}

#[test]
fn prefer_env_overrides_typed_leaf() {
    let text = "key: 10\n";
    let mut environment = Environment::new();
    environment.push_var("KEY".to_string(), "15".to_string());

    let overridden =
        load_from_str(text, Some(Preference::PreferEnv), &environment).unwrap();
    assert_eq!(*overridden["KEY"].as_i64().unwrap(), 15);

    let kept = load_from_str(text, Some(Preference::PreferYaml), &environment).unwrap();
    assert_eq!(*kept["KEY"].as_i64().unwrap(), 10);

    let default = load_from_str(text, None, &environment).unwrap();
    assert_eq!(*default["KEY"].as_i64().unwrap(), 10);
}

#[test]
fn non_string_key_fails_key_conversion() {
    let text = "1: one\n";
    let environment = Environment::new();

    let err = load_from_str(text, None, &environment).unwrap_err();
    assert_eq!(err.module, "config");
    assert_eq!(err.message, "Could not convert key 1 into String.");
}

#[test]
fn key_conversion_error_names_a_negative_integer_key() {
    let environment = Environment::new();

    let err = load_from_str("-37: x\n", None, &environment).unwrap_err();
    assert_eq!(err.module, "config");
    assert_eq!(err.message, "Could not convert key -37 into String.");
}

#[test]
fn key_conversion_error_names_a_boolean_key() {
    let environment = Environment::new();

    let err = load_from_str("true: x\n", None, &environment).unwrap_err();
    assert_eq!(err.module, "config");
    assert_eq!(err.message, "Could not convert key true into String.");
}

#[test]
fn key_conversion_error_names_a_null_key() {
    let environment = Environment::new();

    let err = load_from_str("~: x\n", None, &environment).unwrap_err();
    assert_eq!(err.module, "config");
    assert_eq!(err.message, "Could not convert key null into String.");
}

#[test]
fn key_conversion_error_names_a_real_key() {
    let environment = Environment::new();

    let err = load_from_str("3.14: x\n", None, &environment).unwrap_err();
    assert_eq!(err.module, "config");
    assert_eq!(err.message, "Could not convert key 3.14 into String.");
}

#[test]
fn non_mapping_root_is_rejected() {
    let environment = Environment::new();

    let err = load_from_str("- a\n- b\n", None, &environment).unwrap_err();
    assert_eq!(err.module, "config");
    assert_eq!(err.message, "Failed to parse YAML as hashmap.");
}

#[test]
fn empty_text_is_rejected_as_non_mapping() {
    let environment = Environment::new();

    let err = load_from_str("", None, &environment).unwrap_err();
    assert_eq!(err.module, "config");
    assert_eq!(err.message, "Failed to parse YAML as hashmap.");
}

#[test]
fn malformed_yaml_is_a_scan_error() {
    let environment = Environment::new();

    let err = load_from_str("a: [1, 2\nb: 3\n", None, &environment).unwrap_err();
    assert_eq!(err.module, "yaml_rust::scanner");
}

#[test]
fn core_schema_infinity_is_kept_as_real_text() {
    let text = "rate: .inf\n";
    let environment = Environment::new();

    let res = load_from_str(text, None, &environment).unwrap();

    assert_eq!(res["RATE"].as_float_text().unwrap(), ".inf");
}

#[test]
fn keys_are_uppercased_from_mixed_case() {
    let text = "MiXeD_case: 1\n";
    let environment = Environment::new();

    let res = load_from_str(text, None, &environment).unwrap();

    assert_eq!(*res["MIXED_CASE"].as_i64().unwrap(), 1);
}
