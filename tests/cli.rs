use la_template::{generate_template, TemplateError, VariableMap, VariablesError};

#[derive(Debug)]
enum Failure {
    Variables(VariablesError),
    Template(TemplateError),
}

fn str_input(template: &str, vars: &str) -> Result<String, Failure> {
    let vars = VariableMap::json_str(vars).map_err(Failure::Variables)?;
    generate_template(template.as_bytes(), &vars).map_err(Failure::Template)
}

#[test]
fn cli_basic_example() {
    let template = "hello ${world_name}, this is ${name} reporting. The total cost is \\$12.";
    let vars = r#"{"world_name": "world", "name": "pegasust"}"#;
    assert_eq!(
        str_input(template, vars).expect("Should generate concrete output"),
        "hello world, this is pegasust reporting. The total cost is $12."
    );
}

#[test]
fn cli_first_sub() {
    let template = "The ${object} is beautiful isn't it, ${name}?";
    let vars = r#"{"object": "moon", "name": "Naomi"}"#;
    assert_eq!(
        str_input(template, vars).expect("Should generate concrete output"),
        "The moon is beautiful isn't it, Naomi?"
    );
}

#[test]
fn cli_from_string() {
    let string_rb = "We can also construct string templates${too}";
    assert_eq!(
        str_input(string_rb, r#"{"too":"t_o_o"}"#).expect("Should generate concrete output"),
        "We can also construct string templatest_o_o"
    );
}

#[test]
fn missing_var_def() {
    let template = r#"Many ${var} is ${status}"#;
    let vars = r#"{
        "var": "defined"
    }"#;
    let err = str_input(template, vars).expect_err("Should say missing vars");
    println!("err: {err:?}");

    let err = str_input(template, "{}").expect_err("Missing vars");
    println!("err: {err:?}");

    let spare_and_missing =
        str_input(template, r#"{"var":"def", "other": "d", "somethingelse":"unrelated"}"#)
            .expect_err("Missing vars");
    println!("spare_and_missing: {spare_and_missing:?}");

    let spare = str_input(template, r#"{"var":"def","status":"good","over":"defined"}"#)
        .expect("Over-defining is non-error");
    assert_eq!(spare, "Many def is good".to_string());
}

#[test]
fn json_variables() {
    assert!(matches!(
        VariableMap::json_str("not json"),
        Err(VariablesError::InvalidJson)
    ));
    assert!(matches!(
        VariableMap::json_str("[1, 2]"),
        Err(VariablesError::NotAnObject)
    ));
    let vars = VariableMap::json_str(r#"{"n": 1, "s": "x", "s2": "y"}"#).unwrap();
    assert!(matches!(
        str_input("${n}", r#"{"n": 1}"#),
        Err(Failure::Template(TemplateError::Substitution(_, _)))
    ));
    assert_eq!(generate_template(b"${s}${s2}", &vars).unwrap(), "xy");
}
