use la_template::{
    apply, bytes_to_string, generate_template, get_undefined_vars, parse_template, res_err,
    res_ok, BufReadTemplate, BytesToStringExt, DefnError, GenerateTemplate, InvalidText, JsonLeaf,
    ParseError, SubstitutionError, Template, TemplateError, TemplateParser, TemplateTrait, Token,
    VariableMap, VariableTrait, Warning,
};

fn pairs(entries: &[(&str, &str)]) -> VariableMap {
    VariableMap::from_pairs(
        entries
            .iter()
            .map(|(k, v)| (k.to_string(), v.to_string()))
            .collect(),
    )
}

fn names(v: &[&str]) -> Vec<String> {
    v.iter().map(|s| s.to_string()).collect()
}

#[test]
fn escaped_symbol_is_literal() {
    let t = parse_template(b"\\$").unwrap();
    assert_eq!(t.tokens(), &vec![Token::Str("$".to_string())]);
    assert!(t.symbols().is_empty());
    let template = Template::ConcreteTemplate(t);
    let vars = pairs(&[]);
    let g = GenerateTemplate { template: &template, variables: &vars };
    assert_eq!(g.apply(), Warning::Complete("$".to_string()));
    assert_eq!(g.generate().unwrap(), "$");
}

#[test]
fn hello_world_report() {
    let template = "hello ${world_name}, this is ${name} reporting. This is escaped \\$11.00.";
    let vars = pairs(&[("world_name", "world"), ("name", "pegasust")]);
    assert_eq!(
        generate_template(template.as_bytes(), &vars).unwrap(),
        "hello world, this is pegasust reporting. This is escaped $11.00."
    );
}

#[test]
fn missing_status_is_named() {
    let vars = pairs(&[("var", "defined")]);
    assert_eq!(
        generate_template(b"Many ${var} is ${status}", &vars),
        Err(TemplateError::MissingDefinitions(names(&["status"])))
    );
}

#[test]
fn extra_definition_is_ignored() {
    let vars = pairs(&[("var", "def"), ("status", "good"), ("over", "defined")]);
    assert_eq!(
        generate_template(b"Many ${var} is ${status}", &vars).unwrap(),
        "Many def is good"
    );
}

#[test]
fn over_definition_keeps_output() {
    let template = b"x ${a} y ${b} z";
    let exact = pairs(&[("a", "1"), ("b", "2")]);
    let more = pairs(&[("c", "3"), ("a", "1"), ("b", "2"), ("d", "4")]);
    assert_eq!(
        generate_template(template, &exact),
        generate_template(template, &more)
    );
    assert_eq!(generate_template(template, &more).unwrap(), "x 1 y 2 z");
}

#[test]
fn empty_template_gives_empty_output() {
    let t = parse_template(b"").unwrap();
    assert!(t.tokens().is_empty());
    assert!(t.symbols().is_empty());
    let vars = pairs(&[("a", "b")]);
    assert_eq!(generate_template(b"", &vars).unwrap(), "");
}

#[test]
fn unterminated_reference_fails_parse() {
    let vars = pairs(&[("unterminated", "x")]);
    assert_eq!(
        generate_template(b"${unterminated", &vars),
        Err(TemplateError::Parse(ParseError::Unterminated))
    );
}

#[test]
fn missing_names_listed_once_each() {
    let vars = pairs(&[]);
    assert_eq!(
        generate_template(b"${a} ${b} ${a}", &vars),
        Err(TemplateError::MissingDefinitions(names(&["a", "b"])))
    );
    assert_eq!(
        get_undefined_vars(&names(&["b", "x", "a", "b"]), &pairs(&[("x", "1")])),
        names(&["b", "a"])
    );
}

#[test]
fn round_trip_without_placeholders() {
    let text = "plain text, with {braces} and \\ backslashes";
    assert_eq!(generate_template(text.as_bytes(), &pairs(&[])).unwrap(), text);
}

#[test]
fn parse_tokens_and_symbols() {
    let t = parse_template(b"a${x}b${y}${x}").unwrap();
    assert_eq!(
        t.tokens(),
        &vec![
            Token::Str("a".to_string()),
            Token::Var(0),
            Token::Str("b".to_string()),
            Token::Var(1),
            Token::Str("".to_string()),
            Token::Var(2),
            Token::Str("".to_string()),
        ]
    );
    assert_eq!(t.symbols(), &names(&["x", "y", "x"]));
}

#[test]
fn variable_names_keep_spaces() {
    let t = parse_template(b"${ spaced name }").unwrap();
    assert_eq!(t.symbols(), &names(&[" spaced name "]));
}

#[test]
fn parse_errors() {
    assert!(matches!(parse_template(b"a $b"), Err(ParseError::Unencapsulated)));
    assert!(matches!(parse_template(b"end $"), Err(ParseError::Unterminated)));
    assert!(matches!(parse_template(b"${"), Err(ParseError::Unterminated)));
    assert!(matches!(parse_template(b"\xff"), Err(ParseError::InvalidText)));
    assert!(matches!(parse_template(b"\xff${a}"), Err(ParseError::InvalidText)));
    assert!(matches!(parse_template(b"${\xff}"), Err(ParseError::InvalidText)));
}

#[test]
fn custom_symbol_and_escape() {
    let t = TemplateParser::new(b"#{a} !# %{b}", Some(b'#'), Some(b'!')).call().unwrap();
    assert_eq!(t.symbols(), &names(&["a"]));
    assert_eq!(t.tokens()[2], Token::Str(" # %{b}".to_string()));
}

#[test]
fn buf_read_template() {
    let t = BufReadTemplate::new(b"x${y}").unwrap();
    assert_eq!(t.symbols(), &names(&["y"]));
    assert!(BufReadTemplate::new(b"$x").is_err());
}

#[test]
fn document_values_that_are_not_text() {
    let vars = VariableMap::document(vec![
        ("s".to_string(), JsonLeaf::Str("text".to_string())),
        ("n".to_string(), JsonLeaf::Other),
    ]);
    assert_eq!(vars.get_defn("s"), Ok("text"));
    assert_eq!(vars.get_defn("n"), Err(DefnError::NotText));
    assert_eq!(vars.get_defn("none"), Err(DefnError::NotDefined));
    assert!(vars.defines("n"));
    assert!(!vars.defines("none"));

    let template = Template::ConcreteTemplate(parse_template(b"<${s}|${n}|${s}>").unwrap());
    let g = GenerateTemplate { template: &template, variables: &vars };
    assert_eq!(
        g.dispatch().unwrap(),
        Warning::Partial(
            "<text||text>".to_string(),
            vec![SubstitutionError::Unresolved(1, DefnError::NotText)]
        )
    );
    assert_eq!(
        g.generate(),
        Err(TemplateError::Substitution(
            "<text||text>".to_string(),
            vec![SubstitutionError::Unresolved(1, DefnError::NotText)]
        ))
    );
    assert!(g.validate_ref().is_ok());
    assert!(g.undefined_vars().is_empty());
}

#[test]
fn later_pair_decides() {
    let vars = pairs(&[("a", "1"), ("a", "2")]);
    assert_eq!(vars.get_defn("a"), Ok("2"));
}

#[test]
fn apply_on_template_types() {
    let t = BufReadTemplate::new(b"[${k}]").unwrap();
    assert_eq!(apply(&t, &pairs(&[("k", "v")])), Warning::Complete("[v]".to_string()));
    assert_eq!(
        apply(&t, &pairs(&[])),
        Warning::Partial(
            "[]".to_string(),
            vec![SubstitutionError::Unresolved(0, DefnError::NotDefined)]
        )
    );
}

#[test]
fn warning_and_results() {
    assert_eq!(Warning::from(1, None::<u8>), Warning::Complete(1));
    assert_eq!(Warning::from(1, Some(2u8)), Warning::Partial(1, 2));
    assert_eq!(res_ok::<u8, u8>(3), Ok(3));
    assert_eq!(res_err::<u8, u8>(4), Err(4));
}

#[test]
fn utf8_decoding() {
    assert_eq!(bytes_to_string("héllo".as_bytes()).unwrap(), "héllo");
    assert_eq!(bytes_to_string(&[0xc3]), Err(InvalidText));
    assert_eq!(vec![0x61u8, 0x62].to_str().unwrap(), "ab");
    assert!(vec![0xffu8].to_str().is_err());
}

#[test]
fn create_template_args() {
    let template = Template::ConcreteTemplate(parse_template(b"hello").unwrap());
    let variables = VariableMap::from_pairs(vec![
        ("hello".to_string(), "world".to_string()),
        ("this".to_string(), "that".to_string()),
    ]);
    let v = GenerateTemplate { template: &template, variables: &variables };
    assert_eq!(v.generate().unwrap(), "hello");
}

#[test]
fn creation_test() {
    let v = VariableMap::json_str(r#"{"try":"to"}"#).unwrap();
    let template =
        Template::ConcreteTemplate(parse_template(b"Hello world, try ${try} keep up").unwrap());
    let args = GenerateTemplate { template: &template, variables: &v };
    assert_eq!(args.generate().unwrap(), "Hello world, try to keep up");
}

#[test]
fn json_str() {
    let v = VariableMap::json_str(r#"{"try":"to"}"#).unwrap();
    let template = Template::ConcreteTemplate(parse_template(b"Hello world").unwrap());
    let args = GenerateTemplate { template: &template, variables: &v };
    assert_eq!(args.generate().unwrap(), "Hello world");
}
