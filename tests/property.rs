use maven_rs::types::{ParseState, Property};
use maven_rs::utils::parse::ParseContext;
use rand::Rng;

#[test]
fn test_regular_string_parse() {
    let value = Property::try_from("test").unwrap();
    assert_eq!(value, Property::Literal("test".to_string()));
}

#[test]
fn test_variable_parse() {
    let value = "${test}".parse::<Property>().unwrap();
    assert_eq!(value, Property::Variable("test".to_string()));
}

#[test]
fn test_maven_variable() {
    let value = "${maven.version}".parse::<Property>().unwrap();
    assert!(value.is_maven_variable());
}

#[test]
fn test_unclosed_var() {
    let result = "${var".parse::<Property>();
    assert!(result.is_err())
}

fn get_unclosed_complex() -> (Property, &'static str) {
    let source = Property::Expression(vec![
        Property::Literal("lit1/".into()),
        Property::UnclosedVariable("var1/lit2/".into()),
        Property::Variable("var2".into()),
        Property::Literal("/lit3".into()),
    ]);
    (source, "lit1/${var1/lit2/${var2}/lit3")
}

fn get_complex() -> (Property, &'static str) {
    let source = Property::Expression(vec![
        Property::Literal("lit1/".into()),
        Property::Variable("var1".into()),
        Property::Literal("/lit2/".into()),
        Property::Variable("var2".into()),
        Property::Literal("/lit3".into()),
    ]);
    (source, "lit1/${var1}/lit2/${var2}/lit3")
}

fn state(allow_unclosed: bool) -> ParseState {
    ParseState { allow_unclosed_variable: allow_unclosed }
}

fn roundtrip(input: &(Property, &str), state: ParseState) {
    let string = input.0.to_string();
    assert_eq!(string, input.1);
    let parsed = state.parse(&string).unwrap();
    assert_eq!(parsed, input.0);
}

fn verify_closed<'a>(input: (Property, &'a str)) -> (Property, &'a str) {
    if let Property::Expression(parts) = &input.0 {
        for part in parts {
            assert!(!matches!(part, Property::UnclosedVariable(_)));
        }
    }
    assert!(!matches!(input.0, Property::UnclosedVariable(_)));
    input
}

#[test]
fn test_unclosed_complex() {
    roundtrip(&get_unclosed_complex(), state(true));
}

#[test]
#[should_panic]
fn panic_unclosed_complex() {
    roundtrip(&get_unclosed_complex(), state(false));
}

#[test]
fn test_complex() {
    let input = verify_closed(get_complex());
    roundtrip(&input, state(false));
    roundtrip(&input, state(true));
}

#[test]
fn enum_is_testing() {
    {
        let variable = Property::Variable("var".to_string());
        assert!(variable.is_variable());
    }
    {
        let maven_variable = Property::Variable("maven.var".to_string());
        assert!(maven_variable.is_variable());
        assert!(maven_variable.is_maven_variable());
        let none_variable = Property::Literal("literal".to_string());
        assert!(!none_variable.is_variable());
        assert!(!none_variable.is_maven_variable());
    }
    {
        let project_variable = Property::Variable("project.var".to_string());
        assert!(project_variable.is_variable());
        assert!(project_variable.is_project_variable());
        let none_variable = Property::Literal("literal".to_string());
        assert!(!none_variable.is_variable());
        assert!(!none_variable.is_project_variable());
    }
}

#[test]
fn try_from_string() {
    let variable = Property::try_from_string("${project.version}".to_string()).unwrap();
    assert!(variable.is_variable());
    assert!(variable.is_project_variable());

    let literal = Property::try_from_string("1.0.0".to_string()).unwrap();
    assert!(!literal.is_variable());
    assert!(!literal.is_project_variable());

    let expression = Property::try_from_string("${project.version}-${maven.buildNumber}".to_string()).unwrap();
    if let Property::Expression(vec) = expression {
        assert_eq!(vec.len(), 3);
        assert!(matches!(vec[0], Property::Variable(_)));
        assert!(matches!(vec[1], Property::Literal(_)));
        assert!(matches!(vec[2], Property::Variable(_)));
    } else {
        panic!("Expected expression");
    }
}

#[test]
fn fuzz() {
    let rand = &mut rand::rngs::ThreadRng::default();
    for _ in 0..100 {
        let variable_or_literal = rand.random_bool(0.5f64);
        let value = if variable_or_literal {
            let number_of_parts = rand.random_range(1..=5);
            let mut parts: Vec<String> = Vec::new();
            for _ in 0..number_of_parts {
                let length = rand.random_range(3..=10);
                parts.push(
                    rand.sample_iter(&rand::distr::Alphanumeric)
                        .take(length)
                        .map(char::from)
                        .collect(),
                )
            }
            format!("${{{}}}", parts.join("."))
        } else {
            let length = rand.random_range(3..=10);
            rand.sample_iter(&rand::distr::Alphanumeric)
                .take(length)
                .map(char::from)
                .collect()
        };
        let parsed = ParseState::default().parse(&value).unwrap();
        if variable_or_literal {
            assert!(parsed.is_variable());
        } else {
            assert!(!parsed.is_variable());
        }
        assert_eq!(parsed.to_string(), value);
    }
}

#[test]
fn round_trip_of_mixed_parts() {
    for text in ["", "plain", "${a}", "a${b}c", "${a}${b}", "x-${project.version}-y", "${}"] {
        let parsed = ParseState::default().parse(text).unwrap();
        assert_eq!(parsed.to_string(), text);
    }
    let unclosed = state(true).parse("${").unwrap();
    assert_eq!(unclosed, Property::UnclosedVariable(String::new()));
    assert_eq!(unclosed.to_string(), "${");
}

#[test]
fn empty_input_is_an_empty_expression() {
    let parsed = ParseState::default().parse("").unwrap();
    assert_eq!(parsed, Property::Expression(vec![]));
}

#[test]
fn strict_mode_reports_where_the_variable_was_left_open() {
    let err = state(false).parse("lit1/${var1/lit2/${var2}/lit3").unwrap_err();
    assert_eq!(err.offset, 11);
    assert_eq!(err.inner, ParseContext::VariableSuffix);
    assert_eq!(err.input, "lit1/${var1/lit2/${var2}/lit3");
}

#[test]
fn a_dollar_that_opens_nothing_is_rejected() {
    let err = state(true).parse("a$b").unwrap_err();
    assert_eq!(err.offset, 1);
    assert_eq!(err.inner, ParseContext::Part);
}

#[test]
fn error_offsets_count_bytes() {
    let err = state(false).parse("é${x").unwrap_err();
    assert_eq!(err.offset, 5);
}

#[test]
fn spec_scenario_complex_expression() {
    let parsed = ParseState::default().parse("lit1/${var1}/lit2/${var2}/lit3").unwrap();
    assert_eq!(parsed, get_complex().0);
    assert_eq!(parsed.to_string(), "lit1/${var1}/lit2/${var2}/lit3");
}

#[test]
fn default_property_is_empty_literal() {
    assert_eq!(Property::default(), Property::Literal(String::new()));
}
