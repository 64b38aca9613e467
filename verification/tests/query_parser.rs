use predicat::base_parser::{Language, PredicatAST, Var};
use predicat::grammar::{ErrorKind, ParseFailure};
use predicat::parse_query::{
    parse_comparison, parse_comparison_and, parse_connector, parse_get, parse_number,
    parse_operator, parse_string, parse_valvar, parse_value, parse_variable, recognize_variable,
};
use predicat::parser::parse_query_and_modifier;
use predicat::triplet::Triplet;

#[test]
fn test_parse_query_and_modifier() {
    assert_eq!(
        parse_query_and_modifier("get $A $B $C where $A $B $C").unwrap().1,
        PredicatAST::Query((
            vec![Var("A".to_string()), Var("B".to_string()), Var("C".to_string())],
            vec![Triplet::Tvvv("A".to_string(), "B".to_string(), "C".to_string())],
            vec![]
        ))
    );
}

#[test]
fn test_parse_query_and_modifier2() {
    assert_eq!(
        parse_query_and_modifier("get $A $B $C where $A $B $C").unwrap().1,
        PredicatAST::Query((
            vec![Var("A".to_string()), Var("B".to_string()), Var("C".to_string())],
            vec![Triplet::Tvvv("A".to_string(), "B".to_string(), "C".to_string())],
            vec![]
        ))
    );
}

#[test]
fn parse_query_test_get() {
    assert_eq!(parse_get("get").unwrap().1, Language::Get);
    assert_eq!(parse_get("SELECT"), Err(ParseFailure { input: "SELECT", code: ErrorKind::Tag }));
}

#[test]
fn parse_query_test_variable() {
    assert_eq!(parse_variable(" $Hello").unwrap().1, Language::Var("Hello".to_string()));
    assert_eq!(parse_variable(" $A").unwrap().1, Language::Var("A".to_string()));
    assert_eq!(parse_variable(" $2").unwrap().1, Language::Var("2".to_string()));
    assert_eq!(parse_variable(" hey"), Err(ParseFailure { input: "hey", code: ErrorKind::Tag }));
}

#[test]
fn parse_query_test_connector() {
    assert_eq!(parse_connector(" who_has").unwrap().1, Language::Connector);
    assert_eq!(parse_connector(" such_as").unwrap().1, Language::Connector);
    assert_eq!(
        parse_connector(" hey"),
        Err(ParseFailure { input: " hey", code: ErrorKind::Tag })
    );
}

#[test]
fn parse_query_test_operator() {
    assert_eq!(parse_operator(" ==").unwrap().1, "==".to_string());
    assert_eq!(parse_operator(" >").unwrap().1, ">".to_string());
    assert_eq!(parse_operator(" a"), Err(ParseFailure { input: "a", code: ErrorKind::Tag }));
}

#[test]
fn parse_query_test_comparison() {
    assert_eq!(parse_comparison(" 4 < 5").unwrap().1, Language::Comp(" 4 < 5".to_string()));
    assert_eq!(parse_comparison(" $A > 5").unwrap().1, Language::Comp(" $A > 5".to_string()));
    assert_eq!(parse_comparison(" F"), Err(ParseFailure { input: "F", code: ErrorKind::Digit }));
    assert_eq!(parse_comparison(" 4 == 5").unwrap().1, Language::Comp(" 4 == 5".to_string()));
    assert_eq!(
        parse_comparison(" 4 == 'res'").unwrap().1,
        Language::Comp(" 4 == 'res'".to_string())
    );
}

#[test]
fn test_comparison2() {
    assert_eq!(
        parse_comparison(" 4 < 5 | ").unwrap(),
        (" | ", Language::Comp(" 4 < 5".to_string()))
    );
}

#[test]
fn parse_query_test_string() {
    assert_eq!(parse_string(" 'un deux trois'").unwrap().1, " 'un deux trois'".to_string());
    assert_eq!(parse_string(" 'sdt'").unwrap().1, " 'sdt'".to_string());
}

#[test]
fn parse_query_test_number() {
    assert_eq!(parse_number(" 57").unwrap().1, "57".to_string());
    assert_eq!(parse_number(" 2.57").unwrap().1, "2.57".to_string());
    assert_eq!(parse_number(" -57").unwrap().1, "-57".to_string());
    assert_eq!(parse_number(" -57.34").unwrap().1, "-57.34".to_string());
}

#[test]
fn parse_query_test_valvar() {
    assert_eq!(parse_valvar(" $A").unwrap().1, "$A".to_string());
    assert_eq!(parse_valvar(" 7").unwrap().1, "7".to_string());
    assert_eq!(parse_valvar(" '7'").unwrap().1, " '7'".to_string());
}

#[test]
fn parse_query_test_comparison_and() {
    assert_eq!(
        parse_comparison_and(" 7 == 8 AND 6 < 9").unwrap().1,
        Language::Comp(" 7 == 8".to_string())
    );
}

#[test]
fn test_comparison_and2() {
    assert_eq!(
        parse_comparison_and(" 7 == 8 AND 6 < 9 | ").unwrap(),
        (" AND 6 < 9 | ", Language::Comp(" 7 == 8".to_string()))
    );
}

#[test]
fn parse_query_test_value() {
    assert_eq!(parse_value(" -57.34").unwrap().1, "-57.34".to_string());
    assert_eq!(parse_value(" '3'").unwrap().1, " '3'".to_string());
    assert_eq!(parse_value(" 'sdt'").unwrap().1, " 'sdt'".to_string());
}

#[test]
fn test_recognize_variable() {
    assert_eq!(recognize_variable(" | ").unwrap_or(("", "not")).1, "not");
}

#[test]
fn test_parse_value() {
    assert_eq!(parse_value(" | ").unwrap_or(("", "not")).1, "not");
}

#[test]
fn test_parse_valvar() {
    assert_eq!(parse_valvar(" | ").unwrap_or(("", "not")).1, "not");
}
