use predicat::base_parser::{Comp, PredicatAST, Var};
use predicat::sqlite_knowledge::{
    extract_columns, format_variables, substitute_command_string, substitute_variable,
    translate_one_ast, triplet_to_insert, triplet_to_sql,
};
use predicat::triplet::Triplet;
use predicat::triplet::Triplet::{Teee, Tvee, Tvev, Tvvv};

#[test]
fn sqlite_knowledge_test_from_triplet_to_sql() {
    assert_eq!(
        triplet_to_sql(&Tvvv("A".to_string(), "B".to_string(), "C".to_string())),
        "SELECT subject AS A,link AS B,goal AS C FROM facts".to_string()
    );
    assert_eq!(
        triplet_to_sql(&Tvev("A".to_string(), "B".to_string(), "C".to_string())),
        "SELECT subject AS A,goal AS C FROM facts WHERE link='B'"
    );
}

#[test]
fn sqlite_knowledge_test_format_variables() {
    assert_eq!(
        format_variables(&vec![Var("X".to_string()), Var("Y".to_string())]),
        "SELECT X,Y FROM "
    );
    assert_eq!(format_variables(&vec![Var("X".to_string())]), "SELECT X FROM ");
}

#[test]
fn test_translate_one_ast_get() {
    assert_eq!(
        translate_one_ast(&PredicatAST::Query((
            vec![Var("A".to_string())],
            vec![Tvee("A".to_string(), "est".to_string(), "mortel".to_string())],
            vec![]
        )))
        .unwrap(),
        "SELECT A FROM (SELECT subject AS A FROM facts WHERE link='est' AND goal='mortel');"
            .to_string()
    );
}

#[test]
fn test_translate_one_ast_add_modifier() {
    assert_eq!(
        translate_one_ast(&PredicatAST::AddModifier(vec![Teee(
            "pierre".to_string(),
            "ami".to_string(),
            "jean".to_string()
        )]))
        .unwrap(),
        "INSERT or IGNORE INTO facts (subject,link,goal) VALUES ('pierre','ami','jean')"
            .to_string()
    )
}

#[test]
fn test_extract_column() {
    assert_eq!(
        extract_columns(
            "SELECT A,B,C FROM (SELECT subject AS A,link AS B,goal AS C FROM facts);"
        ),
        vec!["A", "B", "C"]
    );
}

#[test]
fn test_extract_column2() {
    assert_eq!(
        extract_columns(
            "SELECT $A,$B,$C FROM (SELECT subject AS A,link AS B,goal AS C FROM facts);"
        ),
        vec!["$A", "$B", "$C"]
    );
}

#[test]
fn test_substitute_command_string() {
    assert_eq!(
        substitute_command_string(
            Triplet::Tvvv("pierre".to_string(), "ami".to_string(), "emy".to_string()),
            &["$A", "ami", "$B"],
            "add $B ami $A"
        ),
        "add emy ami pierre"
    );
}

#[test]
fn test_substitute_variable() {
    assert_eq!(
        substitute_variable("$A", "pierre", "add $A ami $B"),
        "add pierre ami $B".to_string()
    );
}

#[test]
fn parse_modifier_test_triplet_to_insert() {
    assert_eq!(
        triplet_to_insert(&Teee("pierre".to_string(), "ami".to_string(), "jean".to_string())),
        "INSERT or IGNORE INTO facts (subject,link,goal) VALUES ('pierre','ami','jean')"
            .to_string()
    );
}

#[test]
fn translate_one_ast_refuses_the_empty_command() {
    assert_eq!(
        translate_one_ast(&PredicatAST::Empty),
        Err(predicat::base_knowledge::KnowledgeError::EmptyAST)
    );
    assert_eq!(
        translate_one_ast(&PredicatAST::Query((vec![], vec![Triplet::Empty], vec![Comp(" $A > 7".to_string())]))).unwrap(),
        "SELECT subject,link,goal FROM facts WHERE A > 7;"
    );
}
