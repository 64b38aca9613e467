use predicat::base_parser::{CommandType, Comp, PredicatAST, Var};
use predicat::context_traits::Context;
use predicat::metaprogramming::{format_comp, substitute_variables};
use predicat::simple_context::SimpleContext;
use predicat::triplet::Triplet;
use predicat::triplet::Triplet::{
    TNeee, TNevv, TNvee, TNvvv, Teee, Teev, Teve, Tevv, Tvee, Tvev, Tvve, Tvvv,
};

fn s(text: &str) -> String {
    text.to_string()
}

fn table() -> SimpleContext {
    let mut context = SimpleContext::new();
    context.add_column("A", &["a1", "a2", "a3"]);
    context.add_column("$B", &["b1", "b2", "b3"]);
    context.add_column("C", &["c1", "c2", "c3"]);
    context
}

fn every_command() -> Vec<PredicatAST> {
    vec![
        PredicatAST::Query((
            vec![Var(s("A")), Var(s("Z"))],
            vec![Tvev(s("A"), s("r"), s("Z")), Triplet::Empty],
            vec![Comp(s(" $A > 4"))],
        )),
        PredicatAST::AddModifier(vec![Tvvv(s("A"), s("B"), s("C"))]),
        PredicatAST::DeleteModifier(vec![TNvee(s("A"), s("r"), s("o"))]),
        PredicatAST::Infer((CommandType::Add, vec![Tvee(s("A"), s("r"), s("o"))]), s("add $A r o"), s("add o r $A")),
        PredicatAST::Empty,
        PredicatAST::Debug(s("$A")),
        PredicatAST::AddModifier(vec![]),
    ]
}

#[test]
fn substitution_against_the_empty_table_gives_the_command_itself() {
    for command in every_command() {
        assert_eq!(
            substitute_variables(&SimpleContext::new(), command.clone()),
            Some(vec![command])
        );
    }
}

#[test]
fn substitution_against_a_table_without_rows_gives_the_command_itself() {
    let mut context = SimpleContext::new();
    context.add_column("A", &[]);
    context.add_column("B", &["lonely"]);
    for command in every_command() {
        assert_eq!(substitute_variables(&context, command.clone()), Some(vec![command]));
    }
}

#[test]
fn substitution_gives_one_command_for_each_row() {
    for command in every_command().into_iter().filter(|c| {
        matches!(
            c,
            PredicatAST::Query(_) | PredicatAST::AddModifier(_) | PredicatAST::DeleteModifier(_)
        )
    }) {
        assert_eq!(substitute_variables(&table(), command).unwrap().len(), 3);
    }
    let mut one = SimpleContext::new();
    one.add_column("Q", &["only"]);
    assert_eq!(
        substitute_variables(&one, PredicatAST::AddModifier(vec![Teee(s("a"), s("b"), s("c"))])),
        Some(vec![PredicatAST::AddModifier(vec![Teee(s("a"), s("b"), s("c"))])])
    );
}

#[test]
fn rules_and_empty_commands_pass_through() {
    for command in every_command().into_iter().filter(|c| {
        matches!(c, PredicatAST::Infer(..) | PredicatAST::Empty | PredicatAST::Debug(_))
    }) {
        assert_eq!(substitute_variables(&table(), command.clone()), Some(vec![command]));
    }
}

#[test]
fn one_variable_takes_the_values_of_its_column() {
    assert_eq!(
        substitute_variables(&table(), PredicatAST::AddModifier(vec![Tvee(s("A"), s("r"), s("o"))])),
        Some(vec![
            PredicatAST::AddModifier(vec![Teee(s("a1"), s("r"), s("o"))]),
            PredicatAST::AddModifier(vec![Teee(s("a2"), s("r"), s("o"))]),
            PredicatAST::AddModifier(vec![Teee(s("a3"), s("r"), s("o"))]),
        ])
    );
    assert_eq!(
        substitute_variables(&table(), PredicatAST::DeleteModifier(vec![Teve(s("s"), s("B"), s("o"))])),
        Some(vec![
            PredicatAST::DeleteModifier(vec![Teee(s("s"), s("b1"), s("o"))]),
            PredicatAST::DeleteModifier(vec![Teee(s("s"), s("b2"), s("o"))]),
            PredicatAST::DeleteModifier(vec![Teee(s("s"), s("b3"), s("o"))]),
        ])
    );
}

#[test]
fn variables_of_one_pattern_are_paired_by_row() {
    assert_eq!(
        substitute_variables(&table(), PredicatAST::AddModifier(vec![Tvvv(s("A"), s("B"), s("C"))])),
        Some(vec![
            PredicatAST::AddModifier(vec![Teee(s("a1"), s("b1"), s("c1"))]),
            PredicatAST::AddModifier(vec![Teee(s("a2"), s("b2"), s("c2"))]),
            PredicatAST::AddModifier(vec![Teee(s("a3"), s("b3"), s("c3"))]),
        ])
    );
    assert_eq!(
        substitute_variables(&table(), PredicatAST::AddModifier(vec![Tvve(s("C"), s("A"), s("o"))]))
            .unwrap()[1],
        PredicatAST::AddModifier(vec![Teee(s("c2"), s("a2"), s("o"))])
    );
}

#[test]
fn a_variable_that_the_table_does_not_bind_stays() {
    assert_eq!(
        substitute_variables(
            &table(),
            PredicatAST::AddModifier(vec![
                Tvvv(s("Z"), s("B"), s("C")),
                Tvvv(s("A"), s("Y"), s("X")),
                Tevv(s("s"), s("B"), s("X")),
                Teev(s("s"), s("r"), s("X")),
                Triplet::Empty,
            ])
        )
        .unwrap()[2],
        PredicatAST::AddModifier(vec![
            Tvee(s("Z"), s("b3"), s("c3")),
            Tevv(s("a3"), s("Y"), s("X")),
            Teev(s("s"), s("b3"), s("X")),
            Teev(s("s"), s("r"), s("X")),
            Triplet::Empty,
        ])
    );
}

#[test]
fn a_negation_stays_a_negation() {
    assert_eq!(
        substitute_variables(
            &table(),
            PredicatAST::AddModifier(vec![
                TNvvv(s("A"), s("B"), s("C")),
                TNvee(s("Z"), s("r"), s("o")),
                TNevv(s("s"), s("A"), s("Z")),
            ])
        )
        .unwrap()[0],
        PredicatAST::AddModifier(vec![
            TNeee(s("a1"), s("b1"), s("c1")),
            TNvee(s("Z"), s("r"), s("o")),
            predicat::triplet::Triplet::TNeev(s("s"), s("a1"), s("Z")),
        ])
    );
}

#[test]
fn a_query_loses_the_variables_that_the_table_binds() {
    let query = PredicatAST::Query((
        vec![Var(s("A")), Var(s("Z")), Var(s("$B")), Var(s("Y"))],
        vec![Tvev(s("A"), s("r"), s("Z")), Triplet::Empty],
        vec![Comp(s(" $A > 4")), Comp(s(" $Z != $B")), Comp(s(" 4 < 'x'"))],
    ));
    let rows = substitute_variables(&table(), query).unwrap();
    assert_eq!(rows.len(), 3);
    assert_eq!(
        rows[1],
        PredicatAST::Query((
            vec![Var(s("Z")), Var(s("Y"))],
            vec![Teev(s("a2"), s("r"), s("Z")), Triplet::Empty],
            vec![Comp(s(" a2 > 4")), Comp(s(" $Z != b2")), Comp(s(" 4 < 'x'"))],
        ))
    );
}

#[test]
fn only_a_marked_operand_is_taken_for_a_variable() {
    let mut context = SimpleContext::new();
    context.add_column("4", &["four"]);
    let query = PredicatAST::Query((vec![], vec![], vec![Comp(s(" $4 > 4"))]));
    assert_eq!(
        substitute_variables(&context, query),
        Some(vec![PredicatAST::Query((vec![], vec![], vec![Comp(s(" four > 4"))]))])
    );
}

#[test]
fn columns_of_different_lengths_give_no_substitution() {
    let mut context = SimpleContext::new();
    context.add_column("A", &["a1", "a2"]);
    context.add_column("B", &["b1"]);
    for command in every_command() {
        assert_eq!(substitute_variables(&context, command), None);
    }
}

#[test]
fn a_comparison_is_written_with_a_space_before_each_part() {
    assert_eq!(format_comp("$A", ">=", "4"), Comp(s(" $A >= 4")));
    assert_eq!(format_comp("", "", ""), Comp(s("   ")));
    assert_eq!(format_comp("a", "<", "b").get_content(), (s("a"), s("<"), s("b")));
}
