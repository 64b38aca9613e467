use predicat::base_knowledge::{Command, KnowledgeError, Knowledgeable, RuleManager};
use predicat::base_parser::PredicatAST;
use predicat::context_traits::{Context, Var};
use predicat::base_knowledge::all_valid;
use predicat::interpreter::{merge_round, Interpreter, Outcome};
use predicat::sqlite_knowledge::is_cached;
use predicat::parser::ContextCMD;
use predicat::base_knowledge::{Cache, FactManager, Joinable};
use predicat::simple_context::SimpleContext;
use predicat::sqlite_knowledge::SqliteKnowledge;

fn engine() -> Interpreter<SqliteKnowledge> {
    let interpreter = Interpreter::new(SqliteKnowledge::open(":memory:").unwrap());
    interpreter.clear();
    interpreter
}

fn run(
    interpreter: &mut Interpreter<SqliteKnowledge>,
    cmd: &str,
) -> Result<SimpleContext, KnowledgeError> {
    interpreter.run(cmd)
}

fn facts(interpreter: &mut Interpreter<SqliteKnowledge>) -> Vec<Vec<String>> {
    let all = run(interpreter, "get $A $B $C where $A $B $C").unwrap();
    let mut rows = all.get_values2(&["A", "B", "C"]).unwrap_or_default();
    rows.sort();
    rows
}

fn row(a: &str, b: &str, c: &str) -> Vec<String> {
    vec![a.to_string(), b.to_string(), c.to_string()]
}

#[test]
fn test_rule_1() {
    let mut interpreter = engine();
    run(&mut interpreter, "infer add $A ami $B -> add $B ami $A").unwrap();
    assert_eq!(
        interpreter.knowledge.get_rules(),
        vec!["add", "$A", "ami", "$B", "add $B ami $A", "add $B ami $A"]
    );
}

#[test]
fn test_rule_2() {
    let mut interpreter = engine();
    run(&mut interpreter, "infer add $A ami $B -> add $B ami $A").unwrap();
    run(&mut interpreter, "add julien ami julie").unwrap();
    assert_eq!(
        SimpleContext::from(vec![["julien", "ami", "julie"], ["julie", "ami", "julien"]]),
        run(&mut interpreter, "get $subject $link $goal where $subject $link $goal").unwrap()
    );
}

#[test]
fn test_get_command_from() {
    let mut interpreter = engine();
    run(&mut interpreter, "infer add $A ami $B -> add $B ami $A").unwrap();
    let cmds = interpreter.knowledge.infer_commands_from(
        &Interpreter::<SqliteKnowledge>::single_parse(&"add julien ami julie".to_string())[0],
    );
    assert_eq!(cmds, ["add julie ami julien"]);
}

#[test]
fn adding_a_fact_twice_keeps_one_fact() {
    let mut interpreter = engine();
    run(&mut interpreter, "add pierre ami jean").unwrap();
    run(&mut interpreter, "add pierre ami jean").unwrap();
    let all = run(&mut interpreter, "get $A $B $C where $A $B $C").unwrap();
    assert_eq!(all.dataframe_len(), 1);
    assert_eq!(
        all.get_values2(&["A", "B", "C"]),
        Some(vec![row("pierre", "ami", "jean")])
    );
}

#[test]
fn a_symmetric_rule_ends_with_both_edges() {
    let mut interpreter = engine();
    run(&mut interpreter, "infer add $A ami $B -> add $B ami $A").unwrap();
    run(&mut interpreter, "add julien ami julie").unwrap();
    assert_eq!(
        facts(&mut interpreter),
        vec![row("julie", "ami", "julien"), row("julien", "ami", "julie")]
    );
}

#[test]
fn delete_removes_the_fact() {
    let mut interpreter = engine();
    run(&mut interpreter, "add pierre ami emy").unwrap();
    assert_eq!(facts(&mut interpreter), vec![row("pierre", "ami", "emy")]);
    run(&mut interpreter, "delete pierre ami emy").unwrap();
    let all = run(&mut interpreter, "get $A $B $C where $A $B $C").unwrap();
    assert_eq!(all.dataframe_len(), 0);
    assert!(all.is_empty());
}

#[test]
fn delete_leaves_the_other_facts() {
    let mut interpreter = engine();
    run(&mut interpreter, "add pierre ami emy and pierre ami jean").unwrap();
    run(&mut interpreter, "delete pierre ami emy").unwrap();
    assert_eq!(facts(&mut interpreter), vec![row("pierre", "ami", "jean")]);
}

#[test]
fn a_query_projects_the_variable_asked_for() {
    let mut interpreter = engine();
    run(&mut interpreter, "add socrate est mortel").unwrap();
    run(&mut interpreter, "add platon est philosophe").unwrap();
    let answer = run(&mut interpreter, "get $A where $A est mortel").unwrap();
    assert_eq!(answer.get_variables(), vec![Var("$A".to_string())]);
    assert_eq!(answer.dataframe_len(), 1);
    assert_eq!(answer.get_values("A").unwrap(), vec!["socrate".to_string()]);
    assert_eq!(answer.get_table(), vec![("$A".to_string(), vec!["socrate".to_string()])]);
}

#[test]
fn a_blocked_rule_aborts_the_batch() {
    let mut interpreter = engine();
    run(&mut interpreter, "add socrate est mortel").unwrap();
    run(&mut interpreter, "infer add $A ami $B -> get $X where $X est mortel").unwrap();
    let rules_before = interpreter.knowledge.get_rules();
    let facts_before = facts(&mut interpreter);
    let outcome = run(
        &mut interpreter,
        "add platon est mortel | infer add $C ami $D -> add $D ami $C",
    );
    assert_eq!(
        outcome,
        Err(KnowledgeError::InvalidCommand(
            "infer add $C ami $D -> add $D ami $C".to_string()
        ))
    );
    assert_eq!(interpreter.knowledge.get_rules(), rules_before);
    assert_eq!(facts(&mut interpreter), facts_before);
}

#[test]
fn an_unreadable_command_aborts_the_run() {
    let mut interpreter = engine();
    assert_eq!(
        run(&mut interpreter, "get julien ami julie"),
        Err(KnowledgeError::ParseFailure(
            "get julien ami julie".to_string(),
            predicat::grammar::ErrorKind::Tag
        ))
    );
}

#[test]
fn the_store_reports_what_it_refuses() {
    let knowledge = SqliteKnowledge::open(":memory:").unwrap();
    assert!(matches!(
        knowledge.modify("this is no statement"),
        Err(KnowledgeError::StoreError(_))
    ));
    assert!(matches!(knowledge.get("SELECT * FROM nowhere"), Err(KnowledgeError::StoreError(_))));
    assert_eq!(
        knowledge.execute_command(&PredicatAST::Empty),
        Err(KnowledgeError::EmptyAST)
    );
    assert_eq!(knowledge.valid_commands(vec![PredicatAST::Empty]), Some(vec![PredicatAST::Empty]));
}

#[test]
fn a_store_of_an_unknown_kind_is_refused() {
    let refused: Result<SqliteKnowledge, String> = predicat::base_knowledge::new_knowledge("files");
    assert_eq!(refused.err(), Some("There is no 'files' knowledge availiable".to_string()));
    assert!(SqliteKnowledge::open("/nowhere/at/all/data.db").is_err());
    let _ = <SqliteKnowledge as Knowledgeable>::clear_all;
}

#[test]
fn a_command_is_carried_out_once_in_a_run() {
    let interpreter = engine();
    let context = interpreter.begin("add a b c | add a b c | add d e f").unwrap();
    assert!(!context.has_commands());
    assert_eq!(
        interpreter.knowledge.get_vec("SELECT command FROM cache"),
        vec![
            ("command".to_string(), "add a b c".to_string()),
            ("command".to_string(), "add d e f".to_string())
        ]
    );
    let parsed = predicat::parser::parse_command("add a b c").pop().unwrap();
    assert!(interpreter.knowledge.in_cache(&parsed));
    assert_eq!(interpreter.knowledge.store_to_cache(&parsed), parsed);
    interpreter.clear_cache();
    assert!(!interpreter.knowledge.in_cache(&parsed));
    interpreter.knowledge.save_facts("add", "a", "b", "c");
    assert!(interpreter.knowledge.in_cache(&parsed));
}

#[test]
fn a_round_collects_the_commands_that_follow() {
    let mut interpreter = engine();
    run(&mut interpreter, "infer add $A parent $B -> add $B enfant $A").unwrap();
    run(&mut interpreter, "infer add $A enfant $B -> add $A cadet $B").unwrap();
    run(&mut interpreter, "infer delete $A parent $B -> delete $B enfant $A").unwrap();
    let first = interpreter.begin("add anne parent luc and marie parent luc | add x y z").unwrap();
    assert_eq!(first.get_aftercmds(), vec!["add luc enfant anne", "add luc enfant marie"]);
    assert!(Interpreter::<SqliteKnowledge>::pending(&first));
    let second = interpreter.step(&first).unwrap();
    assert_eq!(second.get_aftercmds(), vec!["add luc cadet anne", "add luc cadet marie"]);
    let third = interpreter.step(&second).unwrap();
    assert!(!Interpreter::<SqliteKnowledge>::pending(&third));
    assert_eq!(interpreter.finish(third.clone()), third);
    assert_eq!(interpreter.context, third);
    assert_eq!(
        facts(&mut interpreter),
        vec![
            row("anne", "parent", "luc"),
            row("luc", "cadet", "anne"),
            row("luc", "cadet", "marie"),
            row("luc", "enfant", "anne"),
            row("luc", "enfant", "marie"),
            row("marie", "parent", "luc"),
            row("x", "y", "z"),
        ]
    );
    run(&mut interpreter, "delete anne parent luc").unwrap();
    assert_eq!(facts(&mut interpreter).len(), 5);
}

#[test]
fn a_command_that_follows_and_cannot_be_read_is_dropped() {
    let interpreter = engine();
    let carried = SimpleContext::new().add_aftercmd(&[
        "nothing to read".to_string(),
        "add a b c".to_string(),
        "".to_string(),
    ]);
    let after = interpreter.step(&carried).unwrap();
    assert!(!after.has_commands());
    assert_eq!(
        interpreter.knowledge.get_all().unwrap().get_values2(&["A", "B", "C"]),
        Some(vec![row("a", "b", "c")])
    );
}

#[test]
fn the_answers_of_a_run_are_joined() {
    let mut interpreter = engine();
    run(&mut interpreter, "add socrate est mortel and platon est mortel").unwrap();
    let both = run(
        &mut interpreter,
        "get $A where $A est mortel and $A != 'platon' | get $B where socrate est $B",
    )
    .unwrap();
    assert_eq!(
        both.get_table(),
        vec![
            ("$A".to_string(), vec!["socrate".to_string()]),
            ("$B".to_string(), vec!["mortel".to_string()])
        ]
    );
    run(&mut interpreter, "infer add $A est grec -> get $X where $X est mortel").unwrap();
    let derived = run(&mut interpreter, "add socrate est grec").unwrap();
    let mut found = derived.get_values("X").unwrap();
    found.sort();
    assert_eq!(found, vec!["platon", "socrate"]);
}

#[test]
fn what_the_commands_of_a_round_gave_is_merged() {
    let mut first = SimpleContext::new();
    first.add_column("A", &["1"]);
    first.cmds = vec!["lost".to_string()];
    first.log = vec!["lost".to_string()];
    let mut second = SimpleContext::new();
    second.add_column("A", &["2"]);
    second.add_column("B", &["x"]);
    let merged = merge_round(vec![
        Outcome::Done(first.clone(), vec!["add a b c".to_string()]),
        Outcome::Cached,
        Outcome::Done(SimpleContext::new(), vec![]),
        Outcome::Cached,
        Outcome::Done(second.clone(), vec!["add d e f".to_string(), "add a b c".to_string()]),
    ]);
    assert_eq!(
        merged.get_table(),
        vec![
            ("$A".to_string(), vec!["1".to_string(), "2".to_string()]),
            ("$B".to_string(), vec!["x".to_string()])
        ]
    );
    assert_eq!(merged.cmds, vec!["add a b c", "add d e f", "add a b c"]);
    assert!(merged.log.is_empty());
    assert_eq!(merge_round(vec![]), SimpleContext::new());
    assert_eq!(merge_round(vec![Outcome::Cached, Outcome::Cached]), SimpleContext::new());
    let alone = merge_round(vec![Outcome::Cached, Outcome::Done(second.clone(), vec![])]);
    assert_eq!(alone.get_table(), second.get_table());
    assert!(!alone.has_commands());
    assert_eq!(
        <SimpleContext as Joinable>::join(first.clone(), second.clone()),
        first.join(second)
    );
}

#[test]
fn the_store_is_cleared_part_by_part() {
    let mut interpreter = engine();
    run(&mut interpreter, "add a b c").unwrap();
    run(&mut interpreter, "infer add $A r $B -> add $B r $A").unwrap();
    assert_eq!(interpreter.knowledge.get_rules().len(), 6);
    interpreter.knowledge.clear_rules();
    assert!(interpreter.knowledge.get_rules().is_empty());
    assert_eq!(facts(&mut interpreter).len(), 1);
    interpreter.knowledge.clear_facts();
    assert!(facts(&mut interpreter).is_empty());
    run(&mut interpreter, "add a b c").unwrap();
    interpreter.clear();
    assert!(interpreter.knowledge.get_all().unwrap().is_empty());
    assert!(matches!(
        interpreter.knowledge.store_rule("%rule%%|%too%|%short"),
        Err(KnowledgeError::StoreError(_))
    ));
    assert_eq!(
        interpreter.knowledge.infer_command_from_triplet(
            "add",
            &predicat::triplet::Triplet::Teee("a".to_string(), "b".to_string(), "c".to_string())
        ),
        Vec::<String>::new()
    );
    assert!(!interpreter.knowledge.is_invalid(&PredicatAST::Empty));
}

#[test]
fn a_round_without_a_command_leaves_the_table_as_it_is() {
    let interpreter = engine();
    let mut carried = SimpleContext::new();
    carried.add_column("A", &["1", "2"]);
    let carried = carried.add_aftercmd(&["nothing to read".to_string(), "".to_string()]);
    let after = interpreter.step(&carried).unwrap();
    assert_eq!(after.get_table(), carried.get_table());
    assert!(!after.has_commands());
    assert!(!after.has_error());
    let nothing = interpreter.execute(&[]).unwrap();
    assert_eq!(nothing, SimpleContext::new());
}

#[test]
fn only_modifiers_give_rise_to_commands() {
    let mut interpreter = engine();
    run(&mut interpreter, "infer add $A ami $B -> add $B ami $A").unwrap();
    run(&mut interpreter, "add julien ami julie").unwrap();
    let round = interpreter
        .execute(&predicat::parser::parse_command(
            "get $A where $A ami julie | infer add $A r $B -> add $B r $A",
        ))
        .unwrap();
    assert!(!round.has_commands());
    assert_eq!(round.get_values("A").unwrap(), vec!["julien"]);
    let modifier = predicat::parser::parse_command("add paul ami anne").pop().unwrap();
    assert_eq!(
        interpreter.execute(&[modifier.clone()]).unwrap().get_aftercmds(),
        vec!["add anne ami paul"]
    );
    assert!(interpreter.knowledge.in_cache(&modifier));
    let again = interpreter.execute(&[modifier]).unwrap();
    assert_eq!(again, SimpleContext::new());
    assert!(interpreter
        .knowledge
        .infer_commands_from(&PredicatAST::AddModifier(vec![]))
        .is_empty());
    assert!(interpreter
        .knowledge
        .infer_commands_from(&PredicatAST::Query((vec![], vec![], vec![])))
        .is_empty());
}

#[test]
fn a_rule_without_its_fields_is_refused_before_the_store_is_asked() {
    let interpreter = engine();
    let refused = Err(KnowledgeError::StoreError("The rule is malformed".to_string()));
    assert_eq!(interpreter.knowledge.store_rule("%rule%%|%too%|%short"), refused);
    assert_eq!(
        interpreter
            .knowledge
            .execute(&predicat::sqlite_knowledge::Sql::Rule("%rule%%|%add".to_string())),
        refused
    );
    assert!(interpreter.knowledge.get_rules().is_empty());
    assert_eq!(
        interpreter.knowledge.execute(&predicat::sqlite_knowledge::Sql::Rule(
            "%rule%%|%add%|%$A%|%r%|%$B%|%add $B r $A%|%add $B r $A".to_string()
        )),
        Ok(SimpleContext::new())
    );
    assert_eq!(interpreter.knowledge.get_rules().len(), 6);
    assert_eq!(
        interpreter.knowledge.modify("DELETE FROM rules"),
        Ok(SimpleContext::new())
    );
    let answer = interpreter.knowledge.get("SELECT 1 AS one").unwrap();
    assert!(!answer.has_commands() && !answer.has_error());
    assert_eq!(answer.get_values("one").unwrap(), vec!["1"]);
}

#[test]
fn a_rule_without_a_pattern_is_not_blocked() {
    let mut interpreter = engine();
    run(&mut interpreter, "add socrate est mortel").unwrap();
    run(&mut interpreter, "infer add $A ami $B -> get $X where $X est mortel").unwrap();
    let blocked = predicat::parser::parse_command("infer add $C ami $D -> add $D ami $C")
        .pop()
        .unwrap();
    assert!(interpreter.knowledge.is_invalid(&blocked));
    assert!(!interpreter.knowledge.is_invalid(&PredicatAST::Infer(
        (predicat::base_parser::CommandType::Add, vec![]),
        "add $C ami $D".to_string(),
        "add $D ami $C".to_string()
    )));
    assert!(!interpreter
        .knowledge
        .is_invalid(&predicat::parser::parse_command("add x ami y").pop().unwrap()));
}

#[test]
fn a_run_that_fails_is_closed_all_the_same() {
    let mut interpreter = engine();
    run(&mut interpreter, "add a b c").unwrap();
    assert_eq!(run(&mut interpreter, "get $A where $A b c").unwrap().get_values("A").unwrap(), vec!["a"]);
    assert_eq!(interpreter.context.get_values("A").unwrap(), vec!["a"]);
    let modifier = predicat::parser::parse_command("add d e f").pop().unwrap();
    interpreter.knowledge.store_to_cache(&modifier);
    assert!(interpreter.knowledge.in_cache(&modifier));
    let failure = || Err(KnowledgeError::StoreError("gone".to_string()));
    assert_eq!(interpreter.close(failure()), failure());
    assert_eq!(interpreter.context, SimpleContext::new());
    assert!(!interpreter.knowledge.in_cache(&modifier));
    let mut kept = SimpleContext::new();
    kept.add_column("B", &["1"]);
    assert_eq!(interpreter.close(Ok(kept.clone())), Ok(kept.clone()));
    assert_eq!(interpreter.context, kept);
    assert!(run(&mut interpreter, "nothing to read").is_err());
    assert_eq!(interpreter.context, SimpleContext::new());
}

#[test]
fn a_command_is_in_the_cache_where_the_store_answers_with_a_row() {
    assert!(!is_cached(&vec![]));
    assert!(is_cached(&vec![vec![]]));
    assert!(is_cached(&vec![vec![("command".to_string(), Some("add a b c".to_string()))]]));
    assert!(is_cached(&vec![vec![("command".to_string(), None)], vec![]]));
}

#[test]
fn a_batch_with_a_blocked_command_is_refused_whole() {
    let batch = || predicat::parser::parse_command("add a b c | get $A where $A b c | add d e f");
    assert_eq!(all_valid(batch(), &[false, false, false]), Some(batch()));
    assert_eq!(all_valid(batch(), &[false, false, true]), None);
    assert_eq!(all_valid(batch(), &[true, false, false]), None);
    assert_eq!(all_valid(batch(), &[false, false]), Some(batch()));
    assert_eq!(all_valid(batch(), &[false, false, false, true]), Some(batch()));
    assert_eq!(all_valid(vec![], &[]), Some(vec![]));
    assert_eq!(all_valid(vec![], &[true]), Some(vec![]));
    let mut interpreter = engine();
    run(&mut interpreter, "add socrate est mortel").unwrap();
    run(&mut interpreter, "infer add $A ami $B -> get $X where $X est mortel").unwrap();
    let blocked = || {
        predicat::parser::parse_command("add x y z | infer add $C ami $D -> add $D ami $C")
    };
    assert_eq!(interpreter.knowledge.valid_commands(blocked()), None);
    assert_eq!(interpreter.knowledge.valid_commands(batch()), Some(batch()));
    assert_eq!(interpreter.knowledge.valid_commands(vec![]), Some(vec![]));
}

#[test]
fn a_negated_pattern_selects_the_complementary_rows() {
    let mut interpreter = engine();
    for fact in ["add a r b", "add a r c", "add d r b", "add d s e"] {
        run(&mut interpreter, fact).unwrap();
    }
    let sorted = |context: SimpleContext, names: &[&str]| {
        let mut rows = context.get_values2(names).unwrap_or_default();
        rows.sort();
        rows
    };
    let select = |interpreter: &Interpreter<SqliteKnowledge>, pattern: predicat::triplet::Triplet| {
        interpreter
            .knowledge
            .get(&predicat::sqlite_knowledge::triplet_to_sql(&pattern))
            .unwrap()
    };
    let t = |x: &str| x.to_string();
    assert_eq!(
        sorted(select(&interpreter, predicat::triplet::Triplet::TNeee(t("a"), t("r"), t("b"))), &["subject", "link", "goal"]),
        vec![row("a", "r", "c"), row("d", "r", "b"), row("d", "s", "e")]
    );
    assert_eq!(
        sorted(select(&interpreter, predicat::triplet::Triplet::TNvve(t("A"), t("B"), t("b"))), &["A", "B"]),
        vec![vec![t("d"), t("s")]]
    );
    assert_eq!(
        sorted(select(&interpreter, predicat::triplet::Triplet::TNvev(t("A"), t("r"), t("C"))), &["A", "C"]),
        vec![vec![t("d"), t("e")]]
    );
    assert_eq!(
        sorted(select(&interpreter, predicat::triplet::Triplet::TNevv(t("a"), t("B"), t("C"))), &["B", "C"]),
        vec![vec![t("s"), t("e")]]
    );
    assert!(select(&interpreter, predicat::triplet::Triplet::TNvvv(t("A"), t("B"), t("C"))).is_empty());
    assert_eq!(
        sorted(select(&interpreter, predicat::triplet::Triplet::TNvee(t("A"), t("r"), t("b"))), &["A"]),
        Vec::<Vec<String>>::new()
    );
    assert_eq!(
        sorted(select(&interpreter, predicat::triplet::Triplet::TNeev(t("a"), t("r"), t("C"))), &["C"]),
        vec![vec![t("e")]]
    );
}

#[test]
fn a_value_that_is_no_text_is_read_without_a_fault() {
    let interpreter = engine();
    let answer = interpreter.knowledge.get("SELECT x'ff' AS b, 7 AS n, 'a' AS t").unwrap();
    assert_eq!(answer.get_values("b").unwrap(), vec!["\u{fffd}"]);
    assert_eq!(answer.get_values("n").unwrap(), vec!["7"]);
    assert_eq!(answer.get_values("t").unwrap(), vec!["a"]);
    assert!(matches!(
        interpreter.knowledge.get("SELECT nothing FROM nowhere"),
        Err(KnowledgeError::StoreError(_))
    ));
    assert!(matches!(
        interpreter.knowledge.get("SELECT 1 AS one \u{0} SELECT 2"),
        Err(KnowledgeError::StoreError(_))
    ));
    assert!(interpreter.knowledge.get("SELECT subject FROM facts").unwrap().is_empty());
}

#[test]
fn a_command_with_a_quoted_term_is_found_in_the_cache() {
    let interpreter = engine();
    let quoted = predicat::parser::parse_command("add 'jean paul' ami 'notable'").pop().unwrap();
    assert_eq!(quoted.text(), "add 'jean paul' ami 'notable'");
    let plain = predicat::parser::parse_command("add jean ami paul").pop().unwrap();
    assert!(!interpreter.knowledge.in_cache(&quoted));
    assert_eq!(interpreter.knowledge.store_to_cache(&quoted), quoted);
    assert!(interpreter.knowledge.in_cache(&quoted));
    assert!(!interpreter.knowledge.in_cache(&plain));
    let denied = predicat::parser::parse_command("add not jean ami paul").pop().unwrap();
    assert_eq!(denied.text(), "add not jean ami paul");
    interpreter.knowledge.store_to_cache(&denied);
    assert!(interpreter.knowledge.in_cache(&denied));
    assert!(!interpreter.knowledge.in_cache(&plain));
    interpreter.knowledge.clear_cache();
    assert!(!interpreter.knowledge.in_cache(&quoted));
    assert!(!interpreter.knowledge.in_cache(&denied));
}

#[test]
fn a_question_with_a_star_is_refused_before_the_store_is_asked() {
    let interpreter = engine();
    let refused = || {
        Err(KnowledgeError::StoreError(
            "The statement does not name the columns of its answer".to_string(),
        ))
    };
    assert_eq!(interpreter.knowledge.get("SELECT * FROM facts"), refused());
    assert_eq!(interpreter.knowledge.get("SELECT facts.* FROM facts"), refused());
    assert_eq!(interpreter.knowledge.get("SELECT \"subject\" FROM facts"), refused());
    assert_eq!(interpreter.knowledge.get("SELECT subject FROM facts -- all"), refused());
    assert_eq!(interpreter.knowledge.get_vec("SELECT * FROM facts"), vec![]);
    interpreter
        .knowledge
        .modify("INSERT INTO facts (subject,link,goal) VALUES ('a*b','r','c')")
        .unwrap();
    let answer =
        interpreter.knowledge.get("SELECT subject FROM facts WHERE subject='a*b'").unwrap();
    assert_eq!(answer.get_values("subject").unwrap(), vec!["a*b"]);
    assert_eq!(
        interpreter.knowledge.get_vec("SELECT goal AS G FROM facts WHERE subject='a*b'"),
        vec![("G".to_string(), "c".to_string())]
    );
}

#[test]
fn the_wildcard_asks_for_every_variable_of_the_patterns() {
    let mut interpreter = engine();
    run(&mut interpreter, "add julien ami julie").unwrap();
    run(&mut interpreter, "add julie est mortel").unwrap();
    let all = run(&mut interpreter, "get * where $A ami $B and $B est mortel").unwrap();
    assert_eq!(all.get_values("A").unwrap(), vec!["julien"]);
    assert_eq!(all.get_values("B").unwrap(), vec!["julie"]);
    assert_eq!(all.get_variables().len(), 2);
    let fact = run(&mut interpreter, "get * where julien ami julie").unwrap();
    assert_eq!(
        fact.get_values2(&["subject", "link", "goal"]),
        Some(vec![row("julien", "ami", "julie")])
    );
}

#[test]
fn a_run_goes_on_until_no_command_follows() {
    let mut interpreter = engine();
    let mut idle = SimpleContext::new();
    idle.add_column("A", &["1"]);
    assert_eq!(interpreter.follow(idle.clone()), Ok(idle.clone()));
    assert_eq!(interpreter.propagate(idle.clone()), Ok(idle.clone()));
    assert_eq!(interpreter.context, idle);
    run(&mut interpreter, "infer add $A ami $B -> add $B ami $A").unwrap();
    let first = interpreter.begin("add julien ami julie").unwrap();
    assert_eq!(first.get_aftercmds(), vec!["add julie ami julien"]);
    let last = interpreter.follow(first).unwrap();
    assert!(!last.has_commands());
    assert_eq!(
        facts(&mut interpreter),
        vec![row("julie", "ami", "julien"), row("julien", "ami", "julie")]
    );
    let queued = SimpleContext::new().add_aftercmd(&["add paul ami anne".to_string()]);
    let after = interpreter.propagate(queued).unwrap();
    assert!(!after.has_commands());
    assert_eq!(interpreter.context, after);
    assert_eq!(facts(&mut interpreter).len(), 4);
    assert!(interpreter.run("nothing to read").is_err());
    assert_eq!(interpreter.context, SimpleContext::new());
}
