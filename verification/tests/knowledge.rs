use predicat::base_knowledge::{judge_batch, KnowledgeError};
use predicat::base_parser::{parse_triplet, CommandType, Comp, Language, PredicatAST, Var};
use predicat::context_traits::Context;
use predicat::simple_context::SimpleContext;
use predicat::sqlite_knowledge::{
    backed, blocking_queries, cache_insertion, cache_lookup, change_variables,
    commands_from_rules, context_of_rows, extract_columns, extract_substitution_list,
    flatten_rows, format_comparisons, format_triplets, format_variables, is_variable,
    head_variables, names_columns, pattern_columns, query_to_sql, quoted, rule_insertion,
    source_columns, rule_text, rules_selection, string_concat,
    substitute_command_string, substitute_variable, to_context, to_hashmap, translate_ast,
    translate_one_ast, triplet_to_delete, triplet_to_insert, triplet_to_sql, unbacked,
    unify_triplet, values_of_rows, Sql,
};
use predicat::triplet::{is_plain_word, write_term, Triplet};
use predicat::triplet::Triplet::{
    TNeee, TNeev, TNeve, TNevv, TNvee, TNvev, TNvve, TNvvv, Teee, Teev, Teve, Tevv, Tvee, Tvev,
    Tvve, Tvvv,
};

fn s(text: &str) -> String {
    text.to_string()
}

#[test]
fn test_to_context() {
    let hm = vec![
        ("C".to_string(), vec!["alice".to_string()]),
        ("A".to_string(), vec!["emy".to_string()]),
        ("B".to_string(), vec!["ami".to_string()]),
    ];
    let mut sc = SimpleContext::new();
    sc = sc.add_column("A", &["emy"]);
    sc = sc.add_column("B", &["ami"]);
    sc = sc.add_column("C", &["alice"]);
    assert_eq!(to_context(hm, vec!["A", "B", "C"]), sc);
}

#[test]
fn test_to_context2() {
    let mut hm: Vec<(String, Vec<String>)> = Vec::new();
    hm.push(("A".to_owned(), vec!["socrate".to_owned()]));
    hm.push(("B".to_owned(), vec!["est".to_owned()]));
    hm.push(("C".to_owned(), vec!["mortel".to_owned()]));
    let new_context = to_context(hm, vec!["A", "B", "C"]);
    assert_eq!(new_context.get_values("A").ok(), Some(vec!["socrate".to_string()]));
}

#[test]
fn test_match_triplet() {
    let mut context = SimpleContext::new();
    context = context.add_column("$A", &["pierre"]);
    context = context.add_column("$B", &["emi"]);
    assert_eq!(unify_triplet(("pierre", "ami", "emi"), ("$A", "ami", "$B")).unwrap(), context);
}

#[test]
fn test_change_variable() {
    let mut context = SimpleContext::new();
    context = context.add_column("$A", &["pierre"]);
    context = context.add_column("$B", &["emy"]);
    assert_eq!(change_variables("add $B ami $A", &context), "add emy ami pierre");
}

#[test]
fn values_are_grouped_by_name_in_the_order_of_the_names() {
    assert_eq!(
        to_hashmap(&[("B", "1"), ("A", "2"), ("B", "3"), ("$B", "4"), ("A", "5")]),
        vec![
            (s("B"), vec![s("1"), s("3")]),
            (s("A"), vec![s("2"), s("5")]),
            (s("$B"), vec![s("4")]),
        ]
    );
    assert!(to_hashmap(&[]).is_empty());
    assert!(predicat::sqlite_knowledge::has_distinct_names(&to_hashmap(&[("A", "1"), ("B", "2")])));
    assert_eq!(
        to_context(vec![(s("A"), vec![s("1")]), (s("A"), vec![s("2")])], vec!["A"]),
        SimpleContext::new()
    );
    assert_eq!(judge_batch(&[], &[true]), Ok(()));
    assert_eq!(to_context(vec![], vec!["A"]), SimpleContext::new());
    let selected = to_context(to_hashmap(&[("A", "1"), ("B", "2")]), vec!["B", "Z", "B"]);
    assert_eq!(
        selected.get_table(),
        vec![(s("$B"), vec![s("2")]), (s("$Z"), vec![])]
    );
}

#[test]
fn a_pattern_with_a_variable_twice_is_unified_when_it_stands_alone() {
    let twice = unify_triplet(("x", "r", "y"), ("$A", "r", "$A")).unwrap();
    assert_eq!(twice.get_table(), vec![(s("$A"), vec![s("x"), s("y")])]);
    assert!(unify_triplet(("x", "y", "z"), ("$A", "$B", "$A")).is_err());
    assert_eq!(unify_triplet(("x", "r", "y"), ("x", "r", "y")).unwrap(), SimpleContext::new());
}

#[test]
fn variables_are_replaced_by_the_first_row_in_the_order_of_the_columns() {
    let mut context = SimpleContext::new();
    context.add_column("$AB", &["long", "unused"]);
    context.add_column("$A", &["short", "unused"]);
    context.add_column("$E", &[]);
    assert_eq!(change_variables("add $AB r $A and $E", &context), "add long r short and $E");
    let mut other = SimpleContext::new();
    other.add_column("$A", &["short"]);
    other.add_column("$AB", &["long"]);
    assert_eq!(change_variables("add $AB r $A", &other), "add shortB r short");
    assert_eq!(change_variables("add a b c", &SimpleContext::new()), "add a b c");
}

#[test]
fn every_shape_of_pattern_has_its_selection() {
    let t = |f: fn(String, String, String) -> Triplet| triplet_to_sql(&f(s("a"), s("b"), s("c")));
    assert_eq!(t(Teee), "SELECT subject,link,goal FROM facts WHERE subject='a' AND link='b' AND goal='c'");
    assert_eq!(t(Tvee), "SELECT subject AS a FROM facts WHERE link='b' AND goal='c'");
    assert_eq!(t(Teve), "SELECT link AS b FROM facts WHERE subject='a' AND goal='c'");
    assert_eq!(t(Teev), "SELECT goal AS c FROM facts WHERE subject='a' AND link='b'");
    assert_eq!(t(Tvve), "SELECT subject AS a,link AS b FROM facts WHERE goal='c'");
    assert_eq!(t(Tvev), "SELECT subject AS a,goal AS c FROM facts WHERE link='b'");
    assert_eq!(t(Tevv), "SELECT link AS b,goal AS c FROM facts WHERE subject='a'");
    assert_eq!(t(Tvvv), "SELECT subject AS a,link AS b,goal AS c FROM facts");
    assert_eq!(t(TNeee), "SELECT subject,link,goal FROM facts WHERE (subject,link,goal) NOT IN (SELECT subject,link,goal FROM facts WHERE subject='a' AND link='b' AND goal='c')");
    assert_eq!(t(TNvee), "SELECT subject AS a FROM facts WHERE subject NOT IN (SELECT subject AS a FROM facts WHERE link='b' AND goal='c')");
    assert_eq!(t(TNeve), "SELECT link AS b FROM facts WHERE link NOT IN (SELECT link AS b FROM facts WHERE subject='a' AND goal='c')");
    assert_eq!(t(TNeev), "SELECT goal AS c FROM facts WHERE goal NOT IN (SELECT goal AS c FROM facts WHERE subject='a' AND link='b')");
    assert_eq!(t(TNvve), "SELECT subject AS a,link AS b FROM facts WHERE (subject,link) NOT IN (SELECT subject AS a,link AS b FROM facts WHERE goal='c')");
    assert_eq!(t(TNvev), "SELECT subject AS a,goal AS c FROM facts WHERE (subject,goal) NOT IN (SELECT subject AS a,goal AS c FROM facts WHERE link='b')");
    assert_eq!(t(TNevv), "SELECT link AS b,goal AS c FROM facts WHERE (link,goal) NOT IN (SELECT link AS b,goal AS c FROM facts WHERE subject='a')");
    assert_eq!(t(TNvvv), "SELECT subject AS a,link AS b,goal AS c FROM facts WHERE (subject,link,goal) NOT IN (SELECT subject AS a,link AS b,goal AS c FROM facts)");
    assert_eq!(triplet_to_sql(&Triplet::Empty), "");
}

#[test]
fn facts_are_added_and_deleted_with_their_markers() {
    assert_eq!(
        triplet_to_insert(&Tvev(s("A"), s("b"), s("C"))),
        "INSERT or IGNORE INTO facts (subject,link,goal) VALUES ('$A','b','$C')"
    );
    assert_eq!(
        triplet_to_delete(&Teee(s("a"), s("b"), s("c"))),
        "DELETE FROM facts WHERE subject='a' AND link='b' AND goal='c'"
    );
    assert_eq!(
        triplet_to_delete(&TNeve(s("a"), s("B"), s("c"))),
        "DELETE FROM facts WHERE subject='a' AND link='$B' AND goal='c'"
    );
    assert_eq!(
        triplet_to_insert(&Triplet::Empty),
        "INSERT or IGNORE INTO facts (subject,link,goal) VALUES ('','','')"
    );
    assert_eq!(string_concat(s("ab"), s("cd")), "abcd");
}

#[test]
fn the_parts_of_a_selection_are_put_together() {
    assert_eq!(format_variables(&[]), "SELECT * FROM ");
    assert_eq!(format_variables(&[Var(s("A")), Var(s("B")), Var(s("C"))]), "SELECT A,B,C FROM ");
    assert_eq!(format_triplets(&[]), "facts");
    assert_eq!(format_triplets(&[Triplet::Empty]), "facts");
    assert_eq!(format_triplets(&[Tvvv(s("A"), s("B"), s("C"))]), "(SELECT subject AS A,link AS B,goal AS C FROM facts)");
    assert_eq!(
        format_triplets(&[Tvee(s("A"), s("b"), s("c")), Tvev(s("A"), s("r"), s("B")), Triplet::Empty]),
        "(((SELECT subject AS A FROM facts WHERE link='b' AND goal='c') natural join (SELECT subject AS A,goal AS B FROM facts WHERE link='r')) natural join ())"
    );
    assert_eq!(format_comparisons(&[]), ";");
    assert_eq!(format_comparisons(&[Comp(s(" $A == 8"))]), " WHERE A = 8;");
    assert_eq!(
        format_comparisons(&[Comp(s(" $A == 8")), Comp(s(" 6 < 3")), Comp(s(" $B != '$'"))]),
        " WHERE A = 8 AND 6 < 3 AND B != '';"
    );
    assert_eq!(
        query_to_sql(
            &[Var(s("A"))],
            &[Tvee(s("A"), s("est"), s("mortel")), Tvev(s("A"), s("ami"), s("B"))],
            &[Comp(s(" $B >= 'c'"))]
        ),
        "SELECT A FROM ((SELECT subject AS A FROM facts WHERE link='est' AND goal='mortel') natural join (SELECT subject AS A,goal AS B FROM facts WHERE link='ami')) WHERE B >= 'c';"
    );
}

#[test]
fn a_modifier_is_translated_pattern_by_pattern() {
    let patterns = vec![Teee(s("a"), s("b"), s("c")), Teee(s("d"), s("e"), s("f"))];
    assert_eq!(
        translate_one_ast(&PredicatAST::AddModifier(patterns.clone())).unwrap(),
        "INSERT or IGNORE INTO facts (subject,link,goal) VALUES ('a','b','c')INSERT or IGNORE INTO facts (subject,link,goal) VALUES ('d','e','f')"
    );
    assert_eq!(
        translate_one_ast(&PredicatAST::DeleteModifier(patterns.clone())).unwrap(),
        "DELETE FROM facts WHERE subject='a' AND link='b' AND goal='c'DELETE FROM facts WHERE subject='d' AND link='e' AND goal='f'"
    );
    assert_eq!(translate_one_ast(&PredicatAST::AddModifier(vec![])).unwrap(), "");
    assert_eq!(
        translate_ast(&PredicatAST::AddModifier(patterns.clone())).unwrap(),
        vec![
            Sql::Modify(s("INSERT or IGNORE INTO facts (subject,link,goal) VALUES ('a','b','c')")),
            Sql::Modify(s("INSERT or IGNORE INTO facts (subject,link,goal) VALUES ('d','e','f')")),
        ]
    );
    assert_eq!(
        translate_ast(&PredicatAST::DeleteModifier(patterns)).unwrap(),
        vec![
            Sql::Modify(s("DELETE FROM facts WHERE subject='a' AND link='b' AND goal='c'")),
            Sql::Modify(s("DELETE FROM facts WHERE subject='d' AND link='e' AND goal='f'")),
        ]
    );
    assert_eq!(translate_ast(&PredicatAST::DeleteModifier(vec![])).unwrap(), vec![]);
}

#[test]
fn every_kind_of_command_is_translated_or_refused() {
    assert_eq!(
        translate_ast(&PredicatAST::Query((vec![Var(s("A"))], vec![Tvee(s("A"), s("est"), s("mortel"))], vec![]))).unwrap(),
        vec![Sql::Query(s("SELECT A FROM (SELECT subject AS A FROM facts WHERE link='est' AND goal='mortel');"))]
    );
    assert_eq!(
        translate_ast(&PredicatAST::Infer(
            (CommandType::Add, vec![Tvev(s("A"), s("ami"), s("B")), Teee(s("x"), s("y"), s("z"))]),
            s("add $A ami $B"),
            s("add $B ami $A")
        ))
        .unwrap(),
        vec![
            Sql::Rule(s("%rule%%|%add%|%$A%|%ami%|%$B%|%add $B ami $A%|%add $B ami $A")),
            Sql::Rule(s("%rule%%|%add%|%x%|%y%|%z%|%add $B ami $A%|%add $B ami $A")),
        ]
    );
    assert_eq!(translate_ast(&PredicatAST::Empty), Err(KnowledgeError::EmptyAST));
    assert_eq!(translate_ast(&PredicatAST::Debug(s("x"))), Err(KnowledgeError::EmptyAST));
    assert_eq!(translate_one_ast(&PredicatAST::Debug(s("x"))), Err(KnowledgeError::EmptyAST));
    assert_eq!(
        translate_one_ast(&PredicatAST::Infer((CommandType::Add, vec![]), s(""), s(""))),
        Err(KnowledgeError::EmptyAST)
    );
}

#[test]
fn a_command_of_the_store_is_known_by_its_beginning() {
    assert_eq!(Sql::from("SELECT 1"), Sql::Query(s("SELECT 1")));
    assert_eq!(Sql::from(s("%rule%x")), Sql::Rule(s("%rule%x")));
    assert_eq!(Sql::from("select 1"), Sql::Modify(s("select 1")));
    assert_eq!(Sql::from(""), Sql::Modify(s("")));
    assert_eq!(Sql::classify(s("SELEC")), Sql::Modify(s("SELEC")));
    assert_eq!(Sql::classify(s(" SELECT")).text(), " SELECT");
}

#[test]
fn the_backed_form_of_a_query_is_its_selection_with_its_quotes_written_out() {
    assert_eq!(backed("add $B ami $A"), "add $B ami $A");
    assert_eq!(
        backed("get $X where $X est mortel and $X != 'a b'"),
        "SELECT X FROM (SELECT subject AS X FROM facts WHERE link=%single_quote%est%single_quote% AND goal=%single_quote%mortel%single_quote%) WHERE X != %single_quote%a b%single_quote%;"
    );
    assert_eq!(backed("get lost"), "get lost");
    assert_eq!(backed("get"), "get");
    assert_eq!(backed(""), "");
    assert_eq!(
        unbacked(&backed("get $X where $X est mortel")),
        "SELECT X FROM (SELECT subject AS X FROM facts WHERE link='est' AND goal='mortel');"
    );
    assert_eq!(
        rule_text(CommandType::Delete, &Teev(s("a"), s("b"), s("C")), "get $X where $X r s"),
        "%rule%%|%delete%|%a%|%b%|%$C%|%get $X where $X r s%|%SELECT X FROM (SELECT subject AS X FROM facts WHERE link=%single_quote%r%single_quote% AND goal=%single_quote%s%single_quote%);"
    );
}

#[test]
fn a_registered_rule_is_stored_with_its_six_fields() {
    assert_eq!(
        rule_insertion("%rule%%|%add%|%$A%|%ami%|%$B%|%add $B ami $A%|%add $B ami $A"),
        Some(s("INSERT INTO rules (modifier, subject, link, goal, command, backed_command) VALUES ('add', '$A', 'ami', '$B', 'add $B ami $A', 'add $B ami $A')"))
    );
    assert_eq!(
        rule_insertion("0%|%1%|%2%|%3%|%4%|%5%|%6%|%7"),
        Some(s("INSERT INTO rules (modifier, subject, link, goal, command, backed_command) VALUES ('1', '2', '3', '4', '5', '6')"))
    );
    assert_eq!(rule_insertion("%rule%%|%add%|%$A%|%ami%|%$B%|%add $B ami $A"), None);
    assert_eq!(rule_insertion(""), None);
}

#[test]
fn the_questions_to_the_store_are_written_out() {
    assert_eq!(
        rules_selection("add", ("julien", "ami", "julie")),
        "SELECT id,name,modifier,subject,link,goal,command,backed_command FROM rules where modifier='add' AND (subject='julien' OR link='ami' OR goal='julie')"
    );
    assert_eq!(cache_lookup("add a b c"), "SELECT command FROM cache WHERE command = 'add a b c'");
    assert_eq!(cache_insertion("add a b c"), "INSERT INTO cache (command) VALUES ('add a b c')");
}

#[test]
fn the_names_of_a_selection_are_found() {
    assert!(extract_columns("no selection").is_empty());
    assert!(extract_columns("SELECT_A FROM facts").is_empty());
    assert_eq!(extract_columns("SELECT  FROM facts"), vec![""]);
    assert_eq!(extract_columns("SELECT A, B FROM x FROM y"), vec!["A", " B"]);
    assert_eq!(extract_columns(" FROM"), Vec::<String>::new());
    assert_eq!(extract_columns("a b,c, FROM"), vec!["b", "c", ""]);
}

#[test]
fn substitutions_come_from_a_pattern_of_three_variables() {
    assert!(is_variable("$A"));
    assert!(is_variable("$"));
    assert!(!is_variable("A$"));
    assert!(!is_variable(""));
    assert_eq!(
        extract_substitution_list(Tvvv(s("pierre"), s("ami"), s("emy")), &["$A", "ami", "$B"]),
        vec![(s("pierre"), s("$A")), (s("emy"), s("$B"))]
    );
    assert_eq!(
        extract_substitution_list(Tvvv(s("pierre"), s("ami"), s("emy")), &["x", "$L"]),
        vec![(s("ami"), s("$L"))]
    );
    assert_eq!(
        extract_substitution_list(Tvvv(s("a"), s("b"), s("c")), &["$1", "$2", "$3", "$4"]).len(),
        3
    );
    assert!(extract_substitution_list(Teee(s("a"), s("b"), s("c")), &["$A", "$B", "$C"]).is_empty());
    assert!(extract_substitution_list(TNvvv(s("a"), s("b"), s("c")), &["$A", "$B", "$C"]).is_empty());
    assert_eq!(
        substitute_command_string(Tvvv(s("$B"), s("l"), s("z")), &["$A", "l", "$B"], "add $A r $B"),
        "add z r z"
    );
    assert_eq!(substitute_command_string(Triplet::Empty, &["$A"], "add $A r $B"), "add $A r $B");
    assert_eq!(substitute_variable("", "-", "ab"), "-a-b-");
    assert_eq!(substitute_variable("$A", "$A$A", "$A $A"), "$A$A $A$A");
}

#[test]
fn each_rule_gives_its_command_for_a_fact() {
    let mut rules = SimpleContext::new();
    rules.add_column("subject", &["$A", "julien", "$A", "$X"]);
    rules.add_column("link", &["ami", "$L", "$B", "r"]);
    rules.add_column("goal", &["$B", "$G", "$A", "s"]);
    rules.add_column("command", &["add $B ami $A", "delete $G $L julien", "add $A", "add $X $X"]);
    assert_eq!(
        commands_from_rules(("julien", "ami", "julie"), &rules),
        vec!["add julie ami julien", "delete julie ami julien", "add julien julien"]
    );
    let mut short = SimpleContext::new();
    short.add_column("subject", &["$A"]);
    short.add_column("link", &["ami"]);
    short.add_column("goal", &["$B"]);
    assert!(commands_from_rules(("julien", "ami", "julie"), &short).is_empty());
    short.add_column("command", &["add $B ami $A", "too long"]);
    assert!(commands_from_rules(("julien", "ami", "julie"), &short).is_empty());
    assert!(commands_from_rules(("julien", "ami", "julie"), &SimpleContext::new()).is_empty());
    let mut plain = SimpleContext::new();
    plain.add_column("subject", &["a"]);
    plain.add_column("link", &["b"]);
    plain.add_column("goal", &["c"]);
    plain.add_column("command", &["add d e f"]);
    assert_eq!(commands_from_rules(("a", "b", "c"), &plain), vec!["add d e f"]);
}

#[test]
fn the_selections_among_backed_commands_block() {
    let mut rules = SimpleContext::new();
    rules.add_column(
        "backed_command",
        &[
            "add $B ami $A",
            "SELECT X FROM facts WHERE goal=%single_quote%mortel%single_quote%;",
            "",
            "SELECT 1",
            "%single_quote%SELECT",
        ],
    );
    assert_eq!(
        blocking_queries(&rules),
        vec!["SELECT X FROM facts WHERE goal='mortel';", "SELECT 1"]
    );
    assert!(blocking_queries(&SimpleContext::new()).is_empty());
}

#[test]
fn the_rows_of_the_store_make_a_context() {
    let rows = vec![
        vec![(s("A"), Some(s("1"))), (s("B"), None)],
        vec![(s("A"), Some(s("2"))), (s("B"), Some(s("x")))],
    ];
    assert_eq!(
        flatten_rows(&rows),
        vec![(s("A"), s("1")), (s("B"), s("")), (s("A"), s("2")), (s("B"), s("x"))]
    );
    assert_eq!(values_of_rows(&rows), vec!["1", "", "2", "x"]);
    let context = context_of_rows(&rows).unwrap();
    assert_eq!(
        context.get_table(),
        vec![(s("$A"), vec![s("1"), s("2")]), (s("$B"), vec![s(""), s("x")])]
    );
    assert_eq!(context_of_rows(&vec![]).unwrap(), SimpleContext::new());
    assert_eq!(
        context_of_rows(&vec![vec![(s("A"), None), (s("A"), None), (s("B"), None)]]),
        Err(KnowledgeError::StoreError(s(
            "We weren't able to convert the list of tuple to a context"
        )))
    );
}

#[test]
fn the_first_blocked_command_is_reported() {
    let commands = vec![
        PredicatAST::AddModifier(vec![Teee(s("a"), s("b"), s("c"))]),
        PredicatAST::Infer((CommandType::Add, vec![]), s("add a b $C"), s("add $C b a")),
        PredicatAST::Empty,
    ];
    assert_eq!(judge_batch(&commands, &[false, false, false]), Ok(()));
    assert_eq!(judge_batch(&[], &[]), Ok(()));
    assert_eq!(
        judge_batch(&commands, &[false, true, true]),
        Err(KnowledgeError::InvalidCommand(s("infer add a b $C -> add $C b a")))
    );
    assert_eq!(
        judge_batch(&commands, &[true, false, true]),
        Err(KnowledgeError::InvalidCommand(s("add a b c")))
    );
    assert_eq!(
        judge_batch(&commands, &[false, false, true]),
        Err(KnowledgeError::InvalidCommand(s("")))
    );
}

#[test]
fn the_text_of_a_fact_is_read_back_as_the_fact() {
    for (a, b, c, text) in [
        ("pierre", "ami", "jean", "pierre ami jean"),
        ("a", "b", "c", "a b c"),
        ("not", "b", "c", "'not' b c"),
        ("notable", "no", "n", "'notable' no n"),
        ("a", "notb", "c", "a 'notb' c"),
        ("A_1", "_", "0", "A_1 _ 0"),
        ("and", "and", "and", "and and and"),
        ("get", "add", "delete", "get add delete"),
        ("x", "ynot", "onot", "x ynot onot"),
        ("jean paul", "a-b", " ", "'jean paul' 'a-b' ' '"),
        ("$A", "1 < 2", "not ", "'$A' '1 < 2' 'not '"),
        ("\u{e9}t\u{e9}", "\n", "\"", "'\u{e9}t\u{e9}' '\n' '\"'"),
    ] {
        let fact = Teee(s(a), s(b), s(c));
        assert_eq!(String::from(fact.clone()), text);
        assert_eq!(fact.clone().render(), text);
        assert_eq!(parse_triplet(text), Ok(("", Language::Tri(fact.clone()))));
        let denied = TNeee(s(a), s(b), s(c));
        let denial = format!(" not {}", text);
        assert_eq!(denied.clone().render(), denial);
        assert_eq!(parse_triplet(&denial), Ok(("", Language::Tri(denied))));
    }
}

#[test]
fn a_term_is_written_between_quotes_unless_it_is_a_plain_word() {
    for plain in ["a", "A_1", "_", "0", "no", "bene", "xnot"] {
        assert!(is_plain_word(plain));
        assert_eq!(write_term(plain), plain);
    }
    for other in ["", "not", "notable", "not_a", "a b", "a-b", "$A", " ", "\u{e9}", "a'b"] {
        assert!(!is_plain_word(other));
        assert_eq!(write_term(other), format!("'{}'", other));
    }
}

#[test]
fn every_shape_of_pattern_can_be_built() {
    let _ = (Tvve(s(""), s(""), s("")), Teve(s(""), s(""), s("")), Tevv(s(""), s(""), s("")));
    let _ = (TNeev(s(""), s(""), s("")), TNvee(s(""), s(""), s("")), TNvev(s(""), s(""), s("")));
    let _ = (TNvve(s(""), s(""), s("")), TNevv(s(""), s(""), s("")), Teev(s(""), s(""), s("")));
}

#[test]
fn a_quote_in_a_remembered_text_is_written_twice() {
    assert_eq!(quoted("add a b c"), "add a b c");
    assert_eq!(quoted("add 'jean paul' b c"), "add ''jean paul'' b c");
    assert_eq!(quoted("'"), "''");
    assert_eq!(quoted(""), "");
    assert_eq!(
        cache_lookup("add 'jean paul' b c"),
        "SELECT command FROM cache WHERE command = 'add ''jean paul'' b c'"
    );
    assert_eq!(
        cache_insertion("add a 'notable' c"),
        "INSERT INTO cache (command) VALUES ('add a ''notable'' c')"
    );
    assert_eq!(cache_lookup("add a b c"), "SELECT command FROM cache WHERE command = 'add a b c'");
    assert_eq!(cache_insertion("add a b c"), "INSERT INTO cache (command) VALUES ('add a b c')");
}

#[test]
fn a_statement_names_its_columns_where_it_holds_no_star_outside_its_texts() {
    for named in [
        "",
        "SELECT subject,link,goal FROM facts",
        "SELECT subject AS A FROM facts WHERE link='a*b' AND goal='\"c\"'",
        "SELECT command FROM cache WHERE command = 'add ''a*'' b c'",
        "SELECT 1 - 2 AS n, 'x--y' AS t, '[' AS u, '`' AS v",
        "SELECT A,B,C from (SELECT subject as A, link as B, goal as C FROM facts)",
        "SELECT modifier, subject, link, goal, command, backed_command FROM rules;",
        "'*",
        "-",
    ] {
        assert!(names_columns(named), "{}", named);
    }
    for unnamed in [
        "*",
        "SELECT * FROM facts",
        "SELECT facts.* FROM facts",
        "SELECT 2*3 AS n",
        "SELECT subject FROM facts WHERE link='a' AND goal=* ",
        "SELECT \"it's\", * FROM facts WHERE link='a'",
        "SELECT `it's`, * FROM facts WHERE link='a'",
        "SELECT [it's], * FROM facts WHERE link='a'",
        "SELECT 1 -- it's\n, * FROM facts WHERE link='a'",
        "SELECT 1 /* it's */, subject FROM facts WHERE link='a'",
        "SELECT 'a' AS a, 'b''' AS b, * FROM facts",
        "--",
        "''*",
    ] {
        assert!(!names_columns(unnamed), "{}", unnamed);
    }
}

#[test]
fn the_wildcard_stands_for_the_columns_of_the_source() {
    assert_eq!(pattern_columns(&Teee(s("a"), s("b"), s("c"))), vec!["subject", "link", "goal"]);
    assert_eq!(pattern_columns(&TNeee(s("a"), s("b"), s("c"))), vec!["subject", "link", "goal"]);
    assert_eq!(pattern_columns(&Tvev(s("A"), s("b"), s("C"))), vec!["A", "C"]);
    assert_eq!(pattern_columns(&TNevv(s("a"), s("B"), s("C"))), vec!["B", "C"]);
    assert_eq!(pattern_columns(&Tvvv(s("A"), s("A"), s("B"))), vec!["A", "A", "B"]);
    assert_eq!(pattern_columns(&Triplet::Empty), Vec::<String>::new());
    assert_eq!(source_columns(&[]), vec!["subject", "link", "goal"]);
    assert_eq!(source_columns(&[Triplet::Empty]), vec!["subject", "link", "goal"]);
    assert_eq!(source_columns(&[Triplet::Empty, Triplet::Empty]), Vec::<String>::new());
    assert_eq!(
        source_columns(&[
            Tvev(s("A"), s("r"), s("B")),
            Tvev(s("B"), s("r"), s("C")),
            Tvvv(s("C"), s("D"), s("A"))
        ]),
        vec!["A", "B", "C", "D"]
    );
    let link = [Tvev(s("A"), s("r"), s("B")), Tvee(s("B"), s("est"), s("mortel"))];
    assert_eq!(head_variables(&[], &link), vec![Var(s("A")), Var(s("B"))]);
    assert_eq!(head_variables(&[Var(s("*"))], &link), vec![Var(s("A")), Var(s("B"))]);
    assert_eq!(head_variables(&[Var(s("B"))], &link), vec![Var(s("B"))]);
    assert_eq!(
        head_variables(&[Var(s("B")), Var(s("*")), Var(s("X"))], &link),
        vec![Var(s("B")), Var(s("A")), Var(s("B")), Var(s("X"))]
    );
    assert_eq!(
        query_to_sql(&[Var(s("*"))], &link, &[]),
        "SELECT A,B FROM ((SELECT subject AS A,goal AS B FROM facts WHERE link='r') natural join (SELECT subject AS B FROM facts WHERE link='est' AND goal='mortel'));"
    );
    assert_eq!(
        query_to_sql(&[], &[], &[Comp(s(" $A > 7"))]),
        "SELECT subject,link,goal FROM facts WHERE A > 7;"
    );
    assert_eq!(
        query_to_sql(&[Var(s("*"))], &[Teee(s("a"), s("b"), s("c"))], &[]),
        "SELECT subject,link,goal FROM (SELECT subject,link,goal FROM facts WHERE subject='a' AND link='b' AND goal='c');"
    );
    assert!(names_columns(&query_to_sql(&[Var(s("*"))], &link, &[])));
    assert!(names_columns(&query_to_sql(&[], &[], &[])));
    assert!(!names_columns(&query_to_sql(&[Var(s("*"))], &[Triplet::Empty, Triplet::Empty], &[])));
}
