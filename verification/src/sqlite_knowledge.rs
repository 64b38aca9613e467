//! The translation of commands into the language of a relational store, and
//! the composition of the commands that rules give rise to.
use crate::base_knowledge::{
    modifying, patterns_of, translatable, Cache, Command, FactManager, KnowledgeError,
    Knowledgeable, RuleManager,
};
use crate::base_parser::{canonical_text, AstView, Comp, CommandType, PredicatAST, Triplet, Var};
use crate::parser::{parse_query_and_modifier, query_and_modifier_at};
use crate::context_traits::{
    canonical, lemma_index_unique, lemma_with_column_distinct, Context, Table,
};
use crate::simple_context::{clone_strings, SimpleContext};
use crate::sorting::{first_occurrences, unique};
use crate::text::{
    from_chars, has_prefix_at, join, join_with, replace, replace_all, split, split_on,
    starts_with, string_of, to_chars,
};
use crate::triplet::{SlotView, TripletView};
use vstd::prelude::*;
use vstd::string::*;

verus! {

/// A command in the language of the store.
#[derive(Debug, PartialEq)]
pub enum Sql {
    /// A command that returns rows.
    Query(String),
    /// The registration of a rule.
    Rule(String),
    /// A command that changes the store.
    Modify(String),
}

/// A command of the store as a mathematical value.
pub enum SqlView {
    Query(Seq<char>),
    Rule(Seq<char>),
    Modify(Seq<char>),
}

impl DeepView for Sql {
    type V = SqlView;

    open spec fn deep_view(&self) -> SqlView {
        match *self {
            Sql::Query(t) => SqlView::Query(t@),
            Sql::Rule(t) => SqlView::Rule(t@),
            Sql::Modify(t) => SqlView::Modify(t@),
        }
    }
}

/// The kind of a command of the store, by how its text begins.
pub open spec fn classified(text: Seq<char>) -> SqlView {
    if has_prefix_at(text, 0, "SELECT"@) {
        SqlView::Query(text)
    } else if has_prefix_at(text, 0, "%rule%"@) {
        SqlView::Rule(text)
    } else {
        SqlView::Modify(text)
    }
}

impl Sql {
    /// The command of the store that a text is: a query if it begins with
    /// `SELECT`, the registration of a rule if it begins with `%rule%`, else
    /// a change.
    pub fn classify(text: String) -> (r: Sql)
        ensures
            r.deep_view() == classified(text@),
    {
        if starts_with(text.as_str(), "SELECT") {
            Sql::Query(text)
        } else if starts_with(text.as_str(), "%rule%") {
            Sql::Rule(text)
        } else {
            Sql::Modify(text)
        }
    }

    /// The text of the command.
    pub fn text(&self) -> (r: &String)
        ensures
            r@ == match self.deep_view() {
                SqlView::Query(t) => t,
                SqlView::Rule(t) => t,
                SqlView::Modify(t) => t,
            },
    {
        match self {
            Sql::Query(t) => t,
            Sql::Rule(t) => t,
            Sql::Modify(t) => t,
        }
    }
}

impl vstd::std_specs::convert::FromSpecImpl<String> for Sql {
    /// The conversion is specified by the `ensures` of `from` alone.
    open spec fn obeys_from_spec() -> bool {
        false
    }

    open spec fn from_spec(text: String) -> Sql {
        arbitrary()
    }
}

impl From<String> for Sql {
    fn from(text: String) -> (r: Sql)
        ensures
            r.deep_view() == classified(text@),
    {
        Sql::classify(text)
    }
}

impl vstd::std_specs::convert::FromSpecImpl<&str> for Sql {
    /// The conversion is specified by the `ensures` of `from` alone.
    open spec fn obeys_from_spec() -> bool {
        false
    }

    open spec fn from_spec(text: &str) -> Sql {
        arbitrary()
    }
}

impl From<&str> for Sql {
    fn from(text: &str) -> (r: Sql)
        ensures
            r.deep_view() == classified(text@),
    {
        Sql::classify(String::from_str(text))
    }
}

/// The selection that a pattern stands for. A bound slot becomes a
/// condition on its column; a free slot becomes a column of the result under
/// the variable's name. A negation selects the complementary rows: the rows
/// of the facts, in the columns of the pattern, that the pattern without
/// the negation does not select.
pub open spec fn sql_of_triplet(t: TripletView) -> Seq<char> {
    match t {
        TripletView::Empty => Seq::empty(),
        TripletView::Pattern {
            negated: false,
            subject: SlotView::Bound(a),
            relation: SlotView::Bound(b),
            object: SlotView::Bound(c),
        } => "SELECT subject,link,goal FROM facts WHERE subject='"@ + a + "' AND link='"@ + b
            + "' AND goal='"@ + c + "'"@,
        TripletView::Pattern {
            negated: false,
            subject: SlotView::Free(a),
            relation: SlotView::Bound(b),
            object: SlotView::Bound(c),
        } => "SELECT subject AS "@ + a + " FROM facts WHERE link='"@ + b + "' AND goal='"@ + c
            + "'"@,
        TripletView::Pattern {
            negated: false,
            subject: SlotView::Bound(a),
            relation: SlotView::Free(b),
            object: SlotView::Bound(c),
        } => "SELECT link AS "@ + b + " FROM facts WHERE subject='"@ + a + "' AND goal='"@ + c
            + "'"@,
        TripletView::Pattern {
            negated: false,
            subject: SlotView::Bound(a),
            relation: SlotView::Bound(b),
            object: SlotView::Free(c),
        } => "SELECT goal AS "@ + c + " FROM facts WHERE subject='"@ + a + "' AND link='"@ + b
            + "'"@,
        TripletView::Pattern {
            negated: false,
            subject: SlotView::Free(a),
            relation: SlotView::Free(b),
            object: SlotView::Bound(c),
        } => "SELECT subject AS "@ + a + ",link AS "@ + b + " FROM facts WHERE goal='"@ + c + "'"@,
        TripletView::Pattern {
            negated: false,
            subject: SlotView::Free(a),
            relation: SlotView::Bound(b),
            object: SlotView::Free(c),
        } => "SELECT subject AS "@ + a + ",goal AS "@ + c + " FROM facts WHERE link='"@ + b + "'"@,
        TripletView::Pattern {
            negated: false,
            subject: SlotView::Bound(a),
            relation: SlotView::Free(b),
            object: SlotView::Free(c),
        } => "SELECT link AS "@ + b + ",goal AS "@ + c + " FROM facts WHERE subject='"@ + a + "'"@,
        TripletView::Pattern {
            negated: false,
            subject: SlotView::Free(a),
            relation: SlotView::Free(b),
            object: SlotView::Free(c),
        } => "SELECT subject AS "@ + a + ",link AS "@ + b + ",goal AS "@ + c + " FROM facts"@,
        TripletView::Pattern {
            negated: true,
            subject: SlotView::Bound(a),
            relation: SlotView::Bound(b),
            object: SlotView::Bound(c),
        } => "SELECT subject,link,goal FROM facts WHERE (subject,link,goal) NOT IN (SELECT subject,link,goal FROM facts WHERE subject='"@
            + a + "' AND link='"@ + b + "' AND goal='"@ + c + "')"@,
        TripletView::Pattern {
            negated: true,
            subject: SlotView::Free(a),
            relation: SlotView::Bound(b),
            object: SlotView::Bound(c),
        } => "SELECT subject AS "@ + a + " FROM facts WHERE subject NOT IN (SELECT subject AS "@
            + a + " FROM facts WHERE link='"@ + b + "' AND goal='"@ + c + "')"@,
        TripletView::Pattern {
            negated: true,
            subject: SlotView::Bound(a),
            relation: SlotView::Free(b),
            object: SlotView::Bound(c),
        } => "SELECT link AS "@ + b + " FROM facts WHERE link NOT IN (SELECT link AS "@ + b
            + " FROM facts WHERE subject='"@ + a + "' AND goal='"@ + c + "')"@,
        TripletView::Pattern {
            negated: true,
            subject: SlotView::Bound(a),
            relation: SlotView::Bound(b),
            object: SlotView::Free(c),
        } => "SELECT goal AS "@ + c + " FROM facts WHERE goal NOT IN (SELECT goal AS "@ + c
            + " FROM facts WHERE subject='"@ + a + "' AND link='"@ + b + "')"@,
        TripletView::Pattern {
            negated: true,
            subject: SlotView::Free(a),
            relation: SlotView::Free(b),
            object: SlotView::Bound(c),
        } => "SELECT subject AS "@ + a + ",link AS "@ + b
            + " FROM facts WHERE (subject,link) NOT IN (SELECT subject AS "@ + a + ",link AS "@ + b
            + " FROM facts WHERE goal='"@ + c + "')"@,
        TripletView::Pattern {
            negated: true,
            subject: SlotView::Free(a),
            relation: SlotView::Bound(b),
            object: SlotView::Free(c),
        } => "SELECT subject AS "@ + a + ",goal AS "@ + c
            + " FROM facts WHERE (subject,goal) NOT IN (SELECT subject AS "@ + a + ",goal AS "@ + c
            + " FROM facts WHERE link='"@ + b + "')"@,
        TripletView::Pattern {
            negated: true,
            subject: SlotView::Bound(a),
            relation: SlotView::Free(b),
            object: SlotView::Free(c),
        } => "SELECT link AS "@ + b + ",goal AS "@ + c
            + " FROM facts WHERE (link,goal) NOT IN (SELECT link AS "@ + b + ",goal AS "@ + c
            + " FROM facts WHERE subject='"@ + a + "')"@,
        TripletView::Pattern {
            negated: true,
            subject: SlotView::Free(a),
            relation: SlotView::Free(b),
            object: SlotView::Free(c),
        } => "SELECT subject AS "@ + a + ",link AS "@ + b + ",goal AS "@ + c
            + " FROM facts WHERE (subject,link,goal) NOT IN (SELECT subject AS "@ + a
            + ",link AS "@ + b + ",goal AS "@ + c + " FROM facts)"@,
    }
}

/// The selection that a pattern stands for: see [`sql_of_triplet`].
pub fn triplet_to_sql(tri: &Triplet) -> (r: String)
    ensures
        r@ == sql_of_triplet(tri.deep_view()),
{
    match tri {
        Triplet::Teee(a, b, c) => String::from_str(
            "SELECT subject,link,goal FROM facts WHERE subject='",
        ).concat(a.as_str()).concat("' AND link='").concat(b.as_str()).concat(
            "' AND goal='",
        ).concat(c.as_str()).concat("'"),
        Triplet::Tvee(a, b, c) => String::from_str("SELECT subject AS ").concat(a.as_str()).concat(
            " FROM facts WHERE link='",
        ).concat(b.as_str()).concat("' AND goal='").concat(c.as_str()).concat("'"),
        Triplet::Teve(a, b, c) => String::from_str("SELECT link AS ").concat(b.as_str()).concat(
            " FROM facts WHERE subject='",
        ).concat(a.as_str()).concat("' AND goal='").concat(c.as_str()).concat("'"),
        Triplet::Teev(a, b, c) => String::from_str("SELECT goal AS ").concat(c.as_str()).concat(
            " FROM facts WHERE subject='",
        ).concat(a.as_str()).concat("' AND link='").concat(b.as_str()).concat("'"),
        Triplet::Tvve(a, b, c) => String::from_str("SELECT subject AS ").concat(a.as_str()).concat(
            ",link AS ",
        ).concat(b.as_str()).concat(" FROM facts WHERE goal='").concat(c.as_str()).concat("'"),
        Triplet::Tvev(a, b, c) => String::from_str("SELECT subject AS ").concat(a.as_str()).concat(
            ",goal AS ",
        ).concat(c.as_str()).concat(" FROM facts WHERE link='").concat(b.as_str()).concat("'"),
        Triplet::Tevv(a, b, c) => String::from_str("SELECT link AS ").concat(b.as_str()).concat(
            ",goal AS ",
        ).concat(c.as_str()).concat(" FROM facts WHERE subject='").concat(a.as_str()).concat("'"),
        Triplet::Tvvv(a, b, c) => String::from_str("SELECT subject AS ").concat(a.as_str()).concat(
            ",link AS ",
        ).concat(b.as_str()).concat(",goal AS ").concat(c.as_str()).concat(" FROM facts"),
        Triplet::Empty => {
            let r = String::new();
            assert(r@ =~= Seq::<char>::empty());
            r
        },
        Triplet::TNeee(a, b, c) => String::from_str(
            "SELECT subject,link,goal FROM facts WHERE (subject,link,goal) NOT IN (SELECT subject,link,goal FROM facts WHERE subject='",
        ).concat(a.as_str()).concat("' AND link='").concat(b.as_str()).concat(
            "' AND goal='",
        ).concat(c.as_str()).concat("')"),
        Triplet::TNvee(a, b, c) => String::from_str("SELECT subject AS ").concat(a.as_str()).concat(
            " FROM facts WHERE subject NOT IN (SELECT subject AS ",
        ).concat(a.as_str()).concat(" FROM facts WHERE link='").concat(b.as_str()).concat(
            "' AND goal='",
        ).concat(c.as_str()).concat("')"),
        Triplet::TNeve(a, b, c) => String::from_str("SELECT link AS ").concat(b.as_str()).concat(
            " FROM facts WHERE link NOT IN (SELECT link AS ",
        ).concat(b.as_str()).concat(" FROM facts WHERE subject='").concat(a.as_str()).concat(
            "' AND goal='",
        ).concat(c.as_str()).concat("')"),
        Triplet::TNeev(a, b, c) => String::from_str("SELECT goal AS ").concat(c.as_str()).concat(
            " FROM facts WHERE goal NOT IN (SELECT goal AS ",
        ).concat(c.as_str()).concat(" FROM facts WHERE subject='").concat(a.as_str()).concat(
            "' AND link='",
        ).concat(b.as_str()).concat("')"),
        Triplet::TNvve(a, b, c) => String::from_str("SELECT subject AS ").concat(a.as_str()).concat(
            ",link AS ",
        ).concat(b.as_str()).concat(
            " FROM facts WHERE (subject,link) NOT IN (SELECT subject AS ",
        ).concat(a.as_str()).concat(",link AS ").concat(b.as_str()).concat(
            " FROM facts WHERE goal='",
        ).concat(c.as_str()).concat("')"),
        Triplet::TNvev(a, b, c) => String::from_str("SELECT subject AS ").concat(a.as_str()).concat(
            ",goal AS ",
        ).concat(c.as_str()).concat(
            " FROM facts WHERE (subject,goal) NOT IN (SELECT subject AS ",
        ).concat(a.as_str()).concat(",goal AS ").concat(c.as_str()).concat(
            " FROM facts WHERE link='",
        ).concat(b.as_str()).concat("')"),
        Triplet::TNevv(a, b, c) => String::from_str("SELECT link AS ").concat(b.as_str()).concat(
            ",goal AS ",
        ).concat(c.as_str()).concat(" FROM facts WHERE (link,goal) NOT IN (SELECT link AS ").concat(
            b.as_str(),
        ).concat(",goal AS ").concat(c.as_str()).concat(" FROM facts WHERE subject='").concat(
            a.as_str(),
        ).concat("')"),
        Triplet::TNvvv(a, b, c) => String::from_str("SELECT subject AS ").concat(a.as_str()).concat(
            ",link AS ",
        ).concat(b.as_str()).concat(",goal AS ").concat(c.as_str()).concat(
            " FROM facts WHERE (subject,link,goal) NOT IN (SELECT subject AS ",
        ).concat(a.as_str()).concat(",link AS ").concat(b.as_str()).concat(",goal AS ").concat(
            c.as_str(),
        ).concat(" FROM facts)"),
    }
}

/// The command that adds the fact of a pattern.
pub open spec fn insert_of(t: TripletView) -> Seq<char> {
    "INSERT or IGNORE INTO facts (subject,link,goal) VALUES ('"@ + t.marked_texts().0 + "','"@
        + t.marked_texts().1 + "','"@ + t.marked_texts().2 + "')"@
}

/// The command that adds the fact of a pattern to the store; a fact that is
/// there already is left alone.
pub fn triplet_to_insert(tri: &Triplet) -> (r: String)
    ensures
        r@ == insert_of(tri.deep_view()),
{
    let tup = tri.to_tuple_with_variable();
    String::from_str("INSERT or IGNORE INTO facts (subject,link,goal) VALUES ('").concat(
        tup.0.as_str(),
    ).concat("','").concat(tup.1.as_str()).concat("','").concat(tup.2.as_str()).concat("')")
}

/// The command that deletes the fact of a pattern.
pub open spec fn delete_of(t: TripletView) -> Seq<char> {
    "DELETE FROM facts WHERE subject='"@ + t.marked_texts().0 + "' AND link='"@
        + t.marked_texts().1 + "' AND goal='"@ + t.marked_texts().2 + "'"@
}

/// The command that deletes the fact of a pattern from the store.
pub fn triplet_to_delete(tri: &Triplet) -> (r: String)
    ensures
        r@ == delete_of(tri.deep_view()),
{
    let tup = tri.to_tuple_with_variable();
    String::from_str("DELETE FROM facts WHERE subject='").concat(tup.0.as_str()).concat(
        "' AND link='",
    ).concat(tup.1.as_str()).concat("' AND goal='").concat(tup.2.as_str()).concat("'")
}

/// Two strings, one behind the other.
pub fn string_concat(acc: String, x: String) -> (r: String)
    ensures
        r@ == acc@ + x@,
{
    acc.concat(x.as_str())
}

/// The head of a selection: the variables asked for between commas, or a
/// star if none is asked for.
pub open spec fn sql_of_variables(vars: Seq<Seq<char>>) -> Seq<char> {
    if vars.len() == 0 {
        "SELECT * FROM "@
    } else {
        "SELECT "@ + join_with(vars, ","@) + " FROM "@
    }
}

/// The head of a selection: see [`sql_of_variables`].
pub fn format_variables(vars: &[Var]) -> (r: String)
    ensures
        r@ == sql_of_variables(vars.deep_view()),
{
    if vars.len() == 0 {
        return String::from_str("SELECT * FROM ");
    }
    let mut names: Vec<String> = Vec::new();
    let mut i: usize = 0;
    while i < vars.len()
        invariant
            i <= vars.len(),
            names.len() == i,
            forall|k: int| 0 <= k < i ==> (#[trigger] names@[k])@ == vars@[k]@,
        decreases vars.len() - i,
    {
        names.push(vars[i].0.clone());
        i = i + 1;
    }
    assert(names.deep_view() =~= vars.deep_view());
    String::from_str("SELECT ").concat(join(&names, ",").as_str()).concat(" FROM ")
}

/// The selections of the patterns, joined on the names that they share:
/// each further selection is joined to all those before it.
pub open spec fn joined_selections(tri: Seq<TripletView>) -> Seq<char>
    decreases tri.len(),
{
    if tri.len() == 0 {
        Seq::empty()
    } else if tri.len() == 1 {
        sql_of_triplet(tri[0])
    } else {
        "("@ + joined_selections(tri.drop_last()) + ") natural join ("@ + sql_of_triplet(
            tri.last(),
        ) + ")"@
    }
}

/// The source of a selection: all the facts where there is no pattern or
/// the empty pattern alone, else the joined selections of the patterns.
pub open spec fn sql_of_triplets(tri: Seq<TripletView>) -> Seq<char> {
    if tri.len() == 0 || tri == seq![TripletView::Empty] {
        "facts"@
    } else {
        "("@ + joined_selections(tri) + ")"@
    }
}

/// The source of a selection: see [`sql_of_triplets`].
pub fn format_triplets(tri: &[Triplet]) -> (r: String)
    ensures
        r@ == sql_of_triplets(tri.deep_view()),
{
    if tri.len() == 0 {
        return String::from_str("facts");
    }
    if tri.len() == 1 {
        match &tri[0] {
            Triplet::Empty => {
                assert(tri.deep_view() =~= seq![TripletView::Empty]);
                return String::from_str("facts");
            },
            _ => {
                assert(tri.deep_view()[0] != TripletView::Empty);
            },
        }
    }
    assert(tri.deep_view() != seq![TripletView::Empty]) by {
        if tri.deep_view().len() == 1 {
            assert(tri.deep_view()[0] != TripletView::Empty);
        } else {
            assert(seq![TripletView::Empty].len() == 1);
        }
    }
    let mut queries = triplet_to_sql(&tri[0]);
    assert(tri.deep_view().take(1) =~= seq![tri.deep_view()[0]]);
    let mut i: usize = 1;
    while i < tri.len()
        invariant
            1 <= i <= tri.len(),
            queries@ == joined_selections(tri.deep_view().take(i as int)),
        decreases tri.len() - i,
    {
        proof {
            let next = tri.deep_view().take(i + 1);
            assert(next.drop_last() == tri.deep_view().take(i as int));
            assert(next.last() == tri@[i as int].deep_view());
        }
        queries = String::from_str("(").concat(queries.as_str()).concat(") natural join (").concat(
            triplet_to_sql(&tri[i]).as_str(),
        ).concat(")");
        i = i + 1;
    }
    assert(tri.deep_view().take(i as int) == tri.deep_view());
    String::from_str("(").concat(queries.as_str()).concat(")")
}

/// A comparison in the language of the store: without variable markers, and
/// with `=` for `==`.
pub open spec fn sql_of_comparison(c: Seq<char>) -> Seq<char> {
    replace_all(replace_all(c, "$"@, Seq::empty()), "=="@, "="@)
}

/// The comparisons in the language of the store, in order.
pub open spec fn sql_of_each_comparison(comp: Seq<Seq<char>>) -> Seq<Seq<char>> {
    Seq::new(comp.len(), |i: int| sql_of_comparison(comp[i]))
}

/// The filter of a selection: nothing where there is no comparison, else the
/// comparisons with ` AND` between them behind ` WHERE`; and the semicolon
/// that ends the selection.
pub open spec fn sql_of_comparisons(comp: Seq<Seq<char>>) -> Seq<char> {
    if comp.len() == 0 {
        ";"@
    } else {
        " WHERE"@ + join_with(sql_of_each_comparison(comp), " AND"@) + ";"@
    }
}

/// The filter of a selection: see [`sql_of_comparisons`].
pub fn format_comparisons(comp: &[Comp]) -> (r: String)
    ensures
        r@ == sql_of_comparisons(comp.deep_view()),
{
    if comp.len() == 0 {
        return String::from_str(";");
    }
    let mut parts: Vec<String> = Vec::new();
    let mut i: usize = 0;
    while i < comp.len()
        invariant
            i <= comp.len(),
            parts.len() == i,
            forall|k: int| 0 <= k < i ==> (#[trigger] parts@[k])@ == sql_of_comparison(comp@[k]@),
        decreases comp.len() - i,
    {
        let unmarked = replace(comp[i].0.as_str(), "$", "");
        assert(""@ =~= Seq::<char>::empty()) by {
            reveal_strlit("");
        }
        parts.push(replace(unmarked.as_str(), "==", "="));
        i = i + 1;
    }
    assert(parts.deep_view() =~= sql_of_each_comparison(comp.deep_view()));
    String::from_str(" WHERE").concat(join(&parts, " AND").as_str()).concat(";")
}

/// The name that the selection of a pattern gives the column of a slot
/// that is a variable; none for a term.
pub open spec fn column_of_slot(slot: SlotView) -> Seq<Seq<char>> {
    match slot {
        SlotView::Free(name) => seq![name],
        SlotView::Bound(_) => Seq::empty(),
    }
}

/// The names of the three columns of the facts.
pub open spec fn columns_of_facts() -> Seq<Seq<char>> {
    seq!["subject"@, "link"@, "goal"@]
}

/// The names that the selection of a pattern gives its columns: those of
/// its variables, slot after slot, and the columns of the facts where it
/// has no variable.
pub open spec fn columns_of_pattern(t: TripletView) -> Seq<Seq<char>> {
    match t {
        TripletView::Empty => Seq::empty(),
        TripletView::Pattern { negated, subject, relation, object } => if t.is_ground() {
            columns_of_facts()
        } else {
            column_of_slot(subject) + column_of_slot(relation) + column_of_slot(object)
        },
    }
}

/// The names that the selections of the patterns give their columns,
/// pattern after pattern.
pub open spec fn columns_of_patterns(tri: Seq<TripletView>) -> Seq<Seq<char>>
    decreases tri.len(),
{
    if tri.len() == 0 {
        Seq::empty()
    } else {
        columns_of_patterns(tri.drop_last()) + columns_of_pattern(tri.last())
    }
}

/// The names of the columns of the source of a selection: those of the
/// facts where there is no pattern or the empty pattern alone, else the
/// names that the selections of the patterns give, each once.
pub open spec fn columns_of_source(tri: Seq<TripletView>) -> Seq<Seq<char>> {
    if tri.len() == 0 || tri == seq![TripletView::Empty] {
        columns_of_facts()
    } else {
        first_occurrences(columns_of_patterns(tri))
    }
}

/// The variables asked for, with the columns at hand in the place of each
/// wildcard `*`.
pub open spec fn without_wildcard(get: Seq<Seq<char>>, columns: Seq<Seq<char>>) -> Seq<Seq<char>>
    decreases get.len(),
{
    if get.len() == 0 {
        Seq::empty()
    } else if get.last() == "*"@ {
        without_wildcard(get.drop_last(), columns) + columns
    } else {
        without_wildcard(get.drop_last(), columns).push(get.last())
    }
}

/// The names that the head of a selection asks for: the variables of the
/// query, with the columns of the source in the place of each wildcard, and
/// the columns of the source where the query asks for no variable.
pub open spec fn head_of(get: Seq<Seq<char>>, link: Seq<TripletView>) -> Seq<Seq<char>> {
    if get.len() == 0 {
        columns_of_source(link)
    } else {
        without_wildcard(get, columns_of_source(link))
    }
}

/// Appends copies of the strings of `tail` to `v`.
fn extend_strings(v: &mut Vec<String>, tail: &Vec<String>)
    ensures
        final(v).deep_view() == old(v).deep_view() + tail.deep_view(),
{
    let mut k: usize = 0;
    assert(v.deep_view() =~= old(v).deep_view() + tail.deep_view().take(0));
    while k < tail.len()
        invariant
            k <= tail.len(),
            v.deep_view() == old(v).deep_view() + tail.deep_view().take(k as int),
        decreases tail.len() - k,
    {
        let ghost before = v.deep_view();
        v.push(tail[k].clone());
        assert(v.deep_view() =~= before.push(tail@[k as int]@));
        assert(tail.deep_view().take(k + 1) =~= tail.deep_view().take(k as int).push(
            tail@[k as int]@,
        ));
        assert(v.deep_view() =~= old(v).deep_view() + tail.deep_view().take(k + 1));
        k = k + 1;
    }
    assert(tail.deep_view().take(k as int) == tail.deep_view());
}

/// The names that the selection of a pattern gives its columns: see
/// [`columns_of_pattern`].
pub fn pattern_columns(tri: &Triplet) -> (r: Vec<String>)
    ensures
        r.deep_view() == columns_of_pattern(tri.deep_view()),
{
    let mut names: Vec<String> = Vec::new();
    match tri.slots() {
        None => {
            assert(names.deep_view() =~= Seq::<Seq<char>>::empty());
        },
        Some((negated, subject, relation, object)) => {
            if !subject.is_free() && !relation.is_free() && !object.is_free() {
                names.push(String::from_str("subject"));
                names.push(String::from_str("link"));
                names.push(String::from_str("goal"));
                assert(names.deep_view() =~= columns_of_facts());
            } else {
                if subject.is_free() {
                    names.push(subject.into_text());
                }
                if relation.is_free() {
                    names.push(relation.into_text());
                }
                if object.is_free() {
                    names.push(object.into_text());
                }
                assert(names.deep_view() =~= column_of_slot(subject.deep_view()) + column_of_slot(
                    relation.deep_view(),
                ) + column_of_slot(object.deep_view()));
            }
        },
    }
    names
}

/// The names of the columns of the source of a selection: see
/// [`columns_of_source`].
pub fn source_columns(link: &[Triplet]) -> (r: Vec<String>)
    ensures
        r.deep_view() == columns_of_source(link.deep_view()),
{
    let mut facts: Vec<String> = Vec::new();
    facts.push(String::from_str("subject"));
    facts.push(String::from_str("link"));
    facts.push(String::from_str("goal"));
    assert(facts.deep_view() =~= columns_of_facts());
    if link.len() == 0 {
        return facts;
    }
    if link.len() == 1 {
        match &link[0] {
            Triplet::Empty => {
                assert(link.deep_view() =~= seq![TripletView::Empty]);
                return facts;
            },
            _ => {
                assert(link.deep_view()[0] != TripletView::Empty);
            },
        }
    }
    assert(link.deep_view() != seq![TripletView::Empty]) by {
        if link.deep_view().len() == 1 {
            assert(link.deep_view()[0] != TripletView::Empty);
        } else {
            assert(seq![TripletView::Empty].len() == 1);
        }
    }
    let mut names: Vec<String> = Vec::new();
    let mut i: usize = 0;
    assert(names.deep_view() =~= Seq::<Seq<char>>::empty());
    assert(link.deep_view().take(0) =~= Seq::<TripletView>::empty());
    while i < link.len()
        invariant
            i <= link.len(),
            names.deep_view() == columns_of_patterns(link.deep_view().take(i as int)),
        decreases link.len() - i,
    {
        proof {
            let next = link.deep_view().take(i + 1);
            assert(next.drop_last() == link.deep_view().take(i as int));
            assert(next.last() == link@[i as int].deep_view());
        }
        let more = pattern_columns(&link[i]);
        extend_strings(&mut names, &more);
        i = i + 1;
    }
    assert(link.deep_view().take(i as int) == link.deep_view());
    unique(names)
}

/// The names that the head of a selection asks for: see [`head_of`].
pub fn head_variables(get: &[Var], link: &[Triplet]) -> (r: Vec<Var>)
    ensures
        r.deep_view() == head_of(get.deep_view(), link.deep_view()),
{
    let columns = source_columns(link);
    let mut names: Vec<String> = Vec::new();
    if get.len() == 0 {
        extend_strings(&mut names, &columns);
        assert(names.deep_view() =~= columns.deep_view());
    } else {
        let mut i: usize = 0;
        assert(names.deep_view() =~= Seq::<Seq<char>>::empty());
        assert(get.deep_view().take(0) =~= Seq::<Seq<char>>::empty());
        while i < get.len()
            invariant
                i <= get.len(),
                names.deep_view() == without_wildcard(
                    get.deep_view().take(i as int),
                    columns.deep_view(),
                ),
            decreases get.len() - i,
        {
            proof {
                let next = get.deep_view().take(i + 1);
                assert(next.drop_last() == get.deep_view().take(i as int));
                assert(next.last() == get@[i as int]@);
            }
            if crate::text::str_eq(get[i].0.as_str(), "*") {
                extend_strings(&mut names, &columns);
            } else {
                let ghost before = names.deep_view();
                names.push(get[i].0.clone());
                assert(names.deep_view() =~= before.push(get@[i as int]@));
            }
            i = i + 1;
        }
        assert(get.deep_view().take(i as int) == get.deep_view());
    }
    let mut head: Vec<Var> = Vec::new();
    let mut k: usize = 0;
    while k < names.len()
        invariant
            k <= names.len(),
            head.len() == k,
            forall|j: int| 0 <= j < k ==> (#[trigger] head@[j])@ == names@[j]@,
        decreases names.len() - k,
    {
        head.push(Var(names[k].clone()));
        k = k + 1;
    }
    assert(head.deep_view() =~= names.deep_view());
    head
}

/// The selection that a query stands for: its head, its source, its filter.
/// The head names each column that it asks for: see [`head_of`].
pub open spec fn sql_of_query(
    get: Seq<Seq<char>>,
    link: Seq<TripletView>,
    filter: Seq<Seq<char>>,
) -> Seq<char> {
    sql_of_variables(head_of(get, link)) + sql_of_triplets(link) + sql_of_comparisons(filter)
}

/// The selection that a query stands for.
pub fn query_to_sql(get: &[Var], link: &[Triplet], filter: &[Comp]) -> (r: String)
    ensures
        r@ == sql_of_query(get.deep_view(), link.deep_view(), filter.deep_view()),
{
    let asked = head_variables(get, link);
    let head = format_variables(asked.as_slice());
    let columns = format_triplets(link);
    let comparisons = format_comparisons(filter);
    head.concat(columns.as_str()).concat(comparisons.as_str())
}

/// The commands of the patterns of an addition, one behind the other.
pub open spec fn inserts_of(tri: Seq<TripletView>) -> Seq<char>
    decreases tri.len(),
{
    if tri.len() == 0 {
        Seq::empty()
    } else {
        inserts_of(tri.drop_last()) + insert_of(tri.last())
    }
}

/// The commands of the patterns of a deletion, one behind the other.
pub open spec fn deletes_of(tri: Seq<TripletView>) -> Seq<char>
    decreases tri.len(),
{
    if tri.len() == 0 {
        Seq::empty()
    } else {
        deletes_of(tri.drop_last()) + delete_of(tri.last())
    }
}

/// The text in the language of the store that a command stands for, if it
/// is a query or a modifier.
pub open spec fn sql_of_ast(ast: AstView) -> Option<Seq<char>> {
    match ast {
        AstView::Query(get, link, filter) => Some(sql_of_query(get, link, filter)),
        AstView::AddModifier(tri) => Some(inserts_of(tri)),
        AstView::DeleteModifier(tri) => Some(deletes_of(tri)),
        _ => None,
    }
}

/// Translates a query or a modifier into one text in the language of the
/// store; any other command is refused as empty.
pub fn translate_one_ast(ast: &PredicatAST) -> (r: Result<String, KnowledgeError>)
    ensures
        match r {
            Ok(text) => sql_of_ast(ast.deep_view()) == Some(text@),
            Err(e) => sql_of_ast(ast.deep_view()) is None && e == KnowledgeError::EmptyAST,
        },
{
    match ast {
        PredicatAST::Query(q) => Ok(query_to_sql(q.0.as_slice(), q.1.as_slice(), q.2.as_slice())),
        PredicatAST::AddModifier(commands) => {
            let mut text = String::new();
            let mut i: usize = 0;
            assert(commands.deep_view().take(0) =~= Seq::<TripletView>::empty());
            while i < commands.len()
                invariant
                    i <= commands.len(),
                    text@ == inserts_of(commands.deep_view().take(i as int)),
                decreases commands.len() - i,
            {
                proof {
                    let next = commands.deep_view().take(i + 1);
                    assert(next.drop_last() == commands.deep_view().take(i as int));
                    assert(next.last() == commands@[i as int].deep_view());
                }
                text = string_concat(text, triplet_to_insert(&commands[i]));
                i = i + 1;
            }
            assert(commands.deep_view().take(i as int) == commands.deep_view());
            Ok(text)
        },
        PredicatAST::DeleteModifier(commands) => {
            let mut text = String::new();
            let mut i: usize = 0;
            assert(commands.deep_view().take(0) =~= Seq::<TripletView>::empty());
            while i < commands.len()
                invariant
                    i <= commands.len(),
                    text@ == deletes_of(commands.deep_view().take(i as int)),
                decreases commands.len() - i,
            {
                proof {
                    let next = commands.deep_view().take(i + 1);
                    assert(next.drop_last() == commands.deep_view().take(i as int));
                    assert(next.last() == commands@[i as int].deep_view());
                }
                text = string_concat(text, triplet_to_delete(&commands[i]));
                i = i + 1;
            }
            assert(commands.deep_view().take(i as int) == commands.deep_view());
            Ok(text)
        },
        _ => Err(KnowledgeError::EmptyAST),
    }
}

/// The names that a selection asks for: what stands between the first space
/// and the first ` FROM`, split at the commas. None where the text has not
/// that form.
pub open spec fn columns_of(sql: Seq<char>) -> Seq<Seq<char>> {
    match crate::text::find_from(sql, 0, " FROM"@) {
        None => Seq::empty(),
        Some(k) => match crate::text::find_from(sql.subrange(0, k), 0, " "@) {
            None => Seq::empty(),
            Some(j) => split_on(sql.subrange(0, k).subrange(j + " "@.len(), k), ","@),
        },
    }
}

/// The names that a selection asks for: see [`columns_of`].
pub fn extract_columns(sql_select_query: &str) -> (r: Vec<String>)
    ensures
        r.deep_view() == columns_of(sql_select_query@),
{
    let chars = to_chars(sql_select_query);
    let from = to_chars(" FROM");
    let space = to_chars(" ");
    let comma = to_chars(",");
    let none: Vec<String> = Vec::new();
    assert(none.deep_view() =~= Seq::<Seq<char>>::empty());
    match crate::text::find(chars.as_slice(), 0, from.as_slice()) {
        None => none,
        Some(k) => {
            let head = vstd::slice::slice_subrange(chars.as_slice(), 0, k);
            match crate::text::find(head, 0, space.as_slice()) {
                None => none,
                Some(j) => {
                    let names = vstd::slice::slice_subrange(head, j + space.len(), k);
                    crate::text::split_chars(names, comma.as_slice())
                },
            }
        },
    }
}

/// Whether a text begins with the marker of a variable.
pub open spec fn is_marked(s: Seq<char>) -> bool {
    s.len() > 0 && s[0] == '$'
}

/// Whether a text begins with the marker of a variable.
pub fn is_variable(s: &str) -> (r: bool)
    ensures
        r == is_marked(s@),
{
    let chars = to_chars(s);
    chars.len() > 0 && chars[0] == '$'
}

/// The pairs of a value and the variable that stands at its place, for the
/// places from `i` on that both lists have.
pub open spec fn marked_pairs(values: Seq<Seq<char>>, params: Seq<Seq<char>>, i: int) -> Seq<
    (Seq<char>, Seq<char>),
>
    decreases values.len() - i,
{
    if i < 0 || i >= values.len() || i >= params.len() {
        Seq::empty()
    } else if is_marked(params[i]) {
        seq![(values[i], params[i])] + marked_pairs(values, params, i + 1)
    } else {
        marked_pairs(values, params, i + 1)
    }
}

/// The substitutions that the three values of a pattern give for the
/// variables at their places in `params`. The values are taken from a
/// pattern of three variables that is no negation; any other pattern gives
/// none.
pub open spec fn substitution_list(t: TripletView, params: Seq<Seq<char>>) -> Seq<
    (Seq<char>, Seq<char>),
> {
    match t {
        TripletView::Pattern {
            negated: false,
            subject: SlotView::Free(s),
            relation: SlotView::Free(l),
            object: SlotView::Free(g),
        } => marked_pairs(seq![s, l, g], params, 0),
        _ => Seq::empty(),
    }
}

/// The substitutions that the values of a pattern give: see
/// [`substitution_list`]. Each pair holds the value and then the variable.
pub fn extract_substitution_list(triplet: Triplet, tri_param: &[&str]) -> (r: Vec<(String, String)>)
    ensures
        r.deep_view() == substitution_list(triplet.deep_view(), tri_param.deep_view()),
{
    let mut out: Vec<(String, String)> = Vec::new();
    assert(out.deep_view() =~= Seq::<(Seq<char>, Seq<char>)>::empty());
    match triplet {
        Triplet::Tvvv(s, l, g) => {
            let mut values: Vec<String> = Vec::new();
            values.push(s);
            values.push(l);
            values.push(g);
            assert(values.deep_view() =~= seq![s@, l@, g@]);
            let mut i: usize = 0;
            while i < 3 && i < tri_param.len()
                invariant
                    i <= 3,
                    values.len() == 3,
                    marked_pairs(values.deep_view(), tri_param.deep_view(), 0) == out.deep_view()
                        + marked_pairs(values.deep_view(), tri_param.deep_view(), i as int),
                decreases 3 - i,
            {
                assert(tri_param.deep_view()[i as int] == tri_param@[i as int]@);
                if is_variable(tri_param[i]) {
                    let ghost before = out.deep_view();
                    out.push((values[i].clone(), String::from_str(tri_param[i])));
                    assert(out.deep_view() =~= before + seq![
                        (values.deep_view()[i as int], tri_param.deep_view()[i as int]),
                    ]);
                    assert(before + (seq![
                        (values.deep_view()[i as int], tri_param.deep_view()[i as int]),
                    ] + marked_pairs(values.deep_view(), tri_param.deep_view(), i + 1)) =~= (before
                        + seq![(values.deep_view()[i as int], tri_param.deep_view()[i as int])])
                        + marked_pairs(values.deep_view(), tri_param.deep_view(), i + 1));
                }
                i = i + 1;
            }
            assert(out.deep_view() + Seq::<(Seq<char>, Seq<char>)>::empty() =~= out.deep_view());
            out
        },
        _ => out,
    }
}

/// A text in which each variable of a list of substitutions has been
/// replaced by its value, one substitution after the other.
pub open spec fn substituted(cmd: Seq<char>, pairs: Seq<(Seq<char>, Seq<char>)>) -> Seq<char>
    decreases pairs.len(),
{
    if pairs.len() == 0 {
        cmd
    } else {
        replace_all(substituted(cmd, pairs.drop_last()), pairs.last().1, pairs.last().0)
    }
}

/// The text of a command in which the variables of `tri_param` have been
/// replaced by the values that `triplet` holds at their places.
pub fn substitute_command_string(triplet: Triplet, tri_param: &[&str], cmd: &str) -> (r: String)
    ensures
        r@ == substituted(cmd@, substitution_list(triplet.deep_view(), tri_param.deep_view())),
{
    let pairs = extract_substitution_list(triplet, tri_param);
    let mut command = String::from_str(cmd);
    let mut i: usize = 0;
    assert(pairs.deep_view().take(0) =~= Seq::<(Seq<char>, Seq<char>)>::empty());
    while i < pairs.len()
        invariant
            i <= pairs.len(),
            command@ == substituted(cmd@, pairs.deep_view().take(i as int)),
        decreases pairs.len() - i,
    {
        proof {
            let next = pairs.deep_view().take(i + 1);
            assert(next.drop_last() == pairs.deep_view().take(i as int));
            assert(next.last() == pairs@[i as int].deep_view());
        }
        command = replace(command.as_str(), pairs[i].1.as_str(), pairs[i].0.as_str());
        i = i + 1;
    }
    assert(pairs.deep_view().take(i as int) == pairs.deep_view());
    command
}

/// The text of a command in which a variable has been replaced by a value.
pub fn substitute_variable(var: &str, val: &str, cmd: &str) -> (r: String)
    ensures
        r@ == replace_all(cmd@, var@, val@),
{
    replace(cmd, var, val)
}

/// The bindings that a fact gives to the variables of a pattern: for each
/// slot of the pattern that holds a variable, the variable and the text of
/// the fact at that slot.
pub open spec fn bindings(
    fact: (Seq<char>, Seq<char>, Seq<char>),
    pattern: (Seq<char>, Seq<char>, Seq<char>),
) -> Seq<(Seq<char>, Seq<char>)> {
    (if is_marked(pattern.0) {
        seq![(pattern.0, fact.0)]
    } else {
        Seq::empty()
    }) + (if is_marked(pattern.1) {
        seq![(pattern.1, fact.1)]
    } else {
        Seq::empty()
    }) + (if is_marked(pattern.2) {
        seq![(pattern.2, fact.2)]
    } else {
        Seq::empty()
    })
}

/// The context that binds the variables of a pattern to the texts of a
/// fact, slot by slot. It has one row. It fails where a variable stands at
/// two slots beside another variable, since the columns would not be of one
/// length.
pub fn unify_triplet(fact: (&str, &str, &str), pattern: (&str, &str, &str)) -> (r: Result<
    SimpleContext,
    String,
>)
    ensures
        match r {
            Ok(c) => c.table() == Table::of_pairs(
                bindings((fact.0@, fact.1@, fact.2@), (pattern.0@, pattern.1@, pattern.2@)),
            ) && c.table().aligned() && c.cmds.deep_view().len() == 0 && c.log.deep_view().len()
                == 0,
            Err(_) => !Table::of_pairs(
                bindings((fact.0@, fact.1@, fact.2@), (pattern.0@, pattern.1@, pattern.2@)),
            ).aligned(),
        },
{
    let mut pairs: Vec<(String, String)> = Vec::new();
    assert(pairs.deep_view() =~= Seq::<(Seq<char>, Seq<char>)>::empty());
    if is_variable(pattern.0) {
        let ghost before = pairs.deep_view();
        pairs.push((String::from_str(pattern.0), String::from_str(fact.0)));
        assert(pairs.deep_view() =~= before + seq![(pattern.0@, fact.0@)]);
    }
    assert(pairs.deep_view() =~= Seq::<(Seq<char>, Seq<char>)>::empty() + pairs.deep_view());
    if is_variable(pattern.1) {
        let ghost before = pairs.deep_view();
        pairs.push((String::from_str(pattern.1), String::from_str(fact.1)));
        assert(pairs.deep_view() =~= before + seq![(pattern.1@, fact.1@)]);
    } else {
        assert(pairs.deep_view() + Seq::<(Seq<char>, Seq<char>)>::empty() =~= pairs.deep_view());
    }
    if is_variable(pattern.2) {
        let ghost before = pairs.deep_view();
        pairs.push((String::from_str(pattern.2), String::from_str(fact.2)));
        assert(pairs.deep_view() =~= before + seq![(pattern.2@, fact.2@)]);
    } else {
        assert(pairs.deep_view() + Seq::<(Seq<char>, Seq<char>)>::empty() =~= pairs.deep_view());
    }
    SimpleContext::try_from_pairs(pairs)
}

/// A text in which the names of the first `n` columns of a table have been
/// replaced by the first values of those columns, column after column. A
/// column without values replaces nothing.
pub open spec fn bound_first_row(cmd: Seq<char>, table: Table, n: nat) -> Seq<char>
    decreases n,
{
    if n == 0 {
        cmd
    } else if table.entries[n - 1].1.len() == 0 {
        bound_first_row(cmd, table, (n - 1) as nat)
    } else {
        replace_all(
            bound_first_row(cmd, table, (n - 1) as nat),
            table.entries[n - 1].0,
            table.entries[n - 1].1[0],
        )
    }
}

/// The text of a command in which the variables that a context binds have
/// been replaced by their values in its first row, in the order in which
/// the context got its columns.
pub fn change_variables(cmd: &str, context: &SimpleContext) -> (r: String)
    ensures
        r@ == bound_first_row(cmd@, context.table(), context.table().entries.len()),
{
    let columns = context.get_table();
    let mut command = String::from_str(cmd);
    let mut i: usize = 0;
    while i < columns.len()
        invariant
            i <= columns.len(),
            columns.deep_view() == context.table().entries,
            command@ == bound_first_row(cmd@, context.table(), i as nat),
        decreases columns.len() - i,
    {
        assert(columns.deep_view()[i as int] == columns@[i as int].deep_view());
        if columns[i].1.len() > 0 {
            assert(columns@[i as int].1.deep_view()[0] == columns@[i as int].1@[0]@);
            command = replace(command.as_str(), columns[i].0.as_str(), columns[i].1[0].as_str());
        }
        i = i + 1;
    }
    command
}

/// The selection of the rules that a change of a fact may concern: those
/// of the given kind of change whose trigger holds the subject, the link or
/// the goal of the fact.
pub open spec fn rules_selection_of(
    modifier: Seq<char>,
    fact: (Seq<char>, Seq<char>, Seq<char>),
) -> Seq<char> {
    "SELECT id,name,modifier,subject,link,goal,command,backed_command FROM rules where modifier='"@
        + modifier + "' AND (subject='"@ + fact.0
        + "' OR link='"@ + fact.1 + "' OR goal='"@ + fact.2 + "')"@
}

/// The selection of the rules that a change of a fact may concern: see
/// [`rules_selection_of`].
pub fn rules_selection(modifier: &str, fact: (&str, &str, &str)) -> (r: String)
    ensures
        r@ == rules_selection_of(modifier@, (fact.0@, fact.1@, fact.2@)),
{
    String::from_str(
        "SELECT id,name,modifier,subject,link,goal,command,backed_command FROM rules where modifier='",
    ).concat(modifier).concat(
        "' AND (subject='",
    ).concat(fact.0).concat("' OR link='").concat(fact.1).concat("' OR goal='").concat(
        fact.2,
    ).concat("')")
}

/// The command of a rule in the form in which the store can run it: the
/// selection of a query, with each single quote written `%single_quote%`;
/// the text itself of anything else.
pub open spec fn backed_command(body: Seq<char>) -> Seq<char> {
    if has_prefix_at(body, 0, "get"@) {
        match query_and_modifier_at(body, 0) {
            Ok((end, ast)) => match sql_of_ast(ast) {
                Some(sql) => replace_all(sql, "'"@, "%single_quote%"@),
                None => body,
            },
            Err(_) => body,
        }
    } else {
        body
    }
}

/// The command of a rule in the form in which the store can run it: see
/// [`backed_command`].
pub fn backed(body: &str) -> (r: String)
    ensures
        r@ == backed_command(body@),
{
    if starts_with(body, "get") {
        match parse_query_and_modifier(body) {
            Ok((_, ast)) => match translate_one_ast(&ast) {
                Ok(sql) => replace(sql.as_str(), "'", "%single_quote%"),
                Err(_) => String::from_str(body),
            },
            Err(_) => String::from_str(body),
        }
    } else {
        String::from_str(body)
    }
}

/// A backed command with its single quotes written out again.
pub fn unbacked(backed: &str) -> (r: String)
    ensures
        r@ == replace_all(backed@, "%single_quote%"@, "'"@),
{
    replace(backed, "%single_quote%", "'")
}

/// The registration of a rule for one pattern of its trigger: the kind of
/// the trigger, the three texts of the pattern with their variable markers,
/// the command of the rule and its backed form, each behind `%|%`.
pub open spec fn rule_registration(kind: CommandType, t: TripletView, body: Seq<char>) -> Seq<
    char,
> {
    "%rule%%|%"@ + kind.keyword() + "%|%"@ + t.marked_texts().0 + "%|%"@ + t.marked_texts().1
        + "%|%"@ + t.marked_texts().2 + "%|%"@ + body + "%|%"@ + backed_command(body)
}

/// The registration of a rule for one pattern of its trigger: see
/// [`rule_registration`].
pub fn rule_text(kind: CommandType, tri: &Triplet, body: &str) -> (r: String)
    ensures
        r@ == rule_registration(kind, tri.deep_view(), body@),
{
    let texts = tri.to_tuple_with_variable();
    String::from_str("%rule%%|%").concat(kind.get_string().as_str()).concat("%|%").concat(
        texts.0.as_str(),
    ).concat("%|%").concat(texts.1.as_str()).concat("%|%").concat(texts.2.as_str()).concat(
        "%|%",
    ).concat(body).concat("%|%").concat(backed(body).as_str())
}

/// The commands of the store that a command stands for, if it can be
/// translated: one selection for a query; one insertion or deletion for each
/// pattern of a modifier; one registration for each pattern of the trigger
/// of a rule.
pub open spec fn translation(ast: AstView) -> Option<Seq<SqlView>> {
    match ast {
        AstView::Query(get, link, filter) => Some(
            seq![classified(sql_of_query(get, link, filter))],
        ),
        AstView::AddModifier(tri) => Some(
            Seq::new(tri.len(), |i: int| classified(insert_of(tri[i]))),
        ),
        AstView::DeleteModifier(tri) => Some(
            Seq::new(tri.len(), |i: int| classified(delete_of(tri[i]))),
        ),
        AstView::Infer(kind, tri, premise, body) => Some(
            Seq::new(tri.len(), |i: int| classified(rule_registration(kind, tri[i], body))),
        ),
        _ => None,
    }
}

/// Translates a command into commands of the store: see [`translation`].
pub fn translate_ast(ast: &PredicatAST) -> (r: Result<Vec<Sql>, KnowledgeError>)
    ensures
        match r {
            Ok(parts) => translation(ast.deep_view()) == Some(parts.deep_view()),
            Err(e) => translation(ast.deep_view()) is None && e == KnowledgeError::EmptyAST,
        },
        r is Ok <==> translatable(ast.deep_view()),
{
    let mut parts: Vec<Sql> = Vec::new();
    match ast {
        PredicatAST::Query(q) => {
            parts.push(
                Sql::classify(query_to_sql(q.0.as_slice(), q.1.as_slice(), q.2.as_slice())),
            );
            assert(parts.deep_view() =~= translation(ast.deep_view())->0);
            Ok(parts)
        },
        PredicatAST::AddModifier(commands) => {
            let mut i: usize = 0;
            while i < commands.len()
                invariant
                    i <= commands.len(),
                    parts.len() == i,
                    forall|k: int|
                        0 <= k < i ==> (#[trigger] parts@[k]).deep_view() == classified(
                            insert_of(commands@[k].deep_view()),
                        ),
                decreases commands.len() - i,
            {
                parts.push(Sql::classify(triplet_to_insert(&commands[i])));
                i = i + 1;
            }
            assert(parts.deep_view() =~= translation(ast.deep_view())->0);
            Ok(parts)
        },
        PredicatAST::DeleteModifier(commands) => {
            let mut i: usize = 0;
            while i < commands.len()
                invariant
                    i <= commands.len(),
                    parts.len() == i,
                    forall|k: int|
                        0 <= k < i ==> (#[trigger] parts@[k]).deep_view() == classified(
                            delete_of(commands@[k].deep_view()),
                        ),
                decreases commands.len() - i,
            {
                parts.push(Sql::classify(triplet_to_delete(&commands[i])));
                i = i + 1;
            }
            assert(parts.deep_view() =~= translation(ast.deep_view())->0);
            Ok(parts)
        },
        PredicatAST::Infer(trigger, premise, body) => {
            let mut i: usize = 0;
            while i < trigger.1.len()
                invariant
                    i <= trigger.1.len(),
                    parts.len() == i,
                    forall|k: int|
                        0 <= k < i ==> (#[trigger] parts@[k]).deep_view() == classified(
                            rule_registration(trigger.0, trigger.1@[k].deep_view(), body@),
                        ),
                decreases trigger.1.len() - i,
            {
                parts.push(Sql::classify(rule_text(trigger.0, &trigger.1[i], body.as_str())));
                i = i + 1;
            }
            assert(parts.deep_view() =~= translation(ast.deep_view())->0);
            Ok(parts)
        },
        _ => Err(KnowledgeError::EmptyAST),
    }
}

/// The insertion of a registered rule into the store, if the registration
/// has its seven fields: the six that follow the first, each between single
/// quotes.
pub open spec fn rule_insertion_of(registration: Seq<char>) -> Option<Seq<char>> {
    let values = split_on(registration, "%|%"@);
    if values.len() >= 7 {
        Some(
            "INSERT INTO rules (modifier, subject, link, goal, command, backed_command) VALUES ('"@
                + values[1] + "', '"@ + values[2] + "', '"@ + values[3] + "', '"@ + values[4]
                + "', '"@ + values[5] + "', '"@ + values[6] + "')"@,
        )
    } else {
        None
    }
}

/// The insertion of a registered rule into the store: see
/// [`rule_insertion_of`].
pub fn rule_insertion(registration: &str) -> (r: Option<String>)
    ensures
        match r {
            Some(text) => rule_insertion_of(registration@) == Some(text@),
            None => rule_insertion_of(registration@) is None,
        },
{
    let values = split(registration, "%|%");
    if values.len() >= 7 {
        Some(
            String::from_str(
                "INSERT INTO rules (modifier, subject, link, goal, command, backed_command) VALUES ('",
            ).concat(values[1].as_str()).concat("', '").concat(values[2].as_str()).concat(
                "', '",
            ).concat(values[3].as_str()).concat("', '").concat(values[4].as_str()).concat(
                "', '",
            ).concat(values[5].as_str()).concat("', '").concat(values[6].as_str()).concat("')"),
        )
    } else {
        None
    }
}

/// A text as it stands between the quotes of a statement: each single quote
/// of the text is written twice.
pub open spec fn quoted_of(text: Seq<char>) -> Seq<char> {
    replace_all(text, "'"@, "''"@)
}

/// A text as it stands between the quotes of a statement: see
/// [`quoted_of`].
pub fn quoted(text: &str) -> (r: String)
    ensures
        r@ == quoted_of(text@),
{
    replace(text, "'", "''")
}

/// The question whether a text has been remembered.
pub open spec fn cache_lookup_of(text: Seq<char>) -> Seq<char> {
    "SELECT command FROM cache WHERE command = '"@ + quoted_of(text) + "'"@
}

/// The question whether a text has been remembered.
pub fn cache_lookup(text: &str) -> (r: String)
    ensures
        r@ == cache_lookup_of(text@),
{
    String::from_str("SELECT command FROM cache WHERE command = '").concat(
        quoted(text).as_str(),
    ).concat("'")
}

/// The command that remembers a text.
pub open spec fn cache_insertion_of(text: Seq<char>) -> Seq<char> {
    "INSERT INTO cache (command) VALUES ('"@ + quoted_of(text) + "')"@
}

/// The command that remembers a text.
pub fn cache_insertion(text: &str) -> (r: String)
    ensures
        r@ == cache_insertion_of(text@),
{
    String::from_str("INSERT INTO cache (command) VALUES ('").concat(
        quoted(text).as_str(),
    ).concat("')")
}

/// The name and value pairs of one row of the store: a missing value is the
/// empty text.
pub open spec fn pairs_of_row(row: Seq<(Seq<char>, Option<Seq<char>>)>) -> Seq<
    (Seq<char>, Seq<char>),
> {
    Seq::new(
        row.len(),
        |i: int|
            (
                row[i].0,
                match row[i].1 {
                    Some(value) => value,
                    None => Seq::empty(),
                },
            ),
    )
}

/// The name and value pairs of the rows of the store, row after row.
pub open spec fn flat_pairs(rows: Seq<Seq<(Seq<char>, Option<Seq<char>>)>>) -> Seq<
    (Seq<char>, Seq<char>),
>
    decreases rows.len(),
{
    if rows.len() == 0 {
        Seq::empty()
    } else {
        flat_pairs(rows.drop_last()) + pairs_of_row(rows.last())
    }
}

/// The name and value pairs of the rows of the store, row after row.
pub fn flatten_rows(rows: &Vec<Vec<(String, Option<String>)>>) -> (r: Vec<(String, String)>)
    ensures
        r.deep_view() == flat_pairs(rows.deep_view()),
{
    let mut pairs: Vec<(String, String)> = Vec::new();
    let mut i: usize = 0;
    assert(rows.deep_view().take(0) =~= Seq::<Seq<(Seq<char>, Option<Seq<char>>)>>::empty());
    assert(pairs.deep_view() =~= Seq::<(Seq<char>, Seq<char>)>::empty());
    while i < rows.len()
        invariant
            i <= rows.len(),
            pairs.deep_view() == flat_pairs(rows.deep_view().take(i as int)),
        decreases rows.len() - i,
    {
        proof {
            let next = rows.deep_view().take(i + 1);
            assert(next.drop_last() == rows.deep_view().take(i as int));
            assert(next.last() == rows@[i as int].deep_view());
        }
        let ghost before = pairs.deep_view();
        let row = &rows[i];
        let mut j: usize = 0;
        while j < row.len()
            invariant
                j <= row.len(),
                pairs.len() == before.len() + j,
                forall|k: int| 0 <= k < before.len() ==> (#[trigger] pairs@[k]).deep_view() == before[k],
                forall|k: int|
                    0 <= k < j ==> (#[trigger] pairs@[before.len() + k]).deep_view() == pairs_of_row(
                        row.deep_view(),
                    )[k],
            decreases row.len() - j,
        {
            let value = match &row[j].1 {
                Some(v) => v.clone(),
                None => String::new(),
            };
            assert(row.deep_view()[j as int] == row@[j as int].deep_view());
            pairs.push((row[j].0.clone(), value));
            j = j + 1;
        }
        assert(pairs.deep_view() =~= before + pairs_of_row(row.deep_view())) by {
            assert forall|k: int| 0 <= k < pairs.deep_view().len() implies pairs.deep_view()[k] == (
                before + pairs_of_row(row.deep_view()))[k] by {
                if k >= before.len() {
                    assert(pairs@[before.len() + (k - before.len())].deep_view() == pairs_of_row(
                        row.deep_view(),
                    )[k - before.len()]);
                }
            }
        }
        i = i + 1;
    }
    assert(rows.deep_view().take(i as int) == rows.deep_view());
    pairs
}

/// What is reported where the rows of the store do not make a table.
pub open spec fn malformed_rows() -> Seq<char> {
    "We weren't able to convert the list of tuple to a context"@
}

/// The context that the rows of an answer of the store make: each value in
/// the column of its name. Rows that do not make columns of one length are
/// refused.
pub fn context_of_rows(rows: &Vec<Vec<(String, Option<String>)>>) -> (r: Result<
    SimpleContext,
    KnowledgeError,
>)
    ensures
        match r {
            Ok(c) => c.table() == Table::of_pairs(flat_pairs(rows.deep_view()))
                && c.table().aligned() && c.cmds.deep_view().len() == 0 && c.log.deep_view().len()
                == 0,
            Err(e) => !Table::of_pairs(flat_pairs(rows.deep_view())).aligned() && (
            e matches KnowledgeError::StoreError(message) && message@ == malformed_rows()),
        },
{
    match SimpleContext::try_from_pairs(flatten_rows(rows)) {
        Ok(c) => Ok(c),
        Err(message) => Err(KnowledgeError::StoreError(message)),
    }
}

/// The values of the rows of the store, row after row.
pub open spec fn flat_values(rows: Seq<Seq<(Seq<char>, Option<Seq<char>>)>>) -> Seq<Seq<char>> {
    Seq::new(flat_pairs(rows).len(), |i: int| flat_pairs(rows)[i].1)
}

/// The values of the rows of the store, row after row.
pub fn values_of_rows(rows: &Vec<Vec<(String, Option<String>)>>) -> (r: Vec<String>)
    ensures
        r.deep_view() == flat_values(rows.deep_view()),
{
    let pairs = flatten_rows(rows);
    let mut values: Vec<String> = Vec::new();
    let mut i: usize = 0;
    while i < pairs.len()
        invariant
            i <= pairs.len(),
            values.len() == i,
            forall|k: int| 0 <= k < i ==> (#[trigger] values@[k])@ == pairs@[k].1@,
        decreases pairs.len() - i,
    {
        values.push(pairs[i].1.clone());
        i = i + 1;
    }
    assert(values.deep_view() =~= flat_values(rows.deep_view())) by {
        assert forall|k: int| 0 <= k < values.deep_view().len() implies values.deep_view()[k]
            == flat_values(rows.deep_view())[k] by {
            assert(pairs.deep_view()[k] == pairs@[k].deep_view());
        }
    }
    values
}

/// The columns of a rule that the composition of commands reads.
pub open spec fn rule_columns() -> Seq<Seq<char>> {
    seq!["subject"@, "link"@, "goal"@, "command"@]
}

/// The command that one rule gives rise to for a fact: the command of the
/// rule with the variables of its trigger replaced by the texts of the fact
/// at their slots. A rule whose trigger cannot be unified with the fact
/// gives no command.
pub open spec fn rule_followup(fact: (Seq<char>, Seq<char>, Seq<char>), rule: Seq<Seq<char>>) -> Seq<
    Seq<char>,
> {
    let table = Table::of_pairs(bindings(fact, (rule[0], rule[1], rule[2])));
    if table.aligned() {
        seq![bound_first_row(rule[3], table, table.entries.len())]
    } else {
        Seq::empty()
    }
}

/// The commands that rules give rise to for a fact, rule after rule.
pub open spec fn followups(fact: (Seq<char>, Seq<char>, Seq<char>), rules: Seq<Seq<Seq<char>>>) -> Seq<
    Seq<char>,
>
    decreases rules.len(),
{
    if rules.len() == 0 {
        Seq::empty()
    } else {
        followups(fact, rules.drop_last()) + rule_followup(fact, rules.last())
    }
}

/// The commands that the rules of a table give rise to for a fact; none
/// where the table lacks a column of [`rule_columns`] or has columns of
/// different lengths.
pub open spec fn commands_of_rules(fact: (Seq<char>, Seq<char>, Seq<char>), rules: Table) -> Seq<
    Seq<char>,
> {
    if rules.covers(rule_columns()) {
        followups(fact, rules.rows_of(rule_columns()))
    } else {
        Seq::empty()
    }
}

/// The commands that the rules of a table give rise to for a fact: see
/// [`commands_of_rules`].
pub fn commands_from_rules(fact: (&str, &str, &str), rules: &SimpleContext) -> (r: Vec<String>)
    ensures
        r.deep_view() == commands_of_rules((fact.0@, fact.1@, fact.2@), rules.table()),
{
    let mut out: Vec<String> = Vec::new();
    assert(out.deep_view() =~= Seq::<Seq<char>>::empty());
    let mut wanted: Vec<&str> = Vec::new();
    wanted.push("subject");
    wanted.push("link");
    wanted.push("goal");
    wanted.push("command");
    let columns = wanted.as_slice();
    assert(columns.deep_view() =~= rule_columns());
    match rules.get_values2(columns) {
        None => out,
        Some(rows) => {
            let ghost model = (fact.0@, fact.1@, fact.2@);
            let mut i: usize = 0;
            assert(rows.deep_view().take(0) =~= Seq::<Seq<Seq<char>>>::empty());
            while i < rows.len()
                invariant
                    i <= rows.len(),
                    model == (fact.0@, fact.1@, fact.2@),
                    rows.deep_view() == rules.table().rows_of(rule_columns()),
                    out.deep_view() == followups(model, rows.deep_view().take(i as int)),
                decreases rows.len() - i,
            {
                proof {
                    let next = rows.deep_view().take(i + 1);
                    assert(next.drop_last() == rows.deep_view().take(i as int));
                    assert(next.last() == rows@[i as int].deep_view());
                    assert(rule_columns().len() == 4);
                    assert(rows.deep_view().len() == rows@.len());
                    assert(rules.table().rows_of(rule_columns()).len() == rules.table().rows());
                    assert(0 <= i < rules.table().rows());
                    assert(rules.table().rows_of(rule_columns())[i as int] == rules.table().row(
                        rule_columns(),
                        i as int,
                    ));
                    assert(rows.deep_view()[i as int] == rules.table().row(
                        rule_columns(),
                        i as int,
                    ));
                    assert(rows.deep_view()[i as int].len() == 4);
                }
                let rule = &rows[i];
                assert(rule.len() == 4);
                let ghost before = out.deep_view();
                assert(rule.deep_view()[0] == rule@[0]@);
                assert(rule.deep_view()[1] == rule@[1]@);
                assert(rule.deep_view()[2] == rule@[2]@);
                assert(rule.deep_view()[3] == rule@[3]@);
                match unify_triplet(fact, (rule[0].as_str(), rule[1].as_str(), rule[2].as_str())) {
                    Ok(bound) => {
                        out.push(change_variables(rule[3].as_str(), &bound));
                        assert(out.deep_view() =~= before + rule_followup(model, rule.deep_view()));
                    },
                    Err(_) => {
                        assert(out.deep_view() =~= before + rule_followup(model, rule.deep_view()));
                    },
                }
                i = i + 1;
            }
            assert(rows.deep_view().take(i as int) == rows.deep_view());
            out
        },
    }
}

/// The backed commands of a list that are selections, with their single
/// quotes written out, in order.
pub open spec fn selections_among(backed: Seq<Seq<char>>) -> Seq<Seq<char>>
    decreases backed.len(),
{
    if backed.len() == 0 {
        Seq::empty()
    } else if classified(replace_all(backed.last(), "%single_quote%"@, "'"@)) is Query {
        selections_among(backed.drop_last()).push(
            replace_all(backed.last(), "%single_quote%"@, "'"@),
        )
    } else {
        selections_among(backed.drop_last())
    }
}

/// The selections by which the rules of a table block a command: the backed
/// commands of the rules that are selections.
pub open spec fn blocking_selections(rules: Table) -> Seq<Seq<char>> {
    selections_among(rules.values(canonical("backed_command"@)))
}

/// The selections by which the rules of a table block a command: see
/// [`blocking_selections`]. A command is blocked where one of them gives a
/// row.
pub fn blocking_queries(rules: &SimpleContext) -> (r: Vec<String>)
    ensures
        r.deep_view() == blocking_selections(rules.table()),
{
    let mut out: Vec<String> = Vec::new();
    assert(out.deep_view() =~= Seq::<Seq<char>>::empty());
    match rules.get_values("backed_command") {
        Err(_) => out,
        Ok(backed) => {
            let mut i: usize = 0;
            assert(backed.deep_view().take(0) =~= Seq::<Seq<char>>::empty());
            while i < backed.len()
                invariant
                    i <= backed.len(),
                    out.deep_view() == selections_among(backed.deep_view().take(i as int)),
                decreases backed.len() - i,
            {
                proof {
                    let next = backed.deep_view().take(i + 1);
                    assert(next.drop_last() == backed.deep_view().take(i as int));
                    assert(next.last() == backed@[i as int]@);
                }
                let ghost before = out.deep_view();
                match Sql::classify(unbacked(backed[i].as_str())) {
                    Sql::Query(text) => {
                        out.push(text);
                        assert(out.deep_view() =~= before.push(
                            replace_all(backed@[i as int]@, "%single_quote%"@, "'"@),
                        ));
                    },
                    _ => {},
                }
                i = i + 1;
            }
            assert(backed.deep_view().take(i as int) == backed.deep_view());
            out
        },
    }
}

/// The index of the group of a name.
fn find_group(groups: &Vec<(String, Vec<String>)>, name: &str) -> (r: Option<usize>)
    requires
        (Table { entries: groups.deep_view() }).distinct(),
    ensures
        match r {
            Some(i) => i < groups.len() && (Table { entries: groups.deep_view() }).has(name@)
                && (Table { entries: groups.deep_view() }).index(name@) == i,
            None => !(Table { entries: groups.deep_view() }).has(name@),
        },
{
    let ghost table = Table { entries: groups.deep_view() };
    let mut i: usize = 0;
    while i < groups.len()
        invariant
            i <= groups.len(),
            table == (Table { entries: groups.deep_view() }),
            table.distinct(),
            forall|k: int| 0 <= k < i ==> table.entries[k].0 != name@,
        decreases groups.len() - i,
    {
        assert(table.entries[i as int].0 == groups@[i as int].0@);
        if crate::text::str_eq(groups[i].0.as_str(), name) {
            proof {
                lemma_index_unique(table, name@, i as int);
            }
            return Some(i);
        }
        i = i + 1;
    }
    None
}

/// The values of name and value pairs, grouped by name: see
/// [`Table::grouped`]. The names come in the order in which they first
/// occur.
pub fn to_hashmap(sqlite_couple: &[(&str, &str)]) -> (r: Vec<(String, Vec<String>)>)
    ensures
        (Table { entries: r.deep_view() }) == Table::grouped(sqlite_couple.deep_view()),
        (Table { entries: r.deep_view() }).distinct(),
{
    let mut groups: Vec<(String, Vec<String>)> = Vec::new();
    let mut i: usize = 0;
    assert(sqlite_couple.deep_view().take(0) =~= Seq::<(Seq<char>, Seq<char>)>::empty());
    assert(groups.deep_view() =~= Table::empty().entries);
    while i < sqlite_couple.len()
        invariant
            i <= sqlite_couple.len(),
            (Table { entries: groups.deep_view() }) == Table::grouped(
                sqlite_couple.deep_view().take(i as int),
            ),
            (Table { entries: groups.deep_view() }).distinct(),
        decreases sqlite_couple.len() - i,
    {
        proof {
            let next = sqlite_couple.deep_view().take(i + 1);
            assert(next.drop_last() == sqlite_couple.deep_view().take(i as int));
            assert(next.last() == (sqlite_couple@[i as int].0@, sqlite_couple@[i as int].1@));
        }
        let ghost before = Table { entries: groups.deep_view() };
        let name = sqlite_couple[i].0;
        let value = sqlite_couple[i].1;
        proof {
            lemma_with_column_distinct(before, name@, before.values(name@) + seq![value@]);
        }
        match find_group(&groups, name) {
            Some(k) => {
                let mut values = clone_strings(&groups[k].1);
                values.push(String::from_str(value));
                assert(values.deep_view() =~= before.column(name@) + seq![value@]);
                groups.set(k, (String::from_str(name), values));
                assert(groups.deep_view() =~= before.entries.update(
                    k as int,
                    (name@, before.column(name@) + seq![value@]),
                ));
            },
            None => {
                let mut values: Vec<String> = Vec::new();
                values.push(String::from_str(value));
                assert(values.deep_view() =~= Seq::<Seq<char>>::empty() + seq![value@]);
                groups.push((String::from_str(name), values));
                assert(groups.deep_view() =~= before.entries.push(
                    (name@, Seq::<Seq<char>>::empty() + seq![value@]),
                ));
            },
        }
        i = i + 1;
    }
    assert(sqlite_couple.deep_view().take(i as int) == sqlite_couple.deep_view());
    groups
}

/// Whether no name occurs twice among groups of values.
pub fn has_distinct_names(hm: &Vec<(String, Vec<String>)>) -> (r: bool)
    ensures
        r == (Table { entries: hm.deep_view() }).distinct(),
{
    let ghost table = Table { entries: hm.deep_view() };
    let mut j: usize = 0;
    while j < hm.len()
        invariant
            j <= hm.len(),
            table == (Table { entries: hm.deep_view() }),
            forall|a: int, b: int| 0 <= a < b < j ==> table.entries[a].0 != table.entries[b].0,
        decreases hm.len() - j,
    {
        let mut i: usize = 0;
        while i < j
            invariant
                i <= j < hm.len(),
                table == (Table { entries: hm.deep_view() }),
                forall|a: int| 0 <= a < i ==> table.entries[a].0 != table.entries[j as int].0,
            decreases j - i,
        {
            assert(table.entries[i as int].0 == hm@[i as int].0@);
            assert(table.entries[j as int].0 == hm@[j as int].0@);
            if hm[i].0 == hm[j].0 {
                return false;
            }
            i = i + 1;
        }
        j = j + 1;
    }
    true
}

/// The context with the columns that `columns` names, in that order, taken
/// from values grouped by name: see [`Table::selected`]. Without groups, and
/// with groups in which a name occurs twice, the context is empty.
pub fn to_context(hm: Vec<(String, Vec<String>)>, columns: Vec<&str>) -> (r: SimpleContext)
    ensures
        r.table() == if hm.deep_view().len() == 0 || !(Table {
            entries: hm.deep_view(),
        }).distinct() {
            Table::empty()
        } else {
            Table::selected(Table { entries: hm.deep_view() }, columns.deep_view())
        },
        r.cmds.deep_view().len() == 0,
        r.log.deep_view().len() == 0,
{
    let mut context = SimpleContext::new();
    if hm.len() == 0 || !has_distinct_names(&hm) {
        return context;
    }
    let ghost groups = Table { entries: hm.deep_view() };
    let mut i: usize = 0;
    assert(columns.deep_view().take(0) =~= Seq::<Seq<char>>::empty());
    while i < columns.len()
        invariant
            i <= columns.len(),
            groups == (Table { entries: hm.deep_view() }),
            groups.distinct(),
            context.table() == Table::selected(groups, columns.deep_view().take(i as int)),
            context.cmds.deep_view().len() == 0,
            context.log.deep_view().len() == 0,
        decreases columns.len() - i,
    {
        proof {
            let next = columns.deep_view().take(i + 1);
            assert(next.drop_last() == columns.deep_view().take(i as int));
            assert(next.last() == columns@[i as int]@);
        }
        let mut values: Vec<&str> = Vec::new();
        match find_group(&hm, columns[i]) {
            Some(k) => {
                let mut j: usize = 0;
                let n = hm[k].1.len();
                while j < n
                    invariant
                        k < hm.len(),
                        n == hm@[k as int].1.len(),
                        j <= n,
                        values.len() == j,
                        forall|m: int| 0 <= m < j ==> (#[trigger] values@[m])@ == hm@[k as int].1@[m]@,
                    decreases n - j,
                {
                    values.push(hm[k].1[j].as_str());
                    j = j + 1;
                }
                assert(groups.entries[k as int].1 == hm@[k as int].1.deep_view());
            },
            None => {},
        }
        let listed = values.as_slice();
        assert(listed.deep_view() =~= groups.values(columns@[i as int]@));
        let _ = context.add_column(columns[i], listed);
        i = i + 1;
    }
    assert(columns.deep_view().take(i as int) == columns.deep_view());
    context
}

/// A connection of the `sqlite` crate to a database.
#[verifier::external_type_specification]
#[verifier::external_body]
pub struct ExConnection(sqlite::Connection);

/// An error of the `sqlite` crate.
#[verifier::external_type_specification]
#[verifier::external_body]
pub struct ExSqliteError(sqlite::Error);

/// `sqlite::open`: opens the database at a path, and creates it if it does
/// not exist. What comes back depends on the file system; nothing is
/// claimed of it.
#[verifier::external_body]
fn open_connection(path: &str) -> Result<sqlite::Connection, sqlite::Error> {
    sqlite::open(path)
}

/// `sqlite::Connection::execute`: runs statements without reading their
/// rows. What comes back depends on the database; nothing is claimed of it.
#[verifier::external_body]
fn connection_execute(connection: &sqlite::Connection, statement: &str) -> Result<
    (),
    sqlite::Error,
> {
    connection.execute(statement)
}

/// The number of single quotes among the first `i` characters of a text.
pub open spec fn quotes_before(s: Seq<char>, i: int) -> nat
    decreases i,
{
    if i <= 0 {
        0
    } else if s[i - 1] == '\'' {
        quotes_before(s, i - 1) + 1
    } else {
        quotes_before(s, i - 1)
    }
}

/// Whether the character at `i` stands outside the texts that the statement
/// holds between single quotes: an even number of quotes stands before it.
pub open spec fn outside_quotes(s: Seq<char>, i: int) -> bool {
    quotes_before(s, i) % 2 == 0
}

/// Whether at `i` there is a star, the start of a name between double
/// quotes, back quotes or brackets, or the start of a comment.
pub open spec fn star_or_cover(s: Seq<char>, i: int) -> bool {
    s[i] == '*' || s[i] == '"' || s[i] == '`' || s[i] == '[' || (s[i] == '-' && i + 1 < s.len()
        && s[i + 1] == '-')
}

/// Whether a statement names the columns of its answer itself: outside the
/// texts between single quotes it holds no star, and nothing that could
/// cover one from this reading (a name between double quotes, back quotes
/// or brackets, a comment). The names of the columns of such a statement
/// are spelled in its own text.
pub open spec fn names_its_columns(s: Seq<char>) -> bool {
    forall|i: int| 0 <= i < s.len() && outside_quotes(s, i) ==> !#[trigger] star_or_cover(s, i)
}

/// Decides whether a statement names the columns of its answer itself: see
/// [`names_its_columns`].
pub fn names_columns(statement: &str) -> (r: bool)
    ensures
        r == names_its_columns(statement@),
{
    let chars = to_chars(statement);
    let mut inside = false;
    let mut i: usize = 0;
    while i < chars.len()
        invariant
            i <= chars.len(),
            chars@ == statement@,
            inside == !outside_quotes(chars@, i as int),
            forall|k: int|
                0 <= k < i && outside_quotes(chars@, k) ==> !#[trigger] star_or_cover(chars@, k),
        decreases chars.len() - i,
    {
        let c = chars[i];
        if c == '\'' {
            inside = !inside;
        } else if !inside {
            let comment = c == '-' && i + 1 < chars.len() && chars[i + 1] == '-';
            if c == '*' || c == '"' || c == '`' || c == '[' || comment {
                assert(star_or_cover(chars@, i as int));
                return false;
            }
        }
        i = i + 1;
    }
    true
}

/// What is reported for a question that does not name the columns of its
/// answer.
pub open spec fn unnamed_columns() -> Seq<char> {
    "The statement does not name the columns of its answer"@
}

/// A prepared statement of the `sqlite` crate.
#[verifier::external_type_specification]
#[verifier::external_body]
pub struct ExStatement<'l>(sqlite::Statement<'l>);

/// `sqlite::Connection::prepare`: prepares the first statement of a text.
/// The crate gives up on the name of a column of the answer that is no
/// valid text. The statement has to name those columns itself: each name is
/// then taken from the text of the statement, or is a name of the database
/// that the text spells, up to the case of its letters, and the text of the
/// statement is valid. Whether the statement can be prepared depends on the
/// database; nothing is claimed of what comes back.
#[verifier::external_body]
fn connection_prepare<'l>(connection: &'l sqlite::Connection, statement: &str) -> Result<
    sqlite::Statement<'l>,
    sqlite::Error,
>
    requires
        names_its_columns(statement@),
{
    connection.prepare(statement)
}

/// `sqlite::Statement::next`: takes a prepared statement one step further,
/// and tells whether a row is there to read. What comes back depends on
/// the database; nothing is claimed of it.
#[verifier::external_body]
fn statement_next(statement: &mut sqlite::Statement) -> Result<bool, sqlite::Error> {
    match statement.next() {
        Ok(sqlite::State::Row) => Ok(true),
        Ok(sqlite::State::Done) => Ok(false),
        Err(e) => Err(e),
    }
}

/// `sqlite::Statement::column_names`: the names of the columns of a
/// prepared statement. Nothing is claimed of them.
#[verifier::external_body]
fn statement_column_names(statement: &sqlite::Statement) -> Vec<String> {
    statement.column_names().to_vec()
}

/// `sqlite::Statement::read`, for a text that may be missing: the value of
/// the row at hand in the column of an index, read as a text, or an error
/// where there is no such column or no text can be had. What comes back
/// depends on the database; nothing is claimed of it.
#[verifier::external_body]
fn statement_read(statement: &sqlite::Statement, index: usize) -> Result<
    Option<String>,
    sqlite::Error,
> {
    statement.read::<Option<String>, usize>(index)
}

/// The names of the cells of a row, in order.
pub open spec fn names_of_row(row: Seq<(Seq<char>, Option<Seq<char>>)>) -> Seq<Seq<char>> {
    Seq::new(row.len(), |i: int| row[i].0)
}

/// Whether every row lists the same names in the same order.
pub open spec fn uniform_rows(rows: Seq<Seq<(Seq<char>, Option<Seq<char>>)>>) -> bool {
    forall|i: int, j: int|
        0 <= i < rows.len() && 0 <= j < rows.len() ==> names_of_row(#[trigger] rows[i])
            == names_of_row(#[trigger] rows[j])
}

/// The row at hand of a prepared statement: for each name its value in the
/// column of that rank, read as a text that may be missing.
fn read_row(statement: &sqlite::Statement, names: &Vec<String>) -> (r: Result<
    Vec<(String, Option<String>)>,
    KnowledgeError,
>)
    ensures
        r matches Ok(row) ==> names_of_row(row.deep_view()) == names.deep_view(),
        r matches Err(e) ==> e is StoreError,
{
    let mut row: Vec<(String, Option<String>)> = Vec::new();
    let mut i: usize = 0;
    while i < names.len()
        invariant
            i <= names.len(),
            row.len() == i,
            forall|k: int| 0 <= k < i ==> (#[trigger] row@[k]).0@ == names@[k]@,
        decreases names.len() - i,
    {
        match statement_read(statement, i) {
            Ok(value) => {
                row.push((names[i].clone(), value));
            },
            Err(e) => {
                return Err(store_error(&e));
            },
        }
        i = i + 1;
    }
    assert(names_of_row(row.deep_view()) =~= names.deep_view()) by {
        assert forall|k: int| 0 <= k < row.deep_view().len() implies names_of_row(
            row.deep_view(),
        )[k] == names.deep_view()[k] by {
            assert(row.deep_view()[k] == row@[k].deep_view());
        }
    }
    Ok(row)
}

/// The rows that the store answers to a question. A statement that does not
/// name the columns of its answer is refused before the store is asked:
/// see [`names_its_columns`]. Else the statement is
/// prepared and taken step by step to its end, and each row is read as
/// pairs of a column name and a text that may be missing. Every row lists
/// the names of the columns of the statement. An error of the store at any
/// step ends the reading with that error, and so do more rows than a list
/// can hold.
pub(crate) fn connection_rows(connection: &sqlite::Connection, statement: &str) -> (r: Result<
    Vec<Vec<(String, Option<String>)>>,
    KnowledgeError,
>)
    ensures
        r matches Ok(rows) ==> uniform_rows(rows.deep_view()),
        r matches Err(e) ==> e is StoreError,
        !names_its_columns(statement@) ==> (r matches Err(KnowledgeError::StoreError(message))
            && message@ == unnamed_columns()),
{
    if !names_columns(statement) {
        return Err(
            KnowledgeError::StoreError(
                String::from_str("The statement does not name the columns of its answer"),
            ),
        );
    }
    match connection_prepare(connection, statement) {
        Err(e) => Err(store_error(&e)),
        Ok(prepared) => {
            let mut prepared = prepared;
            let names = statement_column_names(&prepared);
            let mut rows: Vec<Vec<(String, Option<String>)>> = Vec::new();
            while rows.len() < usize::MAX
                invariant
                    names_its_columns(statement@),
                    forall|k: int|
                        0 <= k < rows.len() ==> names_of_row(#[trigger] rows@[k].deep_view())
                            == names.deep_view(),
                decreases usize::MAX - rows.len(),
            {
                match statement_next(&mut prepared) {
                    Err(e) => {
                        return Err(store_error(&e));
                    },
                    Ok(false) => {
                        proof {
                            assert forall|i: int, j: int|
                                0 <= i < rows.deep_view().len() && 0 <= j
                                    < rows.deep_view().len() implies names_of_row(
                                #[trigger] rows.deep_view()[i],
                            ) == names_of_row(#[trigger] rows.deep_view()[j]) by {
                                assert(rows.deep_view()[i] == rows@[i].deep_view());
                                assert(rows.deep_view()[j] == rows@[j].deep_view());
                            }
                        }
                        return Ok(rows);
                    },
                    Ok(true) => {
                        match read_row(&prepared, &names) {
                            Err(e) => {
                                return Err(e);
                            },
                            Ok(row) => {
                                rows.push(row);
                            },
                        }
                    },
                }
            }
            Err(KnowledgeError::StoreError(String::from_str("The store answers with too many rows")))
        },
    }
}

/// Whether the rows that the store answers to the question for a command
/// show that the command has been processed: there is a row.
pub fn is_cached(rows: &Vec<Vec<(String, Option<String>)>>) -> (r: bool)
    ensures
        r == (rows@.len() > 0),
{
    rows.len() > 0
}

/// The field `message` of a `sqlite::Error`.
#[verifier::external_body]
fn error_message(error: &sqlite::Error) -> Option<String> {
    error.message.clone()
}

/// The error of the library for an error of the store: its message, or a
/// general one where it has none.
fn store_error(error: &sqlite::Error) -> (r: KnowledgeError)
    ensures
        r is StoreError,
{
    match error_message(error) {
        Some(message) => KnowledgeError::StoreError(message),
        None => KnowledgeError::StoreError(
            String::from_str("An error occured with the sqlite database"),
        ),
    }
}

/// The table of the facts: a subject, a link and a goal, no fact twice.
pub const CREATE_FACTS: &'static str =
    "CREATE TABLE IF NOT EXISTS facts('subject' TEXT, 'link' TEXT, 'goal' TEXT, PRIMARY KEY (subject,link,goal));";

/// The table of the rules: the kind and the pattern of a trigger, a command
/// and its backed form.
pub const CREATE_RULES: &'static str =
    "CREATE TABLE IF NOT EXISTS rules('id' INTEGER PRIMARY KEY AUTOINCREMENT, 'name' TEXT, 'modifier' TEXT, 'subject' TEXT, 'link' TEXT, 'goal' TEXT, 'command' TEXT, 'backed_command');";

/// The table of the commands that have been processed.
pub const CREATE_CACHE: &'static str = "CREATE TABLE IF NOT EXISTS cache('command' TEXT);";

/// The selection of all the facts.
pub const SELECT_FACTS: &'static str =
    "SELECT A,B,C from (SELECT subject as A, link as B, goal as C FROM facts)";

/// The selection of all the rules.
pub const SELECT_RULES: &'static str =
    "SELECT modifier, subject, link, goal, command, backed_command FROM rules;";

/// What is reported for a registration of a rule without its seven fields.
pub open spec fn malformed_rule() -> Seq<char> {
    "The rule is malformed"@
}

/// A store of facts and rules in a database of the `sqlite` crate.
pub struct SqliteKnowledge {
    connection: sqlite::Connection,
}

impl SqliteKnowledge {
    /// Opens the store in the database at a path, `:memory:` for a database
    /// that lives as long as the store, and creates its tables where they
    /// do not exist.
    pub fn open(path: &str) -> (r: Result<SqliteKnowledge, KnowledgeError>)
        ensures
            r matches Err(e) ==> e is StoreError,
    {
        match open_connection(path) {
            Err(e) => Err(store_error(&e)),
            Ok(connection) => {
                let knowledge = SqliteKnowledge { connection };
                match knowledge.modify(CREATE_FACTS) {
                    Err(e) => Err(e),
                    Ok(_) => match knowledge.modify(CREATE_RULES) {
                        Err(e) => Err(e),
                        Ok(_) => match knowledge.modify(CREATE_CACHE) {
                            Err(e) => Err(e),
                            Ok(_) => Ok(knowledge),
                        },
                    },
                }
            },
        }
    }

    /// The name and value pairs of the rows that the store answers to a
    /// question, row after row; none where the store refuses the question.
    pub fn get_vec(&self, cmd: &str) -> Vec<(String, String)> {
        match connection_rows(&self.connection, cmd) {
            Ok(rows) => flatten_rows(&rows),
            Err(_) => Vec::new(),
        }
    }
}

impl Command for SqliteKnowledge {
    type Language = Sql;

    /// The rows that the store answers, as a context: see
    /// [`context_of_rows`]. The answer carries no command and no log. A
    /// question that does not name the columns of its answer is refused
    /// before the store is asked: see [`names_its_columns`].
    fn get(&self, cmd: &str) -> (r: Result<SimpleContext, KnowledgeError>)
        ensures
            r matches Ok(c) ==> c.cmds.deep_view().len() == 0 && c.log.deep_view().len() == 0,
            !names_its_columns(cmd@) ==> (r matches Err(KnowledgeError::StoreError(message))
                && message@ == unnamed_columns()),
    {
        match connection_rows(&self.connection, cmd) {
            Ok(rows) => context_of_rows(&rows),
            Err(e) => Err(e),
        }
    }

    /// The facts of the store under the names `A`, `B` and `C`. The answer
    /// carries no command and no log.
    fn get_all(&self) -> (r: Result<SimpleContext, KnowledgeError>)
        ensures
            r matches Ok(c) ==> c.cmds.deep_view().len() == 0 && c.log.deep_view().len() == 0,
    {
        self.get(SELECT_FACTS)
    }

    /// The answer to a change that the store carries out is the empty
    /// context: no column, no command, no log.
    fn modify(&self, cmd: &str) -> (r: Result<SimpleContext, KnowledgeError>)
        ensures
            r matches Ok(c) ==> c.cmds.deep_view().len() == 0 && c.log.deep_view().len() == 0,
    {
        match connection_execute(&self.connection, cmd) {
            Ok(()) => Ok(SimpleContext::new()),
            Err(e) => Err(store_error(&e)),
        }
    }

    /// The commands of the store that a command stands for: see
    /// [`translation`].
    fn translate(&self, s: &PredicatAST) -> (r: Result<Vec<Sql>, KnowledgeError>)
        ensures
            match r {
                Ok(parts) => translation(s.deep_view()) == Some(parts.deep_view()),
                Err(e) => translation(s.deep_view()) is None,
            },
    {
        translate_ast(s)
    }

    /// A selection is asked, a registration is stored as a rule, and
    /// anything else is carried out as a change. The answer to a
    /// registration and to a change is an empty context; no answer carries a
    /// command or a log. A registration without its seven fields is refused
    /// before the store is asked.
    fn execute(&self, s: &Sql) -> (r: Result<SimpleContext, KnowledgeError>)
        ensures
            !(s.deep_view() is Query) ==> (r matches Ok(c) ==> c.table() == Table::empty()),
            r matches Ok(c) ==> c.cmds.deep_view().len() == 0 && c.log.deep_view().len() == 0,
            (s.deep_view() matches SqlView::Rule(text) && rule_insertion_of(text) is None) ==> (
            r matches Err(KnowledgeError::StoreError(message)) && message@ == malformed_rule()),
    {
        match s {
            Sql::Query(q) => self.get(q.as_str()),
            Sql::Rule(r) => match self.store_rule(r.as_str()) {
                Ok(c) => Ok(c),
                Err(e) => Err(e),
            },
            Sql::Modify(m) => match self.modify(m.as_str()) {
                Ok(c) => Ok(c),
                Err(e) => Err(e),
            },
        }
    }

    /// The definition of a rule is blocked where, for one pattern of its
    /// trigger, a rule of the store that the pattern may concern has a
    /// selection as its backed command and that selection gives a row: see
    /// [`rules_selection`] and [`blocking_queries`]. A question that the
    /// store refuses blocks nothing. A rule whose trigger has no pattern is
    /// not blocked, and nothing but the definition of a rule is.
    fn is_invalid(&self, cmd: &PredicatAST) -> (r: bool)
        ensures
            r ==> cmd.deep_view() is Infer && patterns_of(cmd.deep_view()).len() > 0,
    {
        match cmd {
            PredicatAST::Infer(trigger, premise, body) => {
                let mut i: usize = 0;
                while i < trigger.1.len()
                    invariant
                        i <= trigger.1.len(),
                        cmd.deep_view() is Infer,
                        patterns_of(cmd.deep_view()).len() == trigger.1.len(),
                    decreases trigger.1.len() - i,
                {
                    let texts = trigger.1[i].to_tuple_with_variable();
                    let select = rules_selection(
                        trigger.0.get_string().as_str(),
                        (texts.0.as_str(), texts.1.as_str(), texts.2.as_str()),
                    );
                    match self.get(select.as_str()) {
                        Err(_) => {},
                        Ok(rules) => {
                            let queries = blocking_queries(&rules);
                            let mut j: usize = 0;
                            while j < queries.len()
                                invariant
                                    j <= queries.len(),
                                    cmd.deep_view() is Infer,
                                    patterns_of(cmd.deep_view()).len() > 0,
                                decreases queries.len() - j,
                            {
                                match self.get(queries[j].as_str()) {
                                    Ok(found) => {
                                        if found.is_not_empty() {
                                            return true;
                                        }
                                    },
                                    Err(_) => {},
                                }
                                j = j + 1;
                            }
                        },
                    }
                    i = i + 1;
                }
                false
            },
            _ => false,
        }
    }

    /// The commands of the rules that the change of a fact may concern: see
    /// [`rules_selection`] and [`commands_from_rules`]. A question that the
    /// store refuses gives no command.
    fn infer_command_from_triplet(&self, modifier: &str, tri: &Triplet) -> (r: Vec<String>) {
        let fact = tri.to_tuple();
        let texts = (fact.0.as_str(), fact.1.as_str(), fact.2.as_str());
        let select = rules_selection(modifier, texts);
        match self.get(select.as_str()) {
            Ok(rules) => commands_from_rules(texts, &rules),
            Err(_) => Vec::new(),
        }
    }

    /// The commands that the rules of the store give rise to for each
    /// pattern of an addition or of a deletion, pattern after pattern: see
    /// [`SqliteKnowledge::infer_command_from_triplet`]. A modifier without a
    /// pattern gives rise to none, and so does any other command.
    fn infer_commands_from(&self, cmd: &PredicatAST) -> (r: Vec<String>)
        ensures
            patterns_of(cmd.deep_view()).len() == 0 ==> r.deep_view().len() == 0,
    {
        let mut out: Vec<String> = Vec::new();
        assert(out.deep_view() =~= Seq::<Seq<char>>::empty());
        match cmd {
            PredicatAST::AddModifier(v_of_tri) => {
                let mut i: usize = 0;
                while i < v_of_tri.len()
                    invariant
                        i <= v_of_tri.len(),
                        i == 0 ==> out.deep_view().len() == 0,
                    decreases v_of_tri.len() - i,
                {
                    let mut more = self.infer_command_from_triplet("add", &v_of_tri[i]);
                    out.append(&mut more);
                    i = i + 1;
                }
                out
            },
            PredicatAST::DeleteModifier(v_of_tri) => {
                let mut i: usize = 0;
                while i < v_of_tri.len()
                    invariant
                        i <= v_of_tri.len(),
                        i == 0 ==> out.deep_view().len() == 0,
                    decreases v_of_tri.len() - i,
                {
                    let mut more = self.infer_command_from_triplet("delete", &v_of_tri[i]);
                    out.append(&mut more);
                    i = i + 1;
                }
                out
            },
            _ => out,
        }
    }
}

impl FactManager for SqliteKnowledge {
    fn save_facts(&self, modifier: &str, subject: &str, link: &str, goal: &str) {
        let text = String::from_str(modifier).concat(" ").concat(subject).concat(" ").concat(
            link,
        ).concat(" ").concat(goal);
        let _ = connection_execute(&self.connection, cache_insertion(text.as_str()).as_str());
    }

    fn clear_facts(&self) {
        let _ = connection_execute(&self.connection, "DELETE FROM facts");
    }
}

impl Cache for SqliteKnowledge {
    fn clear_cache(&self) {
        let _ = connection_execute(&self.connection, "DELETE FROM cache");
    }

    /// Whether the store holds the canonical text of the command: see
    /// [`cache_lookup`] and [`is_cached`]. A question that the store refuses
    /// counts as no.
    fn in_cache(&self, cmd: &PredicatAST) -> (r: bool) {
        let query = cache_lookup(cmd.text().as_str());
        match connection_rows(&self.connection, query.as_str()) {
            Ok(rows) => is_cached(&rows),
            Err(_) => false,
        }
    }

    /// Stores the canonical text of the command: see [`cache_insertion`].
    fn store_to_cache(&self, modifier: &PredicatAST) -> (r: PredicatAST) {
        let query = cache_insertion(modifier.text().as_str());
        let _ = connection_execute(&self.connection, query.as_str());
        modifier.clone()
    }
}

impl RuleManager for SqliteKnowledge {
    fn clear_rules(&self) {
        let _ = connection_execute(&self.connection, "DELETE FROM rules");
    }

    /// Stores a registered rule: see [`rule_insertion`]. A registration
    /// without its seven fields is refused before the store is asked. The
    /// answer to a rule that the store takes is the empty context.
    fn store_rule(&self, s: &str) -> (r: Result<SimpleContext, KnowledgeError>)
        ensures
            rule_insertion_of(s@) is None ==> (r matches Err(KnowledgeError::StoreError(message))
                && message@ == malformed_rule()),
            r matches Ok(c) ==> c.cmds.deep_view().len() == 0 && c.log.deep_view().len() == 0,
    {
        match rule_insertion(s) {
            Some(cmd) => self.modify(cmd.as_str()),
            None => Err(KnowledgeError::StoreError(String::from_str("The rule is malformed"))),
        }
    }

    fn get_rules(&self) -> (r: Vec<String>) {
        match connection_rows(&self.connection, SELECT_RULES) {
            Ok(rows) => values_of_rows(&rows),
            Err(_) => Vec::new(),
        }
    }
}

impl Knowledgeable for SqliteKnowledge {
    /// Opens the store in the file `data.db`.
    fn new() -> (r: Result<SqliteKnowledge, KnowledgeError>) {
        SqliteKnowledge::open("data.db")
    }
}

} // verus!
