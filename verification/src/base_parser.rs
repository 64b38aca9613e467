//! The terms of the command language and the parsers of its patterns.
pub use crate::context_traits::Var;
use crate::grammar::{
    char_is, has_char_at, lemma_run_to, model_of, outcome, parsed_view, range_model,
    range_result, run_end, scan, tag, text_outcome, text_view, value_result, within, CharClass,
    ErrorKind, ParseFailure, Parsed, Read,
};
use crate::text::{has_prefix_at, join, join_with, split, split_on, string_of, to_chars};
pub use crate::triplet::{format_tuple_of_three, to_var, Slot, SlotView, Triplet, TripletView};
use crate::triplet::{is_plain, is_word, writable, written};
use vstd::prelude::*;
use vstd::string::*;

verus! {

/// What a rule does when its trigger is met.
#[derive(PartialEq, Eq, Structural, Debug, Clone, Copy)]
pub enum Action {
    Block,
    Infer,
}

/// The three kinds of command.
#[derive(PartialEq, Eq, Structural, Debug, Clone, Copy)]
pub enum CommandType {
    Add,
    Delete,
    Get,
}

impl DeepView for CommandType {
    type V = CommandType;

    open spec fn deep_view(&self) -> CommandType {
        *self
    }
}

impl CommandType {
    /// The keyword of the kind.
    pub open spec fn keyword(self) -> Seq<char> {
        match self {
            CommandType::Add => "add"@,
            CommandType::Delete => "delete"@,
            CommandType::Get => "get"@,
        }
    }

    /// The keyword of the kind: `add`, `delete` or `get`.
    pub fn get_string(&self) -> (r: String)
        ensures
            r@ == self.keyword(),
    {
        match self {
            CommandType::Add => String::from_str("add"),
            CommandType::Delete => String::from_str("delete"),
            CommandType::Get => String::from_str("get"),
        }
    }
}

/// A comparison, as the text that the parser read: two operands around a
/// relational operator, each behind a space.
#[derive(PartialEq, Debug)]
pub struct Comp(pub String);

impl View for Comp {
    type V = Seq<char>;

    open spec fn view(&self) -> Seq<char> {
        self.0@
    }
}

impl DeepView for Comp {
    type V = Seq<char>;

    open spec fn deep_view(&self) -> Seq<char> {
        self.0@
    }
}

/// The strings of a list that are not empty, in order.
pub open spec fn non_empty(pieces: Seq<Seq<char>>) -> Seq<Seq<char>>
    decreases pieces.len(),
{
    if pieces.len() == 0 {
        Seq::empty()
    } else if pieces.last().len() > 0 {
        non_empty(pieces.drop_last()).push(pieces.last())
    } else {
        non_empty(pieces.drop_last())
    }
}

/// The words of a text: what stands between its spaces.
pub open spec fn words_of(text: Seq<char>) -> Seq<Seq<char>> {
    non_empty(split_on(text, " "@))
}

/// The word of rank `k`, or the empty string if there are not that many.
pub open spec fn word_or_empty(words: Seq<Seq<char>>, k: int) -> Seq<char> {
    if 0 <= k < words.len() {
        words[k]
    } else {
        Seq::empty()
    }
}

/// The three parts of a comparison: its first three words.
pub open spec fn content_of(text: Seq<char>) -> (Seq<char>, Seq<char>, Seq<char>) {
    (
        word_or_empty(words_of(text), 0),
        word_or_empty(words_of(text), 1),
        word_or_empty(words_of(text), 2),
    )
}

impl Comp {
    /// The left operand, the operator and the right operand: the first three
    /// words of the text, an empty string for each word that is missing.
    pub fn get_content(&self) -> (r: (String, String, String))
        ensures
            (r.0@, r.1@, r.2@) == content_of(self@),
    {
        let pieces = split(self.0.as_str(), " ");
        let mut words: Vec<String> = Vec::new();
        let mut i: usize = 0;
        assert(pieces.deep_view().take(0) =~= Seq::<Seq<char>>::empty());
        while i < pieces.len()
            invariant
                i <= pieces.len(),
                words.deep_view() == non_empty(pieces.deep_view().take(i as int)),
            decreases pieces.len() - i,
        {
            proof {
                let next = pieces.deep_view().take(i + 1);
                assert(next.drop_last() == pieces.deep_view().take(i as int));
                assert(next.last() == pieces@[i as int]@);
            }
            let ghost before = words.deep_view();
            if pieces[i].as_str().unicode_len() > 0 {
                words.push(pieces[i].clone());
                assert(words.deep_view() =~= before.push(pieces@[i as int]@));
            }
            i = i + 1;
        }
        assert(pieces.deep_view().take(i as int) == pieces.deep_view());
        let first = if words.len() > 0 {
            words[0].clone()
        } else {
            String::new()
        };
        let second = if words.len() > 1 {
            words[1].clone()
        } else {
            String::new()
        };
        let third = if words.len() > 2 {
            words[2].clone()
        } else {
            String::new()
        };
        (first, second, third)
    }
}

impl Clone for Comp {
    fn clone(&self) -> (r: Self)
        ensures
            r == *self,
    {
        Comp(self.0.clone())
    }
}

/// A command, as a mathematical value: the model of [`PredicatAST`].
pub enum AstView {
    /// The variables asked for, the patterns to match, the comparisons to
    /// hold.
    Query(Seq<Seq<char>>, Seq<TripletView>, Seq<Seq<char>>),
    /// The patterns to add.
    AddModifier(Seq<TripletView>),
    /// The patterns to delete.
    DeleteModifier(Seq<TripletView>),
    /// A rule: the kind and patterns of its trigger, the text of the
    /// trigger, and the text of the command that it stands for.
    Infer(CommandType, Seq<TripletView>, Seq<char>, Seq<char>),
    /// No command.
    Empty,
    /// A text to show.
    Debug(Seq<char>),
}

/// A command.
#[derive(PartialEq, Debug)]
pub enum PredicatAST {
    /// A query: the variables asked for, the patterns to match, and the
    /// comparisons to hold.
    Query((Vec<Var>, Vec<Triplet>, Vec<Comp>)),
    /// The patterns to add as facts.
    AddModifier(Vec<Triplet>),
    /// The patterns to delete from the facts.
    DeleteModifier(Vec<Triplet>),
    /// A rule: the kind and patterns of its trigger, the text of the
    /// trigger, and the text of the command that it stands for.
    Infer((CommandType, Vec<Triplet>), String, String),
    /// No command.
    Empty,
    /// A text to show.
    Debug(String),
}

impl DeepView for PredicatAST {
    type V = AstView;

    open spec fn deep_view(&self) -> AstView {
        match *self {
            PredicatAST::Query(q) => AstView::Query(
                q.0.deep_view(),
                q.1.deep_view(),
                q.2.deep_view(),
            ),
            PredicatAST::AddModifier(v) => AstView::AddModifier(v.deep_view()),
            PredicatAST::DeleteModifier(v) => AstView::DeleteModifier(v.deep_view()),
            PredicatAST::Infer(trigger, premise, body) => AstView::Infer(
                trigger.0,
                trigger.1.deep_view(),
                premise@,
                body@,
            ),
            PredicatAST::Empty => AstView::Empty,
            PredicatAST::Debug(text) => AstView::Debug(text@),
        }
    }
}

/// A copy of a list of variables.
pub fn clone_vars(v: &Vec<Var>) -> (r: Vec<Var>)
    ensures
        r.deep_view() == v.deep_view(),
{
    let mut r: Vec<Var> = Vec::new();
    let mut i: usize = 0;
    while i < v.len()
        invariant
            i <= v.len(),
            r.len() == i,
            forall|k: int| 0 <= k < i ==> r@[k]@ == v@[k]@,
        decreases v.len() - i,
    {
        r.push(v[i].clone());
        i = i + 1;
    }
    assert(r.deep_view() =~= v.deep_view());
    r
}

/// A copy of a list of patterns.
pub fn clone_triplets(v: &Vec<Triplet>) -> (r: Vec<Triplet>)
    ensures
        r.deep_view() == v.deep_view(),
{
    let mut r: Vec<Triplet> = Vec::new();
    let mut i: usize = 0;
    while i < v.len()
        invariant
            i <= v.len(),
            r.len() == i,
            forall|k: int| 0 <= k < i ==> r@[k].deep_view() == v@[k].deep_view(),
        decreases v.len() - i,
    {
        r.push(v[i].clone());
        i = i + 1;
    }
    assert(r.deep_view() =~= v.deep_view());
    r
}

/// A copy of a list of comparisons.
pub fn clone_comps(v: &Vec<Comp>) -> (r: Vec<Comp>)
    ensures
        r.deep_view() == v.deep_view(),
{
    let mut r: Vec<Comp> = Vec::new();
    let mut i: usize = 0;
    while i < v.len()
        invariant
            i <= v.len(),
            r.len() == i,
            forall|k: int| 0 <= k < i ==> r@[k]@ == v@[k]@,
        decreases v.len() - i,
    {
        r.push(v[i].clone());
        i = i + 1;
    }
    assert(r.deep_view() =~= v.deep_view());
    r
}

impl Clone for PredicatAST {
    fn clone(&self) -> (r: Self)
        ensures
            r.deep_view() == self.deep_view(),
    {
        match self {
            PredicatAST::Query(q) => PredicatAST::Query(
                (clone_vars(&q.0), clone_triplets(&q.1), clone_comps(&q.2)),
            ),
            PredicatAST::AddModifier(v) => PredicatAST::AddModifier(clone_triplets(v)),
            PredicatAST::DeleteModifier(v) => PredicatAST::DeleteModifier(clone_triplets(v)),
            PredicatAST::Infer(trigger, premise, body) => PredicatAST::Infer(
                (trigger.0, clone_triplets(&trigger.1)),
                premise.clone(),
                body.clone(),
            ),
            PredicatAST::Empty => PredicatAST::Empty,
            PredicatAST::Debug(text) => PredicatAST::Debug(text.clone()),
        }
    }
}

/// The patterns of a list as they stand in a command.
pub open spec fn spaced_each(tri: Seq<TripletView>) -> Seq<Seq<char>> {
    Seq::new(tri.len(), |i: int| tri[i].spaced())
}

/// The canonical text of a command, under which it is remembered once it
/// has been processed.
pub open spec fn canonical_text(ast: AstView) -> Seq<char> {
    match ast {
        AstView::Query(vars, tri, comps) => "get "@ + join_with(vars, " "@) + " where"@
            + join_with(spaced_each(tri), " and"@) + join_with(comps, " and"@),
        AstView::AddModifier(tri) => "add"@ + join_with(spaced_each(tri), " and"@),
        AstView::DeleteModifier(tri) => "delete"@ + join_with(spaced_each(tri), " and"@),
        AstView::Infer(kind, tri, premise, body) => "infer "@ + premise + " -> "@ + body,
        AstView::Empty => Seq::empty(),
        AstView::Debug(text) => text,
    }
}

/// The patterns of a list as they stand in a command.
fn space_each(tri: &Vec<Triplet>) -> (r: Vec<String>)
    ensures
        r.deep_view() == spaced_each(tri.deep_view()),
{
    let mut out: Vec<String> = Vec::new();
    let mut i: usize = 0;
    while i < tri.len()
        invariant
            i <= tri.len(),
            out.len() == i,
            forall|k: int| 0 <= k < i ==> (#[trigger] out@[k])@ == tri@[k].deep_view().spaced(),
        decreases tri.len() - i,
    {
        out.push(tri[i].spaced());
        i = i + 1;
    }
    assert(out.deep_view() =~= spaced_each(tri.deep_view()));
    out
}

impl vstd::std_specs::convert::FromSpecImpl<PredicatAST> for String {
    /// The conversion is specified by the `ensures` of `from` alone.
    open spec fn obeys_from_spec() -> bool {
        false
    }

    open spec fn from_spec(p: PredicatAST) -> String {
        arbitrary()
    }
}

impl From<PredicatAST> for String {
    fn from(p: PredicatAST) -> (r: String)
        ensures
            r@ == canonical_text(p.deep_view()),
    {
        p.text()
    }
}

impl PredicatAST {
    /// The canonical text of the command: see [`canonical_text`].
    pub fn text(&self) -> (r: String)
        ensures
            r@ == canonical_text(self.deep_view()),
    {
        match self {
            PredicatAST::Query(q) => {
                let mut names: Vec<String> = Vec::new();
                let mut i: usize = 0;
                while i < q.0.len()
                    invariant
                        i <= q.0.len(),
                        names.len() == i,
                        forall|k: int| 0 <= k < i ==> (#[trigger] names@[k])@ == q.0@[k]@,
                    decreases q.0.len() - i,
                {
                    names.push(q.0[i].0.clone());
                    i = i + 1;
                }
                assert(names.deep_view() =~= q.0.deep_view());
                let mut filters: Vec<String> = Vec::new();
                let mut j: usize = 0;
                while j < q.2.len()
                    invariant
                        j <= q.2.len(),
                        filters.len() == j,
                        forall|k: int| 0 <= k < j ==> (#[trigger] filters@[k])@ == q.2@[k]@,
                    decreases q.2.len() - j,
                {
                    filters.push(q.2[j].0.clone());
                    j = j + 1;
                }
                assert(filters.deep_view() =~= q.2.deep_view());
                String::from_str("get ").concat(join(&names, " ").as_str()).concat(" where").concat(
                    join(&space_each(&q.1), " and").as_str(),
                ).concat(join(&filters, " and").as_str())
            },
            PredicatAST::AddModifier(v) => String::from_str("add").concat(
                join(&space_each(v), " and").as_str(),
            ),
            PredicatAST::DeleteModifier(v) => String::from_str("delete").concat(
                join(&space_each(v), " and").as_str(),
            ),
            PredicatAST::Infer(trigger, premise, body) => String::from_str("infer ").concat(
                premise.as_str(),
            ).concat(" -> ").concat(body.as_str()),
            PredicatAST::Empty => {
                let r = String::new();
                assert(r@ =~= Seq::<char>::empty());
                r
            },
            PredicatAST::Debug(text) => text.clone(),
        }
    }

    /// Whether the command is a query.
    pub fn is_query(&self) -> (r: bool)
        ensures
            r == (self.deep_view() is Query),
    {
        match self {
            PredicatAST::Query(_) => true,
            _ => false,
        }
    }
}

/// A command together with its text.
#[derive(PartialEq, Debug)]
pub enum Command {
    Str(String, String),
    Predicat(String, Box<PredicatAST>),
}

/// A bound term, as a mathematical value.
pub enum ElementView {
    /// A run of letters, digits and underscores.
    Term(Seq<char>),
    /// What stood between single quotes.
    String(Seq<char>),
}

impl ElementView {
    /// The text of the term.
    pub open spec fn text(self) -> Seq<char> {
        match self {
            ElementView::Term(t) => t,
            ElementView::String(t) => t,
        }
    }
}

/// A bound term.
#[derive(PartialEq, Debug)]
pub enum Element {
    /// A run of letters, digits and underscores.
    Term(String),
    /// What stood between single quotes.
    String(String),
}

impl DeepView for Element {
    type V = ElementView;

    open spec fn deep_view(&self) -> ElementView {
        match *self {
            Element::Term(t) => ElementView::Term(t@),
            Element::String(t) => ElementView::String(t@),
        }
    }
}

impl Clone for Element {
    fn clone(&self) -> (r: Self)
        ensures
            r == *self,
    {
        match self {
            Element::Term(t) => Element::Term(t.clone()),
            Element::String(t) => Element::String(t.clone()),
        }
    }
}

impl Element {
    /// The text of the term.
    pub fn into_text(self) -> (r: String)
        ensures
            r@ == self.deep_view().text(),
    {
        match self {
            Element::Term(t) => t,
            Element::String(t) => t,
        }
    }
}

impl vstd::std_specs::convert::FromSpecImpl<Element> for String {
    /// The conversion is specified by the `ensures` of `from` alone.
    open spec fn obeys_from_spec() -> bool {
        false
    }

    open spec fn from_spec(e: Element) -> String {
        arbitrary()
    }
}

impl From<Element> for String {
    fn from(e: Element) -> (r: String)
        ensures
            r@ == e.deep_view().text(),
    {
        e.into_text()
    }
}

/// A piece of the command language, as a mathematical value: the model of
/// [`Language`].
pub enum LanguageView {
    Var(Seq<char>),
    NotVar(Seq<char>),
    Get,
    Connector,
    Element(ElementView),
    NotElement(ElementView),
    Tri(TripletView),
    Comp(Seq<char>),
    Empty,
}

/// A piece of the command language, as a parser reads it.
#[derive(PartialEq, Debug)]
pub enum Language {
    /// A variable, by its name without the marker.
    Var(String),
    /// A variable behind `not`.
    NotVar(String),
    /// The keyword that opens a query.
    Get,
    /// A keyword between the variables and the patterns of a query.
    Connector,
    /// A bound term.
    Element(Element),
    /// A bound term behind `not`.
    NotElement(Element),
    /// A pattern.
    Tri(Triplet),
    /// A comparison, as its text.
    Comp(String),
    /// Nothing: what is read where more than one slot is negated.
    Empty,
}

impl DeepView for Language {
    type V = LanguageView;

    open spec fn deep_view(&self) -> LanguageView {
        match *self {
            Language::Var(n) => LanguageView::Var(n@),
            Language::NotVar(n) => LanguageView::NotVar(n@),
            Language::Get => LanguageView::Get,
            Language::Connector => LanguageView::Connector,
            Language::Element(e) => LanguageView::Element(e.deep_view()),
            Language::NotElement(e) => LanguageView::NotElement(e.deep_view()),
            Language::Tri(t) => LanguageView::Tri(t.deep_view()),
            Language::Comp(c) => LanguageView::Comp(c@),
            Language::Empty => LanguageView::Empty,
        }
    }
}

impl Clone for Language {
    fn clone(&self) -> (r: Self)
        ensures
            r == *self,
    {
        match self {
            Language::Var(n) => Language::Var(n.clone()),
            Language::NotVar(n) => Language::NotVar(n.clone()),
            Language::Get => Language::Get,
            Language::Connector => Language::Connector,
            Language::Element(e) => Language::Element(e.clone()),
            Language::NotElement(e) => Language::NotElement(e.clone()),
            Language::Tri(t) => Language::Tri(t.clone()),
            Language::Comp(c) => Language::Comp(c.clone()),
            Language::Empty => Language::Empty,
        }
    }
}

impl Language {
    /// The variable, if this is one that is not negated.
    pub fn get_var(&self) -> (r: Option<Var>)
        ensures
            match r {
                Some(v) => self.deep_view() == LanguageView::Var(v@),
                None => !(self.deep_view() is Var),
            },
    {
        match self {
            Language::Var(s) => Some(Var(s.clone())),
            _ => None,
        }
    }

    /// The comparison, if this is one.
    pub fn get_comp(&self) -> (r: Option<Comp>)
        ensures
            match r {
                Some(c) => self.deep_view() == LanguageView::Comp(c@),
                None => !(self.deep_view() is Comp),
            },
    {
        match self {
            Language::Comp(s) => Some(Comp(s.clone())),
            _ => None,
        }
    }
}

/// The pattern, if this is one.
pub fn extract_triplet(tri: &Language) -> (r: Option<Triplet>)
    ensures
        match r {
            Some(t) => tri.deep_view() == LanguageView::Tri(t.deep_view()),
            None => !(tri.deep_view() is Tri),
        },
{
    match tri {
        Language::Tri(t) => Some(t.clone()),
        _ => None,
    }
}

/// A bar between two commands, with or without a space on either side.
pub open spec fn bar_at(s: Seq<char>, i: int) -> Parsed<(int, int)> {
    if has_prefix_at(s, i, " | "@) {
        Ok((i + " | "@.len(), (i, i + " | "@.len())))
    } else if has_prefix_at(s, i, "| "@) {
        Ok((i + "| "@.len(), (i, i + "| "@.len())))
    } else if has_prefix_at(s, i, " |"@) {
        Ok((i + " |"@.len(), (i, i + " |"@.len())))
    } else if has_prefix_at(s, i, "|"@) {
        Ok((i + "|"@.len(), (i, i + "|"@.len())))
    } else {
        Err((i, ErrorKind::Tag))
    }
}

/// Reads a bar at `i`.
pub(crate) fn read_bar(s: &[char], i: usize) -> (r: Read<(usize, usize)>)
    requires
        i <= s@.len(),
    ensures
        range_model(r) == bar_at(s@, i as int),
        within(r, i as int, s@.len() as int),
        r matches Ok((end, range)) ==> range.0 <= range.1 <= s@.len(),
{
    match tag(s, i, " | ") {
        Ok(e) => Ok((e, (i, e))),
        Err(_) => match tag(s, i, "| ") {
            Ok(e) => Ok((e, (i, e))),
            Err(_) => match tag(s, i, " |") {
                Ok(e) => Ok((e, (i, e))),
                Err(_) => match tag(s, i, "|") {
                    Ok(e) => Ok((e, (i, e))),
                    Err(f) => Err(f),
                },
            },
        },
    }
}

/// Reads a bar at the start of `s`: the rest and the bar, or the failure.
pub fn parse_bar(s: &str) -> (r: Result<(&str, &str), ParseFailure>)
    ensures
        text_view(r) == text_outcome(s@, bar_at(s@, 0)),
{
    let chars = to_chars(s);
    range_result(s, read_bar(chars.as_slice(), 0))
}

/// A variable's name: `$` and a run of letters and digits, or the wildcard
/// `*`.
pub open spec fn variable_or_star_at(s: Seq<char>, i: int) -> Parsed<LanguageView> {
    if has_char_at(s, i, '$') && run_end(s, i + 1, CharClass::AlphaNumeric) > i + 1 {
        Ok(
            (
                run_end(s, i + 1, CharClass::AlphaNumeric),
                LanguageView::Var(s.subrange(i + 1, run_end(s, i + 1, CharClass::AlphaNumeric))),
            ),
        )
    } else if has_prefix_at(s, i, "*"@) {
        Ok((i + "*"@.len(), LanguageView::Var(s.subrange(i, i + "*"@.len()))))
    } else {
        Err((i, ErrorKind::Tag))
    }
}

/// Reads a variable's name at `i`.
fn read_variable_or_star(s: &[char], i: usize) -> (r: Read<Language>)
    requires
        i <= s@.len(),
    ensures
        model_of(r) == variable_or_star_at(s@, i as int),
        within(r, i as int, s@.len() as int),
        r matches Ok((end, read)) ==> i < end,
{
    if i < s.len() && char_is(s, i, '$') {
        let e = scan(s, i + 1, CharClass::AlphaNumeric);
        if e > i + 1 {
            return Ok((e, Language::Var(string_of(s, i + 1, e))));
        }
    }
    proof {
        reveal_strlit("*");
    }
    match tag(s, i, "*") {
        Ok(e) => Ok((e, Language::Var(string_of(s, i, e)))),
        Err(f) => Err(f),
    }
}

/// A variable behind at least one space or tab.
pub open spec fn pure_variable_at(s: Seq<char>, i: int) -> Parsed<LanguageView> {
    if run_end(s, i, CharClass::Space) > i {
        variable_or_star_at(s, run_end(s, i, CharClass::Space))
    } else {
        Err((i, ErrorKind::Space))
    }
}

/// Reads a variable behind spaces at `i`.
fn read_pure_variable(s: &[char], i: usize) -> (r: Read<Language>)
    requires
        i <= s@.len(),
    ensures
        model_of(r) == pure_variable_at(s@, i as int),
        within(r, i as int, s@.len() as int),
        r matches Ok((end, read)) ==> i < end,
{
    let j = scan(s, i, CharClass::Space);
    if j > i {
        read_variable_or_star(s, j)
    } else {
        Err((i, ErrorKind::Space))
    }
}

/// Reads a variable behind spaces at the start of `s`.
pub fn parse_pure_variable(s: &str) -> (r: Result<(&str, Language), ParseFailure>)
    ensures
        parsed_view(r) == outcome(s@, pure_variable_at(s@, 0)),
{
    let chars = to_chars(s);
    value_result(s, read_pure_variable(chars.as_slice(), 0))
}

/// The negation of what a slot parser read.
pub open spec fn negated(read: LanguageView) -> LanguageView {
    match read {
        LanguageView::Var(n) => LanguageView::NotVar(n),
        LanguageView::Element(e) => LanguageView::NotElement(e),
        _ => LanguageView::Empty,
    }
}

/// A variable behind ` not`.
pub open spec fn not_variable_at(s: Seq<char>, i: int) -> Parsed<LanguageView> {
    if has_prefix_at(s, i, " not"@) {
        match pure_variable_at(s, i + " not"@.len()) {
            Ok((end, read)) => Ok((end, negated(read))),
            Err(f) => Err(f),
        }
    } else {
        Err((i, ErrorKind::Tag))
    }
}

/// Reads a variable behind ` not` at `i`.
fn read_not_variable(s: &[char], i: usize) -> (r: Read<Language>)
    requires
        i <= s@.len(),
    ensures
        model_of(r) == not_variable_at(s@, i as int),
        within(r, i as int, s@.len() as int),
        r matches Ok((end, read)) ==> i < end,
{
    match tag(s, i, " not") {
        Ok(j) => match read_pure_variable(s, j) {
            Ok((end, Language::Var(n))) => Ok((end, Language::NotVar(n))),
            Ok((end, _)) => Ok((end, Language::Empty)),
            Err(f) => Err(f),
        },
        Err(f) => Err(f),
    }
}

/// A variable, negated or not.
pub open spec fn variable_at(s: Seq<char>, i: int) -> Parsed<LanguageView> {
    match not_variable_at(s, i) {
        Ok(read) => Ok(read),
        Err(_) => pure_variable_at(s, i),
    }
}

/// Reads a variable, negated or not, at `i`.
pub(crate) fn read_variable(s: &[char], i: usize) -> (r: Read<Language>)
    requires
        i <= s@.len(),
    ensures
        model_of(r) == variable_at(s@, i as int),
        within(r, i as int, s@.len() as int),
        r matches Ok((end, read)) ==> i < end,
{
    match read_not_variable(s, i) {
        Ok(read) => Ok(read),
        Err(_) => read_pure_variable(s, i),
    }
}

/// Reads a variable, negated or not, at the start of `s`.
pub fn parse_variable(s: &str) -> (r: Result<(&str, Language), ParseFailure>)
    ensures
        parsed_view(r) == outcome(s@, variable_at(s@, 0)),
{
    let chars = to_chars(s);
    value_result(s, read_variable(chars.as_slice(), 0))
}

/// A term: a run of letters, digits and underscores.
pub open spec fn term_at(s: Seq<char>, i: int) -> Parsed<ElementView> {
    if run_end(s, i, CharClass::Word) > i {
        Ok((run_end(s, i, CharClass::Word), ElementView::Term(s.subrange(i, run_end(s, i, CharClass::Word)))))
    } else {
        Err((i, ErrorKind::OneOf))
    }
}

/// Reads a run of letters, digits and underscores at `i`.
fn alpha_num_underscore(s: &[char], i: usize) -> (r: Read<String>)
    requires
        i <= s@.len(),
    ensures
        match r {
            Ok((end, text)) => term_at(s@, i as int) == Ok::<_, (int, ErrorKind)>(
                (end as int, ElementView::Term(text@)),
            ),
            Err(f) => term_at(s@, i as int) == Err::<(int, ElementView), _>((f.0 as int, f.1)),
        },
        within(r, i as int, s@.len() as int),
{
    let e = scan(s, i, CharClass::Word);
    if e > i {
        Ok((e, string_of(s, i, e)))
    } else {
        Err((i, ErrorKind::OneOf))
    }
}

/// Reads a term at `i`.
fn read_term(s: &[char], i: usize) -> (r: Read<Element>)
    requires
        i <= s@.len(),
    ensures
        model_of(r) == term_at(s@, i as int),
        within(r, i as int, s@.len() as int),
        r matches Ok((end, read)) ==> i < end,
{
    match alpha_num_underscore(s, i) {
        Ok((end, text)) => Ok((end, Element::Term(text))),
        Err(f) => Err(f),
    }
}

/// Reads a term at the start of `s`.
pub fn parse_term(s: &str) -> (r: Result<(&str, Element), ParseFailure>)
    ensures
        parsed_view(r) == outcome(s@, term_at(s@, 0)),
{
    let chars = to_chars(s);
    value_result(s, read_term(chars.as_slice(), 0))
}

/// A quoted term: at least one character between single quotes, none of
/// them a quote.
pub open spec fn string_at(s: Seq<char>, i: int) -> Parsed<ElementView> {
    if !has_prefix_at(s, i, "'"@) {
        Err((i, ErrorKind::Tag))
    } else if run_end(s, i + "'"@.len(), CharClass::Unquoted) <= i + "'"@.len() {
        Err((i + "'"@.len(), ErrorKind::NoneOf))
    } else if !has_prefix_at(s, run_end(s, i + "'"@.len(), CharClass::Unquoted), "'"@) {
        Err((run_end(s, i + "'"@.len(), CharClass::Unquoted), ErrorKind::Tag))
    } else {
        Ok(
            (
                run_end(s, i + "'"@.len(), CharClass::Unquoted) + "'"@.len(),
                ElementView::String(
                    s.subrange(i + "'"@.len(), run_end(s, i + "'"@.len(), CharClass::Unquoted)),
                ),
            ),
        )
    }
}

/// Reads what stands between two quotes: at least one character.
fn string_content(s: &[char], i: usize) -> (r: Read<String>)
    requires
        i <= s@.len(),
    ensures
        match r {
            Ok((end, text)) => end == run_end(s@, i as int, CharClass::Unquoted) && end > i
                && text@ == s@.subrange(i as int, end as int),
            Err(f) => run_end(s@, i as int, CharClass::Unquoted) <= i && f == (
                i,
                ErrorKind::NoneOf,
            ),
        },
        within(r, i as int, s@.len() as int),
{
    let e = scan(s, i, CharClass::Unquoted);
    if e > i {
        Ok((e, string_of(s, i, e)))
    } else {
        Err((i, ErrorKind::NoneOf))
    }
}

/// Reads a quoted term at `i`.
fn read_string(s: &[char], i: usize) -> (r: Read<Element>)
    requires
        i <= s@.len(),
    ensures
        model_of(r) == string_at(s@, i as int),
        within(r, i as int, s@.len() as int),
        r matches Ok((end, read)) ==> i < end,
{
    match tag(s, i, "'") {
        Ok(j) => match string_content(s, j) {
            Ok((e, text)) => match tag(s, e, "'") {
                Ok(end) => Ok((end, Element::String(text))),
                Err(f) => Err(f),
            },
            Err(f) => Err(f),
        },
        Err(f) => Err(f),
    }
}

/// A bound term behind any number of spaces, tabs and line ends.
pub open spec fn pure_element_at(s: Seq<char>, i: int) -> Parsed<LanguageView> {
    match term_at(s, run_end(s, i, CharClass::MultiSpace)) {
        Ok((end, e)) => Ok((end, LanguageView::Element(e))),
        Err(_) => match string_at(s, run_end(s, i, CharClass::MultiSpace)) {
            Ok((end, e)) => Ok((end, LanguageView::Element(e))),
            Err(f) => Err(f),
        },
    }
}

/// Reads a bound term behind white space at `i`.
fn read_pure_element(s: &[char], i: usize) -> (r: Read<Language>)
    requires
        i <= s@.len(),
    ensures
        model_of(r) == pure_element_at(s@, i as int),
        within(r, i as int, s@.len() as int),
        r matches Ok((end, read)) ==> i < end,
{
    let j = scan(s, i, CharClass::MultiSpace);
    match read_term(s, j) {
        Ok((end, e)) => Ok((end, Language::Element(e))),
        Err(_) => match read_string(s, j) {
            Ok((end, e)) => Ok((end, Language::Element(e))),
            Err(f) => Err(f),
        },
    }
}

/// A bound term behind ` not`.
pub open spec fn not_element_at(s: Seq<char>, i: int) -> Parsed<LanguageView> {
    if has_prefix_at(s, i, " not"@) {
        match pure_element_at(s, i + " not"@.len()) {
            Ok((end, read)) => Ok((end, negated(read))),
            Err(f) => Err(f),
        }
    } else {
        Err((i, ErrorKind::Tag))
    }
}

/// Reads a bound term behind ` not` at `i`.
fn read_not_element(s: &[char], i: usize) -> (r: Read<Language>)
    requires
        i <= s@.len(),
    ensures
        model_of(r) == not_element_at(s@, i as int),
        within(r, i as int, s@.len() as int),
        r matches Ok((end, read)) ==> i < end,
{
    match tag(s, i, " not") {
        Ok(j) => match read_pure_element(s, j) {
            Ok((end, Language::Element(e))) => Ok((end, Language::NotElement(e))),
            Ok((end, _)) => Ok((end, Language::Empty)),
            Err(f) => Err(f),
        },
        Err(f) => Err(f),
    }
}

/// A bound term, negated or not.
pub open spec fn element_at(s: Seq<char>, i: int) -> Parsed<LanguageView> {
    match not_element_at(s, i) {
        Ok(read) => Ok(read),
        Err(_) => pure_element_at(s, i),
    }
}

/// Reads a bound term, negated or not, at `i`.
fn read_element(s: &[char], i: usize) -> (r: Read<Language>)
    requires
        i <= s@.len(),
    ensures
        model_of(r) == element_at(s@, i as int),
        within(r, i as int, s@.len() as int),
        r matches Ok((end, read)) ==> i < end,
{
    match read_not_element(s, i) {
        Ok(read) => Ok(read),
        Err(_) => read_pure_element(s, i),
    }
}

/// Reads a bound term, negated or not, at the start of `s`.
pub fn parse_element(s: &str) -> (r: Result<(&str, Language), ParseFailure>)
    ensures
        parsed_view(r) == outcome(s@, element_at(s@, 0)),
{
    let chars = to_chars(s);
    value_result(s, read_element(chars.as_slice(), 0))
}

/// One slot: a variable where `free`, else a bound term.
pub open spec fn slot_at(s: Seq<char>, i: int, free: bool) -> Parsed<LanguageView> {
    if free {
        variable_at(s, i)
    } else {
        element_at(s, i)
    }
}

/// Three slots in a row; `shape` tells which of them are variables.
pub open spec fn slots_at(s: Seq<char>, i: int, shape: (bool, bool, bool)) -> Parsed<
    (LanguageView, LanguageView, LanguageView),
> {
    match slot_at(s, i, shape.0) {
        Err(f) => Err(f),
        Ok((e1, first)) => match slot_at(s, e1, shape.1) {
            Err(f) => Err(f),
            Ok((e2, second)) => match slot_at(s, e2, shape.2) {
                Err(f) => Err(f),
                Ok((e3, third)) => Ok((e3, (first, second, third))),
            },
        },
    }
}

/// Reads three slots in a row at `i`.
fn read_slots(s: &[char], i: usize, shape: (bool, bool, bool)) -> (r: Read<
    (Language, Language, Language),
>)
    requires
        i <= s@.len(),
    ensures
        model_of(r) == slots_at(s@, i as int, shape),
        within(r, i as int, s@.len() as int),
        r matches Ok((end, read)) ==> i < end,
{
    let first = if shape.0 {
        read_variable(s, i)
    } else {
        read_element(s, i)
    };
    match first {
        Err(f) => Err(f),
        Ok((e1, a)) => {
            let second = if shape.1 {
                read_variable(s, e1)
            } else {
                read_element(s, e1)
            };
            match second {
                Err(f) => Err(f),
                Ok((e2, b)) => {
                    let third = if shape.2 {
                        read_variable(s, e2)
                    } else {
                        read_element(s, e2)
                    };
                    match third {
                        Err(f) => Err(f),
                        Ok((e3, c)) => Ok((e3, (a, b, c))),
                    }
                },
            }
        },
    }
}

/// The eight shapes of a pattern, in the order in which they are tried: the
/// shape without variables first, then those with one, with two, with three.
pub open spec fn shape_of(k: int) -> (bool, bool, bool) {
    if k == 0 {
        (false, false, false)
    } else if k == 1 {
        (true, false, false)
    } else if k == 2 {
        (false, true, false)
    } else if k == 3 {
        (false, false, true)
    } else if k == 4 {
        (true, true, false)
    } else if k == 5 {
        (true, false, true)
    } else if k == 6 {
        (false, true, true)
    } else {
        (true, true, true)
    }
}

/// The shape of rank `k`.
fn shape(k: usize) -> (r: (bool, bool, bool))
    ensures
        r == shape_of(k as int),
{
    if k == 0 {
        (false, false, false)
    } else if k == 1 {
        (true, false, false)
    } else if k == 2 {
        (false, true, false)
    } else if k == 3 {
        (false, false, true)
    } else if k == 4 {
        (true, true, false)
    } else if k == 5 {
        (true, false, true)
    } else if k == 6 {
        (false, true, true)
    } else {
        (true, true, true)
    }
}

/// The first of the shapes from rank `k` on that matches at `i`; the failure
/// of the last shape if none does.
pub open spec fn shapes_at(s: Seq<char>, i: int, k: int) -> Parsed<
    (LanguageView, LanguageView, LanguageView),
>
    decreases 7 - k,
{
    if k >= 7 {
        slots_at(s, i, shape_of(7))
    } else {
        match slots_at(s, i, shape_of(k)) {
            Ok(read) => Ok(read),
            Err(_) => shapes_at(s, i, k + 1),
        }
    }
}

/// What a slot holds: whether it is negated, and its content.
pub open spec fn slot_of(read: LanguageView) -> Option<(bool, SlotView)> {
    match read {
        LanguageView::Var(n) => Some((false, SlotView::Free(n))),
        LanguageView::NotVar(n) => Some((true, SlotView::Free(n))),
        LanguageView::Element(e) => Some((false, SlotView::Bound(e.text()))),
        LanguageView::NotElement(e) => Some((true, SlotView::Bound(e.text()))),
        _ => None,
    }
}

/// The pattern that three slots make: negated if one of them is, and
/// nothing at all if more than one is.
pub open spec fn triplet_of(read: (LanguageView, LanguageView, LanguageView)) -> LanguageView {
    match (slot_of(read.0), slot_of(read.1), slot_of(read.2)) {
        (Some(a), Some(b), Some(c)) => {
            if (a.0 && b.0) || (a.0 && c.0) || (b.0 && c.0) {
                LanguageView::Empty
            } else {
                LanguageView::Tri(
                    TripletView::Pattern {
                        negated: a.0 || b.0 || c.0,
                        subject: a.1,
                        relation: b.1,
                        object: c.1,
                    },
                )
            }
        },
        _ => LanguageView::Empty,
    }
}

/// What a slot holds, if it is one.
fn slot_from(read: Language) -> (r: Option<(bool, Slot)>)
    ensures
        match r {
            Some(x) => slot_of(read.deep_view()) == Some((x.0, x.1.deep_view())),
            None => slot_of(read.deep_view()) is None,
        },
{
    match read {
        Language::Var(n) => Some((false, Slot::Free(n))),
        Language::NotVar(n) => Some((true, Slot::Free(n))),
        Language::Element(e) => Some((false, Slot::Bound(e.into_text()))),
        Language::NotElement(e) => Some((true, Slot::Bound(e.into_text()))),
        _ => None,
    }
}

/// The pattern that three slots make.
fn triplet_from(read: (Language, Language, Language)) -> (r: Language)
    ensures
        r.deep_view() == triplet_of(
            (read.0.deep_view(), read.1.deep_view(), read.2.deep_view()),
        ),
{
    match (slot_from(read.0), slot_from(read.1), slot_from(read.2)) {
        (Some(a), Some(b), Some(c)) => {
            if (a.0 && b.0) || (a.0 && c.0) || (b.0 && c.0) {
                Language::Empty
            } else {
                Language::Tri(Triplet::from_slots(a.0 || b.0 || c.0, a.1, b.1, c.1))
            }
        },
        _ => Language::Empty,
    }
}

/// A pattern: three slots, of the first shape that matches.
pub open spec fn triplet_at(s: Seq<char>, i: int) -> Parsed<LanguageView> {
    match shapes_at(s, i, 0) {
        Ok((end, read)) => Ok((end, triplet_of(read))),
        Err(f) => Err(f),
    }
}

/// Reads a pattern at `i`.
pub(crate) fn read_triplet(s: &[char], i: usize) -> (r: Read<Language>)
    requires
        i <= s@.len(),
    ensures
        model_of(r) == triplet_at(s@, i as int),
        within(r, i as int, s@.len() as int),
        r matches Ok((end, read)) ==> i < end,
{
    let mut k: usize = 0;
    while k < 7
        invariant
            k <= 7,
            i <= s@.len(),
            shapes_at(s@, i as int, 0) == shapes_at(s@, i as int, k as int),
        decreases 7 - k,
    {
        match read_slots(s, i, shape(k)) {
            Ok((end, read)) => {
                return Ok((end, triplet_from(read)));
            },
            Err(_) => {},
        }
        k = k + 1;
    }
    match read_slots(s, i, shape(7)) {
        Ok((end, read)) => Ok((end, triplet_from(read))),
        Err(f) => Err(f),
    }
}

/// Reads a pattern at the start of `s`: the rest of the input and the
/// pattern, or the failure.
pub fn parse_triplet(s: &str) -> (r: Result<(&str, Language), ParseFailure>)
    ensures
        parsed_view(r) == outcome(s@, triplet_at(s@, 0)),
{
    let chars = to_chars(s);
    value_result(s, read_triplet(chars.as_slice(), 0))
}

/// A pattern, and the ` and` behind it if there is one.
pub open spec fn triplet_and_at(s: Seq<char>, i: int) -> Parsed<LanguageView> {
    match triplet_at(s, i) {
        Ok((end, read)) => if has_prefix_at(s, end, " and"@) {
            Ok((end + " and"@.len(), read))
        } else {
            Ok((end, read))
        },
        Err(f) => Err(f),
    }
}

/// Reads a pattern and the ` and` behind it at `i`.
pub(crate) fn read_triplet_and(s: &[char], i: usize) -> (r: Read<Language>)
    requires
        i <= s@.len(),
    ensures
        model_of(r) == triplet_and_at(s@, i as int),
        within(r, i as int, s@.len() as int),
        r matches Ok((end, read)) ==> i < end,
{
    match read_triplet(s, i) {
        Ok((end, read)) => match tag(s, end, " and") {
            Ok(after) => Ok((after, read)),
            Err(_) => Ok((end, read)),
        },
        Err(f) => Err(f),
    }
}

/// Reads a pattern and the ` and` behind it at the start of `s`.
pub fn parse_triplet_and(s: &str) -> (r: Result<(&str, Language), ParseFailure>)
    ensures
        parsed_view(r) == outcome(s@, triplet_and_at(s@, 0)),
{
    let chars = to_chars(s);
    value_result(s, read_triplet_and(chars.as_slice(), 0))
}

/// The pattern that was read, if it is one: what is read where more than
/// one slot is negated is dropped.
pub open spec fn kept_triplet(read: LanguageView) -> Seq<TripletView> {
    match read {
        LanguageView::Tri(t) => seq![t],
        _ => Seq::empty(),
    }
}

/// The patterns that follow one another from `i` on, and where they end.
pub open spec fn more_triplets_at(s: Seq<char>, i: int) -> (int, Seq<TripletView>)
    decreases s.len() - i,
{
    match triplet_and_at(s, i) {
        Ok((end, read)) => if i < end <= s.len() {
            (more_triplets_at(s, end).0, kept_triplet(read) + more_triplets_at(s, end).1)
        } else {
            (i, Seq::empty())
        },
        Err(_) => (i, Seq::empty()),
    }
}

/// One pattern or more, each but the last followed by ` and`.
pub open spec fn triplets_at(s: Seq<char>, i: int) -> Parsed<Seq<TripletView>> {
    match triplet_and_at(s, i) {
        Ok(_) => Ok(more_triplets_at(s, i)),
        Err(f) => Err(f),
    }
}

/// Reads one pattern or more at `i`.
pub(crate) fn read_triplets(s: &[char], i: usize) -> (r: Read<Vec<Triplet>>)
    requires
        i <= s@.len(),
    ensures
        model_of(r) == triplets_at(s@, i as int),
        within(r, i as int, s@.len() as int),
        r matches Ok((end, read)) ==> i < end,
{
    let mut out: Vec<Triplet> = Vec::new();
    let mut at: usize = i;
    match read_triplet_and(s, i) {
        Err(f) => {
            return Err(f);
        },
        Ok((end, read)) => {
            match extract_triplet(&read) {
                Some(t) => {
                    out.push(t);
                },
                None => {},
            }
            assert(out.deep_view() =~= kept_triplet(read.deep_view()));
            at = end;
        },
    }
    let mut done = false;
    while !done
        invariant
            i < at <= s@.len(),
            more_triplets_at(s@, i as int) == (
                more_triplets_at(s@, at as int).0,
                out.deep_view() + more_triplets_at(s@, at as int).1,
            ),
            done ==> more_triplets_at(s@, at as int) == (at as int, Seq::<TripletView>::empty()),
        decreases s@.len() - at + (if done { 0int } else { 1int }),
    {
        match read_triplet_and(s, at) {
            Err(_) => {
                done = true;
            },
            Ok((end, read)) => {
                let ghost before = out.deep_view();
                match extract_triplet(&read) {
                    Some(t) => {
                        out.push(t);
                    },
                    None => {},
                }
                assert(out.deep_view() =~= before + kept_triplet(read.deep_view()));
                assert(before + (kept_triplet(read.deep_view()) + more_triplets_at(
                    s@,
                    end as int,
                ).1) =~= (before + kept_triplet(read.deep_view())) + more_triplets_at(
                    s@,
                    end as int,
                ).1);
                at = end;
            },
        }
    }
    assert(out.deep_view() + Seq::<TripletView>::empty() =~= out.deep_view());
    Ok((at, out))
}

/// What a term is read as: a plain term as a run of word characters, any
/// other as what stands between quotes.
pub open spec fn element_of(t: Seq<char>) -> ElementView {
    if is_plain(t) {
        ElementView::Term(t)
    } else {
        ElementView::String(t)
    }
}

/// Whether a pattern can be read back from its canonical text: it is a
/// fact, negated or not, and each of its three terms is not empty and
/// holds no single quote.
pub open spec fn readable_fact(p: TripletView) -> bool {
    &&& p.is_ground()
    &&& writable(p.texts().0)
    &&& writable(p.texts().1)
    &&& writable(p.texts().2)
}

/// Whether the term `t` is written in `s` at `i` and ends there: at the end
/// of `s` or before a space.
pub open spec fn term_stands_at(s: Seq<char>, i: int, t: Seq<char>) -> bool {
    &&& writable(t)
    &&& has_prefix_at(s, i, written(t))
    &&& (i + written(t).len() == s.len() || s[i + written(t).len()] == ' ')
}

/// A term that is written at `i` is read there as a bound term, with no
/// white space before it and no negation.
pub proof fn lemma_term_read(s: Seq<char>, i: int, t: Seq<char>)
    requires
        term_stands_at(s, i, t),
    ensures
        pure_element_at(s, i) == Ok::<_, (int, ErrorKind)>(
            (i + written(t).len(), LanguageView::Element(element_of(t))),
        ),
        run_end(s, i, CharClass::MultiSpace) == i,
        0 <= i < s.len(),
        s[i] != ' ',
        is_plain(t) ==> s[i] == t[0],
        !is_plain(t) ==> s[i] == '\'',
{
    reveal_strlit("\'");
    let w = written(t);
    let j = i + w.len();
    assert(s.subrange(i, j)[0] == w[0]);
    if is_plain(t) {
        assert forall|k: int| i <= k < j implies CharClass::Word.holds(#[trigger] s[k]) by {
            assert(s.subrange(i, j)[k - i] == t[k - i]);
            assert(CharClass::Word.holds(t[k - i]));
        }
        assert(!CharClass::Word.holds(' '));
        lemma_run_to(s, i, j, CharClass::Word);
        assert(CharClass::Word.holds(t[0]));
        assert(!CharClass::MultiSpace.holds(s[i]));
        lemma_run_to(s, i, i, CharClass::MultiSpace);
        assert(s.subrange(i, j) =~= t);
    } else {
        assert(w.len() == t.len() + 2);
        assert(w[0] == '\'');
        assert(s[i] == '\'');
        assert(!CharClass::Word.holds('\''));
        assert(!CharClass::MultiSpace.holds('\''));
        lemma_run_to(s, i, i, CharClass::Word);
        lemma_run_to(s, i, i, CharClass::MultiSpace);
        assert(s.subrange(i, i + 1) =~= "\'"@);
        assert forall|k: int| i + 1 <= k < j - 1 implies CharClass::Unquoted.holds(
            #[trigger] s[k],
        ) by {
            assert(s.subrange(i, j)[k - i] == w[k - i]);
            assert(w[k - i] == t[k - i - 1]);
        }
        assert(s.subrange(i, j)[w.len() - 1] == w[w.len() - 1]);
        assert(s[j - 1] == '\'');
        lemma_run_to(s, i + 1, j - 1, CharClass::Unquoted);
        assert(s.subrange(j - 1, j) =~= "\'"@);
        assert(s.subrange(i + 1, j - 1) =~= t) by {
            assert forall|k: int| 0 <= k < t.len() implies s.subrange(i + 1, j - 1)[k] == t[k] by {
                assert(s.subrange(i, j)[k + 1] == w[k + 1]);
            }
        }
    }
}

/// A term that is written behind one space is read from that space as a
/// bound term.
pub proof fn lemma_element_read_next(s: Seq<char>, i: int, t: Seq<char>)
    requires
        0 <= i < s.len(),
        s[i] == ' ',
        term_stands_at(s, i + 1, t),
    ensures
        pure_element_at(s, i) == Ok::<_, (int, ErrorKind)>(
            (i + 1 + written(t).len(), LanguageView::Element(element_of(t))),
        ),
        element_at(s, i) == pure_element_at(s, i),
{
    reveal_strlit(" not");
    reveal_strlit("not");
    lemma_term_read(s, i + 1, t);
    assert(!CharClass::MultiSpace.holds(s[i + 1])) by {
        if is_plain(t) {
            assert(CharClass::Word.holds(t[0]));
        }
    }
    lemma_run_to(s, i, i + 1, CharClass::MultiSpace);
    assert(!has_prefix_at(s, i, " not"@)) by {
        if has_prefix_at(s, i, " not"@) {
            let u = s.subrange(i, i + 4);
            assert(u[1] == 'n' && u[2] == 'o' && u[3] == 't');
            assert(s[i + 1] == 'n' && s[i + 2] == 'o' && s[i + 3] == 't');
            assert(is_plain(t));
            assert(!CharClass::Word.holds(' '));
            if t.len() >= 3 {
                let v = s.subrange(i + 1, i + 1 + t.len());
                assert(v[0] == t[0] && v[1] == t[1] && v[2] == t[2]);
                assert(t.subrange(0, 3) =~= "not"@);
            }
        }
    }
}

/// A term that is written behind ` not ` is read from there as a negated
/// bound term.
pub proof fn lemma_not_element_read(s: Seq<char>, i: int, t: Seq<char>)
    requires
        has_prefix_at(s, i, " not "@),
        term_stands_at(s, i + 5, t),
    ensures
        element_at(s, i) == Ok::<_, (int, ErrorKind)>(
            (i + 5 + written(t).len(), LanguageView::NotElement(element_of(t))),
        ),
{
    reveal_strlit(" not");
    reveal_strlit(" not ");
    let u = s.subrange(i, i + 5);
    assert(u[0] == ' ' && u[1] == 'n' && u[2] == 'o' && u[3] == 't' && u[4] == ' ');
    assert(s.subrange(i, i + 4) =~= " not"@) by {
        assert forall|k: int| 0 <= k < 4 implies s.subrange(i, i + 4)[k] == " not"@[k] by {
            assert(u[k] == s[i + k]);
        }
    }
    assert(s[i + 4] == ' ');
    lemma_element_read_next(s, i + 4, t);
}

/// A term that is written at the start of a text is read there as a bound
/// term.
pub proof fn lemma_element_read_first(s: Seq<char>, t: Seq<char>)
    requires
        term_stands_at(s, 0, t),
    ensures
        element_at(s, 0) == Ok::<_, (int, ErrorKind)>(
            (written(t).len() as int, LanguageView::Element(element_of(t))),
        ),
{
    reveal_strlit(" not");
    lemma_term_read(s, 0, t);
    assert(!has_prefix_at(s, 0, " not"@)) by {
        if has_prefix_at(s, 0, " not"@) {
            assert(s.subrange(0, 4)[0] == ' ');
        }
    }
}

/// Where three texts stand in the text made of a lead, the three texts and
/// a space between each two of them.
pub proof fn lemma_three_texts(lead: Seq<char>, a: Seq<char>, b: Seq<char>, c: Seq<char>)
    ensures
        ({
            let s = lead + a + " "@ + b + " "@ + c;
            let n1: int = (lead.len() + a.len()) as int;
            let n2: int = n1 + 1 + b.len();
            let n3: int = n2 + 1 + c.len();
            &&& s.len() == n3
            &&& has_prefix_at(s, 0, lead)
            &&& has_prefix_at(s, lead.len() as int, a)
            &&& s[n1] == ' '
            &&& has_prefix_at(s, n1 + 1, b)
            &&& s[n2] == ' '
            &&& has_prefix_at(s, n2 + 1, c)
        }),
{
    reveal_strlit(" ");
    let s = lead + a + " "@ + b + " "@ + c;
    let n1: int = (lead.len() + a.len()) as int;
    let n2: int = n1 + 1 + b.len();
    let n3: int = n2 + 1 + c.len();
    assert(s.len() == n3);
    assert(s.subrange(0, lead.len() as int) =~= lead);
    assert(s.subrange(lead.len() as int, n1) =~= a);
    assert(s.subrange(n1 + 1, n2) =~= b);
    assert(s.subrange(n2 + 1, n3) =~= c);
}

/// The three slots that are read from a text where three terms are
/// written with a space between each two of them, behind ` not ` or behind
/// nothing.
pub proof fn lemma_slots_read(
    s: Seq<char>,
    negated: bool,
    a: Seq<char>,
    b: Seq<char>,
    c: Seq<char>,
)
    requires
        writable(a),
        writable(b),
        writable(c),
        s == (if negated {
            " not "@
        } else {
            Seq::<char>::empty()
        }) + written(a) + " "@ + written(b) + " "@ + written(c),
    ensures
        slots_at(s, 0, (false, false, false)) == Ok::<_, (int, ErrorKind)>(
            (
                s.len() as int,
                (
                    if negated {
                        LanguageView::NotElement(element_of(a))
                    } else {
                        LanguageView::Element(element_of(a))
                    },
                    LanguageView::Element(element_of(b)),
                    LanguageView::Element(element_of(c)),
                ),
            ),
        ),
{
    let lead = if negated {
        " not "@
    } else {
        Seq::<char>::empty()
    };
    let n1: int = (lead.len() + written(a).len()) as int;
    let n2: int = n1 + 1 + written(b).len();
    let n3: int = n2 + 1 + written(c).len();
    lemma_three_texts(lead, written(a), written(b), written(c));
    assert(lead.len() == if negated { 5int } else { 0int }) by {
        reveal_strlit(" not ");
    }
    let first = if negated {
        LanguageView::NotElement(element_of(a))
    } else {
        LanguageView::Element(element_of(a))
    };
    assert(term_stands_at(s, lead.len() as int, a));
    assert(term_stands_at(s, n1 + 1, b));
    assert(term_stands_at(s, n2 + 1, c));
    assert(element_at(s, 0) == Ok::<_, (int, ErrorKind)>((n1, first))) by {
        if negated {
            lemma_not_element_read(s, 0, a);
        } else {
            lemma_element_read_first(s, a);
        }
    }
    assert(element_at(s, n1) == Ok::<_, (int, ErrorKind)>(
        (n2, LanguageView::Element(element_of(b))),
    )) by {
        lemma_element_read_next(s, n1, b);
    }
    assert(element_at(s, n2) == Ok::<_, (int, ErrorKind)>(
        (n3, LanguageView::Element(element_of(c))),
    )) by {
        lemma_element_read_next(s, n2, c);
    }
}

/// The canonical text of a fact, written out term by term.
pub proof fn lemma_fact_text(p: TripletView)
    requires
        readable_fact(p),
    ensures
        p.rendered() == (if p.is_negated() {
            " not "@
        } else {
            Seq::<char>::empty()
        }) + written(p.texts().0) + " "@ + written(p.texts().1) + " "@ + written(p.texts().2),
        p == (TripletView::Pattern {
            negated: p.is_negated(),
            subject: SlotView::Bound(p.texts().0),
            relation: SlotView::Bound(p.texts().1),
            object: SlotView::Bound(p.texts().2),
        }),
{
    let lead = if p.is_negated() {
        " not "@
    } else {
        Seq::<char>::empty()
    };
    assert(p.rendered() =~= lead + written(p.texts().0) + " "@ + written(p.texts().1) + " "@
        + written(p.texts().2));
}

/// The pattern that is read where three bound terms are read one behind
/// the other, the first of them negated or not.
pub proof fn lemma_pattern_of_slots(
    s: Seq<char>,
    end: int,
    negated: bool,
    a: Seq<char>,
    b: Seq<char>,
    c: Seq<char>,
)
    requires
        slots_at(s, 0, (false, false, false)) == Ok::<_, (int, ErrorKind)>(
            (
                end,
                (
                    if negated {
                        LanguageView::NotElement(element_of(a))
                    } else {
                        LanguageView::Element(element_of(a))
                    },
                    LanguageView::Element(element_of(b)),
                    LanguageView::Element(element_of(c)),
                ),
            ),
        ),
    ensures
        triplet_at(s, 0) == Ok::<_, (int, ErrorKind)>(
            (
                end,
                LanguageView::Tri(
                    TripletView::Pattern {
                        negated,
                        subject: SlotView::Bound(a),
                        relation: SlotView::Bound(b),
                        object: SlotView::Bound(c),
                    },
                ),
            ),
        ),
{
    assert(shape_of(0) == (false, false, false));
    assert(shapes_at(s, 0, 0) == slots_at(s, 0, shape_of(0)));
    assert(element_of(a).text() == a && element_of(b).text() == b && element_of(c).text() == c);
}

/// Reading the canonical text of a fact, negated or not, gives the fact
/// back, and leaves nothing of the text unread.
pub proof fn lemma_round_trip(p: TripletView)
    requires
        readable_fact(p),
    ensures
        triplet_at(p.rendered(), 0) == Ok::<_, (int, ErrorKind)>(
            (p.rendered().len() as int, LanguageView::Tri(p)),
        ),
        outcome(p.rendered(), triplet_at(p.rendered(), 0)) == Ok::<_, (Seq<char>, ErrorKind)>(
            (Seq::<char>::empty(), LanguageView::Tri(p)),
        ),
{
    let s = p.rendered();
    lemma_fact_text(p);
    lemma_slots_read(s, p.is_negated(), p.texts().0, p.texts().1, p.texts().2);
    lemma_pattern_of_slots(
        s,
        s.len() as int,
        p.is_negated(),
        p.texts().0,
        p.texts().1,
        p.texts().2,
    );
    assert(s.subrange(s.len() as int, s.len() as int) =~= Seq::<char>::empty());
}

} // verus!
