//! The parser of whole inputs: commands separated by bars, and rules.
use crate::base_parser::{bar_at, read_bar, AstView, CommandType, PredicatAST};
pub use crate::base_parser::{parse_bar, Language, Triplet};
use crate::context_traits::Context;
use crate::grammar::{
    failure, model_of, outcome, parsed_view, tag, value_result, within, ErrorKind, ParseFailure,
    Parsed, Read,
};
use crate::parse_modifier::{modifier_at, read_modifier};
use crate::parse_query::{query_at, read_query};
use crate::simple_context::{clone_strings, SimpleContext};
use crate::sorting::{first_occurrences, unique};
use crate::text::{has_prefix_at, string_of, to_chars};
use crate::triplet::TripletView;
use regex::Regex;
use vstd::prelude::*;
use vstd::string::*;

verus! {

/// A context that carries the commands that follow from it.
pub trait ContextCMD: Sized {
    /// The commands that the context carries.
    spec fn commands(&self) -> Seq<Seq<char>>;

    /// A copy of the commands that the context carries.
    fn get_aftercmds(&self) -> (r: Vec<String>)
        ensures
            r.deep_view() == self.commands(),
    ;

    /// The context with more commands behind those that it carries.
    fn add_aftercmd(self, aftcmd: &[String]) -> (r: Self)
        ensures
            r.commands() == self.commands() + aftcmd.deep_view(),
    ;
}

impl ContextCMD for SimpleContext {
    open spec fn commands(&self) -> Seq<Seq<char>> {
        self.cmds.deep_view()
    }

    fn add_aftercmd(self, aftcmd: &[String]) -> (r: SimpleContext)
        ensures
            r.tab@ == self.tab@,
            r.log.deep_view() == self.log.deep_view(),
    {
        let ghost base = self.cmds.deep_view();
        let mut cmds = self.cmds;
        let mut i: usize = 0;
        while i < aftcmd.len()
            invariant
                i <= aftcmd.len(),
                cmds.len() == base.len() + i,
                forall|k: int| 0 <= k < base.len() ==> (#[trigger] cmds@[k])@ == base[k],
                forall|k: int| 0 <= k < i ==> (#[trigger] cmds@[base.len() + k])@ == aftcmd@[k]@,
            decreases aftcmd.len() - i,
        {
            cmds.push(aftcmd[i].clone());
            i = i + 1;
        }
        assert(cmds.deep_view() =~= base + aftcmd.deep_view()) by {
            assert forall|k: int| 0 <= k < cmds.deep_view().len() implies cmds.deep_view()[k] == (
                base + aftcmd.deep_view())[k] by {
                if k >= base.len() {
                    assert(cmds@[base.len() + (k - base.len())]@ == aftcmd@[k - base.len()]@);
                }
            }
        }
        SimpleContext { tab: self.tab, cmds, log: self.log }
    }

    fn get_aftercmds(&self) -> (r: Vec<String>) {
        clone_strings(&self.cmds)
    }
}

/// The command language needs no preparation: the text itself.
pub fn soft_predicat(s: &str) -> (r: &str)
    ensures
        r@ == s@,
{
    s
}

/// An error of the `regex` crate.
#[verifier::external_type_specification]
#[verifier::external_body]
pub struct ExRegexError(regex::Error);

/// The pattern of a variable in a command: the marker `$` and, as the group
/// `variable`, the one character of a word behind it.
pub open spec fn variable_pattern() -> Seq<char> {
    "\\$(?P<variable>\\w)"@
}

/// What the `regex` crate finds in a text for a pattern: for each match of
/// the pattern, in order, the text of the group of the given name, where
/// the match has such a group. Nothing where the crate refuses the pattern.
pub uninterp spec fn groups_found(pattern: Seq<char>, group: Seq<char>, text: Seq<char>) -> Option<
    Seq<Option<Seq<char>>>,
>;

/// `regex::Regex::new`, `Regex::captures_iter` and `Captures::name`, for
/// the pattern of a variable: the texts of a named group in the matches of
/// the pattern, match after match, or the error of the crate if it refuses
/// the pattern. What comes back depends on the three texts alone; it is
/// known as [`groups_found`].
#[verifier::external_body]
fn regex_groups(pattern: &str, group: &str, text: &str) -> (r: Result<
    Vec<Option<String>>,
    regex::Error,
>)
    requires
        pattern@ == variable_pattern(),
    ensures
        match r {
            Ok(found) => groups_found(pattern@, group@, text@) == Some(found.deep_view()),
            Err(_) => groups_found(pattern@, group@, text@) is None,
        },
{
    match Regex::new(pattern) {
        Ok(re) => Ok(
            re.captures_iter(text).map(|c| c.name(group).map(|m| m.as_str().to_string())).collect(),
        ),
        Err(e) => Err(e),
    }
}

/// The texts that were found, without the places where nothing was.
pub open spec fn found_texts(found: Seq<Option<Seq<char>>>) -> Seq<Seq<char>>
    decreases found.len(),
{
    if found.len() == 0 {
        Seq::empty()
    } else {
        match found.last() {
            Some(text) => found_texts(found.drop_last()).push(text),
            None => found_texts(found.drop_last()),
        }
    }
}

/// The names of the variables of a command, in the order in which they
/// first occur: behind each marker `$`, the one character that the pattern
/// takes for a name.
pub open spec fn variables_in(command: Seq<char>) -> Seq<Seq<char>> {
    match groups_found(variable_pattern(), "variable"@, command) {
        Some(found) => first_occurrences(found_texts(found)),
        None => Seq::empty(),
    }
}

/// The names among what was found in a command, match after match: the
/// texts that were found, each once, in the order in which they first
/// occur.
pub fn variables_among(found: &Vec<Option<String>>) -> (r: Vec<String>)
    ensures
        r.deep_view() == first_occurrences(found_texts(found.deep_view())),
{
    let mut names: Vec<String> = Vec::new();
    let mut i: usize = 0;
    assert(names.deep_view() =~= Seq::<Seq<char>>::empty());
    assert(found.deep_view().take(0) =~= Seq::<Option<Seq<char>>>::empty());
    while i < found.len()
        invariant
            i <= found.len(),
            names.deep_view() == found_texts(found.deep_view().take(i as int)),
        decreases found.len() - i,
    {
        proof {
            let next = found.deep_view().take(i + 1);
            assert(next.drop_last() == found.deep_view().take(i as int));
            assert(next.last() == found@[i as int].deep_view());
        }
        let ghost before = names.deep_view();
        match &found[i] {
            Some(text) => {
                names.push(text.clone());
                assert(names.deep_view() =~= before.push(text@));
            },
            None => {},
        }
        i = i + 1;
    }
    assert(found.deep_view().take(i as int) == found.deep_view());
    unique(names)
}

/// The names of the variables of a command: see [`variables_in`]. Where
/// the pattern of a variable is refused, there is none.
pub fn extract_variables(command: &str) -> (r: Vec<String>)
    ensures
        r.deep_view() == variables_in(command@),
{
    match regex_groups("\\$(?P<variable>\\w)", "variable", command) {
        Err(_) => {
            let names: Vec<String> = Vec::new();
            assert(names.deep_view() =~= Seq::<Seq<char>>::empty());
            names
        },
        Ok(found) => variables_among(&found),
    }
}

/// One copy of a command for each row of a context.
pub fn duplicate_command(command: &str, context: &SimpleContext) -> (r: Vec<String>)
    ensures
        r.deep_view() == Seq::new(context.table().rows(), |i: int| command@),
{
    let n = context.dataframe_len();
    let mut r: Vec<String> = Vec::new();
    let mut i: usize = 0;
    while i < n
        invariant
            i <= n,
            r.len() == i,
            forall|k: int| 0 <= k < i ==> (#[trigger] r@[k])@ == command@,
        decreases n - i,
    {
        r.push(String::from_str(command));
        i = i + 1;
    }
    assert(r.deep_view() =~= Seq::new(context.table().rows(), |i: int| command@));
    r
}

/// Whether what stands at `i` is taken for a query: `get` and more.
pub open spec fn is_query_at(s: Seq<char>, i: int) -> bool {
    s.len() - i > 3 && has_prefix_at(s, i, "get"@)
}

/// Decides whether what stands at `i` is taken for a query.
fn query_starts(s: &[char], i: usize) -> (r: bool)
    requires
        i <= s@.len(),
    ensures
        r == is_query_at(s@, i as int),
{
    s.len() - i > 3 && tag(s, i, "get").is_ok()
}

/// Whether a text is taken for a query: it begins with `get` and is longer.
pub fn is_a_query(s: &str) -> (r: bool)
    ensures
        r == is_query_at(s@, 0),
{
    let chars = to_chars(s);
    query_starts(chars.as_slice(), 0)
}

/// A query where the input is taken for one, else a modifier.
pub open spec fn query_and_modifier_at(s: Seq<char>, i: int) -> Parsed<AstView> {
    if is_query_at(s, i) {
        query_at(s, i)
    } else {
        modifier_at(s, i)
    }
}

/// Reads a query or a modifier at `i`.
pub(crate) fn read_query_and_modifier(s: &[char], i: usize) -> (r: Read<PredicatAST>)
    requires
        i <= s@.len(),
    ensures
        model_of(r) == query_and_modifier_at(s@, i as int),
        within(r, i as int, s@.len() as int),
        r matches Ok((end, read)) ==> i < end,
{
    if query_starts(s, i) {
        read_query(s, i)
    } else {
        read_modifier(s, i)
    }
}

/// Reads a query or a modifier at the start of `s`: the rest of the input
/// and the command, or the failure.
pub fn parse_query_and_modifier(s: &str) -> (r: Result<(&str, PredicatAST), ParseFailure>)
    ensures
        parsed_view(r) == outcome(s@, query_and_modifier_at(s@, 0)),
{
    let chars = to_chars(s);
    value_result(s, read_query_and_modifier(chars.as_slice(), 0))
}

/// A query or a modifier, and a bar behind it.
pub open spec fn query_and_modifier_bar_at(s: Seq<char>, i: int) -> Parsed<AstView> {
    match query_and_modifier_at(s, i) {
        Err(f) => Err(f),
        Ok((end, read)) => match bar_at(s, end) {
            Err(f) => Err(f),
            Ok((after, _)) => Ok((after, read)),
        },
    }
}

/// Reads a query or a modifier and the bar behind it at `i`.
pub(crate) fn read_query_and_modifier_bar(s: &[char], i: usize) -> (r: Read<PredicatAST>)
    requires
        i <= s@.len(),
    ensures
        model_of(r) == query_and_modifier_bar_at(s@, i as int),
        within(r, i as int, s@.len() as int),
        r matches Ok((end, read)) ==> i < end,
{
    match read_query_and_modifier(s, i) {
        Err(f) => Err(f),
        Ok((end, read)) => match read_bar(s, end) {
            Err(f) => Err(f),
            Ok((after, _)) => Ok((after, read)),
        },
    }
}

/// Reads a query or a modifier and the bar behind it at the start of `s`.
pub fn parse_query_and_modifier_bar(s: &str) -> (r: Result<(&str, PredicatAST), ParseFailure>)
    ensures
        parsed_view(r) == outcome(s@, query_and_modifier_bar_at(s@, 0)),
{
    let chars = to_chars(s);
    value_result(s, read_query_and_modifier_bar(chars.as_slice(), 0))
}

/// The trigger of a rule: a modifier, read as its kind, its patterns and
/// its own text.
pub open spec fn trigger_at(s: Seq<char>, i: int) -> Parsed<
    (CommandType, Seq<TripletView>, Seq<char>),
> {
    match modifier_at(s, i) {
        Ok((end, AstView::AddModifier(v))) => Ok((end, (CommandType::Add, v, s.subrange(i, end)))),
        Ok((end, AstView::DeleteModifier(v))) => Ok(
            (end, (CommandType::Delete, v, s.subrange(i, end))),
        ),
        Ok((end, _)) => Err((i, ErrorKind::Tag)),
        Err(f) => Err(f),
    }
}

/// Reads the trigger of a rule at `i`.
pub(crate) fn read_trigger(s: &[char], i: usize) -> (r: Read<(CommandType, Vec<Triplet>, String)>)
    requires
        i <= s@.len(),
    ensures
        model_of(r) == trigger_at(s@, i as int),
        within(r, i as int, s@.len() as int),
        r matches Ok((end, read)) ==> i < end,
{
    match read_modifier(s, i) {
        Ok((end, PredicatAST::AddModifier(v))) => Ok(
            (end, (CommandType::Add, v, string_of(s, i, end))),
        ),
        Ok((end, PredicatAST::DeleteModifier(v))) => Ok(
            (end, (CommandType::Delete, v, string_of(s, i, end))),
        ),
        Ok((end, _)) => Err((i, ErrorKind::Tag)),
        Err(f) => Err(f),
    }
}

/// The command of a rule: a query or a modifier, read as its own text and
/// as a command.
pub open spec fn cmd_at(s: Seq<char>, i: int) -> Parsed<(Seq<char>, AstView)> {
    match query_and_modifier_at(s, i) {
        Ok((end, read)) => Ok((end, (s.subrange(i, end), read))),
        Err(f) => Err(f),
    }
}

/// Reads the command of a rule at `i`.
pub(crate) fn read_cmd(s: &[char], i: usize) -> (r: Read<(String, Box<PredicatAST>)>)
    requires
        i <= s@.len(),
    ensures
        model_of(r) == cmd_at(s@, i as int),
        within(r, i as int, s@.len() as int),
        r matches Ok((end, read)) ==> i < end,
{
    match read_query_and_modifier(s, i) {
        Ok((end, read)) => Ok((end, (string_of(s, i, end), Box::new(read)))),
        Err(f) => Err(f),
    }
}

/// A rule: `infer `, a trigger, ` -> ` and a command.
pub open spec fn infer_at(s: Seq<char>, i: int) -> Parsed<AstView> {
    if !has_prefix_at(s, i, "infer "@) {
        Err((i, ErrorKind::Tag))
    } else {
        match trigger_at(s, i + "infer "@.len()) {
            Err(f) => Err(f),
            Ok((e1, trigger)) => if !has_prefix_at(s, e1, " -> "@) {
                Err((e1, ErrorKind::Tag))
            } else {
                match cmd_at(s, e1 + " -> "@.len()) {
                    Err(f) => Err(f),
                    Ok((e2, body)) => Ok(
                        (e2, AstView::Infer(trigger.0, trigger.1, trigger.2, body.0)),
                    ),
                }
            },
        }
    }
}

/// Reads a rule at `i`.
pub(crate) fn read_infer(s: &[char], i: usize) -> (r: Read<PredicatAST>)
    requires
        i <= s@.len(),
    ensures
        model_of(r) == infer_at(s@, i as int),
        within(r, i as int, s@.len() as int),
        r matches Ok((end, read)) ==> i < end,
{
    match tag(s, i, "infer ") {
        Err(f) => Err(f),
        Ok(j) => match read_trigger(s, j) {
            Err(f) => Err(f),
            Ok((e1, trigger)) => match tag(s, e1, " -> ") {
                Err(f) => Err(f),
                Ok(k) => match read_cmd(s, k) {
                    Err(f) => Err(f),
                    Ok((e2, body)) => Ok(
                        (e2, PredicatAST::Infer((trigger.0, trigger.1), trigger.2, body.0)),
                    ),
                },
            },
        },
    }
}

/// Reads a rule at the start of `s`.
pub fn parse_infer(s: &str) -> (r: Result<(&str, PredicatAST), ParseFailure>)
    ensures
        parsed_view(r) == outcome(s@, infer_at(s@, 0)),
{
    let chars = to_chars(s);
    value_result(s, read_infer(chars.as_slice(), 0))
}

/// One command of an input: a query or a modifier with the bar behind it,
/// else one without a bar, else a rule.
pub open spec fn command_at(s: Seq<char>, i: int) -> Parsed<AstView> {
    match query_and_modifier_bar_at(s, i) {
        Ok(read) => Ok(read),
        Err(_) => match query_and_modifier_at(s, i) {
            Ok(read) => Ok(read),
            Err(_) => infer_at(s, i),
        },
    }
}

/// Reads one command of an input at `i`.
pub(crate) fn read_command(s: &[char], i: usize) -> (r: Read<PredicatAST>)
    requires
        i <= s@.len(),
    ensures
        model_of(r) == command_at(s@, i as int),
        within(r, i as int, s@.len() as int),
        r matches Ok((end, read)) ==> i < end,
{
    match read_query_and_modifier_bar(s, i) {
        Ok(read) => Ok(read),
        Err(_) => match read_query_and_modifier(s, i) {
            Ok(read) => Ok(read),
            Err(_) => read_infer(s, i),
        },
    }
}

/// The commands that follow one another from `i` on, and where they end.
pub open spec fn more_commands_at(s: Seq<char>, i: int) -> (int, Seq<AstView>)
    decreases s.len() - i,
{
    match command_at(s, i) {
        Ok((end, read)) => if i < end <= s.len() {
            (more_commands_at(s, end).0, seq![read] + more_commands_at(s, end).1)
        } else {
            (i, Seq::empty())
        },
        Err(_) => (i, Seq::empty()),
    }
}

/// One command or more. What follows the last command that can be read is
/// left unread.
pub open spec fn commands_at(s: Seq<char>, i: int) -> Parsed<Seq<AstView>> {
    match command_at(s, i) {
        Ok(_) => Ok(more_commands_at(s, i)),
        Err(f) => Err(f),
    }
}

/// Reads one command or more at `i`.
pub(crate) fn read_commands(s: &[char], i: usize) -> (r: Read<Vec<PredicatAST>>)
    requires
        i <= s@.len(),
    ensures
        model_of(r) == commands_at(s@, i as int),
        within(r, i as int, s@.len() as int),
{
    let mut out: Vec<PredicatAST> = Vec::new();
    let mut at: usize = i;
    match read_command(s, i) {
        Err(f) => {
            return Err(f);
        },
        Ok((end, read)) => {
            out.push(read);
            assert(out.deep_view() =~= seq![read.deep_view()]);
            at = end;
        },
    }
    let mut done = false;
    while !done
        invariant
            i < at <= s@.len(),
            more_commands_at(s@, i as int) == (
                more_commands_at(s@, at as int).0,
                out.deep_view() + more_commands_at(s@, at as int).1,
            ),
            done ==> more_commands_at(s@, at as int) == (at as int, Seq::<AstView>::empty()),
        decreases s@.len() - at + (if done { 0int } else { 1int }),
    {
        match read_command(s, at) {
            Err(_) => {
                done = true;
            },
            Ok((end, read)) => {
                let ghost before = out.deep_view();
                out.push(read);
                assert(out.deep_view() =~= before + seq![read.deep_view()]);
                assert(before + (seq![read.deep_view()] + more_commands_at(s@, end as int).1) =~= (
                    before + seq![read.deep_view()]) + more_commands_at(s@, end as int).1);
                at = end;
            },
        }
    }
    assert(out.deep_view() + Seq::<AstView>::empty() =~= out.deep_view());
    Ok((at, out))
}

/// The commands of an input, or the failure of its first command.
pub open spec fn parsed_commands(s: Seq<char>) -> Result<Seq<AstView>, (Seq<char>, ErrorKind)> {
    match commands_at(s, 0) {
        Ok((end, commands)) => Ok(commands),
        Err((at, code)) => Err((s.subrange(at, s.len() as int), code)),
    }
}

/// Reads the commands of an input, which bars separate. Fails where not
/// even the first command can be read.
pub fn try_parse_command(s: &str) -> (r: Result<Vec<PredicatAST>, ParseFailure>)
    ensures
        match r {
            Ok(commands) => parsed_commands(s@) == Ok::<_, (Seq<char>, ErrorKind)>(
                commands.deep_view(),
            ),
            Err(f) => parsed_commands(s@) == Err::<Seq<AstView>, _>((f.input@, f.code)),
        },
{
    let chars = to_chars(s);
    match read_commands(chars.as_slice(), 0) {
        Ok((_, commands)) => Ok(commands),
        Err(f) => Err(failure(s, f.0, f.1)),
    }
}

/// Reads the commands of an input, which bars separate: none where not even
/// the first command can be read.
pub fn parse_command(s: &str) -> (r: Vec<PredicatAST>)
    ensures
        r.deep_view() == match parsed_commands(s@) {
            Ok(commands) => commands,
            Err(_) => Seq::empty(),
        },
{
    match try_parse_command(s) {
        Ok(commands) => commands,
        Err(_) => {
            let none: Vec<PredicatAST> = Vec::new();
            assert(none.deep_view() =~= Seq::<AstView>::empty());
            none
        },
    }
}

} // verus!
