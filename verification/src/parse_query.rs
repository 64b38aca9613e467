//! The parser of queries: `get`, the variables asked for, a connector, and
//! then patterns, comparisons or both.
pub use crate::base_parser::{
    extract_triplet, parse_triplet_and, parse_variable, Comp, Language, Triplet, Var,
};
use crate::base_parser::{
    read_triplets, read_variable, triplets_at, variable_at, AstView, LanguageView, PredicatAST,
};
use crate::grammar::{
    char_is, has_char_at, model_of, outcome, parsed_view, range_model, range_result, run_end, scan,
    tag, text_outcome, text_view, value_result, within, CharClass, ErrorKind, ParseFailure, Parsed,
    Read,
};
use crate::text::{has_prefix_at, string_of, to_chars};
use crate::triplet::TripletView;
use vstd::prelude::*;
use vstd::string::*;

verus! {

/// What a query holds: the variables asked for, the patterns, the
/// comparisons.
pub type QueryAST = (Vec<Var>, Vec<Triplet>, Vec<Comp>);

/// The model of what a query holds.
pub type QueryView = (Seq<Seq<char>>, Seq<TripletView>, Seq<Seq<char>>);

/// A relational operator behind spaces: the range of the operator.
pub open spec fn operator_at(s: Seq<char>, i: int) -> Parsed<(int, int)> {
    let j = run_end(s, i, CharClass::Space);
    if j <= i {
        Err((i, ErrorKind::Space))
    } else if has_prefix_at(s, j, "=="@) {
        Ok((j + "=="@.len(), (j, j + "=="@.len())))
    } else if has_prefix_at(s, j, "!="@) {
        Ok((j + "!="@.len(), (j, j + "!="@.len())))
    } else if has_prefix_at(s, j, "<="@) {
        Ok((j + "<="@.len(), (j, j + "<="@.len())))
    } else if has_prefix_at(s, j, ">="@) {
        Ok((j + ">="@.len(), (j, j + ">="@.len())))
    } else if has_prefix_at(s, j, "<"@) {
        Ok((j + "<"@.len(), (j, j + "<"@.len())))
    } else if has_prefix_at(s, j, ">"@) {
        Ok((j + ">"@.len(), (j, j + ">"@.len())))
    } else {
        Err((j, ErrorKind::Tag))
    }
}

/// Whether a result that reads a range keeps it inside the input.
pub open spec fn ranged(r: Read<(usize, usize)>, n: int) -> bool {
    r matches Ok((end, range)) ==> range.0 <= range.1 <= n
}

/// Reads a relational operator behind spaces at `i`.
pub(crate) fn read_operator(s: &[char], i: usize) -> (r: Read<(usize, usize)>)
    requires
        i <= s@.len(),
    ensures
        range_model(r) == operator_at(s@, i as int),
        within(r, i as int, s@.len() as int),
        ranged(r, s@.len() as int),
{
    let j = scan(s, i, CharClass::Space);
    if j <= i {
        return Err((i, ErrorKind::Space));
    }
    match tag(s, j, "==") {
        Ok(e) => Ok((e, (j, e))),
        Err(_) => match tag(s, j, "!=") {
            Ok(e) => Ok((e, (j, e))),
            Err(_) => match tag(s, j, "<=") {
                Ok(e) => Ok((e, (j, e))),
                Err(_) => match tag(s, j, ">=") {
                    Ok(e) => Ok((e, (j, e))),
                    Err(_) => match tag(s, j, "<") {
                        Ok(e) => Ok((e, (j, e))),
                        Err(_) => match tag(s, j, ">") {
                            Ok(e) => Ok((e, (j, e))),
                            Err(f) => Err(f),
                        },
                    },
                },
            },
        },
    }
}

/// Reads a relational operator behind spaces at the start of `s`: the rest
/// of the input and the operator, or the failure.
pub fn parse_operator(s: &str) -> (r: Result<(&str, &str), ParseFailure>)
    ensures
        text_view(r) == text_outcome(s@, operator_at(s@, 0)),
{
    let chars = to_chars(s);
    range_result(s, read_operator(chars.as_slice(), 0))
}

/// A variable behind spaces: the range of the marker and the name.
pub open spec fn recognize_variable_at(s: Seq<char>, i: int) -> Parsed<(int, int)> {
    let j = run_end(s, i, CharClass::Space);
    if j <= i {
        Err((i, ErrorKind::Space))
    } else if !has_char_at(s, j, '$') {
        Err((j, ErrorKind::Char))
    } else if run_end(s, j + 1, CharClass::AlphaNumeric) <= j + 1 {
        Err((j + 1, ErrorKind::AlphaNumeric))
    } else {
        Ok((run_end(s, j + 1, CharClass::AlphaNumeric), (j, run_end(s, j + 1, CharClass::AlphaNumeric))))
    }
}

/// Reads a variable behind spaces at `i`.
pub(crate) fn read_recognize_variable(s: &[char], i: usize) -> (r: Read<(usize, usize)>)
    requires
        i <= s@.len(),
    ensures
        range_model(r) == recognize_variable_at(s@, i as int),
        within(r, i as int, s@.len() as int),
        ranged(r, s@.len() as int),
{
    let j = scan(s, i, CharClass::Space);
    if j <= i {
        return Err((i, ErrorKind::Space));
    }
    if !(j < s.len() && char_is(s, j, '$')) {
        return Err((j, ErrorKind::Char));
    }
    let e = scan(s, j + 1, CharClass::AlphaNumeric);
    if e <= j + 1 {
        return Err((j + 1, ErrorKind::AlphaNumeric));
    }
    Ok((e, (j, e)))
}

/// Reads a variable behind spaces at the start of `s`: the rest of the
/// input and the variable with its marker, or the failure.
pub fn recognize_variable(s: &str) -> (r: Result<(&str, &str), ParseFailure>)
    ensures
        text_view(r) == text_outcome(s@, recognize_variable_at(s@, 0)),
{
    let chars = to_chars(s);
    range_result(s, read_recognize_variable(chars.as_slice(), 0))
}

/// A quoted value behind spaces: the range from the first space to the
/// closing quote.
pub open spec fn quoted_at(s: Seq<char>, i: int) -> Parsed<(int, int)> {
    let j = run_end(s, i, CharClass::Space);
    let e = run_end(s, j + 1, CharClass::Unquoted);
    if j <= i {
        Err((i, ErrorKind::Space))
    } else if !has_char_at(s, j, '\'') {
        Err((j, ErrorKind::Char))
    } else if e <= j + 1 {
        Err((j + 1, ErrorKind::IsNot))
    } else if !has_char_at(s, e, '\'') {
        Err((e, ErrorKind::Char))
    } else {
        Ok((e + 1, (i, e + 1)))
    }
}

/// Reads a quoted value behind spaces at `i`.
pub(crate) fn read_quoted(s: &[char], i: usize) -> (r: Read<(usize, usize)>)
    requires
        i <= s@.len(),
    ensures
        range_model(r) == quoted_at(s@, i as int),
        within(r, i as int, s@.len() as int),
        ranged(r, s@.len() as int),
{
    let j = scan(s, i, CharClass::Space);
    if j <= i {
        return Err((i, ErrorKind::Space));
    }
    if !(j < s.len() && char_is(s, j, '\'')) {
        return Err((j, ErrorKind::Char));
    }
    let e = scan(s, j + 1, CharClass::Unquoted);
    if e <= j + 1 {
        return Err((j + 1, ErrorKind::IsNot));
    }
    if !(e < s.len() && char_is(s, e, '\'')) {
        return Err((e, ErrorKind::Char));
    }
    Ok((e + 1, (i, e + 1)))
}

/// Reads a quoted value behind spaces at the start of `s`: the rest of the
/// input and the value with its spaces and quotes, or the failure.
pub fn parse_string(s: &str) -> (r: Result<(&str, &str), ParseFailure>)
    ensures
        text_view(r) == text_outcome(s@, quoted_at(s@, 0)),
{
    let chars = to_chars(s);
    range_result(s, read_quoted(chars.as_slice(), 0))
}

/// The end of digits, a point and digits from `i`.
pub open spec fn decimal_end(s: Seq<char>, i: int) -> Option<int> {
    let a = run_end(s, i, CharClass::Digit);
    if a > i && has_char_at(s, a, '.') && run_end(s, a + 1, CharClass::Digit) > a + 1 {
        Some(run_end(s, a + 1, CharClass::Digit))
    } else {
        None
    }
}

/// The end of digits from `i`.
pub open spec fn integer_end(s: Seq<char>, i: int) -> Option<int> {
    if run_end(s, i, CharClass::Digit) > i {
        Some(run_end(s, i, CharClass::Digit))
    } else {
        None
    }
}

/// The end of a number from `i`: a decimal or an integer, behind a minus
/// sign or not. A decimal is preferred to the integer before its point.
pub open spec fn number_end(s: Seq<char>, i: int) -> Option<int> {
    if has_char_at(s, i, '-') && decimal_end(s, i + 1) is Some {
        decimal_end(s, i + 1)
    } else if decimal_end(s, i) is Some {
        decimal_end(s, i)
    } else if has_char_at(s, i, '-') && integer_end(s, i + 1) is Some {
        integer_end(s, i + 1)
    } else {
        integer_end(s, i)
    }
}

/// A number behind spaces: the range of the number.
pub open spec fn number_at(s: Seq<char>, i: int) -> Parsed<(int, int)> {
    let j = run_end(s, i, CharClass::Space);
    if j <= i {
        Err((i, ErrorKind::Space))
    } else {
        match number_end(s, j) {
            Some(e) => Ok((e, (j, e))),
            None => Err((j, ErrorKind::Digit)),
        }
    }
}

/// Finds the end of digits, a point and digits from `i`.
fn find_decimal_end(s: &[char], i: usize) -> (r: Option<usize>)
    requires
        i <= s@.len(),
    ensures
        match r {
            Some(e) => decimal_end(s@, i as int) == Some(e as int) && i < e <= s@.len(),
            None => decimal_end(s@, i as int) is None,
        },
{
    let a = scan(s, i, CharClass::Digit);
    if a > i && a < s.len() && char_is(s, a, '.') {
        let e = scan(s, a + 1, CharClass::Digit);
        if e > a + 1 {
            return Some(e);
        }
    }
    None
}

/// Finds the end of digits from `i`.
fn find_integer_end(s: &[char], i: usize) -> (r: Option<usize>)
    requires
        i <= s@.len(),
    ensures
        match r {
            Some(e) => integer_end(s@, i as int) == Some(e as int) && i < e <= s@.len(),
            None => integer_end(s@, i as int) is None,
        },
{
    let e = scan(s, i, CharClass::Digit);
    if e > i {
        Some(e)
    } else {
        None
    }
}

/// Finds the end of a number from `i`.
fn find_number_end(s: &[char], i: usize) -> (r: Option<usize>)
    requires
        i <= s@.len(),
    ensures
        match r {
            Some(e) => number_end(s@, i as int) == Some(e as int) && i < e <= s@.len(),
            None => number_end(s@, i as int) is None,
        },
{
    let minus = i < s.len() && char_is(s, i, '-');
    if minus {
        match find_decimal_end(s, i + 1) {
            Some(e) => {
                return Some(e);
            },
            None => {},
        }
    }
    match find_decimal_end(s, i) {
        Some(e) => {
            return Some(e);
        },
        None => {},
    }
    if minus {
        match find_integer_end(s, i + 1) {
            Some(e) => {
                return Some(e);
            },
            None => {},
        }
    }
    find_integer_end(s, i)
}

/// Reads a number behind spaces at `i`.
pub(crate) fn read_number(s: &[char], i: usize) -> (r: Read<(usize, usize)>)
    requires
        i <= s@.len(),
    ensures
        range_model(r) == number_at(s@, i as int),
        within(r, i as int, s@.len() as int),
        ranged(r, s@.len() as int),
{
    let j = scan(s, i, CharClass::Space);
    if j <= i {
        return Err((i, ErrorKind::Space));
    }
    match find_number_end(s, j) {
        Some(e) => Ok((e, (j, e))),
        None => Err((j, ErrorKind::Digit)),
    }
}

/// Reads a number behind spaces at the start of `s`: the rest of the input
/// and the number, or the failure.
pub fn parse_number(s: &str) -> (r: Result<(&str, &str), ParseFailure>)
    ensures
        text_view(r) == text_outcome(s@, number_at(s@, 0)),
{
    let chars = to_chars(s);
    range_result(s, read_number(chars.as_slice(), 0))
}

/// A value: a quoted value or a number.
pub open spec fn value_at(s: Seq<char>, i: int) -> Parsed<(int, int)> {
    match quoted_at(s, i) {
        Ok(read) => Ok(read),
        Err(_) => number_at(s, i),
    }
}

/// Reads a value at `i`.
pub(crate) fn read_value(s: &[char], i: usize) -> (r: Read<(usize, usize)>)
    requires
        i <= s@.len(),
    ensures
        range_model(r) == value_at(s@, i as int),
        within(r, i as int, s@.len() as int),
        ranged(r, s@.len() as int),
{
    match read_quoted(s, i) {
        Ok(read) => Ok(read),
        Err(_) => read_number(s, i),
    }
}

/// Reads a value at the start of `s`.
pub fn parse_value(s: &str) -> (r: Result<(&str, &str), ParseFailure>)
    ensures
        text_view(r) == text_outcome(s@, value_at(s@, 0)),
{
    let chars = to_chars(s);
    range_result(s, read_value(chars.as_slice(), 0))
}

/// An operand of a comparison: a variable or a value.
pub open spec fn valvar_at(s: Seq<char>, i: int) -> Parsed<(int, int)> {
    match recognize_variable_at(s, i) {
        Ok(read) => Ok(read),
        Err(_) => value_at(s, i),
    }
}

/// Reads an operand at `i`.
pub(crate) fn read_valvar(s: &[char], i: usize) -> (r: Read<(usize, usize)>)
    requires
        i <= s@.len(),
    ensures
        range_model(r) == valvar_at(s@, i as int),
        within(r, i as int, s@.len() as int),
        ranged(r, s@.len() as int),
        r matches Ok((end, range)) ==> i < end,
{
    match read_recognize_variable(s, i) {
        Ok(read) => Ok(read),
        Err(_) => read_value(s, i),
    }
}

/// Reads an operand at the start of `s`.
pub fn parse_valvar(s: &str) -> (r: Result<(&str, &str), ParseFailure>)
    ensures
        text_view(r) == text_outcome(s@, valvar_at(s@, 0)),
{
    let chars = to_chars(s);
    range_result(s, read_valvar(chars.as_slice(), 0))
}

/// A comparison: an operand, an operator, an operand. Its value is the text
/// that was read, spaces included.
pub open spec fn comparison_at(s: Seq<char>, i: int) -> Parsed<LanguageView> {
    match valvar_at(s, i) {
        Err(f) => Err(f),
        Ok((e1, left)) => match operator_at(s, e1) {
            Err(f) => Err(f),
            Ok((e2, operator)) => match valvar_at(s, e2) {
                Err(f) => Err(f),
                Ok((e3, right)) => Ok((e3, LanguageView::Comp(s.subrange(i, e3)))),
            },
        },
    }
}

/// Reads a comparison at `i`.
pub(crate) fn read_comparison(s: &[char], i: usize) -> (r: Read<Language>)
    requires
        i <= s@.len(),
    ensures
        model_of(r) == comparison_at(s@, i as int),
        within(r, i as int, s@.len() as int),
        r matches Ok((end, read)) ==> i < end,
{
    match read_valvar(s, i) {
        Err(f) => Err(f),
        Ok((e1, _)) => match read_operator(s, e1) {
            Err(f) => Err(f),
            Ok((e2, _)) => match read_valvar(s, e2) {
                Err(f) => Err(f),
                Ok((e3, _)) => Ok((e3, Language::Comp(string_of(s, i, e3)))),
            },
        },
    }
}

/// Reads a comparison at the start of `s`.
pub fn parse_comparison(s: &str) -> (r: Result<(&str, Language), ParseFailure>)
    ensures
        parsed_view(r) == outcome(s@, comparison_at(s@, 0)),
{
    let chars = to_chars(s);
    value_result(s, read_comparison(chars.as_slice(), 0))
}

/// A comparison, and the ` and` behind it if there is one.
pub open spec fn comparison_and_at(s: Seq<char>, i: int) -> Parsed<LanguageView> {
    match comparison_at(s, i) {
        Ok((end, read)) => if has_prefix_at(s, end, " and"@) {
            Ok((end + " and"@.len(), read))
        } else {
            Ok((end, read))
        },
        Err(f) => Err(f),
    }
}

/// Reads a comparison and the ` and` behind it at `i`.
pub(crate) fn read_comparison_and(s: &[char], i: usize) -> (r: Read<Language>)
    requires
        i <= s@.len(),
    ensures
        model_of(r) == comparison_and_at(s@, i as int),
        within(r, i as int, s@.len() as int),
        r matches Ok((end, read)) ==> i < end,
{
    match read_comparison(s, i) {
        Ok((end, read)) => match tag(s, end, " and") {
            Ok(after) => Ok((after, read)),
            Err(_) => Ok((end, read)),
        },
        Err(f) => Err(f),
    }
}

/// Reads a comparison and the ` and` behind it at the start of `s`.
pub fn parse_comparison_and(s: &str) -> (r: Result<(&str, Language), ParseFailure>)
    ensures
        parsed_view(r) == outcome(s@, comparison_and_at(s@, 0)),
{
    let chars = to_chars(s);
    value_result(s, read_comparison_and(chars.as_slice(), 0))
}

/// A connector: one of the keywords that stand between the variables of a
/// query and its conditions.
pub open spec fn connector_at(s: Seq<char>, i: int) -> Parsed<LanguageView> {
    if has_prefix_at(s, i, " such_as"@) {
        Ok((i + " such_as"@.len(), LanguageView::Connector))
    } else if has_prefix_at(s, i, " who_is"@) {
        Ok((i + " who_is"@.len(), LanguageView::Connector))
    } else if has_prefix_at(s, i, " who_are"@) {
        Ok((i + " who_are"@.len(), LanguageView::Connector))
    } else if has_prefix_at(s, i, " who_has"@) {
        Ok((i + " who_has"@.len(), LanguageView::Connector))
    } else if has_prefix_at(s, i, " where"@) {
        Ok((i + " where"@.len(), LanguageView::Connector))
    } else {
        Err((i, ErrorKind::Tag))
    }
}

/// Reads a connector at `i`.
pub(crate) fn read_connector(s: &[char], i: usize) -> (r: Read<Language>)
    requires
        i <= s@.len(),
    ensures
        model_of(r) == connector_at(s@, i as int),
        within(r, i as int, s@.len() as int),
{
    match tag(s, i, " such_as") {
        Ok(e) => Ok((e, Language::Connector)),
        Err(_) => match tag(s, i, " who_is") {
            Ok(e) => Ok((e, Language::Connector)),
            Err(_) => match tag(s, i, " who_are") {
                Ok(e) => Ok((e, Language::Connector)),
                Err(_) => match tag(s, i, " who_has") {
                    Ok(e) => Ok((e, Language::Connector)),
                    Err(_) => match tag(s, i, " where") {
                        Ok(e) => Ok((e, Language::Connector)),
                        Err(f) => Err(f),
                    },
                },
            },
        },
    }
}

/// Reads a connector at the start of `s`.
pub fn parse_connector(s: &str) -> (r: Result<(&str, Language), ParseFailure>)
    ensures
        parsed_view(r) == outcome(s@, connector_at(s@, 0)),
{
    let chars = to_chars(s);
    value_result(s, read_connector(chars.as_slice(), 0))
}

/// The keyword `get`.
pub open spec fn get_at(s: Seq<char>, i: int) -> Parsed<LanguageView> {
    if has_prefix_at(s, i, "get"@) {
        Ok((i + "get"@.len(), LanguageView::Get))
    } else {
        Err((i, ErrorKind::Tag))
    }
}

/// Reads the keyword `get` at `i`.
pub(crate) fn read_get(s: &[char], i: usize) -> (r: Read<Language>)
    requires
        i <= s@.len(),
    ensures
        model_of(r) == get_at(s@, i as int),
        within(r, i as int, s@.len() as int),
{
    match tag(s, i, "get") {
        Ok(e) => Ok((e, Language::Get)),
        Err(f) => Err(f),
    }
}

/// Reads the keyword `get` at the start of `s`.
pub fn parse_get(s: &str) -> (r: Result<(&str, Language), ParseFailure>)
    ensures
        parsed_view(r) == outcome(s@, get_at(s@, 0)),
{
    let chars = to_chars(s);
    value_result(s, read_get(chars.as_slice(), 0))
}

/// The variable that was read, if it is one that is not negated.
pub open spec fn kept_variable(read: LanguageView) -> Seq<Seq<char>> {
    match read {
        LanguageView::Var(n) => seq![n],
        _ => Seq::empty(),
    }
}

/// The variables that follow one another from `i` on, and where they end.
pub open spec fn more_variables_at(s: Seq<char>, i: int) -> (int, Seq<Seq<char>>)
    decreases s.len() - i,
{
    match variable_at(s, i) {
        Ok((end, read)) => if i < end <= s.len() {
            (more_variables_at(s, end).0, kept_variable(read) + more_variables_at(s, end).1)
        } else {
            (i, Seq::empty())
        },
        Err(_) => (i, Seq::empty()),
    }
}

/// One variable or more. A negated variable is read and dropped.
pub open spec fn variables_at(s: Seq<char>, i: int) -> Parsed<Seq<Seq<char>>> {
    match variable_at(s, i) {
        Ok(_) => Ok(more_variables_at(s, i)),
        Err(f) => Err(f),
    }
}

/// Reads one variable or more at `i`.
pub(crate) fn read_variables(s: &[char], i: usize) -> (r: Read<Vec<Var>>)
    requires
        i <= s@.len(),
    ensures
        model_of(r) == variables_at(s@, i as int),
        within(r, i as int, s@.len() as int),
        r matches Ok((end, read)) ==> i < end,
{
    let mut out: Vec<Var> = Vec::new();
    let mut at: usize = i;
    match read_variable(s, i) {
        Err(f) => {
            return Err(f);
        },
        Ok((end, read)) => {
            match read.get_var() {
                Some(v) => {
                    out.push(v);
                },
                None => {},
            }
            assert(out.deep_view() =~= kept_variable(read.deep_view()));
            at = end;
        },
    }
    let mut done = false;
    while !done
        invariant
            i < at <= s@.len(),
            more_variables_at(s@, i as int) == (
                more_variables_at(s@, at as int).0,
                out.deep_view() + more_variables_at(s@, at as int).1,
            ),
            done ==> more_variables_at(s@, at as int) == (at as int, Seq::<Seq<char>>::empty()),
        decreases s@.len() - at + (if done { 0int } else { 1int }),
    {
        match read_variable(s, at) {
            Err(_) => {
                done = true;
            },
            Ok((end, read)) => {
                let ghost before = out.deep_view();
                match read.get_var() {
                    Some(v) => {
                        out.push(v);
                    },
                    None => {},
                }
                assert(out.deep_view() =~= before + kept_variable(read.deep_view()));
                assert(before + (kept_variable(read.deep_view()) + more_variables_at(
                    s@,
                    end as int,
                ).1) =~= (before + kept_variable(read.deep_view())) + more_variables_at(
                    s@,
                    end as int,
                ).1);
                at = end;
            },
        }
    }
    assert(out.deep_view() + Seq::<Seq<char>>::empty() =~= out.deep_view());
    Ok((at, out))
}

/// The comparison that was read, if it is one.
pub open spec fn kept_comparison(read: LanguageView) -> Seq<Seq<char>> {
    match read {
        LanguageView::Comp(c) => seq![c],
        _ => Seq::empty(),
    }
}

/// The comparisons that follow one another from `i` on, and where they end.
pub open spec fn more_comparisons_at(s: Seq<char>, i: int) -> (int, Seq<Seq<char>>)
    decreases s.len() - i,
{
    match comparison_and_at(s, i) {
        Ok((end, read)) => if i < end <= s.len() {
            (more_comparisons_at(s, end).0, kept_comparison(read) + more_comparisons_at(s, end).1)
        } else {
            (i, Seq::empty())
        },
        Err(_) => (i, Seq::empty()),
    }
}

/// One comparison or more, each but the last followed by ` and`.
pub open spec fn comparisons_at(s: Seq<char>, i: int) -> Parsed<Seq<Seq<char>>> {
    match comparison_and_at(s, i) {
        Ok(_) => Ok(more_comparisons_at(s, i)),
        Err(f) => Err(f),
    }
}

/// Reads one comparison or more at `i`.
pub(crate) fn read_comparisons(s: &[char], i: usize) -> (r: Read<Vec<Comp>>)
    requires
        i <= s@.len(),
    ensures
        model_of(r) == comparisons_at(s@, i as int),
        within(r, i as int, s@.len() as int),
{
    let mut out: Vec<Comp> = Vec::new();
    let mut at: usize = i;
    match read_comparison_and(s, i) {
        Err(f) => {
            return Err(f);
        },
        Ok((end, read)) => {
            match read.get_comp() {
                Some(c) => {
                    out.push(c);
                },
                None => {},
            }
            assert(out.deep_view() =~= kept_comparison(read.deep_view()));
            at = end;
        },
    }
    let mut done = false;
    while !done
        invariant
            i < at <= s@.len(),
            more_comparisons_at(s@, i as int) == (
                more_comparisons_at(s@, at as int).0,
                out.deep_view() + more_comparisons_at(s@, at as int).1,
            ),
            done ==> more_comparisons_at(s@, at as int) == (at as int, Seq::<Seq<char>>::empty()),
        decreases s@.len() - at + (if done { 0int } else { 1int }),
    {
        match read_comparison_and(s, at) {
            Err(_) => {
                done = true;
            },
            Ok((end, read)) => {
                let ghost before = out.deep_view();
                match read.get_comp() {
                    Some(c) => {
                        out.push(c);
                    },
                    None => {},
                }
                assert(out.deep_view() =~= before + kept_comparison(read.deep_view()));
                assert(before + (kept_comparison(read.deep_view()) + more_comparisons_at(
                    s@,
                    end as int,
                ).1) =~= (before + kept_comparison(read.deep_view())) + more_comparisons_at(
                    s@,
                    end as int,
                ).1);
                at = end;
            },
        }
    }
    assert(out.deep_view() + Seq::<Seq<char>>::empty() =~= out.deep_view());
    Ok((at, out))
}

/// The head of a query: `get`, one variable or more, and a connector.
pub open spec fn query_head_at(s: Seq<char>, i: int) -> Parsed<Seq<Seq<char>>> {
    match get_at(s, i) {
        Err(f) => Err(f),
        Ok((e1, _)) => match variables_at(s, e1) {
            Err(f) => Err(f),
            Ok((e2, variables)) => match connector_at(s, e2) {
                Err(f) => Err(f),
                Ok((e3, _)) => Ok((e3, variables)),
            },
        },
    }
}

/// Reads the head of a query at `i`.
fn read_query_head(s: &[char], i: usize) -> (r: Read<Vec<Var>>)
    requires
        i <= s@.len(),
    ensures
        model_of(r) == query_head_at(s@, i as int),
        within(r, i as int, s@.len() as int),
        r matches Ok((end, read)) ==> i < end,
{
    match read_get(s, i) {
        Err(f) => Err(f),
        Ok((e1, _)) => match read_variables(s, e1) {
            Err(f) => Err(f),
            Ok((e2, variables)) => match read_connector(s, e2) {
                Err(f) => Err(f),
                Ok((e3, _)) => Ok((e3, variables)),
            },
        },
    }
}

/// A query with patterns and comparisons.
pub open spec fn query_var1_at(s: Seq<char>, i: int) -> Parsed<QueryView> {
    match query_head_at(s, i) {
        Err(f) => Err(f),
        Ok((e1, variables)) => match triplets_at(s, e1) {
            Err(f) => Err(f),
            Ok((e2, triplets)) => match comparisons_at(s, e2) {
                Err(f) => Err(f),
                Ok((e3, comparisons)) => Ok((e3, (variables, triplets, comparisons))),
            },
        },
    }
}

/// Reads a query with patterns and comparisons at `i`.
pub(crate) fn read_query_var1(s: &[char], i: usize) -> (r: Read<QueryAST>)
    requires
        i <= s@.len(),
    ensures
        model_of(r) == query_var1_at(s@, i as int),
        within(r, i as int, s@.len() as int),
        r matches Ok((end, read)) ==> i < end,
{
    match read_query_head(s, i) {
        Err(f) => Err(f),
        Ok((e1, variables)) => match read_triplets(s, e1) {
            Err(f) => Err(f),
            Ok((e2, triplets)) => match read_comparisons(s, e2) {
                Err(f) => Err(f),
                Ok((e3, comparisons)) => Ok((e3, (variables, triplets, comparisons))),
            },
        },
    }
}

/// Reads a query with patterns and comparisons at the start of `s`.
pub fn parse_query_var1(s: &str) -> (r: Result<(&str, QueryAST), ParseFailure>)
    ensures
        parsed_view(r) == outcome(s@, query_var1_at(s@, 0)),
{
    let chars = to_chars(s);
    value_result(s, read_query_var1(chars.as_slice(), 0))
}

/// A query with patterns alone: no comparison has to hold.
pub open spec fn query_var2_at(s: Seq<char>, i: int) -> Parsed<QueryView> {
    match query_head_at(s, i) {
        Err(f) => Err(f),
        Ok((e1, variables)) => match triplets_at(s, e1) {
            Err(f) => Err(f),
            Ok((e2, triplets)) => Ok((e2, (variables, triplets, Seq::empty()))),
        },
    }
}

/// Reads a query with patterns alone at `i`.
pub(crate) fn read_query_var2(s: &[char], i: usize) -> (r: Read<QueryAST>)
    requires
        i <= s@.len(),
    ensures
        model_of(r) == query_var2_at(s@, i as int),
        within(r, i as int, s@.len() as int),
        r matches Ok((end, read)) ==> i < end,
{
    match read_query_head(s, i) {
        Err(f) => Err(f),
        Ok((e1, variables)) => match read_triplets(s, e1) {
            Err(f) => Err(f),
            Ok((e2, triplets)) => {
                let comparisons: Vec<Comp> = Vec::new();
                assert(comparisons.deep_view() =~= Seq::<Seq<char>>::empty());
                Ok((e2, (variables, triplets, comparisons)))
            },
        },
    }
}

/// Reads a query with patterns alone at the start of `s`.
pub fn parse_query_var2(s: &str) -> (r: Result<(&str, QueryAST), ParseFailure>)
    ensures
        parsed_view(r) == outcome(s@, query_var2_at(s@, 0)),
{
    let chars = to_chars(s);
    value_result(s, read_query_var2(chars.as_slice(), 0))
}

/// A query with comparisons alone: its one pattern is the empty pattern,
/// which matches all the facts.
pub open spec fn query_var3_at(s: Seq<char>, i: int) -> Parsed<QueryView> {
    match query_head_at(s, i) {
        Err(f) => Err(f),
        Ok((e1, variables)) => match comparisons_at(s, e1) {
            Err(f) => Err(f),
            Ok((e2, comparisons)) => Ok((e2, (variables, seq![TripletView::Empty], comparisons))),
        },
    }
}

/// Reads a query with comparisons alone at `i`.
pub(crate) fn read_query_var3(s: &[char], i: usize) -> (r: Read<QueryAST>)
    requires
        i <= s@.len(),
    ensures
        model_of(r) == query_var3_at(s@, i as int),
        within(r, i as int, s@.len() as int),
        r matches Ok((end, read)) ==> i < end,
{
    match read_query_head(s, i) {
        Err(f) => Err(f),
        Ok((e1, variables)) => match read_comparisons(s, e1) {
            Err(f) => Err(f),
            Ok((e2, comparisons)) => {
                let mut triplets: Vec<Triplet> = Vec::new();
                triplets.push(Triplet::Empty);
                assert(triplets.deep_view() =~= seq![TripletView::Empty]);
                Ok((e2, (variables, triplets, comparisons)))
            },
        },
    }
}

/// Reads a query with comparisons alone at the start of `s`.
pub fn parse_query_var3(s: &str) -> (r: Result<(&str, QueryAST), ParseFailure>)
    ensures
        parsed_view(r) == outcome(s@, query_var3_at(s@, 0)),
{
    let chars = to_chars(s);
    value_result(s, read_query_var3(chars.as_slice(), 0))
}

/// The query that its parts make.
pub open spec fn query_of(parts: QueryView) -> AstView {
    AstView::Query(parts.0, parts.1, parts.2)
}

/// A query: with patterns and comparisons, else with patterns alone, else
/// with comparisons alone.
pub open spec fn query_at(s: Seq<char>, i: int) -> Parsed<AstView> {
    match query_var1_at(s, i) {
        Ok((end, parts)) => Ok((end, query_of(parts))),
        Err(_) => match query_var2_at(s, i) {
            Ok((end, parts)) => Ok((end, query_of(parts))),
            Err(_) => match query_var3_at(s, i) {
                Ok((end, parts)) => Ok((end, query_of(parts))),
                Err(f) => Err(f),
            },
        },
    }
}

/// Reads a query at `i`.
pub(crate) fn read_query(s: &[char], i: usize) -> (r: Read<PredicatAST>)
    requires
        i <= s@.len(),
    ensures
        model_of(r) == query_at(s@, i as int),
        within(r, i as int, s@.len() as int),
        r matches Ok((end, read)) ==> i < end,
{
    match read_query_var1(s, i) {
        Ok((end, parts)) => Ok((end, PredicatAST::Query(parts))),
        Err(_) => match read_query_var2(s, i) {
            Ok((end, parts)) => Ok((end, PredicatAST::Query(parts))),
            Err(_) => match read_query_var3(s, i) {
                Ok((end, parts)) => Ok((end, PredicatAST::Query(parts))),
                Err(f) => Err(f),
            },
        },
    }
}

/// Reads a query at the start of `s`: the rest of the input and the query,
/// or the failure.
pub fn parse_query(s: &str) -> (r: Result<(&str, PredicatAST), ParseFailure>)
    ensures
        parsed_view(r) == outcome(s@, query_at(s@, 0)),
{
    let chars = to_chars(s);
    value_result(s, read_query(chars.as_slice(), 0))
}

} // verus!
