//! The lexical layer of the command language: character classes, the two
//! scanning primitives, and the shape of a parse result.
//!
//! A parser is specified as a function of the whole input and a start index.
//! It gives the index where it stopped together with what it read, or the
//! index where it failed together with the kind of the failure. Alternatives
//! are tried in order; the failure of a choice is that of its last
//! alternative.
use crate::text::{has_prefix_at, starts_with_at, to_chars};
use vstd::prelude::*;
use vstd::string::*;

verus! {

/// Why a parser stopped.
#[derive(Debug, Clone, Copy, PartialEq, Eq, Structural)]
pub enum ErrorKind {
    /// A fixed text was expected.
    Tag,
    /// A given character was expected.
    Char,
    /// A letter, a digit or an underscore was expected.
    OneOf,
    /// A character other than a quote was expected inside a quoted term.
    NoneOf,
    /// A space or a tab was expected.
    Space,
    /// A letter or a digit was expected.
    AlphaNumeric,
    /// A digit was expected.
    Digit,
    /// A character other than a quote was expected inside a quoted value.
    IsNot,
}

/// A failed parse: the input that was left where the parser stopped, and why
/// it stopped.
#[derive(Debug, PartialEq)]
pub struct ParseFailure<'a> {
    pub input: &'a str,
    pub code: ErrorKind,
}

/// What a parser gives in the model: the end index and the value read, or the
/// index and kind of the failure.
pub type Parsed<T> = Result<(int, T), (int, ErrorKind)>;

/// A set of characters.
#[derive(Debug, Clone, Copy, PartialEq, Eq, Structural)]
pub enum CharClass {
    /// Space and tab.
    Space,
    /// Space, tab, carriage return and line feed.
    MultiSpace,
    /// The digits `0` to `9`.
    Digit,
    /// The letters `a` to `z` and `A` to `Z`, and the digits.
    AlphaNumeric,
    /// The letters, the digits and the underscore.
    Word,
    /// Every character but the single quote.
    Unquoted,
}

/// Whether `c` is one of the digits `0` to `9`.
pub open spec fn is_digit(c: char) -> bool {
    '0' <= c && c <= '9'
}

/// Whether `c` is one of the letters `a` to `z` or `A` to `Z`.
pub open spec fn is_letter(c: char) -> bool {
    ('a' <= c && c <= 'z') || ('A' <= c && c <= 'Z')
}

impl CharClass {
    /// Whether `c` belongs to the class.
    pub open spec fn holds(self, c: char) -> bool {
        match self {
            CharClass::Space => c == ' ' || c == '\t',
            CharClass::MultiSpace => c == ' ' || c == '\t' || c == '\r' || c == '\n',
            CharClass::Digit => is_digit(c),
            CharClass::AlphaNumeric => is_letter(c) || is_digit(c),
            CharClass::Word => is_letter(c) || is_digit(c) || c == '_',
            CharClass::Unquoted => c != '\'',
        }
    }

    /// Decides whether `c` belongs to the class.
    pub fn test(self, c: char) -> (r: bool)
        ensures
            r == self.holds(c),
    {
        let digit = c >= '0' && c <= '9';
        let letter = (c >= 'a' && c <= 'z') || (c >= 'A' && c <= 'Z');
        match self {
            CharClass::Space => c == ' ' || c == '\t',
            CharClass::MultiSpace => c == ' ' || c == '\t' || c == '\r' || c == '\n',
            CharClass::Digit => digit,
            CharClass::AlphaNumeric => letter || digit,
            CharClass::Word => letter || digit || c == '_',
            CharClass::Unquoted => c != '\'',
        }
    }
}

/// The end of the longest run of characters of `class` that starts at `i`.
pub open spec fn run_end(s: Seq<char>, i: int, class: CharClass) -> int
    decreases s.len() - i,
{
    if 0 <= i < s.len() && class.holds(s[i]) {
        run_end(s, i + 1, class)
    } else {
        i
    }
}

/// A stretch of characters of the class that ends at the end of the input or
/// before a character that is not of the class is the run from its start.
pub proof fn lemma_run_to(s: Seq<char>, i: int, j: int, class: CharClass)
    requires
        0 <= i <= j <= s.len(),
        forall|k: int| i <= k < j ==> class.holds(#[trigger] s[k]),
        j == s.len() || !class.holds(s[j]),
    ensures
        run_end(s, i, class) == j,
    decreases j - i,
{
    if i < j {
        lemma_run_to(s, i + 1, j, class);
    }
}

/// Finds the end of the longest run of characters of `class` from `i`.
pub(crate) fn scan(s: &[char], i: usize, class: CharClass) -> (e: usize)
    requires
        i <= s@.len(),
    ensures
        e == run_end(s@, i as int, class),
        i <= e <= s@.len(),
{
    let mut e: usize = i;
    while e < s.len() && class.test(s[e])
        invariant
            i <= e <= s@.len(),
            run_end(s@, i as int, class) == run_end(s@, e as int, class),
        decreases s.len() - e,
    {
        e = e + 1;
    }
    e
}

/// The text `t` at `i`.
pub open spec fn tag_at(s: Seq<char>, i: int, t: Seq<char>) -> Result<int, (int, ErrorKind)> {
    if has_prefix_at(s, i, t) {
        Ok(i + t.len())
    } else {
        Err((i, ErrorKind::Tag))
    }
}

/// Reads the text `t` at `i`.
pub(crate) fn tag(s: &[char], i: usize, t: &str) -> (r: Result<usize, (usize, ErrorKind)>)
    requires
        i <= s@.len(),
    ensures
        as_model(r) == tag_at(s@, i as int, t@),
        r matches Ok(e) ==> i <= e <= s@.len(),
        r matches Err(f) ==> f.0 <= s@.len(),
{
    let wanted = to_chars(t);
    if i <= s.len() && starts_with_at(s, i, wanted.as_slice()) {
        Ok(i + wanted.len())
    } else {
        Err((i, ErrorKind::Tag))
    }
}

/// Whether the character at `i` is `c`.
pub open spec fn has_char_at(s: Seq<char>, i: int, c: char) -> bool {
    0 <= i < s.len() && s[i] == c
}

/// Decides whether the character at `i` is `c`.
pub(crate) fn char_is(s: &[char], i: usize, c: char) -> (r: bool)
    ensures
        r == has_char_at(s@, i as int, c),
{
    i < s.len() && s[i] == c
}

/// A position or a failure of the executable code, as the model has it.
pub open spec fn as_model(r: Result<usize, (usize, ErrorKind)>) -> Result<int, (int, ErrorKind)> {
    match r {
        Ok(e) => Ok(e as int),
        Err(f) => Err((f.0 as int, f.1)),
    }
}

/// What a parser returns for the input `s`, in terms of texts: the rest of
/// the input and the value, or the rest of the input at the point of failure
/// and the kind of the failure.
pub open spec fn outcome<T>(s: Seq<char>, p: Parsed<T>) -> Result<
    (Seq<char>, T),
    (Seq<char>, ErrorKind),
> {
    match p {
        Ok((end, value)) => Ok((s.subrange(end, s.len() as int), value)),
        Err((at, code)) => Err((s.subrange(at, s.len() as int), code)),
    }
}

/// The same, for a parser whose value is the part of the input between two
/// indices.
pub open spec fn text_outcome(s: Seq<char>, p: Parsed<(int, int)>) -> Result<
    (Seq<char>, Seq<char>),
    (Seq<char>, ErrorKind),
> {
    match p {
        Ok((end, range)) => Ok((s.subrange(end, s.len() as int), s.subrange(range.0, range.1))),
        Err((at, code)) => Err((s.subrange(at, s.len() as int), code)),
    }
}

/// The failure at index `at` of the input `s`.
pub(crate) fn failure<'a>(s: &'a str, at: usize, code: ErrorKind) -> (f: ParseFailure<'a>)
    requires
        at <= s@.len(),
    ensures
        f.input@ == s@.subrange(at as int, s@.len() as int),
        f.code == code,
{
    let n = s.unicode_len();
    ParseFailure { input: s.substring_char(at, n), code }
}

/// The rest of the input `s` from index `end` on.
pub(crate) fn rest_of<'a>(s: &'a str, end: usize) -> (rest: &'a str)
    requires
        end <= s@.len(),
    ensures
        rest@ == s@.subrange(end as int, s@.len() as int),
{
    let n = s.unicode_len();
    s.substring_char(end, n)
}

/// What the executable parsers give: the end index and the value read, or
/// the index and kind of the failure.
pub type Read<T> = Result<(usize, T), (usize, ErrorKind)>;

/// The result of an executable parser, as the model has it.
pub open spec fn model_of<T: DeepView>(r: Read<T>) -> Parsed<T::V> {
    match r {
        Ok((end, value)) => Ok((end as int, value.deep_view())),
        Err(f) => Err((f.0 as int, f.1)),
    }
}

/// The result of an executable parser that reads a range, as the model has
/// it.
pub open spec fn range_model(r: Read<(usize, usize)>) -> Parsed<(int, int)> {
    match r {
        Ok((end, range)) => Ok((end as int, (range.0 as int, range.1 as int))),
        Err(f) => Err((f.0 as int, f.1)),
    }
}

/// Whether the indices of a result lie inside an input of length `n`, at or
/// behind the start index `i`.
pub open spec fn within<T>(r: Read<T>, i: int, n: int) -> bool {
    match r {
        Ok((end, value)) => i <= end <= n,
        Err(f) => i <= f.0 <= n,
    }
}

/// What a public parser returns, in terms of texts and models.
pub open spec fn parsed_view<T: DeepView>(r: Result<(&str, T), ParseFailure>) -> Result<
    (Seq<char>, T::V),
    (Seq<char>, ErrorKind),
> {
    match r {
        Ok((rest, value)) => Ok((rest@, value.deep_view())),
        Err(f) => Err((f.input@, f.code)),
    }
}

/// What a public parser of a text returns, in terms of texts.
pub open spec fn text_view(r: Result<(&str, &str), ParseFailure>) -> Result<
    (Seq<char>, Seq<char>),
    (Seq<char>, ErrorKind),
> {
    match r {
        Ok((rest, text)) => Ok((rest@, text@)),
        Err(f) => Err((f.input@, f.code)),
    }
}

/// Turns the result of a parser on the characters of `s` into texts of `s`.
pub(crate) fn value_result<'a, T: DeepView>(s: &'a str, r: Read<T>) -> (out: Result<
    (&'a str, T),
    ParseFailure<'a>,
>)
    requires
        within(r, 0, s@.len() as int),
    ensures
        parsed_view(out) == outcome(s@, model_of(r)),
{
    match r {
        Ok((end, value)) => Ok((rest_of(s, end), value)),
        Err(f) => Err(failure(s, f.0, f.1)),
    }
}

/// Turns the range that a parser read on the characters of `s` into texts of
/// `s`.
pub(crate) fn range_result<'a>(s: &'a str, r: Read<(usize, usize)>) -> (out: Result<
    (&'a str, &'a str),
    ParseFailure<'a>,
>)
    requires
        within(r, 0, s@.len() as int),
        r matches Ok((end, range)) ==> range.0 <= range.1 <= s@.len(),
    ensures
        text_view(out) == text_outcome(s@, range_model(r)),
{
    match r {
        Ok((end, range)) => Ok((rest_of(s, end), s.substring_char(range.0, range.1))),
        Err(f) => Err(failure(s, f.0, f.1)),
    }
}

} // verus!
