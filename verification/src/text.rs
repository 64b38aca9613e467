//! Operations on character strings.
//!
//! A string is modelled by the sequence of its characters. The functions of
//! this module work on slices of `char`, where an index costs nothing, and
//! convert from and to `str` at their edges.
use vstd::prelude::*;

verus! {

/// `String::push` appends one character to the end of the string.
pub assume_specification[ std::string::String::push ](s: &mut std::string::String, c: char)
    ensures
        final(s)@ == old(s)@.push(c),
;

/// The characters of `s`, in order.
pub fn to_chars(s: &str) -> (v: Vec<char>)
    ensures
        v@ == s@,
{
    let mut v: Vec<char> = Vec::new();
    for c in it: s.chars()
        invariant
            v@ == s@.take(it.index() as int),
            it.seq() == s@,
    {
        v.push(c);
    }
    v
}

/// The string made of the characters `v[from..to]`.
pub(crate) fn string_of(v: &[char], from: usize, to: usize) -> (s: String)
    requires
        from <= to <= v@.len(),
    ensures
        s@ == v@.subrange(from as int, to as int),
{
    let mut s = String::new();
    let mut i: usize = from;
    while i < to
        invariant
            from <= i <= to <= v@.len(),
            s@ == v@.subrange(from as int, i as int),
        decreases to - i,
    {
        s.push(v[i]);
        i = i + 1;
    }
    s
}

/// The string made of all the characters of `v`.
pub fn from_chars(v: &[char]) -> (s: String)
    ensures
        s@ == v@,
{
    let s = string_of(v, 0, v.len());
    assert(v@.subrange(0, v@.len() as int) == v@);
    s
}

/// Whether `p` occurs in `s` at index `i`.
pub open spec fn has_prefix_at(s: Seq<char>, i: int, p: Seq<char>) -> bool {
    &&& 0 <= i
    &&& i + p.len() <= s.len()
    &&& s.subrange(i, i + p.len()) == p
}

/// Decides whether `p` occurs in `s` at index `i`.
pub fn starts_with_at(s: &[char], i: usize, p: &[char]) -> (r: bool)
    ensures
        r == has_prefix_at(s@, i as int, p@),
{
    if i > s.len() || p.len() > s.len() - i {
        return false;
    }
    let mut k: usize = 0;
    while k < p.len()
        invariant
            i + p@.len() <= s@.len() <= usize::MAX,
            k <= p@.len(),
            s@.subrange(i as int, i + k) == p@.subrange(0, k as int),
        decreases p.len() - k,
    {
        if s[i + k] != p[k] {
            assert(s@.subrange(i as int, i + p@.len())[k as int] != p@[k as int]);
            return false;
        }
        assert(s@.subrange(i as int, i + k + 1) == s@.subrange(i as int, i + k).push(s@[i + k]));
        assert(p@.subrange(0, k + 1) == p@.subrange(0, k as int).push(p@[k as int]));
        k = k + 1;
    }
    assert(p@.subrange(0, p@.len() as int) == p@);
    true
}

/// Whether the two strings hold the same characters.
pub fn str_eq(a: &str, b: &str) -> (r: bool)
    ensures
        r == (a@ == b@),
{
    let x = to_chars(a);
    let y = to_chars(b);
    if x.len() != y.len() {
        return false;
    }
    let r = starts_with_at(x.as_slice(), 0, y.as_slice());
    assert(x@.subrange(0, x@.len() as int) == x@);
    r
}

/// `s` from index `i` on, with every occurrence of `from` replaced by `to`.
/// Occurrences are found from left to right and do not overlap. An empty
/// `from` occurs before every character and at the end.
pub open spec fn replace_from(s: Seq<char>, i: int, from: Seq<char>, to: Seq<char>) -> Seq<char>
    decreases s.len() - i,
{
    if i >= s.len() {
        if from.len() == 0 {
            to
        } else {
            Seq::empty()
        }
    } else if from.len() == 0 {
        to + seq![s[i]] + replace_from(s, i + 1, from, to)
    } else if has_prefix_at(s, i, from) {
        to + replace_from(s, i + from.len(), from, to)
    } else {
        seq![s[i]] + replace_from(s, i + 1, from, to)
    }
}

/// `s` with every occurrence of `from` replaced by `to`.
pub open spec fn replace_all(s: Seq<char>, from: Seq<char>, to: Seq<char>) -> Seq<char> {
    replace_from(s, 0, from, to)
}

/// Replaces every occurrence of `from` in `s` by `to`.
pub fn replace_chars(s: &[char], from: &[char], to: &[char]) -> (r: Vec<char>)
    ensures
        r@ == replace_all(s@, from@, to@),
{
    let mut out: Vec<char> = Vec::new();
    let mut i: usize = 0;
    while i < s.len()
        invariant
            i <= s@.len(),
            replace_all(s@, from@, to@) == out@ + replace_from(s@, i as int, from@, to@),
        decreases s.len() - i,
    {
        if from.len() == 0 {
            extend(&mut out, to);
            out.push(s[i]);
            i = i + 1;
        } else if starts_with_at(s, i, from) {
            extend(&mut out, to);
            i = i + from.len();
        } else {
            out.push(s[i]);
            i = i + 1;
        }
    }
    if from.len() == 0 {
        extend(&mut out, to);
    }
    out
}

/// Appends the characters of `tail` to `v`.
pub fn extend(v: &mut Vec<char>, tail: &[char])
    ensures
        final(v)@ == old(v)@ + tail@,
{
    let mut k: usize = 0;
    while k < tail.len()
        invariant
            k <= tail@.len(),
            v@ == old(v)@ + tail@.subrange(0, k as int),
        decreases tail.len() - k,
    {
        v.push(tail[k]);
        assert(tail@.subrange(0, k + 1) == tail@.subrange(0, k as int).push(tail@[k as int]));
        k = k + 1;
    }
    assert(tail@.subrange(0, tail@.len() as int) == tail@);
}

/// Replaces every occurrence of `from` in `s` by `to`.
pub fn replace(s: &str, from: &str, to: &str) -> (r: String)
    ensures
        r@ == replace_all(s@, from@, to@),
{
    let out = replace_chars(to_chars(s).as_slice(), to_chars(from).as_slice(), to_chars(to).as_slice());
    from_chars(out.as_slice())
}

/// The first index at or behind `i` where `p` occurs in `s`.
pub open spec fn find_from(s: Seq<char>, i: int, p: Seq<char>) -> Option<int>
    decreases s.len() - i,
{
    if i < 0 || i + p.len() > s.len() {
        None
    } else if has_prefix_at(s, i, p) || i >= s.len() {
        Some(i)
    } else {
        find_from(s, i + 1, p)
    }
}

/// Finds the first index at or behind `i` where `p` occurs in `s`.
pub fn find(s: &[char], i: usize, p: &[char]) -> (r: Option<usize>)
    ensures
        match r {
            Some(k) => find_from(s@, i as int, p@) == Some(k as int) && i <= k && k + p@.len()
                <= s@.len(),
            None => find_from(s@, i as int, p@) is None,
        },
{
    let mut k: usize = i;
    while k <= s.len() && p.len() <= s.len() - k
        invariant
            i <= k,
            find_from(s@, i as int, p@) == find_from(s@, k as int, p@),
        decreases s.len() - k,
    {
        if starts_with_at(s, k, p) || k >= s.len() {
            return Some(k);
        }
        k = k + 1;
    }
    None
}

/// The pieces of `s` between the occurrences of `sep`, from a piece that
/// starts at `start` and has been searched up to `i`. Occurrences are found
/// from left to right and do not overlap.
pub open spec fn split_from(s: Seq<char>, start: int, i: int, sep: Seq<char>) -> Seq<Seq<char>>
    decreases s.len() - i,
{
    if i < 0 || sep.len() == 0 || i + sep.len() > s.len() {
        seq![s.subrange(start, s.len() as int)]
    } else if has_prefix_at(s, i, sep) {
        seq![s.subrange(start, i)] + split_from(s, i + sep.len(), i + sep.len(), sep)
    } else {
        split_from(s, start, i + 1, sep)
    }
}

/// A split gives at least one piece.
pub proof fn lemma_split_nonempty(s: Seq<char>, start: int, i: int, sep: Seq<char>)
    ensures
        split_from(s, start, i, sep).len() >= 1,
    decreases s.len() - i,
{
    if i < 0 || sep.len() == 0 || i + sep.len() > s.len() {
    } else if has_prefix_at(s, i, sep) {
    } else {
        lemma_split_nonempty(s, start, i + 1, sep);
    }
}

/// The pieces of `s` between the occurrences of `sep`: one piece more than
/// there are occurrences. Without an occurrence, and for an empty `sep`, the
/// one piece is `s`.
pub open spec fn split_on(s: Seq<char>, sep: Seq<char>) -> Seq<Seq<char>> {
    split_from(s, 0, 0, sep)
}

/// Splits `s` at the occurrences of `sep`.
pub fn split_chars(s: &[char], sep: &[char]) -> (r: Vec<String>)
    ensures
        r.deep_view() == split_on(s@, sep@),
{
    let mut out: Vec<String> = Vec::new();
    let mut start: usize = 0;
    let mut i: usize = 0;
    while sep.len() > 0 && i <= s.len() && sep.len() <= s.len() - i
        invariant
            start <= i,
            start <= s@.len(),
            split_on(s@, sep@) == out.deep_view() + split_from(s@, start as int, i as int, sep@),
        decreases s.len() - i,
    {
        if starts_with_at(s, i, sep) {
            let ghost before = out.deep_view();
            out.push(string_of(s, start, i));
            assert(out.deep_view() =~= before + seq![s@.subrange(start as int, i as int)]);
            assert(before + (seq![s@.subrange(start as int, i as int)] + split_from(
                s@,
                i + sep@.len(),
                i + sep@.len(),
                sep@,
            )) =~= (before + seq![s@.subrange(start as int, i as int)]) + split_from(
                s@,
                i + sep@.len(),
                i + sep@.len(),
                sep@,
            ));
            i = i + sep.len();
            start = i;
        } else {
            i = i + 1;
        }
    }
    let ghost before = out.deep_view();
    out.push(string_of(s, start, s.len()));
    assert(out.deep_view() =~= before + seq![s@.subrange(start as int, s@.len() as int)]);
    out
}

/// Splits `s` at the occurrences of `sep`.
pub fn split(s: &str, sep: &str) -> (r: Vec<String>)
    ensures
        r.deep_view() == split_on(s@, sep@),
{
    split_chars(to_chars(s).as_slice(), to_chars(sep).as_slice())
}

/// Whether `s` begins with `p`.
pub fn starts_with(s: &str, p: &str) -> (r: bool)
    ensures
        r == has_prefix_at(s@, 0, p@),
{
    starts_with_at(to_chars(s).as_slice(), 0, to_chars(p).as_slice())
}

/// The strings of `parts` one after the other, `sep` between each two.
pub open spec fn join_with(parts: Seq<Seq<char>>, sep: Seq<char>) -> Seq<char>
    decreases parts.len(),
{
    if parts.len() == 0 {
        Seq::empty()
    } else if parts.len() == 1 {
        parts[0]
    } else {
        join_with(parts.drop_last(), sep) + sep + parts.last()
    }
}

/// Puts the strings of `parts` one after the other, `sep` between each two.
pub fn join(parts: &Vec<String>, sep: &str) -> (r: String)
    ensures
        r@ == join_with(parts.deep_view(), sep@),
{
    let mut out = String::new();
    let mut i: usize = 0;
    while i < parts.len()
        invariant
            i <= parts.len(),
            out@ == join_with(parts.deep_view().take(i as int), sep@),
        decreases parts.len() - i,
    {
        proof {
            let next = parts.deep_view().take(i + 1);
            assert(next.drop_last() == parts.deep_view().take(i as int));
            assert(next.last() == parts@[i as int]@);
        }
        if i > 0 {
            out.append(sep);
        }
        out.append(parts[i].as_str());
        assert(out@ =~= join_with(parts.deep_view().take(i + 1), sep@));
        i = i + 1;
    }
    assert(parts.deep_view().take(i as int) == parts.deep_view());
    out
}

/// Whether a character has the property `White_Space` of Unicode: the
/// controls from the tabulation to the carriage return, the space, the next
/// line, the no-break space, the Ogham space mark, the spaces from the en
/// quad to the hair space, the line and the paragraph separator, the narrow
/// no-break space, the medium mathematical space and the ideographic space.
pub open spec fn is_white_space(c: char) -> bool {
    ('\u{0009}' <= c && c <= '\u{000D}') || c == '\u{0020}' || c == '\u{0085}' || c
        == '\u{00A0}' || c == '\u{1680}' || ('\u{2000}' <= c && c <= '\u{200A}') || c
        == '\u{2028}' || c == '\u{2029}' || c == '\u{202F}' || c == '\u{205F}' || c
        == '\u{3000}'
}

/// `char::is_whitespace` tells whether a character has the property
/// `White_Space` of Unicode.
pub assume_specification[ char::is_whitespace ](c: char) -> (r: bool)
    ensures
        r == is_white_space(c),
;

/// The end of the white space that starts at `i`.
pub open spec fn leading_end(s: Seq<char>, i: int) -> int
    decreases s.len() - i,
{
    if 0 <= i < s.len() && is_white_space(s[i]) {
        leading_end(s, i + 1)
    } else {
        i
    }
}

/// The start of the white space that ends at `j`, no earlier than `low`.
pub open spec fn trailing_start(s: Seq<char>, j: int, low: int) -> int
    decreases j,
{
    if 0 <= low < j <= s.len() && is_white_space(s[j - 1]) {
        trailing_start(s, j - 1, low)
    } else {
        j
    }
}

/// A text without the white space at its start and at its end.
pub open spec fn trimmed(s: Seq<char>) -> Seq<char> {
    s.subrange(leading_end(s, 0), trailing_start(s, s.len() as int, leading_end(s, 0)))
}

/// A text without the white space at its start and at its end.
pub fn trim(s: &str) -> (r: String)
    ensures
        r@ == trimmed(s@),
{
    let chars = to_chars(s);
    let mut a: usize = 0;
    while a < chars.len() && chars[a].is_whitespace()
        invariant
            a <= chars@.len(),
            leading_end(chars@, 0) == leading_end(chars@, a as int),
        decreases chars.len() - a,
    {
        a = a + 1;
    }
    let mut b: usize = chars.len();
    while b > a && chars[b - 1].is_whitespace()
        invariant
            a <= b <= chars@.len(),
            trailing_start(chars@, chars@.len() as int, a as int) == trailing_start(
                chars@,
                b as int,
                a as int,
            ),
        decreases b,
    {
        b = b - 1;
    }
    string_of(chars.as_slice(), a, b)
}

} // verus!
