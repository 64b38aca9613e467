//! The parser of modifiers: `add` or `delete` and the patterns concerned.
pub use crate::base_parser::{extract_triplet, parse_triplet_and, Comp, Language, Triplet};
use crate::base_parser::{read_triplets, triplets_at, AstView, PredicatAST};
use crate::grammar::{
    model_of, outcome, parsed_view, tag, value_result, within, ErrorKind, ParseFailure, Parsed,
    Read,
};
use crate::text::{has_prefix_at, to_chars};
use vstd::prelude::*;

verus! {

/// `add` and one pattern or more.
pub open spec fn add_modifier_at(s: Seq<char>, i: int) -> Parsed<AstView> {
    if has_prefix_at(s, i, "add"@) {
        match triplets_at(s, i + "add"@.len()) {
            Ok((end, triplets)) => Ok((end, AstView::AddModifier(triplets))),
            Err(f) => Err(f),
        }
    } else {
        Err((i, ErrorKind::Tag))
    }
}

/// Reads `add` and its patterns at `i`.
pub(crate) fn read_add_modifier(s: &[char], i: usize) -> (r: Read<PredicatAST>)
    requires
        i <= s@.len(),
    ensures
        model_of(r) == add_modifier_at(s@, i as int),
        within(r, i as int, s@.len() as int),
        r matches Ok((end, read)) ==> i < end,
{
    match tag(s, i, "add") {
        Ok(j) => match read_triplets(s, j) {
            Ok((end, triplets)) => Ok((end, PredicatAST::AddModifier(triplets))),
            Err(f) => Err(f),
        },
        Err(f) => Err(f),
    }
}

/// Reads `add` and its patterns at the start of `s`.
pub fn parse_add_modifier(s: &str) -> (r: Result<(&str, PredicatAST), ParseFailure>)
    ensures
        parsed_view(r) == outcome(s@, add_modifier_at(s@, 0)),
{
    let chars = to_chars(s);
    value_result(s, read_add_modifier(chars.as_slice(), 0))
}

/// `delete` and one pattern or more.
pub open spec fn delete_modifier_at(s: Seq<char>, i: int) -> Parsed<AstView> {
    if has_prefix_at(s, i, "delete"@) {
        match triplets_at(s, i + "delete"@.len()) {
            Ok((end, triplets)) => Ok((end, AstView::DeleteModifier(triplets))),
            Err(f) => Err(f),
        }
    } else {
        Err((i, ErrorKind::Tag))
    }
}

/// Reads `delete` and its patterns at `i`.
pub(crate) fn read_delete_modifier(s: &[char], i: usize) -> (r: Read<PredicatAST>)
    requires
        i <= s@.len(),
    ensures
        model_of(r) == delete_modifier_at(s@, i as int),
        within(r, i as int, s@.len() as int),
        r matches Ok((end, read)) ==> i < end,
{
    match tag(s, i, "delete") {
        Ok(j) => match read_triplets(s, j) {
            Ok((end, triplets)) => Ok((end, PredicatAST::DeleteModifier(triplets))),
            Err(f) => Err(f),
        },
        Err(f) => Err(f),
    }
}

/// Reads `delete` and its patterns at the start of `s`.
pub fn parse_delete_modifier(s: &str) -> (r: Result<(&str, PredicatAST), ParseFailure>)
    ensures
        parsed_view(r) == outcome(s@, delete_modifier_at(s@, 0)),
{
    let chars = to_chars(s);
    value_result(s, read_delete_modifier(chars.as_slice(), 0))
}

/// A modifier: an addition, else a deletion.
pub open spec fn modifier_at(s: Seq<char>, i: int) -> Parsed<AstView> {
    match add_modifier_at(s, i) {
        Ok(read) => Ok(read),
        Err(_) => delete_modifier_at(s, i),
    }
}

/// Reads a modifier at `i`.
pub(crate) fn read_modifier(s: &[char], i: usize) -> (r: Read<PredicatAST>)
    requires
        i <= s@.len(),
    ensures
        model_of(r) == modifier_at(s@, i as int),
        within(r, i as int, s@.len() as int),
        r matches Ok((end, read)) ==> i < end,
{
    match read_add_modifier(s, i) {
        Ok(read) => Ok(read),
        Err(_) => read_delete_modifier(s, i),
    }
}

/// Reads a modifier at the start of `s`: the rest of the input and the
/// modifier, or the failure.
pub fn parse_modifier(s: &str) -> (r: Result<(&str, PredicatAST), ParseFailure>)
    ensures
        parsed_view(r) == outcome(s@, modifier_at(s@, 0)),
{
    let chars = to_chars(s);
    value_result(s, read_modifier(chars.as_slice(), 0))
}

} // verus!
