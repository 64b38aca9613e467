//! A small logic-programming engine over facts of the form subject,
//! relation, object.
//!
//! A command is a text: a query (`get $A where $A est mortel`), a modifier
//! (`add socrate est mortel`, `delete ..`) or a rule
//! (`infer add $A ami $B -> add $B ami $A`). It is read into a
//! [`base_parser::PredicatAST`], made concrete against a binding table,
//! translated into the language of a store of facts and rules, and carried
//! out; the rules that a change of the facts concerns give rise to further
//! commands, which are carried out in turn.
//!
//! - [`text`] and [`sorting`]: texts as sequences of characters.
//! - [`triplet`], [`base_parser`], [`grammar`], [`parse_query`],
//!   [`parse_modifier`], [`parser`]: the terms of the language and its
//!   grammar. Every parser is specified by a function of the input that
//!   says where it stops and what it reads, or where and why it fails.
//! - [`context_traits`], [`simple_context`]: the binding table.
//! - [`metaprogramming`]: substitution of a binding table into a command.
//! - [`base_knowledge`], [`sqlite_knowledge`]: the store, and the
//!   translation of commands into its language.
//! - [`interpreter`]: the rounds of a run.
pub mod base_knowledge;
pub mod base_parser;
pub mod context_traits;
pub mod grammar;
pub mod interpreter;
pub mod metaprogramming;
pub mod parse_modifier;
pub mod parse_query;
pub mod parser;
pub mod simple_context;
pub mod sorting;
pub mod sqlite_knowledge;
pub mod text;
pub mod triplet;
