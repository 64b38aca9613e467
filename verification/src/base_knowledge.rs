//! What a store of facts and rules offers to the engine.
//!
//! A store answers from what it holds at the time of the call. The
//! contracts of this module therefore state only what holds of every
//! answer.
use crate::base_parser::{AstView, PredicatAST, Triplet};
use crate::context_traits::{Context, Table};
use crate::grammar::ErrorKind;
use crate::simple_context::SimpleContext;
use vstd::prelude::*;
use vstd::string::*;

verus! {

/// What can go wrong between a command and the store.
#[derive(Debug, PartialEq)]
pub enum KnowledgeError {
    /// The input could not be read as a command: the input that was left,
    /// and why the parser stopped.
    ParseFailure(String, ErrorKind),
    /// A command that stands for nothing was to be translated.
    EmptyAST,
    /// The store refused a command; its message.
    StoreError(String),
    /// A command was refused because a rule blocks it; its canonical text.
    InvalidCommand(String),
}

/// Whether a command can be translated for a store: a query, a modifier or
/// a rule.
pub open spec fn translatable(ast: AstView) -> bool {
    ast is Query || ast is AddModifier || ast is DeleteModifier || ast is Infer
}

/// Whether a command changes the facts: an addition or a deletion.
pub open spec fn modifying(ast: AstView) -> bool {
    ast is AddModifier || ast is DeleteModifier
}

/// The patterns of a command: those of a query, of a modifier, or of the
/// trigger of a rule.
pub open spec fn patterns_of(ast: AstView) -> Seq<crate::triplet::TripletView> {
    match ast {
        AstView::Query(vars, tri, comps) => tri,
        AstView::AddModifier(tri) => tri,
        AstView::DeleteModifier(tri) => tri,
        AstView::Infer(kind, tri, premise, body) => tri,
        _ => Seq::empty(),
    }
}

/// Values that can be merged two by two.
pub trait Joinable: Sized {
    /// Whether `r` is what merging `a` and `b` gives.
    spec fn joins(a: Self, b: Self, r: Self) -> bool;

    /// Merges two values.
    fn join(a: Self, b: Self) -> (r: Self)
        ensures
            Self::joins(a, b, r),
    ;
}

impl Joinable for SimpleContext {
    /// The tables are concatenated column by column; the commands and the
    /// log are those of the second context.
    open spec fn joins(a: Self, b: Self, r: Self) -> bool {
        &&& r.table() == a.table().joined(b.table())
        &&& r.cmds.deep_view() == b.cmds.deep_view()
        &&& r.log.deep_view() == b.log.deep_view()
    }

    fn join(a: Self, b: Self) -> (r: Self) {
        SimpleContext::join_contexts(a, b)
    }
}

/// The memory of the commands that have been processed.
pub trait Cache {
    /// Whether the command has been processed.
    fn in_cache(&self, cmd: &PredicatAST) -> bool;

    /// Remembers that the command has been processed, and returns it.
    fn store_to_cache(&self, modifier: &PredicatAST) -> (r: PredicatAST)
        ensures
            r.deep_view() == modifier.deep_view(),
    ;

    /// Forgets every command.
    fn clear_cache(&self);
}

/// The first index at which a list holds `true`.
pub open spec fn first_true(flags: Seq<bool>) -> Option<int>
    decreases flags.len(),
{
    if flags.len() == 0 {
        None
    } else if first_true(flags.drop_last()) is Some {
        first_true(flags.drop_last())
    } else if flags.last() {
        Some(flags.len() - 1)
    } else {
        None
    }
}

/// Where there is a first `true`, it is one, and none stands before it;
/// where there is none, the list holds no `true`.
pub proof fn lemma_first_true(flags: Seq<bool>)
    ensures
        match first_true(flags) {
            Some(i) => 0 <= i < flags.len() && flags[i] && forall|k: int|
                0 <= k < i ==> !flags[k],
            None => forall|k: int| 0 <= k < flags.len() ==> !flags[k],
        },
    decreases flags.len(),
{
    if flags.len() > 0 {
        lemma_first_true(flags.drop_last());
        assert(forall|k: int| 0 <= k < flags.len() - 1 ==> flags.drop_last()[k] == flags[k]);
    }
}

/// The verdicts that count for a batch: one for each command, in order.
pub open spec fn verdicts_for(blocked: Seq<bool>, commands: int) -> Seq<bool> {
    if commands < blocked.len() {
        blocked.take(commands)
    } else {
        blocked
    }
}

/// Judges a batch of commands from the verdicts of the store on each of
/// them: the batch is refused as soon as one command is blocked, and the
/// first blocked command is the one reported. No command of a refused batch
/// is to be executed. A command without a verdict is not blocked.
pub fn judge_batch(cmds: &[PredicatAST], blocked: &[bool]) -> (r: Result<(), KnowledgeError>)
    ensures
        match r {
            Ok(()) => first_true(verdicts_for(blocked@, cmds@.len() as int)) is None,
            Err(e) => (first_true(verdicts_for(blocked@, cmds@.len() as int)) matches Some(i) && (
            e matches KnowledgeError::InvalidCommand(text) && text@
                == crate::base_parser::canonical_text(cmds@[i].deep_view()))),
        },
{
    let n = if cmds.len() < blocked.len() {
        cmds.len()
    } else {
        blocked.len()
    };
    let ghost verdicts = verdicts_for(blocked@, cmds@.len() as int);
    let mut i: usize = 0;
    assert(verdicts.take(0) =~= Seq::<bool>::empty());
    while i < n
        invariant
            i <= n,
            n <= cmds.len(),
            n <= blocked.len(),
            verdicts.len() == n,
            verdicts == verdicts_for(blocked@, cmds@.len() as int),
            first_true(verdicts.take(i as int)) is None,
        decreases n - i,
    {
        proof {
            let next = verdicts.take(i + 1);
            assert(next.drop_last() == verdicts.take(i as int));
            assert(next.last() == blocked@[i as int]);
        }
        if blocked[i] {
            proof {
                lemma_first_true_prefix(verdicts, i + 1);
            }
            return Err(KnowledgeError::InvalidCommand(cmds[i].text()));
        }
        i = i + 1;
    }
    assert(verdicts.take(i as int) == verdicts);
    Ok(())
}

/// The commands of a batch if none of them is blocked, else nothing: see
/// [`judge_batch`].
pub fn all_valid(cmds: Vec<PredicatAST>, blocked: &[bool]) -> (r: Option<Vec<PredicatAST>>)
    ensures
        r is Some <==> first_true(verdicts_for(blocked@, cmds@.len() as int)) is None,
        r matches Some(v) ==> v.deep_view() == cmds.deep_view(),
{
    match judge_batch(cmds.as_slice(), blocked) {
        Ok(()) => Some(cmds),
        Err(_) => None,
    }
}

/// A first `true` among the first `n` items is the first `true` of the
/// whole list.
pub proof fn lemma_first_true_prefix(flags: Seq<bool>, n: int)
    requires
        0 <= n <= flags.len(),
        first_true(flags.take(n)) is Some,
    ensures
        first_true(flags) == first_true(flags.take(n)),
    decreases flags.len() - n,
{
    if n < flags.len() {
        let next = flags.take(n + 1);
        assert(next.drop_last() == flags.take(n));
        lemma_first_true_prefix(flags, n + 1);
    } else {
        assert(flags.take(n) == flags);
    }
}

/// The commands that a store understands and answers.
pub trait Command: Cache {
    /// The language of the store.
    type Language;

    /// Asks the store a question in its own language.
    fn get(&self, cmds: &str) -> (r: Result<SimpleContext, KnowledgeError>)
        ensures
            r matches Ok(c) ==> c.table().aligned(),
            r matches Err(e) ==> e is StoreError,
    ;

    /// All the facts of the store.
    fn get_all(&self) -> (r: Result<SimpleContext, KnowledgeError>)
        ensures
            r matches Ok(c) ==> c.table().aligned(),
            r matches Err(e) ==> e is StoreError,
    ;

    /// Has the store carry out a change in its own language. The answer to
    /// a change is an empty context.
    fn modify(&self, cmds: &str) -> (r: Result<SimpleContext, KnowledgeError>)
        ensures
            r matches Ok(c) ==> c.table() == Table::empty(),
            r matches Err(e) ==> e is StoreError,
    ;

    /// Translates a command into the language of the store. A query, a
    /// modifier and a rule can be translated; anything else is refused as
    /// empty.
    fn translate(&self, s: &PredicatAST) -> (r: Result<Vec<Self::Language>, KnowledgeError>)
        ensures
            r is Ok <==> translatable(s.deep_view()),
            r matches Err(e) ==> e == KnowledgeError::EmptyAST,
    ;

    /// Has the store carry out one command in its own language.
    fn execute(&self, s: &Self::Language) -> (r: Result<SimpleContext, KnowledgeError>)
        ensures
            r matches Ok(c) ==> c.table().aligned(),
            r matches Err(e) ==> e is StoreError,
    ;

    /// Whether a rule of the store blocks the command. Only the definition
    /// of a rule can be blocked.
    fn is_invalid(&self, cmd: &PredicatAST) -> (r: bool)
        ensures
            r ==> cmd.deep_view() is Infer,
    ;

    /// The commands that the rules of the store give rise to when the
    /// command is carried out. Only an addition or a deletion gives rise to
    /// commands.
    fn infer_commands_from(&self, cmds: &PredicatAST) -> (r: Vec<String>)
        ensures
            !modifying(cmds.deep_view()) ==> r.deep_view().len() == 0,
    ;

    /// The commands that the rules of the store give rise to when a fact is
    /// added (`modifier` is `add`) or deleted (`delete`).
    fn infer_command_from_triplet(&self, modifier: &str, tri: &Triplet) -> Vec<String>;

    /// The commands themselves if the store blocks none of them, else
    /// nothing: the store judges every command, and the verdicts decide as
    /// [`all_valid`] says. A batch without the definition of a rule is never
    /// blocked.
    fn valid_commands(&self, cmds: Vec<PredicatAST>) -> (r: Option<Vec<PredicatAST>>)
        ensures
            r matches Some(v) ==> v.deep_view() == cmds.deep_view(),
            (forall|i: int| 0 <= i < cmds.len() ==> !(#[trigger] cmds@[i].deep_view() is Infer))
                ==> r is Some,
    {
        let mut verdicts: Vec<bool> = Vec::new();
        let mut i: usize = 0;
        while i < cmds.len()
            invariant
                i <= cmds.len(),
                verdicts.len() == i,
                forall|k: int|
                    0 <= k < i ==> (#[trigger] verdicts@[k] ==> cmds@[k].deep_view() is Infer),
            decreases cmds.len() - i,
        {
            verdicts.push(self.is_invalid(&cmds[i]));
            i = i + 1;
        }
        proof {
            assert(verdicts_for(verdicts@, cmds@.len() as int) == verdicts@);
            lemma_first_true(verdicts@);
        }
        all_valid(cmds, verdicts.as_slice())
    }

    /// Carries out one command: remembers it, translates it, has the store
    /// carry out each part of the translation, and joins the answers. A
    /// command that cannot be translated is remembered and refused as empty;
    /// the first part that the store refuses ends the command with the
    /// error of the store.
    fn execute_command(&self, subcmd: &PredicatAST) -> (r: Result<SimpleContext, KnowledgeError>)
        ensures
            !translatable(subcmd.deep_view()) <==> r == Err::<SimpleContext, _>(
                KnowledgeError::EmptyAST,
            ),
            r matches Err(e) ==> e == KnowledgeError::EmptyAST || e is StoreError,
    {
        let cmd = self.store_to_cache(subcmd);
        match self.translate(&cmd) {
            Err(e) => Err(e),
            Ok(parts) => {
                let mut answer = SimpleContext::new();
                let mut i: usize = 0;
                while i < parts.len()
                    invariant
                        i <= parts.len(),
                        translatable(subcmd.deep_view()),
                    decreases parts.len() - i,
                {
                    match self.execute(&parts[i]) {
                        Err(e) => {
                            return Err(e);
                        },
                        Ok(part) => {
                            answer = SimpleContext::join_contexts(answer, part);
                        },
                    }
                    i = i + 1;
                }
                Ok(answer)
            },
        }
    }
}

/// The facts of a store.
pub trait FactManager {
    /// Forgets every fact.
    fn clear_facts(&self);

    /// Remembers that a fact was added or deleted.
    fn save_facts(&self, modifier: &str, subject: &str, link: &str, goal: &str);
}

/// The rules of a store.
pub trait RuleManager {
    /// Registers a rule, given in the language of the store.
    fn store_rule(&self, s: &str) -> (r: Result<SimpleContext, KnowledgeError>)
        ensures
            r matches Ok(c) ==> c.table() == Table::empty(),
            r matches Err(e) ==> e is StoreError,
    ;

    /// The rules of the store: the six fields of each rule, rule after rule.
    fn get_rules(&self) -> Vec<String>;

    /// Forgets every rule.
    fn clear_rules(&self);
}

/// A store of facts and rules with a memory of the commands processed.
pub trait Knowledgeable: Command + FactManager + RuleManager + Cache + Sized {
    /// Opens the store.
    fn new() -> (r: Result<Self, KnowledgeError>)
        ensures
            r matches Err(e) ==> e is StoreError,
    ;

    /// Forgets every fact, every rule and every command.
    fn clear_all(&self) {
        self.clear_facts();
        self.clear_rules();
        self.clear_cache();
    }
}

/// What is reported for a kind of store that does not exist.
pub open spec fn no_such_knowledge(kind: Seq<char>) -> Seq<char> {
    "There is no '"@ + kind + "' knowledge availiable"@
}

/// Opens a store of a kind. The one kind is `sqlite`; any other is
/// reported as unknown, and a store that cannot be opened is reported with
/// its message.
pub fn new_knowledge<K: Knowledgeable>(kind: &str) -> (r: Result<K, String>)
    ensures
        kind@ != "sqlite"@ ==> (r matches Err(message) && message@ == no_such_knowledge(kind@)),
{
    if crate::text::str_eq(kind, "sqlite") {
        match K::new() {
            Ok(k) => Ok(k),
            Err(KnowledgeError::StoreError(message)) => Err(message),
            Err(_) => Err(String::new()),
        }
    } else {
        Err(String::from_str("There is no '").concat(kind).concat("' knowledge availiable"))
    }
}

} // verus!
