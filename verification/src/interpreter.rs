//! The inference driver: one round of it takes commands as texts, reads
//! them, has the store judge and carry them out, and collects the commands
//! that the rules of the store give rise to. Its caller runs round after
//! round until no command is left.
use crate::base_knowledge::{
    judge_batch, modifying, translatable, Cache, Command, KnowledgeError, Knowledgeable,
};
use crate::base_parser::{canonical_text, AstView, PredicatAST};
use crate::context_traits::{Context, Table};
use crate::metaprogramming::substitute_variables;
use crate::parser::{parse_command, parsed_commands, try_parse_command, ContextCMD};
use crate::simple_context::{DataFrame, SimpleContext};
use crate::text::{replace, replace_all, split, split_on, trim, trimmed};
use vstd::prelude::*;
use vstd::string::*;

verus! {

/// The commands of an input: none where not even the first can be read.
pub open spec fn commands_of(input: Seq<char>) -> Seq<AstView> {
    match parsed_commands(input) {
        Ok(commands) => commands,
        Err(_) => Seq::empty(),
    }
}

/// The commands of a list of inputs, input after input.
pub open spec fn commands_of_all(inputs: Seq<Seq<char>>) -> Seq<AstView>
    decreases inputs.len(),
{
    if inputs.len() == 0 {
        Seq::empty()
    } else {
        commands_of_all(inputs.drop_last()) + commands_of(inputs.last())
    }
}

/// The tables of a list joined one after the other, from the empty table.
pub open spec fn joined_all(tables: Seq<Table>) -> Table
    decreases tables.len(),
{
    if tables.len() == 0 {
        Table::empty()
    } else {
        joined_all(tables.drop_last()).joined(tables.last())
    }
}

/// The texts of a list of lists, list after list.
pub open spec fn concatenated(lists: Seq<Seq<Seq<char>>>) -> Seq<Seq<char>>
    decreases lists.len(),
{
    if lists.len() == 0 {
        Seq::empty()
    } else {
        concatenated(lists.drop_last()) + lists.last()
    }
}

/// What one command of a round gave.
#[derive(Debug, PartialEq)]
pub enum Outcome {
    /// The store had processed the command before: it was passed over.
    Cached,
    /// The command was carried out: the answer of the store, and the
    /// commands that the rules of the store give rise to.
    Done(SimpleContext, Vec<String>),
}

impl Outcome {
    /// The table that the command gave: none for a command passed over.
    pub open spec fn table(self) -> Table {
        match self {
            Outcome::Cached => Table::empty(),
            Outcome::Done(answer, followups) => answer.table(),
        }
    }

    /// The commands that the command gave rise to: none for a command
    /// passed over.
    pub open spec fn followups(self) -> Seq<Seq<char>> {
        match self {
            Outcome::Cached => Seq::empty(),
            Outcome::Done(answer, followups) => followups.deep_view(),
        }
    }
}

/// The tables that the commands of a round gave, in order.
pub open spec fn tables_of(parts: Seq<Outcome>) -> Seq<Table> {
    Seq::new(parts.len(), |i: int| parts[i].table())
}

/// The commands that the commands of a round gave rise to, in order.
pub open spec fn followups_of(parts: Seq<Outcome>) -> Seq<Seq<Seq<char>>> {
    Seq::new(parts.len(), |i: int| parts[i].followups())
}

/// Whether tables and lists of commands can be what the commands of a round
/// gave, one of each for each command: a command that stands for nothing
/// gave no table, and a command that is no modifier gave rise to no command.
/// A command that the store had processed before gave neither.
pub open spec fn round_parts(cmds: Seq<AstView>, tables: Seq<Table>, lists: Seq<Seq<Seq<char>>>) -> bool {
    &&& tables.len() == cmds.len()
    &&& lists.len() == cmds.len()
    &&& forall|i: int|
        0 <= i < cmds.len() ==> (!(#[trigger] translatable(cmds[i])) ==> tables[i] == Table::empty())
    &&& forall|i: int|
        0 <= i < cmds.len() ==> (!(#[trigger] modifying(cmds[i])) ==> lists[i].len() == 0)
}

/// Whether a table and commands can be the result of a round on `cmds`: the
/// tables that the commands gave, joined in order, and the commands that
/// they gave rise to, command after command.
pub open spec fn round_result(cmds: Seq<AstView>, table: Table, commands: Seq<Seq<char>>) -> bool {
    exists|tables: Seq<Table>, lists: Seq<Seq<Seq<char>>>|
        #[trigger] round_parts(cmds, tables, lists) && table == joined_all(tables) && commands
            == concatenated(lists)
}

/// Whether a table and commands can be what a further round on `cmds`
/// leaves of a table: the table with the table of the round joined to it,
/// and the commands of the round.
pub open spec fn step_result(
    cmds: Seq<AstView>,
    before: Table,
    after: Table,
    commands: Seq<Seq<char>>,
) -> bool {
    exists|round: Table|
        #[trigger] round_result(cmds, round, commands) && after == before.joined(round)
}

/// Joining the empty table to a table leaves the table as it is.
pub proof fn lemma_joined_empty(t: Table)
    ensures
        t.joined(Table::empty()) == t,
{
    assert(Table::empty().entries.len() == 0);
}

/// Whether no command of a list is a modifier.
pub open spec fn without_modifier(cmds: Seq<AstView>) -> bool {
    forall|i: int| 0 <= i < cmds.len() ==> !(#[trigger] modifying(cmds[i]))
}

/// Lists without a text give no text.
pub proof fn lemma_concatenated_empty(lists: Seq<Seq<Seq<char>>>)
    requires
        forall|i: int| 0 <= i < lists.len() ==> (#[trigger] lists[i]).len() == 0,
    ensures
        concatenated(lists).len() == 0,
    decreases lists.len(),
{
    if lists.len() > 0 {
        assert forall|i: int| 0 <= i < lists.drop_last().len() implies (#[trigger] lists.drop_last()[i]).len()
            == 0 by {
            assert(lists.drop_last()[i] == lists[i]);
        }
        lemma_concatenated_empty(lists.drop_last());
        assert(lists.last() == lists[lists.len() - 1]);
    }
}

/// A round on commands of which none is a modifier gives rise to no
/// command.
pub proof fn lemma_round_without_modifier(
    cmds: Seq<AstView>,
    table: Table,
    commands: Seq<Seq<char>>,
)
    requires
        round_result(cmds, table, commands),
        without_modifier(cmds),
    ensures
        commands.len() == 0,
{
    let (tables, lists) = choose|tables: Seq<Table>, lists: Seq<Seq<Seq<char>>>|
        #[trigger] round_parts(cmds, tables, lists) && table == joined_all(tables) && commands
            == concatenated(lists);
    assert forall|i: int| 0 <= i < lists.len() implies (#[trigger] lists[i]).len() == 0 by {
        assert(!modifying(cmds[i]));
    }
    lemma_concatenated_empty(lists);
}

/// The result of a round from what each command gave: the answers joined
/// in order, and behind them all the commands that follow, command after
/// command. A command that was passed over adds no column and no command.
/// The log is empty.
pub fn merge_round(parts: Vec<Outcome>) -> (r: SimpleContext)
    ensures
        r.table() == joined_all(tables_of(parts@)),
        r.commands() == concatenated(followups_of(parts@)),
        r.log.deep_view().len() == 0,
{
    let mut answer = SimpleContext::new();
    let mut followups: Vec<String> = Vec::new();
    let mut i: usize = 0;
    assert(tables_of(parts@).take(0) =~= Seq::<Table>::empty());
    assert(followups_of(parts@).take(0) =~= Seq::<Seq<Seq<char>>>::empty());
    assert(followups.deep_view() =~= Seq::<Seq<char>>::empty());
    while i < parts.len()
        invariant
            i <= parts.len(),
            answer.table() == joined_all(tables_of(parts@).take(i as int)),
            followups.deep_view() == concatenated(followups_of(parts@).take(i as int)),
            answer.commands().len() == 0,
            answer.log.deep_view().len() == 0,
        decreases parts.len() - i,
    {
        proof {
            let tables = tables_of(parts@).take(i + 1);
            assert(tables.drop_last() == tables_of(parts@).take(i as int));
            assert(tables.last() == parts@[i as int].table());
            let lists = followups_of(parts@).take(i + 1);
            assert(lists.drop_last() == followups_of(parts@).take(i as int));
            assert(lists.last() == parts@[i as int].followups());
        }
        let none: Vec<String> = Vec::new();
        assert(none.deep_view() =~= Seq::<Seq<char>>::empty());
        let mut part = SimpleContext::new();
        let mut more = &none;
        match &parts[i] {
            Outcome::Cached => {},
            Outcome::Done(answer, followups) => {
                part = answer.clone();
                more = followups;
            },
        }
        assert(part.table() == parts@[i as int].table());
        assert(more.deep_view() == parts@[i as int].followups());
        part.cmds = Vec::new();
        part.log = Vec::new();
        assert(part.cmds.deep_view() =~= Seq::<Seq<char>>::empty());
        assert(part.log.deep_view() =~= Seq::<Seq<char>>::empty());
        answer = SimpleContext::join_contexts(answer, part);
        let ghost before = followups.deep_view();
        let mut j: usize = 0;
        while j < more.len()
            invariant
                j <= more.len(),
                followups.len() == before.len() + j,
                forall|k: int| 0 <= k < before.len() ==> (#[trigger] followups@[k])@ == before[k],
                forall|k: int|
                    0 <= k < j ==> (#[trigger] followups@[before.len() + k])@ == more@[k]@,
            decreases more.len() - j,
        {
            followups.push(more[j].clone());
            j = j + 1;
        }
        assert(followups.deep_view() =~= before + more.deep_view()) by {
            assert forall|k: int| 0 <= k < followups.deep_view().len() implies followups.deep_view()[k]
                == (before + more.deep_view())[k] by {
                if k >= before.len() {
                    assert(followups@[before.len() + (k - before.len())]@ == more@[k
                        - before.len()]@);
                }
            }
        }
        i = i + 1;
    }
    assert(tables_of(parts@).take(i as int) == tables_of(parts@));
    assert(followups_of(parts@).take(i as int) == followups_of(parts@));
    let r = answer.add_aftercmd(followups.as_slice());
    assert(r.commands() =~= followups.deep_view());
    r
}

/// An engine: a store, and the context that the last run left.
pub struct Interpreter<K: Knowledgeable> {
    pub context: SimpleContext,
    pub knowledge: K,
}

impl<K: Knowledgeable> Interpreter<K> {
    /// An engine on a store, with an empty context.
    pub fn new(k: K) -> (r: Self)
        ensures
            r.context.table() == Table::empty(),
    {
        Interpreter { context: SimpleContext::new(), knowledge: k }
    }

    /// The commands of one input, each substituted against the empty
    /// context, which leaves it as it is.
    pub fn single_parse(command: &String) -> (r: Vec<PredicatAST>)
        ensures
            r.deep_view() == commands_of(command@),
    {
        let asts = parse_command(command.as_str());
        let ambient = SimpleContext::new();
        let mut out: Vec<PredicatAST> = Vec::new();
        let mut i: usize = 0;
        while i < asts.len()
            invariant
                i <= asts.len(),
                ambient.table() == Table::empty(),
                out.len() == i,
                forall|k: int|
                    0 <= k < i ==> (#[trigger] out@[k]).deep_view() == asts@[k].deep_view(),
            decreases asts.len() - i,
        {
            match substitute_variables(&ambient, asts[i].clone()) {
                Some(mut versions) => {
                    assert(versions.deep_view() == seq![asts@[i as int].deep_view()]);
                    assert(versions.deep_view().len() == 1);
                    assert(versions.deep_view()[0] == versions@[0].deep_view());
                    let one = versions.pop().unwrap();
                    out.push(one);
                },
                None => {
                    assert(false);
                },
            }
            i = i + 1;
        }
        assert(out.deep_view() =~= asts.deep_view());
        out
    }

    /// The commands of a list of inputs, input after input. An input that
    /// cannot be read gives no command.
    pub fn parse(&self, cmds: &[String]) -> (r: Vec<PredicatAST>)
        ensures
            r.deep_view() == commands_of_all(cmds.deep_view()),
    {
        let mut out: Vec<PredicatAST> = Vec::new();
        let mut i: usize = 0;
        assert(cmds.deep_view().take(0) =~= Seq::<Seq<char>>::empty());
        assert(out.deep_view() =~= Seq::<AstView>::empty());
        while i < cmds.len()
            invariant
                i <= cmds.len(),
                out.deep_view() == commands_of_all(cmds.deep_view().take(i as int)),
            decreases cmds.len() - i,
        {
            proof {
                let next = cmds.deep_view().take(i + 1);
                assert(next.drop_last() == cmds.deep_view().take(i as int));
                assert(next.last() == cmds@[i as int]@);
            }
            let ghost before = out.deep_view();
            let mut more = Self::single_parse(&cmds[i]);
            let ghost added = more.deep_view();
            let ghost old_out = out@;
            let ghost old_more = more@;
            out.append(&mut more);
            assert(out.deep_view() =~= before + added) by {
                assert(out@ == old_out + old_more);
                assert forall|k: int| 0 <= k < out@.len() implies #[trigger] out.deep_view()[k] == (
                    before + added)[k] by {
                    if k < old_out.len() {
                        assert(out@[k] == old_out[k]);
                    } else {
                        assert(out@[k] == old_more[k - old_out.len()]);
                    }
                }
            }
            i = i + 1;
        }
        assert(cmds.deep_view().take(i as int) == cmds.deep_view());
        out
    }

    /// One round on commands that have been read. The store judges every
    /// command first; if it blocks one, the round ends with the first
    /// blocked command as an invalid command, and no command is carried
    /// out. Else each command that the store has not processed before is
    /// carried out, in order, and what the commands gave is merged: see
    /// [`merge_round`] and [`round_result`]. A command that the store has
    /// processed before gives nothing. The first command that fails ends the
    /// round with its error.
    ///
    /// Only the definition of a rule can be blocked, and only a command
    /// that stands for nothing is refused as empty.
    pub fn execute(&self, cmds: &[PredicatAST]) -> (r: Result<SimpleContext, KnowledgeError>)
        ensures
            r matches Err(KnowledgeError::InvalidCommand(text)) ==> exists|i: int|
                0 <= i < cmds@.len() && #[trigger] cmds@[i].deep_view() is Infer && text@
                    == canonical_text(cmds@[i].deep_view()),
            r matches Err(KnowledgeError::EmptyAST) ==> exists|i: int|
                0 <= i < cmds@.len() && !translatable(#[trigger] cmds@[i].deep_view()),
            r matches Err(e) ==> e is InvalidCommand || e is EmptyAST || e is StoreError,
            r matches Ok(c) ==> c.log.deep_view().len() == 0,
            r matches Ok(c) ==> round_result(cmds.deep_view(), c.table(), c.commands()),
            without_modifier(cmds.deep_view()) ==> (r matches Ok(c) ==> c.commands().len() == 0),
            cmds@.len() == 0 ==> (r matches Ok(c) && c.table() == Table::empty()
                && c.commands().len() == 0),
    {
        let mut verdicts: Vec<bool> = Vec::new();
        let mut i: usize = 0;
        while i < cmds.len()
            invariant
                i <= cmds.len(),
                verdicts.len() == i,
                forall|k: int| 0 <= k < i ==> (#[trigger] verdicts@[k] ==> cmds@[k].deep_view() is Infer),
            decreases cmds.len() - i,
        {
            verdicts.push(self.knowledge.is_invalid(&cmds[i]));
            i = i + 1;
        }
        match judge_batch(cmds, verdicts.as_slice()) {
            Err(e) => {
                proof {
                    assert(crate::base_knowledge::verdicts_for(verdicts@, cmds@.len() as int)
                        == verdicts@);
                    crate::base_knowledge::lemma_first_true(verdicts@);
                    let k = crate::base_knowledge::first_true(verdicts@)->0;
                    assert(verdicts@[k]);
                    assert(cmds@[k].deep_view() is Infer);
                    assert(e matches KnowledgeError::InvalidCommand(text) && text@
                        == canonical_text(cmds@[k].deep_view()));
                }
                return Err(e);
            },
            Ok(()) => {},
        }
        let mut parts: Vec<Outcome> = Vec::new();
        let mut j: usize = 0;
        while j < cmds.len()
            invariant
                j <= cmds.len(),
                parts.len() == j,
                forall|k: int|
                    0 <= k < j ==> (!(#[trigger] translatable(cmds@[k].deep_view()))
                        ==> parts@[k].table() == Table::empty()),
                forall|k: int|
                    0 <= k < j ==> (!(#[trigger] modifying(cmds@[k].deep_view()))
                        ==> parts@[k].followups().len() == 0),
            decreases cmds.len() - j,
        {
            if self.knowledge.in_cache(&cmds[j]) {
                parts.push(Outcome::Cached);
            } else {
                let more = self.knowledge.infer_commands_from(&cmds[j]);
                match self.knowledge.execute_command(&cmds[j]) {
                    Err(e) => {
                        return Err(e);
                    },
                    Ok(part) => {
                        parts.push(Outcome::Done(part, more));
                    },
                }
            }
            j = j + 1;
        }
        let r = merge_round(parts);
        proof {
            let tables = tables_of(parts@);
            let lists = followups_of(parts@);
            assert(round_parts(cmds.deep_view(), tables, lists)) by {
                assert forall|i: int|
                    0 <= i < cmds.deep_view().len() && !(#[trigger] translatable(
                        cmds.deep_view()[i],
                    )) implies tables[i] == Table::empty() by {
                    assert(cmds.deep_view()[i] == cmds@[i].deep_view());
                    assert(!translatable(cmds@[i].deep_view()));
                }
                assert forall|i: int|
                    0 <= i < cmds.deep_view().len() && !(#[trigger] modifying(
                        cmds.deep_view()[i],
                    )) implies lists[i].len() == 0 by {
                    assert(cmds.deep_view()[i] == cmds@[i].deep_view());
                    assert(!modifying(cmds@[i].deep_view()));
                }
            }
            assert(round_result(cmds.deep_view(), r.table(), r.commands()));
            if without_modifier(cmds.deep_view()) {
                lemma_round_without_modifier(cmds.deep_view(), r.table(), r.commands());
            }
            if cmds@.len() == 0 {
                assert(tables =~= Seq::<Table>::empty());
                assert(lists =~= Seq::<Seq<Seq<char>>>::empty());
            }
        }
        Ok(r)
    }

    /// Forgets the commands that have been processed.
    pub fn clear_cache(&self) {
        self.knowledge.clear_cache();
    }

    /// Forgets every fact, every rule and every command.
    pub fn clear(&self) {
        self.knowledge.clear_all();
    }

    /// The first round of a run. The commands that have been processed are
    /// forgotten and the input is read; an input of which not even the first
    /// command can be read ends the run with the failure of the parser. Else
    /// the round is carried out on the commands of the input: see
    /// [`Interpreter::execute`].
    pub fn begin(&self, cmd: &str) -> (r: Result<SimpleContext, KnowledgeError>)
        ensures
            parsed_commands(cmd@) matches Err(f) ==> (r matches Err(
                KnowledgeError::ParseFailure(input, code),
            ) && input@ == f.0 && code == f.1),
            parsed_commands(cmd@) is Ok ==> (r matches Err(e) ==> e is InvalidCommand
                || e is EmptyAST || e is StoreError),
            r matches Err(KnowledgeError::InvalidCommand(text)) ==> exists|i: int|
                0 <= i < commands_of(cmd@).len() && #[trigger] commands_of(cmd@)[i] is Infer
                    && text@ == canonical_text(commands_of(cmd@)[i]),
            r matches Ok(c) ==> c.log.deep_view().len() == 0,
            r matches Ok(c) ==> round_result(commands_of(cmd@), c.table(), c.commands()),
            without_modifier(commands_of(cmd@)) ==> (r matches Ok(c) ==> c.commands().len() == 0),
    {
        self.knowledge.clear_cache();
        match try_parse_command(cmd) {
            Err(f) => Err(KnowledgeError::ParseFailure(String::from_str(f.input), f.code)),
            Ok(asts) => {
                let r = self.execute(asts.as_slice());
                proof {
                    assert(asts.deep_view() == commands_of(cmd@));
                    if r is Err && r->Err_0 is InvalidCommand {
                        let text = r->Err_0->InvalidCommand_0;
                        let i = choose|i: int|
                            0 <= i < asts@.len() && #[trigger] asts@[i].deep_view() is Infer
                                && text@ == canonical_text(asts@[i].deep_view());
                        assert(commands_of(cmd@)[i] == asts@[i].deep_view());
                    }
                }
                r
            },
        }
    }

    /// Whether a run goes on from a context: commands follow from it, and
    /// its log holds no error.
    pub fn pending(context: &SimpleContext) -> (r: bool)
        ensures
            r == (context.commands().len() > 0 && context.log.deep_view().len() == 0),
    {
        context.has_commands() && !context.has_error()
    }

    /// A further round of a run: the commands that follow from the context
    /// are read, those that cannot be read are dropped, and the round is
    /// carried out on the others: see [`Interpreter::execute`]. The answer is
    /// joined to the table of the context; the commands that follow are
    /// those of this round alone: see [`step_result`]. Where no command can
    /// be read, the table of the context comes back as it is, and no command
    /// follows.
    pub fn step(&self, context: &SimpleContext) -> (r: Result<SimpleContext, KnowledgeError>)
        ensures
            r matches Err(KnowledgeError::InvalidCommand(text)) ==> exists|i: int|
                0 <= i < commands_of_all(context.commands()).len() && #[trigger] commands_of_all(
                    context.commands(),
                )[i] is Infer && text@ == canonical_text(commands_of_all(context.commands())[i]),
            r matches Err(e) ==> e is InvalidCommand || e is EmptyAST || e is StoreError,
            r matches Ok(c) ==> c.log.deep_view().len() == 0,
            without_modifier(commands_of_all(context.commands())) ==> (r matches Ok(c)
                ==> c.commands().len() == 0),
            r matches Ok(c) ==> step_result(
                commands_of_all(context.commands()),
                context.table(),
                c.table(),
                c.commands(),
            ),
            commands_of_all(context.commands()).len() == 0 ==> (r matches Ok(c) && c.table()
                == context.table() && c.commands().len() == 0),
    {
        let cmds = context.get_aftercmds();
        let asts = self.parse(cmds.as_slice());
        match self.execute(asts.as_slice()) {
            Err(e) => {
                proof {
                    if e is InvalidCommand {
                        let text = e->InvalidCommand_0;
                        let i = choose|i: int|
                            0 <= i < asts@.len() && #[trigger] asts@[i].deep_view() is Infer
                                && text@ == canonical_text(asts@[i].deep_view());
                        assert(commands_of_all(context.commands())[i] == asts@[i].deep_view());
                    }
                }
                Err(e)
            },
            Ok(round) => {
                let r = SimpleContext::join_contexts(context.clone(), round);
                proof {
                    lemma_joined_empty(context.table());
                    assert(round_result(
                        commands_of_all(context.commands()),
                        round.table(),
                        r.commands(),
                    ));
                }
                Ok(r)
            },
        }
    }

    /// A further round of a run, as [`Interpreter::step`] carries it out:
    /// what the rounds that follow need of it.
    fn advance(&self, context: &SimpleContext) -> (r: Result<SimpleContext, KnowledgeError>)
        ensures
            r matches Err(e) ==> e is InvalidCommand || e is EmptyAST || e is StoreError,
            r matches Ok(c) ==> c.log.deep_view().len() == 0,
    {
        self.step(context)
    }

    /// The further rounds of a run: round after round, as
    /// [`Interpreter::step`] says, until no command follows. The first round
    /// that fails ends the run with its error. A run of more rounds than
    /// can be counted is given up as an error of the store.
    pub fn follow(&self, first: SimpleContext) -> (r: Result<SimpleContext, KnowledgeError>)
        ensures
            r matches Err(e) ==> e is InvalidCommand || e is EmptyAST || e is StoreError,
            r matches Ok(c) ==> !(c.commands().len() > 0 && c.log.deep_view().len() == 0),
            !(first.commands().len() > 0 && first.log.deep_view().len() == 0) ==> (r matches Ok(c)
                && c.table() == first.table() && c.commands() == first.commands()
                && c.log.deep_view() == first.log.deep_view()),
    {
        if !Self::pending(&first) {
            return Ok(first);
        }
        let mut context = first;
        let mut rounds: usize = 0;
        while rounds < usize::MAX
            invariant
                first.commands().len() > 0,
                first.log.deep_view().len() == 0,
            decreases usize::MAX - rounds,
        {
            match self.advance(&context) {
                Err(e) => {
                    return Err(e);
                },
                Ok(next) => {
                    if !Self::pending(&next) {
                        return Ok(next);
                    }
                    context = next;
                },
            }
            rounds = rounds + 1;
        }
        Err(KnowledgeError::StoreError(String::from_str("The run does not end")))
    }

    /// The rounds that follow from a context, and the end of the run
    /// whether they failed or not: see [`Interpreter::follow`] and
    /// [`Interpreter::close`].
    pub fn propagate(&mut self, ctx: SimpleContext) -> (r: Result<SimpleContext, KnowledgeError>)
        ensures
            r matches Err(e) ==> e is InvalidCommand || e is EmptyAST || e is StoreError,
            r matches Ok(c) ==> !(c.commands().len() > 0 && c.log.deep_view().len() == 0),
            !(ctx.commands().len() > 0 && ctx.log.deep_view().len() == 0) ==> (r matches Ok(c)
                && c.table() == ctx.table() && c.commands() == ctx.commands()
                && c.log.deep_view() == ctx.log.deep_view()),
            r matches Ok(c) ==> final(self).context.table() == c.table(),
            r is Err ==> final(self).context.table() == Table::empty(),
    {
        let outcome = self.follow(ctx);
        self.close(outcome)
    }

    /// A run: the first round on the commands of the input, the rounds
    /// that follow from it, and the end of the run whether it failed or not.
    /// The context that the run gave is kept as that of the last run, the
    /// empty context where it failed, and the commands that have been
    /// processed are forgotten. A run without a modifier ends with its first
    /// round.
    pub fn run(&mut self, cmd: &str) -> (r: Result<SimpleContext, KnowledgeError>)
        ensures
            parsed_commands(cmd@) matches Err(f) ==> (r matches Err(
                KnowledgeError::ParseFailure(input, code),
            ) && input@ == f.0 && code == f.1),
            parsed_commands(cmd@) is Ok ==> (r matches Err(e) ==> e is InvalidCommand
                || e is EmptyAST || e is StoreError),
            r matches Ok(c) ==> !(c.commands().len() > 0 && c.log.deep_view().len() == 0),
            without_modifier(commands_of(cmd@)) ==> (r matches Ok(c) ==> c.commands().len() == 0
                && c.log.deep_view().len() == 0 && round_result(
                commands_of(cmd@),
                c.table(),
                c.commands(),
            )),
            r matches Ok(c) ==> final(self).context.table() == c.table(),
            r is Err ==> final(self).context.table() == Table::empty(),
    {
        match self.begin(cmd) {
            Err(e) => self.close(Err(e)),
            Ok(first) => self.propagate(first),
        }
    }

    /// The end of a run: the context is kept as that of the last run, and
    /// the commands that have been processed are forgotten.
    pub fn finish(&mut self, context: SimpleContext) -> (r: SimpleContext)
        ensures
            r.table() == context.table(),
            r.commands() == context.commands(),
            r.log.deep_view() == context.log.deep_view(),
            final(self).context.table() == context.table(),
    {
        self.context = context.clone();
        self.knowledge.clear_cache();
        context
    }

    /// The end of a run that may have failed. A run that gave a context
    /// ends as [`Interpreter::finish`] says. A run that failed ends with the
    /// empty context as that of the last run, and its error is handed on.
    /// Either way the commands that have been processed are forgotten.
    pub fn close(&mut self, outcome: Result<SimpleContext, KnowledgeError>) -> (r: Result<
        SimpleContext,
        KnowledgeError,
    >)
        ensures
            outcome matches Ok(context) ==> (r matches Ok(c) && c.table() == context.table()
                && c.commands() == context.commands() && c.log.deep_view()
                == context.log.deep_view()),
            outcome matches Ok(context) ==> final(self).context.table() == context.table(),
            outcome matches Err(e) ==> r == Err::<SimpleContext, KnowledgeError>(e),
            outcome is Err ==> final(self).context.table() == Table::empty(),
    {
        match outcome {
            Ok(context) => Ok(self.finish(context)),
            Err(e) => {
                self.finish(SimpleContext::of_frame(DataFrame::new()));
                Err(e)
            },
        }
    }
}

/// The command to run: what was passed, or a default where nothing was.
pub fn get_args_or(args: String, query: &str) -> (r: String)
    ensures
        r@ == if args@.len() == 0 {
            query@
        } else {
            args@
        },
{
    if args.as_str().unicode_len() == 0 {
        String::from_str(query)
    } else {
        args
    }
}

/// The commands of a script: the text without its line feeds, split at the
/// semicolons, each piece without the white space around it. What follows
/// the last semicolon is not a command.
pub open spec fn script_commands(input: Seq<char>) -> Seq<Seq<char>> {
    let pieces = split_on(replace_all(input, "\n"@, ""@), ";"@);
    Seq::new((pieces.len() - 1) as nat, |i: int| trimmed(pieces[i]))
}

/// The commands of a script: see [`script_commands`].
pub fn process_string(input: &str) -> (r: Vec<String>)
    ensures
        r.deep_view() == script_commands(input@),
{
    let input_without_newlines = replace(input, "\n", "");
    let pieces = split(input_without_newlines.as_str(), ";");
    proof {
        crate::text::lemma_split_nonempty(replace_all(input@, "\n"@, ""@), 0, 0, ";"@);
        assert(pieces.deep_view().len() == pieces@.len());
    }
    let n = pieces.len() - 1;
    let mut vect: Vec<String> = Vec::new();
    let mut i: usize = 0;
    while i < n
        invariant
            vect.len() == i,
            i <= n,
            n + 1 == pieces.len(),
            forall|k: int| 0 <= k < i ==> (#[trigger] vect@[k])@ == trimmed(pieces@[k]@),
        decreases n - i,
    {
        vect.push(trim(pieces[i].as_str()));
        i = i + 1;
    }
    proof {
        assert(vect.deep_view() =~= script_commands(input@)) by {
            assert(script_commands(input@).len() == n);
            assert forall|k: int| 0 <= k < n implies vect.deep_view()[k] == script_commands(
                input@,
            )[k] by {
                assert(pieces.deep_view()[k] == pieces@[k]@);
            }
        }
    }
    vect
}

} // verus!
