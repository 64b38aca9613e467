//! The substitution engine: a command with variables and a binding table
//! give one more concrete command for each row of the table.
//!
//! Row `i` of the table gives one command: each variable that the table
//! binds is replaced by the value of its column at row `i`. Two variables of
//! one pattern are therefore replaced by values of the same row: the columns
//! are paired by position, and no combination of values from different rows
//! is formed.
use crate::base_parser::{
    clone_comps, clone_triplets, clone_vars, content_of, AstView, Comp, PredicatAST, Triplet, Var,
};
use crate::context_traits::{canonical, Context, Table};
use crate::simple_context::SimpleContext;
use crate::sqlite_knowledge::{is_marked, is_variable};
use crate::triplet::{Slot, SlotView, TripletView};
use vstd::prelude::*;
use vstd::string::*;

verus! {

/// A slot at a row of a table: a variable that the table binds becomes the
/// value of its column at that row; anything else stays.
pub open spec fn bound_slot(slot: SlotView, table: Table, row: int) -> SlotView {
    match slot {
        SlotView::Free(n) => if table.has(canonical(n)) {
            SlotView::Bound(table.column(canonical(n))[row])
        } else {
            slot
        },
        SlotView::Bound(_) => slot,
    }
}

/// A pattern at a row of a table: each of its slots at that row. The
/// polarity stays.
pub open spec fn bound_triplet(t: TripletView, table: Table, row: int) -> TripletView {
    match t {
        TripletView::Empty => TripletView::Empty,
        TripletView::Pattern { negated, subject, relation, object } => TripletView::Pattern {
            negated,
            subject: bound_slot(subject, table, row),
            relation: bound_slot(relation, table, row),
            object: bound_slot(object, table, row),
        },
    }
}

/// The patterns of a list at a row of a table.
pub open spec fn bound_triplets(tri: Seq<TripletView>, table: Table, row: int) -> Seq<TripletView> {
    Seq::new(tri.len(), |k: int| bound_triplet(tri[k], table, row))
}

/// The text of a comparison: each part behind a space.
pub open spec fn formatted_comp(left: Seq<char>, operator: Seq<char>, right: Seq<char>) -> Seq<
    char,
> {
    " "@ + left + " "@ + operator + " "@ + right
}

/// An operand at a row of a table: a variable that the table binds becomes
/// the value of its column at that row; anything else stays.
pub open spec fn bound_operand(operand: Seq<char>, table: Table, row: int) -> Seq<char> {
    if is_marked(operand) && table.has(operand) {
        table.column(operand)[row]
    } else {
        operand
    }
}

/// A comparison at a row of a table: each of its operands at that row.
pub open spec fn bound_comp(c: Seq<char>, table: Table, row: int) -> Seq<char> {
    formatted_comp(
        bound_operand(content_of(c).0, table, row),
        content_of(c).1,
        bound_operand(content_of(c).2, table, row),
    )
}

/// The comparisons of a list at a row of a table.
pub open spec fn bound_comps(comps: Seq<Seq<char>>, table: Table, row: int) -> Seq<Seq<char>> {
    Seq::new(comps.len(), |k: int| bound_comp(comps[k], table, row))
}

/// The variables of a list that a table does not bind, in order.
pub open spec fn open_vars(vars: Seq<Seq<char>>, table: Table) -> Seq<Seq<char>>
    decreases vars.len(),
{
    if vars.len() == 0 {
        Seq::empty()
    } else if table.has(canonical(vars.last())) {
        open_vars(vars.drop_last(), table)
    } else {
        open_vars(vars.drop_last(), table).push(vars.last())
    }
}

/// A command at a row of a table. A query loses the variables that the
/// table binds; a rule, the empty command and a text are not touched.
pub open spec fn bound_ast(ast: AstView, table: Table, row: int) -> AstView {
    match ast {
        AstView::Query(vars, tri, comps) => AstView::Query(
            open_vars(vars, table),
            bound_triplets(tri, table, row),
            bound_comps(comps, table, row),
        ),
        AstView::AddModifier(tri) => AstView::AddModifier(bound_triplets(tri, table, row)),
        AstView::DeleteModifier(tri) => AstView::DeleteModifier(bound_triplets(tri, table, row)),
        _ => ast,
    }
}

/// Whether substitution gives a command one version for each row: so it is
/// for queries and modifiers.
pub open spec fn row_wise(ast: AstView) -> bool {
    ast is Query || ast is AddModifier || ast is DeleteModifier
}

/// The commands that a command and a table give: the command itself where
/// the table has no row; else, for a query or a modifier, the command at
/// each row in turn; else the command itself.
pub open spec fn substituted_asts(ast: AstView, table: Table) -> Seq<AstView> {
    if table.rows() == 0 || !row_wise(ast) {
        seq![ast]
    } else {
        Seq::new(table.rows(), |row: int| bound_ast(ast, table, row))
    }
}

/// Substitution against a table without rows gives the command itself, and
/// nothing else.
pub proof fn lemma_identity_substitution(ast: AstView, table: Table)
    requires
        table.rows() == 0,
    ensures
        substituted_asts(ast, table) == seq![ast],
        substituted_asts(ast, Table::empty()) == seq![ast],
{
}

/// Substitution of a query or a modifier against a table with rows gives as
/// many commands as the table has rows.
pub proof fn lemma_row_count_preserved(ast: AstView, table: Table)
    requires
        table.rows() > 0,
        row_wise(ast),
    ensures
        substituted_asts(ast, table).len() == table.rows(),
{
}

/// The items of a list in the opposite order.
fn reversed<T>(v: Vec<T>) -> (r: Vec<T>)
    ensures
        r@.len() == v@.len(),
        forall|k: int| 0 <= k < v@.len() ==> r@[k] == v@[v@.len() - 1 - k],
{
    let mut rest = v;
    let mut r: Vec<T> = Vec::new();
    while rest.len() > 0
        invariant
            rest@.len() + r@.len() == v@.len(),
            forall|k: int| 0 <= k < rest@.len() ==> rest@[k] == v@[k],
            forall|k: int| 0 <= k < r@.len() ==> r@[k] == v@[v@.len() - 1 - k],
        decreases rest.len(),
    {
        let item = rest.pop().unwrap();
        r.push(item);
    }
    r
}

/// The text of a comparison: each part behind a space.
pub fn format_comp(arg1: &str, arg2: &str, arg3: &str) -> (r: Comp)
    ensures
        r@ == formatted_comp(arg1@, arg2@, arg3@),
{
    Comp(
        String::from_str(" ").concat(arg1).concat(" ").concat(arg2).concat(" ").concat(arg3),
    )
}

/// A slot at a row of a context.
fn substitute_slot(slot: Slot, context: &SimpleContext, row: usize) -> (r: Slot)
    requires
        context.table().aligned(),
        row < context.table().rows(),
    ensures
        r.deep_view() == bound_slot(slot.deep_view(), context.table(), row as int),
{
    match slot {
        Slot::Bound(t) => Slot::Bound(t),
        Slot::Free(n) => match context.value_at(n.as_str(), row) {
            Some(value) => Slot::Bound(value),
            None => {
                proof {
                    if context.table().has(canonical(n@)) {
                        let k = context.table().index(canonical(n@));
                        assert(context.table().entries[k].1.len() == context.table().rows());
                    }
                }
                Slot::Free(n)
            },
        },
    }
}

/// A pattern at a row of a context.
fn substitute_one_triplet(t: &Triplet, context: &SimpleContext, row: usize) -> (r: Triplet)
    requires
        context.table().aligned(),
        row < context.table().rows(),
    ensures
        r.deep_view() == bound_triplet(t.deep_view(), context.table(), row as int),
{
    match t.slots() {
        None => Triplet::Empty,
        Some((negated, subject, relation, object)) => Triplet::from_slots(
            negated,
            substitute_slot(subject, context, row),
            substitute_slot(relation, context, row),
            substitute_slot(object, context, row),
        ),
    }
}

/// The patterns of a list at each row of a context: one list for each row.
fn substitute_triplet(triplets: &[Triplet], context: &SimpleContext) -> (r: Vec<Vec<Triplet>>)
    requires
        context.table().aligned(),
    ensures
        r.len() == context.table().rows(),
        forall|row: int|
            0 <= row < r.len() ==> (#[trigger] r@[row]).deep_view() == bound_triplets(
                triplets.deep_view(),
                context.table(),
                row,
            ),
{
    let n = context.dataframe_len();
    let mut rows: Vec<Vec<Triplet>> = Vec::new();
    let mut row: usize = 0;
    while row < n
        invariant
            row <= n,
            n == context.table().rows(),
            context.table().aligned(),
            rows.len() == row,
            forall|i: int|
                0 <= i < row ==> (#[trigger] rows@[i]).deep_view() == bound_triplets(
                    triplets.deep_view(),
                    context.table(),
                    i,
                ),
        decreases n - row,
    {
        let mut line: Vec<Triplet> = Vec::new();
        let mut k: usize = 0;
        while k < triplets.len()
            invariant
                k <= triplets.len(),
                row < n,
                n == context.table().rows(),
                context.table().aligned(),
                line.len() == k,
                forall|j: int|
                    0 <= j < k ==> (#[trigger] line@[j]).deep_view() == bound_triplet(
                        triplets@[j].deep_view(),
                        context.table(),
                        row as int,
                    ),
            decreases triplets.len() - k,
        {
            line.push(substitute_one_triplet(&triplets[k], context, row));
            k = k + 1;
        }
        assert(line.deep_view() =~= bound_triplets(
            triplets.deep_view(),
            context.table(),
            row as int,
        ));
        rows.push(line);
        row = row + 1;
    }
    rows
}

/// An operand at a row of a context.
fn substitute_operand(operand: String, context: &SimpleContext, row: usize) -> (r: String)
    requires
        context.table().aligned(),
        row < context.table().rows(),
    ensures
        r@ == bound_operand(operand@, context.table(), row as int),
{
    if is_variable(operand.as_str()) {
        match context.value_at(operand.as_str(), row) {
            Some(value) => value,
            None => {
                proof {
                    if context.table().has(canonical(operand@)) {
                        let k = context.table().index(canonical(operand@));
                        assert(context.table().entries[k].1.len() == context.table().rows());
                    }
                }
                operand
            },
        }
    } else {
        operand
    }
}

/// A comparison at a row of a context.
fn substitute_one_comp(comp: &Comp, context: &SimpleContext, row: usize) -> (r: Comp)
    requires
        context.table().aligned(),
        row < context.table().rows(),
    ensures
        r@ == bound_comp(comp@, context.table(), row as int),
{
    let (left, operator, right) = comp.get_content();
    let bound_left = substitute_operand(left, context, row);
    let bound_right = substitute_operand(right, context, row);
    format_comp(bound_left.as_str(), operator.as_str(), bound_right.as_str())
}

/// The comparisons of a list at each row of a context: one list for each
/// row.
fn substitute_comp(comps: &[Comp], context: &SimpleContext) -> (r: Vec<Vec<Comp>>)
    requires
        context.table().aligned(),
    ensures
        r.len() == context.table().rows(),
        forall|row: int|
            0 <= row < r.len() ==> (#[trigger] r@[row]).deep_view() == bound_comps(
                comps.deep_view(),
                context.table(),
                row,
            ),
{
    let n = context.dataframe_len();
    let mut rows: Vec<Vec<Comp>> = Vec::new();
    let mut row: usize = 0;
    while row < n
        invariant
            row <= n,
            n == context.table().rows(),
            context.table().aligned(),
            rows.len() == row,
            forall|i: int|
                0 <= i < row ==> (#[trigger] rows@[i]).deep_view() == bound_comps(
                    comps.deep_view(),
                    context.table(),
                    i,
                ),
        decreases n - row,
    {
        let mut line: Vec<Comp> = Vec::new();
        let mut k: usize = 0;
        while k < comps.len()
            invariant
                k <= comps.len(),
                row < n,
                n == context.table().rows(),
                context.table().aligned(),
                line.len() == k,
                forall|j: int|
                    0 <= j < k ==> (#[trigger] line@[j])@ == bound_comp(
                        comps@[j]@,
                        context.table(),
                        row as int,
                    ),
            decreases comps.len() - k,
        {
            line.push(substitute_one_comp(&comps[k], context, row));
            k = k + 1;
        }
        assert(line.deep_view() =~= bound_comps(comps.deep_view(), context.table(), row as int));
        rows.push(line);
        row = row + 1;
    }
    rows
}

/// The variables of a list that a context does not bind.
fn unbound_vars(vars: &[Var], context: &SimpleContext) -> (r: Vec<Var>)
    ensures
        r.deep_view() == open_vars(vars.deep_view(), context.table()),
{
    let mut kept: Vec<Var> = Vec::new();
    let mut i: usize = 0;
    assert(vars.deep_view().take(0) =~= Seq::<Seq<char>>::empty());
    while i < vars.len()
        invariant
            i <= vars.len(),
            kept.deep_view() == open_vars(vars.deep_view().take(i as int), context.table()),
        decreases vars.len() - i,
    {
        proof {
            let next = vars.deep_view().take(i + 1);
            assert(next.drop_last() == vars.deep_view().take(i as int));
            assert(next.last() == vars@[i as int]@);
        }
        let ghost before = kept.deep_view();
        if !context.is_in_context(vars[i].0.clone()) {
            kept.push(vars[i].clone());
            assert(kept.deep_view() =~= before.push(vars@[i as int]@));
        }
        i = i + 1;
    }
    assert(vars.deep_view().take(i as int) == vars.deep_view());
    kept
}

/// The versions of a query for a context: the query itself where the
/// context has no row, else the query at each row.
fn substitute_query(vars: &[Var], triplets: &[Triplet], comps: &[Comp], context: &SimpleContext) -> (r:
    Vec<PredicatAST>)
    requires
        context.table().aligned(),
    ensures
        r.deep_view() == substituted_asts(
            AstView::Query(vars.deep_view(), triplets.deep_view(), comps.deep_view()),
            context.table(),
        ),
{
    let n = context.dataframe_len();
    let mut out: Vec<PredicatAST> = Vec::new();
    if n == 0 {
        let mut all_vars: Vec<Var> = Vec::new();
        let mut i: usize = 0;
        while i < vars.len()
            invariant
                i <= vars.len(),
                all_vars.len() == i,
                forall|k: int| 0 <= k < i ==> (#[trigger] all_vars@[k])@ == vars@[k]@,
            decreases vars.len() - i,
        {
            all_vars.push(vars[i].clone());
            i = i + 1;
        }
        let mut all_triplets: Vec<Triplet> = Vec::new();
        let mut j: usize = 0;
        while j < triplets.len()
            invariant
                j <= triplets.len(),
                all_triplets.len() == j,
                forall|k: int|
                    0 <= k < j ==> (#[trigger] all_triplets@[k]).deep_view()
                        == triplets@[k].deep_view(),
            decreases triplets.len() - j,
        {
            all_triplets.push(triplets[j].clone());
            j = j + 1;
        }
        let mut all_comps: Vec<Comp> = Vec::new();
        let mut m: usize = 0;
        while m < comps.len()
            invariant
                m <= comps.len(),
                all_comps.len() == m,
                forall|k: int| 0 <= k < m ==> (#[trigger] all_comps@[k])@ == comps@[k]@,
            decreases comps.len() - m,
        {
            all_comps.push(comps[m].clone());
            m = m + 1;
        }
        assert(all_vars.deep_view() =~= vars.deep_view());
        assert(all_triplets.deep_view() =~= triplets.deep_view());
        assert(all_comps.deep_view() =~= comps.deep_view());
        out.push(PredicatAST::Query((all_vars, all_triplets, all_comps)));
        assert(out.deep_view() =~= seq![
            AstView::Query(vars.deep_view(), triplets.deep_view(), comps.deep_view()),
        ]);
        return out;
    }
    let mut lines = reversed(substitute_triplet(triplets, context));
    let mut filters = reversed(substitute_comp(comps, context));
    let new_vars = unbound_vars(vars, context);
    let ghost ast = AstView::Query(vars.deep_view(), triplets.deep_view(), comps.deep_view());
    let mut row: usize = 0;
    while row < n
        invariant
            row <= n,
            n == context.table().rows(),
            lines.len() == n - row,
            filters.len() == n - row,
            forall|k: int|
                0 <= k < lines.len() ==> (#[trigger] lines@[k]).deep_view() == bound_triplets(
                    triplets.deep_view(),
                    context.table(),
                    n - 1 - k,
                ),
            forall|k: int|
                0 <= k < filters.len() ==> (#[trigger] filters@[k]).deep_view() == bound_comps(
                    comps.deep_view(),
                    context.table(),
                    n - 1 - k,
                ),
            new_vars.deep_view() == open_vars(vars.deep_view(), context.table()),
            ast == AstView::Query(vars.deep_view(), triplets.deep_view(), comps.deep_view()),
            out.len() == row,
            forall|k: int|
                0 <= k < row ==> (#[trigger] out@[k]).deep_view() == bound_ast(
                    ast,
                    context.table(),
                    k,
                ),
        decreases n - row,
    {
        let line = lines.pop().unwrap();
        let filter = filters.pop().unwrap();
        out.push(PredicatAST::Query((clone_vars(&new_vars), line, filter)));
        row = row + 1;
    }
    assert(out.deep_view() =~= substituted_asts(ast, context.table()));
    out
}

/// The versions of the patterns of a modifier for a context with rows: the
/// patterns at each row. Each list of patterns is to be wrapped in the
/// modifier that the patterns came from.
fn substitute_triplet_to_predicat_ast(triplets: &[Triplet], adding: bool, context: &SimpleContext) -> (r:
    Vec<PredicatAST>)
    requires
        context.table().aligned(),
        context.table().rows() > 0,
    ensures
        r.deep_view() == substituted_asts(
            if adding {
                AstView::AddModifier(triplets.deep_view())
            } else {
                AstView::DeleteModifier(triplets.deep_view())
            },
            context.table(),
        ),
{
    let n = context.dataframe_len();
    let ghost ast = if adding {
        AstView::AddModifier(triplets.deep_view())
    } else {
        AstView::DeleteModifier(triplets.deep_view())
    };
    let mut lines = reversed(substitute_triplet(triplets, context));
    let mut out: Vec<PredicatAST> = Vec::new();
    let mut row: usize = 0;
    while row < n
        invariant
            row <= n,
            n == context.table().rows(),
            lines.len() == n - row,
            forall|k: int|
                0 <= k < lines.len() ==> (#[trigger] lines@[k]).deep_view() == bound_triplets(
                    triplets.deep_view(),
                    context.table(),
                    n - 1 - k,
                ),
            ast == if adding {
                AstView::AddModifier(triplets.deep_view())
            } else {
                AstView::DeleteModifier(triplets.deep_view())
            },
            out.len() == row,
            forall|k: int|
                0 <= k < row ==> (#[trigger] out@[k]).deep_view() == bound_ast(
                    ast,
                    context.table(),
                    k,
                ),
        decreases n - row,
    {
        let line = lines.pop().unwrap();
        if adding {
            out.push(PredicatAST::AddModifier(line));
        } else {
            out.push(PredicatAST::DeleteModifier(line));
        }
        row = row + 1;
    }
    assert(out.deep_view() =~= substituted_asts(ast, context.table()));
    out
}

/// The commands that a command and a context give: see
/// [`substituted_asts`]. There is a result where the context has no row, in
/// which case it is the command itself, and where its columns are of one
/// length; else there is none.
pub fn substitute_variables(context: &SimpleContext, ast: PredicatAST) -> (r: Option<
    Vec<PredicatAST>,
>)
    ensures
        r is Some <==> (context.table().rows() == 0 || context.table().aligned()),
        r matches Some(v) ==> v.deep_view() == substituted_asts(
            ast.deep_view(),
            context.table(),
        ),
{
    let mut one: Vec<PredicatAST> = Vec::new();
    if context.dataframe_len() == 0 {
        one.push(ast);
        assert(one.deep_view() =~= seq![ast.deep_view()]);
        return Some(one);
    }
    if !context.is_aligned() {
        return None;
    }
    match ast {
        PredicatAST::Query(q) => Some(
            substitute_query(q.0.as_slice(), q.1.as_slice(), q.2.as_slice(), context),
        ),
        PredicatAST::AddModifier(tri) => Some(
            substitute_triplet_to_predicat_ast(tri.as_slice(), true, context),
        ),
        PredicatAST::DeleteModifier(tri) => Some(
            substitute_triplet_to_predicat_ast(tri.as_slice(), false, context),
        ),
        x => {
            one.push(x);
            assert(one.deep_view() =~= seq![ast.deep_view()]);
            Some(one)
        },
    }
}

} // verus!
