//! Variables, the mathematical model of a binding table, and the interface
//! that every binding table offers.
use crate::sorting::increasing;
use crate::text::{from_chars, to_chars};
use vstd::prelude::*;

verus! {

/// The canonical form of a variable's name: behind the marker `$`.
pub open spec fn canonical(name: Seq<char>) -> Seq<char> {
    if name.len() > 0 && name[0] == '$' {
        name
    } else {
        seq!['$'] + name
    }
}

/// Canonical names are fixed points of [`canonical`].
pub proof fn lemma_canonical_idempotent(name: Seq<char>)
    ensures
        canonical(canonical(name)) == canonical(name),
{
}

/// A variable, by its name.
#[derive(Debug, PartialEq, Eq, Hash, PartialOrd, Ord)]
pub struct Var(pub String);

impl View for Var {
    type V = Seq<char>;

    open spec fn view(&self) -> Seq<char> {
        self.0@
    }
}

impl DeepView for Var {
    type V = Seq<char>;

    open spec fn deep_view(&self) -> Seq<char> {
        self.0@
    }
}

impl Clone for Var {
    fn clone(&self) -> (r: Self)
        ensures
            r == *self,
    {
        Var(self.0.clone())
    }
}

impl Var {
    /// The variable of that name, in canonical form.
    pub fn new(s: &str) -> (r: Var)
        ensures
            r@ == canonical(s@),
    {
        Var(Var::format(s))
    }

    /// The name without its first character, the marker.
    pub fn without_dollar(&self) -> (r: String)
        ensures
            r@ == if self@.len() > 0 {
                self@.subrange(1, self@.len() as int)
            } else {
                Seq::empty()
            },
    {
        let chars = to_chars(self.0.as_str());
        if chars.len() > 0 {
            crate::text::string_of(chars.as_slice(), 1, chars.len())
        } else {
            String::new()
        }
    }

    /// The canonical form of a name.
    pub fn format(s: &str) -> (r: String)
        ensures
            r@ == canonical(s@),
    {
        let chars = to_chars(s);
        if chars.len() > 0 && chars[0] == '$' {
            from_chars(chars.as_slice())
        } else {
            let mut marked: Vec<char> = Vec::new();
            marked.push('$');
            crate::text::extend(&mut marked, chars.as_slice());
            assert(marked@ == seq!['$'] + s@);
            from_chars(marked.as_slice())
        }
    }
}

/// A binding table as a mathematical value: columns of values under
/// canonical variable names, in the order in which they were added. Row `i`
/// picks the `i`-th value of every column.
pub struct Table {
    pub entries: Seq<(Seq<char>, Seq<Seq<char>>)>,
}

impl Table {
    /// The table without columns.
    pub open spec fn empty() -> Table {
        Table { entries: Seq::empty() }
    }

    /// No name occurs twice.
    pub open spec fn distinct(self) -> bool {
        forall|i: int, j: int|
            0 <= i < j < self.entries.len() ==> self.entries[i].0 != self.entries[j].0
    }

    /// No name occurs twice, and every name is canonical.
    pub open spec fn wf(self) -> bool {
        &&& self.distinct()
        &&& forall|i: int|
            0 <= i < self.entries.len() ==> #[trigger] canonical(self.entries[i].0)
                == self.entries[i].0
    }

    /// Whether a column of that name exists.
    pub open spec fn has(self, name: Seq<char>) -> bool {
        exists|i: int| 0 <= i < self.entries.len() && self.entries[i].0 == name
    }

    /// Where the column of that name stands.
    pub open spec fn index(self, name: Seq<char>) -> int {
        choose|i: int| 0 <= i < self.entries.len() && self.entries[i].0 == name
    }

    /// The values of the column of that name.
    pub open spec fn column(self, name: Seq<char>) -> Seq<Seq<char>> {
        self.entries[self.index(name)].1
    }

    /// The values of the column of that name, none if there is no such column.
    pub open spec fn values(self, name: Seq<char>) -> Seq<Seq<char>> {
        if self.has(name) {
            self.column(name)
        } else {
            Seq::empty()
        }
    }

    /// Whether every column of this table stands in `other` under its name,
    /// with its values.
    pub open spec fn included(self, other: Table) -> bool {
        forall|i: int|
            0 <= i < self.entries.len() ==> other.has(#[trigger] self.entries[i].0)
                && other.column(self.entries[i].0) == self.entries[i].1
    }

    /// Whether the two tables hold the same values under the same names, in
    /// whatever order their columns stand.
    pub open spec fn same_columns(self, other: Table) -> bool {
        forall|name: Seq<char>|
            #![trigger self.has(name)]
            self.has(name) == other.has(name) && self.values(name) == other.values(name)
    }

    /// The names of the columns, in the order in which they were added.
    pub open spec fn names(self) -> Seq<Seq<char>> {
        Seq::new(self.entries.len(), |i: int| self.entries[i].0)
    }

    /// The number of rows: the length of the first column.
    pub open spec fn rows(self) -> nat {
        if self.entries.len() == 0 {
            0
        } else {
            self.entries[0].1.len()
        }
    }

    /// Every column has as many values as the table has rows.
    pub open spec fn aligned(self) -> bool {
        forall|i: int| 0 <= i < self.entries.len() ==> (#[trigger] self.entries[i]).1.len() == self.rows()
    }

    /// The table with `values` under `name`: in place of the column of that
    /// name if there is one, else as a new last column.
    pub open spec fn with_column(self, name: Seq<char>, values: Seq<Seq<char>>) -> Table {
        if self.has(name) {
            Table { entries: self.entries.update(self.index(name), (name, values)) }
        } else {
            Table { entries: self.entries.push((name, values)) }
        }
    }

    /// The table with `values` added at the end of the column `name`, which
    /// is created if it does not exist.
    pub open spec fn extended(self, name: Seq<char>, values: Seq<Seq<char>>) -> Table {
        self.with_column(name, self.values(name) + values)
    }

    /// This table extended by the first `n` columns of `other`.
    pub open spec fn joined_prefix(self, other: Table, n: nat) -> Table
        decreases n,
    {
        if n == 0 {
            self
        } else {
            self.joined_prefix(other, (n - 1) as nat).extended(
                other.entries[n - 1].0,
                other.entries[n - 1].1,
            )
        }
    }

    /// The column-wise concatenation of two tables: under each name the
    /// values of this table followed by those of `other`.
    pub open spec fn joined(self, other: Table) -> Table {
        self.joined_prefix(other, other.entries.len())
    }

    /// Row `i` across the columns `wanted`.
    pub open spec fn row(self, wanted: Seq<Seq<char>>, i: int) -> Seq<Seq<char>> {
        Seq::new(wanted.len(), |j: int| self.column(canonical(wanted[j]))[i])
    }

    /// Whether every column of `wanted` exists and has one value for each row.
    pub open spec fn covers(self, wanted: Seq<Seq<char>>) -> bool {
        forall|j: int|
            0 <= j < wanted.len() ==> self.has(#[trigger] canonical(wanted[j])) && self.column(
                canonical(wanted[j]),
            ).len() == self.rows()
    }

    /// The rows of the table across the columns `wanted`.
    pub open spec fn rows_of(self, wanted: Seq<Seq<char>>) -> Seq<Seq<Seq<char>>> {
        Seq::new(self.rows(), |i: int| self.row(wanted, i))
    }

    /// The table built from name and value pairs with the names as they
    /// are: each value goes to the end of the column of its name.
    pub open spec fn grouped(pairs: Seq<(Seq<char>, Seq<char>)>) -> Table
        decreases pairs.len(),
    {
        if pairs.len() == 0 {
            Table::empty()
        } else {
            Table::grouped(pairs.drop_last()).extended(pairs.last().0, seq![pairs.last().1])
        }
    }

    /// The table with the columns of `groups` that `columns` names, under
    /// their canonical names and in that order; a column that `groups` lacks
    /// is empty.
    pub open spec fn selected(groups: Table, columns: Seq<Seq<char>>) -> Table
        decreases columns.len(),
    {
        if columns.len() == 0 {
            Table::empty()
        } else {
            Table::selected(groups, columns.drop_last()).with_column(
                canonical(columns.last()),
                groups.values(columns.last()),
            )
        }
    }

    /// The table built from name and value pairs: each value goes to the end
    /// of the column of its name.
    pub open spec fn of_pairs(pairs: Seq<(Seq<char>, Seq<char>)>) -> Table
        decreases pairs.len(),
    {
        if pairs.len() == 0 {
            Table::empty()
        } else {
            Table::of_pairs(pairs.drop_last()).extended(
                canonical(pairs.last().0),
                seq![pairs.last().1],
            )
        }
    }
}

/// In a table without a name twice, a name stands at one index only.
pub proof fn lemma_index_unique(t: Table, name: Seq<char>, i: int)
    requires
        t.distinct(),
        0 <= i < t.entries.len(),
        t.entries[i].0 == name,
    ensures
        t.has(name),
        t.index(name) == i,
        t.column(name) == t.entries[i].1,
{
}

/// Two tables without a name twice hold the same columns where each holds
/// the columns of the other.
pub proof fn lemma_same_columns(a: Table, b: Table)
    requires
        a.distinct(),
        b.distinct(),
    ensures
        a.same_columns(b) == (a.included(b) && b.included(a)),
{
    if a.included(b) && b.included(a) {
        assert forall|name: Seq<char>| #![trigger a.has(name)] a.has(name) == b.has(name)
            && a.values(name) == b.values(name) by {
            if a.has(name) {
                let i = a.index(name);
                assert(b.has(a.entries[i].0));
                lemma_index_unique(a, name, i);
            }
            if b.has(name) {
                let j = b.index(name);
                assert(a.has(b.entries[j].0));
            }
        }
    }
    if a.same_columns(b) {
        assert forall|i: int| 0 <= i < a.entries.len() implies b.has(#[trigger] a.entries[i].0)
            && b.column(a.entries[i].0) == a.entries[i].1 by {
            lemma_index_unique(a, a.entries[i].0, i);
            assert(a.has(a.entries[i].0));
        }
        assert forall|j: int| 0 <= j < b.entries.len() implies a.has(#[trigger] b.entries[j].0)
            && a.column(b.entries[j].0) == b.entries[j].1 by {
            lemma_index_unique(b, b.entries[j].0, j);
            assert(a.has(b.entries[j].0) == b.has(b.entries[j].0));
        }
    }
}

/// Putting a column under a canonical name keeps a table well-formed, and
/// changes that column only.
pub proof fn lemma_with_column(t: Table, name: Seq<char>, values: Seq<Seq<char>>)
    requires
        t.wf(),
        canonical(name) == name,
    ensures
        t.with_column(name, values).wf(),
        t.with_column(name, values).has(name),
        t.with_column(name, values).column(name) == values,
        forall|other: Seq<char>|
            other != name ==> t.with_column(name, values).has(other) == t.has(other),
        forall|other: Seq<char>|
            other != name && t.has(other) ==> t.with_column(name, values).column(other)
                == t.column(other),
{
    lemma_with_column_distinct(t, name, values);
    let u = t.with_column(name, values);
    assert forall|i: int| 0 <= i < u.entries.len() implies #[trigger] canonical(u.entries[i].0)
        == u.entries[i].0 by {
        if t.has(name) {
            if i != t.index(name) {
                assert(u.entries[i] == t.entries[i]);
            }
        } else {
            if i < t.entries.len() {
                assert(u.entries[i] == t.entries[i]);
            }
        }
    }
}

/// Putting a column under a name keeps the names of a table distinct, and
/// changes that column only.
pub proof fn lemma_with_column_distinct(t: Table, name: Seq<char>, values: Seq<Seq<char>>)
    requires
        t.distinct(),
    ensures
        t.with_column(name, values).distinct(),
        t.with_column(name, values).has(name),
        t.with_column(name, values).column(name) == values,
        forall|other: Seq<char>|
            other != name ==> t.with_column(name, values).has(other) == t.has(other),
        forall|other: Seq<char>|
            other != name && t.has(other) ==> t.with_column(name, values).column(other)
                == t.column(other),
{
    let u = t.with_column(name, values);
    if t.has(name) {
        let k = t.index(name);
        assert(u.entries[k].0 == name);
        lemma_index_unique(u, name, k);
        assert forall|other: Seq<char>| other != name implies u.has(other) == t.has(other) by {
            if t.has(other) {
                let j = t.index(other);
                assert(u.entries[j].0 == other);
            }
            if u.has(other) {
                let j = u.index(other);
                assert(t.entries[j].0 == other);
            }
        }
        assert forall|other: Seq<char>| other != name && t.has(other) implies u.column(other)
            == t.column(other) by {
            let j = t.index(other);
            assert(u.entries[j].0 == other);
            lemma_index_unique(u, other, j);
        }
    } else {
        let k = t.entries.len() as int;
        assert(u.entries[k].0 == name);
        assert forall|i: int, j: int| 0 <= i < j < u.entries.len() implies u.entries[i].0
            != u.entries[j].0 by {
            if j == k {
                assert(t.entries[i].0 != name);
            }
        }
        lemma_index_unique(u, name, k);
        assert forall|other: Seq<char>| other != name implies u.has(other) == t.has(other) by {
            if t.has(other) {
                let j = t.index(other);
                assert(u.entries[j].0 == other);
            }
            if u.has(other) {
                let j = u.index(other);
                assert(t.entries[j].0 == other);
            }
        }
        assert forall|other: Seq<char>| other != name && t.has(other) implies u.column(other)
            == t.column(other) by {
            let j = t.index(other);
            assert(u.entries[j].0 == other);
            lemma_index_unique(u, other, j);
        }
    }
}

/// Joining keeps a table well-formed.
pub proof fn lemma_joined_prefix_wf(t: Table, other: Table, n: nat)
    requires
        t.wf(),
        other.wf(),
        n <= other.entries.len(),
    ensures
        t.joined_prefix(other, n).wf(),
    decreases n,
{
    if n > 0 {
        lemma_joined_prefix_wf(t, other, (n - 1) as nat);
        let p = t.joined_prefix(other, (n - 1) as nat);
        let name = other.entries[n - 1].0;
        assert(canonical(other.entries[n - 1].0) == other.entries[n - 1].0);
        lemma_with_column(p, name, p.values(name) + other.entries[n - 1].1);
    }
}

/// The column-wise law of joining: under every name, the join holds the
/// values of the first table followed by those of the second.
pub proof fn lemma_joined_values(t: Table, other: Table, name: Seq<char>)
    requires
        t.wf(),
        other.wf(),
    ensures
        t.joined(other).wf(),
        t.joined(other).has(name) == (t.has(name) || other.has(name)),
        t.joined(other).values(name) == t.values(name) + other.values(name),
{
    lemma_joined_prefix_values(t, other, other.entries.len(), name);
    assert(other.entries.take(other.entries.len() as int) == other.entries);
}

/// The column-wise law for the first `n` columns of the second table.
pub proof fn lemma_joined_prefix_values(t: Table, other: Table, n: nat, name: Seq<char>)
    requires
        t.wf(),
        other.wf(),
        n <= other.entries.len(),
    ensures
        t.joined_prefix(other, n).wf(),
        t.joined_prefix(other, n).has(name) == (t.has(name) || (Table {
            entries: other.entries.take(n as int),
        }).has(name)),
        t.joined_prefix(other, n).values(name) == t.values(name) + (Table {
            entries: other.entries.take(n as int),
        }).values(name),
    decreases n,
{
    let head = Table { entries: other.entries.take(n as int) };
    lemma_joined_prefix_wf(t, other, n);
    if n == 0 {
        assert(!head.has(name));
        assert(t.values(name) + Seq::<Seq<char>>::empty() == t.values(name));
    } else {
        let m = (n - 1) as nat;
        let before = Table { entries: other.entries.take(m as int) };
        lemma_joined_prefix_values(t, other, m, name);
        let p = t.joined_prefix(other, m);
        let added = other.entries[n - 1].0;
        let extra = other.entries[n - 1].1;
        assert(canonical(other.entries[n - 1].0) == other.entries[n - 1].0);
        lemma_with_column(p, added, p.values(added) + extra);
        assert(head.wf());
        assert(before.wf());
        assert(head.entries[n - 1].0 == added);
        lemma_index_unique(head, added, n - 1);
        if name == added {
            assert(!before.has(name)) by {
                if before.has(name) {
                    let j = before.index(name);
                    assert(other.entries[j].0 == name);
                }
            }
            assert(t.values(name) + Seq::<Seq<char>>::empty() == t.values(name));
            assert(p.values(name) == t.values(name));
        } else {
            assert(head.has(name) == before.has(name)) by {
                if head.has(name) {
                    let j = head.index(name);
                    assert(before.entries[j].0 == name);
                }
                if before.has(name) {
                    let j = before.index(name);
                    assert(head.entries[j].0 == name);
                }
            }
            if before.has(name) {
                let j = before.index(name);
                assert(head.entries[j].0 == name);
                lemma_index_unique(head, name, j);
            }
        }
    }
}

/// Whether `listed` holds the names of the columns of `table`, each once,
/// in increasing order.
pub open spec fn lists_names(listed: Seq<Seq<char>>, table: Table) -> bool {
    &&& increasing(listed)
    &&& forall|name: Seq<char>| listed.contains(name) <==> table.has(name)
}

/// A binding table: columns of values under variable names. A name given to
/// a method stands for its canonical form.
pub trait Context: Sized {
    /// What a lookup of a missing column reports.
    type DataError;

    /// The table that the context holds.
    spec fn table(&self) -> Table;

    /// The empty context.
    fn new() -> (r: Self)
        ensures
            r.table() == Table::empty(),
    ;

    /// The names of the columns, in increasing order.
    fn get_variables(&self) -> (r: Vec<Var>)
        ensures
            self.table().wf(),
            lists_names(r.deep_view(), self.table()),
    ;

    /// The values of a column, or an error if there is no such column.
    fn get_values(&self, key: &str) -> (r: Result<Vec<String>, Self::DataError>)
        ensures
            match r {
                Ok(values) => self.table().has(canonical(key@)) && values.deep_view()
                    == self.table().column(canonical(key@)),
                Err(_) => !self.table().has(canonical(key@)),
            },
    ;

    /// The rows of the table across the given columns, or `None` if one
    /// of them is missing or has not one value for each row.
    fn get_values2(&self, columns: &[&str]) -> (r: Option<Vec<Vec<String>>>)
        ensures
            match r {
                Some(rows) => self.table().covers(columns.deep_view()) && rows.deep_view()
                    == self.table().rows_of(columns.deep_view()),
                None => !self.table().covers(columns.deep_view()),
            },
    ;

    /// The columns with their names, in the order in which they were added.
    fn get_table(&self) -> (r: Vec<(String, Vec<String>)>)
        ensures
            r.deep_view() == self.table().entries,
    ;

    /// Puts a column under a name, in place of the column of that name if
    /// there is one, and returns a copy of the context.
    fn add_column(&mut self, name: &str, elements: &[&str]) -> (r: Self)
        ensures
            final(self).table() == old(self).table().with_column(
                canonical(name@),
                elements.deep_view(),
            ),
            r.table() == final(self).table(),
    ;

    /// Whether a column of that name exists.
    fn is_in_context(&self, key: String) -> (r: bool)
        ensures
            r == self.table().has(canonical(key@)),
    ;

    /// The number of rows: none without columns, else the length of the
    /// first column.
    fn dataframe_len(&self) -> (r: usize)
        ensures
            self.table().wf(),
            r == self.table().rows(),
    ;

    /// Whether the table has no row.
    fn is_empty(&self) -> (r: bool)
        ensures
            r == (self.table().rows() == 0),
    ;

    /// Whether the table has a row.
    fn is_not_empty(&self) -> (r: bool)
        ensures
            r == (self.table().rows() != 0),
    ;

    /// The column-wise concatenation of this context and another.
    fn join(&self, c2: Self) -> (r: Self)
        ensures
            r.table() == self.table().joined(c2.table()),
    ;
}

} // verus!
