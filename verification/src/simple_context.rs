//! The binding table of the engine: a data frame of string columns, and the
//! context that carries it together with follow-up commands and a log.
use crate::context_traits::{
    canonical, lemma_index_unique, lemma_same_columns, lemma_with_column, lists_names, Context,
    Table, Var,
};
use crate::sorting::sorted_unique;
use vstd::prelude::*;
use vstd::std_specs::cmp::PartialEqSpecImpl;

verus! {

/// What a data frame reports when a column is asked for that it lacks: the
/// name asked for, and the names that it has.
#[derive(Debug, PartialEq)]
pub enum DataFrameError {
    InexistentColumnIn(String, Vec<String>),
}

/// A copy of a list of strings.
pub fn clone_strings(v: &Vec<String>) -> (r: Vec<String>)
    ensures
        r.deep_view() == v.deep_view(),
{
    let mut r: Vec<String> = Vec::new();
    let mut i: usize = 0;
    while i < v.len()
        invariant
            i <= v.len(),
            r.len() == i,
            forall|k: int| 0 <= k < i ==> r@[k]@ == v@[k]@,
        decreases v.len() - i,
    {
        r.push(v[i].clone());
        i = i + 1;
    }
    assert(r.deep_view() =~= v.deep_view());
    r
}

/// The line of rank `num` of a table given by its columns: from each column
/// its value of that rank, or the empty text where the column is shorter.
pub open spec fn line_of(num: int, body: Seq<Seq<Seq<char>>>) -> Seq<Seq<char>> {
    Seq::new(
        body.len(),
        |k: int|
            if 0 <= num < body[k].len() {
                body[k][num]
            } else {
                Seq::empty()
            },
    )
}

/// The line of rank `num` of a table given by its columns: see [`line_of`].
pub fn get_line(num: usize, body: &[Vec<String>]) -> (r: Vec<String>)
    ensures
        r.deep_view() == line_of(num as int, body.deep_view()),
{
    let mut line: Vec<String> = Vec::new();
    let mut k: usize = 0;
    while k < body.len()
        invariant
            k <= body.len(),
            line.len() == k,
            forall|j: int|
                0 <= j < k ==> (#[trigger] line@[j])@ == line_of(num as int, body.deep_view())[j],
        decreases body.len() - k,
    {
        assert(body.deep_view()[k as int] == body@[k as int].deep_view());
        if num < body[k].len() {
            assert(body@[k as int].deep_view()[num as int] == body@[k as int]@[num as int]@);
            line.push(body[k][num].clone());
        } else {
            line.push(String::new());
        }
        k = k + 1;
    }
    assert(line.deep_view() =~= line_of(num as int, body.deep_view()));
    line
}

/// Whether the two lists hold the same strings in the same order.
pub fn same_strings(a: &Vec<String>, b: &Vec<String>) -> (r: bool)
    ensures
        r == (a.deep_view() == b.deep_view()),
{
    if a.len() != b.len() {
        assert(a.deep_view().len() != b.deep_view().len());
        return false;
    }
    let mut i: usize = 0;
    while i < a.len()
        invariant
            i <= a.len(),
            a.len() == b.len(),
            forall|k: int| 0 <= k < i ==> a@[k]@ == b@[k]@,
        decreases a.len() - i,
    {
        if a[i] != b[i] {
            assert(a.deep_view()[i as int] != b.deep_view()[i as int]);
            return false;
        }
        i = i + 1;
    }
    assert(a.deep_view() =~= b.deep_view());
    true
}

/// A table of string columns under canonical variable names. No name occurs
/// twice; a column that is put under a name in use takes the place of the
/// earlier one. Two frames are equal where they hold the same values under
/// the same names, in whatever order their columns stand.
#[derive(Debug)]
pub struct DataFrame {
    columns: Vec<(String, Vec<String>)>,
}

impl View for DataFrame {
    type V = Table;

    closed spec fn view(&self) -> Table {
        Table { entries: self.columns.deep_view() }
    }
}

impl Clone for DataFrame {
    fn clone(&self) -> (r: Self)
        ensures
            r@ == self@,
    {
        proof {
            use_type_invariant(self);
        }
        let mut columns: Vec<(String, Vec<String>)> = Vec::new();
        let mut i: usize = 0;
        while i < self.columns.len()
            invariant
                i <= self.columns.len(),
                columns.len() == i,
                forall|k: int|
                    0 <= k < i ==> (#[trigger] columns@[k]).deep_view()
                        == self.columns@[k].deep_view(),
            decreases self.columns.len() - i,
        {
            let values = clone_strings(&self.columns[i].1);
            columns.push((self.columns[i].0.clone(), values));
            i = i + 1;
        }
        assert(columns.deep_view() =~= self.columns.deep_view());
        DataFrame { columns }
    }
}

impl PartialEq for DataFrame {
    fn eq(&self, other: &DataFrame) -> (r: bool) {
        proof {
            use_type_invariant(self);
            use_type_invariant(other);
            lemma_same_columns(self@, other@);
        }
        self.included(other) && other.included(self)
    }
}

impl PartialEqSpecImpl for DataFrame {
    open spec fn obeys_eq_spec() -> bool {
        true
    }

    open spec fn eq_spec(&self, other: &DataFrame) -> bool {
        self@.same_columns(other@)
    }
}

impl Default for DataFrame {
    fn default() -> (r: Self)
        ensures
            r@ == Table::empty(),
    {
        DataFrame::new()
    }
}

impl DataFrame {
    #[verifier::type_invariant]
    spec fn well_formed(self) -> bool {
        self@.wf()
    }

    /// The number of rows: the length of the first column, none without
    /// columns.
    pub fn len(&self) -> (r: usize)
        ensures
            self@.wf(),
            r == self@.rows(),
    {
        proof {
            use_type_invariant(self);
        }
        if self.columns.len() == 0 {
            0
        } else {
            self.columns[0].1.len()
        }
    }

    /// Whether the frame has no column.
    pub fn empty(&self) -> (r: bool)
        ensures
            r == (self@.entries.len() == 0),
    {
        Self::nb_columns(self) == 0
    }

    /// The frame without columns.
    pub fn new() -> (r: Self)
        ensures
            r@ == Table::empty(),
    {
        let r = DataFrame { columns: Vec::new() };
        assert(r@.entries =~= Seq::empty());
        r
    }

    /// The index of the column of a canonical name.
    fn find(&self, key: &String) -> (r: Option<usize>)
        ensures
            self@.wf(),
            match r {
                Some(i) => i < self@.entries.len() && self@.entries[i as int].0 == key@
                    && self@.has(key@) && self@.index(key@) == i && i < self.columns@.len(),
                None => !self@.has(key@),
            },
    {
        proof {
            use_type_invariant(self);
        }
        let mut i: usize = 0;
        while i < self.columns.len()
            invariant
                i <= self.columns.len(),
                self@.wf(),
                forall|k: int| 0 <= k < i ==> self@.entries[k].0 != key@,
            decreases self.columns.len() - i,
        {
            if self.columns[i].0 == *key {
                proof {
                    lemma_index_unique(self@, key@, i as int);
                }
                return Some(i);
            }
            i = i + 1;
        }
        None
    }

    /// Whether every column of this frame stands in `other` under its
    /// name, with its values.
    fn included(&self, other: &DataFrame) -> (r: bool)
        ensures
            r == self@.included(other@),
    {
        let mut i: usize = 0;
        while i < self.columns.len()
            invariant
                i <= self.columns.len(),
                forall|k: int|
                    0 <= k < i ==> other@.has(#[trigger] self@.entries[k].0) && other@.column(
                        self@.entries[k].0,
                    ) == self@.entries[k].1,
            decreases self.columns.len() - i,
        {
            match other.find(&self.columns[i].0) {
                None => {
                    assert(!other@.has(self@.entries[i as int].0));
                    return false;
                },
                Some(j) => {
                    if !same_strings(&self.columns[i].1, &other.columns[j].1) {
                        assert(other@.column(self@.entries[i as int].0)
                            != self@.entries[i as int].1);
                        return false;
                    }
                },
            }
            i = i + 1;
        }
        true
    }

    /// The frame built from name and value pairs, each value added to the
    /// column of its name, if its columns are of one length.
    fn body(t: &[(String, String)]) -> (r: Option<Self>)
        ensures
            match r {
                Some(df) => df@ == Table::of_pairs(t.deep_view()) && df@.aligned(),
                None => !Table::of_pairs(t.deep_view()).aligned(),
            },
    {
        let df = Self::to_dataframe(t);
        if Self::check(&df) {
            Some(df)
        } else {
            None
        }
    }

    /// The frame built from name and value pairs, each value added to the
    /// column of its name.
    fn to_dataframe(t: &[(String, String)]) -> (r: DataFrame)
        ensures
            r@ == Table::of_pairs(t.deep_view()),
    {
        let mut df = DataFrame::new();
        let mut i: usize = 0;
        while i < t.len()
            invariant
                i <= t.len(),
                df@ == Table::of_pairs(t.deep_view().take(i as int)),
            decreases t.len() - i,
        {
            let mut one: Vec<String> = Vec::new();
            one.push(t[i].1.clone());
            assert(one.deep_view() =~= seq![t[i as int].1@]);
            let key = Var::format(t[i].0.as_str());
            proof {
                let next = t.deep_view().take(i + 1);
                assert(next.drop_last() == t.deep_view().take(i as int));
                assert(next.last() == (t[i as int].0@, t[i as int].1@));
                crate::context_traits::lemma_canonical_idempotent(t[i as int].0@);
            }
            df = df.extended(key, one);
            i = i + 1;
        }
        assert(t.deep_view().take(i as int) == t.deep_view());
        df
    }

    /// Whether every column has as many values as the frame has rows.
    pub fn check(df: &DataFrame) -> (r: bool)
        ensures
            r == df@.aligned(),
    {
        let rows = Self::nb_rows(df);
        let mut i: usize = 0;
        while i < df.columns.len()
            invariant
                i <= df.columns.len(),
                rows == df@.rows(),
                forall|k: int| 0 <= k < i ==> (#[trigger] df@.entries[k]).1.len() == rows,
            decreases df.columns.len() - i,
        {
            if df.columns[i].1.len() != rows {
                assert(df@.entries[i as int].1.len() != df@.rows());
                return false;
            }
            i = i + 1;
        }
        true
    }

    /// The number of rows.
    fn nb_rows(df: &DataFrame) -> (r: usize)
        ensures
            r == df@.rows(),
    {
        df.len()
    }

    /// The number of columns.
    fn nb_columns(df: &DataFrame) -> (r: usize)
        ensures
            r == df@.entries.len(),
    {
        df.columns.len()
    }

    /// The names of the columns, in increasing order.
    fn get_variables(&self) -> (r: Vec<Var>)
        ensures
            self@.wf(),
            lists_names(r.deep_view(), self@),
    {
        proof {
            use_type_invariant(self);
        }
        let mut names: Vec<String> = Vec::new();
        let mut i: usize = 0;
        while i < self.columns.len()
            invariant
                i <= self.columns.len(),
                names.len() == i,
                forall|k: int| 0 <= k < i ==> names@[k]@ == self@.entries[k].0,
            decreases self.columns.len() - i,
        {
            names.push(self.columns[i].0.clone());
            i = i + 1;
        }
        let sorted = sorted_unique(names);
        let mut vars: Vec<Var> = Vec::new();
        let mut j: usize = 0;
        while j < sorted.len()
            invariant
                j <= sorted.len(),
                vars.len() == j,
                forall|k: int| 0 <= k < j ==> vars@[k]@ == sorted@[k]@,
            decreases sorted.len() - j,
        {
            vars.push(Var(sorted[j].clone()));
            j = j + 1;
        }
        proof {
            assert(vars.deep_view() =~= sorted.deep_view());
            assert forall|name: Seq<char>| names.deep_view().contains(name) <==> self@.has(
                name,
            ) by {
                if names.deep_view().contains(name) {
                    let k = choose|k: int|
                        0 <= k < names.deep_view().len() && names.deep_view()[k] == name;
                    assert(self@.entries[k].0 == name);
                }
                if self@.has(name) {
                    let k = self@.index(name);
                    assert(names.deep_view()[k] == name);
                }
            }
        }
        vars
    }

    /// The values of a column, or the name asked for and the names that the
    /// frame has.
    pub fn get_values(&self, key: &str) -> (r: Result<Vec<String>, DataFrameError>)
        ensures
            match r {
                Ok(values) => self@.has(canonical(key@)) && values.deep_view() == self@.column(
                    canonical(key@),
                ),
                Err(DataFrameError::InexistentColumnIn(asked, names)) => !self@.has(
                    canonical(key@),
                ) && asked@ == key@ && lists_names(names.deep_view(), self@),
            },
    {
        let name = Var::format(key);
        match self.find(&name) {
            Some(i) => Ok(clone_strings(&self.columns[i].1)),
            None => {
                let vars = self.get_variables();
                let mut names: Vec<String> = Vec::new();
                let mut j: usize = 0;
                while j < vars.len()
                    invariant
                        j <= vars.len(),
                        names.len() == j,
                        forall|k: int| 0 <= k < j ==> names@[k]@ == vars@[k]@,
                    decreases vars.len() - j,
                {
                    names.push(vars[j].0.clone());
                    j = j + 1;
                }
                assert(names.deep_view() =~= vars.deep_view());
                Err(DataFrameError::InexistentColumnIn(String::from_str(key), names))
            },
        }
    }

    /// The rows of the frame across the given columns, or `None` if one of
    /// them is missing or has not one value for each row.
    pub fn get_values2(&self, columns: &[&str]) -> (r: Option<Vec<Vec<String>>>)
        ensures
            match r {
                Some(rows) => self@.covers(columns.deep_view()) && rows.deep_view() == self@.rows_of(
                    columns.deep_view(),
                ),
                None => !self@.covers(columns.deep_view()),
            },
    {
        let count = self.len();
        let mut places: Vec<usize> = Vec::new();
        let mut j: usize = 0;
        while j < columns.len()
            invariant
                j <= columns.len(),
                places.len() == j,
                count == self@.rows(),
                self@.wf(),
                forall|k: int|
                    0 <= k < j ==> {
                        &&& (#[trigger] places@[k]) < self.columns@.len()
                        &&& self@.entries[places@[k] as int].0 == canonical(columns.deep_view()[k])
                        &&& self.columns@[places@[k] as int].1.len() == count
                    },
            decreases columns.len() - j,
        {
            let name = Var::format(columns[j]);
            assert(columns.deep_view()[j as int] == columns@[j as int]@);
            match self.find(&name) {
                Some(i) => {
                    assert(self@.column(name@) == self@.entries[i as int].1);
                    assert(self@.entries[i as int].1.len() == self.columns@[i as int].1.len());
                    if self.columns[i].1.len() != count {
                        return None;
                    }
                    places.push(i);
                },
                None => {
                    return None;
                },
            }
            j = j + 1;
        }
        proof {
            assert forall|k: int| 0 <= k < columns.deep_view().len() implies self@.has(
                #[trigger] canonical(columns.deep_view()[k]),
            ) && self@.column(canonical(columns.deep_view()[k])).len() == self@.rows() by {
                let at = places@[k] as int;
                lemma_index_unique(self@, canonical(columns.deep_view()[k]), at);
                assert(self@.entries[at].1.len() == self.columns@[at].1.len());
            }
        }
        let mut rows: Vec<Vec<String>> = Vec::new();
        let mut i: usize = 0;
        while i < count
            invariant
                i <= count,
                rows.len() == i,
                count == self@.rows(),
                places.len() == columns.len(),
                self@.wf(),
                forall|k: int|
                    0 <= k < places.len() ==> {
                        &&& (#[trigger] places@[k]) < self.columns@.len()
                        &&& self@.entries[places@[k] as int].0 == canonical(columns.deep_view()[k])
                        &&& self.columns@[places@[k] as int].1.len() == count
                    },
                forall|k: int|
                    0 <= k < i ==> (#[trigger] rows@[k]).deep_view() == self@.row(
                        columns.deep_view(),
                        k,
                    ),
            decreases count - i,
        {
            let mut row: Vec<String> = Vec::new();
            let mut k: usize = 0;
            while k < places.len()
                invariant
                    k <= places.len(),
                    row.len() == k,
                    i < count,
                    places.len() == columns.len(),
                    self@.wf(),
                    forall|m: int|
                        0 <= m < places.len() ==> {
                            &&& (#[trigger] places@[m]) < self.columns@.len()
                            &&& self@.entries[places@[m] as int].0 == canonical(
                                columns.deep_view()[m],
                            )
                            &&& self.columns@[places@[m] as int].1.len() == count
                        },
                    forall|m: int|
                        0 <= m < k ==> (#[trigger] row@[m])@ == self@.column(
                            canonical(columns.deep_view()[m]),
                        )[i as int],
                decreases places.len() - k,
            {
                let at = places[k];
                proof {
                    lemma_index_unique(self@, canonical(columns.deep_view()[k as int]), at as int);
                    assert(self@.entries[at as int].1[i as int] == self.columns@[at as int].1@[i as int]@);
                }
                row.push(self.columns[at].1[i].clone());
                k = k + 1;
            }
            assert(row.deep_view() =~= self@.row(columns.deep_view(), i as int));
            rows.push(row);
            i = i + 1;
        }
        assert(rows.deep_view() =~= self@.rows_of(columns.deep_view()));
        Some(rows)
    }

    /// The frame with `values` at the end of the column of a canonical
    /// name, which is created if it does not exist.
    fn extended(self, key: String, values: Vec<String>) -> (r: Self)
        requires
            canonical(key@) == key@,
        ensures
            r@ == self@.extended(key@, values.deep_view()),
    {
        match self.find(&key) {
            Some(i) => {
                let mut merged = clone_strings(&self.columns[i].1);
                let mut tail = values;
                merged.append(&mut tail);
                assert(merged.deep_view() =~= self@.column(key@) + values.deep_view());
                self.with_column(key, merged)
            },
            None => {
                assert(Seq::<Seq<char>>::empty() + values.deep_view() == values.deep_view());
                self.with_column(key, values)
            },
        }
    }

    /// The frame with `values` under a canonical name, in place of the
    /// column of that name if there is one.
    fn with_column(self, key: String, values: Vec<String>) -> (r: Self)
        requires
            canonical(key@) == key@,
        ensures
            r@ == self@.with_column(key@, values.deep_view()),
    {
        proof {
            use_type_invariant(&self);
            lemma_with_column(self@, key@, values.deep_view());
        }
        let found = self.find(&key);
        let ghost before = self.columns.deep_view();
        let mut columns = self.columns;
        match found {
            Some(i) => {
                columns.set(i, (key, values));
                assert(columns.deep_view() =~= before.update(i as int, (key@, values.deep_view())));
            },
            None => {
                columns.push((key, values));
                assert(columns.deep_view() =~= before.push((key@, values.deep_view())));
            },
        }
        DataFrame { columns }
    }

    /// Puts a column under a name, in place of the column of that name if
    /// there is one.
    fn add_column(&mut self, name: &str, elements: &[&str])
        ensures
            final(self)@ == old(self)@.with_column(canonical(name@), elements.deep_view()),
    {
        let mut values: Vec<String> = Vec::new();
        let mut i: usize = 0;
        while i < elements.len()
            invariant
                i <= elements.len(),
                values.len() == i,
                forall|k: int| 0 <= k < i ==> values@[k]@ == elements@[k]@,
            decreases elements.len() - i,
        {
            values.push(String::from_str(elements[i]));
            i = i + 1;
        }
        assert(values.deep_view() =~= elements.deep_view());
        proof {
            crate::context_traits::lemma_canonical_idempotent(name@);
        }
        let mut frame = DataFrame::new();
        core::mem::swap(self, &mut frame);
        *self = frame.with_column(Var::format(name), values);
    }

    /// Whether a column of that name exists.
    fn is_in_dataframe(&self, key: String) -> (r: bool)
        ensures
            r == self@.has(canonical(key@)),
    {
        let name = Var::format(key.as_str());
        self.find(&name).is_some()
    }

    /// The column-wise concatenation of this frame and another.
    fn join(&self, df: Self) -> (r: Self)
        ensures
            r@ == self@.joined(df@),
    {
        proof {
            use_type_invariant(&df);
        }
        let mut out = self.clone();
        let mut i: usize = 0;
        while i < df.columns.len()
            invariant
                i <= df.columns.len(),
                df@.wf(),
                out@ == self@.joined_prefix(df@, i as nat),
            decreases df.columns.len() - i,
        {
            assert(canonical(df@.entries[i as int].0) == df@.entries[i as int].0);
            out = out.extended(df.columns[i].0.clone(), clone_strings(&df.columns[i].1));
            i = i + 1;
        }
        out
    }
}

impl DataFrame {
    /// The value of a column at a row, if there is such a column and it has
    /// such a row.
    fn cell(&self, key: &str, row: usize) -> (r: Option<String>)
        ensures
            self@.wf(),
            match r {
                Some(value) => self@.has(canonical(key@)) && row < self@.column(
                    canonical(key@),
                ).len() && value@ == self@.column(canonical(key@))[row as int],
                None => !self@.has(canonical(key@)) || row >= self@.column(canonical(key@)).len(),
            },
    {
        let name = Var::format(key);
        match self.find(&name) {
            Some(i) => {
                assert(self@.column(name@) == self@.entries[i as int].1);
                assert(self@.entries[i as int].1.len() == self.columns@[i as int].1.len());
                if row < self.columns[i].1.len() {
                    assert(self@.entries[i as int].1[row as int]
                        == self.columns@[i as int].1@[row as int]@);
                    Some(self.columns[i].1[row].clone())
                } else {
                    None
                }
            },
            None => None,
        }
    }

    /// The columns with their names, in the order in which they were added.
    fn entries(&self) -> (r: Vec<(String, Vec<String>)>)
        ensures
            r.deep_view() == self@.entries,
    {
        self.clone().columns
    }
}

impl DataFrame {
    /// The frame built from name and value pairs, each value added to the
    /// column of its name; an error if its columns are not of one length.
    pub fn try_from_pairs(v: Vec<(String, String)>) -> (r: Result<Self, String>)
        ensures
            match r {
                Ok(df) => df@ == Table::of_pairs(v.deep_view()) && df@.aligned(),
                Err(e) => !Table::of_pairs(v.deep_view()).aligned() && e@
                    == "Failed to build Dataframe from Vec<(String, String)>"@,
            },
    {
        let pairs = v.as_slice();
        assert(pairs.deep_view() =~= v.deep_view());
        match DataFrame::body(pairs) {
            Some(df) => Ok(df),
            None => Err(String::from_str("Failed to build Dataframe from Vec<(String, String)>")),
        }
    }
}

/// The name and value pairs that a list of two-item rows stands for, if
/// every row has at least two items.
pub open spec fn pairs_of_rows(rows: Seq<Seq<Seq<char>>>) -> Option<Seq<(Seq<char>, Seq<char>)>> {
    if forall|i: int| 0 <= i < rows.len() ==> (#[trigger] rows[i]).len() >= 2 {
        Some(Seq::new(rows.len(), |i: int| (rows[i][0], rows[i][1])))
    } else {
        None
    }
}

impl DataFrame {
    /// The frame built from rows that each begin with a name and a value; an
    /// error if a row is shorter or the columns are not of one length.
    pub fn try_from_rows(v: Vec<Vec<String>>) -> (r: Result<Self, String>)
        ensures
            match r {
                Ok(df) => pairs_of_rows(v.deep_view()) matches Some(pairs) && df@ == Table::of_pairs(
                    pairs,
                ) && df@.aligned(),
                Err(e) => e@ == "Failed to build Dataframe from Vec<Vec<String>>"@ && match pairs_of_rows(
                    v.deep_view(),
                ) {
                    Some(pairs) => !Table::of_pairs(pairs).aligned(),
                    None => true,
                },
            },
    {
        let mut pairs: Vec<(String, String)> = Vec::new();
        let mut i: usize = 0;
        while i < v.len()
            invariant
                i <= v.len(),
                pairs.len() == i,
                forall|k: int| 0 <= k < i ==> (#[trigger] v.deep_view()[k]).len() >= 2,
                forall|k: int|
                    0 <= k < i ==> (#[trigger] pairs@[k]).deep_view() == (
                        v.deep_view()[k][0],
                        v.deep_view()[k][1],
                    ),
            decreases v.len() - i,
        {
            if v[i].len() < 2 {
                assert(v.deep_view()[i as int].len() < 2);
                return Err(String::from_str("Failed to build Dataframe from Vec<Vec<String>>"));
            }
            pairs.push((v[i][0].clone(), v[i][1].clone()));
            i = i + 1;
        }
        let listed = pairs.as_slice();
        assert(listed.deep_view() =~= pairs_of_rows(v.deep_view())->0);
        match DataFrame::body(listed) {
            Some(df) => Ok(df),
            None => Err(String::from_str("Failed to build Dataframe from Vec<Vec<String>>")),
        }
    }
}

/// A binding table together with the commands that follow from it and a log
/// of errors.
#[derive(Debug, PartialEq)]
pub struct SimpleContext {
    pub tab: DataFrame,
    pub cmds: Vec<String>,
    pub log: Vec<String>,
}

impl Clone for SimpleContext {
    fn clone(&self) -> (r: Self)
        ensures
            r.tab@ == self.tab@,
            r.cmds.deep_view() == self.cmds.deep_view(),
            r.log.deep_view() == self.log.deep_view(),
    {
        SimpleContext {
            tab: self.tab.clone(),
            cmds: clone_strings(&self.cmds),
            log: clone_strings(&self.log),
        }
    }
}

impl Default for SimpleContext {
    fn default() -> (r: Self)
        ensures
            r.tab@ == Table::empty(),
            r.cmds.deep_view() == Seq::<Seq<char>>::empty(),
            r.log.deep_view() == Seq::<Seq<char>>::empty(),
    {
        let r = SimpleContext { tab: DataFrame::new(), cmds: Vec::new(), log: Vec::new() };
        assert(r.cmds.deep_view() =~= Seq::<Seq<char>>::empty());
        assert(r.log.deep_view() =~= Seq::<Seq<char>>::empty());
        r
    }
}

/// The table of facts that a list of triples stands for: their subjects,
/// links and goals in three columns, or no column if there is no triple.
pub open spec fn table_of_triples(triples: Seq<Seq<Seq<char>>>) -> Table {
    if triples.len() == 0 {
        Table::empty()
    } else {
        Table::empty().with_column(
            canonical("subject"@),
            Seq::new(triples.len(), |i: int| triples[i][0]),
        ).with_column(canonical("link"@), Seq::new(triples.len(), |i: int| triples[i][1])).with_column(
            canonical("goal"@),
            Seq::new(triples.len(), |i: int| triples[i][2]),
        )
    }
}

impl SimpleContext {
    /// The column-wise concatenation of two contexts: see [`Context::join`].
    pub fn join_contexts(ctx1: SimpleContext, ctx2: SimpleContext) -> (r: SimpleContext)
        ensures
            r.tab@ == ctx1.tab@.joined(ctx2.tab@),
            r.cmds.deep_view() == ctx2.cmds.deep_view(),
            r.log.deep_view() == ctx2.log.deep_view(),
    {
        ctx1.join(ctx2)
    }

    /// Whether commands follow from this context.
    pub fn has_commands(&self) -> (r: bool)
        ensures
            r == (self.cmds.deep_view().len() > 0),
    {
        self.cmds.len() > 0
    }

    /// Whether the log holds an error.
    pub fn has_error(&self) -> (r: bool)
        ensures
            r == (self.log.deep_view().len() > 0),
    {
        self.log.len() > 0
    }

    /// The number of rows of the table.
    pub fn len(&self) -> (r: usize)
        ensures
            r == self.tab@.rows(),
    {
        self.tab.len()
    }

    /// Whether every column has as many values as the table has rows.
    pub fn is_aligned(&self) -> (r: bool)
        ensures
            r == self.tab@.aligned(),
    {
        DataFrame::check(&self.tab)
    }

    /// The value of a column at a row, if there is such a column and it has
    /// such a row.
    pub fn value_at(&self, key: &str, row: usize) -> (r: Option<String>)
        ensures
            self.tab@.wf(),
            match r {
                Some(value) => self.tab@.has(canonical(key@)) && row < self.tab@.column(
                    canonical(key@),
                ).len() && value@ == self.tab@.column(canonical(key@))[row as int],
                None => !self.tab@.has(canonical(key@)) || row >= self.tab@.column(
                    canonical(key@),
                ).len(),
            },
    {
        self.tab.cell(key, row)
    }

    /// A copy of the table.
    pub fn get_tab(&self) -> (r: DataFrame)
        ensures
            r@ == self.tab@,
    {
        self.tab.clone()
    }

    /// The context of a table, without commands and with an empty log.
    pub fn of_frame(tab: DataFrame) -> (r: SimpleContext)
        ensures
            r.tab@ == tab@,
            r.cmds.deep_view() == Seq::<Seq<char>>::empty(),
            r.log.deep_view() == Seq::<Seq<char>>::empty(),
    {
        let r = SimpleContext { tab, cmds: Vec::new(), log: Vec::new() };
        assert(r.cmds.deep_view() =~= Seq::<Seq<char>>::empty());
        assert(r.log.deep_view() =~= Seq::<Seq<char>>::empty());
        r
    }

    /// The context of a list of facts: see [`table_of_triples`].
    pub fn of_triples(v: &Vec<[&str; 3]>) -> (r: SimpleContext)
        ensures
            r.tab@ == table_of_triples(v.deep_view()),
            r.cmds.deep_view() == Seq::<Seq<char>>::empty(),
            r.log.deep_view() == Seq::<Seq<char>>::empty(),
    {
        let mut context = SimpleContext::of_frame(DataFrame::new());
        if v.len() == 0 {
            return context;
        }
        let mut subjects: Vec<&str> = Vec::new();
        let mut links: Vec<&str> = Vec::new();
        let mut goals: Vec<&str> = Vec::new();
        let mut i: usize = 0;
        while i < v.len()
            invariant
                i <= v.len(),
                subjects.len() == i,
                links.len() == i,
                goals.len() == i,
                forall|k: int| 0 <= k < i ==> (#[trigger] subjects@[k])@ == v.deep_view()[k][0],
                forall|k: int| 0 <= k < i ==> (#[trigger] links@[k])@ == v.deep_view()[k][1],
                forall|k: int| 0 <= k < i ==> (#[trigger] goals@[k])@ == v.deep_view()[k][2],
            decreases v.len() - i,
        {
            let triple = &v[i];
            assert(v.deep_view()[i as int] == triple.deep_view());
            subjects.push(triple[0]);
            links.push(triple[1]);
            goals.push(triple[2]);
            i = i + 1;
        }
        let first = subjects.as_slice();
        let second = links.as_slice();
        let third = goals.as_slice();
        assert(first.deep_view() =~= Seq::new(v.deep_view().len(), |i: int| v.deep_view()[i][0]));
        assert(second.deep_view() =~= Seq::new(v.deep_view().len(), |i: int| v.deep_view()[i][1]));
        assert(third.deep_view() =~= Seq::new(v.deep_view().len(), |i: int| v.deep_view()[i][2]));
        context.tab.add_column("subject", first);
        context.tab.add_column("link", second);
        context.tab.add_column("goal", third);
        context
    }
}

impl SimpleContext {
    /// The context of the frame built from name and value pairs; an error if
    /// the columns of that frame are not of one length.
    pub fn try_from_pairs(v: Vec<(String, String)>) -> (r: Result<Self, String>)
        ensures
            match r {
                Ok(c) => c.tab@ == Table::of_pairs(v.deep_view()) && c.tab@.aligned()
                    && c.cmds.deep_view().len() == 0 && c.log.deep_view().len() == 0,
                Err(e) => !Table::of_pairs(v.deep_view()).aligned() && e@
                    == "We weren't able to convert the list of tuple to a context"@,
            },
    {
        let pairs = v.as_slice();
        assert(pairs.deep_view() =~= v.deep_view());
        match DataFrame::body(pairs) {
            Some(df) => Ok(SimpleContext::of_frame(df)),
            None => Err(
                String::from_str("We weren't able to convert the list of tuple to a context"),
            ),
        }
    }
}

impl vstd::std_specs::convert::FromSpecImpl<DataFrame> for SimpleContext {
    /// The conversion is specified by the `ensures` of `from` alone.
    open spec fn obeys_from_spec() -> bool {
        false
    }

    open spec fn from_spec(value: DataFrame) -> Self {
        arbitrary()
    }
}

impl From<DataFrame> for SimpleContext {
    fn from(value: DataFrame) -> (r: SimpleContext)
        ensures
            r.tab@ == value@,
            r.cmds.deep_view().len() == 0,
            r.log.deep_view().len() == 0,
    {
        SimpleContext::of_frame(value)
    }
}

impl vstd::std_specs::convert::FromSpecImpl<Vec<[&str; 3]>> for SimpleContext {
    /// The conversion is specified by the `ensures` of `from` alone.
    open spec fn obeys_from_spec() -> bool {
        false
    }

    open spec fn from_spec(v: Vec<[&str; 3]>) -> Self {
        arbitrary()
    }
}

impl From<Vec<[&str; 3]>> for SimpleContext {
    fn from(v: Vec<[&str; 3]>) -> (r: SimpleContext)
        ensures
            r.tab@ == table_of_triples(v.deep_view()),
            r.cmds.deep_view().len() == 0,
            r.log.deep_view().len() == 0,
    {
        SimpleContext::of_triples(&v)
    }
}

impl Context for SimpleContext {
    type DataError = DataFrameError;

    open spec fn table(&self) -> Table {
        self.tab@
    }

    fn new() -> (r: SimpleContext)
        ensures
            r.cmds.deep_view().len() == 0,
            r.log.deep_view().len() == 0,
    {
        SimpleContext::of_frame(DataFrame::new())
    }

    fn get_variables(&self) -> (r: Vec<Var>) {
        self.tab.get_variables()
    }

    fn get_values(&self, key: &str) -> (r: Result<Vec<String>, DataFrameError>)
        ensures
            r matches Err(DataFrameError::InexistentColumnIn(asked, names)) ==> asked@ == key@
                && lists_names(names.deep_view(), self.tab@),
    {
        self.tab.get_values(key)
    }

    fn get_values2(&self, columns: &[&str]) -> (r: Option<Vec<Vec<String>>>) {
        self.tab.get_values2(columns)
    }

    fn get_table(&self) -> (r: Vec<(String, Vec<String>)>) {
        self.tab.entries()
    }

    fn add_column(&mut self, name: &str, elements: &[&str]) -> (r: SimpleContext)
        ensures
            final(self).cmds.deep_view() == old(self).cmds.deep_view(),
            final(self).log.deep_view() == old(self).log.deep_view(),
            r.cmds.deep_view() == old(self).cmds.deep_view(),
            r.log.deep_view() == old(self).log.deep_view(),
    {
        self.tab.add_column(name, elements);
        self.clone()
    }

    fn is_in_context(&self, key: String) -> (r: bool) {
        self.tab.is_in_dataframe(key)
    }

    fn dataframe_len(&self) -> (r: usize) {
        self.tab.len()
    }

    fn is_empty(&self) -> (r: bool) {
        self.dataframe_len() == 0
    }

    fn is_not_empty(&self) -> (r: bool) {
        !self.is_empty()
    }

    /// The tables are concatenated column by column: under every name the
    /// values of this context are followed by those of `c2`. The commands
    /// and the log are those of `c2`.
    fn join(&self, c2: SimpleContext) -> (r: SimpleContext)
        ensures
            r.cmds.deep_view() == c2.cmds.deep_view(),
            r.log.deep_view() == c2.log.deep_view(),
            forall|name: Seq<char>|
                #[trigger] r.table().values(name) == self.table().values(name) + c2.table().values(
                    name,
                ),
            forall|name: Seq<char>|
                #[trigger] r.table().has(name) == (self.table().has(name) || c2.table().has(name)),
    {
        let _ = self.tab.len();
        let _ = c2.tab.len();
        let tab = self.tab.join(c2.tab);
        proof {
            assert forall|name: Seq<char>|
                #[trigger] tab@.values(name) == self.tab@.values(name) + c2.tab@.values(name) by {
                crate::context_traits::lemma_joined_values(self.tab@, c2.tab@, name);
            }
            assert forall|name: Seq<char>|
                #[trigger] tab@.has(name) == (self.tab@.has(name) || c2.tab@.has(name)) by {
                crate::context_traits::lemma_joined_values(self.tab@, c2.tab@, name);
            }
        }
        SimpleContext { tab, cmds: c2.cmds, log: c2.log }
    }
}

} // verus!
