//! Batches of rows as typed columns.
//!
//! A batch is a table: every column holds one optional value for each row. A
//! visitor reads a batch through the columns it selects, by position.

use crate::error::{DeltaResult, Error};
use crate::schema::ColumnName;
use vstd::prelude::*;

verus! {

/// The entries of a map from strings to strings, in the order in which they
/// were recorded. Of several entries with one key the last counts.
pub type StringMap = Vec<(String, String)>;

/// A column of a batch: one optional value for each row.
#[derive(Debug, PartialEq, Eq)]
pub enum Column {
    Str(Vec<Option<String>>),
    Int(Vec<Option<i32>>),
    Long(Vec<Option<i64>>),
    StrMap(Vec<Option<StringMap>>),
}

/// The mathematical value of a [`Column`].
pub enum ColumnView {
    Str(Seq<Option<Seq<char>>>),
    Int(Seq<Option<i32>>),
    Long(Seq<Option<i64>>),
    StrMap(Seq<Option<Seq<(Seq<char>, Seq<char>)>>>),
}

impl ColumnView {
    /// The number of rows.
    pub open spec fn len(self) -> nat {
        match self {
            ColumnView::Str(v) => v.len(),
            ColumnView::Int(v) => v.len(),
            ColumnView::Long(v) => v.len(),
            ColumnView::StrMap(v) => v.len(),
        }
    }

    /// The string in row `i`, which may be null.
    pub open spec fn str_at(self, i: int) -> Result<Option<Seq<char>>, Error> {
        match self {
            ColumnView::Str(v) => Ok(v[i]),
            _ => Err(Error::UnexpectedColumnType),
        }
    }

    /// The 32-bit integer in row `i`, which may be null.
    pub open spec fn int_at(self, i: int) -> Result<Option<i32>, Error> {
        match self {
            ColumnView::Int(v) => Ok(v[i]),
            _ => Err(Error::UnexpectedColumnType),
        }
    }

    /// The 64-bit integer in row `i`, which may be null.
    pub open spec fn long_at(self, i: int) -> Result<Option<i64>, Error> {
        match self {
            ColumnView::Long(v) => Ok(v[i]),
            _ => Err(Error::UnexpectedColumnType),
        }
    }

    /// The map in row `i`, which may be null.
    pub open spec fn map_at(self, i: int) -> Result<Option<Seq<(Seq<char>, Seq<char>)>>, Error> {
        match self {
            ColumnView::StrMap(v) => Ok(v[i]),
            _ => Err(Error::UnexpectedColumnType),
        }
    }

    /// Whether row `i` holds no value.
    pub open spec fn is_null_at(self, i: int) -> bool {
        match self {
            ColumnView::Str(v) => v[i] is None,
            ColumnView::Int(v) => v[i] is None,
            ColumnView::Long(v) => v[i] is None,
            ColumnView::StrMap(v) => v[i] is None,
        }
    }
}

/// The value that must be present: a null is [`Error::MissingData`].
pub open spec fn required<T>(r: Result<Option<T>, Error>) -> Result<T, Error> {
    match r {
        Ok(Some(v)) => Ok(v),
        Ok(None) => Err(Error::MissingData),
        Err(e) => Err(e),
    }
}

/// The value recorded under `key` in the entries of a map: that of the last
/// entry with this key.
pub open spec fn map_lookup(entries: Seq<(Seq<char>, Seq<char>)>, key: Seq<char>) -> Option<
    Seq<char>,
>
    decreases entries.len(),
{
    if entries.len() == 0 {
        None
    } else if entries.last().0 == key {
        Some(entries.last().1)
    } else {
        map_lookup(entries.drop_last(), key)
    }
}

impl View for Column {
    type V = ColumnView;

    open spec fn view(&self) -> ColumnView {
        match self {
            Column::Str(v) => ColumnView::Str(v.deep_view()),
            Column::Int(v) => ColumnView::Int(v.deep_view()),
            Column::Long(v) => ColumnView::Long(v.deep_view()),
            Column::StrMap(v) => ColumnView::StrMap(v.deep_view()),
        }
    }
}

impl DeepView for Column {
    type V = ColumnView;

    open spec fn deep_view(&self) -> ColumnView {
        self@
    }
}

/// The views of the columns that a visitor was handed, in order.
pub open spec fn getter_views(getters: Seq<&Column>) -> Seq<ColumnView> {
    getters.map_values(|c: &Column| c@)
}

/// The value recorded under `key` in the entries of a map.
pub fn lookup<'a>(entries: &'a StringMap, key: &String) -> (r: Option<&'a String>)
    ensures
        match map_lookup(entries.deep_view(), key@) {
            Some(v) => r matches Some(s) && s@ == v,
            None => r is None,
        },
{
    let ghost all = entries.deep_view();
    let mut i: usize = entries.len();
    assert(all.take(i as int) =~= all);
    while i > 0
        invariant
            i <= entries.len(),
            all == entries.deep_view(),
            map_lookup(all, key@) == map_lookup(all.take(i as int), key@),
        decreases i,
    {
        i -= 1;
        proof {
            assert(all.take(i + 1).drop_last() =~= all.take(i as int));
            assert(all.take(i + 1).last() == all[i as int]);
            assert(all[i as int].0 == entries[i as int].0@);
            assert(all[i as int].1 == entries[i as int].1@);
        }
        if entries[i].0 == *key {
            return Some(&entries[i].1);
        }
    }
    None
}

impl Column {
    /// The number of rows.
    pub fn len(&self) -> (r: usize)
        ensures
            r == self@.len(),
    {
        match self {
            Column::Str(v) => v.len(),
            Column::Int(v) => v.len(),
            Column::Long(v) => v.len(),
            Column::StrMap(v) => v.len(),
        }
    }

    /// The string in row `i`, which may be null.
    pub fn get_str(&self, i: usize) -> (r: DeltaResult<Option<&String>>)
        requires
            i < self@.len(),
        ensures
            match self@.str_at(i as int) {
                Ok(Some(v)) => r matches Ok(Some(s)) && s@ == v,
                Ok(None) => r matches Ok(None),
                Err(e) => r matches Err(x) && x == e,
            },
    {
        match self {
            Column::Str(v) => {
                assert(v.deep_view()[i as int] == v[i as int].deep_view());
                match &v[i] {
                    Some(s) => Ok(Some(s)),
                    None => Ok(None),
                }
            },
            _ => Err(Error::UnexpectedColumnType),
        }
    }

    /// The 32-bit integer in row `i`, which may be null.
    pub fn get_int(&self, i: usize) -> (r: DeltaResult<Option<i32>>)
        requires
            i < self@.len(),
        ensures
            r == self@.int_at(i as int),
    {
        match self {
            Column::Int(v) => {
                assert(v.deep_view()[i as int] == v[i as int].deep_view());
                Ok(v[i])
            },
            _ => Err(Error::UnexpectedColumnType),
        }
    }

    /// The 64-bit integer in row `i`, which may be null.
    pub fn get_long(&self, i: usize) -> (r: DeltaResult<Option<i64>>)
        requires
            i < self@.len(),
        ensures
            r == self@.long_at(i as int),
    {
        match self {
            Column::Long(v) => {
                assert(v.deep_view()[i as int] == v[i as int].deep_view());
                Ok(v[i])
            },
            _ => Err(Error::UnexpectedColumnType),
        }
    }

    /// The map in row `i`, which may be null.
    pub fn get_map(&self, i: usize) -> (r: DeltaResult<Option<&StringMap>>)
        requires
            i < self@.len(),
        ensures
            match self@.map_at(i as int) {
                Ok(Some(v)) => r matches Ok(Some(m)) && m.deep_view() == v,
                Ok(None) => r matches Ok(None),
                Err(e) => r matches Err(x) && x == e,
            },
    {
        match self {
            Column::StrMap(v) => {
                assert(v.deep_view()[i as int] == v[i as int].deep_view());
                match &v[i] {
                    Some(m) => Ok(Some(m)),
                    None => Ok(None),
                }
            },
            _ => Err(Error::UnexpectedColumnType),
        }
    }
}

fn clone_strings(v: &Vec<Option<String>>) -> (r: Vec<Option<String>>)
    ensures
        r.deep_view() == v.deep_view(),
{
    let mut out: Vec<Option<String>> = Vec::new();
    let mut i: usize = 0;
    while i < v.len()
        invariant
            i <= v.len(),
            out.len() == i,
            forall|j: int| 0 <= j < i ==> out[j].deep_view() == v[j].deep_view(),
        decreases v.len() - i,
    {
        let cell: Option<String> = match &v[i] {
            Some(s) => Some(s.clone()),
            None => None,
        };
        out.push(cell);
        i += 1;
    }
    assert(out.deep_view() =~= v.deep_view());
    out
}

fn clone_ints(v: &Vec<Option<i32>>) -> (r: Vec<Option<i32>>)
    ensures
        r.deep_view() == v.deep_view(),
{
    let mut out: Vec<Option<i32>> = Vec::new();
    let mut i: usize = 0;
    while i < v.len()
        invariant
            i <= v.len(),
            out.len() == i,
            forall|j: int| 0 <= j < i ==> out[j] == v[j],
        decreases v.len() - i,
    {
        out.push(v[i]);
        i += 1;
    }
    assert(out.deep_view() =~= v.deep_view());
    out
}

fn clone_longs(v: &Vec<Option<i64>>) -> (r: Vec<Option<i64>>)
    ensures
        r.deep_view() == v.deep_view(),
{
    let mut out: Vec<Option<i64>> = Vec::new();
    let mut i: usize = 0;
    while i < v.len()
        invariant
            i <= v.len(),
            out.len() == i,
            forall|j: int| 0 <= j < i ==> out[j] == v[j],
        decreases v.len() - i,
    {
        out.push(v[i]);
        i += 1;
    }
    assert(out.deep_view() =~= v.deep_view());
    out
}

fn clone_entries(m: &StringMap) -> (r: StringMap)
    ensures
        r.deep_view() == m.deep_view(),
{
    let mut out: StringMap = Vec::new();
    let mut i: usize = 0;
    while i < m.len()
        invariant
            i <= m.len(),
            out.len() == i,
            forall|j: int| 0 <= j < i ==> out[j].deep_view() == m[j].deep_view(),
        decreases m.len() - i,
    {
        out.push((m[i].0.clone(), m[i].1.clone()));
        i += 1;
    }
    assert(out.deep_view() =~= m.deep_view());
    out
}

fn clone_maps(v: &Vec<Option<StringMap>>) -> (r: Vec<Option<StringMap>>)
    ensures
        r.deep_view() == v.deep_view(),
{
    let mut out: Vec<Option<StringMap>> = Vec::new();
    let mut i: usize = 0;
    while i < v.len()
        invariant
            i <= v.len(),
            out.len() == i,
            forall|j: int| 0 <= j < i ==> out[j].deep_view() == v[j].deep_view(),
        decreases v.len() - i,
    {
        let cell: Option<StringMap> = match &v[i] {
            Some(m) => Some(clone_entries(m)),
            None => None,
        };
        out.push(cell);
        i += 1;
    }
    assert(out.deep_view() =~= v.deep_view());
    out
}

impl Clone for Column {
    fn clone(&self) -> (r: Column)
        ensures
            r@ == self@,
    {
        match self {
            Column::Str(v) => Column::Str(clone_strings(v)),
            Column::Int(v) => Column::Int(clone_ints(v)),
            Column::Long(v) => Column::Long(clone_longs(v)),
            Column::StrMap(v) => Column::StrMap(clone_maps(v)),
        }
    }
}

/// The mathematical value of an [`ActionBatch`]: a table of named columns.
pub struct BatchView {
    pub num_rows: nat,
    pub names: Seq<Seq<Seq<char>>>,
    pub columns: Seq<ColumnView>,
}

/// Whether `i` is the first position at which `name` occurs in `names`.
pub open spec fn is_first_index(names: Seq<Seq<Seq<char>>>, name: Seq<Seq<char>>, i: int) -> bool {
    &&& 0 <= i < names.len()
    &&& names[i] == name
    &&& forall|j: int| 0 <= j < i ==> names[j] != name
}

impl BatchView {
    /// Every column has a name, and as many rows as the batch.
    pub open spec fn wf(self) -> bool {
        &&& self.names.len() == self.columns.len()
        &&& forall|i: int| 0 <= i < self.columns.len() ==> (#[trigger] self.columns[i]).len()
            == self.num_rows
    }

    pub open spec fn has_column(self, name: Seq<Seq<char>>) -> bool {
        exists|i: int| is_first_index(self.names, name, i)
    }

    /// The column called `name`: the first, should several have the name.
    pub open spec fn column(self, name: Seq<Seq<char>>) -> ColumnView {
        self.columns[choose|i: int| is_first_index(self.names, name, i)]
    }

    /// Whether the batch lacks the column `wanted[k]` and has all those
    /// before it.
    pub open spec fn first_missing(self, wanted: Seq<Seq<Seq<char>>>, k: int) -> bool {
        &&& 0 <= k < wanted.len()
        &&& !self.has_column(wanted[k])
        &&& forall|j: int| 0 <= j < k ==> self.has_column(#[trigger] wanted[j])
    }

    /// The columns called `wanted`, in that order. The first name that the
    /// batch has no column for fails the selection.
    pub open spec fn select(self, wanted: Seq<Seq<Seq<char>>>) -> Result<Seq<ColumnView>, Error> {
        if exists|k: int| self.first_missing(wanted, k) {
            Err(Error::MissingColumn((choose|k: int| self.first_missing(wanted, k)) as usize))
        } else {
            Ok(Seq::new(wanted.len(), |k: int| self.column(wanted[k])))
        }
    }
}

/// A batch of rows of the log, as a table of named columns. Every column
/// has one value for each row of the batch.
#[derive(Debug, PartialEq, Eq)]
pub struct ActionBatch {
    num_rows: usize,
    names: Vec<ColumnName>,
    columns: Vec<Column>,
}

impl View for ActionBatch {
    type V = BatchView;

    closed spec fn view(&self) -> BatchView {
        BatchView {
            num_rows: self.num_rows as nat,
            names: self.names.deep_view(),
            columns: self.columns.deep_view(),
        }
    }
}

impl ActionBatch {
    #[verifier::type_invariant]
    spec fn consistent(self) -> bool {
        self@.wf()
    }

    /// A batch of `num_rows` rows and no columns.
    pub fn new(num_rows: usize) -> (r: ActionBatch)
        ensures
            r@ == (BatchView { num_rows: num_rows as nat, names: Seq::empty(), columns: Seq::empty() }),
    {
        let r = ActionBatch { num_rows, names: Vec::new(), columns: Vec::new() };
        assert(r@.names =~= Seq::empty());
        assert(r@.columns =~= Seq::empty());
        r
    }

    /// The batch with one more column, which comes last. `None` if the
    /// column has another number of rows than the batch.
    pub fn with_column(self, name: ColumnName, column: Column) -> (r: Option<ActionBatch>)
        ensures
            r is Some <==> column@.len() == self@.num_rows,
            r matches Some(b) ==> b@ == (BatchView {
                num_rows: self@.num_rows,
                names: self@.names.push(name@),
                columns: self@.columns.push(column@),
            }),
    {
        proof {
            use_type_invariant(&self);
        }
        if column.len() != self.num_rows {
            return None;
        }
        let ghost before = self@;
        let ActionBatch { num_rows, names, columns } = self;
        let mut names = names;
        let mut columns = columns;
        names.push(name);
        columns.push(column);
        proof {
            assert(names.deep_view() =~= before.names.push(name@));
            assert(columns.deep_view() =~= before.columns.push(column@));
            assert forall|i: int| 0 <= i < columns.deep_view().len() implies (
            #[trigger] columns.deep_view()[i]).len() == num_rows by {
                if i < before.columns.len() {
                    assert(before.columns[i].len() == before.num_rows);
                }
            }
        }
        Some(ActionBatch { num_rows, names, columns })
    }

    /// The number of rows. Every column of the batch has as many.
    pub fn len(&self) -> (r: usize)
        ensures
            r == self@.num_rows,
            self@.wf(),
    {
        proof {
            use_type_invariant(self);
        }
        self.num_rows
    }

    /// The column called `name`, if the batch has one.
    pub fn column(&self, name: &ColumnName) -> (r: Option<&Column>)
        ensures
            r is Some <==> self@.has_column(name@),
            r matches Some(c) ==> c@ == self@.column(name@) && c@.len() == self@.num_rows,
    {
        proof {
            use_type_invariant(self);
        }
        let mut i: usize = 0;
        while i < self.names.len()
            invariant
                i <= self.names.len(),
                self@.wf(),
                forall|j: int| 0 <= j < i ==> self@.names[j] != name@,
            decreases self.names.len() - i,
        {
            if self.names[i].same(name) {
                proof {
                    assert(is_first_index(self@.names, name@, i as int));
                    let c = choose|c: int| is_first_index(self@.names, name@, c);
                    assert(c == i);
                    assert(self@.columns[i as int] == self.columns[i as int]@);
                }
                return Some(&self.columns[i]);
            }
            i += 1;
        }
        None
    }

    /// The columns called `wanted`, in that order.
    pub fn select<'a>(&'a self, wanted: &Vec<ColumnName>) -> (r: DeltaResult<Vec<&'a Column>>)
        ensures
            match self@.select(wanted.deep_view()) {
                Ok(cols) => r matches Ok(found) && getter_views(found@) == cols && forall|k: int|
                    0 <= k < found@.len() ==> (#[trigger] found@[k])@.len() == self@.num_rows,
                Err(e) => r matches Err(x) && x == e,
            },
    {
        let ghost names = wanted.deep_view();
        let mut found: Vec<&'a Column> = Vec::new();
        let mut k: usize = 0;
        while k < wanted.len()
            invariant
                k <= wanted.len(),
                names == wanted.deep_view(),
                found@.len() == k,
                forall|j: int| 0 <= j < k ==> self@.has_column(#[trigger] names[j]),
                forall|j: int|
                    0 <= j < k ==> (#[trigger] found@[j])@ == self@.column(names[j])
                        && found@[j]@.len() == self@.num_rows,
            decreases wanted.len() - k,
        {
            assert(names[k as int] == wanted[k as int]@);
            match self.column(&wanted[k]) {
                Some(c) => {
                    found.push(c);
                },
                None => {
                    proof {
                        assert(self@.first_missing(names, k as int));
                        let m = choose|m: int| self@.first_missing(names, m);
                        assert(m == k);
                    }
                    return Err(Error::MissingColumn(k));
                },
            }
            k += 1;
        }
        proof {
            assert forall|m: int| !self@.first_missing(names, m) by {
            }
            assert(getter_views(found@) =~= Seq::new(
                names.len(),
                |k: int| self@.column(names[k]),
            ));
        }
        Ok(found)
    }
}

/// The mathematical value of an item of a log stream.
pub open spec fn item_view(item: DeltaResult<(ActionBatch, bool)>) -> Result<
    (BatchView, bool),
    Error,
> {
    match item {
        Ok(b) => Ok((b.0@, b.1)),
        Err(e) => Err(e),
    }
}

pub open spec fn item_views(items: Seq<DeltaResult<(ActionBatch, bool)>>) -> Seq<
    Result<(BatchView, bool), Error>,
> {
    items.map_values(|i: DeltaResult<(ActionBatch, bool)>| item_view(i))
}

} // verus!
