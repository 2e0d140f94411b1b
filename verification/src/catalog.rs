//! Relation metadata and rows, as the writer reads them.
use vstd::prelude::*;
use vstd::string::*;

use crate::text::cell_append;
use crate::text::cell_sql;
use crate::text::joined;
use crate::text::lemma_joined_push;
use crate::text::separator_append;

verus! {

/// One row image: a cell per column position, `None` for SQL NULL.
pub type Row = Vec<Option<String>>;

/// The mathematical value of a [`Row`].
pub type RowView = Seq<Option<Seq<char>>>;

/// A column of a relation.
#[derive(Clone, Debug)]
pub struct ColumnMetadata {
    pub name: String,
    /// One-based position in the relation.
    pub position: u16,
    pub type_oid: u32,
    pub source_type_name: String,
    /// The type the cache table gives the column.
    pub cache_type_name: String,
    pub is_primary_key: bool,
    /// Whether the column's type can be stored out of line, so that an UPDATE
    /// image may leave its value out.
    pub toastable: bool,
}

/// A relation known to the cache.
#[derive(Clone, Debug)]
pub struct TableMetadata {
    pub relation_oid: u32,
    pub name: String,
    pub schema: String,
    pub primary_key_columns: Vec<String>,
    /// In position order.
    pub columns: Vec<ColumnMetadata>,
}

impl ColumnMetadata {
    /// Zero-based index of the column's cell in a row.
    pub open spec fn index_spec(&self) -> int {
        if self.position > 0 {
            self.position - 1
        } else {
            0
        }
    }

    /// Zero-based index of the column's cell in a row.
    pub fn index(&self) -> (i: usize)
        ensures
            i == self.index_spec(),
    {
        if self.position > 0 {
            (self.position - 1) as usize
        } else {
            0
        }
    }
}

/// The row's cell at `i`, or `None` when the row is too short to have one.
pub open spec fn cell_at(row: RowView, i: int) -> Option<Option<Seq<char>>> {
    if 0 <= i < row.len() {
        Some(row[i])
    } else {
        None
    }
}

/// Position in `columns` of the first column named `name`.
pub open spec fn column_position(columns: Seq<ColumnMetadata>, name: Seq<char>) -> Option<int>
    decreases columns.len(),
{
    if columns.len() == 0 {
        None
    } else {
        match column_position(columns.drop_last(), name) {
            Some(i) => Some(i),
            None => if columns.last().name@ == name {
                Some(columns.len() - 1)
            } else {
                None
            },
        }
    }
}

/// What the row holds in the column named `name`: nothing when the relation
/// has no such column or the row is too short.
pub open spec fn named_cell(
    columns: Seq<ColumnMetadata>,
    row: RowView,
    name: Seq<char>,
) -> Option<Option<Seq<char>>> {
    match column_position(columns, name) {
        Some(i) => cell_at(row, columns[i].index_spec()),
        None => None,
    }
}

/// A column position is in range and carries the name.
pub proof fn lemma_column_position(columns: Seq<ColumnMetadata>, name: Seq<char>)
    ensures
        match column_position(columns, name) {
            Some(i) => 0 <= i < columns.len() && columns[i].name@ == name && forall|j: int|
                0 <= j < i ==> (#[trigger] columns[j]).name@ != name,
            None => forall|j: int|
                0 <= j < columns.len() ==> (#[trigger] columns[j]).name@ != name,
        },
    decreases columns.len(),
{
    if columns.len() > 0 {
        lemma_column_position(columns.drop_last(), name);
        let short = columns.drop_last();
        assert(forall|j: int| 0 <= j < short.len() ==> short[j] == columns[j]);
        match column_position(short, name) {
            Some(i) => {
                assert(short[i] == columns[i]);
                assert forall|j: int| 0 <= j < i implies (#[trigger] columns[j]).name@ != name by {
                    assert(short[j].name@ != name);
                }
            }
            None => {
                assert forall|j: int| 0 <= j < columns.len() - 1 implies (
                #[trigger] columns[j]).name@ != name by {
                    assert(short[j].name@ != name);
                }
            }
        }
    }
}

/// Whether `names` holds `name`.
pub open spec fn name_in(names: Seq<String>, name: Seq<char>) -> bool {
    exists|i: int| 0 <= i < names.len() && (#[trigger] names[i])@ == name
}

/// A list of names holds a name exactly when its texts do.
pub proof fn lemma_name_in(names: Vec<String>, name: Seq<char>)
    ensures
        name_in(names@, name) == names.deep_view().contains(name),
{
    let texts = names.deep_view();
    assert forall|i: int| 0 <= i < names@.len() implies texts[i] == (#[trigger] names@[i])@ by {}
    if texts.contains(name) {
        let i = choose|i: int| 0 <= i < texts.len() && texts[i] == name;
        assert(names@[i]@ == name);
    }
}

/// Whether `names` holds `name`.
pub fn name_contains(names: &Vec<String>, name: &String) -> (found: bool)
    ensures
        found == name_in(names@, name@),
{
    let mut i: usize = 0;
    while i < names.len()
        invariant
            i <= names.len(),
            forall|j: int| 0 <= j < i ==> (#[trigger] names@[j])@ != name@,
        decreases names.len() - i,
    {
        if names[i] == *name {
            assert(names@[i as int]@ == name@);
            return true;
        }
        i = i + 1;
    }
    false
}

/// The row's cell at `i`, by reference.
pub fn row_get(row: &Row, i: usize) -> (cell: Option<&Option<String>>)
    ensures
        match cell {
            Some(c) => cell_at(row.deep_view(), i as int) == Some(c.deep_view()),
            None => cell_at(row.deep_view(), i as int) is None,
        },
{
    if i < row.len() {
        Some(&row[i])
    } else {
        None
    }
}

impl TableMetadata {
    /// Position in `columns` of the column named `name`.
    pub fn column_find(&self, name: &String) -> (position: Option<usize>)
        ensures
            match position {
                Some(i) => column_position(self.columns@, name@) == Some(i as int) && i
                    < self.columns@.len(),
                None => column_position(self.columns@, name@) is None,
            },
    {
        let mut i: usize = 0;
        assert(self.columns@.take(0) =~= Seq::<ColumnMetadata>::empty());
        while i < self.columns.len()
            invariant
                i <= self.columns.len(),
                column_position(self.columns@.take(i as int), name@) is None,
            decreases self.columns.len() - i,
        {
            proof {
                assert(self.columns@.take(i + 1).drop_last() =~= self.columns@.take(i as int));
            }
            if self.columns[i].name == *name {
                proof {
                    lemma_column_position(self.columns@.take(i as int), name@);
                    lemma_column_position(self.columns@, name@);
                    assert forall|j: int| 0 <= j < i implies (
                    #[trigger] self.columns@[j]).name@ != name@ by {
                        assert(self.columns@.take(i as int)[j] == self.columns@[j]);
                    }
                }
                return Some(i);
            }
            i = i + 1;
        }
        assert(self.columns@.take(i as int) =~= self.columns@);
        None
    }

    /// What the row holds in the column named `name`, by reference.
    pub fn named_cell_get<'a>(&self, row: &'a Row, name: &String) -> (cell: Option<&'a Option<String>>)
        ensures
            match cell {
                Some(c) => named_cell(self.columns@, row.deep_view(), name@) == Some(c.deep_view()),
                None => named_cell(self.columns@, row.deep_view(), name@) is None,
            },
    {
        match self.column_find(name) {
            Some(i) => row_get(row, self.columns[i].index()),
            None => None,
        }
    }

    /// Whether some column's value can be stored out of line.
    pub open spec fn has_toastable(&self) -> bool {
        exists|i: int| 0 <= i < self.columns@.len() && (#[trigger] self.columns@[i]).toastable
    }

    /// Whether some column's value can be stored out of line.
    pub fn has_toastable_column(&self) -> (found: bool)
        ensures
            found == self.has_toastable(),
    {
        let mut i: usize = 0;
        while i < self.columns.len()
            invariant
                i <= self.columns.len(),
                forall|j: int| 0 <= j < i ==> !(#[trigger] self.columns@[j]).toastable,
            decreases self.columns.len() - i,
        {
            if self.columns[i].toastable {
                assert(self.columns@[i as int].toastable);
                return true;
            }
            i = i + 1;
        }
        false
    }
}

/// Whether two columns describe the same cache-table column.
pub open spec fn column_same(a: ColumnMetadata, b: ColumnMetadata) -> bool {
    &&& a.name@ == b.name@
    &&& a.position == b.position
    &&& a.type_oid == b.type_oid
    &&& a.source_type_name@ == b.source_type_name@
    &&& a.cache_type_name@ == b.cache_type_name@
    &&& a.is_primary_key == b.is_primary_key
    &&& a.toastable == b.toastable
}

/// Whether two lists hold the same texts in the same order.
pub open spec fn names_same(a: Seq<String>, b: Seq<String>) -> bool {
    a.len() == b.len() && forall|i: int| 0 <= i < a.len() ==> (#[trigger] a[i])@ == b[i]@
}

/// Whether two descriptions of a relation give its cache table the same shape.
pub open spec fn schema_same(a: TableMetadata, b: TableMetadata) -> bool {
    &&& a.name@ == b.name@
    &&& a.schema@ == b.schema@
    &&& names_same(a.primary_key_columns@, b.primary_key_columns@)
    &&& a.columns@.len() == b.columns@.len()
    &&& forall|i: int|
        0 <= i < a.columns@.len() ==> column_same(#[trigger] a.columns@[i], b.columns@[i])
}

fn names_equal(a: &Vec<String>, b: &Vec<String>) -> (same: bool)
    ensures
        same == names_same(a@, b@),
{
    if a.len() != b.len() {
        return false;
    }
    let mut i: usize = 0;
    while i < a.len()
        invariant
            i <= a.len(),
            a.len() == b.len(),
            forall|j: int| 0 <= j < i ==> (#[trigger] a@[j])@ == b@[j]@,
        decreases a.len() - i,
    {
        if !(a[i] == b[i]) {
            assert(a@[i as int]@ != b@[i as int]@);
            return false;
        }
        i = i + 1;
    }
    true
}

impl TableMetadata {
    /// Whether two descriptions of a relation give its cache table the same
    /// shape.
    pub fn schema_eq(&self, other: &TableMetadata) -> (same: bool)
        ensures
            same == schema_same(*self, *other),
    {
        if !(self.name == other.name) || !(self.schema == other.schema) || !names_equal(
            &self.primary_key_columns,
            &other.primary_key_columns,
        ) || self.columns.len() != other.columns.len() {
            return false;
        }
        let mut i: usize = 0;
        while i < self.columns.len()
            invariant
                i <= self.columns.len(),
                self.columns.len() == other.columns.len(),
                forall|j: int|
                    0 <= j < i ==> column_same(#[trigger] self.columns@[j], other.columns@[j]),
            decreases self.columns.len() - i,
        {
            let a = &self.columns[i];
            let b = &other.columns[i];
            if !(a.name == b.name) || a.position != b.position || a.type_oid != b.type_oid || !(
            a.source_type_name == b.source_type_name) || !(a.cache_type_name == b.cache_type_name)
                || a.is_primary_key != b.is_primary_key || a.toastable != b.toastable {
                assert(!column_same(self.columns@[i as int], other.columns@[i as int]));
                return false;
            }
            i = i + 1;
        }
        true
    }
}

/// The primary-key cells of `row` as SQL, in key order; `None` when the row
/// lacks one of them.
pub open spec fn pk_cells_sql(
    columns: Seq<ColumnMetadata>,
    pk: Seq<String>,
    row: RowView,
) -> Option<Seq<Seq<char>>>
    decreases pk.len(),
{
    if pk.len() == 0 {
        Some(Seq::empty())
    } else {
        match (pk_cells_sql(columns, pk.drop_last(), row), named_cell(columns, row, pk.last()@)) {
            (Some(cells), Some(cell)) => Some(cells.push(cell_sql(cell))),
            _ => None,
        }
    }
}

/// The body of a row's primary-key tuple (`1, 'x'`): what identifies the row
/// within its relation. `None` without a primary key, or when the row lacks
/// one of its columns.
pub open spec fn pk_body(table: TableMetadata, row: RowView) -> Option<Seq<char>> {
    if table.primary_key_columns@.len() == 0 {
        None
    } else {
        match pk_cells_sql(table.columns@, table.primary_key_columns@, row) {
            Some(cells) => Some(joined(cells, ", "@)),
            None => None,
        }
    }
}

/// Once a prefix of the key is missing from the row, the whole key is.
proof fn lemma_pk_prefix_missing(
    columns: Seq<ColumnMetadata>,
    pk: Seq<String>,
    row: RowView,
    k: int,
)
    requires
        0 <= k <= pk.len(),
        pk_cells_sql(columns, pk.take(k), row) is None,
    ensures
        pk_cells_sql(columns, pk, row) is None,
    decreases pk.len() - k,
{
    if k < pk.len() {
        assert(pk.take(k + 1).drop_last() =~= pk.take(k));
        lemma_pk_prefix_missing(columns, pk, row, k + 1);
    } else {
        assert(pk.take(k) =~= pk);
    }
}

/// The number of key cells is the number of key columns.
pub proof fn lemma_pk_cells_len(columns: Seq<ColumnMetadata>, pk: Seq<String>, row: RowView)
    ensures
        pk_cells_sql(columns, pk, row) matches Some(cells) ==> cells.len() == pk.len(),
    decreases pk.len(),
{
    if pk.len() > 0 {
        lemma_pk_cells_len(columns, pk.drop_last(), row);
    }
}

/// Render the body of a row's primary-key tuple.
pub fn pk_body_render(table: &TableMetadata, row: &Row) -> (key: Option<String>)
    ensures
        match key {
            Some(k) => pk_body(*table, row.deep_view()) == Some(k@),
            None => pk_body(*table, row.deep_view()) is None,
        },
{
    let n: usize = table.primary_key_columns.len();
    if n == 0 {
        return None;
    }
    let ghost pk = table.primary_key_columns@;
    let ghost cols = table.columns@;
    let ghost view = row.deep_view();
    let mut buf = String::new();
    let mut i: usize = 0;
    proof {
        assert(pk.take(0) =~= Seq::<String>::empty());
    }
    while i < n
        invariant
            i <= n,
            n == pk.len(),
            pk == table.primary_key_columns@,
            cols == table.columns@,
            view == row.deep_view(),
            pk_cells_sql(cols, pk.take(i as int), view) is Some,
            pk_cells_sql(cols, pk.take(i as int), view)->0.len() == i,
            buf@ == joined(pk_cells_sql(cols, pk.take(i as int), view)->0, ", "@),
        decreases n - i,
    {
        proof {
            assert(pk.take(i + 1).drop_last() =~= pk.take(i as int));
        }
        match table.named_cell_get(row, &table.primary_key_columns[i]) {
            Some(cell) => {
                proof {
                    lemma_joined_push(
                        pk_cells_sql(cols, pk.take(i as int), view)->0,
                        cell_sql(cell.deep_view()),
                        ", "@,
                    );
                }
                separator_append(&mut buf, i == 0, ", ");
                cell_append(&mut buf, cell);
            }
            None => {
                proof {
                    lemma_pk_prefix_missing(cols, pk, view, i + 1);
                }
                return None;
            }
        }
        i = i + 1;
    }
    proof {
        assert(pk.take(n as int) =~= pk);
    }
    Some(buf)
}

} // verus!
