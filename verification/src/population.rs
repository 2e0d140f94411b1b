//! Populating: a query's rows are streamed from the origin into staging
//! tables.
use vstd::prelude::*;
use vstd::string::*;

use crate::batch::batch_sql_build;
use crate::batch::batch_view;
use crate::batch::key_ordered;
use crate::batch::tuples_of;
use crate::batch::StagedRow;
use crate::batch::StagedView;
use crate::catalog::Row;
use crate::catalog::RowView;
use crate::catalog::TableMetadata;
use crate::deadlock::error_is_deadlock;
use crate::deadlock::is_deadlock;
use crate::error::CacheError;
use crate::merge_queue::staged_view;
use crate::merge_queue::PopulationMerge;
use crate::merge_queue::ReplyMessage;
use crate::text::cell_rendered;
use crate::text::cell_sql;
use crate::text::decimal;
use crate::text::decimal_append;
use crate::text::joined;
use crate::text::list_append;
use crate::values::unsigned_parse;
use crate::values::unsigned_value;

verus! {

/// Rows of one insert into a staging table.
pub const POPULATION_INSERT_BATCH_SIZE: usize = 200;

/// How often a deadlocked population is tried again.
pub const POPULATION_DEADLOCK_MAX_RETRIES: u32 = 5;

/// How long a deadlocked population waits before its first retry, in
/// milliseconds.
pub const POPULATION_DEADLOCK_BACKOFF_BASE_MILLIS: u64 = 20;

/// Twice as long at every attempt.
pub open spec fn backoff_millis(attempt: nat) -> nat
    decreases attempt,
{
    if attempt == 0 {
        POPULATION_DEADLOCK_BACKOFF_BASE_MILLIS as nat
    } else {
        2 * backoff_millis((attempt - 1) as nat)
    }
}

/// How long a population waits before it is tried again, in milliseconds;
/// `None` when it is given up.
pub open spec fn retry_wait(error: CacheError, attempt: nat) -> Option<nat> {
    if is_deadlock(error) && attempt < POPULATION_DEADLOCK_MAX_RETRIES {
        Some(backoff_millis(attempt))
    } else {
        None
    }
}

/// How long a failed population waits before it is tried again; `None` when it
/// is not. Only a deadlock passes by itself.
pub fn retry_backoff(error: &CacheError, attempt: u32) -> (millis: Option<u64>)
    ensures
        match millis {
            Some(m) => is_deadlock(*error) && attempt < POPULATION_DEADLOCK_MAX_RETRIES && m
                == backoff_millis(attempt as nat),
            None => !is_deadlock(*error) || attempt >= POPULATION_DEADLOCK_MAX_RETRIES,
        },
        match millis {
            Some(m) => retry_wait(*error, attempt as nat) == Some(m as nat),
            None => retry_wait(*error, attempt as nat) is None,
        },
{
    if !error_is_deadlock(error) || attempt >= POPULATION_DEADLOCK_MAX_RETRIES {
        return None;
    }
    let mut millis: u64 = POPULATION_DEADLOCK_BACKOFF_BASE_MILLIS;
    let mut i: u32 = 0;
    while i < attempt
        invariant
            i <= attempt < POPULATION_DEADLOCK_MAX_RETRIES,
            millis == backoff_millis(i as nat),
            millis <= 640,
            i == 0 ==> millis == 20,
            i == 1 ==> millis == 40,
            i == 2 ==> millis == 80,
            i == 3 ==> millis == 160,
            i == 4 ==> millis == 320,
        decreases attempt - i,
    {
        millis = millis * 2;
        i = i + 1;
    }
    Some(millis)
}

/// The name of a population's staging table for a relation.
pub open spec fn staging_name(fingerprint: u64, generation: u64, oid: u32) -> Seq<char> {
    "stage_"@ + decimal(fingerprint as nat) + "_"@ + decimal(generation as nat) + "_"@ + decimal(
        oid as nat,
    )
}

/// The name of a population's staging table for a relation: the same whenever
/// it is asked for.
pub fn staging_table_name(fingerprint: u64, generation: u64, relation_oid: u32) -> (name: String)
    ensures
        name@ == staging_name(fingerprint, generation, relation_oid),
{
    let mut name = "stage_".to_owned();
    decimal_append(&mut name, fingerprint);
    name.append("_");
    decimal_append(&mut name, generation);
    name.append("_");
    decimal_append(&mut name, relation_oid as u64);
    name
}

/// The statement that makes a staging table like a relation's cache table,
/// whatever was there before.
pub open spec fn staging_create_text(table: TableMetadata, staging: Seq<char>) -> Seq<char> {
    "DROP TABLE IF EXISTS pgcache_stage."@ + staging + "; CREATE TABLE pgcache_stage."@ + staging
        + " (LIKE "@ + table.schema@ + "."@ + table.name@ + ")"@
}

/// The statement that drops a staging table.
pub open spec fn staging_drop_text(staging: Seq<char>) -> Seq<char> {
    "DROP TABLE IF EXISTS pgcache_stage."@ + staging
}

/// A query that reads no more rows than its limit.
pub open spec fn limited_select(select: Seq<char>, max_limit: Option<u64>) -> Seq<char> {
    match max_limit {
        Some(limit) => select + " LIMIT "@ + decimal(limit as nat),
        None => select,
    }
}

/// What an insert into a staging table begins with.
pub open spec fn insert_head(columns: Seq<String>, staging: Seq<char>) -> Seq<char> {
    "INSERT INTO pgcache_stage."@ + staging + "("@ + joined(quoted_names(columns), ","@)
        + ") VALUES "@
}

/// The statement that makes an empty staging table with a relation's columns.
pub fn staging_create_sql(table: &TableMetadata, staging: &String) -> (sql: String)
    ensures
        sql@ == "DROP TABLE IF EXISTS pgcache_stage."@ + staging@
            + "; CREATE TABLE pgcache_stage."@ + staging@ + " (LIKE "@ + table.schema@ + "."@
            + table.name@ + ")"@,
        sql@ == staging_create_text(*table, staging@),
{
    let mut sql = "DROP TABLE IF EXISTS pgcache_stage.".to_owned();
    sql.append(staging.as_str());
    sql.append("; CREATE TABLE pgcache_stage.");
    sql.append(staging.as_str());
    sql.append(" (LIKE ");
    sql.append(table.schema.as_str());
    sql.append(".");
    sql.append(table.name.as_str());
    sql.append(")");
    sql
}

/// The statement that drops a staging table.
pub fn staging_drop_sql(staging: &String) -> (sql: String)
    ensures
        sql@ == "DROP TABLE IF EXISTS pgcache_stage."@ + staging@,
        sql@ == staging_drop_text(staging@),
{
    let mut sql = "DROP TABLE IF EXISTS pgcache_stage.".to_owned();
    sql.append(staging.as_str());
    sql
}

/// A query as it is sent to the origin: no more rows than the limit.
pub fn population_select_sql(select: &str, max_limit: Option<u64>) -> (sql: String)
    ensures
        sql@ == (match max_limit {
            Some(limit) => select@ + " LIMIT "@ + decimal(limit as nat),
            None => select@,
        }),
        sql@ == limited_select(select@, max_limit),
{
    let mut sql = select.to_owned();
    if let Some(limit) = max_limit {
        sql.append(" LIMIT ");
        decimal_append(&mut sql, limit);
    }
    sql
}

/// The origin's LSN after the reads, as its reply gives it: the first row whose
/// first cell is a number.
pub open spec fn snapshot_lsn_of(messages: Seq<ReplyMessage>) -> Option<nat>
    decreases messages.len(),
{
    if messages.len() == 0 {
        None
    } else {
        match messages[0] {
            ReplyMessage::Row(row) => if row.deep_view().len() > 0 && row.deep_view()[0] is Some
                && unsigned_value(row.deep_view()[0]->0) is Some {
                unsigned_value(row.deep_view()[0]->0)
            } else {
                snapshot_lsn_of(messages.drop_first())
            },
            _ => snapshot_lsn_of(messages.drop_first()),
        }
    }
}

fn first_number(row: &Row) -> (n: Option<u64>)
    ensures
        match n {
            Some(v) => row.deep_view().len() > 0 && row.deep_view()[0] is Some && unsigned_value(
                row.deep_view()[0]->0,
            ) == Some(v as nat),
            None => !(row.deep_view().len() > 0 && row.deep_view()[0] is Some && unsigned_value(
                row.deep_view()[0]->0,
            ) is Some),
        },
{
    if row.len() == 0 {
        return None;
    }
    proof {
        assert(row.deep_view()[0] == row@[0].deep_view());
    }
    match &row[0] {
        Some(text) => unsigned_parse(text.as_str()),
        None => None,
    }
}

/// Read the origin's LSN from its reply. A reply without one gives
/// [`CacheError::InvalidMessage`].
pub fn snapshot_lsn_parse(messages: &Vec<ReplyMessage>) -> (lsn: Result<u64, CacheError>)
    ensures
        match lsn {
            Ok(v) => snapshot_lsn_of(messages@) == Some(v as nat),
            Err(e) => e == CacheError::InvalidMessage && snapshot_lsn_of(messages@) is None,
        },
{
    let mut i: usize = 0;
    proof {
        assert(messages@.skip(0) =~= messages@);
    }
    while i < messages.len()
        invariant
            i <= messages.len(),
            snapshot_lsn_of(messages@) == snapshot_lsn_of(messages@.skip(i as int)),
        decreases messages.len() - i,
    {
        proof {
            assert(messages@.skip(i as int).drop_first() =~= messages@.skip(i as int + 1));
        }
        if let ReplyMessage::Row(row) = &messages[i] {
            if let Some(lsn) = first_number(row) {
                return Ok(lsn);
            }
        }
        i = i + 1;
    }
    Err(CacheError::InvalidMessage)
}

/// What the inserts into one staging table have in common.
pub struct InsertStatement {
    pub prefix: String,
    pub suffix: String,
    /// Where the key columns are among the streamed ones.
    pub pkey_positions: Vec<usize>,
    pub num_columns: usize,
}

/// Each name between double quotes.
pub open spec fn quoted_names(names: Seq<String>) -> Seq<Seq<char>> {
    Seq::new(names.len(), |i: int| "\""@ + names[i]@ + "\""@)
}

/// Where a name is among others, if it is.
pub open spec fn name_position(names: Seq<String>, name: Seq<char>) -> Option<usize>
    decreases names.len(),
{
    if names.len() == 0 {
        None
    } else {
        match name_position(names.drop_last(), name) {
            Some(i) => Some(i),
            None => if names.last()@ == name {
                Some((names.len() - 1) as usize)
            } else {
                None
            },
        }
    }
}

/// Where the key columns are among the streamed ones, in key order. One that
/// is not streamed is left out.
pub open spec fn key_positions(names: Seq<String>, pk: Seq<String>) -> Seq<usize>
    decreases pk.len(),
{
    if pk.len() == 0 {
        Seq::empty()
    } else {
        let rest = key_positions(names, pk.drop_last());
        match name_position(names, pk.last()@) {
            Some(i) => rest.push(i),
            None => rest,
        }
    }
}

fn name_position_find(names: &Vec<String>, name: &String) -> (at: Option<usize>)
    ensures
        at == name_position(names@, name@),
        at matches Some(i) ==> i < names@.len(),
{
    let mut i: usize = 0;
    while i < names.len()
        invariant
            i <= names.len(),
            name_position(names@.take(i as int), name@) is None,
        decreases names.len() - i,
    {
        proof {
            assert(names@.take(i as int + 1).drop_last() =~= names@.take(i as int));
            assert(names@.take(i as int + 1).last() == names@[i as int]);
        }
        if names[i] == *name {
            proof {
                lemma_position_stays(names@, name@, i as int + 1);
            }
            return Some(i);
        }
        i = i + 1;
    }
    proof {
        assert(names@.take(i as int) =~= names@);
    }
    None
}

proof fn lemma_position_stays(names: Seq<String>, name: Seq<char>, k: int)
    requires
        0 <= k <= names.len(),
        name_position(names.take(k), name) is Some,
    ensures
        name_position(names, name) == name_position(names.take(k), name),
    decreases names.len() - k,
{
    if k < names.len() {
        assert(names.take(k + 1).drop_last() =~= names.take(k));
        lemma_position_stays(names, name, k + 1);
    } else {
        assert(names.take(k) =~= names);
    }
}

/// What every insert statement meets.
pub open spec fn insert_wf(insert: InsertStatement) -> bool {
    forall|i: int|
        0 <= i < insert.pkey_positions@.len() ==> (#[trigger] insert.pkey_positions@[i])
            < insert.num_columns
}

/// What the inserts into a relation's staging table have in common, from the
/// names of the streamed columns.
pub fn insert_statement_build(table: &TableMetadata, columns: &Vec<String>, staging: &str) -> (
insert: InsertStatement)
    ensures
        insert.prefix@ == "INSERT INTO pgcache_stage."@ + staging@ + "("@ + joined(
            quoted_names(columns@),
            ","@,
        ) + ") VALUES "@,
        insert.prefix@ == insert_head(columns@, staging@),
        insert.suffix@ == Seq::<char>::empty(),
        insert.pkey_positions@ == key_positions(columns@, table.primary_key_columns@),
        insert.num_columns == columns@.len(),
        insert_wf(insert),
{
    let mut quoted: Vec<String> = Vec::new();
    let mut i: usize = 0;
    proof {
        assert(quoted.deep_view() =~= quoted_names(columns@).take(0));
    }
    while i < columns.len()
        invariant
            i <= columns.len(),
            quoted.deep_view() == quoted_names(columns@).take(i as int),
        decreases columns.len() - i,
    {
        let ghost before = quoted.deep_view();
        let mut item = "\"".to_owned();
        item.append(columns[i].as_str());
        item.append("\"");
        quoted.push(item);
        proof {
            assert(quoted.deep_view() =~= before.push(quoted_names(columns@)[i as int]));
            assert(quoted.deep_view() =~= quoted_names(columns@).take(i as int + 1));
        }
        i = i + 1;
    }
    proof {
        assert(quoted.deep_view() =~= quoted_names(columns@));
    }
    let mut prefix = "INSERT INTO pgcache_stage.".to_owned();
    prefix.append(staging);
    prefix.append("(");
    list_append(&mut prefix, &quoted, ",");
    prefix.append(") VALUES ");
    let pk = &table.primary_key_columns;
    let mut pkey_positions: Vec<usize> = Vec::new();
    let mut j: usize = 0;
    while j < pk.len()
        invariant
            j <= pk.len(),
            pk == table.primary_key_columns,
            pkey_positions@ =~= key_positions(columns@, pk@.take(j as int)),
            forall|i: int|
                0 <= i < pkey_positions@.len() ==> (#[trigger] pkey_positions@[i])
                    < columns@.len(),
        decreases pk.len() - j,
    {
        proof {
            assert(pk@.take(j as int + 1).drop_last() =~= pk@.take(j as int));
        }
        if let Some(at) = name_position_find(columns, &pk[j]) {
            pkey_positions.push(at);
        }
        j = j + 1;
    }
    proof {
        assert(pk@.take(j as int) =~= pk@);
    }
    InsertStatement { prefix, suffix: String::new(), pkey_positions, num_columns: columns.len() }
}

/// Whether a streamed row is none of the relation's: an outer join pads the
/// missing side with NULLs, its key too.
pub open spec fn is_phantom(row: RowView, positions: Seq<usize>) -> bool {
    exists|i: int| 0 <= i < positions.len() && row[(#[trigger] positions[i]) as int] is None
}

/// The cells of a row as SQL.
pub open spec fn row_cells(row: RowView) -> Seq<Seq<char>> {
    Seq::new(row.len(), |i: int| cell_sql(row[i]))
}

/// The cells of a row's key as SQL.
pub open spec fn key_cells(row: RowView, positions: Seq<usize>) -> Seq<Seq<char>> {
    Seq::new(positions.len(), |i: int| cell_sql(row[positions[i] as int]))
}

/// A row as a tuple.
pub open spec fn row_tuple(row: RowView) -> Seq<char> {
    "("@ + joined(row_cells(row), ","@) + ")"@
}

/// The size of a row's texts, in bytes.
pub open spec fn row_bytes(row: RowView) -> nat
    decreases row.len(),
{
    if row.len() == 0 {
        0
    } else {
        row_bytes(row.drop_last()) + match row.last() {
            Some(text) => vstd::utf8::encode_utf8(text).len(),
            None => 0,
        }
    }
}

fn phantom_check(row: &Row, positions: &Vec<usize>) -> (phantom: bool)
    requires
        forall|i: int|
            0 <= i < positions@.len() ==> (#[trigger] positions@[i]) < row@.len(),
    ensures
        phantom == is_phantom(row.deep_view(), positions@),
{
    let ghost view = row.deep_view();
    let mut i: usize = 0;
    while i < positions.len()
        invariant
            i <= positions.len(),
            view == row.deep_view(),
            forall|i: int|
                0 <= i < positions@.len() ==> (#[trigger] positions@[i]) < row@.len(),
            forall|j: int| 0 <= j < i ==> !(view[(#[trigger] positions@[j]) as int] is None),
        decreases positions.len() - i,
    {
        let at = positions[i];
        proof {
            assert(view[at as int] == row@[at as int].deep_view());
        }
        if row[at].is_none() {
            assert(view[positions@[i as int] as int] is None);
            return true;
        }
        i = i + 1;
    }
    false
}

fn cells_render(row: &Row) -> (cells: Vec<String>)
    ensures
        cells.deep_view() == row_cells(row.deep_view()),
{
    let ghost all = row_cells(row.deep_view());
    let mut cells: Vec<String> = Vec::new();
    let mut i: usize = 0;
    proof {
        assert(cells.deep_view() =~= all.take(0));
    }
    while i < row.len()
        invariant
            i <= row.len(),
            all == row_cells(row.deep_view()),
            cells.deep_view() == all.take(i as int),
        decreases row.len() - i,
    {
        let ghost before = cells.deep_view();
        cells.push(cell_rendered(&row[i]));
        proof {
            assert(row.deep_view()[i as int] == row@[i as int].deep_view());
            assert(cells.deep_view() =~= before.push(all[i as int]));
            assert(cells.deep_view() =~= all.take(i as int + 1));
        }
        i = i + 1;
    }
    proof {
        assert(all.take(i as int) =~= all);
    }
    cells
}

/// A size, as far as it can be counted.
pub open spec fn capped(n: nat) -> u64 {
    if n > u64::MAX {
        u64::MAX
    } else {
        n as u64
    }
}

fn capped_add(a: u64, b: u64) -> (sum: u64)
    ensures
        sum == capped((a + b) as nat),
{
    if b > u64::MAX - a {
        u64::MAX
    } else {
        a + b
    }
}

fn bytes_count(row: &Row) -> (bytes: u64)
    ensures
        bytes == capped(row_bytes(row.deep_view())),
{
    let ghost view = row.deep_view();
    let mut bytes: u64 = 0;
    let mut i: usize = 0;
    while i < row.len()
        invariant
            i <= row.len(),
            view == row.deep_view(),
            bytes == capped(row_bytes(view.take(i as int))),
        decreases row.len() - i,
    {
        proof {
            assert(view.take(i as int + 1).drop_last() =~= view.take(i as int));
            assert(view.take(i as int + 1).last() == row@[i as int].deep_view());
        }
        if let Some(text) = &row[i] {
            bytes = capped_add(bytes, text.as_str().as_bytes().len() as u64);
        }
        i = i + 1;
    }
    proof {
        assert(view.take(i as int) =~= view);
    }
    bytes
}

/// A streamed row as it is staged, and the size of its texts; `None` for a row
/// that is none of the relation's.
pub fn row_to_tuple(row: &Row, insert: &InsertStatement) -> (staged: Option<(StagedRow, u64)>)
    requires
        insert_wf(*insert),
        row@.len() == insert.num_columns,
    ensures
        match staged {
            None => is_phantom(row.deep_view(), insert.pkey_positions@),
            Some((tuple, bytes)) => {
                &&& !is_phantom(row.deep_view(), insert.pkey_positions@)
                &&& tuple.0.deep_view() == key_cells(row.deep_view(), insert.pkey_positions@)
                &&& tuple.1@ == row_tuple(row.deep_view())
                &&& bytes == capped(row_bytes(row.deep_view()))
            },
        },
{
    if phantom_check(row, &insert.pkey_positions) {
        return None;
    }
    let cells = cells_render(row);
    let positions = &insert.pkey_positions;
    let ghost keys = key_cells(row.deep_view(), positions@);
    let mut key: Vec<String> = Vec::new();
    let mut i: usize = 0;
    proof {
        assert(key.deep_view() =~= keys.take(0));
    }
    while i < positions.len()
        invariant
            i <= positions.len(),
            positions == insert.pkey_positions,
            insert_wf(*insert),
            cells.deep_view() == row_cells(row.deep_view()),
            row@.len() == insert.num_columns,
            keys == key_cells(row.deep_view(), positions@),
            key.deep_view() == keys.take(i as int),
        decreases positions.len() - i,
    {
        let ghost before = key.deep_view();
        let at = positions[i];
        proof {
            assert(cells.deep_view().len() == row@.len());
            assert(cells.deep_view()[at as int] == cells@[at as int]@);
        }
        key.push(cells[at].clone());
        proof {
            assert(key.deep_view() =~= before.push(keys[i as int]));
            assert(key.deep_view() =~= keys.take(i as int + 1));
        }
        i = i + 1;
    }
    proof {
        assert(keys.take(i as int) =~= keys);
    }
    let mut tuple = "(".to_owned();
    list_append(&mut tuple, &cells, ",");
    tuple.append(")");
    Some(((key, tuple), bytes_count(row)))
}

/// A relation's rows on their way from the origin into its staging table.
pub struct PopulationStream {
    pub insert: InsertStatement,
    /// Rows that wait to be inserted.
    pub rows: Vec<StagedRow>,
    pub cached_bytes: u64,
    pub row_count: u64,
}

/// Whether a statement inserts exactly the given rows, in the order of their
/// keys.
pub open spec fn inserts(sql: Seq<char>, insert: InsertStatement, rows: Seq<StagedView>) -> bool {
    exists|ordered: Seq<StagedView>|
        #![trigger key_ordered(ordered)]
        key_ordered(ordered) && ordered.to_multiset() == rows.to_multiset() && sql
            == insert.prefix@ + joined(tuples_of(ordered), ","@) + insert.suffix@
}

/// The staged row of a streamed one.
pub open spec fn staged_of(row: RowView, insert: InsertStatement) -> StagedView {
    (key_cells(row, insert.pkey_positions@), row_tuple(row))
}

impl PopulationStream {
    /// A stream before its first row.
    pub fn new(insert: InsertStatement) -> (s: PopulationStream)
        ensures
            s.insert == insert,
            s.rows@.len() == 0,
            s.cached_bytes == 0,
            s.row_count == 0,
    {
        PopulationStream { insert, rows: Vec::new(), cached_bytes: 0, row_count: 0 }
    }

    fn flush(&mut self) -> (sql: String)
        ensures
            inserts(sql@, old(self).insert, batch_view(old(self).rows@)),
            final(self).rows@.len() == 0,
            *final(self) == (PopulationStream { rows: final(self).rows, ..*old(self) }),
    {
        let sql = batch_sql_build(
            self.insert.prefix.as_str(),
            self.insert.suffix.as_str(),
            &mut self.rows,
        );
        proof {
            assert(key_ordered(batch_view(self.rows@)));
        }
        self.rows = Vec::new();
        sql
    }

    /// A row was streamed. What comes back is to be run: the rows that wait
    /// have become a batch. A row that is none of the relation's is skipped.
    pub fn row(&mut self, row: &Row) -> (sql: Option<String>)
        requires
            insert_wf(old(self).insert),
            row@.len() == old(self).insert.num_columns,
        ensures
            final(self).insert == old(self).insert,
            ({
                let r = row.deep_view();
                let before = batch_view(old(self).rows@);
                if is_phantom(r, old(self).insert.pkey_positions@) {
                    sql is None && *final(self) == *old(self)
                } else {
                    let waiting = before.push(staged_of(r, old(self).insert));
                    &&& final(self).cached_bytes == capped(
                        (old(self).cached_bytes + capped(row_bytes(r))) as nat,
                    )
                    &&& final(self).row_count == capped((old(self).row_count + 1) as nat)
                    &&& match sql {
                        Some(text) => {
                            &&& waiting.len() >= POPULATION_INSERT_BATCH_SIZE
                            &&& inserts(text@, old(self).insert, waiting)
                            &&& final(self).rows@.len() == 0
                        },
                        None => {
                            &&& waiting.len() < POPULATION_INSERT_BATCH_SIZE
                            &&& batch_view(final(self).rows@) == waiting
                        },
                    }
                }
            }),
    {
        match row_to_tuple(row, &self.insert) {
            None => None,
            Some((tuple, bytes)) => {
                self.cached_bytes = capped_add(self.cached_bytes, bytes);
                self.row_count = capped_add(self.row_count, 1);
                let ghost before = batch_view(self.rows@);
                self.rows.push(tuple);
                proof {
                    assert(batch_view(self.rows@) =~= before.push(
                        staged_of(row.deep_view(), self.insert),
                    ));
                }
                if self.rows.len() >= POPULATION_INSERT_BATCH_SIZE {
                    Some(self.flush())
                } else {
                    None
                }
            },
        }
    }

    /// The stream is over. What comes back is to be run: the rows that wait.
    pub fn finish(&mut self) -> (sql: Option<String>)
        ensures
            *final(self) == (PopulationStream { rows: final(self).rows, ..*old(self) }),
            final(self).rows@.len() == 0,
            match sql {
                Some(text) => old(self).rows@.len() > 0 && inserts(
                    text@,
                    old(self).insert,
                    batch_view(old(self).rows@),
                ),
                None => old(self).rows@.len() == 0,
            },
    {
        if self.rows.len() > 0 {
            Some(self.flush())
        } else {
            None
        }
    }
}

/// A population of a query at a generation: one attempt.
pub struct PopulationTask {
    pub fingerprint: u64,
    pub generation: u64,
    /// The staging tables made so far.
    pub staged: Vec<(u32, String)>,
    pub cached_bytes: u64,
    pub row_count: u64,
}

/// Where the definition of a relation is.
pub open spec fn table_position(tables: Seq<TableMetadata>, oid: u32) -> Option<int>
    decreases tables.len(),
{
    if tables.len() == 0 {
        None
    } else if tables[0].relation_oid == oid {
        Some(0)
    } else {
        match table_position(tables.drop_first(), oid) {
            Some(i) => Some(i + 1),
            None => None,
        }
    }
}

/// Whether a relation has its staging table.
pub open spec fn is_staged(staged: Seq<(u32, Seq<char>)>, oid: u32) -> bool {
    exists|i: int| 0 <= i < staged.len() && (#[trigger] staged[i]).0 == oid
}

/// How a relation's rows are to be staged.
pub struct TableStart {
    /// Where the definition of the relation is.
    pub at: usize,
    pub staging: String,
    /// Whether the staging table has to be made first.
    pub fresh: bool,
}

fn table_find(tables: &Vec<TableMetadata>, oid: u32) -> (at: Option<usize>)
    ensures
        match at {
            Some(i) => table_position(tables@, oid) == Some(i as int) && i < tables@.len(),
            None => table_position(tables@, oid) is None,
        },
{
    let mut i: usize = 0;
    proof {
        assert(tables@.skip(0) =~= tables@);
    }
    while i < tables.len()
        invariant
            i <= tables.len(),
            table_position(tables@, oid) == (match table_position(tables@.skip(i as int), oid) {
                Some(k) => Some(i + k),
                None => None,
            }),
        decreases tables.len() - i,
    {
        proof {
            assert(tables@.skip(i as int).drop_first() =~= tables@.skip(i as int + 1));
        }
        if tables[i].relation_oid == oid {
            return Some(i);
        }
        i = i + 1;
    }
    None
}

impl PopulationTask {
    /// An attempt that has staged nothing.
    pub fn new(fingerprint: u64, generation: u64) -> (t: PopulationTask)
        ensures
            t.fingerprint == fingerprint,
            t.generation == generation,
            t.staged@.len() == 0,
            t.cached_bytes == 0,
            t.row_count == 0,
    {
        PopulationTask {
            fingerprint,
            generation,
            staged: Vec::new(),
            cached_bytes: 0,
            row_count: 0,
        }
    }

    /// Begin to stage a relation's rows for a branch of the query. The first
    /// branch over a relation makes its staging table, later ones add to it. A
    /// relation without a definition gives [`CacheError::UnknownTable`].
    pub fn table_begin(&self, tables: &Vec<TableMetadata>, oid: u32) -> (start: Result<
        TableStart,
        CacheError,
    >)
        ensures
            match start {
                Ok(s) => {
                    &&& table_position(tables@, oid) == Some(s.at as int)
                    &&& s.at < tables@.len()
                    &&& s.staging@ == staging_name(self.fingerprint, self.generation, oid)
                    &&& s.fresh == !is_staged(staged_view(self.staged@), oid)
                },
                Err(e) => table_position(tables@, oid) is None && e == (CacheError::UnknownTable {
                    oid,
                }),
            },
    {
        let at = match table_find(tables, oid) {
            Some(at) => at,
            None => {
                return Err(CacheError::UnknownTable { oid });
            },
        };
        let ghost view = staged_view(self.staged@);
        let mut fresh = true;
        let mut i: usize = 0;
        while i < self.staged.len()
            invariant
                i <= self.staged.len(),
                view == staged_view(self.staged@),
                fresh == !is_staged(view.take(i as int), oid),
            decreases self.staged.len() - i,
        {
            proof {
                let now = view.take(i as int);
                let next = view.take(i as int + 1);
                assert(next[i as int] == view[i as int]);
                if is_staged(now, oid) {
                    let k = choose|k: int| 0 <= k < now.len() && (#[trigger] now[k]).0 == oid;
                    assert(next[k].0 == oid);
                }
                if is_staged(next, oid) && view[i as int].0 != oid {
                    let k = choose|k: int| 0 <= k < next.len() && (#[trigger] next[k]).0 == oid;
                    assert(now[k].0 == oid);
                }
            }
            if self.staged[i].0 == oid {
                fresh = false;
            }
            i = i + 1;
        }
        proof {
            assert(view.take(i as int) =~= view);
        }
        Ok(
            TableStart {
                at,
                staging: staging_table_name(self.fingerprint, self.generation, oid),
                fresh,
            },
        )
    }

    /// A relation's rows are staged for a branch of the query.
    pub fn table_done(&mut self, oid: u32, start: TableStart, stream: &PopulationStream)
        ensures
            final(self).fingerprint == old(self).fingerprint,
            final(self).generation == old(self).generation,
            staged_view(final(self).staged@) == (if start.fresh {
                staged_view(old(self).staged@).push((oid, start.staging@))
            } else {
                staged_view(old(self).staged@)
            }),
            final(self).cached_bytes == capped(
                (old(self).cached_bytes + stream.cached_bytes) as nat,
            ),
            final(self).row_count == capped((old(self).row_count + stream.row_count) as nat),
    {
        self.cached_bytes = capped_add(self.cached_bytes, stream.cached_bytes);
        self.row_count = capped_add(self.row_count, stream.row_count);
        if start.fresh {
            let ghost before = staged_view(self.staged@);
            let ghost item = (oid, start.staging@);
            self.staged.push((oid, start.staging));
            proof {
                assert(staged_view(self.staged@) =~= before.push(item));
            }
        }
    }

    /// Every branch is staged: what the writer is to merge.
    pub fn finish(self, snapshot_lsn: u64) -> (merge: PopulationMerge)
        ensures
            merge.fingerprint == self.fingerprint,
            merge.generation == self.generation,
            merge.staged == self.staged,
            merge.cached_bytes == self.cached_bytes,
            merge.row_count == self.row_count,
            merge.snapshot_lsn == snapshot_lsn,
    {
        PopulationMerge {
            fingerprint: self.fingerprint,
            generation: self.generation,
            staged: self.staged,
            cached_bytes: self.cached_bytes,
            row_count: self.row_count,
            snapshot_lsn,
        }
    }
}

} // verus!
