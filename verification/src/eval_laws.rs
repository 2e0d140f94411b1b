//! What the questions put to the cache database ask, and how their answers are
//! read.
use vstd::prelude::*;

use crate::catalog::name_in;
use crate::catalog::ColumnMetadata;
use crate::catalog::RowView;
use crate::catalog::TableMetadata;
use crate::eval_sql::change_items;
use crate::eval_sql::changes_folded;
use crate::eval_sql::column_folded;
use crate::eval_sql::distinct_items;
use crate::eval_sql::inline_arms;
use crate::eval_sql::membership_inline;
use crate::eval_sql::membership_predicate;
use crate::eval_sql::membership_select;
use crate::eval_sql::membership_tests;
use crate::eval_sql::name_items;
use crate::eval_sql::pg_bool;
use crate::eval_sql::plain_pk_conditions;
use crate::eval_sql::query_position;
use crate::eval_sql::rendered;
use crate::eval_sql::row_change_inline;
use crate::eval_sql::row_change_join_on;
use crate::eval_sql::row_change_prepared;
use crate::eval_sql::row_change_select;
use crate::eval_sql::row_changes_query;
use crate::eval_sql::starts_with;
use crate::eval_sql::typed_cells;
use crate::eval_sql::unnest_items;
use crate::eval_sql::values_rows;
use crate::eval_sql::BATCH_IDX_COLUMN;
use crate::eval_sql::ChangeView;
use crate::eval_sql::OLD_IS_NULL_ALIAS_PREFIX;
use crate::eval_sql::OLD_LESS_THAN_ALIAS_PREFIX;
use crate::query::TemplatePiece;
use crate::query::UpdateQuery;
use crate::statement_laws::key_conditions;
use crate::statement_laws::row_named_cells;
use crate::statement_laws::NamedCell;
use crate::text::cell_sql;
use crate::text::decimal;
use crate::text::joined;
use crate::toast::cell_or_null;

verus! {

/// A template is rendered piece by piece: texts stand as they are, and a place
/// for a cell takes the row's cell, or NULL where the row has none.
pub proof fn template_is_rendered_piece_by_piece(
    a: Seq<TemplatePiece>,
    b: Seq<TemplatePiece>,
    row: RowView,
    piece: TemplatePiece,
)
    ensures
        rendered(a + b, row) == rendered(a, row) + rendered(b, row),
        rendered(seq![piece], row) == (match piece {
            TemplatePiece::Text(text) => text@,
            TemplatePiece::Cell(i) => cell_sql(
                if i < row.len() {
                    row[i as int]
                } else {
                    None
                },
            ),
        }),
        rendered(Seq::empty(), row) == Seq::<char>::empty(),
    decreases b.len(),
{
    if b.len() == 0 {
        assert(a + b =~= a);
        assert(rendered(a, row) + Seq::<char>::empty() =~= rendered(a, row));
    } else {
        template_is_rendered_piece_by_piece(a, b.drop_last(), row, piece);
        assert((a + b).drop_last() =~= a + b.drop_last());
        assert(rendered(a + b, row) =~= rendered(a, row) + rendered(b, row));
    }
    assert(seq![piece].drop_last() =~= Seq::<TemplatePiece>::empty());
    reveal_with_fuel(rendered, 2);
    assert(rendered(seq![piece], row) =~= (match piece {
        TemplatePiece::Text(text) => text@,
        TemplatePiece::Cell(i) => cell_sql(cell_or_null(row, i as int)),
    }));
}

/// Whether a query's test asks if the row can stand in for one of the
/// occurrences of its relation: one test for each, any of which is enough.
pub open spec fn asks_each_occurrence(text: Seq<char>, q: UpdateQuery, row: RowView) -> bool {
    text == joined(
        q.occurrences@.map_values(
            |pieces: Vec<TemplatePiece>| "EXISTS ("@ + rendered(pieces@, row) + ")"@,
        ),
        " OR "@,
    )
}

/// The test of a query asks about every occurrence of the relation in it.
pub proof fn test_asks_each_occurrence(q: UpdateQuery, row: RowView)
    ensures
        asks_each_occurrence(membership_predicate(q, row), q, row),
{
    assert(crate::eval_sql::occurrence_tests(q.occurrences@, row) =~= q.occurrences@.map_values(
        |pieces: Vec<TemplatePiece>| "EXISTS ("@ + rendered(pieces@, row) + ")"@,
    ));
}

/// A query is found by its fingerprint, and the first one with it.
pub proof fn query_is_found_by_its_fingerprint(queries: Seq<UpdateQuery>, fp: u64)
    ensures
        match query_position(queries, fp) {
            Some(i) => 0 <= i < queries.len() && queries[i].fingerprint == fp && forall|j: int|
                0 <= j < i ==> (#[trigger] queries[j]).fingerprint != fp,
            None => forall|j: int|
                0 <= j < queries.len() ==> (#[trigger] queries[j]).fingerprint != fp,
        },
    decreases queries.len(),
{
    if queries.len() > 0 {
        let short = queries.drop_last();
        query_is_found_by_its_fingerprint(short, fp);
        assert forall|j: int| 0 <= j < short.len() implies short[j] == #[trigger] queries[j] by {}
    }
}

/// Whether a query can be asked: it is known, and its SELECT has a place for the
/// row.
pub open spec fn is_askable(queries: Seq<UpdateQuery>, fp: u64) -> bool {
    query_position(queries, fp) is Some && queries[query_position(
        queries,
        fp,
    )->0].occurrences@.len() > 0
}

/// Whether a list of texts holds the test of each query, in the same order.
pub open spec fn tests_each(
    tests: Seq<Seq<char>>,
    queries: Seq<UpdateQuery>,
    fps: Seq<u64>,
    row: RowView,
) -> bool {
    &&& tests.len() == fps.len()
    &&& forall|i: int|
        #![trigger tests[i]]
        0 <= i < fps.len() ==> is_askable(queries, fps[i]) && tests[i] == "("@
            + membership_predicate(queries[query_position(queries, fps[i])->0], row) + ")"@
}

proof fn lemma_membership_tests(queries: Seq<UpdateQuery>, fps: Seq<u64>, row: RowView)
    ensures
        membership_tests(queries, fps, row) matches Some(tests) ==> tests_each(
            tests,
            queries,
            fps,
            row,
        ),
        (forall|i: int|
            0 <= i < fps.len() ==> is_askable(queries, #[trigger] fps[i])) ==> membership_tests(queries, fps, row)
            is Some,
    decreases fps.len(),
{
    if fps.len() > 0 {
        let short = fps.drop_last();
        let n = fps.len() - 1;
        lemma_membership_tests(queries, short, row);
        if membership_tests(queries, fps, row) is Some {
            let tests = membership_tests(queries, fps, row)->0;
            let before = membership_tests(queries, short, row)->0;
            assert(before.len() == short.len());
            assert(tests.len() == fps.len());
            assert forall|i: int|
                #![trigger tests[i]]
                0 <= i < fps.len() implies is_askable(queries, fps[i]) && tests[i] == "("@
                + membership_predicate(queries[query_position(queries, fps[i])->0], row)
                + ")"@ by {
                if i < n {
                    assert(tests[i] == before[i]);
                    assert(short[i] == fps[i]);
                }
            }
        }
        if forall|i: int|
            0 <= i < fps.len() ==> is_askable(queries, #[trigger] fps[i]) {
            assert forall|i: int| 0 <= i < short.len() implies is_askable(
                queries,
                #[trigger] short[i],
            ) by {
                assert(short[i] == fps[i]);
            }
            assert(is_askable(queries, fps[n]));
        }
    }
}

/// One statement asks every listed query about the row: each for itself, in the
/// same order, or, where one match is enough, whether any of them holds it.
pub proof fn membership_question_asks_every_query(
    queries: Seq<UpdateQuery>,
    fps: Seq<u64>,
    row: RowView,
    any: bool,
)
    ensures
        membership_select(queries, fps, row, any) matches Some(text) ==> exists|
            tests: Seq<Seq<char>>,
        | #[trigger]
            tests_each(tests, queries, fps, row) && text == "SELECT "@ + joined(
                tests,
                if any {
                    " OR "@
                } else {
                    ", "@
                },
            ),
        (forall|i: int|
            0 <= i < fps.len() ==> is_askable(queries, #[trigger] fps[i])) ==> membership_select(
            queries,
            fps,
            row,
            any,
        ) is Some,
{
    lemma_membership_tests(queries, fps, row);
    if membership_select(queries, fps, row, any) is Some {
        let tests = membership_tests(queries, fps, row)->0;
        assert(tests_each(tests, queries, fps, row));
    }
}

/// A row written out: its place in the chunk, then the cell of each column with
/// the column's type.
pub open spec fn written_row(columns: Seq<ColumnMetadata>, row: RowView, ordinal: nat) -> Seq<
    char,
> {
    "("@ + joined(
        seq![decimal(ordinal)] + columns.map_values(
            |c: ColumnMetadata|
                cell_sql(cell_or_null(row, c.index_spec())) + "::"@ + c.cache_type_name@,
        ),
        ", "@,
    ) + ")"@
}

proof fn lemma_typed_cells(columns: Seq<ColumnMetadata>, row: RowView, head: Seq<char>)
    ensures
        head + typed_cells(columns, row) == joined(
            seq![head] + columns.map_values(
                |c: ColumnMetadata|
                    cell_sql(cell_or_null(row, c.index_spec())) + "::"@ + c.cache_type_name@,
            ),
            ", "@,
        ),
    decreases columns.len(),
{
    let f = |c: ColumnMetadata|
        cell_sql(cell_or_null(row, c.index_spec())) + "::"@ + c.cache_type_name@;
    let all = seq![head] + columns.map_values(f);
    if columns.len() == 0 {
        assert(all =~= seq![head]);
        assert(head + typed_cells(columns, row) =~= head);
    } else {
        let short = columns.drop_last();
        lemma_typed_cells(short, row, head);
        assert(all.drop_last() =~= seq![head] + short.map_values(f));
        assert(all.last() == f(columns.last()));
        assert(head + typed_cells(columns, row) =~= (head + typed_cells(short, row)) + ", "@ + f(
            columns.last(),
        ));
    }
}

/// Rows are written out one by one, each with its place in the chunk.
pub proof fn rows_are_written_out_in_order(columns: Seq<ColumnMetadata>, rows: Seq<RowView>)
    ensures
        values_rows(columns, rows).len() == rows.len(),
        forall|i: int|
            0 <= i < rows.len() ==> #[trigger] values_rows(columns, rows)[i] == written_row(
                columns,
                rows[i],
                i as nat,
            ),
{
    assert forall|i: int| 0 <= i < rows.len() implies #[trigger] values_rows(columns, rows)[i]
        == written_row(columns, rows[i], i as nat) by {
        lemma_typed_cells(columns, rows[i], decimal(i as nat));
        assert("("@ + decimal(i as nat) + typed_cells(columns, rows[i]) =~= "("@ + (decimal(
            i as nat,
        ) + typed_cells(columns, rows[i])));
    }
}

/// The arm of a query: its place and the rows in it.
pub open spec fn arm_of(
    queries: Seq<UpdateQuery>,
    fp: u64,
    ordinal: nat,
    values: Seq<char>,
) -> Seq<char> {
    let q = queries[query_position(queries, fp)->0];
    q.batch_head@ + decimal(ordinal) + q.batch_middle@ + values + q.batch_tail@
}

/// Whether a text is the arm of a known query.
pub open spec fn is_arm_of(
    text: Seq<char>,
    queries: Seq<UpdateQuery>,
    fp: u64,
    ordinal: int,
    values: Seq<char>,
) -> bool {
    query_position(queries, fp) is Some && text == arm_of(queries, fp, ordinal as nat, values)
}

/// Whether a list of texts holds an arm for each query, in the same order, with
/// its place and the rows in it.
pub open spec fn arms_for_each(
    arms: Seq<Seq<char>>,
    queries: Seq<UpdateQuery>,
    fps: Seq<u64>,
    values: Seq<char>,
) -> bool {
    &&& arms.len() == fps.len()
    &&& forall|i: int|
        0 <= i < fps.len() ==> is_arm_of(#[trigger] arms[i], queries, fps[i], i, values)
}

proof fn lemma_inline_arm_at(queries: Seq<UpdateQuery>, fps: Seq<u64>, values: Seq<char>, i: int)
    requires
        inline_arms(queries, fps, values) is Some,
        0 <= i < fps.len(),
    ensures
        inline_arms(queries, fps, values)->0.len() == fps.len(),
        query_position(queries, fps[i]) is Some,
        inline_arms(queries, fps, values)->0[i] == arm_of(queries, fps[i], i as nat, values),
    decreases fps.len(),
{
    let short = fps.drop_last();
    let n = fps.len() - 1;
    let at = query_position(queries, fps[n])->0;
    let arms = inline_arms(queries, fps, values)->0;
    reveal_with_fuel(inline_arms, 2);
    assert(query_position(queries, fps[n]) is Some);
    assert(inline_arms(queries, short, values) is Some);
    assert(arms == inline_arms(queries, short, values)->0.push(
        crate::eval_sql::inline_arm(queries[at], n as nat, values),
    ));
    assert(crate::eval_sql::inline_arm(queries[at], n as nat, values) == arm_of(
        queries,
        fps[n],
        n as nat,
        values,
    ));
    if short.len() > 0 {
        lemma_inline_arm_at(
            queries,
            short,
            values,
            if i < short.len() {
                i
            } else {
                0
            },
        );
    }
}

proof fn lemma_inline_arms(queries: Seq<UpdateQuery>, fps: Seq<u64>, values: Seq<char>)
    ensures
        inline_arms(queries, fps, values) matches Some(arms) ==> arms_for_each(
            arms,
            queries,
            fps,
            values,
        ),
        (forall|i: int| 0 <= i < fps.len() ==> query_position(queries, #[trigger] fps[i]) is Some)
            ==> inline_arms(queries, fps, values) is Some,
    decreases fps.len(),
{
    if fps.len() > 0 {
        let short = fps.drop_last();
        let n = fps.len() - 1;
        lemma_inline_arms(queries, short, values);
        if inline_arms(queries, fps, values) is Some {
            let arms = inline_arms(queries, fps, values)->0;
            let before = inline_arms(queries, short, values)->0;
            assert(before.len() == short.len());
            assert(arms.len() == fps.len());
            assert forall|i: int| 0 <= i < fps.len() implies is_arm_of(
                #[trigger] arms[i],
                queries,
                fps[i],
                i,
                values,
            ) by {
                lemma_inline_arm_at(queries, fps, values, i);
            }
        }
        if forall|i: int|
            0 <= i < fps.len() ==> query_position(queries, #[trigger] fps[i]) is Some {
            assert forall|i: int| 0 <= i < short.len() implies query_position(
                queries,
                #[trigger] short[i],
            ) is Some by {
                assert(short[i] == fps[i]);
            }
            assert(query_position(queries, fps[n]) is Some);
        }
    }
}

/// One statement asks every listed query about all rows, and keeps what each of
/// them answers.
pub proof fn inlined_question_asks_every_query(
    queries: Seq<UpdateQuery>,
    fps: Seq<u64>,
    columns: Seq<ColumnMetadata>,
    rows: Seq<RowView>,
)
    ensures
        membership_inline(queries, fps, columns, rows) matches Some(text) ==> exists|
            arms: Seq<Seq<char>>,
        | #[trigger]
            arms_for_each(arms, queries, fps, joined(values_rows(columns, rows), ", "@)) && text
                == joined(arms, " UNION ALL "@),
        (forall|i: int| 0 <= i < fps.len() ==> query_position(queries, #[trigger] fps[i]) is Some)
            ==> membership_inline(queries, fps, columns, rows) is Some,
{
    let values = joined(values_rows(columns, rows), ", "@);
    lemma_inline_arms(queries, fps, values);
    if membership_inline(queries, fps, columns, rows) is Some {
        let arms = inline_arms(queries, fps, values)->0;
        assert(arms_for_each(arms, queries, fps, values));
    }
}

/// What is asked of one column of an UPDATE: whether the cached value differs
/// from the new one, and of an ordering column how it compares.
pub open spec fn asked_of_column(name: Seq<char>, ordering: bool) -> Seq<Seq<char>> {
    let changed = "o."@ + name + " IS DISTINCT FROM v."@ + name + " AS "@ + name;
    if ordering {
        seq![
            changed,
            "o."@ + name + " < v."@ + name + " AS "@ + OLD_LESS_THAN_ALIAS_PREFIX@ + name,
            "o."@ + name + " IS NULL AS "@ + OLD_IS_NULL_ALIAS_PREFIX@ + name,
        ]
    } else {
        seq![changed]
    }
}

/// Everything that is asked of the columns of an UPDATE, in order.
pub open spec fn asked_of_columns(columns: Seq<ColumnMetadata>, ordering: Seq<String>) -> Seq<
    Seq<char>,
>
    decreases columns.len(),
{
    if columns.len() == 0 {
        Seq::empty()
    } else {
        asked_of_columns(columns.drop_last(), ordering) + asked_of_column(
            columns.last().name@,
            name_in(ordering, columns.last().name@),
        )
    }
}

proof fn lemma_change_item(name: Seq<char>, ordered: bool, text: Seq<char>)
    ensures
        ({
            let items = asked_of_column(name, ordered);
            text + crate::eval_sql::change_item(name, ordered) == if ordered {
                text + ", "@ + items[0] + ", "@ + items[1] + ", "@ + items[2]
            } else {
                text + ", "@ + items[0]
            }
        }),
{
    reveal_strlit(", o.");
    reveal_strlit(", ");
    reveal_strlit("o.");
    assert(", o."@ =~= ", "@ + "o."@);
    let items = asked_of_column(name, ordered);
    let changed = ", o."@ + name + " IS DISTINCT FROM v."@ + name + " AS "@ + name;
    assert(changed =~= ", "@ + items[0]);
    if ordered {
        let less = ", o."@ + name + " < v."@ + name + " AS "@ + OLD_LESS_THAN_ALIAS_PREFIX@ + name;
        let null = ", o."@ + name + " IS NULL AS "@ + OLD_IS_NULL_ALIAS_PREFIX@ + name;
        assert(less =~= ", "@ + items[1]);
        assert(null =~= ", "@ + items[2]);
        assert(crate::eval_sql::change_item(name, ordered) =~= changed + less + null);
        assert(text + (changed + less + null) =~= text + changed + less + null);
        assert(text + changed =~= text + ", "@ + items[0]);
        assert(text + changed + less =~= text + ", "@ + items[0] + ", "@ + items[1]);
        assert(text + changed + less + null =~= text + ", "@ + items[0] + ", "@ + items[1] + ", "@
            + items[2]);
    } else {
        assert(text + changed =~= text + ", "@ + items[0]);
    }
}

proof fn lemma_change_items(columns: Seq<ColumnMetadata>, ordering: Seq<String>, head: Seq<char>)
    ensures
        head + change_items(columns, ordering) == joined(
            seq![head] + asked_of_columns(columns, ordering),
            ", "@,
        ),
    decreases columns.len(),
{
    let all = seq![head] + asked_of_columns(columns, ordering);
    if columns.len() == 0 {
        assert(all =~= seq![head]);
        assert(head + change_items(columns, ordering) =~= head);
    } else {
        let short = columns.drop_last();
        let name = columns.last().name@;
        let ordered = name_in(ordering, name);
        let items = asked_of_column(name, ordered);
        let before = seq![head] + asked_of_columns(short, ordering);
        lemma_change_items(short, ordering, head);
        assert(all =~= before + items);
        let text = head + change_items(short, ordering);
        lemma_change_item(name, ordered, text);
        assert(head + change_items(columns, ordering) =~= text + crate::eval_sql::change_item(
            name,
            ordered,
        ));
        if ordered {
            let one = before.push(items[0]);
            let two = one.push(items[1]);
            assert(all =~= two.push(items[2]));
            crate::text::lemma_joined_push(before, items[0], ", "@);
            crate::text::lemma_joined_push(one, items[1], ", "@);
            crate::text::lemma_joined_push(two, items[2], ", "@);
        } else {
            assert(all =~= before.push(items[0]));
            crate::text::lemma_joined_push(before, items[0], ", "@);
        }
    }
}

/// A row-change statement asks of every column of the relation whether it
/// changed, row by row, and meets each row with the cached one of the same key:
/// every key column must agree.
pub proof fn row_change_question_asks_every_column(table: TableMetadata, ordering: Seq<String>)
    ensures
        row_change_select(table, ordering) == "SELECT "@ + joined(
            seq!["v."@ + BATCH_IDX_COLUMN@] + asked_of_columns(table.columns@, ordering),
            ", "@,
        ),
        row_change_join_on(table) == " JOIN "@ + table.schema@ + "."@ + table.name@ + " o ON "@
            + joined(
            table.primary_key_columns@.map_values(|k: String| "o."@ + k@ + " = v."@ + k@),
            " AND "@,
        ),
{
    reveal_strlit("SELECT v.");
    reveal_strlit("SELECT ");
    reveal_strlit("v.");
    assert("SELECT v."@ =~= "SELECT "@ + "v."@);
    lemma_change_items(table.columns@, ordering, "v."@ + BATCH_IDX_COLUMN@);
    assert(row_change_select(table, ordering) =~= "SELECT "@ + (("v."@ + BATCH_IDX_COLUMN@)
        + change_items(table.columns@, ordering)));
    assert(crate::eval_sql::pk_join_conditions(table.primary_key_columns@)
        =~= table.primary_key_columns@.map_values(|k: String| "o."@ + k@ + " = v."@ + k@));
}

proof fn lemma_unnest_items(columns: Seq<ColumnMetadata>)
    ensures
        unnest_items(columns) == joined(
            seq![Seq::<char>::empty()] + Seq::new(
                columns.len(),
                |i: int|
                    "unnest($"@ + decimal((i + 2) as nat) + "::text[])::"@
                        + columns[i].cache_type_name@ + " AS "@ + columns[i].name@,
            ),
            ", "@,
        ),
    decreases columns.len(),
{
    reveal_strlit(", unnest($");
    reveal_strlit(", ");
    reveal_strlit("unnest($");
    assert(", unnest($"@ =~= ", "@ + "unnest($"@);
    let f = |i: int|
        "unnest($"@ + decimal((i + 2) as nat) + "::text[])::"@ + columns[i].cache_type_name@
            + " AS "@ + columns[i].name@;
    let all = seq![Seq::<char>::empty()] + Seq::new(columns.len(), f);
    if columns.len() == 0 {
        assert(all =~= seq![Seq::<char>::empty()]);
    } else {
        let short = columns.drop_last();
        lemma_unnest_items(short);
        let before = seq![Seq::<char>::empty()] + Seq::new(
            short.len(),
            |i: int|
                "unnest($"@ + decimal((i + 2) as nat) + "::text[])::"@ + short[i].cache_type_name@
                    + " AS "@ + short[i].name@,
        );
        assert(all =~= before.push(f(columns.len() - 1)));
        crate::text::lemma_joined_push(before, f(columns.len() - 1), ", "@);
        assert(unnest_items(columns) =~= unnest_items(short) + ", "@ + f(columns.len() - 1));
    }
}

/// The prepared row-change statement takes the rows' places as its first
/// parameter, and one parameter for each column, in order, of the column's type
/// and under its name.
pub proof fn prepared_question_takes_every_column(table: TableMetadata, ordering: Seq<String>)
    ensures
        row_change_prepared(table, ordering) == row_change_select(table, ordering)
            + " FROM (SELECT unnest($1::int4[]) AS "@ + BATCH_IDX_COLUMN@ + joined(
            seq![Seq::<char>::empty()] + Seq::new(
                table.columns@.len(),
                |i: int|
                    "unnest($"@ + decimal((i + 2) as nat) + "::text[])::"@
                        + table.columns@[i].cache_type_name@ + " AS "@ + table.columns@[i].name@,
            ),
            ", "@,
        ) + ") AS v"@ + row_change_join_on(table),
{
    lemma_unnest_items(table.columns@);
}

proof fn lemma_name_items(columns: Seq<ColumnMetadata>, head: Seq<char>)
    ensures
        head + name_items(columns) == joined(
            seq![head] + columns.map_values(|c: ColumnMetadata| c.name@),
            ", "@,
        ),
    decreases columns.len(),
{
    let f = |c: ColumnMetadata| c.name@;
    let all = seq![head] + columns.map_values(f);
    if columns.len() == 0 {
        assert(all =~= seq![head]);
        assert(head + name_items(columns) =~= head);
    } else {
        let short = columns.drop_last();
        lemma_name_items(short, head);
        let before = seq![head] + short.map_values(f);
        assert(all =~= before.push(columns.last().name@));
        crate::text::lemma_joined_push(before, columns.last().name@, ", "@);
        assert(head + name_items(columns) =~= (head + name_items(short)) + ", "@
            + columns.last().name@);
    }
}

/// The inlined row-change statement compares every row of the chunk, with its
/// cells under the names of the columns.
pub proof fn inlined_comparison_names_every_column(
    table: TableMetadata,
    ordering: Seq<String>,
    rows: Seq<RowView>,
)
    ensures
        row_change_inline(table, ordering, rows) == row_change_select(table, ordering)
            + " FROM (VALUES "@ + joined(values_rows(table.columns@, rows), ", "@) + ") AS v("@
            + joined(
            seq![BATCH_IDX_COLUMN@] + table.columns@.map_values(|c: ColumnMetadata| c.name@),
            ", "@,
        ) + ")"@ + row_change_join_on(table),
{
    lemma_name_items(table.columns@, BATCH_IDX_COLUMN@);
    assert(row_change_inline(table, ordering, rows) =~= row_change_select(table, ordering)
        + " FROM (VALUES "@ + joined(values_rows(table.columns@, rows), ", "@) + ") AS v("@ + (
    BATCH_IDX_COLUMN@ + name_items(table.columns@)) + ")"@ + row_change_join_on(table));
}

/// The comparison of one row asks of every column that the row has a cell for
/// whether the cached value differs, of exactly the cached rows with its key.
pub proof fn single_comparison_asks_every_cell(table: TableMetadata, row: RowView)
    ensures
        row_changes_query(table, row) == "SELECT "@ + joined(
            row_named_cells(table.columns@, row).map_values(
                |c: NamedCell| c.0 + " IS DISTINCT FROM "@ + cell_sql(c.1) + " AS "@ + c.0,
            ),
            ", "@,
        ) + " FROM "@ + table.schema@ + "."@ + table.name@ + " WHERE "@ + joined(
            key_conditions(table.columns@, table.primary_key_columns@, row).map_values(
                |c: NamedCell| c.0 + " = "@ + cell_sql(c.1),
            ),
            " AND "@,
        ),
{
    lemma_distinct_items(table.columns@, row);
    lemma_plain_conditions(table.columns@, table.primary_key_columns@, row);
}

proof fn lemma_distinct_items(columns: Seq<ColumnMetadata>, row: RowView)
    ensures
        distinct_items(columns, row) == row_named_cells(columns, row).map_values(
            |c: NamedCell| c.0 + " IS DISTINCT FROM "@ + cell_sql(c.1) + " AS "@ + c.0,
        ),
    decreases columns.len(),
{
    reveal(Seq::filter);
    if columns.len() > 0 {
        lemma_distinct_items(columns.drop_last(), row);
    }
    assert(distinct_items(columns, row) =~= row_named_cells(columns, row).map_values(
        |c: NamedCell| c.0 + " IS DISTINCT FROM "@ + cell_sql(c.1) + " AS "@ + c.0,
    ));
}

proof fn lemma_plain_conditions(columns: Seq<ColumnMetadata>, pk: Seq<String>, row: RowView)
    ensures
        plain_pk_conditions(columns, pk, row) == key_conditions(columns, pk, row).map_values(
            |c: NamedCell| c.0 + " = "@ + cell_sql(c.1),
        ),
    decreases pk.len(),
{
    reveal(Seq::filter);
    if pk.len() > 0 {
        lemma_plain_conditions(columns, pk.drop_last(), row);
    }
    assert(plain_pk_conditions(columns, pk, row) =~= key_conditions(columns, pk, row).map_values(
        |c: NamedCell| c.0 + " = "@ + cell_sql(c.1),
    ));
}

/// The server writes true as `t` and false as `f`, and NULL is neither.
pub proof fn truth_is_read_as_it_is_written(text: Option<Seq<char>>)
    ensures
        pg_bool(text) == Some(true) <==> text == Some(seq!['t']),
        pg_bool(text) == Some(false) <==> text == Some(seq!['f']),
{
    reveal_strlit("t");
    reveal_strlit("f");
    assert("t"@ =~= seq!['t']);
    assert("f"@ =~= seq!['f']);
    assert(seq!['t'][0] != seq!['f'][0]);
}

/// An answer about a column is one more word on it: whether it changed, where
/// nothing but true counts. An answer about its order belongs to the words on
/// it that are there, and changes nothing about whether it changed.
pub proof fn answer_is_a_word_on_its_column(
    changes: Seq<ChangeView>,
    column: Seq<char>,
    value: Option<bool>,
)
    ensures
        !starts_with(column, OLD_LESS_THAN_ALIAS_PREFIX@) && !starts_with(
            column,
            OLD_IS_NULL_ALIAS_PREFIX@,
        ) ==> column_folded(changes, column, value) == changes.push(
            ChangeView { column, changed: value == Some(true), old_less: None, old_null: None },
        ),
        ({
            let after = column_folded(changes, OLD_LESS_THAN_ALIAS_PREFIX@ + column, value);
            &&& after.len() == changes.len()
            &&& forall|i: int|
                0 <= i < changes.len() ==> #[trigger] after[i] == (if changes[i].column == column {
                    ChangeView { old_less: value, ..changes[i] }
                } else {
                    changes[i]
                })
        }),
        ({
            let after = column_folded(changes, OLD_IS_NULL_ALIAS_PREFIX@ + column, value);
            &&& after.len() == changes.len()
            &&& forall|i: int|
                0 <= i < changes.len() ==> #[trigger] after[i] == (if changes[i].column == column {
                    ChangeView { old_null: value, ..changes[i] }
                } else {
                    changes[i]
                })
        }),
{
    let (a, b) = (OLD_LESS_THAN_ALIAS_PREFIX@, OLD_IS_NULL_ALIAS_PREFIX@);
    assert((a + column).take(a.len() as int) =~= a);
    assert((a + column).skip(a.len() as int) =~= column);
    assert((b + column).take(b.len() as int) =~= b);
    assert((b + column).skip(b.len() as int) =~= column);
    reveal_strlit("pgcache_lt_");
    reveal_strlit("pgcache_null_");
    assert((b + column)[8] == 'n');
    assert(a[8] == 'l');
    if starts_with(b + column, a) {
        assert((b + column).take(a.len() as int)[8] == (b + column)[8]);
    }
}

/// The answers of a result row are read one after the other.
pub proof fn answers_are_read_in_order(names: Seq<Seq<char>>, cells: RowView, from: int, to: int)
    requires
        from < to,
    ensures
        changes_folded(names, cells, from, to) == column_folded(
            changes_folded(names, cells, from, to - 1),
            names[to - 1],
            pg_bool(
                if 0 <= to - 1 < cells.len() {
                    cells[to - 1]
                } else {
                    None
                },
            ),
        ),
        changes_folded(names, cells, from, from) == Seq::<ChangeView>::empty(),
{
}

} // verus!
