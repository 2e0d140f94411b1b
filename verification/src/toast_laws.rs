//! What repairing an image does to it, and which image it takes its values
//! from.
use vstd::prelude::*;

use crate::catalog::column_position;
use crate::catalog::named_cell;
use crate::catalog::pk_body;
use crate::catalog::pk_cells_sql;
use crate::catalog::ColumnMetadata;
use crate::catalog::RowView;
use crate::catalog::TableMetadata;
use crate::event::EventView;
use crate::text::cell_sql;
use crate::text::joined;
use crate::text::literal;
use crate::text_laws::lists_join_to_a_list;
use crate::text_laws::literal_reads_back;
use crate::toast::cell_or_null;
use crate::toast::chain_flushed;
use crate::toast::covers;
use crate::toast::delete_recorded;
use crate::toast::distinct;
use crate::toast::filled;
use crate::toast::image_of;
use crate::toast::leading_texts;
use crate::toast::lemma_filled_len;
use crate::toast::lookup_images;
use crate::toast::lookup_sql;
use crate::toast::pass_one;
use crate::toast::pass_one_step;
use crate::toast::pass_two_step;
use crate::toast::raw_pk;
use crate::toast::resolution;
use crate::toast::source_image;
use crate::toast::source_values;
use crate::toast::toastable_cells;
use crate::toast::toastable_names;
use crate::toast::toasted_names;
use crate::toast::trailing_cells;
use crate::toast::vacated_recorded;
use crate::toast::value_for;
use crate::toast::write_recorded;
use crate::toast::CellsView;
use crate::toast::LookupView;
use crate::toast::OverlayView;
use crate::toast::PassOneView;
use crate::toast::PassTwoView;
use crate::toast::PendingView;
use crate::toast::Resolution;
use crate::toast::ToastView;

verus! {

/// Whether a list of cells holds a value for a position: the first word on it.
pub open spec fn holds_value(values: CellsView, position: usize, value: Option<Seq<char>>) -> bool {
    exists|i: int|
        0 <= i < values.len() && #[trigger] values[i] == (position, value) && forall|j: int|
            0 <= j < i ==> (#[trigger] values[j]).0 != position
}

/// A recorded value is found by its position.
pub proof fn value_is_found_by_its_position(values: CellsView, position: usize)
    ensures
        value_for(values, position) matches Some(v) ==> holds_value(values, position, v),
        value_for(values, position) is None ==> forall|j: int|
            0 <= j < values.len() ==> (#[trigger] values[j]).0 != position,
    decreases values.len(),
{
    if values.len() > 0 && values[0].0 != position {
        let rest = values.drop_first();
        value_is_found_by_its_position(rest, position);
        match value_for(rest, position) {
            Some(v) => {
                let i = choose|i: int|
                    0 <= i < rest.len() && #[trigger] rest[i] == (position, v) && forall|j: int|
                        0 <= j < i ==> (#[trigger] rest[j]).0 != position;
                assert(values[i + 1] == (position, v));
                assert forall|j: int| 0 <= j < i + 1 implies (#[trigger] values[j]).0
                    != position by {
                    if j > 0 {
                        assert(rest[j - 1].0 != position);
                    }
                }
            },
            None => {
                assert forall|j: int| 0 <= j < values.len() implies (#[trigger] values[j]).0
                    != position by {
                    if j > 0 {
                        assert(rest[j - 1].0 != position);
                    }
                }
            },
        }
    } else if values.len() > 0 {
        assert(values[0] == (position, values[0].1));
    }
}

/// A repaired image has the recorded values at the missing positions, and its
/// own cells everywhere else.
pub proof fn repair_touches_missing_cells_only(row: RowView, toasted: Seq<usize>, values: CellsView)
    ensures
        filled(row, toasted, values).len() == row.len(),
        forall|p: int|
            0 <= p < row.len() && p <= usize::MAX ==> #[trigger] filled(row, toasted, values)[p] == (
            if toasted.contains(p as usize) && value_for(values, p as usize) is Some {
                value_for(values, p as usize)->0
            } else {
                row[p]
            }),
    decreases toasted.len(),
{
    lemma_filled_len(row, toasted, values);
    if toasted.len() > 0 {
        let short = toasted.drop_last();
        let last = toasted.last();
        repair_touches_missing_cells_only(row, short, values);
        assert forall|p: int|
            0 <= p < row.len() && p <= usize::MAX implies #[trigger] filled(row, toasted, values)[p]
            == (if toasted.contains(p as usize) && value_for(values, p as usize) is Some {
            value_for(values, p as usize)->0
        } else {
            row[p]
        }) by {
            assert(filled(row, short, values)[p] == (if short.contains(p as usize) && value_for(
                values,
                p as usize,
            ) is Some {
                value_for(values, p as usize)->0
            } else {
                row[p]
            }));
            assert(toasted.contains(p as usize) <==> short.contains(p as usize) || last
                == p as usize) by {
                if toasted.contains(p as usize) {
                    let k = choose|k: int| 0 <= k < toasted.len() && toasted[k] == p as usize;
                    if k < short.len() {
                        assert(short[k] == p as usize);
                    }
                }
                if short.contains(p as usize) {
                    let k = choose|k: int| 0 <= k < short.len() && short[k] == p as usize;
                    assert(toasted[k] == p as usize);
                }
                assert(toasted[toasted.len() - 1] == last);
            }
        }
    }
}

/// A complete write records the cell of every column that can be stored out of
/// line, by its position, and of no other.
pub proof fn write_records_every_large_cell(columns: Seq<ColumnMetadata>, row: RowView)
    ensures
        toastable_cells(columns, row) == columns.filter(
            |c: ColumnMetadata| c.toastable,
        ).map_values(
            |c: ColumnMetadata|
                (c.index_spec() as usize, cell_or_null(row, c.index_spec())),
        ),
    decreases columns.len(),
{
    reveal(Seq::filter);
    if columns.len() > 0 {
        write_records_every_large_cell(columns.drop_last(), row);
    }
    assert(toastable_cells(columns, row) =~= columns.filter(
        |c: ColumnMetadata| c.toastable,
    ).map_values(
        |c: ColumnMetadata| (c.index_spec() as usize, cell_or_null(row, c.index_spec())),
    ));
}

/// An UPDATE that changed its key takes the missing values from the row under
/// the old key, any other from the row itself.
pub proof fn missing_values_are_those_of_the_old_row(key: RowView, row: RowView)
    ensures
        key.len() > 0 ==> source_image(key, row) == key,
        key.len() == 0 ==> source_image(key, row) == row,
{
}

/// The columns that an incomplete image lacks are exactly those at its missing
/// positions.
pub proof fn missing_columns_are_named(columns: Seq<ColumnMetadata>, toasted: Seq<usize>)
    ensures
        toasted_names(columns, toasted) == columns.filter(
            |c: ColumnMetadata| toasted.contains(c.index_spec() as usize),
        ).map_values(|c: ColumnMetadata| c.name@),
    decreases columns.len(),
{
    reveal(Seq::filter);
    if columns.len() > 0 {
        missing_columns_are_named(columns.drop_last(), toasted);
    }
    assert(toasted_names(columns, toasted) =~= columns.filter(
        |c: ColumnMetadata| toasted.contains(c.index_spec() as usize),
    ).map_values(|c: ColumnMetadata| c.name@));
}

/// Whether an event is what the repair may make of another: itself, unless it
/// is an UPDATE with an incomplete image. Of such a one the relation and the key
/// stay, and so does every cell that its image has.
pub open spec fn is_repair_of(after: EventView, e: EventView) -> bool {
    match e {
        EventView::UpdateToasted { relation_oid, key_data, new_row_data, toasted } => {
            ||| after == e
            ||| (after matches EventView::Update { relation_oid: o, key_data: k, new_row_data: r }
                && o == relation_oid && k == key_data && r.len() == new_row_data.len() && forall|
                p: int,
            |
                0 <= p < r.len() && p <= usize::MAX && !toasted.contains(p as usize)
                    ==> #[trigger] r[p] == new_row_data[p])
            ||| (after matches EventView::UpdateToastFallback {
                relation_oid: o,
                key_data: k,
                new_row_data: r,
                ..
            } && o == relation_oid && k == key_data && r.len() == new_row_data.len() && forall|
                p: int,
            |
                0 <= p < r.len() && p <= usize::MAX && !toasted.contains(p as usize)
                    ==> #[trigger] r[p] == new_row_data[p])
        },
        _ => after == e,
    }
}

/// The first pass keeps every event in its place, and changes none but those
/// with an incomplete image, of which it keeps every cell that is there.
pub proof fn first_pass_keeps_what_is_there(
    toast: ToastView,
    tables: Map<u32, TableMetadata>,
    events: Seq<EventView>,
)
    ensures
        pass_one(toast, tables, events).events.len() == events.len(),
        forall|i: int|
            0 <= i < events.len() ==> is_repair_of(
                #[trigger] pass_one(toast, tables, events).events[i],
                events[i],
            ),
    decreases events.len(),
{
    if events.len() > 0 {
        let short = events.drop_last();
        first_pass_keeps_what_is_there(toast, tables, short);
        let s = pass_one(toast, tables, short);
        let after = pass_one(toast, tables, events);
        let e = events.last();
        if let EventView::UpdateToasted { relation_oid, key_data, new_row_data, toasted } = e {
            if tables.contains_key(relation_oid) {
                match resolution(
                    s.toast,
                    tables[relation_oid],
                    relation_oid,
                    key_data,
                    new_row_data,
                    toasted,
                ) {
                    Resolution::Repaired(full) => {
                        lemma_repaired_image(
                            s.toast,
                            tables[relation_oid],
                            relation_oid,
                            key_data,
                            new_row_data,
                            toasted,
                        );
                    },
                    _ => {},
                }
            }
        }
        assert forall|i: int| 0 <= i < events.len() implies is_repair_of(
            #[trigger] after.events[i],
            events[i],
        ) by {
            if i < short.len() {
                assert(after.events[i] == s.events[i]);
                assert(short[i] == events[i]);
            }
        }
    }
}

proof fn lemma_repaired_image(
    t: ToastView,
    table: TableMetadata,
    oid: u32,
    key: RowView,
    row: RowView,
    toasted: Seq<usize>,
)
    ensures
        resolution(t, table, oid, key, row, toasted) matches Resolution::Repaired(full)
            ==> full.len() == row.len() && forall|p: int|
            0 <= p < row.len() && p <= usize::MAX && !toasted.contains(p as usize)
                ==> #[trigger] full[p] == row[p],
{
    if let Resolution::Repaired(full) = resolution(t, table, oid, key, row, toasted) {
        let k = pk_body(table, source_image(key, row))->0;
        let values = t.overlay[(oid, k)]->Values_0;
        repair_touches_missing_cells_only(row, toasted, values);
    }
}

/// The second pass repairs a pending event with the values of its source, and
/// only when the source has every missing one; else the image stays incomplete
/// for good. It touches no other event.
pub proof fn second_pass_fills_from_the_source(
    s: PassTwoView,
    tables: Map<u32, TableMetadata>,
    images: Option<Seq<LookupView>>,
    slot: PendingView,
)
    requires
        slot.event_idx < s.events.len(),
        s.events[slot.event_idx as int] is UpdateToasted,
    ensures
        ({
            let e = s.events[slot.event_idx as int];
            let after = pass_two_step(s, tables, images, slot).events;
            let values = source_values(s.chain, images, slot);
            let complete = values is Some && forall|i: int|
                0 <= i < e->UpdateToasted_toasted.len() ==> value_for(
                    values->0,
                    #[trigger] e->UpdateToasted_toasted[i],
                ) is Some;
            &&& is_repair_of(after[slot.event_idx as int], e)
            &&& complete ==> after[slot.event_idx as int] is Update && forall|p: int|
                0 <= p < e->UpdateToasted_new_row_data.len() && p <= usize::MAX
                    && e->UpdateToasted_toasted.contains(p as usize) ==> #[trigger] after[slot.event_idx as int]->Update_new_row_data[p]
                    == value_for(values->0, p as usize)->0
            &&& !complete ==> after[slot.event_idx as int] is UpdateToastFallback
            &&& after.len() == s.events.len()
            &&& forall|j: int|
                0 <= j < after.len() && j != slot.event_idx ==> #[trigger] after[j] == s.events[j]
        }),
{
    let e = s.events[slot.event_idx as int];
    let row = e->UpdateToasted_new_row_data;
    let toasted = e->UpdateToasted_toasted;
    match source_values(s.chain, images, slot) {
        Some(values) => {
            repair_touches_missing_cells_only(row, toasted, values);
            if covers(values, toasted) {
                assert forall|p: int|
                    0 <= p < row.len() && p <= usize::MAX && toasted.contains(
                        p as usize,
                    ) implies #[trigger] filled(row, toasted, values)[p] == value_for(
                    values,
                    p as usize,
                )->0 by {
                    let k = choose|k: int| 0 <= k < toasted.len() && toasted[k] == p as usize;
                    assert(value_for(values, toasted[k]) is Some);
                }
            }
        },
        None => {},
    }
}

/// A pending repair takes its values from the batch, where an earlier repair
/// left an image of the row, and else from the cache table's image with its key;
/// a row that went away has none.
pub proof fn source_is_the_latest_image(
    chain: Map<(u32, Seq<char>), OverlayView>,
    images: Seq<LookupView>,
    slot: PendingView,
)
    ensures
        ({
            let k = (slot.relation_oid, slot.overlay_key);
            let source = source_values(chain, Some(images), slot);
            &&& chain.contains_key(k) && chain[k] is Deleted ==> source is None
            &&& chain.contains_key(k) && chain[k] is Values ==> source == Some(chain[k]->Values_0)
            &&& !chain.contains_key(k) ==> source == image_of(images, slot.raw_pk)
            &&& !chain.contains_key(k) ==> source_values(chain, None, slot) is None
        }),
{
}

/// An image is found by its key, and there is none without one of that key.
pub proof fn image_is_found_by_its_key(images: Seq<LookupView>, raw: Seq<Seq<char>>)
    ensures
        image_of(images, raw) matches Some(v) ==> exists|i: int|
            0 <= i < images.len() && #[trigger] images[i] == (raw, v),
        image_of(images, raw) is None ==> forall|i: int|
            0 <= i < images.len() ==> (#[trigger] images[i]).0 != raw,
    decreases images.len(),
{
    if images.len() > 0 && images.last().0 != raw {
        let short = images.drop_last();
        image_is_found_by_its_key(short, raw);
        assert forall|i: int| 0 <= i < short.len() implies short[i] == #[trigger] images[i] by {}
        match image_of(short, raw) {
            Some(v) => {
                let i = choose|i: int| 0 <= i < short.len() && #[trigger] short[i] == (raw, v);
                assert(images[i] == (raw, v));
            },
            None => {},
        }
    } else if images.len() > 0 {
        assert(images[images.len() - 1] == (raw, images.last().1));
    }
}

/// What the batch wrote later prevails over what a repair found out.
pub proof fn later_write_prevails(
    overlay: Map<(u32, Seq<char>), OverlayView>,
    chain: Map<(u32, Seq<char>), OverlayView>,
    k: (u32, Seq<char>),
)
    ensures
        overlay.contains_key(k) ==> chain_flushed(overlay, chain).contains_key(k)
            && chain_flushed(overlay, chain)[k] == overlay[k],
        !overlay.contains_key(k) && chain.contains_key(k) && chain[k] is Values
            ==> chain_flushed(overlay, chain).contains_key(k) && chain_flushed(overlay, chain)[k]
            == chain[k],
        !overlay.contains_key(k) && !(chain.contains_key(k) && chain[k] is Values)
            ==> !chain_flushed(overlay, chain).contains_key(k),
{
}

/// After an UPDATE that moved a row to another key, the row under the old key is
/// gone: nothing is repaired from it any more.
pub proof fn vacated_key_repairs_nothing(
    s: PassOneView,
    tables: Map<u32, TableMetadata>,
    oid: u32,
    old_key: RowView,
    moved: RowView,
    key: RowView,
    row: RowView,
    toasted: Seq<usize>,
)
    requires
        tables.contains_key(oid),
        tables[oid].has_toastable(),
        old_key.len() > 0,
        pk_body(tables[oid], old_key) is Some,
        pk_body(tables[oid], source_image(key, row)) == pk_body(tables[oid], old_key),
    ensures
        ({
            let e = EventView::Update {
                relation_oid: oid,
                key_data: old_key,
                new_row_data: moved,
            };
            resolution(
                pass_one_step(s, tables, e).toast,
                tables[oid],
                oid,
                key,
                row,
                toasted,
            ) is Fallback
        }),
{
    let e = EventView::Update { relation_oid: oid, key_data: old_key, new_row_data: moved };
    let t = pass_one_step(s, tables, e).toast;
    assert(t == vacated_recorded(
        write_recorded(s.toast, tables, oid, moved),
        tables,
        oid,
        old_key,
    ));
    assert(t.overlay[(oid, pk_body(tables[oid], old_key)->0)] is Deleted);
}

/// The distinct elements of a list are its elements, each once.
pub proof fn distinct_keeps_each_once<T>(list: Seq<T>, x: T)
    ensures
        distinct(list).contains(x) <==> list.contains(x),
        distinct(list).no_duplicates(),
    decreases list.len(),
{
    if list.len() > 0 {
        let short = list.drop_last();
        distinct_keeps_each_once(short, x);
        distinct_keeps_each_once(short, list.last());
        let rest = distinct(short);
        assert(list.contains(x) <==> short.contains(x) || list.last() == x) by {
            if list.contains(x) {
                let k = choose|k: int| 0 <= k < list.len() && list[k] == x;
                if k < short.len() {
                    assert(short[k] == x);
                }
            }
            if short.contains(x) {
                let k = choose|k: int| 0 <= k < short.len() && short[k] == x;
                assert(list[k] == x);
            }
            assert(list[list.len() - 1] == list.last());
        }
        let all = rest.push(list.last());
        assert(all.contains(x) <==> rest.contains(x) || list.last() == x) by {
            if rest.contains(x) {
                let k = choose|k: int| 0 <= k < rest.len() && rest[k] == x;
                assert(all[k] == x);
            }
            assert(all[rest.len() as int] == list.last());
            if all.contains(x) && list.last() != x {
                let k = choose|k: int| 0 <= k < all.len() && all[k] == x;
                assert(rest[k] == x);
            }
        }
        if !rest.contains(list.last()) {
            assert forall|i: int, j: int|
                0 <= i < all.len() && 0 <= j < all.len() && i != j implies all[i] != all[j] by {
                if i < rest.len() && j < rest.len() {
                    assert(rest[i] != rest[j]);
                } else if i < rest.len() {
                    assert(rest.contains(rest[i]));
                } else {
                    assert(rest.contains(rest[j]));
                }
            }
        }
    }
}

/// A key as the lookup lists it.
pub open spec fn listed_key(raw: Seq<Seq<char>>, composite: bool) -> Seq<char> {
    let cells = joined(raw.map_values(|t: Seq<char>| literal(t)), ", "@);
    if composite {
        "("@ + cells + ")"@
    } else {
        cells
    }
}

/// The lookup asks for every key that is missing a value, each once, and reads
/// the key columns and then every column that can be stored out of line. A
/// relation without a key, or with one that is no column, cannot be asked.
pub proof fn lookup_asks_for_every_key(table: TableMetadata, raws: Seq<Seq<Seq<char>>>)
    ensures
        ({
            let pk = table.primary_key_columns@;
            let names = pk.map_values(|k: String| k@);
            let large = table.columns@.filter(|c: ColumnMetadata| c.toastable).map_values(
                |c: ColumnMetadata| c.name@,
            );
            let usable = pk.len() > 0 && forall|i: int|
                0 <= i < pk.len() ==> column_position(table.columns@, (#[trigger] pk[i])@) is Some;
            match lookup_sql(table, raws) {
                Some(text) => usable && text == "SELECT "@ + joined(names + large, ", "@)
                    + " FROM "@ + table.schema@ + "."@ + table.name@ + " WHERE "@ + (
                if pk.len() > 1 {
                    "("@ + joined(names, ", "@) + ")"@
                } else {
                    names[0]
                }) + " IN ("@ + joined(
                    distinct(raws).map_values(
                        |raw: Seq<Seq<char>>| listed_key(raw, pk.len() > 1),
                    ),
                    ", "@,
                ) + ")"@,
                None => !usable,
            }
        }),
{
    let pk = table.primary_key_columns@;
    let composite = pk.len() > 1;
    let names = pk.map_values(|k: String| k@);
    assert(crate::toast::texts(pk) =~= names);
    lemma_toastable_names(table.columns@);
    let keys = distinct(raws);
    assert forall|i: int| 0 <= i < keys.len() implies #[trigger] crate::toast::key_item(
        keys[i],
        composite,
    ) == listed_key(keys[i], composite) by {
        assert(crate::toast::literals(keys[i]) =~= keys[i].map_values(
            |t: Seq<char>| literal(t),
        ));
    }
    assert(crate::toast::key_items(keys, composite) =~= keys.map_values(
        |raw: Seq<Seq<char>>| listed_key(raw, composite),
    ));
}

proof fn lemma_toastable_names(columns: Seq<ColumnMetadata>)
    ensures
        toastable_names(columns) == columns.filter(|c: ColumnMetadata| c.toastable).map_values(
            |c: ColumnMetadata| c.name@,
        ),
    decreases columns.len(),
{
    reveal(Seq::filter);
    if columns.len() > 0 {
        lemma_toastable_names(columns.drop_last());
    }
    assert(toastable_names(columns) =~= columns.filter(
        |c: ColumnMetadata| c.toastable,
    ).map_values(|c: ColumnMetadata| c.name@));
}

/// A lookup's row is read as it was asked: the key columns first, none of which
/// may be NULL, and behind them the out-of-line columns in order, each for its
/// own position.
pub proof fn lookup_row_is_read_as_asked(columns: Seq<ColumnMetadata>, row: RowView, n: nat)
    ensures
        leading_texts(row, n) matches Some(texts) ==> texts.len() == n && forall|i: int|
            0 <= i < n ==> cell_or_null(row, i) == Some(#[trigger] texts[i]),
        leading_texts(row, n) is None ==> exists|i: int|
            0 <= i < n && #[trigger] cell_or_null(row, i) is None,
        ({
            let large = columns.filter(|c: ColumnMetadata| c.toastable);
            let cells = trailing_cells(columns, row, n);
            &&& cells.len() == large.len()
            &&& forall|j: int|
                0 <= j < large.len() ==> #[trigger] cells[j] == (
                    large[j].index_spec() as usize,
                    cell_or_null(row, n + j),
                )
        }),
{
    lemma_leading(row, n);
    lemma_trailing(columns, row, n);
}

proof fn lemma_leading(row: RowView, n: nat)
    ensures
        leading_texts(row, n) matches Some(texts) ==> texts.len() == n && forall|i: int|
            0 <= i < n ==> cell_or_null(row, i) == Some(#[trigger] texts[i]),
        leading_texts(row, n) is None ==> exists|i: int|
            0 <= i < n && #[trigger] cell_or_null(row, i) is None,
    decreases n,
{
    if n > 0 {
        lemma_leading(row, (n - 1) as nat);
        if cell_or_null(row, n - 1) is None {
            assert(cell_or_null(row, n - 1) is None);
        }
    }
}

proof fn lemma_trailing(columns: Seq<ColumnMetadata>, row: RowView, n: nat)
    ensures
        ({
            let large = columns.filter(|c: ColumnMetadata| c.toastable);
            let cells = trailing_cells(columns, row, n);
            &&& cells.len() == large.len()
            &&& forall|j: int|
                0 <= j < large.len() ==> #[trigger] cells[j] == (
                    large[j].index_spec() as usize,
                    cell_or_null(row, n + j),
                )
        }),
    decreases columns.len(),
{
    reveal(Seq::filter);
    if columns.len() > 0 {
        lemma_trailing(columns.drop_last(), row, n);
    }
}

/// Every row of a lookup with a key gives an image under that key.
pub proof fn lookup_rows_give_images(table: TableMetadata, rows: Seq<RowView>)
    ensures
        ({
            let n = table.primary_key_columns@.len();
            lookup_images(table, rows) == rows.filter(
                |r: RowView| leading_texts(r, n) is Some,
            ).map_values(
                |r: RowView| (leading_texts(r, n)->0, trailing_cells(table.columns@, r, n)),
            )
        }),
    decreases rows.len(),
{
    reveal(Seq::filter);
    let n = table.primary_key_columns@.len();
    if rows.len() > 0 {
        lookup_rows_give_images(table, rows.drop_last());
    }
    assert(lookup_images(table, rows) =~= rows.filter(
        |r: RowView| leading_texts(r, n) is Some,
    ).map_values(|r: RowView| (leading_texts(r, n)->0, trailing_cells(table.columns@, r, n))));
}

/// The texts of a row's key are its key cells, none of which may be missing or
/// NULL.
pub proof fn key_texts_are_the_key_cells(columns: Seq<ColumnMetadata>, pk: Seq<String>, row: RowView)
    ensures
        raw_pk(columns, pk, row) matches Some(texts) ==> texts.len() == pk.len() && forall|i: int|
            0 <= i < pk.len() ==> named_cell(columns, row, pk[i]@) == Some(
                Some(#[trigger] texts[i]),
            ),
        raw_pk(columns, pk, row) is None ==> exists|i: int|
            0 <= i < pk.len() && !(named_cell(columns, row, (#[trigger] pk[i])@) matches Some(
                Some(_),
            )),
    decreases pk.len(),
{
    if pk.len() > 0 {
        let short = pk.drop_last();
        key_texts_are_the_key_cells(columns, short, row);
        assert forall|i: int| 0 <= i < short.len() implies short[i] == #[trigger] pk[i] by {}
        if raw_pk(columns, short, row) is None {
            let i = choose|i: int|
                0 <= i < short.len() && !(named_cell(columns, row, (#[trigger] short[i])@) matches Some(
                    Some(_),
                ));
            assert(!(named_cell(columns, row, pk[i]@) matches Some(Some(_))));
        } else if raw_pk(columns, pk, row) is None {
            assert(!(named_cell(columns, row, pk[pk.len() - 1]@) matches Some(Some(_))));
        }
    }
}

/// A row's key body is its key cells as SQL, in key order; without a key, or
/// where a key column is missing, there is none.
pub proof fn key_body_is_the_key_cells(table: TableMetadata, row: RowView)
    ensures
        ({
            let pk = table.primary_key_columns@;
            let all = forall|i: int|
                0 <= i < pk.len() ==> named_cell(table.columns@, row, (#[trigger] pk[i])@) is Some;
            match pk_body(table, row) {
                Some(text) => pk.len() > 0 && all && text == joined(
                    pk.map_values(
                        |k: String| cell_sql(named_cell(table.columns@, row, k@)->0),
                    ),
                    ", "@,
                ),
                None => pk.len() == 0 || !all,
            }
        }),
{
    lemma_pk_cells(table.columns@, table.primary_key_columns@, row);
}

proof fn lemma_pk_cells(columns: Seq<ColumnMetadata>, pk: Seq<String>, row: RowView)
    ensures
        match pk_cells_sql(columns, pk, row) {
            Some(cells) => (forall|i: int|
                0 <= i < pk.len() ==> named_cell(columns, row, (#[trigger] pk[i])@) is Some)
                && cells == pk.map_values(|k: String| cell_sql(named_cell(columns, row, k@)->0)),
            None => exists|i: int|
                0 <= i < pk.len() && named_cell(columns, row, (#[trigger] pk[i])@) is None,
        },
    decreases pk.len(),
{
    if pk.len() > 0 {
        let short = pk.drop_last();
        lemma_pk_cells(columns, short, row);
        assert forall|i: int| 0 <= i < short.len() implies short[i] == #[trigger] pk[i] by {}
        match pk_cells_sql(columns, pk, row) {
            Some(cells) => {
                assert forall|i: int| 0 <= i < pk.len() implies named_cell(
                    columns,
                    row,
                    (#[trigger] pk[i])@,
                ) is Some by {
                    if i < short.len() {
                        assert(named_cell(columns, row, short[i]@) is Some);
                    }
                }
                assert(cells =~= pk.map_values(
                    |k: String| cell_sql(named_cell(columns, row, k@)->0),
                ));
            },
            None => {
                if pk_cells_sql(columns, short, row) is None {
                    let i = choose|i: int|
                        0 <= i < short.len() && named_cell(
                            columns,
                            row,
                            (#[trigger] short[i])@,
                        ) is None;
                    assert(named_cell(columns, row, pk[i]@) is None);
                } else {
                    assert(named_cell(columns, row, pk[pk.len() - 1]@) is None);
                }
            },
        }
    }
}

proof fn lemma_cell_front(a: Option<Seq<char>>, b: Option<Seq<char>>, x: Seq<char>, y: Seq<char>)
    requires
        cell_sql(a) + x == cell_sql(b) + y,
        x.len() > 0 ==> x[0] == ',',
        y.len() > 0 ==> y[0] == ',',
    ensures
        a == b,
        x == y,
{
    reveal_strlit("NULL");
    let text = cell_sql(a) + x;
    if let Some(v) = a {
        literal_reads_back(v, x);
        if v.contains('\\') {
            assert(text.take(3)[0] == text[0]);
        }
    }
    if let Some(w) = b {
        literal_reads_back(w, y);
        if w.contains('\\') {
            assert(text.take(3)[0] == text[0]);
        }
    }
    if a is None {
        assert(text[0] == 'N');
        assert(b is None);
        assert(text.skip(4) =~= x);
        assert(text.skip(4) =~= y);
    } else {
        if b is None {
            assert((cell_sql(b) + y)[0] == 'N');
        }
        assert(b is Some);
    }
}

proof fn lemma_cells_decode(a: Seq<Option<Seq<char>>>, b: Seq<Option<Seq<char>>>)
    requires
        a.len() == b.len(),
        joined(a.map_values(|c: Option<Seq<char>>| cell_sql(c)), ", "@) == joined(
            b.map_values(|c: Option<Seq<char>>| cell_sql(c)),
            ", "@,
        ),
    ensures
        a == b,
    decreases a.len(),
{
    reveal_strlit(", ");
    let f = |c: Option<Seq<char>>| cell_sql(c);
    if a.len() == 0 {
        assert(a =~= b);
    } else {
        let (ra, rb) = (a.drop_first(), b.drop_first());
        let (ta, tb) = (ra.map_values(f), rb.map_values(f));
        assert(a.map_values(f) =~= seq![f(a[0])] + ta);
        assert(b.map_values(f) =~= seq![f(b[0])] + tb);
        lists_join_to_a_list(seq![f(a[0])], ta, ", "@);
        lists_join_to_a_list(seq![f(b[0])], tb, ", "@);
        if ra.len() == 0 {
            assert(f(a[0]) + Seq::<char>::empty() =~= f(a[0]));
            assert(f(b[0]) + Seq::<char>::empty() =~= f(b[0]));
            lemma_cell_front(a[0], b[0], Seq::empty(), Seq::empty());
        } else {
            let (x, y) = (", "@ + joined(ta, ", "@), ", "@ + joined(tb, ", "@));
            assert(f(a[0]) + ", "@ + joined(ta, ", "@) =~= f(a[0]) + x);
            assert(f(b[0]) + ", "@ + joined(tb, ", "@) =~= f(b[0]) + y);
            lemma_cell_front(a[0], b[0], x, y);
            assert(x.skip(2) =~= joined(ta, ", "@));
            assert(y.skip(2) =~= joined(tb, ", "@));
            lemma_cells_decode(ra, rb);
        }
        assert(a =~= seq![a[0]] + ra);
        assert(b =~= seq![b[0]] + rb);
    }
}

/// Rows of a relation have the same key body exactly if they agree in every key
/// column: the body tells rows apart as the key does.
pub proof fn key_body_tells_keys_apart(table: TableMetadata, a: RowView, b: RowView)
    requires
        pk_body(table, a) is Some,
        pk_body(table, b) is Some,
    ensures
        pk_body(table, a) == pk_body(table, b) <==> forall|i: int|
            0 <= i < table.primary_key_columns@.len() ==> named_cell(
                table.columns@,
                a,
                (#[trigger] table.primary_key_columns@[i])@,
            ) == named_cell(table.columns@, b, table.primary_key_columns@[i]@),
{
    let pk = table.primary_key_columns@;
    key_body_is_the_key_cells(table, a);
    key_body_is_the_key_cells(table, b);
    let x = pk.map_values(|k: String| named_cell(table.columns@, a, k@)->0);
    let y = pk.map_values(|k: String| named_cell(table.columns@, b, k@)->0);
    let f = |c: Option<Seq<char>>| cell_sql(c);
    assert(pk.map_values(|k: String| cell_sql(named_cell(table.columns@, a, k@)->0))
        =~= x.map_values(f));
    assert(pk.map_values(|k: String| cell_sql(named_cell(table.columns@, b, k@)->0))
        =~= y.map_values(f));
    if pk_body(table, a) == pk_body(table, b) {
        lemma_cells_decode(x, y);
        assert forall|i: int| 0 <= i < pk.len() implies named_cell(
            table.columns@,
            a,
            (#[trigger] pk[i])@,
        ) == named_cell(table.columns@, b, pk[i]@) by {
            assert(x[i] == y[i]);
            assert(named_cell(table.columns@, a, pk[i]@) is Some);
            assert(named_cell(table.columns@, b, pk[i]@) is Some);
        }
    } else {
        if forall|i: int|
            0 <= i < pk.len() ==> named_cell(table.columns@, a, (#[trigger] pk[i])@) == named_cell(
                table.columns@,
                b,
                pk[i]@,
            ) {
            assert(x =~= y);
        }
    }
}

/// A write of a row with a key is found under its key, with the cells of all
/// columns that can be stored out of line, where the relation has such columns; a
/// removal is found as one. No other row is concerned, and without such columns or
/// a key nothing is recorded.
pub proof fn write_is_found_under_its_key(
    t: ToastView,
    tables: Map<u32, TableMetadata>,
    oid: u32,
    row: RowView,
    k: (u32, Seq<char>),
)
    ensures
        ({
            let recorded = tables.contains_key(oid) && (exists|i: int|
                0 <= i < tables[oid].columns@.len() && (
                #[trigger] tables[oid].columns@[i]).toastable) && pk_body(
                tables[oid],
                row,
            ) is Some;
            let own = recorded && k == (oid, pk_body(tables[oid], row)->0);
            let written = write_recorded(t, tables, oid, row).overlay;
            let removed = delete_recorded(t, tables, oid, row).overlay;
            &&& own ==> written.contains_key(k) && written[k] == OverlayView::Values(
                toastable_cells(tables[oid].columns@, row),
            )
            &&& own ==> removed.contains_key(k) && removed[k] == OverlayView::Deleted
            &&& !own ==> written.contains_key(k) == t.overlay.contains_key(k)
                && removed.contains_key(k) == t.overlay.contains_key(k)
            &&& !own && t.overlay.contains_key(k) ==> written[k] == t.overlay[k] && removed[k]
                == t.overlay[k]
        }),
{
}

} // verus!
