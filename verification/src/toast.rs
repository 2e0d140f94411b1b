//! Repair of UPDATE images that leave out unchanged out-of-line values.
//!
//! Such an image is only usable once the missing cells are filled in. Within a
//! batch the cache tables still hold the state before the batch, so the
//! writer keeps an overlay of what the batch itself did to each row's
//! out-of-line columns, and asks the cache tables only for rows the batch has
//! not touched. A row whose values cannot be recovered falls back to
//! invalidation.
use std::collections::HashMap;
use std::collections::HashSet;

use vstd::prelude::*;
use vstd::string::*;

use crate::catalog::cell_at;
use crate::catalog::column_position;
use crate::catalog::named_cell;
use crate::catalog::pk_body;
use crate::catalog::pk_body_render;
use crate::catalog::row_get;
use crate::catalog::ColumnMetadata;
use crate::catalog::Row;
use crate::catalog::RowView;
use crate::catalog::TableMetadata;
use crate::event::events_view;
use crate::event::EventView;
use crate::event::FrameRowEvent;
use crate::keymap::outside_relation;
use crate::keymap::KeyMap;
use crate::keymap::RowKey;
use crate::text::joined;
use crate::text::list_append;
use crate::text::literal;
use crate::text::literal_escape;

verus! {

broadcast use vstd::std_specs::hash::group_hash_axioms;

/// One out-of-line column's value in a row image.
pub struct ToastCell {
    /// Index of the column's cell in a row.
    pub position: usize,
    pub value: Option<String>,
}

/// What the batch last did to a row's out-of-line columns.
pub enum ToastOverlayEntry {
    /// Wrote them.
    Values(Vec<ToastCell>),
    /// Removed the row, or made its image unusable.
    Deleted,
}

/// The values of a list of cells.
pub type CellsView = Seq<(usize, Option<Seq<char>>)>;

/// The mathematical value of a [`ToastOverlayEntry`].
pub enum OverlayView {
    Values(CellsView),
    Deleted,
}

pub open spec fn cells_view(cells: Seq<ToastCell>) -> CellsView {
    Seq::new(cells.len(), |i: int| (cells[i].position, cells[i].value.deep_view()))
}

impl View for ToastOverlayEntry {
    type V = OverlayView;

    open spec fn view(&self) -> OverlayView {
        match self {
            ToastOverlayEntry::Values(cells) => OverlayView::Values(cells_view(cells@)),
            ToastOverlayEntry::Deleted => OverlayView::Deleted,
        }
    }
}

/// The batch's overlay, and the relations whose earlier images are void.
pub struct ToastState {
    overlay: KeyMap<ToastOverlayEntry>,
    guard_oids: HashSet<u32>,
}

/// The mathematical value of a [`ToastState`].
#[verifier::ext_equal]
pub struct ToastView {
    pub overlay: Map<RowKey, OverlayView>,
    /// Relations truncated or redefined in the batch.
    pub guards: Set<u32>,
}

/// The values of an overlay's entries.
pub open spec fn overlay_view(m: Map<RowKey, ToastOverlayEntry>) -> Map<RowKey, OverlayView> {
    m.map_values(|e: ToastOverlayEntry| e@)
}

impl View for ToastState {
    type V = ToastView;

    closed spec fn view(&self) -> ToastView {
        ToastView { overlay: overlay_view(self.overlay@), guards: self.guard_oids@ }
    }
}

/// Nothing recorded.
pub open spec fn toast_empty() -> ToastView {
    ToastView { overlay: Map::empty(), guards: Set::empty() }
}

/// The cell at `i` with a missing cell read as NULL.
pub open spec fn cell_or_null(row: RowView, i: int) -> Option<Seq<char>> {
    match cell_at(row, i) {
        Some(cell) => cell,
        None => None,
    }
}

/// The out-of-line columns' cells of a row image.
pub open spec fn toastable_cells(columns: Seq<ColumnMetadata>, row: RowView) -> CellsView
    decreases columns.len(),
{
    if columns.len() == 0 {
        Seq::empty()
    } else {
        let rest = toastable_cells(columns.drop_last(), row);
        if columns.last().toastable {
            let i = columns.last().index_spec();
            rest.push((i as usize, cell_or_null(row, i)))
        } else {
            rest
        }
    }
}

/// Recording a complete write of the row.
pub open spec fn write_recorded(
    t: ToastView,
    tables: Map<u32, TableMetadata>,
    oid: u32,
    row: RowView,
) -> ToastView {
    if tables.contains_key(oid) && tables[oid].has_toastable() && pk_body(
        tables[oid],
        row,
    ) is Some {
        ToastView {
            overlay: t.overlay.insert(
                (oid, pk_body(tables[oid], row)->0),
                OverlayView::Values(toastable_cells(tables[oid].columns@, row)),
            ),
            ..t
        }
    } else {
        t
    }
}

/// Recording that the row went away.
pub open spec fn delete_recorded(
    t: ToastView,
    tables: Map<u32, TableMetadata>,
    oid: u32,
    row: RowView,
) -> ToastView {
    if tables.contains_key(oid) && tables[oid].has_toastable() && pk_body(
        tables[oid],
        row,
    ) is Some {
        ToastView {
            overlay: t.overlay.insert(
                (oid, pk_body(tables[oid], row)->0),
                OverlayView::Deleted,
            ),
            ..t
        }
    } else {
        t
    }
}

/// Recording that the old key of an UPDATE was vacated, if it changed the key.
pub open spec fn vacated_recorded(
    t: ToastView,
    tables: Map<u32, TableMetadata>,
    oid: u32,
    key: RowView,
) -> ToastView {
    if key.len() > 0 {
        delete_recorded(t, tables, oid, key)
    } else {
        t
    }
}

/// Every earlier image of the relation is void.
pub open spec fn relation_voided(t: ToastView, oid: u32) -> ToastView {
    ToastView { overlay: outside_relation(t.overlay, oid), guards: t.guards.insert(oid) }
}

/// Every earlier image of the relations is void.
pub open spec fn relations_voided(t: ToastView, oids: Seq<u32>) -> ToastView
    decreases oids.len(),
{
    if oids.len() == 0 {
        t
    } else {
        relation_voided(relations_voided(t, oids.drop_last()), oids.last())
    }
}

/// The value recorded for a position.
pub open spec fn value_for(values: CellsView, position: usize) -> Option<Option<Seq<char>>>
    decreases values.len(),
{
    if values.len() == 0 {
        None
    } else if values[0].0 == position {
        Some(values[0].1)
    } else {
        value_for(values.drop_first(), position)
    }
}

/// Whether every missing position has a recorded value.
pub open spec fn covers(values: CellsView, toasted: Seq<usize>) -> bool {
    forall|i: int| 0 <= i < toasted.len() ==> value_for(values, #[trigger] toasted[i]) is Some
}

/// The image with the missing positions filled from the recorded values, as
/// far as there are any.
pub open spec fn filled(row: RowView, toasted: Seq<usize>, values: CellsView) -> RowView
    decreases toasted.len(),
{
    if toasted.len() == 0 {
        row
    } else {
        let rest = filled(row, toasted.drop_last(), values);
        match value_for(values, toasted.last()) {
            Some(v) => if toasted.last() < rest.len() {
                rest.update(toasted.last() as int, v)
            } else {
                rest
            },
            None => rest,
        }
    }
}

/// Filling in an image keeps its width.
pub proof fn lemma_filled_len(row: RowView, toasted: Seq<usize>, values: CellsView)
    ensures
        filled(row, toasted, values).len() == row.len(),
    decreases toasted.len(),
{
    if toasted.len() > 0 {
        lemma_filled_len(row, toasted.drop_last(), values);
    }
}

/// The texts of the row's primary key; `None` when one is missing or NULL.
pub open spec fn raw_pk(
    columns: Seq<ColumnMetadata>,
    pk: Seq<String>,
    row: RowView,
) -> Option<Seq<Seq<char>>>
    decreases pk.len(),
{
    if pk.len() == 0 {
        Some(Seq::empty())
    } else {
        match (raw_pk(columns, pk.drop_last(), row), named_cell(columns, row, pk.last()@)) {
            (Some(texts), Some(Some(text))) => Some(texts.push(text)),
            _ => None,
        }
    }
}

/// Names of the columns at the missing positions.
pub open spec fn toasted_names(columns: Seq<ColumnMetadata>, toasted: Seq<usize>) -> Seq<Seq<char>>
    decreases columns.len(),
{
    if columns.len() == 0 {
        Seq::empty()
    } else {
        let rest = toasted_names(columns.drop_last(), toasted);
        if toasted.contains(columns.last().index_spec() as usize) {
            rest.push(columns.last().name@)
        } else {
            rest
        }
    }
}

/// What the overlay says of an incomplete UPDATE.
pub enum Resolution {
    /// The overlay has the values: the completed image.
    Repaired(RowView),
    /// The batch has not touched the row: ask the cache table by this key.
    Queue { overlay_key: Seq<char>, raw_pk: Seq<Seq<char>> },
    /// Not recoverable.
    Fallback,
}

/// The image the missing values belonged to: the old key when the UPDATE
/// changed it.
pub open spec fn source_image(key: RowView, row: RowView) -> RowView {
    if key.len() > 0 {
        key
    } else {
        row
    }
}

/// What the overlay says of an incomplete UPDATE.
pub open spec fn resolution(
    t: ToastView,
    table: TableMetadata,
    oid: u32,
    key: RowView,
    row: RowView,
    toasted: Seq<usize>,
) -> Resolution {
    let source = source_image(key, row);
    match pk_body(table, source) {
        None => Resolution::Fallback,
        Some(k) => if t.overlay.contains_key((oid, k)) {
            match t.overlay[(oid, k)] {
                OverlayView::Values(values) => if covers(values, toasted) {
                    Resolution::Repaired(filled(row, toasted, values))
                } else {
                    Resolution::Fallback
                },
                OverlayView::Deleted => Resolution::Fallback,
            }
        } else if t.guards.contains(oid) {
            Resolution::Fallback
        } else {
            match raw_pk(table.columns@, table.primary_key_columns@, source) {
                Some(raw) => Resolution::Queue { overlay_key: k, raw_pk: raw },
                None => Resolution::Fallback,
            }
        },
    }
}

/// A repair that awaits the cache table's image.
pub struct PendingRepairSlot {
    pub event_idx: usize,
    pub relation_oid: u32,
    /// Identity of the source row in the overlay.
    pub overlay_key: String,
    /// Texts of the source row's key, to find its image.
    pub raw_pk: Vec<String>,
}

/// The mathematical value of a [`PendingRepairSlot`].
pub struct PendingView {
    pub event_idx: usize,
    pub relation_oid: u32,
    pub overlay_key: Seq<char>,
    pub raw_pk: Seq<Seq<char>>,
}

impl View for PendingRepairSlot {
    type V = PendingView;

    open spec fn view(&self) -> PendingView {
        PendingView {
            event_idx: self.event_idx,
            relation_oid: self.relation_oid,
            overlay_key: self.overlay_key@,
            raw_pk: self.raw_pk.deep_view(),
        }
    }
}

/// The values of a list of pending repairs.
pub open spec fn pending_view(slots: Seq<PendingRepairSlot>) -> Seq<PendingView> {
    Seq::new(slots.len(), |i: int| slots[i]@)
}

/// The fallback event of an incomplete UPDATE.
pub open spec fn fallback_event(
    tables: Map<u32, TableMetadata>,
    oid: u32,
    key: RowView,
    row: RowView,
    toasted: Seq<usize>,
) -> EventView {
    EventView::UpdateToastFallback {
        relation_oid: oid,
        key_data: key,
        new_row_data: row,
        toasted_columns: if tables.contains_key(oid) {
            toasted_names(tables[oid].columns@, toasted)
        } else {
            Seq::empty()
        },
    }
}

/// The first pass over the events so far.
#[verifier::ext_equal]
pub struct PassOneView {
    pub toast: ToastView,
    pub events: Seq<EventView>,
    pub pending: Seq<PendingView>,
}

/// The first pass's treatment of an incomplete UPDATE.
pub struct ResolvedView {
    pub toast: ToastView,
    pub event: EventView,
    pub queued: Option<PendingView>,
}

/// The first pass's treatment of an incomplete UPDATE, the event at
/// `event_idx`. An unknown relation's event is passed through: its handler does
/// nothing with it.
pub open spec fn resolved(
    t: ToastView,
    tables: Map<u32, TableMetadata>,
    event_idx: usize,
    oid: u32,
    key: RowView,
    row: RowView,
    toasted: Seq<usize>,
) -> ResolvedView {
    if !tables.contains_key(oid) {
        ResolvedView {
            toast: t,
            event: EventView::Update { relation_oid: oid, key_data: key, new_row_data: row },
            queued: None,
        }
    } else {
        match resolution(t, tables[oid], oid, key, row, toasted) {
            Resolution::Repaired(full) => ResolvedView {
                toast: vacated_recorded(write_recorded(t, tables, oid, full), tables, oid, key),
                event: EventView::Update { relation_oid: oid, key_data: key, new_row_data: full },
                queued: None,
            },
            Resolution::Queue { overlay_key, raw_pk } => ResolvedView {
                toast: vacated_recorded(t, tables, oid, key),
                event: EventView::UpdateToasted {
                    relation_oid: oid,
                    key_data: key,
                    new_row_data: row,
                    toasted,
                },
                queued: Some(
                    PendingView { event_idx, relation_oid: oid, overlay_key, raw_pk },
                ),
            },
            Resolution::Fallback => ResolvedView {
                toast: delete_recorded(
                    vacated_recorded(t, tables, oid, key),
                    tables,
                    oid,
                    row,
                ),
                event: fallback_event(tables, oid, key, row, toasted),
                queued: None,
            },
        }
    }
}

/// A list with an optional last element.
pub open spec fn push_some<T>(list: Seq<T>, item: Option<T>) -> Seq<T> {
    match item {
        Some(x) => list.push(x),
        None => list,
    }
}

/// The first pass's treatment of one event.
pub open spec fn pass_one_step(
    s: PassOneView,
    tables: Map<u32, TableMetadata>,
    e: EventView,
) -> PassOneView {
    match e {
        EventView::Insert { relation_oid, row_data } => PassOneView {
            toast: write_recorded(s.toast, tables, relation_oid, row_data),
            events: s.events.push(e),
            ..s
        },
        EventView::Update { relation_oid, key_data, new_row_data } => PassOneView {
            toast: vacated_recorded(
                write_recorded(s.toast, tables, relation_oid, new_row_data),
                tables,
                relation_oid,
                key_data,
            ),
            events: s.events.push(e),
            ..s
        },
        EventView::Delete { relation_oid, row_data } => PassOneView {
            toast: delete_recorded(s.toast, tables, relation_oid, row_data),
            events: s.events.push(e),
            ..s
        },
        EventView::Truncate { relation_oids } => PassOneView {
            toast: relations_voided(s.toast, relation_oids),
            events: s.events.push(e),
            ..s
        },
        EventView::Boundary { .. } => PassOneView { events: s.events.push(e), ..s },
        EventView::UpdateToastFallback { .. } => PassOneView { events: s.events.push(e), ..s },
        EventView::UpdateToasted { relation_oid, key_data, new_row_data, toasted } => {
            let r = resolved(
                s.toast,
                tables,
                s.events.len() as usize,
                relation_oid,
                key_data,
                new_row_data,
                toasted,
            );
            PassOneView {
                toast: r.toast,
                events: s.events.push(r.event),
                pending: push_some(s.pending, r.queued),
            }
        },
    }
}

/// The first pass over a log of events: maintain the overlay in arrival order,
/// repair what it can, and queue what only the cache tables can tell.
pub open spec fn pass_one(
    toast: ToastView,
    tables: Map<u32, TableMetadata>,
    events: Seq<EventView>,
) -> PassOneView
    decreases events.len(),
{
    if events.len() == 0 {
        PassOneView { toast, events: Seq::empty(), pending: Seq::empty() }
    } else {
        pass_one_step(pass_one(toast, tables, events.drop_last()), tables, events.last())
    }
}

/// A copy of a cell.
pub fn cell_clone(cell: &Option<String>) -> (copy: Option<String>)
    ensures
        copy.deep_view() == cell.deep_view(),
{
    match cell {
        Some(text) => Some(text.clone()),
        None => None,
    }
}

/// The cell at `i`, a missing one read as NULL.
fn cell_or_null_get(row: &Row, i: usize) -> (cell: Option<String>)
    ensures
        cell.deep_view() == cell_or_null(row.deep_view(), i as int),
{
    match row_get(row, i) {
        Some(cell) => cell_clone(cell),
        None => None,
    }
}

/// Collect the out-of-line columns' cells of a row image.
pub fn toastable_values(table: &TableMetadata, row: &Row) -> (values: Vec<ToastCell>)
    ensures
        cells_view(values@) == toastable_cells(table.columns@, row.deep_view()),
{
    let ghost cols = table.columns@;
    let mut values: Vec<ToastCell> = Vec::new();
    let mut i: usize = 0;
    while i < table.columns.len()
        invariant
            i <= cols.len(),
            cols == table.columns@,
            cells_view(values@) =~= toastable_cells(cols.take(i as int), row.deep_view()),
        decreases cols.len() - i,
    {
        proof {
            assert(cols.take(i + 1).drop_last() =~= cols.take(i as int));
        }
        if table.columns[i].toastable {
            let position = table.columns[i].index();
            let ghost before = values@;
            let cell = ToastCell { position, value: cell_or_null_get(row, position) };
            let ghost added = (cell.position, cell.value.deep_view());
            values.push(cell);
            proof {
                assert(cells_view(values@) =~= cells_view(before).push(added));
            }
        }
        i = i + 1;
    }
    proof {
        assert(cols.take(i as int) =~= cols);
    }
    values
}

/// Names of the columns at the missing positions.
pub fn toasted_columns_names(table: &TableMetadata, toasted: &Vec<usize>) -> (names: Vec<String>)
    ensures
        names.deep_view() == toasted_names(table.columns@, toasted@),
{
    let ghost cols = table.columns@;
    let mut names: Vec<String> = Vec::new();
    let mut i: usize = 0;
    while i < table.columns.len()
        invariant
            i <= cols.len(),
            cols == table.columns@,
            names.deep_view() =~= toasted_names(cols.take(i as int), toasted@),
        decreases cols.len() - i,
    {
        proof {
            assert(cols.take(i + 1).drop_last() =~= cols.take(i as int));
        }
        if position_contains(toasted, table.columns[i].index()) {
            let ghost before = names.deep_view();
            names.push(table.columns[i].name.clone());
            proof {
                assert(names.deep_view() =~= before.push(cols[i as int].name@));
            }
        }
        i = i + 1;
    }
    proof {
        assert(cols.take(i as int) =~= cols);
    }
    names
}

fn position_contains(positions: &Vec<usize>, position: usize) -> (found: bool)
    ensures
        found == positions@.contains(position),
{
    let mut i: usize = 0;
    while i < positions.len()
        invariant
            i <= positions.len(),
            forall|j: int| 0 <= j < i ==> positions@[j] != position,
        decreases positions.len() - i,
    {
        if positions[i] == position {
            assert(positions@[i as int] == position);
            return true;
        }
        i = i + 1;
    }
    false
}

/// The value recorded for a position.
fn value_find(values: &Vec<ToastCell>, position: usize) -> (found: Option<&Option<String>>)
    ensures
        match found {
            Some(v) => value_for(cells_view(values@), position) == Some(v.deep_view()),
            None => value_for(cells_view(values@), position) is None,
        },
{
    let ghost view = cells_view(values@);
    let mut i: usize = 0;
    proof {
        assert(view.skip(0) =~= view);
    }
    while i < values.len()
        invariant
            i <= values.len(),
            view == cells_view(values@),
            value_for(view, position) == value_for(view.skip(i as int), position),
        decreases values.len() - i,
    {
        proof {
            assert(view.skip(i as int).drop_first() =~= view.skip(i + 1));
            assert(view.skip(i as int)[0] == view[i as int]);
        }
        if values[i].position == position {
            return Some(&values[i].value);
        }
        i = i + 1;
    }
    None
}

/// Whether every missing position has a recorded value.
fn covers_exec(values: &Vec<ToastCell>, toasted: &Vec<usize>) -> (all: bool)
    ensures
        all == covers(cells_view(values@), toasted@),
{
    let mut i: usize = 0;
    while i < toasted.len()
        invariant
            i <= toasted.len(),
            forall|j: int|
                0 <= j < i ==> value_for(cells_view(values@), #[trigger] toasted@[j]) is Some,
        decreases toasted.len() - i,
    {
        if value_find(values, toasted[i]).is_none() {
            assert(value_for(cells_view(values@), toasted@[i as int]) is None);
            return false;
        }
        i = i + 1;
    }
    true
}

/// Fill the missing positions of an image from the recorded values.
fn fill(row: &mut Row, toasted: &Vec<usize>, values: &Vec<ToastCell>)
    ensures
        final(row).deep_view() == filled(old(row).deep_view(), toasted@, cells_view(values@)),
{
    let ghost start = row.deep_view();
    let mut i: usize = 0;
    while i < toasted.len()
        invariant
            i <= toasted.len(),
            row.deep_view() == filled(start, toasted@.take(i as int), cells_view(values@)),
        decreases toasted.len() - i,
    {
        let t = toasted[i];
        let ghost before = row.deep_view();
        proof {
            assert(toasted@.take(i + 1).drop_last() =~= toasted@.take(i as int));
        }
        if let Some(v) = value_find(values, t) {
            if t < row.len() {
                let copy = cell_clone(v);
                let ghost new_cell = copy.deep_view();
                row[t] = copy;
                proof {
                    assert(row.deep_view() =~= before.update(t as int, new_cell));
                }
            }
        }
        i = i + 1;
    }
    proof {
        assert(toasted@.take(i as int) =~= toasted@);
    }
}

/// The texts of the row's primary key; `None` when one is missing or NULL.
fn raw_pk_collect(table: &TableMetadata, row: &Row) -> (raw: Option<Vec<String>>)
    ensures
        match raw {
            Some(r) => raw_pk(table.columns@, table.primary_key_columns@, row.deep_view()) == Some(
                r.deep_view(),
            ),
            None => raw_pk(table.columns@, table.primary_key_columns@, row.deep_view()) is None,
        },
{
    let ghost cols = table.columns@;
    let ghost pk = table.primary_key_columns@;
    let ghost view = row.deep_view();
    let mut raw: Vec<String> = Vec::new();
    let mut i: usize = 0;
    proof {
        assert(raw.deep_view() =~= Seq::<Seq<char>>::empty());
        assert(pk.take(0) =~= Seq::<String>::empty());
    }
    while i < table.primary_key_columns.len()
        invariant
            i <= pk.len(),
            cols == table.columns@,
            pk == table.primary_key_columns@,
            view == row.deep_view(),
            raw_pk(cols, pk.take(i as int), view) == Some(raw.deep_view()),
        decreases pk.len() - i,
    {
        proof {
            assert(pk.take(i + 1).drop_last() =~= pk.take(i as int));
        }
        match table.named_cell_get(row, &table.primary_key_columns[i]) {
            Some(Some(text)) => {
                let ghost before = raw.deep_view();
                raw.push(text.clone());
                proof {
                    assert(raw.deep_view() =~= before.push(text@));
                }
            },
            _ => {
                proof {
                    lemma_raw_pk_prefix_missing(cols, pk, view, i + 1);
                }
                return None;
            },
        }
        i = i + 1;
    }
    proof {
        assert(pk.take(i as int) =~= pk);
    }
    Some(raw)
}

proof fn lemma_raw_pk_prefix_missing(
    columns: Seq<ColumnMetadata>,
    pk: Seq<String>,
    row: RowView,
    k: int,
)
    requires
        0 <= k <= pk.len(),
        raw_pk(columns, pk.take(k), row) is None,
    ensures
        raw_pk(columns, pk, row) is None,
    decreases pk.len() - k,
{
    if k < pk.len() {
        assert(pk.take(k + 1).drop_last() =~= pk.take(k));
        lemma_raw_pk_prefix_missing(columns, pk, row, k + 1);
    } else {
        assert(pk.take(k) =~= pk);
    }
}

impl ToastState {
    /// Nothing recorded.
    pub fn new() -> (t: ToastState)
        ensures
            t@ == toast_empty(),
    {
        let t = ToastState { overlay: KeyMap::new(), guard_oids: HashSet::new() };
        proof {
            assert(t@ =~= toast_empty());
        }
        t
    }

    /// Forget the batch.
    pub fn reset(&mut self)
        ensures
            final(self)@ == toast_empty(),
    {
        self.overlay.clear();
        self.guard_oids.clear();
        proof {
            assert(self@ =~= toast_empty());
        }
    }

    /// Void every earlier image of the relation: it was truncated or
    /// redefined. Entries recorded under an old layout are dropped, not just
    /// guarded, because the overlay is consulted before the guard.
    pub fn toast_overlay_relation_invalidate(&mut self, oid: u32)
        ensures
            final(self)@ == relation_voided(old(self)@, oid),
    {
        self.overlay.relation_remove(oid);
        self.guard_oids.insert(oid);
        proof {
            assert(self@ =~= relation_voided(old(self)@, oid));
        }
    }

    fn relations_void(&mut self, oids: &Vec<u32>)
        ensures
            final(self)@ == relations_voided(old(self)@, oids@),
    {
        let ghost start = self@;
        let mut i: usize = 0;
        while i < oids.len()
            invariant
                i <= oids.len(),
                self@ == relations_voided(start, oids@.take(i as int)),
            decreases oids.len() - i,
        {
            proof {
                assert(oids@.take(i + 1).drop_last() =~= oids@.take(i as int));
            }
            self.toast_overlay_relation_invalidate(oids[i]);
            i = i + 1;
        }
        proof {
            assert(oids@.take(i as int) =~= oids@);
        }
    }

    /// Record a complete write of the row.
    pub fn toast_overlay_record_write(
        &mut self,
        tables: &HashMap<u32, TableMetadata>,
        oid: u32,
        row: &Row,
    )
        ensures
            final(self)@ == write_recorded(old(self)@, tables@, oid, row.deep_view()),
    {
        if let Some(table) = tables.get(&oid) {
            if table.has_toastable_column() {
                if let Some(key) = pk_body_render(table, row) {
                    self.overlay.insert(
                        oid,
                        key,
                        ToastOverlayEntry::Values(toastable_values(table, row)),
                    );
                    proof {
                        assert(self@ =~= write_recorded(
                            old(self)@,
                            tables@,
                            oid,
                            row.deep_view(),
                        ));
                    }
                }
            }
        }
    }

    /// Record that the row went away.
    pub fn toast_overlay_record_delete(
        &mut self,
        tables: &HashMap<u32, TableMetadata>,
        oid: u32,
        row: &Row,
    )
        ensures
            final(self)@ == delete_recorded(old(self)@, tables@, oid, row.deep_view()),
    {
        if let Some(table) = tables.get(&oid) {
            if table.has_toastable_column() {
                if let Some(key) = pk_body_render(table, row) {
                    self.overlay.insert(oid, key, ToastOverlayEntry::Deleted);
                    proof {
                        assert(self@ =~= delete_recorded(
                            old(self)@,
                            tables@,
                            oid,
                            row.deep_view(),
                        ));
                    }
                }
            }
        }
    }

    fn vacated_record(&mut self, tables: &HashMap<u32, TableMetadata>, oid: u32, key: &Row)
        ensures
            final(self)@ == vacated_recorded(old(self)@, tables@, oid, key.deep_view()),
    {
        if key.len() > 0 {
            self.toast_overlay_record_delete(tables, oid, key);
        }
    }

    /// Build the fallback event of an incomplete UPDATE. The handler of that
    /// event deletes the row, so the overlay gives its image up.
    pub fn toast_fallback_build(
        &mut self,
        tables: &HashMap<u32, TableMetadata>,
        oid: u32,
        key_data: Row,
        new_row_data: Row,
        toasted: &Vec<usize>,
    ) -> (event: FrameRowEvent)
        ensures
            final(self)@ == delete_recorded(old(self)@, tables@, oid, new_row_data.deep_view()),
            event@ == fallback_event(
                tables@,
                oid,
                key_data.deep_view(),
                new_row_data.deep_view(),
                toasted@,
            ),
    {
        let toasted_columns: Vec<String> = match tables.get(&oid) {
            Some(table) => toasted_columns_names(table, toasted),
            None => {
                let none: Vec<String> = Vec::new();
                proof {
                    assert(none.deep_view() =~= Seq::<Seq<char>>::empty());
                }
                none
            },
        };
        self.toast_overlay_record_delete(tables, oid, &new_row_data);
        FrameRowEvent::UpdateToastFallback {
            relation_oid: oid,
            key_data,
            new_row_data,
            toasted_columns,
        }
    }

    /// Resolve one incomplete UPDATE from the overlay: repair it, fall back, or
    /// queue it for the cache table's image and leave it as it is.
    pub fn toast_resolve_from_overlay(
        &mut self,
        tables: &HashMap<u32, TableMetadata>,
        pending: &mut Vec<PendingRepairSlot>,
        event_idx: usize,
        relation_oid: u32,
        key_data: Row,
        new_row_data: Row,
        toasted: Vec<usize>,
    ) -> (event: FrameRowEvent)
        ensures
            ({
                let after = resolved(
                    old(self)@,
                    tables@,
                    event_idx,
                    relation_oid,
                    key_data.deep_view(),
                    new_row_data.deep_view(),
                    toasted@,
                );
                &&& final(self)@ == after.toast
                &&& event@ == after.event
                &&& pending_view(final(pending)@) == push_some(
                    pending_view(old(pending)@),
                    after.queued,
                )
            }),
    {
        let table = match tables.get(&relation_oid) {
            Some(table) => table,
            None => {
                return FrameRowEvent::Update { relation_oid, key_data, new_row_data };
            },
        };
        let ghost start = self@;
        let ghost key_v = key_data.deep_view();
        let ghost row_v = new_row_data.deep_view();
        let ghost source_v = source_image(key_v, row_v);
        let pk_changed = key_data.len() > 0;
        let source: &Row = if pk_changed {
            &key_data
        } else {
            &new_row_data
        };
        match pk_body_render(table, source) {
            None => {
                self.vacated_record(tables, relation_oid, &key_data);
                self.toast_fallback_build(tables, relation_oid, key_data, new_row_data, &toasted)
            },
            Some(key) => {
                let mut repaired: Option<Row> = None;
                let mut queued: Option<Vec<String>> = None;
                match self.overlay.get(relation_oid, &key) {
                    Some(ToastOverlayEntry::Values(values)) => {
                        if covers_exec(values, &toasted) {
                            let mut full = row_clone(&new_row_data);
                            fill(&mut full, &toasted, values);
                            repaired = Some(full);
                        }
                    },
                    Some(ToastOverlayEntry::Deleted) => {},
                    None => {
                        if !self.guard_oids.contains(&relation_oid) {
                            queued = raw_pk_collect(table, source);
                        }
                    },
                }
                proof {
                    let r = resolution(start, *table, relation_oid, key_v, row_v, toasted@);
                    assert(repaired matches Some(full) ==> r == Resolution::Repaired(
                        full.deep_view(),
                    ));
                    assert(repaired is None && queued is Some ==> r == Resolution::Queue {
                        overlay_key: key@,
                        raw_pk: queued->0.deep_view(),
                    });
                    assert(repaired is None && queued is None ==> r == Resolution::Fallback);
                }
                if let Some(full) = repaired {
                    self.toast_overlay_record_write(tables, relation_oid, &full);
                    self.vacated_record(tables, relation_oid, &key_data);
                    FrameRowEvent::Update { relation_oid, key_data, new_row_data: full }
                } else if let Some(raw) = queued {
                    self.vacated_record(tables, relation_oid, &key_data);
                    let ghost before = pending@;
                    let slot = PendingRepairSlot {
                        event_idx,
                        relation_oid,
                        overlay_key: key,
                        raw_pk: raw,
                    };
                    let ghost added = slot@;
                    pending.push(slot);
                    proof {
                        assert(pending_view(pending@) =~= pending_view(before).push(added));
                    }
                    FrameRowEvent::UpdateToasted { relation_oid, key_data, new_row_data, toasted }
                } else {
                    self.vacated_record(tables, relation_oid, &key_data);
                    self.toast_fallback_build(
                        tables,
                        relation_oid,
                        key_data,
                        new_row_data,
                        &toasted,
                    )
                }
            },
        }
    }
}

/// A copy of a row.
pub fn row_clone(row: &Row) -> (copy: Row)
    ensures
        copy.deep_view() == row.deep_view(),
{
    let mut copy: Row = Vec::new();
    let mut i: usize = 0;
    while i < row.len()
        invariant
            i <= row.len(),
            copy.deep_view() =~= row.deep_view().take(i as int),
        decreases row.len() - i,
    {
        let ghost before = copy.deep_view();
        copy.push(cell_clone(&row[i]));
        proof {
            assert(copy.deep_view() =~= before.push(row.deep_view()[i as int]));
        }
        i = i + 1;
    }
    proof {
        assert(row.deep_view().take(i as int) =~= row.deep_view());
    }
    copy
}

/// The first pass: maintain the overlay in arrival order, repair what it can,
/// and queue what only the cache tables can tell.
pub fn toast_pass_one(
    tables: &HashMap<u32, TableMetadata>,
    toast: &mut ToastState,
    events: Vec<FrameRowEvent>,
) -> (r: (Vec<FrameRowEvent>, Vec<PendingRepairSlot>))
    ensures
        ({
            let after = pass_one(old(toast)@, tables@, events_view(events@));
            &&& final(toast)@ == after.toast
            &&& events_view(r.0@) == after.events
            &&& pending_view(r.1@) == after.pending
        }),
{
    let ghost start = toast@;
    let ghost all = events_view(events@);
    let ghost source = events@;
    let mut out: Vec<FrameRowEvent> = Vec::new();
    let mut pending: Vec<PendingRepairSlot> = Vec::new();
    proof {
        assert(all.take(0) =~= Seq::<EventView>::empty());
        assert(events_view(out@) =~= Seq::<EventView>::empty());
        assert(pending_view(pending@) =~= Seq::<PendingView>::empty());
    }
    for event in it: events
        invariant
            it.seq() == source,
            all == events_view(source),
            out@.len() == it.index(),
            toast@ == pass_one(start, tables@, all.take(it.index())).toast,
            events_view(out@) == pass_one(start, tables@, all.take(it.index())).events,
            pending_view(pending@) == pass_one(start, tables@, all.take(it.index())).pending,
    {
        let ghost i = it.index();
        let ghost before = out@;
        let ghost e = event@;
        let ghost s = pass_one(start, tables@, all.take(i));
        proof {
            assert(all.take(i + 1).drop_last() =~= all.take(i));
            assert(all.take(i + 1).last() == e);
            assert(events_view(out@).len() == out@.len());
        }
        let handled = match event {
            FrameRowEvent::Insert { relation_oid, row_data } => {
                toast.toast_overlay_record_write(tables, relation_oid, &row_data);
                FrameRowEvent::Insert { relation_oid, row_data }
            },
            FrameRowEvent::Update { relation_oid, key_data, new_row_data } => {
                toast.toast_overlay_record_write(tables, relation_oid, &new_row_data);
                toast.vacated_record(tables, relation_oid, &key_data);
                FrameRowEvent::Update { relation_oid, key_data, new_row_data }
            },
            FrameRowEvent::Delete { relation_oid, row_data } => {
                toast.toast_overlay_record_delete(tables, relation_oid, &row_data);
                FrameRowEvent::Delete { relation_oid, row_data }
            },
            FrameRowEvent::Truncate { relation_oids } => {
                toast.relations_void(&relation_oids);
                FrameRowEvent::Truncate { relation_oids }
            },
            FrameRowEvent::UpdateToasted { relation_oid, key_data, new_row_data, toasted } => {
                let idx: usize = out.len();
                toast.toast_resolve_from_overlay(
                    tables,
                    &mut pending,
                    idx,
                    relation_oid,
                    key_data,
                    new_row_data,
                    toasted,
                )
            },
            FrameRowEvent::UpdateToastFallback {
                relation_oid,
                key_data,
                new_row_data,
                toasted_columns,
            } => FrameRowEvent::UpdateToastFallback {
                relation_oid,
                key_data,
                new_row_data,
                toasted_columns,
            },
            FrameRowEvent::Boundary { commit_lsn } => FrameRowEvent::Boundary { commit_lsn },
        };
        let ghost h = handled@;
        out.push(handled);
        proof {
            assert(events_view(out@) =~= events_view(before).push(h));
            assert(pass_one(start, tables@, all.take(i + 1)) == pass_one_step(s, tables@, e));
        }
    }
    proof {
        assert(all.take(all.len() as int) =~= all);
    }
    (out, pending)
}

/// The key texts of the pending repairs.
pub open spec fn raw_keys(slots: Seq<PendingView>) -> Seq<Seq<Seq<char>>> {
    Seq::new(slots.len(), |i: int| slots[i].raw_pk)
}

/// The distinct elements of a list, in order of first occurrence.
pub open spec fn distinct<T>(list: Seq<T>) -> Seq<T>
    decreases list.len(),
{
    if list.len() == 0 {
        list
    } else {
        let rest = distinct(list.drop_last());
        if rest.contains(list.last()) {
            rest
        } else {
            rest.push(list.last())
        }
    }
}

/// Every text as an SQL literal.
pub open spec fn literals(texts: Seq<Seq<char>>) -> Seq<Seq<char>> {
    Seq::new(texts.len(), |i: int| literal(texts[i]))
}

/// A key as it stands in an `IN` list: a tuple when the key is composite.
pub open spec fn key_item(raw: Seq<Seq<char>>, composite: bool) -> Seq<char> {
    if composite {
        "("@ + joined(literals(raw), ", "@) + ")"@
    } else {
        joined(literals(raw), ", "@)
    }
}

pub open spec fn key_items(raws: Seq<Seq<Seq<char>>>, composite: bool) -> Seq<Seq<char>> {
    Seq::new(raws.len(), |i: int| key_item(raws[i], composite))
}

/// Whether every name is a column of the relation.
pub open spec fn all_columns(columns: Seq<ColumnMetadata>, names: Seq<String>) -> bool {
    forall|i: int| 0 <= i < names.len() ==> column_position(columns, (#[trigger] names[i])@) is Some
}

/// Names of the out-of-line columns.
pub open spec fn toastable_names(columns: Seq<ColumnMetadata>) -> Seq<Seq<char>>
    decreases columns.len(),
{
    if columns.len() == 0 {
        Seq::empty()
    } else {
        let rest = toastable_names(columns.drop_last());
        if columns.last().toastable {
            rest.push(columns.last().name@)
        } else {
            rest
        }
    }
}

/// The texts of a list of names.
pub open spec fn texts(names: Seq<String>) -> Seq<Seq<char>> {
    Seq::new(names.len(), |i: int| names[i]@)
}

/// The statement that reads the out-of-line columns of the rows with the given
/// keys, each key asked once. `None` when the relation has no usable key.
pub open spec fn lookup_sql(table: TableMetadata, raws: Seq<Seq<Seq<char>>>) -> Option<Seq<char>> {
    let pk = table.primary_key_columns@;
    if pk.len() == 0 || !all_columns(table.columns@, pk) {
        None
    } else {
        let composite = pk.len() > 1;
        let key_columns = if composite {
            "("@ + joined(texts(pk), ", "@) + ")"@
        } else {
            pk[0]@
        };
        Some(
            "SELECT "@ + joined(texts(pk) + toastable_names(table.columns@), ", "@) + " FROM "@
                + table.schema@ + "."@ + table.name@ + " WHERE "@ + key_columns + " IN ("@ + joined(
                key_items(distinct(raws), composite),
                ", "@,
            ) + ")"@,
        )
    }
}

fn texts_equal(a: &Vec<String>, b: &Vec<String>) -> (same: bool)
    ensures
        same == (a.deep_view() == b.deep_view()),
{
    if a.len() != b.len() {
        assert(a.deep_view().len() != b.deep_view().len());
        return false;
    }
    let mut i: usize = 0;
    while i < a.len()
        invariant
            i <= a.len(),
            a.len() == b.len(),
            forall|j: int| 0 <= j < i ==> a.deep_view()[j] == b.deep_view()[j],
        decreases a.len() - i,
    {
        if !(a[i] == b[i]) {
            assert(a.deep_view()[i as int] != b.deep_view()[i as int]);
            return false;
        }
        i = i + 1;
    }
    proof {
        assert(a.deep_view() =~= b.deep_view());
    }
    true
}

fn literals_collect(raw: &Vec<String>) -> (items: Vec<String>)
    ensures
        items.deep_view() == literals(raw.deep_view()),
{
    let ghost view = raw.deep_view();
    let mut items: Vec<String> = Vec::new();
    let mut i: usize = 0;
    while i < raw.len()
        invariant
            i <= raw.len(),
            view == raw.deep_view(),
            items.deep_view() =~= literals(view.take(i as int)),
        decreases raw.len() - i,
    {
        let ghost before = items.deep_view();
        items.push(literal_escape(raw[i].as_str()));
        proof {
            assert(items.deep_view() =~= before.push(literal(view[i as int])));
            assert(literals(view.take(i + 1)) =~= literals(view.take(i as int)).push(
                literal(view[i as int]),
            ));
        }
        i = i + 1;
    }
    proof {
        assert(view.take(i as int) =~= view);
    }
    items
}

fn key_item_render(raw: &Vec<String>, composite: bool) -> (item: String)
    ensures
        item@ == key_item(raw.deep_view(), composite),
{
    if composite {
        let mut item = "(".to_owned();
        list_append(&mut item, &literals_collect(raw), ", ");
        item.append(")");
        item
    } else {
        let mut item = String::new();
        list_append(&mut item, &literals_collect(raw), ", ");
        proof {
            assert(item@ =~= key_item(raw.deep_view(), composite));
        }
        item
    }
}

/// The slots' keys at the chosen indexes.
spec fn keys_at(raws: Seq<Seq<Seq<char>>>, chosen: Seq<usize>) -> Seq<Seq<Seq<char>>> {
    Seq::new(chosen.len(), |k: int| raws[chosen[k] as int])
}

/// The distinct keys of the pending repairs, as they stand in an `IN` list.
fn key_items_collect(slots: &Vec<PendingRepairSlot>, composite: bool) -> (items: Vec<String>)
    ensures
        items.deep_view() == key_items(
            distinct(raw_keys(pending_view(slots@))),
            composite,
        ),
{
    let ghost raws = raw_keys(pending_view(slots@));
    let mut chosen: Vec<usize> = Vec::new();
    let mut items: Vec<String> = Vec::new();
    let mut i: usize = 0;
    proof {
        assert(raws.take(0) =~= Seq::<Seq<Seq<char>>>::empty());
    }
    while i < slots.len()
        invariant
            i <= slots.len(),
            raws == raw_keys(pending_view(slots@)),
            forall|k: int| 0 <= k < chosen@.len() ==> (#[trigger] chosen@[k]) < i,
            keys_at(raws, chosen@) =~= distinct(raws.take(i as int)),
            items.deep_view() =~= key_items(distinct(raws.take(i as int)), composite),
        decreases slots.len() - i,
    {
        let raw = &slots[i].raw_pk;
        let ghost so_far = distinct(raws.take(i as int));
        proof {
            assert(raws.take(i + 1).drop_last() =~= raws.take(i as int));
            assert(raws[i as int] == raw.deep_view());
        }
        let mut seen = false;
        let mut k: usize = 0;
        while k < chosen.len()
            invariant
                k <= chosen.len(),
                i < slots.len(),
                raw == slots@[i as int].raw_pk,
                raws == raw_keys(pending_view(slots@)),
                forall|m: int| 0 <= m < chosen@.len() ==> (#[trigger] chosen@[m]) < i,
                so_far == keys_at(raws, chosen@),
                seen <==> exists|m: int| 0 <= m < k && #[trigger] so_far[m] == raw.deep_view(),
            decreases chosen.len() - k,
        {
            if texts_equal(&slots[chosen[k]].raw_pk, raw) {
                assert(so_far[k as int] == raw.deep_view());
                seen = true;
            }
            k = k + 1;
        }
        proof {
            assert(seen == so_far.contains(raw.deep_view()));
        }
        if !seen {
            let ghost before = items.deep_view();
            let ghost before_chosen = chosen@;
            items.push(key_item_render(raw, composite));
            chosen.push(i);
            proof {
                assert(items.deep_view() =~= before.push(key_item(raw.deep_view(), composite)));
                assert(keys_at(raws, chosen@) =~= so_far.push(raw.deep_view()));
                assert(key_items(so_far.push(raw.deep_view()), composite) =~= key_items(
                    so_far,
                    composite,
                ).push(key_item(raw.deep_view(), composite)));
            }
        }
        i = i + 1;
    }
    proof {
        assert(raws.take(i as int) =~= raws);
    }
    items
}

fn lookup_columns_collect(table: &TableMetadata) -> (names: Vec<String>)
    ensures
        names.deep_view() == texts(table.primary_key_columns@) + toastable_names(table.columns@),
{
    let ghost cols = table.columns@;
    let ghost pk = table.primary_key_columns@;
    let mut names: Vec<String> = names_clone(&table.primary_key_columns);
    let mut i: usize = 0;
    while i < table.columns.len()
        invariant
            i <= cols.len(),
            cols == table.columns@,
            names.deep_view() =~= texts(pk) + toastable_names(cols.take(i as int)),
        decreases cols.len() - i,
    {
        proof {
            assert(cols.take(i + 1).drop_last() =~= cols.take(i as int));
        }
        if table.columns[i].toastable {
            let ghost before = names.deep_view();
            names.push(table.columns[i].name.clone());
            proof {
                assert(names.deep_view() =~= before.push(cols[i as int].name@));
            }
        }
        i = i + 1;
    }
    proof {
        assert(cols.take(i as int) =~= cols);
    }
    names
}

/// A copy of a list of names.
fn names_clone(names: &Vec<String>) -> (copy: Vec<String>)
    ensures
        copy.deep_view() == texts(names@),
        copy.len() == names.len(),
{
    let mut copy: Vec<String> = Vec::new();
    let mut i: usize = 0;
    while i < names.len()
        invariant
            i <= names.len(),
            copy.deep_view() =~= texts(names@.take(i as int)),
        decreases names.len() - i,
    {
        let ghost before = copy.deep_view();
        copy.push(names[i].clone());
        proof {
            assert(copy.deep_view() =~= before.push(names@[i as int]@));
            assert(texts(names@.take(i + 1)) =~= texts(names@.take(i as int)).push(
                names@[i as int]@,
            ));
        }
        i = i + 1;
    }
    proof {
        assert(names@.take(i as int) =~= names@);
        assert(copy.deep_view().len() == names@.len());
    }
    copy
}

/// The statement that reads the cache table's images for a relation's pending
/// repairs. `None` when the relation has no usable key: its repairs fall back.
pub fn toast_lookup_sql(table: &TableMetadata, slots: &Vec<PendingRepairSlot>) -> (sql: Option<
    String,
>)
    ensures
        match sql {
            Some(s) => lookup_sql(*table, raw_keys(pending_view(slots@))) == Some(s@),
            None => lookup_sql(*table, raw_keys(pending_view(slots@))) is None,
        },
{
    let n: usize = table.primary_key_columns.len();
    if n == 0 {
        return None;
    }
    let mut i: usize = 0;
    while i < n
        invariant
            i <= n,
            n == table.primary_key_columns@.len(),
            forall|j: int|
                0 <= j < i ==> column_position(
                    table.columns@,
                    (#[trigger] table.primary_key_columns@[j])@,
                ) is Some,
        decreases n - i,
    {
        if table.column_find(&table.primary_key_columns[i]).is_none() {
            assert(column_position(
                table.columns@,
                table.primary_key_columns@[i as int]@,
            ) is None);
            return None;
        }
        i = i + 1;
    }
    let composite = n > 1;
    let mut sql = "SELECT ".to_owned();
    list_append(&mut sql, &lookup_columns_collect(table), ", ");
    sql.append(" FROM ");
    sql.append(table.schema.as_str());
    sql.append(".");
    sql.append(table.name.as_str());
    sql.append(" WHERE ");
    let mut key_columns;
    if composite {
        key_columns = "(".to_owned();
        list_append(&mut key_columns, &names_clone(&table.primary_key_columns), ", ");
        key_columns.append(")");
    } else {
        key_columns = table.primary_key_columns[0].clone();
    }
    sql.append(key_columns.as_str());
    sql.append(" IN (");
    list_append(&mut sql, &key_items_collect(slots, composite), ", ");
    sql.append(")");
    Some(sql)
}

/// One row of the cache table's images: its key and its out-of-line cells.
pub struct LookupRow {
    pub pk: Vec<String>,
    pub values: Vec<ToastCell>,
}

/// The mathematical value of a [`LookupRow`].
pub type LookupView = (Seq<Seq<char>>, CellsView);

pub open spec fn lookup_row_view(row: LookupRow) -> LookupView {
    (row.pk.deep_view(), cells_view(row.values@))
}

pub open spec fn lookup_view(rows: Seq<LookupRow>) -> Seq<LookupView> {
    Seq::new(rows.len(), |i: int| lookup_row_view(rows[i]))
}

/// The first `n` cells of a result row; `None` when one is missing or NULL.
pub open spec fn leading_texts(row: RowView, n: nat) -> Option<Seq<Seq<char>>>
    decreases n,
{
    if n == 0 {
        Some(Seq::empty())
    } else {
        match (leading_texts(row, (n - 1) as nat), cell_or_null(row, n - 1)) {
            (Some(texts), Some(text)) => Some(texts.push(text)),
            _ => None,
        }
    }
}

/// The out-of-line cells of a result row, which follow its `n` key cells.
pub open spec fn trailing_cells(columns: Seq<ColumnMetadata>, row: RowView, n: nat) -> CellsView
    decreases columns.len(),
{
    if columns.len() == 0 {
        Seq::empty()
    } else {
        let rest = trailing_cells(columns.drop_last(), row, n);
        if columns.last().toastable {
            rest.push(
                (columns.last().index_spec() as usize, cell_or_null(row, (n + rest.len()) as int)),
            )
        } else {
            rest
        }
    }
}

/// The images in a lookup's result rows; a row with a NULL key is none.
pub open spec fn lookup_images(table: TableMetadata, rows: Seq<RowView>) -> Seq<LookupView>
    decreases rows.len(),
{
    if rows.len() == 0 {
        Seq::empty()
    } else {
        let rest = lookup_images(table, rows.drop_last());
        let n = table.primary_key_columns@.len();
        match leading_texts(rows.last(), n) {
            Some(pk) => rest.push((pk, trailing_cells(table.columns@, rows.last(), n))),
            None => rest,
        }
    }
}

/// The image with the given key: the last one, should the result repeat it.
pub open spec fn image_of(images: Seq<LookupView>, raw: Seq<Seq<char>>) -> Option<CellsView>
    decreases images.len(),
{
    if images.len() == 0 {
        None
    } else if images.last().0 == raw {
        Some(images.last().1)
    } else {
        image_of(images.drop_last(), raw)
    }
}

/// The values of a list of rows.
pub open spec fn rows_view(rows: Seq<Row>) -> Seq<RowView> {
    Seq::new(rows.len(), |i: int| rows[i].deep_view())
}

fn leading_texts_collect(row: &Row, n: usize) -> (texts: Option<Vec<String>>)
    ensures
        match texts {
            Some(t) => leading_texts(row.deep_view(), n as nat) == Some(t.deep_view()),
            None => leading_texts(row.deep_view(), n as nat) is None,
        },
    decreases n,
{
    if n == 0 {
        let none: Vec<String> = Vec::new();
        proof {
            assert(none.deep_view() =~= Seq::<Seq<char>>::empty());
        }
        return Some(none);
    }
    match leading_texts_collect(row, n - 1) {
        None => None,
        Some(mut texts) => {
            let ghost before = texts.deep_view();
            match cell_or_null_get(row, n - 1) {
                Some(text) => {
                    let ghost added = text@;
                    texts.push(text);
                    proof {
                        assert(texts.deep_view() =~= before.push(added));
                    }
                    Some(texts)
                },
                None => None,
            }
        },
    }
}

/// Read a lookup's result rows: key cells first, then the out-of-line columns.
pub fn toast_lookup_rows(table: &TableMetadata, rows: &Vec<Row>) -> (images: Vec<LookupRow>)
    ensures
        lookup_view(images@) == lookup_images(*table, rows_view(rows@)),
{
    let ghost cols = table.columns@;
    let n: usize = table.primary_key_columns.len();
    let ghost views = rows_view(rows@);
    let mut images: Vec<LookupRow> = Vec::new();
    let mut i: usize = 0;
    while i < rows.len()
        invariant
            i <= rows.len(),
            n == table.primary_key_columns@.len(),
            cols == table.columns@,
            views == rows_view(rows@),
            lookup_view(images@) =~= lookup_images(*table, views.take(i as int)),
        decreases rows.len() - i,
    {
        proof {
            assert(views.take(i + 1).drop_last() =~= views.take(i as int));
            assert(views.take(i + 1).last() == rows@[i as int].deep_view());
        }
        if let Some(pk) = leading_texts_collect(&rows[i], n) {
            let values = trailing_cells_collect(table, &rows[i], n);
            let ghost before = images@;
            let image = LookupRow { pk, values };
            let ghost added = lookup_row_view(image);
            images.push(image);
            proof {
                assert(lookup_view(images@) =~= lookup_view(before).push(added));
            }
        }
        i = i + 1;
    }
    proof {
        assert(views.take(i as int) =~= views);
    }
    images
}

fn trailing_cells_collect(table: &TableMetadata, row: &Row, n: usize) -> (values: Vec<ToastCell>)
    ensures
        cells_view(values@) == trailing_cells(table.columns@, row.deep_view(), n as nat),
{
    let ghost cols = table.columns@;
    let mut values: Vec<ToastCell> = Vec::new();
    let mut i: usize = 0;
    while i < table.columns.len()
        invariant
            i <= cols.len(),
            cols == table.columns@,
            cells_view(values@) =~= trailing_cells(cols.take(i as int), row.deep_view(), n as nat),
        decreases cols.len() - i,
    {
        proof {
            assert(cols.take(i + 1).drop_last() =~= cols.take(i as int));
        }
        if table.columns[i].toastable {
            let ghost before = values@;
            let value = if n < row.len() && values.len() < row.len() - n {
                cell_or_null_get(row, n + values.len())
            } else {
                None
            };
            let cell = ToastCell { position: table.columns[i].index(), value };
            let ghost added = (cell.position, cell.value.deep_view());
            values.push(cell);
            proof {
                assert(cells_view(values@) =~= cells_view(before).push(added));
            }
        }
        i = i + 1;
    }
    proof {
        assert(cols.take(i as int) =~= cols);
    }
    values
}

fn image_find<'a>(images: &'a Vec<LookupRow>, raw: &Vec<String>) -> (found: Option<
    &'a Vec<ToastCell>,
>)
    ensures
        match found {
            Some(v) => image_of(lookup_view(images@), raw.deep_view()) == Some(cells_view(v@)),
            None => image_of(lookup_view(images@), raw.deep_view()) is None,
        },
{
    let ghost view = lookup_view(images@);
    let mut i: usize = images.len();
    proof {
        assert(view.take(i as int) =~= view);
    }
    while i > 0
        invariant
            i <= images.len(),
            view == lookup_view(images@),
            image_of(view, raw.deep_view()) == image_of(view.take(i as int), raw.deep_view()),
        decreases i,
    {
        proof {
            assert(view.take(i as int).drop_last() =~= view.take(i - 1));
            assert(view.take(i as int).last() == view[i - 1]);
        }
        if texts_equal(&images[i - 1].pk, raw) {
            return Some(&images[i - 1].values);
        }
        i = i - 1;
    }
    None
}

/// The second pass over one relation's pending repairs so far. `chain` is what
/// the repairs so far did to the relation's rows: a queued event is a write
/// the overlay never saw.
#[verifier::ext_equal]
pub struct PassTwoView {
    pub toast: ToastView,
    pub events: Seq<EventView>,
    pub chain: Map<RowKey, OverlayView>,
}

/// Where a pending repair takes its values from.
pub open spec fn source_values(
    chain: Map<RowKey, OverlayView>,
    images: Option<Seq<LookupView>>,
    slot: PendingView,
) -> Option<CellsView> {
    let k = (slot.relation_oid, slot.overlay_key);
    if chain.contains_key(k) {
        match chain[k] {
            OverlayView::Values(values) => Some(values),
            OverlayView::Deleted => None,
        }
    } else {
        match images {
            Some(rows) => image_of(rows, slot.raw_pk),
            None => None,
        }
    }
}

/// The chain after a repaired event: its image stands under the row's resulting
/// key, and a vacated old key is dead.
pub open spec fn chain_repaired(
    chain: Map<RowKey, OverlayView>,
    tables: Map<u32, TableMetadata>,
    slot: PendingView,
    key: RowView,
    row: RowView,
) -> Map<RowKey, OverlayView> {
    let oid = slot.relation_oid;
    if !tables.contains_key(oid) {
        chain
    } else {
        let post = OverlayView::Values(toastable_cells(tables[oid].columns@, row));
        if key.len() > 0 {
            let vacated = chain.insert((oid, slot.overlay_key), OverlayView::Deleted);
            match pk_body(tables[oid], row) {
                Some(k) => vacated.insert((oid, k), post),
                None => vacated,
            }
        } else {
            chain.insert((oid, slot.overlay_key), post)
        }
    }
}

/// The chain after a fallback: neither key's image may be used again.
pub open spec fn chain_fallen_back(
    chain: Map<RowKey, OverlayView>,
    tables: Map<u32, TableMetadata>,
    slot: PendingView,
    key: RowView,
    row: RowView,
) -> Map<RowKey, OverlayView> {
    let oid = slot.relation_oid;
    let vacated = chain.insert((oid, slot.overlay_key), OverlayView::Deleted);
    if key.len() > 0 && tables.contains_key(oid) && pk_body(tables[oid], row) is Some {
        vacated.insert((oid, pk_body(tables[oid], row)->0), OverlayView::Deleted)
    } else {
        vacated
    }
}

/// The second pass's treatment of one pending repair.
pub open spec fn pass_two_step(
    s: PassTwoView,
    tables: Map<u32, TableMetadata>,
    images: Option<Seq<LookupView>>,
    slot: PendingView,
) -> PassTwoView {
    let i = slot.event_idx as int;
    if 0 <= i < s.events.len() {
        match s.events[i] {
            EventView::UpdateToasted { relation_oid, key_data, new_row_data, toasted } => {
                let values = source_values(s.chain, images, slot);
                let row = match values {
                    Some(v) => filled(new_row_data, toasted, v),
                    None => new_row_data,
                };
                if values matches Some(v) && covers(v, toasted) {
                    PassTwoView {
                        events: s.events.update(
                            i,
                            EventView::Update { relation_oid, key_data, new_row_data: row },
                        ),
                        chain: chain_repaired(s.chain, tables, slot, key_data, row),
                        ..s
                    }
                } else {
                    PassTwoView {
                        toast: delete_recorded(s.toast, tables, relation_oid, row),
                        events: s.events.update(
                            i,
                            fallback_event(tables, relation_oid, key_data, row, toasted),
                        ),
                        chain: chain_fallen_back(s.chain, tables, slot, key_data, row),
                    }
                }
            },
            _ => s,
        }
    } else {
        s
    }
}

/// The second pass over one relation's pending repairs, in arrival order.
pub open spec fn pass_two_fold(
    start: PassTwoView,
    tables: Map<u32, TableMetadata>,
    images: Option<Seq<LookupView>>,
    slots: Seq<PendingView>,
) -> PassTwoView
    decreases slots.len(),
{
    if slots.len() == 0 {
        start
    } else {
        pass_two_step(
            pass_two_fold(start, tables, images, slots.drop_last()),
            tables,
            images,
            slots.last(),
        )
    }
}

/// The overlay with the chain's final images added where it has no entry: an
/// entry it has stems from a later write.
pub open spec fn chain_flushed(
    overlay: Map<RowKey, OverlayView>,
    chain: Map<RowKey, OverlayView>,
) -> Map<RowKey, OverlayView> {
    Map::new(
        |k: RowKey| overlay.contains_key(k) || chain.contains_key(k) && chain[k] is Values,
        |k: RowKey| if overlay.contains_key(k) { overlay[k] } else { chain[k] },
    )
}

/// The second pass over one relation's pending repairs. `images` are the cache
/// table's, or `None` when they could not be read.
pub open spec fn pass_two(
    toast: ToastView,
    events: Seq<EventView>,
    tables: Map<u32, TableMetadata>,
    images: Option<Seq<LookupView>>,
    slots: Seq<PendingView>,
) -> (ToastView, Seq<EventView>) {
    let s = pass_two_fold(
        PassTwoView { toast, events, chain: Map::empty() },
        tables,
        images,
        slots,
    );
    (
        ToastView { overlay: chain_flushed(s.toast.overlay, s.chain), ..s.toast },
        s.events,
    )
}

/// Repair or give up one pending repair.
fn repair_slot(
    tables: &HashMap<u32, TableMetadata>,
    toast: &mut ToastState,
    events: &mut Vec<FrameRowEvent>,
    chain: &mut KeyMap<ToastOverlayEntry>,
    images: Option<&Vec<LookupRow>>,
    slot: &PendingRepairSlot,
)
    ensures
        ({
            let after = pass_two_step(
                PassTwoView {
                    toast: old(toast)@,
                    events: events_view(old(events)@),
                    chain: overlay_view(old(chain)@),
                },
                tables@,
                match images {
                    Some(rows) => Some(lookup_view(rows@)),
                    None => None,
                },
                slot@,
            );
            &&& final(toast)@ == after.toast
            &&& events_view(final(events)@) == after.events
            &&& overlay_view(final(chain)@) == after.chain
        }),
{
    let idx = slot.event_idx;
    if idx >= events.len() {
        return;
    }
    let ghost start = events@;
    let ghost chain_start = overlay_view(chain@);
    let ghost images_v = match images {
        Some(rows) => Some(lookup_view(rows@)),
        None => None,
    };
    let mut taken = FrameRowEvent::Boundary { commit_lsn: 0 };
    std::mem::swap(&mut taken, &mut events[idx]);
    assert(taken == start[idx as int]);
    match taken {
        FrameRowEvent::UpdateToasted { relation_oid, key_data, new_row_data, toasted } => {
            let ghost row_v = new_row_data.deep_view();
            let ghost key_v = key_data.deep_view();
            let mut row = new_row_data;
            let mut repaired = false;
            match chain.get(slot.relation_oid, &slot.overlay_key) {
                Some(ToastOverlayEntry::Values(values)) => {
                    repaired = covers_exec(values, &toasted);
                    fill(&mut row, &toasted, values);
                },
                Some(ToastOverlayEntry::Deleted) => {},
                None => {
                    if let Some(rows) = images {
                        if let Some(values) = image_find(rows, &slot.raw_pk) {
                            repaired = covers_exec(values, &toasted);
                            fill(&mut row, &toasted, values);
                        }
                    }
                },
            }
            let ghost filled_v = row.deep_view();
            proof {
                let values = source_values(chain_start, images_v, slot@);
                assert(filled_v == match values {
                    Some(v) => filled(row_v, toasted@, v),
                    None => row_v,
                });
                assert(repaired == (values matches Some(v) && covers(v, toasted@)));
            }
            if repaired {
                if let Some(table) = tables.get(&slot.relation_oid) {
                    let post = ToastOverlayEntry::Values(toastable_values(table, &row));
                    if key_data.len() > 0 {
                        chain.insert(
                            slot.relation_oid,
                            slot.overlay_key.clone(),
                            ToastOverlayEntry::Deleted,
                        );
                        if let Some(key) = pk_body_render(table, &row) {
                            chain.insert(slot.relation_oid, key, post);
                        }
                    } else {
                        chain.insert(slot.relation_oid, slot.overlay_key.clone(), post);
                    }
                }
                proof {
                    assert(overlay_view(chain@) =~= chain_repaired(
                        chain_start,
                        tables@,
                        slot@,
                        key_v,
                        filled_v,
                    ));
                }
                events[idx] = FrameRowEvent::Update { relation_oid, key_data, new_row_data: row };
            } else {
                chain.insert(
                    slot.relation_oid,
                    slot.overlay_key.clone(),
                    ToastOverlayEntry::Deleted,
                );
                if key_data.len() > 0 {
                    if let Some(table) = tables.get(&slot.relation_oid) {
                        if let Some(key) = pk_body_render(table, &row) {
                            chain.insert(slot.relation_oid, key, ToastOverlayEntry::Deleted);
                        }
                    }
                }
                proof {
                    assert(overlay_view(chain@) =~= chain_fallen_back(
                        chain_start,
                        tables@,
                        slot@,
                        key_v,
                        filled_v,
                    ));
                }
                events[idx] = toast.toast_fallback_build(
                    tables,
                    relation_oid,
                    key_data,
                    row,
                    &toasted,
                );
            }
            proof {
                assert(events_view(events@) =~= events_view(start).update(
                    idx as int,
                    events@[idx as int]@,
                ));
            }
        },
        other => {
            events[idx] = other;
            proof {
                assert(events@ =~= start);
            }
        },
    }
}

/// The second pass over one relation's pending repairs: complete each from the
/// images the batch's earlier repairs left, or else from the cache table's, and
/// let the rest fall back. `images` is `None` when the cache table could not be
/// read.
pub fn toast_pass_two(
    tables: &HashMap<u32, TableMetadata>,
    toast: &mut ToastState,
    events: &mut Vec<FrameRowEvent>,
    images: Option<&Vec<LookupRow>>,
    slots: &Vec<PendingRepairSlot>,
)
    ensures
        (final(toast)@, events_view(final(events)@)) == pass_two(
            old(toast)@,
            events_view(old(events)@),
            tables@,
            match images {
                Some(rows) => Some(lookup_view(rows@)),
                None => None,
            },
            pending_view(slots@),
        ),
{
    let ghost images_v = match images {
        Some(rows) => Some(lookup_view(rows@)),
        None => None,
    };
    let ghost all = pending_view(slots@);
    let mut chain: KeyMap<ToastOverlayEntry> = KeyMap::new();
    let ghost start = PassTwoView {
        toast: toast@,
        events: events_view(events@),
        chain: Map::empty(),
    };
    let mut i: usize = 0;
    proof {
        assert(overlay_view(chain@) =~= Map::<RowKey, OverlayView>::empty());
        assert(all.take(0) =~= Seq::<PendingView>::empty());
    }
    while i < slots.len()
        invariant
            i <= slots.len(),
            all == pending_view(slots@),
            images_v == (match images {
                Some(rows) => Some(lookup_view(rows@)),
                None => None::<Seq<LookupView>>,
            }),
            pass_two_fold(start, tables@, images_v, all.take(i as int)) == (PassTwoView {
                toast: toast@,
                events: events_view(events@),
                chain: overlay_view(chain@),
            }),
        decreases slots.len() - i,
    {
        proof {
            assert(all.take(i + 1).drop_last() =~= all.take(i as int));
            assert(all.take(i + 1).last() == slots@[i as int]@);
        }
        repair_slot(tables, toast, events, &mut chain, images, &slots[i]);
        i = i + 1;
    }
    proof {
        assert(all.take(i as int) =~= all);
    }
    let ghost folded = overlay_view(chain@);
    let ghost overlay = toast@.overlay;
    let ghost guards = toast@.guards;
    let mut more = true;
    while more
        invariant
            toast@.guards == guards,
            !more ==> chain@ == Map::<RowKey, ToastOverlayEntry>::empty(),
            chain_flushed(toast@.overlay, overlay_view(chain@)) =~= chain_flushed(overlay, folded),
        decreases chain@.len(), if more { 1int } else { 0int },
    {
        let ghost before = overlay_view(chain@);
        let ghost overlay_before = toast@.overlay;
        match chain.pop() {
            Some((oid, key, entry)) => {
                let ghost k = (oid, key@);
                let ghost value = entry@;
                if let ToastOverlayEntry::Values(values) = entry {
                    if !toast.overlay.contains(oid, &key) {
                        toast.overlay.insert(oid, key, ToastOverlayEntry::Values(values));
                        proof {
                            assert(toast@.overlay =~= overlay_before.insert(k, value));
                        }
                    }
                }
                proof {
                    assert(overlay_view(chain@) =~= before.remove(k));
                    assert(chain_flushed(toast@.overlay, overlay_view(chain@)) =~= chain_flushed(
                        overlay_before,
                        before,
                    ));
                }
            },
            None => {
                more = false;
            },
        }
    }
    proof {
        assert(overlay_view(chain@) =~= Map::<RowKey, OverlayView>::empty());
        assert(toast@.overlay =~= chain_flushed(toast@.overlay, overlay_view(chain@)));
        assert(toast@ =~= (ToastView { overlay: chain_flushed(overlay, folded), guards }));
    }
}

/// Whether an event still awaits repair.
pub open spec fn awaits_repair(e: EventView) -> bool {
    e is UpdateToasted
}

/// Whether a repair of the event at `i` is pending.
pub open spec fn is_pending(pending: Seq<PendingView>, i: int) -> bool {
    exists|k: int| 0 <= k < pending.len() && (#[trigger] pending[k]).event_idx == i
}

/// The first pass keeps every event's place, and leaves unrepaired exactly the
/// events it queued.
pub proof fn pass_one_queues_what_it_leaves(
    toast: ToastView,
    tables: Map<u32, TableMetadata>,
    events: Seq<EventView>,
)
    requires
        events.len() <= usize::MAX,
    ensures
        ({
            let after = pass_one(toast, tables, events);
            &&& after.events.len() == events.len()
            &&& forall|i: int|
                0 <= i < events.len() ==> (awaits_repair(#[trigger] after.events[i])
                    <==> is_pending(after.pending, i))
            &&& forall|k: int|
                0 <= k < after.pending.len() ==> (#[trigger] after.pending[k]).event_idx
                    < events.len()
        }),
    decreases events.len(),
{
    if events.len() > 0 {
        let short = events.drop_last();
        pass_one_queues_what_it_leaves(toast, tables, short);
        let before = pass_one(toast, tables, short);
        let after = pass_one(toast, tables, events);
        let n = short.len() as int;
        assert forall|i: int| 0 <= i < events.len() implies (awaits_repair(
            #[trigger] after.events[i],
        ) <==> is_pending(after.pending, i)) by {
            if i < n {
                assert(after.events[i] == before.events[i]);
                if is_pending(before.pending, i) {
                    let k = choose|k: int|
                        0 <= k < before.pending.len() && (#[trigger] before.pending[k]).event_idx
                            == i;
                    assert(after.pending[k].event_idx == i);
                }
                if is_pending(after.pending, i) {
                    let k = choose|k: int|
                        0 <= k < after.pending.len() && (#[trigger] after.pending[k]).event_idx
                            == i;
                    assert(k < before.pending.len());
                    assert(before.pending[k].event_idx == i);
                }
            } else {
                if after.pending.len() > before.pending.len() {
                    assert(after.pending[before.pending.len() as int].event_idx == n);
                }
                if is_pending(after.pending, i) {
                    let k = choose|k: int|
                        0 <= k < after.pending.len() && (#[trigger] after.pending[k]).event_idx
                            == i;
                    if k < before.pending.len() {
                        assert(before.pending[k].event_idx < n);
                    }
                }
            }
        }
        assert forall|k: int| 0 <= k < after.pending.len() implies (
        #[trigger] after.pending[k]).event_idx < events.len() by {
            if k < before.pending.len() {
                assert(before.pending[k].event_idx < n);
            }
        }
    }
}

/// The second pass settles the events of its slots and leaves the others as
/// they are.
pub proof fn pass_two_settles_its_slots(
    start: PassTwoView,
    tables: Map<u32, TableMetadata>,
    images: Option<Seq<LookupView>>,
    slots: Seq<PendingView>,
)
    ensures
        ({
            let after = pass_two_fold(start, tables, images, slots);
            &&& after.events.len() == start.events.len()
            &&& forall|i: int|
                0 <= i < start.events.len() && is_pending(slots, i) ==> !awaits_repair(
                    #[trigger] after.events[i],
                )
            &&& forall|i: int|
                0 <= i < start.events.len() && !is_pending(slots, i) ==> (#[trigger] after.events[i])
                    == start.events[i]
            &&& forall|i: int|
                0 <= i < start.events.len() && awaits_repair(#[trigger] after.events[i])
                    ==> awaits_repair(start.events[i])
        }),
    decreases slots.len(),
{
    if slots.len() > 0 {
        let short = slots.drop_last();
        pass_two_settles_its_slots(start, tables, images, short);
        let before = pass_two_fold(start, tables, images, short);
        let after = pass_two_fold(start, tables, images, slots);
        let last = slots.last();
        assert forall|i: int| 0 <= i < start.events.len() && is_pending(slots, i) implies
            !awaits_repair(#[trigger] after.events[i]) by {
            let k = choose|k: int| 0 <= k < slots.len() && (#[trigger] slots[k]).event_idx == i;
            if k < short.len() {
                assert(short[k].event_idx == i);
                assert(is_pending(short, i));
                assert(!awaits_repair(before.events[i]));
            }
        }
        assert forall|i: int| 0 <= i < start.events.len() && !is_pending(slots, i) implies (
        #[trigger] after.events[i]) == start.events[i] by {
            assert(slots[slots.len() - 1] == last);
            assert(last.event_idx != i);
            if is_pending(short, i) {
                let k = choose|k: int| 0 <= k < short.len() && (#[trigger] short[k]).event_idx == i;
                assert(slots[k].event_idx == i);
            }
            assert(before.events[i] == start.events[i]);
        }
        assert forall|i: int|
            0 <= i < start.events.len() && awaits_repair(#[trigger] after.events[i]) implies
            awaits_repair(start.events[i]) by {
            if after.events[i] != before.events[i] {
                assert(!awaits_repair(after.events[i]));
            }
            assert(awaits_repair(before.events[i]));
        }
    }
}

/// The second pass run over several groups of pending repairs, each with the
/// images read for it.
pub open spec fn pass_two_all(
    toast: ToastView,
    events: Seq<EventView>,
    tables: Map<u32, TableMetadata>,
    groups: Seq<(Option<Seq<LookupView>>, Seq<PendingView>)>,
) -> (ToastView, Seq<EventView>)
    decreases groups.len(),
{
    if groups.len() == 0 {
        (toast, events)
    } else {
        let before = pass_two_all(toast, events, tables, groups.drop_last());
        pass_two(before.0, before.1, tables, groups.last().0, groups.last().1)
    }
}

proof fn lemma_groups_settle(
    toast: ToastView,
    events: Seq<EventView>,
    tables: Map<u32, TableMetadata>,
    groups: Seq<(Option<Seq<LookupView>>, Seq<PendingView>)>,
)
    ensures
        ({
            let after = pass_two_all(toast, events, tables, groups).1;
            &&& after.len() == events.len()
            &&& forall|i: int|
                0 <= i < events.len() && awaits_repair(#[trigger] after[i]) ==> awaits_repair(
                    events[i],
                ) && forall|g: int| 0 <= g < groups.len() ==> !is_pending((#[trigger] groups[g]).1, i)
        }),
    decreases groups.len(),
{
    if groups.len() > 0 {
        let short = groups.drop_last();
        lemma_groups_settle(toast, events, tables, short);
        let before = pass_two_all(toast, events, tables, short);
        let after = pass_two_all(toast, events, tables, groups).1;
        let start = PassTwoView { toast: before.0, events: before.1, chain: Map::empty() };
        pass_two_settles_its_slots(start, tables, groups.last().0, groups.last().1);
        assert forall|i: int|
            0 <= i < events.len() && awaits_repair(#[trigger] after[i]) implies awaits_repair(
            events[i],
        ) && forall|g: int| 0 <= g < groups.len() ==> !is_pending((#[trigger] groups[g]).1, i) by {
            assert(awaits_repair(before.1[i]));
            assert forall|g: int| 0 <= g < groups.len() implies !is_pending(
                (#[trigger] groups[g]).1,
                i,
            ) by {
                if g < short.len() {
                    assert(short[g] == groups[g]);
                    assert(!is_pending(short[g].1, i));
                }
            }
        }
    }
}

/// No incomplete image survives the repair, whatever the cache tables answer:
/// once every queued repair has been through the second pass, every event is
/// complete or a fallback.
pub proof fn repair_leaves_no_incomplete_image(
    toast: ToastView,
    tables: Map<u32, TableMetadata>,
    events: Seq<EventView>,
    groups: Seq<(Option<Seq<LookupView>>, Seq<PendingView>)>,
)
    requires
        events.len() <= usize::MAX,
        forall|k: int|
            0 <= k < pass_one(toast, tables, events).pending.len() ==> exists|g: int|
                0 <= g < groups.len() && (#[trigger] groups[g]).1.contains(
                    #[trigger] pass_one(toast, tables, events).pending[k],
                ),
    ensures
        ({
            let first = pass_one(toast, tables, events);
            let after = pass_two_all(first.toast, first.events, tables, groups).1;
            forall|i: int| 0 <= i < after.len() ==> !awaits_repair(#[trigger] after[i])
        }),
{
    let first = pass_one(toast, tables, events);
    let after = pass_two_all(first.toast, first.events, tables, groups).1;
    pass_one_queues_what_it_leaves(toast, tables, events);
    lemma_groups_settle(first.toast, first.events, tables, groups);
    assert forall|i: int| 0 <= i < after.len() implies !awaits_repair(#[trigger] after[i]) by {
        if awaits_repair(after[i]) {
            assert(awaits_repair(first.events[i]));
            let k = choose|k: int|
                0 <= k < first.pending.len() && (#[trigger] first.pending[k]).event_idx == i;
            let g = choose|g: int|
                0 <= g < groups.len() && (#[trigger] groups[g]).1.contains(first.pending[k]);
            let m = choose|m: int|
                0 <= m < groups[g].1.len() && groups[g].1[m] == first.pending[k];
            assert(groups[g].1[m].event_idx == i);
            assert(is_pending(groups[g].1, i));
        }
    }
}

proof fn lemma_value_for_push(values: CellsView, cell: (usize, Option<Seq<char>>), position: usize)
    ensures
        value_for(values.push(cell), position) == match value_for(values, position) {
            Some(v) => Some(v),
            None => if cell.0 == position {
                Some(cell.1)
            } else {
                None
            },
        },
    decreases values.len(),
{
    let all = values.push(cell);
    if values.len() > 0 {
        assert(all.drop_first() =~= values.drop_first().push(cell));
        lemma_value_for_push(values.drop_first(), cell, position);
    } else {
        assert(all.drop_first() =~= values);
    }
}

/// What is recorded of an image gives each out-of-line column's cell back.
proof fn lemma_toastable_value(
    columns: Seq<ColumnMetadata>,
    row: RowView,
    position: usize,
)
    ensures
        value_for(toastable_cells(columns, row), position) matches Some(v) ==> v == cell_or_null(
            row,
            position as int,
        ),
        (exists|c: int|
            0 <= c < columns.len() && (#[trigger] columns[c]).toastable && columns[c].index_spec()
                == position) ==> value_for(toastable_cells(columns, row), position) is Some,
    decreases columns.len(),
{
    if columns.len() > 0 {
        let short = columns.drop_last();
        let last = columns.last();
        lemma_toastable_value(short, row, position);
        if last.toastable {
            lemma_value_for_push(
                toastable_cells(short, row),
                (last.index_spec() as usize, cell_or_null(row, last.index_spec())),
                position,
            );
        }
        if exists|c: int|
            0 <= c < columns.len() && (#[trigger] columns[c]).toastable && columns[c].index_spec()
                == position {
            let c = choose|c: int|
                0 <= c < columns.len() && (#[trigger] columns[c]).toastable
                    && columns[c].index_spec() == position;
            if c < short.len() {
                assert(short[c] == columns[c]);
            }
        }
    }
}

proof fn lemma_filled_cell(row: RowView, toasted: Seq<usize>, values: CellsView, t: usize)
    requires
        toasted.contains(t),
        t < row.len(),
        value_for(values, t) is Some,
    ensures
        filled(row, toasted, values)[t as int] == value_for(values, t)->0,
    decreases toasted.len(),
{
    let short = toasted.drop_last();
    lemma_filled_len(row, short, values);
    if toasted.last() != t {
        let i = choose|i: int| 0 <= i < toasted.len() && toasted[i] == t;
        assert(short[i] == t);
        lemma_filled_cell(row, short, values, t);
    }
}

/// An incomplete UPDATE of a row that the batch wrote completely, and did not
/// touch since, is completed with exactly the values of that write.
pub proof fn overlay_repairs_from_the_last_write(
    t: ToastView,
    tables: Map<u32, TableMetadata>,
    oid: u32,
    written: RowView,
    row: RowView,
    toasted: Seq<usize>,
)
    requires
        tables.contains_key(oid),
        tables[oid].has_toastable(),
        pk_body(tables[oid], written) is Some,
        pk_body(tables[oid], row) == pk_body(tables[oid], written),
        forall|i: int|
            0 <= i < toasted.len() ==> (#[trigger] toasted[i]) < row.len() && exists|c: int|
                0 <= c < tables[oid].columns@.len() && (
                #[trigger] tables[oid].columns@[c]).toastable
                    && tables[oid].columns@[c].index_spec() == toasted[i],
    ensures
        ({
            let r = resolution(
                write_recorded(t, tables, oid, written),
                tables[oid],
                oid,
                Seq::empty(),
                row,
                toasted,
            );
            &&& r is Repaired
            &&& forall|i: int|
                0 <= i < toasted.len() ==> r->Repaired_0[(#[trigger] toasted[i]) as int]
                    == cell_or_null(written, toasted[i] as int)
        }),
{
    let columns = tables[oid].columns@;
    let values = toastable_cells(columns, written);
    assert forall|i: int| 0 <= i < toasted.len() implies value_for(
        values,
        #[trigger] toasted[i],
    ) is Some by {
        lemma_toastable_value(columns, written, toasted[i]);
    }
    assert forall|i: int| 0 <= i < toasted.len() implies filled(row, toasted, values)[(
    #[trigger] toasted[i]) as int] == cell_or_null(written, toasted[i] as int) by {
        lemma_toastable_value(columns, written, toasted[i]);
        lemma_filled_cell(row, toasted, values, toasted[i]);
    }
}

/// A row the batch removed is never repaired from an earlier image.
pub proof fn removed_row_is_not_repaired(
    t: ToastView,
    tables: Map<u32, TableMetadata>,
    oid: u32,
    removed: RowView,
    key: RowView,
    row: RowView,
    toasted: Seq<usize>,
)
    requires
        tables.contains_key(oid),
        tables[oid].has_toastable(),
        pk_body(tables[oid], removed) is Some,
        pk_body(tables[oid], source_image(key, row)) == pk_body(tables[oid], removed),
    ensures
        resolution(
            delete_recorded(t, tables, oid, removed),
            tables[oid],
            oid,
            key,
            row,
            toasted,
        ) is Fallback,
{
}

/// After a truncate or a redefinition, no row of the relation is repaired from
/// an earlier image.
pub proof fn voided_relation_is_not_repaired(
    t: ToastView,
    table: TableMetadata,
    oid: u32,
    key: RowView,
    row: RowView,
    toasted: Seq<usize>,
)
    ensures
        resolution(relation_voided(t, oid), table, oid, key, row, toasted) is Fallback,
{
}

} // verus!
