//! Row events of a CDC frame, as they are buffered and replayed.
use vstd::prelude::*;

use crate::catalog::Row;
use crate::catalog::RowView;

verus! {

/// One buffered event of the frames in a batch, in arrival order.
pub enum FrameRowEvent {
    Insert { relation_oid: u32, row_data: Row },
    /// `key_data` is the old key image, empty when the key did not change.
    Update { relation_oid: u32, key_data: Row, new_row_data: Row },
    /// An UPDATE whose image leaves out unchanged out-of-line values: the
    /// cells at `toasted` are `None` in `new_row_data` and await repair.
    UpdateToasted { relation_oid: u32, key_data: Row, new_row_data: Row, toasted: Vec<usize> },
    /// An UPDATE whose missing values could not be recovered.
    UpdateToastFallback {
        relation_oid: u32,
        key_data: Row,
        new_row_data: Row,
        toasted_columns: Vec<String>,
    },
    Delete { relation_oid: u32, row_data: Row },
    Truncate { relation_oids: Vec<u32> },
    /// The commit of a source transaction.
    Boundary { commit_lsn: u64 },
}

/// The mathematical value of a [`FrameRowEvent`].
pub enum EventView {
    Insert { relation_oid: u32, row_data: RowView },
    Update { relation_oid: u32, key_data: RowView, new_row_data: RowView },
    UpdateToasted {
        relation_oid: u32,
        key_data: RowView,
        new_row_data: RowView,
        toasted: Seq<usize>,
    },
    UpdateToastFallback {
        relation_oid: u32,
        key_data: RowView,
        new_row_data: RowView,
        toasted_columns: Seq<Seq<char>>,
    },
    Delete { relation_oid: u32, row_data: RowView },
    Truncate { relation_oids: Seq<u32> },
    Boundary { commit_lsn: u64 },
}

impl View for FrameRowEvent {
    type V = EventView;

    open spec fn view(&self) -> EventView {
        match self {
            FrameRowEvent::Insert { relation_oid, row_data } => EventView::Insert {
                relation_oid: *relation_oid,
                row_data: row_data.deep_view(),
            },
            FrameRowEvent::Update { relation_oid, key_data, new_row_data } => EventView::Update {
                relation_oid: *relation_oid,
                key_data: key_data.deep_view(),
                new_row_data: new_row_data.deep_view(),
            },
            FrameRowEvent::UpdateToasted {
                relation_oid,
                key_data,
                new_row_data,
                toasted,
            } => EventView::UpdateToasted {
                relation_oid: *relation_oid,
                key_data: key_data.deep_view(),
                new_row_data: new_row_data.deep_view(),
                toasted: toasted@,
            },
            FrameRowEvent::UpdateToastFallback {
                relation_oid,
                key_data,
                new_row_data,
                toasted_columns,
            } => EventView::UpdateToastFallback {
                relation_oid: *relation_oid,
                key_data: key_data.deep_view(),
                new_row_data: new_row_data.deep_view(),
                toasted_columns: toasted_columns.deep_view(),
            },
            FrameRowEvent::Delete { relation_oid, row_data } => EventView::Delete {
                relation_oid: *relation_oid,
                row_data: row_data.deep_view(),
            },
            FrameRowEvent::Truncate { relation_oids } => EventView::Truncate {
                relation_oids: relation_oids@,
            },
            FrameRowEvent::Boundary { commit_lsn } => EventView::Boundary {
                commit_lsn: *commit_lsn,
            },
        }
    }
}

/// The values of a list of events.
pub open spec fn events_view(events: Seq<FrameRowEvent>) -> Seq<EventView> {
    Seq::new(events.len(), |i: int| events[i]@)
}

/// The relation a row event is about; truncates and boundaries are about none.
pub open spec fn event_relation(e: EventView) -> Option<u32> {
    match e {
        EventView::Insert { relation_oid, .. } => Some(relation_oid),
        EventView::Update { relation_oid, .. } => Some(relation_oid),
        EventView::UpdateToasted { relation_oid, .. } => Some(relation_oid),
        EventView::UpdateToastFallback { relation_oid, .. } => Some(relation_oid),
        EventView::Delete { relation_oid, .. } => Some(relation_oid),
        EventView::Truncate { .. } => None,
        EventView::Boundary { .. } => None,
    }
}

impl FrameRowEvent {
    /// The relation a row event is about; truncates and boundaries are about
    /// none.
    pub fn relation(&self) -> (oid: Option<u32>)
        ensures
            oid == event_relation(self@),
    {
        match self {
            FrameRowEvent::Insert { relation_oid, .. } => Some(*relation_oid),
            FrameRowEvent::Update { relation_oid, .. } => Some(*relation_oid),
            FrameRowEvent::UpdateToasted { relation_oid, .. } => Some(*relation_oid),
            FrameRowEvent::UpdateToastFallback { relation_oid, .. } => Some(*relation_oid),
            FrameRowEvent::Delete { relation_oid, .. } => Some(*relation_oid),
            FrameRowEvent::Truncate { .. } => None,
            FrameRowEvent::Boundary { .. } => None,
        }
    }
}

} // verus!
