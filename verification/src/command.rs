//! The commands of the CDC stream, and the rows they carry.
use vstd::prelude::*;

use crate::catalog::Row;
use crate::catalog::RowView;
use crate::catalog::TableMetadata;

verus! {

/// A cell as the stream carries it.
#[derive(Debug)]
pub enum CdcValue {
    Text(String),
    Null,
    /// An unchanged out-of-line value, which the stream leaves out.
    Toasted,
}

/// A command of the CDC stream.
pub enum CdcCommand {
    /// A source transaction begins.
    Begin { xid: u32 },
    /// A relation as it is defined from here on.
    TableRegister(TableMetadata),
    Insert { relation_oid: u32, row_data: Vec<CdcValue> },
    /// `key_data` is the old key image, empty when the key did not change.
    Update { relation_oid: u32, key_data: Vec<CdcValue>, row_data: Vec<CdcValue> },
    Delete { relation_oid: u32, row_data: Vec<CdcValue> },
    Truncate { relation_oids: Vec<u32> },
    /// The source transaction committed at `lsn`.
    CommitMark { lsn: u64 },
    /// Everything up to `lsn` has been streamed.
    KeepAliveMark { lsn: u64 },
}

/// The cell of a streamed value: a left-out one is empty.
pub open spec fn cell_of(value: CdcValue) -> Option<Seq<char>> {
    match value {
        CdcValue::Text(text) => Some(text@),
        CdcValue::Null => None,
        CdcValue::Toasted => None,
    }
}

/// The row of streamed values.
pub open spec fn row_of(values: Seq<CdcValue>) -> RowView {
    Seq::new(values.len(), |i: int| cell_of(values[i]))
}

/// The positions of the left-out values, in order.
pub open spec fn toasted_of(values: Seq<CdcValue>) -> Seq<usize>
    decreases values.len(),
{
    if values.len() == 0 {
        Seq::empty()
    } else {
        let rest = toasted_of(values.drop_last());
        if values.last() is Toasted {
            rest.push((values.len() - 1) as usize)
        } else {
            rest
        }
    }
}

/// Turn streamed values into a row, and the positions of the left-out ones.
pub fn row_convert(values: Vec<CdcValue>) -> (r: (Row, Vec<usize>))
    ensures
        r.0.deep_view() == row_of(values@),
        r.1@ == toasted_of(values@),
{
    let ghost whole = values@;
    let mut row: Row = Vec::new();
    let mut toasted: Vec<usize> = Vec::new();
    let count: usize = values.len();
    let mut at: usize = 0;
    proof {
        assert(row.deep_view() =~= row_of(whole.take(0)));
    }
    for value in it: values
        invariant
            it.seq() == whole,
            whole.len() == count,
            at == it.index(),
            row.deep_view() == row_of(whole.take(it.index())),
            toasted@ == toasted_of(whole.take(it.index())),
    {
        let ghost i = it.index();
        let ghost before = row.deep_view();
        proof {
            assert(whole.take(i + 1).drop_last() =~= whole.take(i));
            assert(whole.take(i + 1).last() == value);
        }
        let ghost cell = cell_of(value);
        match value {
            CdcValue::Text(text) => {
                row.push(Some(text));
            },
            CdcValue::Null => {
                row.push(None);
            },
            CdcValue::Toasted => {
                row.push(None);
                toasted.push(at);
            },
        }
        proof {
            assert(row.deep_view() =~= before.push(cell));
            assert(row_of(whole.take(i + 1)) =~= row_of(whole.take(i)).push(cell));
            assert(i < count);
        }
        at = at + 1;
    }
    proof {
        assert(whole.take(whole.len() as int) =~= whole);
    }
    (row, toasted)
}

} // verus!
