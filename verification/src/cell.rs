//! Cells of leaf-table pages, and the payload shape shared by index cells.
//!
//! A leaf-table cell is a payload-length varint, a rowid varint, and the
//! record bytes.  Index cells carry a payload-length varint followed by a
//! record.  A payload that would overrun the page is truncated at the page
//! boundary rather than reassembled from overflow pages.

use vstd::prelude::*;

use crate::column::{SerialType, ValueView};
use crate::error::Error;
use crate::record::{spec_record_decode, Record};
use crate::{decode_varint_at, lemma_varint_consumed, spec_decode_varint};

verus! {

/// Where the payload starting at `start` with declared length `np` ends:
/// truncated at the buffer end when it would overrun.
pub open spec fn spec_payload_end(bytes: Seq<u8>, start: int, np: int) -> int {
    if np < 0 || start + np > bytes.len() {
        bytes.len() as int
    } else {
        start + np
    }
}

/// What decoding a leaf-table cell at offset `pos` yields: the declared
/// payload length, the rowid, and the record's columns, or the first error.
pub open spec fn spec_leaf_table_cell_at(bytes: Seq<u8>, pos: int) -> Result<
    (i64, i64, Seq<(SerialType, ValueView)>),
    Error,
> {
    match spec_decode_varint(bytes.skip(pos)) {
        Err(e) => Err(e),
        Ok((np, n0)) => match spec_decode_varint(bytes.skip(pos + n0)) {
            Err(e) => Err(e),
            Ok((rowid, n1)) => {
                let start = pos + n0 + n1;
                let end = spec_payload_end(bytes, start, np as int);
                match spec_record_decode(bytes.subrange(start, end)) {
                    Err(e) => Err(e),
                    Ok(cols) => Ok((np, rowid, cols)),
                }
            },
        },
    }
}

/// What decoding an index-cell payload at offset `pos` yields: the declared
/// payload length and the record's columns, or the first error.
pub open spec fn spec_index_payload_at(bytes: Seq<u8>, pos: int) -> Result<
    (i64, Seq<(SerialType, ValueView)>),
    Error,
> {
    match spec_decode_varint(bytes.skip(pos)) {
        Err(e) => Err(e),
        Ok((np, n0)) => {
            let start = pos + n0;
            let end = spec_payload_end(bytes, start, np as int);
            match spec_record_decode(bytes.subrange(start, end)) {
                Err(e) => Err(e),
                Ok(cols) => Ok((np, cols)),
            }
        },
    }
}

/// One decoded leaf-table cell: the declared payload length, the rowid, and
/// the decoded record.
#[derive(Debug, Clone, PartialEq, Eq)]
pub struct Cell {
    pub npayload: i64,
    pub rowid: i64,
    pub record: Record,
}

impl Cell {
    /// Decodes a leaf-table cell from the front of `bytes`.
    pub fn from_bytes(bytes: &[u8]) -> (r: Result<Cell, Error>)
        ensures
            match (r, spec_leaf_table_cell_at(bytes@, 0)) {
                (Ok(c), Ok((np, rowid, cols))) => c.npayload == np && c.rowid == rowid && c.record@
                    == cols,
                (Err(e), Err(se)) => e == se,
                _ => false,
            },
    {
        read_leaf_table_cell_at(bytes, 0)
    }
}

/// Decodes the leaf-table cell that starts at offset `pos` of `bytes`.
pub(crate) fn read_leaf_table_cell_at(bytes: &[u8], pos: usize) -> (r: Result<Cell, Error>)
    requires
        pos <= bytes@.len(),
    ensures
        match (r, spec_leaf_table_cell_at(bytes@, pos as int)) {
            (Ok(c), Ok((np, rowid, cols))) => c.npayload == np && c.rowid == rowid && c.record@
                == cols,
            (Err(e), Err(se)) => e == se,
            _ => false,
        },
{
    let (np, n0) = match decode_varint_at(bytes, pos) {
        Ok(x) => x,
        Err(e) => { return Err(e) },
    };
    proof {
        vstd::slice::axiom_spec_len(bytes);
        lemma_varint_consumed(bytes@.skip(pos as int));
    }
    let (rowid, n1) = match decode_varint_at(bytes, pos + n0) {
        Ok(x) => x,
        Err(e) => { return Err(e) },
    };
    proof {
        lemma_varint_consumed(bytes@.skip(pos + n0));
    }
    let start: usize = pos + n0 + n1;
    let record = read_payload_record(bytes, start, np);
    match record {
        Ok(rec) => Ok(Cell { npayload: np, rowid, record: rec }),
        Err(e) => Err(e),
    }
}

/// Decodes the index-cell payload that starts at offset `pos` of `bytes`.
pub(crate) fn read_index_payload_at(bytes: &[u8], pos: usize) -> (r: Result<(i64, Record), Error>)
    requires
        pos <= bytes@.len(),
    ensures
        match (r, spec_index_payload_at(bytes@, pos as int)) {
            (Ok((np, rec)), Ok((snp, cols))) => np == snp && rec@ == cols,
            (Err(e), Err(se)) => e == se,
            _ => false,
        },
{
    let (np, n0) = match decode_varint_at(bytes, pos) {
        Ok(x) => x,
        Err(e) => { return Err(e) },
    };
    proof {
        vstd::slice::axiom_spec_len(bytes);
        lemma_varint_consumed(bytes@.skip(pos as int));
    }
    let start: usize = pos + n0;
    match read_payload_record(bytes, start, np) {
        Ok(rec) => Ok((np, rec)),
        Err(e) => Err(e),
    }
}

/// Decodes the record whose payload starts at `start` with declared length
/// `np`, truncating at the buffer end.
fn read_payload_record(bytes: &[u8], start: usize, np: i64) -> (r: Result<Record, Error>)
    requires
        start <= bytes@.len(),
    ensures
        match (r, spec_record_decode(
            bytes@.subrange(start as int, spec_payload_end(bytes@, start as int, np as int)),
        )) {
            (Ok(rec), Ok(cols)) => rec@ == cols,
            (Err(e), Err(se)) => e == se,
            _ => false,
        },
{
    let len: usize = bytes.len();
    let end: usize = if np < 0 || (np as u64) > (len as u64) - (start as u64) {
        len
    } else {
        start + (np as usize)
    };
    proof {
        assert(end as int == spec_payload_end(bytes@, start as int, np as int));
    }
    let payload = crate::record::copy_range(bytes, start, end - start);
    let r = Record::new(payload.as_slice());
    proof {
        assert(payload@ == bytes@.subrange(
            start as int,
            spec_payload_end(bytes@, start as int, np as int),
        ));
    }
    r
}

} // verus!
