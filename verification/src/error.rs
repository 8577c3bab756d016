//! Error kinds raised while decoding the file format or walking a B-tree.

use vstd::prelude::*;

verus! {

/// Everything that can go wrong while decoding pages, cells and records.
///
/// Decode-level kinds (`MalformedVarint`, `TruncatedRecord`,
/// `InvalidSerialType`) concern a single cell or record and let a scan skip
/// that row; structural kinds (`UnknownPageType`, `PagePointerOutOfRange`,
/// `CellIndexOutOfRange`, `PageTypeError`) abort the whole operation.
#[derive(Debug, Clone, Copy, PartialEq, Eq, Structural)]
pub enum Error {
    /// A varint started on an empty slice, or a ninth byte carried a
    /// continuation bit.
    MalformedVarint,
    /// A record body is shorter than the lengths its header declares.
    TruncatedRecord,
    /// A record header holds a serial-type code outside the known table.
    InvalidSerialType,
    /// A page-type byte is none of the four valid codes.
    UnknownPageType,
    /// A cell pointer, or the header itself, lies outside the page buffer.
    PagePointerOutOfRange,
    /// A cell index at or beyond the page's declared cell count.
    CellIndexOutOfRange,
    /// A traversal reached a page it cannot interpret.
    PageTypeError,
}

impl Error {
    /// A short human-readable name for the error kind.
    pub fn describe(&self) -> (r: &'static str)
        ensures
            r@.len() > 0,
    {
        let s = match self {
            Error::MalformedVarint => "malformed varint",
            Error::TruncatedRecord => "truncated record",
            Error::InvalidSerialType => "invalid serial type",
            Error::UnknownPageType => "unknown page type",
            Error::PagePointerOutOfRange => "page pointer out of range",
            Error::CellIndexOutOfRange => "cell index out of range",
            Error::PageTypeError => "page type error",
        };
        proof {
            reveal_strlit("malformed varint");
            reveal_strlit("truncated record");
            reveal_strlit("invalid serial type");
            reveal_strlit("unknown page type");
            reveal_strlit("page pointer out of range");
            reveal_strlit("cell index out of range");
            reveal_strlit("page type error");
        }
        s
    }
}

} // verus!
