//! The B-tree page parser.
//!
//! A page is one page-size slice of the file.  The first page carries the
//! 100-byte file header before its own B-tree header; every other page starts
//! directly with the B-tree header.  The header is 8 bytes on leaf pages and
//! 12 on interior pages (the extra 4 are the right-most child pointer), and
//! is followed by one 2-byte big-endian cell offset per cell.

use vstd::prelude::*;

use crate::cell::{spec_index_payload_at, spec_leaf_table_cell_at};
use crate::column::{SerialType, ValueView};
use crate::database::DbHeader;
use crate::error::Error;
use crate::record::Record;
use crate::spec_decode_varint;

verus! {

/// The four valid B-tree page kinds, stored as the page's first byte:
/// 2 is an interior index page, 5 an interior table page, 10 a leaf index
/// page and 13 a leaf table page.
#[derive(Debug, Clone, Copy, PartialEq, Eq, Structural)]
pub enum PageType {
    InteriorIndex,
    InteriorTable,
    LeafIndex,
    LeafTable,
}

/// The page kind a type byte denotes, or `UnknownPageType`.
pub open spec fn spec_page_type(b: u8) -> Result<PageType, Error> {
    if b == 2 {
        Ok(PageType::InteriorIndex)
    } else if b == 5 {
        Ok(PageType::InteriorTable)
    } else if b == 10 {
        Ok(PageType::LeafIndex)
    } else if b == 13 {
        Ok(PageType::LeafTable)
    } else {
        Err(Error::UnknownPageType)
    }
}

impl PageType {
    /// Whether pages of this kind carry child pointers.
    pub open spec fn spec_is_interior(self) -> bool {
        self == PageType::InteriorIndex || self == PageType::InteriorTable
    }

    /// Classifies a page-type byte.
    pub fn from_byte(value: u8) -> (r: Result<PageType, Error>)
        ensures
            r == spec_page_type(value),
    {
        match value {
            2 => Ok(PageType::InteriorIndex),
            5 => Ok(PageType::InteriorTable),
            10 => Ok(PageType::LeafIndex),
            13 => Ok(PageType::LeafTable),
            _ => Err(Error::UnknownPageType),
        }
    }

    /// Whether pages of this kind carry child pointers.
    pub fn is_interior(&self) -> (r: bool)
        ensures
            r == self.spec_is_interior(),
    {
        match self {
            PageType::InteriorIndex | PageType::InteriorTable => true,
            _ => false,
        }
    }
}

/// The 2-byte big-endian integer at offset `i` of `b`.
pub open spec fn spec_be16(b: Seq<u8>, i: int) -> u16 {
    ((b[i] as int) * 256 + (b[i + 1] as int)) as u16
}

/// The 4-byte big-endian integer at offset `i` of `b`.
pub open spec fn spec_be32(b: Seq<u8>, i: int) -> u32 {
    ((b[i] as int) * 0x100_0000 + (b[i + 1] as int) * 0x1_0000 + (b[i + 2] as int) * 0x100 + (b[i
        + 3] as int)) as u32
}

/// Reads the 2-byte big-endian integer at offset `i` of `bytes`.
pub(crate) fn read_be16(bytes: &[u8], i: usize) -> (r: u16)
    requires
        i + 2 <= bytes@.len(),
    ensures
        r == spec_be16(bytes@, i as int),
{
    proof {
        vstd::slice::axiom_spec_len(bytes);
    }
    (bytes[i] as u16) * 256 + (bytes[i + 1] as u16)
}

/// Reads the 4-byte big-endian integer at offset `i` of `bytes`.
pub(crate) fn read_be32(bytes: &[u8], i: usize) -> (r: u32)
    requires
        i + 4 <= bytes@.len(),
    ensures
        r == spec_be32(bytes@, i as int),
{
    proof {
        vstd::slice::axiom_spec_len(bytes);
    }
    (bytes[i] as u32) * 0x100_0000 + (bytes[i + 1] as u32) * 0x1_0000 + (bytes[i + 2] as u32)
        * 0x100 + (bytes[i + 3] as u32)
}

/// The fixed header at the front of a B-tree page.  `right_most_pointer` is
/// present exactly on interior pages; leaf headers are 8 bytes and the parser
/// does not read a right-most pointer for them.
#[derive(Debug, Clone, Copy, PartialEq, Eq, Structural)]
pub struct BTreePageHeader {
    pub page_type: PageType,
    pub freeblock_offset: u16,
    pub ncells: u16,
    pub cells_start: u16,
    pub nfragmented_free: u8,
    pub right_most_pointer: Option<u32>,
}

/// The header that the 12 bytes `h` spell, or `UnknownPageType`.
pub open spec fn spec_btree_header(h: Seq<u8>) -> Result<BTreePageHeader, Error> {
    match spec_page_type(h[0]) {
        Err(e) => Err(e),
        Ok(pt) => Ok(
            BTreePageHeader {
                page_type: pt,
                freeblock_offset: spec_be16(h, 1),
                ncells: spec_be16(h, 3),
                cells_start: spec_be16(h, 5),
                nfragmented_free: h[7],
                right_most_pointer: if pt.spec_is_interior() {
                    Some(spec_be32(h, 8))
                } else {
                    None
                },
            },
        ),
    }
}

impl BTreePageHeader {
    /// Parses a page header from the 12 bytes at the front of `header`.
    /// Bytes 8 through 11 are read only for interior page types.
    pub fn new(header: &[u8]) -> (r: Result<BTreePageHeader, Error>)
        requires
            header@.len() >= 12,
        ensures
            r == spec_btree_header(header@),
    {
        let page_type = match PageType::from_byte(header[0]) {
            Ok(t) => t,
            Err(e) => { return Err(e) },
        };
        let right_most_pointer = if page_type.is_interior() {
            Some(read_be32(header, 8))
        } else {
            None
        };
        Ok(
            BTreePageHeader {
                page_type,
                freeblock_offset: read_be16(header, 1),
                ncells: read_be16(header, 3),
                cells_start: read_be16(header, 5),
                nfragmented_free: header[7],
                right_most_pointer,
            },
        )
    }

    /// The number of cells the header declares.
    pub fn ncells(&self) -> (r: u16)
        ensures
            r == self.ncells,
    {
        self.ncells
    }
}

/// The abstraction of a parsed page: its header, its full buffer, and the
/// parsed cell-offset table.
pub struct PageView {
    pub btree_header: BTreePageHeader,
    pub buffer: Seq<u8>,
    pub cell_offsets: Seq<u16>,
}

/// Where a page's B-tree header starts: the first page carries the 100-byte
/// file header first.
pub open spec fn spec_header_offset(idx: int) -> int {
    if idx == 0 {
        100
    } else {
        0
    }
}

/// How many bytes the fixed header occupies for a page kind.
pub open spec fn spec_header_size(pt: PageType) -> int {
    if pt.spec_is_interior() {
        12
    } else {
        8
    }
}

/// The cell-offset table: `nc` 2-byte big-endian offsets that follow the
/// page header.
pub open spec fn spec_cell_offsets(bytes: Seq<u8>, hoff: int, hsize: int, nc: int) -> Seq<u16> {
    Seq::new(nc as nat, |i: int| spec_be16(bytes, hoff + hsize + 2 * i))
}

/// What parsing page number `idx` (0-based) from its buffer yields: the
/// header and the cell-offset table, or the first error.  The offsets are
/// byte offsets into the full page buffer; one that exceeds the buffer
/// length, like a buffer too short for the header or the offset table, is
/// `PagePointerOutOfRange`.
pub open spec fn spec_parse_page(idx: int, bytes: Seq<u8>) -> Result<PageView, Error> {
    let hoff = spec_header_offset(idx);
    if bytes.len() < hoff + 12 {
        Err(Error::PagePointerOutOfRange)
    } else {
        match spec_btree_header(bytes.subrange(hoff, hoff + 12)) {
            Err(e) => Err(e),
            Ok(bh) => {
                let hsize: int = spec_header_size(bh.page_type);
                let nc = bh.ncells as int;
                if bytes.len() < hoff + hsize + 2 * nc {
                    Err(Error::PagePointerOutOfRange)
                } else {
                    let offs = spec_cell_offsets(bytes, hoff, hsize, nc);
                    if exists|i: int| 0 <= i < nc && (#[trigger] offs[i]) as int > bytes.len() {
                        Err(Error::PagePointerOutOfRange)
                    } else {
                        Ok(PageView { btree_header: bh, buffer: bytes, cell_offsets: offs })
                    }
                }
            },
        }
    }
}

/// One parsed page: the file header copy on the first page, the B-tree
/// header, the full page buffer, and the cell-offset table.
#[derive(Debug, Clone, PartialEq, Eq)]
pub struct Page {
    pub db_header: Option<DbHeader>,
    pub btree_header: BTreePageHeader,
    pub buffer: Vec<u8>,
    pub cell_offsets: Vec<u16>,
}

impl View for Page {
    type V = PageView;

    open spec fn view(&self) -> PageView {
        PageView {
            btree_header: self.btree_header,
            buffer: self.buffer@,
            cell_offsets: self.cell_offsets@,
        }
    }
}

impl Page {
    /// Parses page number `idx` (0-based) from one page-size buffer.  The
    /// first page also keeps a copy of the file header.
    #[verifier::loop_isolation(false)]
    pub fn new(idx: usize, header: DbHeader, b_tree_page: &[u8]) -> (r: Result<Page, Error>)
        ensures
            match (r, spec_parse_page(idx as int, b_tree_page@)) {
                (Ok(p), Ok(pv)) => p@ == pv && (idx == 0 <==> p.db_header == Some(header))
                    && (idx != 0 <==> p.db_header == None::<DbHeader>),
                (Err(e), Err(se)) => e == se,
                _ => false,
            },
    {
        let len: usize = b_tree_page.len();
        let hoff: usize = if idx == 0 {
            100
        } else {
            0
        };
        if len < hoff + 12 {
            return Err(Error::PagePointerOutOfRange);
        }
        let header_slice = copy_header_window(b_tree_page, hoff);
        let btree_header = match BTreePageHeader::new(header_slice.as_slice()) {
            Ok(h) => h,
            Err(e) => { return Err(e) },
        };
        let hsize: usize = if btree_header.page_type.is_interior() {
            12
        } else {
            8
        };
        let nc: usize = btree_header.ncells as usize;
        if len < hoff + hsize + 2 * nc {
            return Err(Error::PagePointerOutOfRange);
        }
        let ghost target = spec_cell_offsets(
            b_tree_page@,
            spec_header_offset(idx as int),
            spec_header_size(btree_header.page_type),
            btree_header.ncells as int,
        );
        proof {
            assert(hoff as int == spec_header_offset(idx as int));
            assert(hsize as int == spec_header_size(btree_header.page_type));
        }
        let mut cell_offsets: Vec<u16> = Vec::new();
        let mut i: usize = 0;
        while i < nc
            invariant
                i <= nc,
                cell_offsets@.len() == i,
                forall|j: int| 0 <= j < i ==> cell_offsets@[j] == target[j],
            decreases nc - i,
        {
            cell_offsets.push(read_be16(b_tree_page, hoff + hsize + 2 * i));
            i = i + 1;
        }
        proof {
            assert(cell_offsets@ =~= target);
        }
        let mut k: usize = 0;
        while k < nc
            invariant
                k <= nc,
                cell_offsets@ == target,
                forall|j: int| 0 <= j < k ==> (#[trigger] target[j]) as int <= b_tree_page@.len(),
            decreases nc - k,
        {
            if cell_offsets[k] as usize > len {
                proof {
                    assert(0 <= k < nc as int && (target[k as int]) as int > b_tree_page@.len());
                    assert(exists|i: int|
                        0 <= i < nc as int && (#[trigger] target[i]) as int > b_tree_page@.len());
                }
                return Err(Error::PagePointerOutOfRange);
            }
            k = k + 1;
        }
        let buffer = crate::record::copy_range(b_tree_page, 0, len);
        proof {
            assert(buffer@ =~= b_tree_page@);
        }
        let db_header = if idx == 0 {
            Some(header)
        } else {
            None
        };
        Ok(Page { db_header, btree_header, buffer, cell_offsets })
    }

    /// The page's kind.
    pub fn page_type(&self) -> (r: PageType)
        ensures
            r == self@.btree_header.page_type,
    {
        self.btree_header.page_type
    }
}

/// Copies the 12 header bytes that start at `hoff`.
fn copy_header_window(bytes: &[u8], hoff: usize) -> (r: Vec<u8>)
    requires
        hoff + 12 <= bytes@.len(),
    ensures
        r@ == bytes@.subrange(hoff as int, hoff + 12),
{
    crate::record::copy_range(bytes, hoff, 12)
}

/// The well-formedness that parsing establishes: the offset table has one
/// entry per declared cell and every offset lies within the buffer.
pub open spec fn spec_page_wf(p: PageView) -> bool {
    &&& p.cell_offsets.len() == p.btree_header.ncells as int
    &&& forall|j: int|
        0 <= j < p.cell_offsets.len() ==> (#[trigger] p.cell_offsets[j]) as int <= p.buffer.len()
}

/// A page that parses is well-formed.
pub proof fn lemma_parse_page_wf(idx: int, bytes: Seq<u8>)
    ensures
        spec_parse_page(idx, bytes) matches Ok(pv) ==> spec_page_wf(pv),
{
}

/// One cell's logical fields, decoded according to its page's kind.  Interior
/// cells carry a left-child pointer; table cells carry a rowid or boundary
/// key; leaf-table and index cells carry a record.
#[derive(Debug, Clone, PartialEq, Eq)]
pub struct CellView {
    pub left_child: Option<u32>,
    pub rowid: Option<i64>,
    pub npayload: Option<i64>,
    pub record: Option<Record>,
}

/// The mathematical shadow of `CellView`.
pub struct CellContent {
    pub left_child: Option<u32>,
    pub rowid: Option<i64>,
    pub npayload: Option<i64>,
    pub columns: Option<Seq<(SerialType, ValueView)>>,
}

impl View for CellView {
    type V = CellContent;

    open spec fn view(&self) -> CellContent {
        CellContent {
            left_child: self.left_child,
            rowid: self.rowid,
            npayload: self.npayload,
            columns: match self.record {
                Some(rec) => Some(rec@),
                None => None,
            },
        }
    }
}

/// What reading cell `i` of page `p` yields.  A leaf-table cell decodes to
/// rowid and record; an interior-table cell to left child and boundary key;
/// a leaf-index cell to a record; an interior-index cell to left child and
/// record.
pub open spec fn spec_read_cell(p: PageView, i: int) -> Result<CellContent, Error> {
    if i < 0 || i >= p.btree_header.ncells as int {
        Err(Error::CellIndexOutOfRange)
    } else {
        let off = p.cell_offsets[i] as int;
        match p.btree_header.page_type {
            PageType::LeafTable => match spec_leaf_table_cell_at(p.buffer, off) {
                Err(e) => Err(e),
                Ok((np, rowid, cols)) => Ok(
                    CellContent {
                        left_child: None,
                        rowid: Some(rowid),
                        npayload: Some(np),
                        columns: Some(cols),
                    },
                ),
            },
            PageType::InteriorTable => if off + 4 > p.buffer.len() {
                Err(Error::PagePointerOutOfRange)
            } else {
                match spec_decode_varint(p.buffer.skip(off + 4)) {
                    Err(e) => Err(e),
                    Ok((key, _n)) => Ok(
                        CellContent {
                            left_child: Some(spec_be32(p.buffer, off)),
                            rowid: Some(key),
                            npayload: None,
                            columns: None,
                        },
                    ),
                }
            },
            PageType::LeafIndex => match spec_index_payload_at(p.buffer, off) {
                Err(e) => Err(e),
                Ok((np, cols)) => Ok(
                    CellContent {
                        left_child: None,
                        rowid: None,
                        npayload: Some(np),
                        columns: Some(cols),
                    },
                ),
            },
            PageType::InteriorIndex => if off + 4 > p.buffer.len() {
                Err(Error::PagePointerOutOfRange)
            } else {
                match spec_index_payload_at(p.buffer, off + 4) {
                    Err(e) => Err(e),
                    Ok((np, cols)) => Ok(
                        CellContent {
                            left_child: Some(spec_be32(p.buffer, off)),
                            rowid: None,
                            npayload: Some(np),
                            columns: Some(cols),
                        },
                    ),
                }
            },
        }
    }
}

impl Page {
    /// Reads and decodes cell `i`, dispatching on the page's kind.  Fails
    /// with `CellIndexOutOfRange` when `i` is at or beyond the cell count;
    /// decode errors of the cell itself surface to the caller.
    pub fn read_cell(&self, i: u16) -> (r: Result<CellView, Error>)
        requires
            spec_page_wf(self@),
        ensures
            match (r, spec_read_cell(self@, i as int)) {
                (Ok(cv), Ok(cc)) => cv@ == cc,
                (Err(e), Err(se)) => e == se,
                _ => false,
            },
    {
        if i >= self.btree_header.ncells {
            return Err(Error::CellIndexOutOfRange);
        }
        let blen: usize = self.buffer.len();
        let off: usize = self.cell_offsets[i as usize] as usize;
        let buf: &[u8] = self.buffer.as_slice();
        match self.btree_header.page_type {
            PageType::LeafTable => match crate::cell::read_leaf_table_cell_at(buf, off) {
                Ok(c) => Ok(
                    CellView {
                        left_child: None,
                        rowid: Some(c.rowid),
                        npayload: Some(c.npayload),
                        record: Some(c.record),
                    },
                ),
                Err(e) => Err(e),
            },
            PageType::InteriorTable => {
                if blen - off < 4 {
                    return Err(Error::PagePointerOutOfRange);
                }
                let lc = read_be32(buf, off);
                match crate::decode_varint_at(buf, off + 4) {
                    Ok((key, _)) => Ok(
                        CellView {
                            left_child: Some(lc),
                            rowid: Some(key),
                            npayload: None,
                            record: None,
                        },
                    ),
                    Err(e) => Err(e),
                }
            },
            PageType::LeafIndex => match crate::cell::read_index_payload_at(buf, off) {
                Ok((np, rec)) => Ok(
                    CellView {
                        left_child: None,
                        rowid: None,
                        npayload: Some(np),
                        record: Some(rec),
                    },
                ),
                Err(e) => Err(e),
            },
            PageType::InteriorIndex => {
                if blen - off < 4 {
                    return Err(Error::PagePointerOutOfRange);
                }
                let lc = read_be32(buf, off);
                match crate::cell::read_index_payload_at(buf, off + 4) {
                    Ok((np, rec)) => Ok(
                        CellView {
                            left_child: Some(lc),
                            rowid: None,
                            npayload: Some(np),
                            record: Some(rec),
                        },
                    ),
                    Err(e) => Err(e),
                }
            },
        }
    }
}

} // verus!
