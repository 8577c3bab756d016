//! The database file: its 100-byte header and its array of parsed pages.

use vstd::prelude::*;

use crate::error::Error;
use crate::page::{spec_be16, spec_parse_page, Page, PageView};
use crate::record::copy_range;

verus! {

/// The 16-byte signature every database file must start with.
pub open spec fn spec_magic() -> Seq<u8> {
    seq![
        0x53u8,
        0x51u8,
        0x4cu8,
        0x69u8,
        0x74u8,
        0x65u8,
        0x20u8,
        0x66u8,
        0x6fu8,
        0x72u8,
        0x6du8,
        0x61u8,
        0x74u8,
        0x20u8,
        0x33u8,
        0x00u8,
    ]
}

/// The page size the file header declares: a big-endian 16-bit integer at
/// offset 16, where a stored 1 means 65536.
pub open spec fn spec_page_size(h: Seq<u8>) -> int {
    let raw = spec_be16(h, 16) as int;
    if raw == 1 {
        65536
    } else {
        raw
    }
}

/// The first 100 bytes of the file: the magic signature and the page size.
#[derive(Debug, Clone, PartialEq, Eq)]
pub struct DbHeader {
    pub magic: Vec<u8>,
    pub page_size: usize,
}

impl DbHeader {
    /// Reads the file header fields from the front of `header`.
    pub fn new(header: &[u8]) -> (r: Result<DbHeader, Error>)
        requires
            header@.len() >= 18,
        ensures
            match r {
                Ok(dh) => dh.magic@ == header@.subrange(0, 16) && dh.page_size as int
                    == spec_page_size(header@),
                Err(_) => false,
            },
    {
        let magic = copy_range(header, 0, 16);
        let raw = crate::page::read_be16(header, 16);
        let page_size: usize = if raw == 1 {
            65536
        } else {
            raw as usize
        };
        Ok(DbHeader { magic, page_size })
    }

    /// Whether the stored signature is the required one.
    pub fn magic_ok(&self) -> (r: bool)
        ensures
            r == (self.magic@ == spec_magic()),
    {
        let expected: [u8; 16] = [
            0x53,
            0x51,
            0x4c,
            0x69,
            0x74,
            0x65,
            0x20,
            0x66,
            0x6f,
            0x72,
            0x6d,
            0x61,
            0x74,
            0x20,
            0x33,
            0x00,
        ];
        if self.magic.len() != 16 {
            return false;
        }
        let mut i: usize = 0;
        while i < 16
            invariant
                self.magic@.len() == 16,
                i <= 16,
                expected@ == spec_magic(),
                forall|j: int| 0 <= j < i ==> self.magic@[j] == spec_magic()[j],
            decreases 16 - i,
        {
            if self.magic[i] != expected[i] {
                return false;
            }
            i = i + 1;
        }
        proof {
            assert(self.magic@ =~= spec_magic());
        }
        true
    }
}

/// The whole file, resident in memory: the header and every page, parsed.
#[derive(Debug, Clone, PartialEq, Eq)]
pub struct Database {
    pub header: DbHeader,
    pub pages: Vec<Page>,
}

impl View for Database {
    type V = Seq<PageView>;

    open spec fn view(&self) -> Seq<PageView> {
        self.pages@.map_values(|p: Page| p@)
    }
}

/// The byte slice of page number `i` (0-based) in a file of page size `ps`.
pub open spec fn spec_page_bytes(file: Seq<u8>, i: int, ps: int) -> Seq<u8> {
    file.subrange(i * ps, i * ps + ps)
}

impl Database {
    /// Parses a whole database file that is already resident in memory.
    ///
    /// The caller must have checked the file-header invariants the format
    /// demands: the magic signature, and a length that is an exact multiple
    /// of a positive page size.  Every page is parsed eagerly; the first page
    /// that does not parse decides the error.
    #[verifier::loop_isolation(false)]
    pub fn from_bytes(bytes: &[u8]) -> (r: Result<Database, Error>)
        requires
            bytes@.len() >= 100,
            bytes@.subrange(0, 16) == spec_magic(),
            spec_page_size(bytes@) > 0,
            bytes@.len() as int % spec_page_size(bytes@) == 0,
        ensures
            match r {
                Ok(db) => {
                    &&& crate::btree::spec_db_wf(db@)
                    &&& db.header.magic@ == spec_magic()
                    &&& db.header.page_size as int == spec_page_size(bytes@)
                    &&& db@.len() == bytes@.len() as int / spec_page_size(bytes@)
                    &&& forall|i: int|
                        0 <= i < db@.len() ==> #[trigger] spec_parse_page(
                            i,
                            spec_page_bytes(bytes@, i, spec_page_size(bytes@)),
                        ) == Ok::<PageView, Error>(db@[i])
                },
                Err(e) => exists|i: int|
                    {
                        &&& 0 <= i < bytes@.len() as int / spec_page_size(bytes@)
                        &&& #[trigger] spec_parse_page(
                            i,
                            spec_page_bytes(bytes@, i, spec_page_size(bytes@)),
                        ) == Err::<PageView, Error>(e)
                        &&& forall|j: int|
                            0 <= j < i ==> (#[trigger] spec_parse_page(
                                j,
                                spec_page_bytes(bytes@, j, spec_page_size(bytes@)),
                            )) is Ok
                    },
            },
    {
        let flen: usize = bytes.len();
        let header = match DbHeader::new(bytes) {
            Ok(h) => h,
            Err(e) => { return Err(e) },
        };
        let ps: usize = header.page_size;
        let n_pages: usize = flen / ps;
        proof {
            vstd::arithmetic::div_mod::lemma_fundamental_div_mod(flen as int, ps as int);
            assert(n_pages * ps == flen) by (nonlinear_arith)
                requires
                    flen as int == (ps as int) * (flen as int / ps as int) + flen as int % ps as int,
                    flen as int % ps as int == 0,
                    n_pages == flen as int / ps as int,
                    ps > 0,
            ;
        }
        let mut pages: Vec<Page> = Vec::new();
        let mut pi: usize = 0;
        while pi < n_pages
            invariant
                pages@.len() == pi,
                pi <= n_pages,
                forall|j: int|
                    0 <= j < pi ==> #[trigger] spec_parse_page(
                        j,
                        spec_page_bytes(bytes@, j, ps as int),
                    ) == Ok::<PageView, Error>(pages@.map_values(|p: Page| p@)[j]),
            decreases n_pages - pi,
        {
            proof {
                assert((pi + 1) * ps <= n_pages * ps) by (nonlinear_arith)
                    requires
                        pi < n_pages,
                        ps > 0,
                ;
                assert(pi * ps + ps == (pi + 1) * ps) by (nonlinear_arith);
            }
            let off: usize = pi * ps;
            let page_bytes = copy_range(bytes, off, ps);
            let page = match Page::new(pi, header.clone(), page_bytes.as_slice()) {
                Ok(p) => p,
                Err(e) => {
                    proof {
                        assert(page_bytes@ == spec_page_bytes(bytes@, pi as int, ps as int));
                    }
                    return Err(e);
                },
            };
            proof {
                let ghost m0 = pages@.map_values(|p: Page| p@);
                assert((pages@.push(page)).map_values(|p: Page| p@) =~= m0.push(page@));
            }
            pages.push(page);
            pi = pi + 1;
        }
        proof {
            let dbv = pages@.map_values(|p: Page| p@);
            assert forall|i: int| 0 <= i < dbv.len() implies crate::page::spec_page_wf(
                #[trigger] dbv[i],
            ) by {
                crate::page::lemma_parse_page_wf(i, spec_page_bytes(bytes@, i, ps as int));
            }
        }
        Ok(Database { header, pages })
    }

    /// The page size the file was opened with.
    pub fn page_size(&self) -> (r: usize)
        ensures
            r == self.header.page_size,
    {
        self.header.page_size
    }
}

} // verus!
