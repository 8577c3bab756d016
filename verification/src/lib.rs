//! A read-only reader for single-file paged databases in the SQLite on-disk
//! format: a varint codec, a record (row) decoder, a B-tree page parser, and
//! traversal engines that answer table scans and rowid lookups.
//!
//! The varint codec lives at the crate root; the page, cell, record and
//! traversal layers live in their own modules.

use vstd::prelude::*;

pub mod btree;
pub mod cell;
pub mod column;
pub mod database;
pub mod error;
pub mod laws;
pub mod page;
pub mod query;
pub mod record;
pub mod render;
pub mod sql;

pub use cell::Cell;
pub use column::Column;
pub use database::Database;
pub use database::DbHeader;
pub use page::BTreePageHeader;
pub use page::Page;
pub use page::PageType;
pub use record::Record;
pub use render::int_to_string;
pub use sql::Sql;
pub use query::sort_dedup;
pub use column::SerialType;
pub use column::SerialValue;
pub use column::ValueView;
pub use error::Error;

verus! {

// ---------------------------------------------------------------------------
// Varint codec.
//
// A varint spans 1 to 9 bytes.  Each of the first (up to) 8 bytes contributes
// its low 7 bits, most-significant group first, and signals with its high bit
// that another byte follows.  A 9th byte contributes all 8 of its bits and
// must not carry the continuation bit.  Decoding fails on an empty slice and
// on a 9th byte whose high bit is set; a slice that ends while continuation
// bits are still set yields the bits read so far.
// ---------------------------------------------------------------------------

/// One step of varint decoding: the result of continuing at byte `i` with the
/// bits accumulated so far, paired with the total count of bytes consumed.
pub open spec fn spec_varint_from(bytes: Seq<u8>, i: int, acc: u64) -> Result<(u64, int), Error>
    decreases 9 - i,
{
    if i >= 9 {
        Ok((acc, i))
    } else if i >= bytes.len() {
        Ok((acc, i))
    } else if i == 8 {
        if bytes[8] & 0x80 != 0 {
            Err(Error::MalformedVarint)
        } else {
            Ok(((acc << 8) | (bytes[8] as u64), 9))
        }
    } else {
        let next = (acc << 7) | ((bytes[i] & 0x7f) as u64);
        if bytes[i] & 0x80 == 0 {
            Ok((next, i + 1))
        } else {
            spec_varint_from(bytes, i + 1, next)
        }
    }
}

/// What decoding a varint from the front of `bytes` returns: the value as a
/// signed 64-bit integer and the count of bytes consumed, or the error.
pub open spec fn spec_decode_varint(bytes: Seq<u8>) -> Result<(i64, int), Error> {
    if bytes.len() == 0 {
        Err(Error::MalformedVarint)
    } else {
        match spec_varint_from(bytes, 0, 0) {
            Ok((v, n)) => Ok((v as i64, n)),
            Err(e) => Err(e),
        }
    }
}

/// Whether `v` has an encoding of at most 9 bytes: every value below `2^56`
/// has one of at most 8 bytes, and a wider value needs a 9th byte, which
/// carries the low 8 bits and so must have bit 7 clear.
pub open spec fn varint_encodable(v: i64) -> bool {
    (v as u64) < 0x100_0000_0000_0000 || (v as u64) & 0x80 == 0
}

/// Decodes a varint from the front of `bytes`, reading at most 9 bytes.
///
/// Returns the decoded value and the count of bytes consumed.  Fails with
/// `MalformedVarint` if `bytes` is empty or a 9th byte has its high bit set.
pub fn decode_varint(bytes: &[u8]) -> (r: Result<(i64, usize), Error>)
    ensures
        match (r, spec_decode_varint(bytes@)) {
            (Ok((v, n)), Ok((sv, sn))) => v == sv && n as int == sn && 1 <= n <= 9,
            (Err(e), Err(se)) => e == se,
            _ => false,
        },
{
    let r = decode_varint_at(bytes, 0);
    proof {
        assert(bytes@.skip(0) =~= bytes@);
    }
    r
}

/// Decodes a varint that starts at byte `start` of `bytes`; the result is
/// exactly that of decoding the suffix beginning there.
pub fn decode_varint_at(bytes: &[u8], start: usize) -> (r: Result<(i64, usize), Error>)
    requires
        start <= bytes@.len(),
    ensures
        match (r, spec_decode_varint(bytes@.skip(start as int))) {
            (Ok((v, n)), Ok((sv, sn))) => v == sv && n as int == sn && 1 <= n <= 9,
            (Err(e), Err(se)) => e == se,
            _ => false,
        },
{
    let ghost suffix: Seq<u8> = bytes@.skip(start as int);
    if start >= bytes.len() {
        return Err(Error::MalformedVarint);
    }
    let mut acc: u64 = 0;
    let mut i: usize = 0;
    loop
        invariant
            suffix == bytes@.skip(start as int),
            suffix.len() > 0,
            i <= 8,
            bytes@.len() <= usize::MAX,
            start + i <= bytes@.len(),
            i <= suffix.len(),
            spec_varint_from(suffix, 0, 0) == spec_varint_from(suffix, i as int, acc),
        decreases 8 - i,
    {
        if start + i >= bytes.len() {
            return Ok((acc as i64, i));
        }
        if i == 8 {
            let last = bytes[start + 8];
            proof {
                assert(suffix[8] == bytes@[start + 8]);
            }
            if last & 0x80 != 0 {
                return Err(Error::MalformedVarint);
            }
            let v: u64 = (acc << 8) | (last as u64);
            return Ok((v as i64, 9));
        }
        let b = bytes[start + i];
        proof {
            assert(suffix[i as int] == bytes@[start + i]);
        }
        acc = (acc << 7) | ((b & 0x7f) as u64);
        if b & 0x80 == 0 {
            return Ok((acc as i64, i + 1));
        }
        i = i + 1;
    }
}

/// Encodes `v` as a varint, using the fewest bytes that will hold it.
///
/// Round trip: decoding the returned bytes yields `v` back and consumes the
/// whole encoding.  A single byte covers exactly the values 0 through 127.
pub fn encode_varint(v: i64) -> (r: Vec<u8>)
    requires
        varint_encodable(v),
    ensures
        spec_decode_varint(r@) == Ok::<(i64, int), Error>((v, r@.len() as int)),
        1 <= r@.len() <= 9,
        r@.len() == 1 <==> 0 <= v <= 127,
{
    let u: u64 = v as u64;
    proof {
        assert((v as u64) as i64 == v) by (bit_vector);
        assert(u < 0x80 <==> 0 <= v <= 127) by (bit_vector)
            requires
                u == v as u64,
        ;
    }
    if u < 0x80 {
        let b0: u8 = (u & 0x7f) as u8;
        let mut r: Vec<u8> = Vec::new();
        r.push(b0);
        proof {
            assert(r@ =~= seq![b0]);
            let a0: u64 = (0u64 << 7) | ((b0 & 0x7f) as u64);
            assert(b0 & 0x80 == 0 && a0 == u) by (bit_vector)
                requires
                    b0 == (u & 0x7f) as u8,
                    a0 == (0u64 << 7) | ((b0 & 0x7f) as u64),
                    u < 0x80,
            ;
            reveal_with_fuel(spec_varint_from, 10);
            assert(spec_varint_from(r@, 0, 0) == Ok::<(u64, int), Error>((a0, 1)));
        }
        r
    } else if u < 0x4000 {
        let b0: u8 = (0x80 | (u >> 7)) as u8;
        let b1: u8 = (u & 0x7f) as u8;
        let mut r: Vec<u8> = Vec::new();
        r.push(b0);
        r.push(b1);
        proof {
            assert(r@ =~= seq![b0, b1]);
            let a0: u64 = (0u64 << 7) | ((b0 & 0x7f) as u64);
            let a1: u64 = (a0 << 7) | ((b1 & 0x7f) as u64);
            assert(b0 & 0x80 != 0 && b1 & 0x80 == 0 && a1 == u) by (bit_vector)
                requires
                    b0 == (0x80 | (u >> 7)) as u8,
                    b1 == (u & 0x7f) as u8,
                    a0 == (0u64 << 7) | ((b0 & 0x7f) as u64),
                    a1 == (a0 << 7) | ((b1 & 0x7f) as u64),
                    u < 0x4000,
                    u >= 0x80,
            ;
            reveal_with_fuel(spec_varint_from, 10);
            assert(spec_varint_from(r@, 0, 0) == Ok::<(u64, int), Error>((a1, 2)));
        }
        r
    } else if u < 0x20_0000 {
        let b0: u8 = (0x80 | (u >> 14)) as u8;
        let b1: u8 = (0x80 | ((u >> 7) & 0x7f)) as u8;
        let b2: u8 = (u & 0x7f) as u8;
        let mut r: Vec<u8> = Vec::new();
        r.push(b0);
        r.push(b1);
        r.push(b2);
        proof {
            assert(r@ =~= seq![b0, b1, b2]);
            let a0: u64 = (0u64 << 7) | ((b0 & 0x7f) as u64);
            let a1: u64 = (a0 << 7) | ((b1 & 0x7f) as u64);
            let a2: u64 = (a1 << 7) | ((b2 & 0x7f) as u64);
            assert(b0 & 0x80 != 0 && b1 & 0x80 != 0 && b2 & 0x80 == 0 && a2 == u) by (bit_vector)
                requires
                    b0 == (0x80 | (u >> 14)) as u8,
                    b1 == (0x80 | ((u >> 7) & 0x7f)) as u8,
                    b2 == (u & 0x7f) as u8,
                    a0 == (0u64 << 7) | ((b0 & 0x7f) as u64),
                    a1 == (a0 << 7) | ((b1 & 0x7f) as u64),
                    a2 == (a1 << 7) | ((b2 & 0x7f) as u64),
                    u < 0x20_0000,
                    u >= 0x4000,
            ;
            reveal_with_fuel(spec_varint_from, 10);
            assert(spec_varint_from(r@, 0, 0) == Ok::<(u64, int), Error>((a2, 3)));
        }
        r
    } else if u < 0x1000_0000 {
        let b0: u8 = (0x80 | (u >> 21)) as u8;
        let b1: u8 = (0x80 | ((u >> 14) & 0x7f)) as u8;
        let b2: u8 = (0x80 | ((u >> 7) & 0x7f)) as u8;
        let b3: u8 = (u & 0x7f) as u8;
        let mut r: Vec<u8> = Vec::new();
        r.push(b0);
        r.push(b1);
        r.push(b2);
        r.push(b3);
        proof {
            assert(r@ =~= seq![b0, b1, b2, b3]);
            let a0: u64 = (0u64 << 7) | ((b0 & 0x7f) as u64);
            let a1: u64 = (a0 << 7) | ((b1 & 0x7f) as u64);
            let a2: u64 = (a1 << 7) | ((b2 & 0x7f) as u64);
            let a3: u64 = (a2 << 7) | ((b3 & 0x7f) as u64);
            assert(b0 & 0x80 != 0 && b1 & 0x80 != 0 && b2 & 0x80 != 0 && b3 & 0x80 == 0 && a3 == u) by (bit_vector)
                requires
                    b0 == (0x80 | (u >> 21)) as u8,
                    b1 == (0x80 | ((u >> 14) & 0x7f)) as u8,
                    b2 == (0x80 | ((u >> 7) & 0x7f)) as u8,
                    b3 == (u & 0x7f) as u8,
                    a0 == (0u64 << 7) | ((b0 & 0x7f) as u64),
                    a1 == (a0 << 7) | ((b1 & 0x7f) as u64),
                    a2 == (a1 << 7) | ((b2 & 0x7f) as u64),
                    a3 == (a2 << 7) | ((b3 & 0x7f) as u64),
                    u < 0x1000_0000,
                    u >= 0x20_0000,
            ;
            reveal_with_fuel(spec_varint_from, 10);
            assert(spec_varint_from(r@, 0, 0) == Ok::<(u64, int), Error>((a3, 4)));
        }
        r
    } else if u < 0x8_0000_0000 {
        let b0: u8 = (0x80 | (u >> 28)) as u8;
        let b1: u8 = (0x80 | ((u >> 21) & 0x7f)) as u8;
        let b2: u8 = (0x80 | ((u >> 14) & 0x7f)) as u8;
        let b3: u8 = (0x80 | ((u >> 7) & 0x7f)) as u8;
        let b4: u8 = (u & 0x7f) as u8;
        let mut r: Vec<u8> = Vec::new();
        r.push(b0);
        r.push(b1);
        r.push(b2);
        r.push(b3);
        r.push(b4);
        proof {
            assert(r@ =~= seq![b0, b1, b2, b3, b4]);
            let a0: u64 = (0u64 << 7) | ((b0 & 0x7f) as u64);
            let a1: u64 = (a0 << 7) | ((b1 & 0x7f) as u64);
            let a2: u64 = (a1 << 7) | ((b2 & 0x7f) as u64);
            let a3: u64 = (a2 << 7) | ((b3 & 0x7f) as u64);
            let a4: u64 = (a3 << 7) | ((b4 & 0x7f) as u64);
            assert(b0 & 0x80 != 0 && b1 & 0x80 != 0 && b2 & 0x80 != 0 && b3 & 0x80 != 0 && b4 & 0x80 == 0 && a4 == u) by (bit_vector)
                requires
                    b0 == (0x80 | (u >> 28)) as u8,
                    b1 == (0x80 | ((u >> 21) & 0x7f)) as u8,
                    b2 == (0x80 | ((u >> 14) & 0x7f)) as u8,
                    b3 == (0x80 | ((u >> 7) & 0x7f)) as u8,
                    b4 == (u & 0x7f) as u8,
                    a0 == (0u64 << 7) | ((b0 & 0x7f) as u64),
                    a1 == (a0 << 7) | ((b1 & 0x7f) as u64),
                    a2 == (a1 << 7) | ((b2 & 0x7f) as u64),
                    a3 == (a2 << 7) | ((b3 & 0x7f) as u64),
                    a4 == (a3 << 7) | ((b4 & 0x7f) as u64),
                    u < 0x8_0000_0000,
                    u >= 0x1000_0000,
            ;
            reveal_with_fuel(spec_varint_from, 10);
            assert(spec_varint_from(r@, 0, 0) == Ok::<(u64, int), Error>((a4, 5)));
        }
        r
    } else if u < 0x400_0000_0000 {
        let b0: u8 = (0x80 | (u >> 35)) as u8;
        let b1: u8 = (0x80 | ((u >> 28) & 0x7f)) as u8;
        let b2: u8 = (0x80 | ((u >> 21) & 0x7f)) as u8;
        let b3: u8 = (0x80 | ((u >> 14) & 0x7f)) as u8;
        let b4: u8 = (0x80 | ((u >> 7) & 0x7f)) as u8;
        let b5: u8 = (u & 0x7f) as u8;
        let mut r: Vec<u8> = Vec::new();
        r.push(b0);
        r.push(b1);
        r.push(b2);
        r.push(b3);
        r.push(b4);
        r.push(b5);
        proof {
            assert(r@ =~= seq![b0, b1, b2, b3, b4, b5]);
            let a0: u64 = (0u64 << 7) | ((b0 & 0x7f) as u64);
            let a1: u64 = (a0 << 7) | ((b1 & 0x7f) as u64);
            let a2: u64 = (a1 << 7) | ((b2 & 0x7f) as u64);
            let a3: u64 = (a2 << 7) | ((b3 & 0x7f) as u64);
            let a4: u64 = (a3 << 7) | ((b4 & 0x7f) as u64);
            let a5: u64 = (a4 << 7) | ((b5 & 0x7f) as u64);
            assert(b0 & 0x80 != 0 && b1 & 0x80 != 0 && b2 & 0x80 != 0 && b3 & 0x80 != 0 && b4 & 0x80 != 0 && b5 & 0x80 == 0 && a5 == u) by (bit_vector)
                requires
                    b0 == (0x80 | (u >> 35)) as u8,
                    b1 == (0x80 | ((u >> 28) & 0x7f)) as u8,
                    b2 == (0x80 | ((u >> 21) & 0x7f)) as u8,
                    b3 == (0x80 | ((u >> 14) & 0x7f)) as u8,
                    b4 == (0x80 | ((u >> 7) & 0x7f)) as u8,
                    b5 == (u & 0x7f) as u8,
                    a0 == (0u64 << 7) | ((b0 & 0x7f) as u64),
                    a1 == (a0 << 7) | ((b1 & 0x7f) as u64),
                    a2 == (a1 << 7) | ((b2 & 0x7f) as u64),
                    a3 == (a2 << 7) | ((b3 & 0x7f) as u64),
                    a4 == (a3 << 7) | ((b4 & 0x7f) as u64),
                    a5 == (a4 << 7) | ((b5 & 0x7f) as u64),
                    u < 0x400_0000_0000,
                    u >= 0x8_0000_0000,
            ;
            reveal_with_fuel(spec_varint_from, 10);
            assert(spec_varint_from(r@, 0, 0) == Ok::<(u64, int), Error>((a5, 6)));
        }
        r
    } else if u < 0x2_0000_0000_0000 {
        let b0: u8 = (0x80 | (u >> 42)) as u8;
        let b1: u8 = (0x80 | ((u >> 35) & 0x7f)) as u8;
        let b2: u8 = (0x80 | ((u >> 28) & 0x7f)) as u8;
        let b3: u8 = (0x80 | ((u >> 21) & 0x7f)) as u8;
        let b4: u8 = (0x80 | ((u >> 14) & 0x7f)) as u8;
        let b5: u8 = (0x80 | ((u >> 7) & 0x7f)) as u8;
        let b6: u8 = (u & 0x7f) as u8;
        let mut r: Vec<u8> = Vec::new();
        r.push(b0);
        r.push(b1);
        r.push(b2);
        r.push(b3);
        r.push(b4);
        r.push(b5);
        r.push(b6);
        proof {
            assert(r@ =~= seq![b0, b1, b2, b3, b4, b5, b6]);
            let a0: u64 = (0u64 << 7) | ((b0 & 0x7f) as u64);
            let a1: u64 = (a0 << 7) | ((b1 & 0x7f) as u64);
            let a2: u64 = (a1 << 7) | ((b2 & 0x7f) as u64);
            let a3: u64 = (a2 << 7) | ((b3 & 0x7f) as u64);
            let a4: u64 = (a3 << 7) | ((b4 & 0x7f) as u64);
            let a5: u64 = (a4 << 7) | ((b5 & 0x7f) as u64);
            let a6: u64 = (a5 << 7) | ((b6 & 0x7f) as u64);
            assert(b0 & 0x80 != 0 && b1 & 0x80 != 0 && b2 & 0x80 != 0 && b3 & 0x80 != 0 && b4 & 0x80 != 0 && b5 & 0x80 != 0 && b6 & 0x80 == 0 && a6 == u) by (bit_vector)
                requires
                    b0 == (0x80 | (u >> 42)) as u8,
                    b1 == (0x80 | ((u >> 35) & 0x7f)) as u8,
                    b2 == (0x80 | ((u >> 28) & 0x7f)) as u8,
                    b3 == (0x80 | ((u >> 21) & 0x7f)) as u8,
                    b4 == (0x80 | ((u >> 14) & 0x7f)) as u8,
                    b5 == (0x80 | ((u >> 7) & 0x7f)) as u8,
                    b6 == (u & 0x7f) as u8,
                    a0 == (0u64 << 7) | ((b0 & 0x7f) as u64),
                    a1 == (a0 << 7) | ((b1 & 0x7f) as u64),
                    a2 == (a1 << 7) | ((b2 & 0x7f) as u64),
                    a3 == (a2 << 7) | ((b3 & 0x7f) as u64),
                    a4 == (a3 << 7) | ((b4 & 0x7f) as u64),
                    a5 == (a4 << 7) | ((b5 & 0x7f) as u64),
                    a6 == (a5 << 7) | ((b6 & 0x7f) as u64),
                    u < 0x2_0000_0000_0000,
                    u >= 0x400_0000_0000,
            ;
            reveal_with_fuel(spec_varint_from, 10);
            assert(spec_varint_from(r@, 0, 0) == Ok::<(u64, int), Error>((a6, 7)));
        }
        r
    } else if u < 0x100_0000_0000_0000 {
        let b0: u8 = (0x80 | (u >> 49)) as u8;
        let b1: u8 = (0x80 | ((u >> 42) & 0x7f)) as u8;
        let b2: u8 = (0x80 | ((u >> 35) & 0x7f)) as u8;
        let b3: u8 = (0x80 | ((u >> 28) & 0x7f)) as u8;
        let b4: u8 = (0x80 | ((u >> 21) & 0x7f)) as u8;
        let b5: u8 = (0x80 | ((u >> 14) & 0x7f)) as u8;
        let b6: u8 = (0x80 | ((u >> 7) & 0x7f)) as u8;
        let b7: u8 = (u & 0x7f) as u8;
        let mut r: Vec<u8> = Vec::new();
        r.push(b0);
        r.push(b1);
        r.push(b2);
        r.push(b3);
        r.push(b4);
        r.push(b5);
        r.push(b6);
        r.push(b7);
        proof {
            assert(r@ =~= seq![b0, b1, b2, b3, b4, b5, b6, b7]);
            let a0: u64 = (0u64 << 7) | ((b0 & 0x7f) as u64);
            let a1: u64 = (a0 << 7) | ((b1 & 0x7f) as u64);
            let a2: u64 = (a1 << 7) | ((b2 & 0x7f) as u64);
            let a3: u64 = (a2 << 7) | ((b3 & 0x7f) as u64);
            let a4: u64 = (a3 << 7) | ((b4 & 0x7f) as u64);
            let a5: u64 = (a4 << 7) | ((b5 & 0x7f) as u64);
            let a6: u64 = (a5 << 7) | ((b6 & 0x7f) as u64);
            let a7: u64 = (a6 << 7) | ((b7 & 0x7f) as u64);
            assert(b0 & 0x80 != 0 && b1 & 0x80 != 0 && b2 & 0x80 != 0 && b3 & 0x80 != 0 && b4 & 0x80 != 0 && b5 & 0x80 != 0 && b6 & 0x80 != 0 && b7 & 0x80 == 0 && a7 == u) by (bit_vector)
                requires
                    b0 == (0x80 | (u >> 49)) as u8,
                    b1 == (0x80 | ((u >> 42) & 0x7f)) as u8,
                    b2 == (0x80 | ((u >> 35) & 0x7f)) as u8,
                    b3 == (0x80 | ((u >> 28) & 0x7f)) as u8,
                    b4 == (0x80 | ((u >> 21) & 0x7f)) as u8,
                    b5 == (0x80 | ((u >> 14) & 0x7f)) as u8,
                    b6 == (0x80 | ((u >> 7) & 0x7f)) as u8,
                    b7 == (u & 0x7f) as u8,
                    a0 == (0u64 << 7) | ((b0 & 0x7f) as u64),
                    a1 == (a0 << 7) | ((b1 & 0x7f) as u64),
                    a2 == (a1 << 7) | ((b2 & 0x7f) as u64),
                    a3 == (a2 << 7) | ((b3 & 0x7f) as u64),
                    a4 == (a3 << 7) | ((b4 & 0x7f) as u64),
                    a5 == (a4 << 7) | ((b5 & 0x7f) as u64),
                    a6 == (a5 << 7) | ((b6 & 0x7f) as u64),
                    a7 == (a6 << 7) | ((b7 & 0x7f) as u64),
                    u < 0x100_0000_0000_0000,
                    u >= 0x2_0000_0000_0000,
            ;
            reveal_with_fuel(spec_varint_from, 10);
            assert(spec_varint_from(r@, 0, 0) == Ok::<(u64, int), Error>((a7, 8)));
        }
        r
    } else {
        let b0: u8 = (0x80 | (u >> 57)) as u8;
        let b1: u8 = (0x80 | ((u >> 50) & 0x7f)) as u8;
        let b2: u8 = (0x80 | ((u >> 43) & 0x7f)) as u8;
        let b3: u8 = (0x80 | ((u >> 36) & 0x7f)) as u8;
        let b4: u8 = (0x80 | ((u >> 29) & 0x7f)) as u8;
        let b5: u8 = (0x80 | ((u >> 22) & 0x7f)) as u8;
        let b6: u8 = (0x80 | ((u >> 15) & 0x7f)) as u8;
        let b7: u8 = (0x80 | ((u >> 8) & 0x7f)) as u8;
        let b8: u8 = u as u8;
        let mut r: Vec<u8> = Vec::new();
        r.push(b0);
        r.push(b1);
        r.push(b2);
        r.push(b3);
        r.push(b4);
        r.push(b5);
        r.push(b6);
        r.push(b7);
        r.push(b8);
        proof {
            assert(r@ =~= seq![b0, b1, b2, b3, b4, b5, b6, b7, b8]);
            let a0: u64 = (0u64 << 7) | ((b0 & 0x7f) as u64);
            let a1: u64 = (a0 << 7) | ((b1 & 0x7f) as u64);
            let a2: u64 = (a1 << 7) | ((b2 & 0x7f) as u64);
            let a3: u64 = (a2 << 7) | ((b3 & 0x7f) as u64);
            let a4: u64 = (a3 << 7) | ((b4 & 0x7f) as u64);
            let a5: u64 = (a4 << 7) | ((b5 & 0x7f) as u64);
            let a6: u64 = (a5 << 7) | ((b6 & 0x7f) as u64);
            let a7: u64 = (a6 << 7) | ((b7 & 0x7f) as u64);
            let a8: u64 = (a7 << 8) | (b8 as u64);
            assert(b0 & 0x80 != 0 && b1 & 0x80 != 0 && b2 & 0x80 != 0 && b3 & 0x80 != 0 && b4 & 0x80 != 0 && b5 & 0x80 != 0 && b6 & 0x80 != 0 && b7 & 0x80 != 0 && b8 & 0x80 == 0 && a8 == u) by (bit_vector)
                requires
                    b0 == (0x80 | (u >> 57)) as u8,
                    b1 == (0x80 | ((u >> 50) & 0x7f)) as u8,
                    b2 == (0x80 | ((u >> 43) & 0x7f)) as u8,
                    b3 == (0x80 | ((u >> 36) & 0x7f)) as u8,
                    b4 == (0x80 | ((u >> 29) & 0x7f)) as u8,
                    b5 == (0x80 | ((u >> 22) & 0x7f)) as u8,
                    b6 == (0x80 | ((u >> 15) & 0x7f)) as u8,
                    b7 == (0x80 | ((u >> 8) & 0x7f)) as u8,
                    b8 == u as u8,
                    a0 == (0u64 << 7) | ((b0 & 0x7f) as u64),
                    a1 == (a0 << 7) | ((b1 & 0x7f) as u64),
                    a2 == (a1 << 7) | ((b2 & 0x7f) as u64),
                    a3 == (a2 << 7) | ((b3 & 0x7f) as u64),
                    a4 == (a3 << 7) | ((b4 & 0x7f) as u64),
                    a5 == (a4 << 7) | ((b5 & 0x7f) as u64),
                    a6 == (a5 << 7) | ((b6 & 0x7f) as u64),
                    a7 == (a6 << 7) | ((b7 & 0x7f) as u64),
                    a8 == (a7 << 8) | (b8 as u64),
                    u >= 0x100_0000_0000_0000,
                    u & 0x80 == 0,
            ;
            reveal_with_fuel(spec_varint_from, 10);
            assert(spec_varint_from(r@, 0, 0) == Ok::<(u64, int), Error>((a8, 9)));
        }
        r
    }
}

/// A successful varint decode never consumes more bytes than the slice has.
proof fn lemma_varint_from_consumed(bytes: Seq<u8>, i: int, acc: u64)
    requires
        0 <= i <= bytes.len(),
        i <= 9,
    ensures
        match spec_varint_from(bytes, i, acc) {
            Ok((v, n)) => i <= n <= 9 && n <= bytes.len() && (i < bytes.len() && i < 9 ==> n >= i
                + 1),
            Err(_) => true,
        },
    decreases 9 - i,
{
    if i >= 9 || i >= bytes.len() || i == 8 {
    } else {
        let next = (acc << 7) | ((bytes[i] & 0x7f) as u64);
        if bytes[i] & 0x80 != 0 {
            lemma_varint_from_consumed(bytes, i + 1, next);
        }
    }
}

/// A successful varint decode consumes between 1 and 9 bytes and never more
/// than the slice has.
pub proof fn lemma_varint_consumed(bytes: Seq<u8>)
    ensures
        match spec_decode_varint(bytes) {
            Ok((v, n)) => 1 <= n <= 9 && n <= bytes.len(),
            Err(_) => true,
        },
{
    if bytes.len() > 0 {
        lemma_varint_from_consumed(bytes, 0, 0);
    }
}

/// A single byte without the continuation bit decodes to its own value:
/// one-byte encodings cover exactly the values 0 through 127.
pub proof fn lemma_single_byte_decodes(b: u8)
    requires
        b & 0x80 == 0,
    ensures
        spec_decode_varint(seq![b]) == Ok::<(i64, int), Error>((b as i64, 1)),
        0 <= b as i64 <= 127,
{
    reveal_with_fuel(spec_varint_from, 3);
    assert(seq![b][0] == b);
    assert((((0u64 << 7) | ((b & 0x7f) as u64)) as i64) == b as i64 && b <= 127) by (bit_vector)
        requires
            b & 0x80 == 0,
    ;
}

/// A varint whose first eight bytes all carry the continuation bit and whose
/// ninth byte carries it too cannot be decoded.
pub proof fn lemma_ninth_byte_continuation_fails(bytes: Seq<u8>)
    requires
        bytes.len() >= 9,
        forall|i: int| 0 <= i < 8 ==> (#[trigger] bytes[i]) & 0x80 != 0,
        bytes[8] & 0x80 != 0,
    ensures
        spec_decode_varint(bytes) == Err::<(i64, int), Error>(Error::MalformedVarint),
{
    reveal_with_fuel(spec_varint_from, 10);
}

} // verus!
