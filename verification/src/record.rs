//! The record decoder.
//!
//! A record is a self-describing row: a header made of one varint giving the
//! total header length (itself included) and one varint per column giving its
//! serial type, followed by a body that concatenates the column values in the
//! same order.

use vstd::prelude::*;

use crate::column::{
    be_uint,
    lemma_be_uint_bound,
    read_be_signed,
    read_be_uint,
    spec_column_value,
    spec_int_value,
    spec_serial_len,
    spec_serial_type,
    Column,
    SerialType,
    SerialValue,
    ValueView,
};
use crate::error::Error;
use crate::{decode_varint, decode_varint_at, spec_decode_varint};

verus! {

/// The serial types declared between offsets `idx` and `hlen` of a record's
/// header, one varint each.
pub open spec fn spec_header_types(payload: Seq<u8>, idx: int, hlen: int) -> Result<
    Seq<SerialType>,
    Error,
>
    decreases (if idx <= hlen { hlen - idx } else { 0 }),
{
    if idx >= hlen {
        Ok(Seq::empty())
    } else if idx > payload.len() {
        Err(Error::MalformedVarint)
    } else {
        match spec_decode_varint(payload.skip(idx)) {
            Err(e) => Err(e),
            Ok((code, n)) => if n < 1 {
                Err(Error::MalformedVarint)
            } else {
                match spec_serial_type(code as int) {
                    Err(e) => Err(e),
                    Ok(t) => match spec_header_types(payload, idx + n, hlen) {
                        Err(e) => Err(e),
                        Ok(rest) => Ok(seq![t] + rest),
                    },
                }
            },
        }
    }
}

/// The typed columns for the given serial types, reading each value's bytes
/// from the record body starting at `bidx`.
pub open spec fn spec_columns(payload: Seq<u8>, types: Seq<SerialType>, bidx: int) -> Result<
    Seq<(SerialType, ValueView)>,
    Error,
>
    decreases types.len(),
{
    if types.len() == 0 {
        Ok(Seq::empty())
    } else {
        let t = types[0];
        let n = spec_serial_len(t) as int;
        if bidx + n > payload.len() {
            Err(Error::TruncatedRecord)
        } else {
            match spec_columns(payload, types.skip(1), bidx + n) {
                Err(e) => Err(e),
                Ok(rest) => Ok(seq![(t, spec_column_value(t, payload.subrange(bidx, bidx + n)))]
                    + rest),
            }
        }
    }
}

/// What decoding a whole record from `payload` yields: its columns with their
/// serial types, or the first error.  The body is taken to start where the
/// declared header length says the header ends.
pub open spec fn spec_record_decode(payload: Seq<u8>) -> Result<
    Seq<(SerialType, ValueView)>,
    Error,
> {
    match spec_decode_varint(payload) {
        Err(e) => Err(e),
        Ok((h, n0)) => if h < n0 {
            Err(Error::TruncatedRecord)
        } else {
            match spec_header_types(payload, n0, h as int) {
                Err(e) => Err(e),
                Ok(types) => spec_columns(payload, types, h as int),
            }
        },
    }
}

/// A decoded record: its columns in declared order.
#[derive(Debug, Clone, PartialEq, Eq)]
pub struct Record {
    pub columns: Vec<Column>,
}

impl View for Record {
    type V = Seq<(SerialType, ValueView)>;

    open spec fn view(&self) -> Seq<(SerialType, ValueView)> {
        self.columns@.map_values(|c: Column| c@)
    }
}

/// Copies `n` bytes starting at `start` out of `bytes`.
pub(crate) fn copy_range(bytes: &[u8], start: usize, n: usize) -> (r: Vec<u8>)
    requires
        start + n <= bytes@.len(),
    ensures
        r@ == bytes@.subrange(start as int, start + n),
{
    let mut r: Vec<u8> = Vec::new();
    let mut i: usize = 0;
    proof {
        vstd::slice::axiom_spec_len(bytes);
        assert(r@ =~= bytes@.subrange(start as int, start as int));
    }
    while i < n
        invariant
            bytes@.len() <= usize::MAX,
            start + n <= bytes@.len(),
            i <= n,
            r@ == bytes@.subrange(start as int, start + i),
        decreases n - i,
    {
        r.push(bytes[start + i]);
        proof {
            assert(r@ =~= bytes@.subrange(start as int, start + i + 1));
        }
        i = i + 1;
    }
    proof {
        assert(r@ =~= bytes@.subrange(start as int, start + n));
    }
    r
}

/// Decodes the column value of type `t` whose bytes start at `start`.
fn read_column_value(payload: &[u8], start: usize, t: SerialType) -> (r: SerialValue)
    requires
        start + spec_serial_len(t) <= payload@.len(),
    ensures
        r@ == spec_column_value(t, payload@.subrange(start as int, start + spec_serial_len(t))),
{
    let n = t.length();
    let ghost body = payload@.subrange(start as int, start + n);
    match t {
        SerialType::Null => SerialValue::Null,
        SerialType::Zero => SerialValue::Integer(0),
        SerialType::One => SerialValue::Integer(1),
        SerialType::Float64 => {
            let bits = read_be_uint(payload, start, 8);
            proof {
                lemma_be_uint_bound(body);
                crate::column::lemma_pow256_values();
                assert((be_uint(body) as u64) as nat == be_uint(body));
            }
            SerialValue::Float64(bits)
        },
        SerialType::Blob(_) => SerialValue::Blob(copy_range(payload, start, n)),
        SerialType::Text(_) => SerialValue::Text(copy_range(payload, start, n)),
        _ => {
            let v = read_be_signed(payload, start, n);
            proof {
                assert((spec_int_value(body) as i64) as int == spec_int_value(body));
            }
            SerialValue::Integer(v)
        },
    }
}

impl Record {
    /// Decodes a record from `payload`: the header-length varint, the
    /// serial-type varints up to that length, then each column's value bytes
    /// in order.  Fails with `TruncatedRecord` when the body is shorter than
    /// the header declares, `InvalidSerialType` on an unknown code, and
    /// `MalformedVarint` when a header varint is broken.
    #[verifier::loop_isolation(false)]
    pub fn new(payload: &[u8]) -> (r: Result<Record, Error>)
        ensures
            match (r, spec_record_decode(payload@)) {
                (Ok(rec), Ok(cols)) => rec@ == cols,
                (Err(e), Err(se)) => e == se,
                _ => false,
            },
    {
        let len: usize = payload.len();
        let (h, n0) = match decode_varint(payload) {
            Ok(x) => x,
            Err(e) => { return Err(e) },
        };
        if h < n0 as i64 {
            return Err(Error::TruncatedRecord);
        }
        let hu: u64 = h as u64;
        proof {
            assert(hu as int == h as int);
        }
        // Phase 1: collect the serial types declared by the header.
        let mut idx: u64 = n0 as u64;
        let mut types: Vec<SerialType> = Vec::new();
        while idx < hu
            invariant
                payload@.len() == len,
                hu as int == h as int,
                n0 <= hu,
                spec_header_types(payload@, n0 as int, h as int) == match spec_header_types(
                    payload@,
                    idx as int,
                    h as int,
                ) {
                    Ok(rest) => Ok(types@ + rest),
                    Err(e) => Err::<Seq<SerialType>, Error>(e),
                },
            decreases (if idx <= hu { hu - idx } else { 0 }),
        {
            if idx > len as u64 {
                return Err(Error::MalformedVarint);
            }
            let (code, dn) = match decode_varint_at(payload, idx as usize) {
                Ok(x) => x,
                Err(e) => { return Err(e) },
            };
            let t = match SerialType::read(code) {
                Ok(t) => t,
                Err(e) => { return Err(e) },
            };
            proof {
                let rest0 = spec_header_types(payload@, idx as int, h as int);
                let rest1 = spec_header_types(payload@, idx + dn, h as int);
                assert(rest0 == match rest1 {
                    Ok(r1) => Ok(seq![t] + r1),
                    Err(e) => Err::<Seq<SerialType>, Error>(e),
                });
                assert(match rest1 {
                    Ok(r1) => (types@ + (seq![t] + r1)) =~= ((types@.push(t)) + r1),
                    Err(_) => true,
                });
            }
            types.push(t);
            idx = idx + dn as u64;
        }
        // Phase 2: decode each column's bytes from the body.
        let ghost tys = types@;
        let mut columns: Vec<Column> = Vec::new();
        let mut bidx: u64 = hu;
        let mut i: usize = 0;
        proof {
            assert(spec_header_types(payload@, idx as int, h as int) == Ok::<
                Seq<SerialType>,
                Error,
            >(Seq::empty()));
            assert(types@ + Seq::<SerialType>::empty() =~= types@);
            assert(tys.skip(0) =~= tys);
        }
        while i < types.len()
            invariant
                payload@.len() == len,
                types@ == tys,
                i <= tys.len(),
                spec_header_types(payload@, n0 as int, h as int) == Ok::<Seq<SerialType>, Error>(
                    tys,
                ),
                spec_columns(payload@, tys, h as int) == match spec_columns(
                    payload@,
                    tys.skip(i as int),
                    bidx as int,
                ) {
                    Ok(rest) => Ok(columns@.map_values(|c: Column| c@) + rest),
                    Err(e) => Err::<Seq<(SerialType, ValueView)>, Error>(e),
                },
            decreases tys.len() - i,
        {
            let t = types[i];
            let n = t.length();
            proof {
                assert(tys.skip(i as int)[0] == tys[i as int]);
            }
            if bidx > len as u64 || (n as u64) > (len as u64) - bidx {
                return Err(Error::TruncatedRecord);
            }
            let b: usize = bidx as usize;
            let val = read_column_value(payload, b, t);
            proof {
                let rest1 = spec_columns(payload@, tys.skip(i + 1), bidx + n);
                assert(tys.skip(i as int).skip(1) =~= tys.skip(i + 1));
                let cell = (t, spec_column_value(
                    t,
                    payload@.subrange(bidx as int, bidx + spec_serial_len(t)),
                ));
                assert(spec_columns(payload@, tys.skip(i as int), bidx as int) == match rest1 {
                    Ok(r1) => Ok(seq![cell] + r1),
                    Err(e) => Err::<Seq<(SerialType, ValueView)>, Error>(e),
                });
                let mapped = columns@.map_values(|c: Column| c@);
                assert(match rest1 {
                    Ok(r1) => (mapped + (seq![cell] + r1)) =~= ((columns@.push(
                        Column { key: t, data: val },
                    )).map_values(|c: Column| c@) + r1),
                    Err(_) => true,
                });
            }
            columns.push(Column { key: t, data: val });
            bidx = bidx + n as u64;
            i = i + 1;
        }
        proof {
            assert(tys.skip(tys.len() as int) =~= Seq::<SerialType>::empty());
            assert(spec_columns(payload@, tys.skip(tys.len() as int), bidx as int) == Ok::<
                Seq<(SerialType, ValueView)>,
                Error,
            >(Seq::empty()));
            assert(columns@.map_values(|c: Column| c@) + Seq::<(SerialType, ValueView)>::empty()
                =~= columns@.map_values(|c: Column| c@));
        }
        Ok(Record { columns })
    }
}

} // verus!
