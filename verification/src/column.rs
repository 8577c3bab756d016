//! Serial types and typed column values.
//!
//! A record header describes each column with a small integer "serial type"
//! code; the record body then stores that column's bytes.  This module maps
//! codes to types, types to byte widths, and bytes to typed values.

use vstd::prelude::*;

use crate::error::Error;

verus! {

/// The storage class of one column, as declared by its serial-type code:
/// 0 is null, 1 through 6 are signed big-endian integers of 1/2/3/4/6/8
/// bytes, 7 is an IEEE 754 double, 8 and 9 are the literals 0 and 1, even
/// codes from 12 up are blobs of `(code - 12) / 2` bytes, and odd codes from
/// 13 up are UTF-8 text of `(code - 13) / 2` bytes.
#[derive(Debug, Clone, Copy, PartialEq, Eq, Structural)]
pub enum SerialType {
    Null,
    I8,
    I16,
    I24,
    I32,
    I48,
    I64,
    Float64,
    Zero,
    One,
    Blob(usize),
    Text(usize),
}

/// The serial type that a code denotes, or `InvalidSerialType` for the
/// reserved codes 10 and 11 and every negative code.
pub open spec fn spec_serial_type(code: int) -> Result<SerialType, Error> {
    if code == 0 {
        Ok(SerialType::Null)
    } else if code == 1 {
        Ok(SerialType::I8)
    } else if code == 2 {
        Ok(SerialType::I16)
    } else if code == 3 {
        Ok(SerialType::I24)
    } else if code == 4 {
        Ok(SerialType::I32)
    } else if code == 5 {
        Ok(SerialType::I48)
    } else if code == 6 {
        Ok(SerialType::I64)
    } else if code == 7 {
        Ok(SerialType::Float64)
    } else if code == 8 {
        Ok(SerialType::Zero)
    } else if code == 9 {
        Ok(SerialType::One)
    } else if code >= 12 {
        if code % 2 == 0 {
            Ok(SerialType::Blob(((code - 12) / 2) as usize))
        } else {
            Ok(SerialType::Text(((code - 13) / 2) as usize))
        }
    } else {
        Err(Error::InvalidSerialType)
    }
}

/// How many bytes of the record body the type's value occupies.
pub open spec fn spec_serial_len(t: SerialType) -> nat {
    match t {
        SerialType::Null => 0,
        SerialType::I8 => 1,
        SerialType::I16 => 2,
        SerialType::I24 => 3,
        SerialType::I32 => 4,
        SerialType::I48 => 6,
        SerialType::I64 => 8,
        SerialType::Float64 => 8,
        SerialType::Zero => 0,
        SerialType::One => 0,
        SerialType::Blob(n) => n as nat,
        SerialType::Text(n) => n as nat,
    }
}

impl SerialType {
    /// Classifies a serial-type code read from a record header.
    pub fn read(code: i64) -> (r: Result<SerialType, Error>)
        ensures
            r == spec_serial_type(code as int),
    {
        match code {
            0 => Ok(SerialType::Null),
            1 => Ok(SerialType::I8),
            2 => Ok(SerialType::I16),
            3 => Ok(SerialType::I24),
            4 => Ok(SerialType::I32),
            5 => Ok(SerialType::I48),
            6 => Ok(SerialType::I64),
            7 => Ok(SerialType::Float64),
            8 => Ok(SerialType::Zero),
            9 => Ok(SerialType::One),
            n if n >= 12 => {
                if n % 2 == 0 {
                    Ok(SerialType::Blob(((n - 12) / 2) as usize))
                } else {
                    Ok(SerialType::Text(((n - 13) / 2) as usize))
                }
            },
            _ => Err(Error::InvalidSerialType),
        }
    }

    /// The byte width of a value of this type inside a record body.
    pub fn length(&self) -> (r: usize)
        ensures
            r as nat == spec_serial_len(*self),
    {
        match self {
            SerialType::Null => 0,
            SerialType::I8 => 1,
            SerialType::I16 => 2,
            SerialType::I24 => 3,
            SerialType::I32 => 4,
            SerialType::I48 => 6,
            SerialType::I64 => 8,
            SerialType::Float64 => 8,
            SerialType::Zero => 0,
            SerialType::One => 0,
            SerialType::Blob(n) => *n,
            SerialType::Text(n) => *n,
        }
    }
}

/// A decoded column value.  Stored integers are widened to 64 bits and the
/// literal types 0 and 1 fold into `Integer`; a float keeps its raw IEEE 754
/// bits, since this library does no floating-point arithmetic; text keeps its
/// UTF-8 bytes.
#[derive(Debug, Clone, PartialEq, Eq)]
pub enum SerialValue {
    Null,
    Integer(i64),
    Float64(u64),
    Text(Vec<u8>),
    Blob(Vec<u8>),
}

/// The mathematical shadow of `SerialValue`.
pub enum ValueView {
    Null,
    Integer(i64),
    Float64(u64),
    Text(Seq<u8>),
    Blob(Seq<u8>),
}

impl View for SerialValue {
    type V = ValueView;

    open spec fn view(&self) -> ValueView {
        match self {
            SerialValue::Null => ValueView::Null,
            SerialValue::Integer(v) => ValueView::Integer(*v),
            SerialValue::Float64(bits) => ValueView::Float64(*bits),
            SerialValue::Text(bytes) => ValueView::Text(bytes@),
            SerialValue::Blob(bytes) => ValueView::Blob(bytes@),
        }
    }
}

/// The big-endian unsigned integer that `bytes` spell.
pub open spec fn be_uint(bytes: Seq<u8>) -> nat
    decreases bytes.len(),
{
    if bytes.len() == 0 {
        0
    } else {
        (be_uint(bytes.drop_last()) * 256 + bytes.last()) as nat
    }
}

/// `2^(8 n)` for the byte widths a stored integer can have.
pub open spec fn byte_width_modulus(n: int) -> int {
    if n == 1 {
        0x100
    } else if n == 2 {
        0x1_0000
    } else if n == 3 {
        0x100_0000
    } else if n == 4 {
        0x1_0000_0000
    } else if n == 6 {
        0x1_0000_0000_0000
    } else if n == 8 {
        0x1_0000_0000_0000_0000
    } else {
        1
    }
}

/// The signed big-endian integer that `bytes` spell, in two's complement at
/// their own width.
pub open spec fn spec_int_value(bytes: Seq<u8>) -> int {
    let u = be_uint(bytes) as int;
    let m = byte_width_modulus(bytes.len() as int);
    if 2 * u < m {
        u
    } else {
        u - m
    }
}

/// A big-endian integer fits below `2^(8 len)`.
pub proof fn lemma_be_uint_bound(bytes: Seq<u8>)
    ensures
        be_uint(bytes) < pow256(bytes.len() as int),
    decreases bytes.len(),
{
    if bytes.len() == 0 {
    } else {
        lemma_be_uint_bound(bytes.drop_last());
    }
}

/// `256^n`, the count of values of an `n`-byte big-endian integer.
pub open spec fn pow256(n: int) -> nat
    decreases n,
{
    if n <= 0 {
        1
    } else {
        (256 * pow256(n - 1)) as nat
    }
}

/// The concrete values of `pow256` at the widths a column can have.
pub(crate) proof fn lemma_pow256_values()
    ensures
        pow256(0) == 1,
        pow256(1) == 0x100,
        pow256(2) == 0x1_0000,
        pow256(3) == 0x100_0000,
        pow256(4) == 0x1_0000_0000,
        pow256(5) == 0x100_0000_0000,
        pow256(6) == 0x1_0000_0000_0000,
        pow256(7) == 0x100_0000_0000_0000,
        pow256(8) == 0x1_0000_0000_0000_0000,
{
    reveal_with_fuel(pow256, 10);
}

/// The typed value that `body` holds for a column of type `t`; `body` is
/// exactly the column's slice of the record body.
pub open spec fn spec_column_value(t: SerialType, body: Seq<u8>) -> ValueView {
    match t {
        SerialType::Null => ValueView::Null,
        SerialType::Zero => ValueView::Integer(0),
        SerialType::One => ValueView::Integer(1),
        SerialType::Float64 => ValueView::Float64(be_uint(body) as u64),
        SerialType::Blob(_) => ValueView::Blob(body),
        SerialType::Text(_) => ValueView::Text(body),
        _ => ValueView::Integer(spec_int_value(body) as i64),
    }
}

/// Reads an unsigned big-endian integer of up to 8 bytes.
pub(crate) fn read_be_uint(bytes: &[u8], start: usize, n: usize) -> (r: u64)
    requires
        n <= 8,
        start + n <= bytes@.len(),
    ensures
        r as nat == be_uint(bytes@.subrange(start as int, start + n)),
{
    let mut acc: u64 = 0;
    let mut i: usize = 0;
    proof {
        lemma_pow256_values();
        vstd::slice::axiom_spec_len(bytes);
        assert(bytes@.subrange(start as int, start as int) =~= Seq::<u8>::empty());
    }
    while i < n
        invariant
            n <= 8,
            i <= n,
            bytes@.len() <= usize::MAX,
            start + n <= bytes@.len(),
            acc as nat == be_uint(bytes@.subrange(start as int, start + i)),
            acc < pow256(i as int),
            pow256(8) == 0x1_0000_0000_0000_0000,
        decreases n - i,
    {
        proof {
            let pre = bytes@.subrange(start as int, start + i);
            let post = bytes@.subrange(start as int, start + i + 1);
            assert(post.drop_last() =~= pre);
            assert(post.last() == bytes@[start + i]);
            assert(pow256(i + 1) == 256 * pow256(i as int));
            lemma_pow256_monotone(i + 1, 8);
        }
        acc = acc * 256 + (bytes[start + i] as u64);
        i = i + 1;
    }
    acc
}

/// `256^a` divides `256^b` when `a <= b`.
proof fn lemma_pow256_monotone(a: int, b: int)
    requires
        0 <= a <= b,
    ensures
        pow256(a) <= pow256(b),
    decreases b - a,
{
    if a < b {
        lemma_pow256_monotone(a, b - 1);
    }
}

/// Reads a signed big-endian integer of 1, 2, 3, 4, 6 or 8 bytes, widening
/// to 64 bits with sign extension.
pub(crate) fn read_be_signed(bytes: &[u8], start: usize, n: usize) -> (r: i64)
    requires
        n == 1 || n == 2 || n == 3 || n == 4 || n == 6 || n == 8,
        start + n <= bytes@.len(),
    ensures
        r as int == spec_int_value(bytes@.subrange(start as int, start + n)),
{
    let u: u64 = read_be_uint(bytes, start, n);
    proof {
        lemma_pow256_values();
        lemma_be_uint_bound(bytes@.subrange(start as int, start + n));
        assert(bytes@.subrange(start as int, start + n).len() == n);
    }
    if n == 1 {
        if u < 0x80 {
            u as i64
        } else {
            (u as i64) - 0x100
        }
    } else if n == 2 {
        if u < 0x8000 {
            u as i64
        } else {
            (u as i64) - 0x1_0000
        }
    } else if n == 3 {
        if u < 0x80_0000 {
            u as i64
        } else {
            (u as i64) - 0x100_0000
        }
    } else if n == 4 {
        if u < 0x8000_0000 {
            u as i64
        } else {
            (u as i64) - 0x1_0000_0000
        }
    } else if n == 6 {
        if u < 0x8000_0000_0000 {
            u as i64
        } else {
            (u as i64) - 0x1_0000_0000_0000
        }
    } else {
        proof {
            assert(u < 0x8000_0000_0000_0000 ==> u as i64 == u) by (bit_vector);
            assert(u >= 0x8000_0000_0000_0000 ==> (u as i64) as int == u - 0x1_0000_0000_0000_0000)
                by (bit_vector);
        }
        u as i64
    }
}

/// One decoded column: its declared serial type and its typed value.
#[derive(Debug, Clone, PartialEq, Eq)]
pub struct Column {
    pub key: SerialType,
    pub data: SerialValue,
}

impl View for Column {
    type V = (SerialType, ValueView);

    open spec fn view(&self) -> (SerialType, ValueView) {
        (self.key, self.data@)
    }
}

impl Column {
    /// Packs a decoded serial type and value into a column.
    pub fn new(key: SerialType, data: SerialValue) -> (r: Column)
        ensures
            r@ == (key, data@),
    {
        Column { key, data }
    }

    /// The column's declared serial type.
    pub fn key(&self) -> (r: SerialType)
        ensures
            r == self@.0,
    {
        self.key
    }

    /// The column's decoded value.
    pub fn data(&self) -> (r: &SerialValue)
        ensures
            r@ == self@.1,
    {
        &self.data
    }
}

} // verus!
