//! Text rendering of column values for the output layer: integers as
//! decimal, text and blobs as their (lossily decoded) content, nulls as the
//! empty string.
//!
//! A stored double keeps only its raw bits in this library, and rendering an
//! IEEE 754 double needs floating-point arithmetic, which this library does
//! not do: a float column renders as the empty string here, and a caller
//! that wants float text reads the bits itself.

use vstd::prelude::*;

use crate::column::{SerialValue, ValueView};
use vstd::string::StringExecFns;

verus! {

/// The decimal digits of `n`, most significant first.
pub open spec fn spec_dec_digits(n: nat) -> Seq<char>
    decreases n,
{
    if n < 10 {
        seq![spec_digit_char(n)]
    } else {
        spec_dec_digits(n / 10) + seq![spec_digit_char(n % 10)]
    }
}

/// The character for one decimal digit.
pub open spec fn spec_digit_char(d: nat) -> char {
    if d == 0 {
        '0'
    } else if d == 1 {
        '1'
    } else if d == 2 {
        '2'
    } else if d == 3 {
        '3'
    } else if d == 4 {
        '4'
    } else if d == 5 {
        '5'
    } else if d == 6 {
        '6'
    } else if d == 7 {
        '7'
    } else if d == 8 {
        '8'
    } else {
        '9'
    }
}

/// The decimal text of a signed integer.
pub open spec fn spec_int_text(v: int) -> Seq<char> {
    if v < 0 {
        seq!['-'] + spec_dec_digits((-v) as nat)
    } else {
        spec_dec_digits(v as nat)
    }
}

/// What `String::from_utf8_lossy` decodes the bytes to: a function of the
/// bytes alone.
pub uninterp spec fn lossy_text(bytes: Seq<u8>) -> Seq<char>;

/// Relies on `String::from_utf8_lossy`: the result depends on the bytes
/// alone, and valid UTF-8 decodes to exactly its own characters.
#[verifier::external_body]
pub(crate) fn bytes_to_text(b: &[u8]) -> (r: String)
    ensures
        r@ == lossy_text(b@),
        vstd::utf8::valid_utf8(b@) ==> r@ == vstd::utf8::decode_utf8(b@),
{
    String::from_utf8_lossy(b).into_owned()
}

/// Appends the decimal digits of `n`.
fn push_decimal(s: &mut String, n: u64)
    ensures
        final(s)@ == old(s)@ + spec_dec_digits(n as nat),
    decreases n,
{
    if n >= 10 {
        push_decimal(s, n / 10);
    }
    let d = n % 10;
    let t: &str = if d == 0 {
        "0"
    } else if d == 1 {
        "1"
    } else if d == 2 {
        "2"
    } else if d == 3 {
        "3"
    } else if d == 4 {
        "4"
    } else if d == 5 {
        "5"
    } else if d == 6 {
        "6"
    } else if d == 7 {
        "7"
    } else if d == 8 {
        "8"
    } else {
        "9"
    };
    proof {
        reveal_strlit("0");
        reveal_strlit("1");
        reveal_strlit("2");
        reveal_strlit("3");
        reveal_strlit("4");
        reveal_strlit("5");
        reveal_strlit("6");
        reveal_strlit("7");
        reveal_strlit("8");
        reveal_strlit("9");
        assert(t@ =~= seq![spec_digit_char((n % 10) as nat)]);
    }
    s.append(t);
    proof {
        if n >= 10 {
            assert(old(s)@ + (spec_dec_digits((n / 10) as nat) + seq![
                spec_digit_char((n % 10) as nat),
            ]) =~= (old(s)@ + spec_dec_digits((n / 10) as nat)) + seq![
                spec_digit_char((n % 10) as nat),
            ]);
        }
    }
}

/// Renders a signed integer as decimal text.
pub fn int_to_string(v: i64) -> (r: String)
    ensures
        r@ == spec_int_text(v as int),
{
    let mut s = String::new();
    if v >= 0 {
        push_decimal(&mut s, v as u64);
        proof {
            assert(Seq::<char>::empty() + spec_dec_digits((v as int) as nat) =~= spec_dec_digits(
                (v as int) as nat,
            ));
        }
        s
    } else {
        let mag: u64 = ((-1 - v) as u64) + 1;
        proof {
            reveal_strlit("-");
            assert(mag as nat == (-(v as int)) as nat);
        }
        s.append("-");
        proof {
            assert(s@ =~= seq!['-']);
        }
        push_decimal(&mut s, mag);
        proof {
            assert(seq!['-'] + spec_dec_digits(mag as nat) =~= spec_int_text(v as int));
        }
        s
    }
}

/// A list of texts joined with `|` separators.
pub open spec fn spec_join(parts: Seq<Seq<char>>) -> Seq<char>
    decreases parts.len(),
{
    if parts.len() == 0 {
        Seq::empty()
    } else if parts.len() == 1 {
        parts[0]
    } else {
        parts[0] + seq!['|'] + spec_join(parts.skip(1))
    }
}

/// The display text of one decoded value, per the output rules above.
pub open spec fn spec_value_text(v: ValueView) -> Seq<char> {
    match v {
        ValueView::Null => Seq::empty(),
        ValueView::Integer(n) => spec_int_text(n as int),
        ValueView::Float64(_) => Seq::empty(),
        ValueView::Text(b) => lossy_text(b),
        ValueView::Blob(b) => lossy_text(b),
    }
}

impl SerialValue {
    /// Renders the value as display text.
    pub fn display(&self) -> (r: String)
        ensures
            r@ == spec_value_text(self@),
    {
        match self {
            SerialValue::Null => String::new(),
            SerialValue::Integer(n) => int_to_string(*n),
            SerialValue::Float64(_) => String::new(),
            SerialValue::Text(b) => bytes_to_text(b.as_slice()),
            SerialValue::Blob(b) => bytes_to_text(b.as_slice()),
        }
    }
}

} // verus!
