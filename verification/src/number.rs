//! The number variant: a textual-numeric value stored as its exact
//! decimal byte representation, converted to a concrete numeric type
//! only on request.

use vstd::prelude::*;

use crate::model::dec_val;
use crate::model::dec_digits;
use crate::model::is_digit;
use crate::model::DecodeError;
use crate::value::write_dec_digits;
use crate::value::BencodeNumber;

verus! {

broadcast use vstd::std_specs::vec::group_vec_axioms, vstd::seq::group_seq_axioms;

/// The digit bytes of a signed decimal integer: a `'-'` for a negative
/// value, then the decimal digits of the magnitude.
pub open spec fn int_rep(x: int) -> Seq<u8> {
    if x < 0 {
        seq![45u8] + dec_digits((-x) as nat)
    } else {
        dec_digits(x as nat)
    }
}

/// The numeric body of `ds`: the bytes after an optional leading sign.
pub open spec fn num_body(ds: Seq<u8>) -> Seq<u8> {
    if ds.len() > 0 && (ds[0] == 43 || ds[0] == 45) {
        ds.subrange(1, ds.len() as int)
    } else {
        ds
    }
}

/// Is the leading sign of `ds` a minus?
pub open spec fn num_neg(ds: Seq<u8>) -> bool {
    ds.len() > 0 && ds[0] == 45
}

/// Does `ds` spell a decimal integer: an optional sign, then one or
/// more digits?
pub open spec fn num_digits(ds: Seq<u8>) -> bool {
    num_body(ds).len() > 0 && (forall|i: int|
        0 <= i < num_body(ds).len() ==> is_digit(#[trigger] num_body(ds)[i]))
}

/// The signed value `ds` spells.
pub open spec fn num_val(ds: Seq<u8>) -> int {
    if num_neg(ds) {
        -dec_val(num_body(ds))
    } else {
        dec_val(num_body(ds))
    }
}

/// Reads the decimal digits `ds[start..]` as an unsigned integer,
/// rejecting a value above `max`, a non-digit byte, or an empty run.
pub(crate) fn parse_digits_from(ds: &[u8], start: usize, max: u64) -> (r: Result<
    u64,
    DecodeError,
>)
    requires
        start <= ds@.len(),
    ensures
        ({
            let body = ds@.subrange(start as int, ds@.len() as int);
            match r {
                Ok(x) => {
                    &&& body.len() > 0
                    &&& forall|i: int| 0 <= i < body.len() ==> is_digit(#[trigger] body[i])
                    &&& dec_val(body) == x as int
                    &&& x <= max
                },
                Err(e) => {
                    &&& e == DecodeError::ParseError
                    &&& !({
                        &&& body.len() > 0
                        &&& forall|i: int| 0 <= i < body.len() ==> is_digit(#[trigger] body[i])
                        &&& dec_val(body) <= max
                    })
                },
            }
        }),
{
    let n = ds.len();
    if start == n {
        return Err(DecodeError::ParseError);
    }
    let mut i: usize = start;
    while i < n
        invariant
            start <= i <= n == ds@.len(),
            forall|l: int| start <= l < i ==> is_digit(ds@[l]),
        decreases n - i,
    {
        if !(48 <= ds[i] && ds[i] <= 57) {
            proof {
                let body = ds@.subrange(start as int, ds@.len() as int);
                assert(body[i - start] == ds@[i as int]);
            }
            return Err(DecodeError::ParseError);
        }
        i = i + 1;
    }
    let mut acc: u64 = 0;
    let mut i: usize = start;
    while i < n
        invariant
            start <= i <= n == ds@.len(),
            forall|l: int| start <= l < n ==> is_digit(ds@[l]),
            acc as int == dec_val(ds@.subrange(start as int, i as int)),
            acc <= max,
        decreases n - i,
    {
        let d = (ds[i] - 48) as u64;
        proof {
            assert(ds@.subrange(start as int, i + 1).drop_last() =~= ds@.subrange(
                start as int,
                i as int,
            ));
            assert(ds@.subrange(start as int, i + 1).last() == ds@[i as int]);
        }
        if d > max || acc > (max - d) / 10 {
            proof {
                assert(acc * 10 + d > max) by (nonlinear_arith)
                    requires
                        d <= u64::MAX,
                        max <= u64::MAX,
                        acc > (max - d) / 10 || d > max,
                        acc >= 0,
                ;
                crate::lemmas::lemma_dec_val_prefix_monotone(ds@, start as int, i + 1, n as int);
            }
            return Err(DecodeError::ParseError);
        }
        proof {
            assert(acc * 10 + d <= max) by (nonlinear_arith)
                requires
                    acc <= (max - d) / 10,
                    d <= max,
            ;
        }
        acc = acc * 10 + d;
        i = i + 1;
    }
    Ok(acc)
}

/// Reads `ds` as an unsigned decimal integer (an optional `'+'` sign,
/// then digits), rejecting values above `max`.
pub(crate) fn parse_unsigned(ds: &[u8], max: u64) -> (r: Result<u64, DecodeError>)
    ensures
        match r {
            Ok(x) => !num_neg(ds@) && num_digits(ds@) && num_val(ds@) == x as int && x <= max,
            Err(e) => e == DecodeError::ParseError && !(!num_neg(ds@) && num_digits(ds@) && num_val(
                ds@,
            ) <= max),
        },
{
    if ds.len() > 0 && ds[0] == 45 {
        return Err(DecodeError::ParseError);
    }
    let start: usize = if ds.len() > 0 && ds[0] == 43 {
        1
    } else {
        0
    };
    proof {
        assert(num_body(ds@) =~= ds@.subrange(start as int, ds@.len() as int));
    }
    parse_digits_from(ds, start, max)
}

/// Reads `ds` as a signed decimal integer (an optional `'+'` or `'-'`
/// sign, then digits), rejecting values outside `[i64::MIN, i64::MAX]`.
pub(crate) fn parse_signed(ds: &[u8]) -> (r: Result<i64, DecodeError>)
    ensures
        match r {
            Ok(x) => num_digits(ds@) && num_val(ds@) == x as int,
            Err(e) => e == DecodeError::ParseError && !(num_digits(ds@) && i64::MIN <= num_val(ds@)
                <= i64::MAX),
        },
{
    if ds.len() > 0 && ds[0] == 45 {
        proof {
            assert(num_body(ds@) =~= ds@.subrange(1, ds@.len() as int));
        }
        match parse_digits_from(ds, 1, 9223372036854775808u64) {
            Err(e) => Err(e),
            Ok(mag) => {
                if mag == 9223372036854775808u64 {
                    Ok(i64::MIN)
                } else {
                    Ok(-(mag as i64))
                }
            },
        }
    } else {
        let start: usize = if ds.len() > 0 && ds[0] == 43 {
            1
        } else {
            0
        };
        proof {
            assert(num_body(ds@) =~= ds@.subrange(start as int, ds@.len() as int));
        }
        match parse_digits_from(ds, start, 9223372036854775807u64) {
            Err(e) => Err(e),
            Ok(mag) => Ok(mag as i64),
        }
    }
}

impl BencodeNumber {
    /// A number holding the decimal digits of `x`.
    pub fn from_u64(x: u64) -> (r: Self)
        ensures
            r@ == dec_digits(x as nat),
    {
        let mut digits: Vec<u8> = Vec::new();
        write_dec_digits(x, &mut digits);
        proof {
            assert(Seq::<u8>::empty() + dec_digits(x as nat) =~= dec_digits(x as nat));
        }
        BencodeNumber { digits }
    }

    /// A number holding the decimal digits of `x`, with a `'-'` for a
    /// negative value.
    pub fn from_i64(x: i64) -> (r: Self)
        ensures
            r@ == int_rep(x as int),
    {
        if x < 0 {
            let mag: u64 = (-(x as i128)) as u64;
            let mut digits: Vec<u8> = Vec::new();
            digits.push(45);
            write_dec_digits(mag, &mut digits);
            proof {
                assert(Seq::<u8>::empty().push(45u8) + dec_digits(mag as nat) =~= seq![45u8]
                    + dec_digits(mag as nat));
            }
            BencodeNumber { digits }
        } else {
            Self::from_u64(x as u64)
        }
    }

    /// A number holding the given bytes verbatim.  Any byte but the
    /// terminator `'e'` is accepted (the stored bytes must keep the
    /// encoding self-delimiting); a buffer containing `'e'` is rejected
    /// with `MalformedNumber`.
    pub fn from_digits(digits: Vec<u8>) -> (r: Result<Self, DecodeError>)
        ensures
            match r {
                Ok(num) => num@ == digits@ && (forall|i: int|
                    0 <= i < digits@.len() ==> digits@[i] != 101u8),
                Err(e) => e == DecodeError::MalformedNumber && (exists|i: int|
                    0 <= i < digits@.len() && digits@[i] == 101u8),
            },
    {
        let mut i: usize = 0;
        while i < digits.len()
            invariant
                i <= digits@.len(),
                forall|l: int| 0 <= l < i ==> digits@[l] != 101u8,
            decreases digits@.len() - i,
        {
            if digits[i] == 101 {
                return Err(DecodeError::MalformedNumber);
            }
            i = i + 1;
        }
        Ok(BencodeNumber { digits })
    }

    /// The stored decimal byte representation.
    pub fn digits(&self) -> (r: &[u8])
        ensures
            r@ == self@,
    {
        self.digits.as_slice()
    }
}

} // verus!
