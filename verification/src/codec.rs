//! The variant abstraction: the polymorphic capability set shared by
//! the four variants and the sum type — encode, decode, type tag,
//! upcast, and conversion to native values.

use vstd::prelude::*;

use vstd::utf8::encode_utf8;
use vstd::utf8::valid_utf8;
use vstd::slice::slice_to_vec;
use vstd::string::StringSliceAdditionalSpecFns;

use crate::decode::decode_bytes_at;
use crate::decode::decode_number_at;
use crate::model::enc;
use crate::model::enc_bytes;
use crate::model::enc_items;
use crate::model::enc_entries;
use crate::model::parse_bytes;
use crate::model::parse_number;
use crate::model::parse_value;
use crate::model::BenEntry;
use crate::model::BenValue;
use crate::model::DecodeError;
use crate::number::num_digits;
use crate::number::num_neg;
use crate::number::num_val;
use crate::number::parse_signed;
use crate::number::parse_unsigned;
use crate::types::BencodeTypes;
use crate::value::write_dec_digits;
use crate::value::write_slice;
use crate::value::Bencode;
use crate::value::BencodeArray;
use crate::value::BencodeBytes;
use crate::value::BencodeNumber;
use crate::value::BencodeObject;

verus! {

broadcast use vstd::std_specs::vec::group_vec_axioms, vstd::seq::group_seq_axioms;

/// Encoding: every variant can produce its canonical byte sequence, and
/// encoding never fails — the in-memory representation is always
/// encodable.
pub trait ToBencode: View {
    /// The canonical encoding of `self`'s model.
    spec fn spec_bencode(&self) -> Seq<u8>;

    /// The canonical encoding of `self`.
    fn to_bencode(&self) -> (r: Vec<u8>)
        ensures
            r@ == self.spec_bencode(),
    ;
}

/// Decoding: every variant can be parsed from a prefix of a buffer.
pub trait FromBencode: View + Sized {
    /// The meaning of decoding a `Self` from the front of `s`: the
    /// decoded model and the count of bytes consumed, or the error.
    spec fn spec_decode(s: Seq<u8>) -> Result<(<Self as View>::V, int), DecodeError>;

    /// Parses a prefix of `buf` and returns how many bytes were
    /// consumed, letting the caller advance into a larger buffer.
    fn from_bencode_with_offset(buf: &[u8]) -> (r: Result<(Self, usize), DecodeError>)
        ensures
            match r {
                Ok((v, n)) => Self::spec_decode(buf@) == Ok::<(<Self as View>::V, int), DecodeError>(
                    (v@, n as int),
                ) && n <= buf@.len(),
                Err(e) => Self::spec_decode(buf@) == Err::<(<Self as View>::V, int), DecodeError>(
                    e,
                ),
            },
    ;

    /// Decodes one value from the front of `buf`; trailing bytes are
    /// ignored.
    fn from_bencode(buf: &[u8]) -> (r: Result<Self, DecodeError>)
        ensures
            match r {
                Ok(v) => Self::spec_decode(buf@) matches Ok(p) && p.0 == v@,
                Err(e) => Self::spec_decode(buf@) == Err::<(<Self as View>::V, int), DecodeError>(
                    e,
                ),
            },
    ;
}

/// The capability set every variant implements: encode, decode, type
/// tag, and upcast into the sum type.
pub trait BencodeVariable: ToBencode + FromBencode {
    /// The type tag of `self`.
    spec fn spec_type(&self) -> BencodeTypes;

    /// The model of `self` wrapped into the sum type's model.
    spec fn spec_upcast(&self) -> BenValue;

    /// The type tag: used for safe downcasting and polymorphic
    /// dispatch.
    fn get_type(&self) -> (t: BencodeTypes)
        ensures
            t == self.spec_type(),
    ;

    /// Wraps `self` into the sum type without changing its model.
    fn upcast(self) -> (r: Bencode)
        ensures
            r@ == self.spec_upcast(),
    ;
}

/// Conversion from a stored variant to a native value, as in
/// `number.parse::<u64>()`.
pub trait BencodeCast<T>: Sized {
    /// The exact relation between the source value and the cast result.
    spec fn cast_ensures(value: &T, r: &Result<Self, DecodeError>) -> bool;

    /// Converts the stored bytes; fails when they do not fit `Self`.
    fn cast(value: &T) -> (r: Result<Self, DecodeError>)
        ensures
            Self::cast_ensures(value, &r),
    ;
}

impl ToBencode for Bencode {
    open spec fn spec_bencode(&self) -> Seq<u8> {
        enc(self@)
    }

    fn to_bencode(&self) -> (r: Vec<u8>) {
        let mut out: Vec<u8> = Vec::new();
        self.write_bencode(&mut out);
        proof {
            assert(Seq::<u8>::empty() + enc(self@) =~= enc(self@));
        }
        out
    }
}

impl FromBencode for Bencode {
    open spec fn spec_decode(s: Seq<u8>) -> Result<(BenValue, int), DecodeError> {
        parse_value(s, 0)
    }

    fn from_bencode_with_offset(buf: &[u8]) -> (r: Result<(Self, usize), DecodeError>) {
        Bencode::decode_at(buf, 0)
    }

    fn from_bencode(buf: &[u8]) -> (r: Result<Self, DecodeError>) {
        match Bencode::decode_at(buf, 0) {
            Ok((v, _)) => Ok(v),
            Err(e) => Err(e),
        }
    }
}

impl BencodeVariable for Bencode {
    open spec fn spec_type(&self) -> BencodeTypes {
        match self@ {
            BenValue::Number { .. } => BencodeTypes::Number,
            BenValue::Bytes { .. } => BencodeTypes::Bytes,
            BenValue::Array { .. } => BencodeTypes::Array,
            BenValue::Object { .. } => BencodeTypes::Object,
        }
    }

    open spec fn spec_upcast(&self) -> BenValue {
        self@
    }

    fn get_type(&self) -> (t: BencodeTypes) {
        Bencode::get_type(self)
    }

    fn upcast(self) -> (r: Bencode) {
        self
    }
}

impl ToBencode for BencodeNumber {
    open spec fn spec_bencode(&self) -> Seq<u8> {
        enc(BenValue::Number { digits: self@ })
    }

    fn to_bencode(&self) -> (r: Vec<u8>) {
        let mut out: Vec<u8> = Vec::new();
        out.push(105);
        write_slice(&mut out, self.digits.as_slice());
        out.push(101);
        proof {
            assert(out@ =~= seq![105u8] + self@ + seq![101u8]);
        }
        out
    }
}

impl FromBencode for BencodeNumber {
    open spec fn spec_decode(s: Seq<u8>) -> Result<(Seq<u8>, int), DecodeError> {
        match parse_number(s, 0) {
            Ok((v, n)) => Ok((v->digits, n)),
            Err(e) => Err(e),
        }
    }

    fn from_bencode_with_offset(buf: &[u8]) -> (r: Result<(Self, usize), DecodeError>) {
        decode_number_at(buf, 0)
    }

    fn from_bencode(buf: &[u8]) -> (r: Result<Self, DecodeError>) {
        match decode_number_at(buf, 0) {
            Ok((num, _)) => Ok(num),
            Err(e) => Err(e),
        }
    }
}

impl BencodeVariable for BencodeNumber {
    open spec fn spec_type(&self) -> BencodeTypes {
        BencodeTypes::Number
    }

    open spec fn spec_upcast(&self) -> BenValue {
        BenValue::Number { digits: self@ }
    }

    fn get_type(&self) -> (t: BencodeTypes) {
        BencodeTypes::Number
    }

    fn upcast(self) -> (r: Bencode) {
        Bencode::Number(self)
    }
}

impl ToBencode for BencodeBytes {
    open spec fn spec_bencode(&self) -> Seq<u8> {
        enc_bytes(self@)
    }

    fn to_bencode(&self) -> (r: Vec<u8>) {
        let mut out: Vec<u8> = Vec::new();
        write_dec_digits(self.value.len() as u64, &mut out);
        out.push(58);
        write_slice(&mut out, self.value.as_slice());
        proof {
            assert(out@ =~= enc_bytes(self@));
        }
        out
    }
}

impl FromBencode for BencodeBytes {
    open spec fn spec_decode(s: Seq<u8>) -> Result<(Seq<u8>, int), DecodeError> {
        parse_bytes(s, 0)
    }

    fn from_bencode_with_offset(buf: &[u8]) -> (r: Result<(Self, usize), DecodeError>) {
        decode_bytes_at(buf, 0)
    }

    fn from_bencode(buf: &[u8]) -> (r: Result<Self, DecodeError>) {
        match decode_bytes_at(buf, 0) {
            Ok((bytes, _)) => Ok(bytes),
            Err(e) => Err(e),
        }
    }
}

impl BencodeVariable for BencodeBytes {
    open spec fn spec_type(&self) -> BencodeTypes {
        BencodeTypes::Bytes
    }

    open spec fn spec_upcast(&self) -> BenValue {
        BenValue::Bytes { data: self@ }
    }

    fn get_type(&self) -> (t: BencodeTypes) {
        BencodeTypes::Bytes
    }

    fn upcast(self) -> (r: Bencode) {
        Bencode::Bytes(self)
    }
}

impl ToBencode for BencodeArray {
    open spec fn spec_bencode(&self) -> Seq<u8> {
        enc(BenValue::Array { items: self@ })
    }

    #[verifier::loop_isolation(false)]
    fn to_bencode(&self) -> (r: Vec<u8>) {
        let mut out: Vec<u8> = Vec::new();
        out.push(108);
        let mut i: usize = 0;
        while i < self.items.len()
            invariant
                i <= self.items@.len(),
                out@ + enc_items(self@, i as int) == seq![108u8] + enc_items(self@, 0),
            decreases self.items@.len() - i,
        {
            self.items[i].write_bencode(&mut out);
            i = i + 1;
        }
        out.push(101);
        proof {
            assert(out@ =~= enc(BenValue::Array { items: self@ }));
        }
        out
    }
}

impl FromBencode for BencodeArray {
    open spec fn spec_decode(s: Seq<u8>) -> Result<(Seq<BenValue>, int), DecodeError> {
        if s.len() == 0 {
            Err(DecodeError::TruncatedInput)
        } else if s[0] != 108 {
            Err(DecodeError::InvalidPrefix)
        } else {
            match parse_value(s, 0) {
                Ok((v, n)) => Ok((v->items, n)),
                Err(e) => Err(e),
            }
        }
    }

    fn from_bencode_with_offset(buf: &[u8]) -> (r: Result<(Self, usize), DecodeError>) {
        if buf.len() == 0 {
            return Err(DecodeError::TruncatedInput);
        }
        if buf[0] != 108 {
            return Err(DecodeError::InvalidPrefix);
        }
        match Bencode::decode_at(buf, 0) {
            Err(e) => Err(e),
            Ok((v, n)) => match v {
                Bencode::Array(a) => Ok((a, n)),
                _ => vstd::pervasive::unreached(),
            },
        }
    }

    fn from_bencode(buf: &[u8]) -> (r: Result<Self, DecodeError>) {
        match Self::from_bencode_with_offset(buf) {
            Ok((a, _)) => Ok(a),
            Err(e) => Err(e),
        }
    }
}

impl BencodeVariable for BencodeArray {
    open spec fn spec_type(&self) -> BencodeTypes {
        BencodeTypes::Array
    }

    open spec fn spec_upcast(&self) -> BenValue {
        BenValue::Array { items: self@ }
    }

    fn get_type(&self) -> (t: BencodeTypes) {
        BencodeTypes::Array
    }

    fn upcast(self) -> (r: Bencode) {
        Bencode::Array(self)
    }
}

impl ToBencode for BencodeObject {
    open spec fn spec_bencode(&self) -> Seq<u8> {
        enc(BenValue::Object { entries: self@ })
    }

    #[verifier::loop_isolation(false)]
    fn to_bencode(&self) -> (r: Vec<u8>) {
        let mut out: Vec<u8> = Vec::new();
        out.push(100);
        let mut i: usize = 0;
        while i < self.entries.len()
            invariant
                i <= self.entries@.len(),
                out@ + enc_entries(self@, i as int) == seq![100u8] + enc_entries(self@, 0),
            decreases self.entries@.len() - i,
        {
            let slot = &self.entries[i];
            write_dec_digits(slot.key.value.len() as u64, &mut out);
            out.push(58);
            write_slice(&mut out, slot.key.value.as_slice());
            slot.value.write_bencode(&mut out);
            i = i + 1;
        }
        out.push(101);
        proof {
            assert(out@ =~= enc(BenValue::Object { entries: self@ }));
        }
        out
    }
}

impl FromBencode for BencodeObject {
    open spec fn spec_decode(s: Seq<u8>) -> Result<(Seq<BenEntry>, int), DecodeError> {
        if s.len() == 0 {
            Err(DecodeError::TruncatedInput)
        } else if s[0] != 100 {
            Err(DecodeError::InvalidPrefix)
        } else {
            match parse_value(s, 0) {
                Ok((v, n)) => Ok((v->entries, n)),
                Err(e) => Err(e),
            }
        }
    }

    fn from_bencode_with_offset(buf: &[u8]) -> (r: Result<(Self, usize), DecodeError>) {
        if buf.len() == 0 {
            return Err(DecodeError::TruncatedInput);
        }
        if buf[0] != 100 {
            return Err(DecodeError::InvalidPrefix);
        }
        match Bencode::decode_at(buf, 0) {
            Err(e) => Err(e),
            Ok((v, n)) => match v {
                Bencode::Object(o) => Ok((o, n)),
                _ => vstd::pervasive::unreached(),
            },
        }
    }

    fn from_bencode(buf: &[u8]) -> (r: Result<Self, DecodeError>) {
        match Self::from_bencode_with_offset(buf) {
            Ok((o, _)) => Ok(o),
            Err(e) => Err(e),
        }
    }
}

impl BencodeVariable for BencodeObject {
    open spec fn spec_type(&self) -> BencodeTypes {
        BencodeTypes::Object
    }

    open spec fn spec_upcast(&self) -> BenValue {
        BenValue::Object { entries: self@ }
    }

    fn get_type(&self) -> (t: BencodeTypes) {
        BencodeTypes::Object
    }

    fn upcast(self) -> (r: Bencode) {
        Bencode::Object(self)
    }
}

impl BencodeNumber {
    /// Converts the stored digit bytes to the requested numeric type;
    /// fails with `ParseError` when they do not fit it.
    pub fn parse<V: BencodeCast<BencodeNumber>>(&self) -> (r: Result<V, DecodeError>)
        ensures
            V::cast_ensures(self, &r),
    {
        V::cast(self)
    }
}

impl BencodeBytes {
    /// Converts the stored bytes to the requested type; fails with
    /// `InvalidUtf8` when text is requested of non-UTF-8 bytes.
    pub fn parse<V: BencodeCast<BencodeBytes>>(&self) -> (r: Result<V, DecodeError>)
        ensures
            V::cast_ensures(self, &r),
    {
        V::cast(self)
    }
}

impl BencodeCast<BencodeBytes> for Vec<u8> {
    open spec fn cast_ensures(value: &BencodeBytes, r: &Result<Vec<u8>, DecodeError>) -> bool {
        match r {
            Ok(v) => v@ == value@,
            Err(_) => false,
        }
    }

    fn cast(value: &BencodeBytes) -> (r: Result<Vec<u8>, DecodeError>) {
        Ok(slice_to_vec(value.value.as_slice()))
    }
}

impl BencodeCast<BencodeBytes> for String {
    open spec fn cast_ensures(value: &BencodeBytes, r: &Result<String, DecodeError>) -> bool {
        match r {
            Ok(s) => valid_utf8(value@) && encode_utf8(s@) == value@,
            Err(e) => *e == DecodeError::InvalidUtf8 && !valid_utf8(value@),
        }
    }

    fn cast(value: &BencodeBytes) -> (r: Result<String, DecodeError>) {
        match value.as_str() {
            Ok(s) => Ok(s.to_owned()),
            Err(e) => Err(e),
        }
    }
}

impl BencodeCast<BencodeNumber> for u64 {
    open spec fn cast_ensures(value: &BencodeNumber, r: &Result<u64, DecodeError>) -> bool {
        match r {
            Ok(x) => !num_neg(value@) && num_digits(value@) && num_val(value@) == *x as int,
            Err(e) => *e == DecodeError::ParseError && !(!num_neg(value@) && num_digits(value@)
                && num_val(value@) <= u64::MAX),
        }
    }

    fn cast(value: &BencodeNumber) -> (r: Result<u64, DecodeError>) {
        parse_unsigned(value.digits.as_slice(), u64::MAX)
    }
}

impl BencodeCast<BencodeNumber> for u32 {
    open spec fn cast_ensures(value: &BencodeNumber, r: &Result<u32, DecodeError>) -> bool {
        match r {
            Ok(x) => !num_neg(value@) && num_digits(value@) && num_val(value@) == *x as int,
            Err(e) => *e == DecodeError::ParseError && !(!num_neg(value@) && num_digits(value@)
                && num_val(value@) <= u32::MAX),
        }
    }

    fn cast(value: &BencodeNumber) -> (r: Result<u32, DecodeError>) {
        match parse_unsigned(value.digits.as_slice(), u32::MAX as u64) {
            Ok(x) => Ok(x as u32),
            Err(e) => Err(e),
        }
    }
}

impl BencodeCast<BencodeNumber> for u16 {
    open spec fn cast_ensures(value: &BencodeNumber, r: &Result<u16, DecodeError>) -> bool {
        match r {
            Ok(x) => !num_neg(value@) && num_digits(value@) && num_val(value@) == *x as int,
            Err(e) => *e == DecodeError::ParseError && !(!num_neg(value@) && num_digits(value@)
                && num_val(value@) <= u16::MAX),
        }
    }

    fn cast(value: &BencodeNumber) -> (r: Result<u16, DecodeError>) {
        match parse_unsigned(value.digits.as_slice(), u16::MAX as u64) {
            Ok(x) => Ok(x as u16),
            Err(e) => Err(e),
        }
    }
}

impl BencodeCast<BencodeNumber> for u8 {
    open spec fn cast_ensures(value: &BencodeNumber, r: &Result<u8, DecodeError>) -> bool {
        match r {
            Ok(x) => !num_neg(value@) && num_digits(value@) && num_val(value@) == *x as int,
            Err(e) => *e == DecodeError::ParseError && !(!num_neg(value@) && num_digits(value@)
                && num_val(value@) <= u8::MAX),
        }
    }

    fn cast(value: &BencodeNumber) -> (r: Result<u8, DecodeError>) {
        match parse_unsigned(value.digits.as_slice(), u8::MAX as u64) {
            Ok(x) => Ok(x as u8),
            Err(e) => Err(e),
        }
    }
}

impl BencodeCast<BencodeNumber> for usize {
    open spec fn cast_ensures(value: &BencodeNumber, r: &Result<usize, DecodeError>) -> bool {
        match r {
            Ok(x) => !num_neg(value@) && num_digits(value@) && num_val(value@) == *x as int,
            Err(e) => *e == DecodeError::ParseError && !(!num_neg(value@) && num_digits(value@)
                && num_val(value@) <= usize::MAX),
        }
    }

    fn cast(value: &BencodeNumber) -> (r: Result<usize, DecodeError>) {
        match parse_unsigned(value.digits.as_slice(), usize::MAX as u64) {
            Ok(x) => Ok(x as usize),
            Err(e) => Err(e),
        }
    }
}

impl BencodeCast<BencodeNumber> for i64 {
    open spec fn cast_ensures(value: &BencodeNumber, r: &Result<i64, DecodeError>) -> bool {
        match r {
            Ok(x) => num_digits(value@) && num_val(value@) == *x as int,
            Err(e) => *e == DecodeError::ParseError && !(num_digits(value@) && i64::MIN <= num_val(
                value@,
            ) <= i64::MAX),
        }
    }

    fn cast(value: &BencodeNumber) -> (r: Result<i64, DecodeError>) {
        parse_signed(value.digits.as_slice())
    }
}

impl BencodeCast<BencodeNumber> for i32 {
    open spec fn cast_ensures(value: &BencodeNumber, r: &Result<i32, DecodeError>) -> bool {
        match r {
            Ok(x) => num_digits(value@) && num_val(value@) == *x as int,
            Err(e) => *e == DecodeError::ParseError && !(num_digits(value@) && i32::MIN <= num_val(
                value@,
            ) <= i32::MAX),
        }
    }

    fn cast(value: &BencodeNumber) -> (r: Result<i32, DecodeError>) {
        match parse_signed(value.digits.as_slice()) {
            Ok(x) => {
                if i32::MIN as i64 <= x && x <= i32::MAX as i64 {
                    Ok(x as i32)
                } else {
                    Err(DecodeError::ParseError)
                }
            },
            Err(e) => Err(e),
        }
    }
}

impl BencodeCast<BencodeNumber> for i16 {
    open spec fn cast_ensures(value: &BencodeNumber, r: &Result<i16, DecodeError>) -> bool {
        match r {
            Ok(x) => num_digits(value@) && num_val(value@) == *x as int,
            Err(e) => *e == DecodeError::ParseError && !(num_digits(value@) && i16::MIN <= num_val(
                value@,
            ) <= i16::MAX),
        }
    }

    fn cast(value: &BencodeNumber) -> (r: Result<i16, DecodeError>) {
        match parse_signed(value.digits.as_slice()) {
            Ok(x) => {
                if i16::MIN as i64 <= x && x <= i16::MAX as i64 {
                    Ok(x as i16)
                } else {
                    Err(DecodeError::ParseError)
                }
            },
            Err(e) => Err(e),
        }
    }
}

impl BencodeCast<BencodeNumber> for i8 {
    open spec fn cast_ensures(value: &BencodeNumber, r: &Result<i8, DecodeError>) -> bool {
        match r {
            Ok(x) => num_digits(value@) && num_val(value@) == *x as int,
            Err(e) => *e == DecodeError::ParseError && !(num_digits(value@) && i8::MIN <= num_val(
                value@,
            ) <= i8::MAX),
        }
    }

    fn cast(value: &BencodeNumber) -> (r: Result<i8, DecodeError>) {
        match parse_signed(value.digits.as_slice()) {
            Ok(x) => {
                if i8::MIN as i64 <= x && x <= i8::MAX as i64 {
                    Ok(x as i8)
                } else {
                    Err(DecodeError::ParseError)
                }
            },
            Err(e) => Err(e),
        }
    }
}

impl BencodeCast<BencodeNumber> for isize {
    open spec fn cast_ensures(value: &BencodeNumber, r: &Result<isize, DecodeError>) -> bool {
        match r {
            Ok(x) => num_digits(value@) && num_val(value@) == *x as int,
            Err(e) => *e == DecodeError::ParseError && !(num_digits(value@) && isize::MIN
                <= num_val(value@) <= isize::MAX),
        }
    }

    fn cast(value: &BencodeNumber) -> (r: Result<isize, DecodeError>) {
        match parse_signed(value.digits.as_slice()) {
            Ok(x) => {
                if isize::MIN as i64 <= x && x <= isize::MAX as i64 {
                    Ok(x as isize)
                } else {
                    Err(DecodeError::ParseError)
                }
            },
            Err(e) => Err(e),
        }
    }
}

} // verus!
