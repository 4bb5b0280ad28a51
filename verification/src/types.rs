//! The type tags of the four Bencode variants, and the wire bytes that
//! select and delimit them.

use vstd::prelude::*;

use crate::model::is_value_lead;

verus! {

/// The type tag of a value: used for safe downcasting and for dispatch
/// while decoding.
#[derive(Clone, Copy, Debug, PartialEq, Eq, Structural)]
pub enum BencodeTypes {
    Object,
    Array,
    Number,
    Bytes,
}

impl BencodeTypes {
    /// The variant selected by an encoding's lead byte: `'l'` opens an
    /// array, `'d'` an object, `'i'` a number, and a decimal digit a
    /// byte string.
    pub fn from_code(c: u8) -> (r: Self)
        requires
            is_value_lead(c),
        ensures
            r == (if c == 108 {
                BencodeTypes::Array
            } else if c == 100 {
                BencodeTypes::Object
            } else if c == 105 {
                BencodeTypes::Number
            } else {
                BencodeTypes::Bytes
            }),
    {
        if c == 108 {
            BencodeTypes::Array
        } else if c == 100 {
            BencodeTypes::Object
        } else if c == 105 {
            BencodeTypes::Number
        } else {
            BencodeTypes::Bytes
        }
    }

    /// The lead byte that opens this variant's encoding.  A byte string
    /// has no fixed prefix: its encoding starts with a length digit.
    pub fn prefix(&self) -> (r: u8)
        requires
            !(*self is Bytes),
        ensures
            *self is Array ==> r == 108,
            *self is Object ==> r == 100,
            *self is Number ==> r == 105,
    {
        match self {
            BencodeTypes::Array => 108,
            BencodeTypes::Object => 100,
            BencodeTypes::Number => 105,
            BencodeTypes::Bytes => vstd::pervasive::unreached(),
        }
    }

    /// The byte that closes this variant's encoding: always `'e'`.  A
    /// byte string has no terminator: its length is declared up front.
    pub fn suffix(&self) -> (r: u8)
        requires
            !(*self is Bytes),
        ensures
            r == 101,
    {
        match self {
            BencodeTypes::Array => 101,
            BencodeTypes::Object => 101,
            BencodeTypes::Number => 101,
            BencodeTypes::Bytes => vstd::pervasive::unreached(),
        }
    }

    /// The byte that separates a byte string's length from its payload:
    /// `':'`.  The other variants have no delimiter.
    pub fn delimiter(&self) -> (r: u8)
        requires
            *self is Bytes,
        ensures
            r == 58,
    {
        match self {
            BencodeTypes::Bytes => 58,
            _ => vstd::pervasive::unreached(),
        }
    }
}

} // verus!
