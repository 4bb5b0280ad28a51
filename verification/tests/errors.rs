//! The error taxonomy, the numeric and text conversions, and the type
//! tags.

use bencode::Bencode;
use bencode::BencodeArray;
use bencode::BencodeBytes;
use bencode::BencodeNumber;
use bencode::BencodeObject;
use bencode::BencodeTypes;
use bencode::BencodeVariable;
use bencode::DecodeError;
use bencode::FromBencode;
use bencode::ToBencode;

#[test]
fn malformed_number() {
    assert!(matches!(
        BencodeNumber::from_bencode(b"i123"),
        Err(DecodeError::MalformedNumber)
    ));
    assert!(matches!(
        BencodeNumber::from_bencode(b"3:abc"),
        Err(DecodeError::InvalidPrefix)
    ));
}

#[test]
fn malformed_length() {
    assert!(matches!(
        BencodeBytes::from_bencode(b"12"),
        Err(DecodeError::MalformedLength)
    ));
    assert!(matches!(
        BencodeBytes::from_bencode(b"12x:a"),
        Err(DecodeError::MalformedLength)
    ));
    assert!(matches!(
        BencodeBytes::from_bencode(b"i3e"),
        Err(DecodeError::InvalidPrefix)
    ));
}

#[test]
fn truncated_bytes() {
    assert!(matches!(
        BencodeBytes::from_bencode(b"5:abc"),
        Err(DecodeError::TruncatedInput)
    ));
    // A declared length far past the buffer, including one too large
    // for any machine, is truncation.
    assert!(matches!(
        BencodeBytes::from_bencode(b"99999999999999999999999999:a"),
        Err(DecodeError::TruncatedInput)
    ));
}

#[test]
fn typed_decoders_check_their_prefix() {
    assert!(matches!(
        BencodeArray::from_bencode(b"d1:ai1ee"),
        Err(DecodeError::InvalidPrefix)
    ));
    assert!(matches!(
        BencodeObject::from_bencode(b"li1ee"),
        Err(DecodeError::InvalidPrefix)
    ));
    assert!(BencodeArray::from_bencode(b"li1ee").is_ok());
    assert!(BencodeObject::from_bencode(b"d1:ai1ee").is_ok());
}

#[test]
fn invalid_utf8() {
    let b = BencodeBytes::from_vec(vec![0xff, 0xfe]);
    assert!(matches!(b.as_str(), Err(DecodeError::InvalidUtf8)));
    assert!(matches!(
        b.parse::<String>(),
        Err(DecodeError::InvalidUtf8)
    ));
    // A multi-byte UTF-8 sequence comes back as the text it encodes.
    let accented = BencodeBytes::from_text("héllo");
    assert_eq!(accented.as_str().unwrap(), "héllo");
    assert_eq!(accented.len(), 6);
}

#[test]
fn numeric_casts() {
    let n = BencodeNumber::from_u64(2130706433);
    assert_eq!(n.parse::<u64>().unwrap(), 2130706433);
    assert_eq!(n.parse::<u32>().unwrap(), 2130706433);
    assert_eq!(n.parse::<i64>().unwrap(), 2130706433);
    assert!(matches!(
        n.parse::<u16>(),
        Err(DecodeError::ParseError)
    ));
    assert!(matches!(n.parse::<i8>(), Err(DecodeError::ParseError)));

    let neg = BencodeNumber::from_i64(-300);
    assert_eq!(neg.to_bencode(), b"i-300e".to_vec());
    assert_eq!(neg.parse::<i64>().unwrap(), -300);
    assert_eq!(neg.parse::<i16>().unwrap(), -300);
    assert!(matches!(neg.parse::<u64>(), Err(DecodeError::ParseError)));
    assert!(matches!(neg.parse::<i8>(), Err(DecodeError::ParseError)));
}

#[test]
fn numeric_cast_bounds() {
    let min = BencodeNumber::from_i64(i64::MIN);
    assert_eq!(min.digits(), b"-9223372036854775808");
    assert_eq!(min.parse::<i64>().unwrap(), i64::MIN);
    let max = BencodeNumber::from_u64(u64::MAX);
    assert_eq!(max.parse::<u64>().unwrap(), u64::MAX);
    assert!(matches!(max.parse::<i64>(), Err(DecodeError::ParseError)));

    let below = BencodeNumber::from_digits(b"-9223372036854775809".to_vec()).unwrap();
    assert!(matches!(below.parse::<i64>(), Err(DecodeError::ParseError)));
    let plus = BencodeNumber::from_digits(b"+17".to_vec()).unwrap();
    assert_eq!(plus.parse::<u8>().unwrap(), 17);
    assert_eq!(plus.parse::<isize>().unwrap(), 17);
}

#[test]
fn non_numeric_digits_rejected() {
    let n = BencodeNumber::from_digits(b"100.2".to_vec()).unwrap();
    assert!(matches!(n.parse::<u64>(), Err(DecodeError::ParseError)));
    let empty = BencodeNumber::from_digits(Vec::new()).unwrap();
    assert!(matches!(empty.parse::<i64>(), Err(DecodeError::ParseError)));
    // The stored bytes may never contain the terminator.
    assert!(matches!(
        BencodeNumber::from_digits(b"12e3".to_vec()),
        Err(DecodeError::MalformedNumber)
    ));
}

#[test]
fn bytes_cast() {
    let b = BencodeBytes::from_text("Edward");
    assert_eq!(b.parse::<String>().unwrap(), "Edward");
    assert_eq!(b.parse::<Vec<u8>>().unwrap(), b"Edward".to_vec());
}

#[test]
fn type_tags() {
    assert_eq!(BencodeTypes::from_code(b'l'), BencodeTypes::Array);
    assert_eq!(BencodeTypes::from_code(b'd'), BencodeTypes::Object);
    assert_eq!(BencodeTypes::from_code(b'i'), BencodeTypes::Number);
    assert_eq!(BencodeTypes::from_code(b'0'), BencodeTypes::Bytes);
    assert_eq!(BencodeTypes::from_code(b'9'), BencodeTypes::Bytes);
    assert_eq!(BencodeTypes::Array.prefix(), b'l');
    assert_eq!(BencodeTypes::Object.prefix(), b'd');
    assert_eq!(BencodeTypes::Number.prefix(), b'i');
    assert_eq!(BencodeTypes::Array.suffix(), b'e');
    assert_eq!(BencodeTypes::Object.suffix(), b'e');
    assert_eq!(BencodeTypes::Number.suffix(), b'e');
    assert_eq!(BencodeTypes::Bytes.delimiter(), b':');
}

#[test]
fn variant_dispatch() {
    let n = BencodeNumber::from_u64(7);
    assert_eq!(n.get_type(), BencodeTypes::Number);
    let up = n.upcast();
    assert_eq!(up.get_type(), BencodeTypes::Number);
    assert!(up.as_number().is_some());
    assert!(up.as_bytes().is_none());
    assert!(up.as_array().is_none());
    assert!(up.as_object().is_none());

    let a = BencodeArray::new().upcast();
    assert_eq!(a.get_type(), BencodeTypes::Array);
    let o = BencodeObject::new().upcast();
    assert_eq!(o.get_type(), BencodeTypes::Object);
    let b = BencodeBytes::from_vec(Vec::new()).upcast();
    assert_eq!(b.get_type(), BencodeTypes::Bytes);
}

#[test]
fn structural_equality() {
    let mut a = BencodeObject::new();
    a.put(
        BencodeBytes::from_text("k"),
        Bencode::Number(BencodeNumber::from_u64(1)),
    );
    let mut b = BencodeObject::new();
    b.put(
        BencodeBytes::from_text("k"),
        Bencode::Number(BencodeNumber::from_u64(1)),
    );
    assert!(a.equals(&b));
    assert_eq!(a, b);
    b.put(
        BencodeBytes::from_text("k"),
        Bencode::Number(BencodeNumber::from_u64(2)),
    );
    assert!(!a.equals(&b));
    // Numbers compare by their exact representation, not their value.
    let one = Bencode::Number(BencodeNumber::from_digits(b"1".to_vec()).unwrap());
    let padded = Bencode::Number(BencodeNumber::from_digits(b"01".to_vec()).unwrap());
    assert_ne!(one, padded);
    // Different variants never compare equal.
    assert_ne!(
        Bencode::Bytes(BencodeBytes::from_text("1")),
        Bencode::Number(BencodeNumber::from_u64(1))
    );
}

#[test]
fn array_access() {
    let mut a = BencodeArray::new();
    a.push(Bencode::Number(BencodeNumber::from_u64(1)));
    a.push(Bencode::Number(BencodeNumber::from_u64(3)));
    a.insert(1, Bencode::Number(BencodeNumber::from_u64(2)));
    assert_eq!(a.len(), 3);
    assert_eq!(a.get(2).unwrap().as_number().unwrap().parse::<u64>().unwrap(), 3);
    assert!(a.get(3).is_none());
    let removed = a.remove(0);
    assert_eq!(removed.as_number().unwrap().parse::<u64>().unwrap(), 1);
    assert_eq!(a.to_bencode(), b"li2ei3ee".to_vec());
}
