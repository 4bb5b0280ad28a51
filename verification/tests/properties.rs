//! The codec's laws checked on concrete values: round-trip,
//! re-encoding idempotence, insertion-order preservation, truncation
//! detection, and type-prefix rejection.

use bencode::Bencode;
use bencode::BencodeArray;
use bencode::BencodeBytes;
use bencode::BencodeNumber;
use bencode::BencodeObject;
use bencode::DecodeError;
use bencode::FromBencode;
use bencode::ToBencode;

fn text(s: &str) -> BencodeBytes {
    BencodeBytes::from_text(s)
}

fn sample_tree() -> Bencode {
    let mut obj = BencodeObject::new();
    obj.put(text("name"), Bencode::Bytes(text("Edward")));
    obj.put(
        text("raw"),
        Bencode::Bytes(BencodeBytes::from_vec(vec![0, 255, 58, 101])),
    );
    obj.put(text("count"), Bencode::Number(BencodeNumber::from_i64(-42)));
    let mut arr = BencodeArray::new();
    arr.push(Bencode::Number(BencodeNumber::from_u64(0)));
    arr.push(Bencode::Bytes(text("")));
    arr.push(Bencode::Object(BencodeObject::new()));
    arr.push(Bencode::Array(BencodeArray::new()));
    obj.put(text("items"), Bencode::Array(arr));
    Bencode::Object(obj)
}

#[test]
fn round_trip() {
    let v = sample_tree();
    let encoded = v.to_bencode();
    let (decoded, used) = Bencode::from_bencode_with_offset(&encoded).unwrap();
    assert_eq!(used, encoded.len());
    assert_eq!(decoded, v);
    assert!(decoded.equals(&v));
}

#[test]
fn round_trip_scalars() {
    for digits in [&b"0"[..], b"-7", b"12307123", b"100.2"] {
        let n = BencodeNumber::from_digits(digits.to_vec()).unwrap();
        let v = Bencode::Number(n);
        let decoded = Bencode::from_bencode(&v.to_bencode()).unwrap();
        assert_eq!(decoded, v);
    }
    for data in [&b""[..], b"a", b"HELLO WORLD", b"\x00\xff:100e"] {
        let v = Bencode::Bytes(BencodeBytes::from_vec(data.to_vec()));
        let decoded = Bencode::from_bencode(&v.to_bencode()).unwrap();
        assert_eq!(decoded, v);
    }
}

#[test]
fn reencode_idempotent() {
    let v = sample_tree();
    let encoded = v.to_bencode();
    let decoded = Bencode::from_bencode(&encoded).unwrap();
    assert_eq!(decoded.to_bencode(), encoded);
}

#[test]
fn insertion_order_preserved() {
    let mut obj = BencodeObject::new();
    obj.put(text("a"), Bencode::Number(BencodeNumber::from_u64(1)));
    obj.put(text("b"), Bencode::Number(BencodeNumber::from_u64(2)));
    obj.put(text("a"), Bencode::Number(BencodeNumber::from_u64(9)));
    // Key "a" keeps its original slot; only its value was replaced.
    let keys: Vec<&[u8]> = obj.iter().iter().map(|e| e.key.as_bytes()).collect();
    assert_eq!(keys, vec![&b"a"[..], b"b"]);
    assert_eq!(obj.to_bencode(), b"d1:ai9e1:bi2ee".to_vec());
}

#[test]
fn remove_frees_slot() {
    let mut obj = BencodeObject::new();
    obj.put(text("a"), Bencode::Number(BencodeNumber::from_u64(1)));
    obj.put(text("b"), Bencode::Number(BencodeNumber::from_u64(2)));
    let gone = obj.remove(b"a").unwrap();
    assert_eq!(gone.as_number().unwrap().parse::<u64>().unwrap(), 1);
    assert!(!obj.contains_key(b"a"));
    assert!(obj.contains_key(b"b"));
    // A later insert of the removed key appends at the end.
    obj.put(text("a"), Bencode::Number(BencodeNumber::from_u64(3)));
    assert_eq!(obj.to_bencode(), b"d1:bi2e1:ai3ee".to_vec());
}

#[test]
fn truncation_detected() {
    let cases: &[&[u8]] = &[
        b"l11:HELLO WORLDi100.2ee",
        b"d1:a11:HELLO WORLD1:bi100.2ee",
        b"3:abc",
        b"le",
        b"de",
    ];
    for full in cases {
        let whole = Bencode::from_bencode(full);
        assert!(whole.is_ok());
        let cut = &full[..full.len() - 1];
        assert!(matches!(
            Bencode::from_bencode(cut),
            Err(DecodeError::TruncatedInput)
        ));
    }
    // A bare number loses its terminator instead.
    assert!(matches!(
        Bencode::from_bencode(b"i42"),
        Err(DecodeError::MalformedNumber)
    ));
    // A bare empty byte string loses its ':' instead.
    assert!(matches!(
        Bencode::from_bencode(b"0"),
        Err(DecodeError::MalformedLength)
    ));
}

#[test]
fn type_prefix_rejected() {
    assert!(matches!(
        Bencode::from_bencode(b"xyz"),
        Err(DecodeError::InvalidPrefix)
    ));
    // Inside an array or object the same lead byte is an unknown child
    // prefix.
    assert!(matches!(
        Bencode::from_bencode(b"lxe"),
        Err(DecodeError::UnknownTypePrefix)
    ));
    assert!(matches!(
        Bencode::from_bencode(b"d1:axe"),
        Err(DecodeError::UnknownTypePrefix)
    ));
}

#[test]
fn duplicate_keys_in_input_overwrite_in_place() {
    // The duplicate key keeps its first position but takes the later
    // value.
    let obj = BencodeObject::from_bencode(b"d1:ai1e1:bi2e1:ai9ee").unwrap();
    assert_eq!(obj.len(), 2);
    assert_eq!(obj.to_bencode(), b"d1:ai9e1:bi2ee".to_vec());
}

#[test]
fn offset_decoding_advances() {
    let buf = b"i5e3:abcle";
    let (first, n1) = Bencode::from_bencode_with_offset(buf).unwrap();
    assert_eq!(n1, 3);
    assert_eq!(first.as_number().unwrap().parse::<u64>().unwrap(), 5);
    let (second, n2) = Bencode::decode_at(buf, n1).unwrap();
    assert_eq!(n2, 8);
    assert_eq!(second.as_bytes().unwrap().as_bytes(), b"abc");
    let (third, n3) = Bencode::decode_at(buf, n2).unwrap();
    assert_eq!(n3, buf.len());
    assert_eq!(third.as_array().unwrap().len(), 0);
}
