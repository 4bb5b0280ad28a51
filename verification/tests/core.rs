//! End-to-end use of the codec: building trees, encoding, decoding,
//! and field access.

use bencode::Bencode;
use bencode::BencodeArray;
use bencode::BencodeBytes;
use bencode::BencodeNumber;
use bencode::BencodeObject;
use bencode::FromBencode;
use bencode::ToBencode;

fn text(s: &str) -> BencodeBytes {
    BencodeBytes::from_text(s)
}

fn num_i64(x: i64) -> BencodeNumber {
    BencodeNumber::from_i64(x)
}

#[test]
fn main() {
    let d = BencodeObject::new();
    let mut x = BencodeObject::new();
    x.put(text("name"), Bencode::Bytes(text("Edward")));
    x.put(text("t"), Bencode::Bytes(text("TEST")));
    let mut b = BencodeArray::new();
    b.push(Bencode::Bytes(text("a")));
    b.push(Bencode::Number(num_i64(12307123)));
    let mut inner = BencodeObject::new();
    inner.put(text("no"), Bencode::Number(num_i64(123)));
    b.push(Bencode::Object(inner));
    x.put(text("b"), Bencode::Array(b));
    x.put(text("p"), Bencode::Object(d));

    let z = x.remove("name".as_bytes()).unwrap();
    println!("{:?}", z.as_bytes().unwrap().parse::<String>());

    println!("{:?}", String::from_utf8(x.to_bencode()).unwrap());

    let d: Vec<u8> = vec![
        109, 49, 58, 118, 53, 58, 48, 46, 49, 46, 48, 49, 58, 116, 54, 58, 99, 114, 101, 97, 116,
        101, 49, 58, 113, 109, 54, 58, 114, 101, 99, 111, 114, 100, 49, 58, 97, 53, 58, 99, 108,
        97, 115, 115, 50, 58, 105, 110, 54, 58, 100, 111, 109, 97, 105, 110, 49, 56, 58, 117, 110,
        99, 101, 110, 116, 114, 97, 108, 105, 122, 101, 100, 46, 117, 110, 101, 116, 55, 58, 97,
        100, 100, 114, 101, 115, 115, 105, 50, 49, 51, 48, 55, 48, 54, 52, 51, 51, 101, 51, 58,
        116, 116, 108, 105, 51, 48, 48, 101, 49, 49, 58, 99, 97, 99, 104, 101, 95, 102, 108, 117,
        115, 104, 105, 49, 101, 53, 58, 108, 111, 99, 97, 108, 105, 49, 101, 101, 101,
    ];
    // The payload's structural bytes are `'m'` (109) where the Bencode
    // grammar wants `'d'` (100), so the decode is rejected at the lead
    // byte rather than materializing a tree.
    let z = BencodeObject::from_bencode(&d);
    assert!(matches!(z, Err(bencode::DecodeError::InvalidPrefix)));
}

#[test]
fn encode_nested_object() {
    let mut x = BencodeObject::new();
    x.put(text("a"), Bencode::Bytes(text("HELLO WORLD")));
    x.put(text("b"), Bencode::Number(num_i64(1002)));
    assert_eq!(x.to_bencode(), b"d1:a11:HELLO WORLD1:bi1002ee".to_vec());
}

#[test]
fn number_scenario() {
    // A fractional number keeps its exact decimal representation.
    let n = BencodeNumber::from_digits(format!("{}", 100.2_f64).into_bytes()).unwrap();
    assert_eq!(n.to_bencode(), b"i100.2e".to_vec());
    let back = BencodeNumber::from_bencode(b"i100.2e").unwrap();
    assert_eq!(back, n);
    assert_eq!(back.digits(), b"100.2");
}

#[test]
fn bytes_scenario() {
    let b = text("HELLO WORLD");
    assert_eq!(b.to_bencode(), b"11:HELLO WORLD".to_vec());
    assert_eq!(b.len(), 11);
    assert_eq!(b.as_bytes(), b"HELLO WORLD");
    assert_eq!(b.as_str().unwrap(), "HELLO WORLD");
}

#[test]
fn array_scenario() {
    let mut a = BencodeArray::new();
    a.push(Bencode::Bytes(text("HELLO WORLD")));
    a.push(Bencode::Number(
        BencodeNumber::from_digits(b"100.2".to_vec()).unwrap(),
    ));
    assert_eq!(a.to_bencode(), b"l11:HELLO WORLDi100.2ee".to_vec());
    assert_eq!(a.len(), 2);
}

#[test]
fn object_scenario() {
    let buf = b"d1:a11:HELLO WORLD1:bi100.2ee";
    let obj = BencodeObject::from_bencode(buf).unwrap();
    assert_eq!(obj.len(), 2);
    let a = obj.get(b"a").unwrap().as_bytes().unwrap();
    assert_eq!(a.as_str().unwrap(), "HELLO WORLD");
    let b = obj.get(b"b").unwrap().as_number().unwrap();
    assert_eq!(b.digits(), b"100.2");
    // Keys were inserted in this order, so re-encoding reproduces the
    // exact bytes.
    assert_eq!(obj.to_bencode(), buf.to_vec());
}

#[test]
fn record_payload() {
    // A nested record-like payload: version, type, and a nested record
    // object with mixed numbers and strings.
    let buf = b"d1:v5:0.1.01:t6:create1:qd6:record1:a5:class2:in6:domain18:uncentralized.unet7:addressi2130706433e3:ttli300e11:cache_flushi1e5:locali1eee";
    let msg = BencodeObject::from_bencode(buf.as_slice()).unwrap();
    assert_eq!(msg.len(), 3);
    assert_eq!(
        msg.get(b"v").unwrap().as_bytes().unwrap().as_str().unwrap(),
        "0.1.0"
    );
    assert_eq!(
        msg.get(b"t").unwrap().as_bytes().unwrap().as_str().unwrap(),
        "create"
    );
    let q = msg.get(b"q").unwrap().as_object().unwrap();
    assert_eq!(q.len(), 7);
    assert_eq!(
        q.get(b"domain")
            .unwrap()
            .as_bytes()
            .unwrap()
            .as_str()
            .unwrap(),
        "uncentralized.unet"
    );
    assert_eq!(
        q.get(b"address")
            .unwrap()
            .as_number()
            .unwrap()
            .parse::<u64>()
            .unwrap(),
        2130706433
    );
    assert_eq!(
        q.get(b"ttl")
            .unwrap()
            .as_number()
            .unwrap()
            .parse::<i64>()
            .unwrap(),
        300
    );
    assert_eq!(
        q.get(b"cache_flush")
            .unwrap()
            .as_number()
            .unwrap()
            .parse::<u8>()
            .unwrap(),
        1
    );
    // The whole tree re-encodes to the very bytes it came from.
    assert_eq!(msg.to_bencode(), buf.to_vec());
}

#[test]
fn mutate_nested_values() {
    let mut root = BencodeObject::new();
    let mut list = BencodeArray::new();
    list.push(Bencode::Number(num_i64(1)));
    root.put(text("xs"), Bencode::Array(list));

    let slot = root.get_mut(b"xs").unwrap();
    let arr = slot.as_array_mut().unwrap();
    arr.push(Bencode::Number(num_i64(2)));
    let first = arr.get_mut(0).unwrap();
    *first = Bencode::Number(num_i64(7));

    assert_eq!(root.to_bencode(), b"d2:xsli7ei2eee".to_vec());
}
