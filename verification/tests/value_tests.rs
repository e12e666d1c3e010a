use gateway_core::gateway::{read_frame, FrameRead};
use gateway_core::obj::Payload;
use gateway_core::term::EtfTerm;
use gateway_core::value::{encode_frame, read_data, read_value, Data, Value};

fn atom(s: &str) -> EtfTerm {
    EtfTerm::Atom(s.to_string())
}

fn bin(s: &str) -> EtfTerm {
    EtfTerm::Binary(s.as_bytes().to_vec())
}

fn text_of(v: Option<&Value>) -> Option<String> {
    match v {
        Some(Value::String(s)) => Some(s.clone()),
        _ => None,
    }
}

#[test]
fn data_new_and_get_last_wins() {
    let d = Data::new(vec![("a", Value::Integer(1)), ("b", Value::Bool(true)), ("a", Value::Integer(3))]);
    assert!(matches!(d.get("a"), Some(Value::Integer(3))));
    assert!(matches!(d.get("b"), Some(Value::Bool(true))));
    assert!(d.get("c").is_none());
}

#[test]
fn data_insert_overrides() {
    let mut d = Data::empty();
    d.insert("k".to_string(), Value::BigInt(7));
    d.insert("k".to_string(), Value::NoneType);
    assert!(matches!(d.get("k"), Some(Value::NoneType)));
}

#[test]
fn atoms_read_as_bools_nothing_or_text() {
    assert!(matches!(read_value(&atom("true")), Some(Value::Bool(true))));
    assert!(matches!(read_value(&atom("false")), Some(Value::Bool(false))));
    assert!(matches!(read_value(&atom("nil")), Some(Value::NoneType)));
    match read_value(&atom("MESSAGE_CREATE")) {
        Some(Value::String(s)) => assert_eq!(s, "MESSAGE_CREATE"),
        _ => panic!("expected a string"),
    }
}

#[test]
fn binaries_read_as_text_with_empty_and_nil_as_nothing() {
    assert!(matches!(read_value(&bin("")), Some(Value::NoneType)));
    assert!(matches!(read_value(&bin("nil")), Some(Value::NoneType)));
    match read_value(&bin("h\u{e9}llo")) {
        Some(Value::String(s)) => assert_eq!(s, "h\u{e9}llo"),
        _ => panic!("expected a string"),
    }
    assert!(read_value(&EtfTerm::Binary(vec![0xff, 0xfe])).is_none());
}

#[test]
fn integers_and_big_integers() {
    assert!(matches!(read_value(&EtfTerm::FixInteger(-5)), Some(Value::Integer(-5))));
    assert!(matches!(
        read_value(&EtfTerm::BigInteger("1095069453286518784".to_string())),
        Some(Value::BigInt(1095069453286518784))
    ));
    assert!(read_value(&EtfTerm::BigInteger("-1".to_string())).is_none());
    assert!(read_value(&EtfTerm::BigInteger("18446744073709551616".to_string())).is_none());
}

#[test]
fn lists_read_element_by_element() {
    match read_value(&EtfTerm::List(vec![EtfTerm::FixInteger(1), atom("nil")])) {
        Some(Value::Array(v)) => {
            assert_eq!(v.len(), 2);
            assert!(matches!(v[0], Value::Integer(1)));
            assert!(matches!(v[1], Value::NoneType));
        },
        _ => panic!("expected an array"),
    }
    assert!(read_value(&EtfTerm::List(vec![EtfTerm::Other])).is_none());
    assert!(read_value(&EtfTerm::Other).is_none());
}

#[test]
fn maps_read_with_atom_and_binary_keys() {
    let t = EtfTerm::Dict(vec![(atom("id"), EtfTerm::FixInteger(4)), (bin("name"), bin("x"))]);
    let d = read_data(&t).expect("a document");
    assert!(matches!(d.get("id"), Some(Value::Integer(4))));
    assert_eq!(text_of(d.get("name")), Some("x".to_string()));
    let bad = EtfTerm::Dict(vec![(EtfTerm::FixInteger(1), atom("nil"))]);
    assert!(read_data(&bad).is_none());
}

#[test]
fn documents_from_lists_nil_and_booleans() {
    let inner = EtfTerm::Dict(vec![(atom("k"), EtfTerm::FixInteger(1))]);
    let d = Data::from_map(EtfTerm::List(vec![inner, atom("ignored")]));
    assert!(matches!(d.get("k"), Some(Value::Integer(1))));
    let empty = Data::from_map(atom("nil"));
    assert!(empty.get("k").is_none());
    let t = Data::from_map(atom("true"));
    assert!(matches!(t.get("value"), Some(Value::Bool(true))));
    assert!(read_data(&EtfTerm::List(vec![])).is_none());
    assert!(read_data(&atom("maybe")).is_none());
    assert!(read_data(&EtfTerm::FixInteger(1)).is_none());
}

#[test]
fn from_term_reads_values() {
    assert!(matches!(Data::from_term(&atom("true")), Value::Bool(true)));
    assert!(matches!(Data::from_term(&EtfTerm::FixInteger(3)), Value::Integer(3)));
}

#[test]
fn values_are_written_as_terms() {
    assert!(matches!(Data::to_term(&Value::Bool(false)), EtfTerm::Atom(ref s) if s == "false"));
    assert!(matches!(Data::to_term(&Value::NoneType), EtfTerm::Atom(ref s) if s == "nil"));
    assert!(matches!(Data::to_term(&Value::BigInt(42)), EtfTerm::BigInteger(ref s) if s == "42"));
    assert!(matches!(Data::to_term(&Value::String("hi".to_string())), EtfTerm::Binary(ref b) if b == b"hi"));
    let d = Data::new(vec![("op", Value::Integer(1))]);
    match d.to_map() {
        EtfTerm::Dict(es) => {
            assert_eq!(es.len(), 1);
            assert!(matches!(es[0].0, EtfTerm::Binary(ref b) if b == b"op"));
            assert!(matches!(es[0].1, EtfTerm::FixInteger(1)));
        },
        _ => panic!("expected a map"),
    }
}

#[test]
fn written_documents_read_back() {
    let inner = Data::new(vec![("token", Value::String("abc".to_string())), ("seq", Value::Integer(12))]);
    let d = Data::new(vec![
        ("op", Value::Integer(6)),
        ("d", Value::Data(inner)),
        ("big", Value::BigInt(u64::MAX)),
        ("list", Value::Array(vec![Value::Bool(true), Value::NoneType])),
    ]);
    let back = read_data(&d.to_map()).expect("a document");
    assert!(matches!(back.get("op"), Some(Value::Integer(6))));
    assert!(matches!(back.get("big"), Some(Value::BigInt(u64::MAX))));
    match back.get("d") {
        Some(Value::Data(i)) => {
            assert_eq!(text_of(i.get("token")), Some("abc".to_string()));
            assert!(matches!(i.get("seq"), Some(Value::Integer(12))));
        },
        _ => panic!("expected a document"),
    }
    match back.get("list") {
        Some(Value::Array(v)) => assert!(matches!(v[..], [Value::Bool(true), Value::NoneType])),
        _ => panic!("expected an array"),
    }
}

#[test]
fn empty_strings_do_not_read_back_as_strings() {
    let d = Data::new(vec![("s", Value::String(String::new()))]);
    let back = read_data(&d.to_map()).expect("a document");
    assert!(matches!(back.get("s"), Some(Value::NoneType)));
}

fn eatom(x: &str) -> eetf::Term {
    eetf::Term::from(eetf::Atom::from(x))
}

/// The bytes of a frame (opcode 0) whose document holds `key => value`.
fn frame_with(key: &str, value: eetf::Term) -> Vec<u8> {
    let d = eetf::Term::from(eetf::Map::from(vec![(eatom(key), value)]));
    let m = eetf::Map::from(vec![
        (eatom("op"), eetf::Term::from(eetf::FixInteger::from(0))),
        (eatom("s"), eatom("nil")),
        (eatom("t"), eatom("X")),
        (eatom("d"), d),
    ]);
    let mut buf = Vec::new();
    eetf::Term::from(m).encode(&mut buf).unwrap();
    buf
}

fn payload_of(bytes: &[u8]) -> Payload {
    match read_frame(bytes) {
        FrameRead::Frame(p) => p,
        _ => panic!("expected a frame"),
    }
}

#[test]
fn encode_matches_the_term_encoder() {
    let d = Data::new(vec![("op", Value::Integer(1))]);
    let ours = encode_frame(&d);
    let theirs = {
        let m = eetf::Map::from(vec![(
            eetf::Term::from(eetf::Binary::from(&b"op"[..])),
            eetf::Term::from(eetf::FixInteger::from(1)),
        )]);
        let mut buf = Vec::new();
        eetf::Term::from(m).encode(&mut buf).unwrap();
        buf
    };
    assert_eq!(ours, theirs);
    assert_eq!(ours[0], 131);
}

#[test]
fn frames_with_binary_keys_are_refused() {
    let inner = Data::new(vec![("op", Value::Integer(1)), ("d", Value::BigInt(251))]);
    let d = Data::new(vec![
        ("op", Value::Integer(0)),
        ("s", Value::NoneType),
        ("t", Value::NoneType),
        ("d", Value::Data(inner)),
    ]);
    // Binary keys are not frame keys: the frame reader refuses them.
    assert!(matches!(read_frame(&encode_frame(&d)), FrameRead::Rejected(_)));
    assert!(matches!(read_frame(&[1, 2, 3]), FrameRead::Undecodable));
}

#[test]
fn decoded_terms_keep_their_shape() {
    let big: eetf::Term = eetf::BigInteger::from(1095069453286518784u64).into();
    let list = eetf::Term::from(eetf::List::from(vec![eatom("x"), big]));
    let p = payload_of(&frame_with("l", list));
    match p.d.get("l") {
        Some(Value::Array(v)) => {
            assert!(matches!(v[0], Value::String(ref s) if s == "x"));
            assert!(matches!(v[1], Value::BigInt(1095069453286518784)));
        },
        _ => panic!("expected a list"),
    }
}

#[test]
fn floats_pass_through() {
    let f = eetf::Term::from(eetf::Float::try_from(1.5f64).unwrap());
    let p = payload_of(&frame_with("f", f));
    match p.d.get("f") {
        Some(Value::Float(f)) => assert_eq!(f.value, 1.5),
        _ => panic!("expected a float"),
    }
    let copy = Data::to_term(p.d.get("f").unwrap());
    assert!(matches!(copy, EtfTerm::Float(ref g) if g.value == 1.5));
}

#[test]
fn default_value_is_nothing() {
    assert!(matches!(Value::default(), Value::NoneType));
}

fn bin_int_map(entries: Vec<(&[u8], i32)>) -> Vec<u8> {
    let m = eetf::Map::from(
        entries
            .into_iter()
            .map(|(k, v)| (eetf::Term::from(eetf::Binary::from(k)), eetf::Term::from(eetf::FixInteger::from(v))))
            .collect::<Vec<_>>(),
    );
    let mut buf = Vec::new();
    eetf::Term::from(m).encode(&mut buf).unwrap();
    buf
}

#[test]
fn overridden_entries_are_written_once() {
    let d = Data {
        d: vec![
            ("a".to_string(), Value::Integer(1)),
            ("b".to_string(), Value::Integer(2)),
            ("a".to_string(), Value::Integer(3)),
        ],
    };
    assert_eq!(encode_frame(&d), bin_int_map(vec![(b"b", 2), (b"a", 3)]));
    match d.to_map() {
        EtfTerm::Dict(es) => assert_eq!(es.len(), 2),
        _ => panic!("expected a map"),
    }
}

#[test]
fn insert_replaces_the_value_in_place() {
    let mut d = Data::new(vec![("a", Value::Integer(1)), ("b", Value::Integer(2))]);
    d.insert("a".to_string(), Value::Integer(3));
    assert_eq!(d.d.len(), 2);
    assert_eq!(encode_frame(&d), bin_int_map(vec![(b"a", 3), (b"b", 2)]));
    d.insert("c".to_string(), Value::Integer(4));
    assert_eq!(d.d.len(), 3);
    assert!(matches!(d.get("c"), Some(Value::Integer(4))));
}
