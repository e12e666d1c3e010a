use gateway_core::obj::{
    Attachment, Emoji, Message, ParseError, Payload, Reaction, SerialiseError, User,
};
use gateway_core::term::EtfTerm;
use gateway_core::value::{Data, Value};

fn s(x: &str) -> Value {
    Value::String(x.to_string())
}

fn user_doc(extra: Vec<(&'static str, Value)>) -> Data {
    let mut v = vec![
        ("id", Value::BigInt(80351110224678912)),
        ("username", s("nelly")),
        ("global_name", Value::NoneType),
        ("discriminator", s("1337")),
        ("avatar", s("8342729096ea3675442027381ff50dfe")),
        ("banner", Value::NoneType),
        ("public_flags", Value::Integer(64)),
    ];
    v.extend(extra);
    Data::new(v)
}

fn attachment_doc() -> Data {
    Data::new(vec![
        ("id", Value::BigInt(1)),
        ("filename", s("clip.mov")),
        ("size", Value::Integer(2048)),
        ("url", s("https://cdn.example/clip.mov")),
        ("height", Value::NoneType),
        ("width", Value::Integer(640)),
        ("content_type", s("video/quicktime")),
    ])
}

fn message_doc(content: Value, attachments: Vec<Value>) -> Data {
    Data::new(vec![
        ("author", Value::Data(user_doc(vec![]))),
        ("attachments", Value::Array(attachments)),
        ("id", Value::BigInt(900)),
        ("channel_id", Value::BigInt(77)),
        ("type", Value::Integer(0)),
        ("content", content),
    ])
}

fn atom(x: &str) -> EtfTerm {
    EtfTerm::Atom(x.to_string())
}

#[test]
fn user_reads_all_fields() {
    let u = User::try_from(&user_doc(vec![])).ok().expect("a user");
    assert_eq!(u.id, 80351110224678912);
    assert_eq!(u.username, "nelly");
    assert_eq!(u.displayname, None);
    assert_eq!(u.discriminator, 1337);
    assert_eq!(u.flags, 64);
    assert!(!u.bot);
}

#[test]
fn user_flags_prefer_flags_over_public_flags() {
    let u = User::try_from(&user_doc(vec![("flags", Value::Integer(3)), ("bot", Value::Bool(true))]))
        .ok()
        .expect("a user");
    assert_eq!(u.flags, 3);
    assert!(u.bot);
}

#[test]
fn user_errors() {
    let mut d = user_doc(vec![]);
    d.insert("id".to_string(), s("x"));
    assert!(matches!(User::try_from(&d), Err(ParseError::MissingId)));
    let d = user_doc(vec![("discriminator", s("abc"))]);
    assert!(matches!(User::try_from(&d), Err(ParseError::BadParam)));
    let d = user_doc(vec![("discriminator", Value::Integer(1))]);
    assert!(matches!(User::try_from(&d), Err(ParseError::MissingParam)));
    let d = user_doc(vec![("flags", s("x"))]);
    assert!(matches!(User::try_from(&d), Err(ParseError::BadParam)));
    let d = user_doc(vec![("public_flags", Value::NoneType)]);
    assert!(matches!(User::try_from(&d), Err(ParseError::MissingParam)));
    let d = user_doc(vec![("bot", s("yes"))]);
    assert!(matches!(User::try_from(&d), Err(ParseError::BadParam)));
}

#[test]
fn avatar_urls() {
    let u = User::try_from(&user_doc(vec![])).ok().unwrap();
    assert_eq!(
        u.avatar(4096),
        "https://cdn.discordapp.com/avatars/80351110224678912/8342729096ea3675442027381ff50dfe.jpg?size=4096"
    );
    let u = User::try_from(&user_doc(vec![("avatar", s("a_1269e74af4df7417b13759eae50c83dc"))])).ok().unwrap();
    assert_eq!(
        u.avatar(128),
        "https://cdn.discordapp.com/avatars/80351110224678912/a_1269e74af4df7417b13759eae50c83dc.gif?size=128"
    );
    let u = User::try_from(&user_doc(vec![("avatar", Value::NoneType)])).ok().unwrap();
    assert_eq!(u.avatar(4096), "https://cdn.discordapp.com/embed/avatars/2.png");
    let u = User::try_from(&user_doc(vec![("avatar", Value::NoneType), ("discriminator", s("0"))])).ok().unwrap();
    let expected = (80351110224678912u64 >> 22) % 6;
    assert_eq!(u.avatar(4096), format!("https://cdn.discordapp.com/embed/avatars/{}.png", expected));
}

#[test]
fn banner_urls() {
    let u = User::try_from(&user_doc(vec![])).ok().unwrap();
    assert_eq!(u.banner(600), None);
    let u = User::try_from(&user_doc(vec![("banner", s("a_b"))])).ok().unwrap();
    assert_eq!(u.banner(600), Some("https://cdn.discordapp.com/banners/80351110224678912/a_b.gif?size=600".to_string()));
}

#[test]
fn display_names() {
    let u = User::try_from(&user_doc(vec![])).ok().unwrap();
    assert_eq!(u.display(), "nelly#1337");
    assert_eq!(u.friendly_display(), "nelly#1337");
    let u = User::try_from(&user_doc(vec![("discriminator", s("0")), ("global_name", s("Nelly"))])).ok().unwrap();
    assert_eq!(u.display(), "nelly");
    assert_eq!(u.friendly_display(), "Nelly");
}

#[test]
fn attachment_reads_dimensions_when_both_given() {
    let a = Attachment::try_from(&attachment_doc()).ok().unwrap();
    assert_eq!(a.size, 2048);
    assert!(!a.renderable);
    assert_eq!(a.dimensions, None);
    let mut d = attachment_doc();
    d.insert("height".to_string(), Value::Integer(480));
    let a = Attachment::try_from(&d).ok().unwrap();
    assert!(a.renderable);
    assert_eq!(a.dimensions, Some((640, 480)));
    assert_eq!(a.content_type, Some("video/quicktime".to_string()));
}

#[test]
fn attachment_errors() {
    let mut d = attachment_doc();
    d.insert("size".to_string(), Value::NoneType);
    assert!(matches!(Attachment::try_from(&d), Err(ParseError::MissingId)));
    let mut d = attachment_doc();
    d.insert("width".to_string(), s("wide"));
    assert!(matches!(Attachment::try_from(&d), Err(ParseError::MissingParam)));
}

#[test]
fn emoji_ids() {
    let e = Emoji::try_from(&Data::new(vec![("name", s("\u{1F62D}")), ("id", Value::NoneType)])).ok().unwrap();
    assert_eq!(e.id, None);
    let e = Emoji::try_from(&Data::new(vec![("name", s("x")), ("id", s("nil"))])).ok().unwrap();
    assert_eq!(e.id, None);
    let e = Emoji::try_from(&Data::new(vec![("name", s("x")), ("id", Value::BigInt(5))])).ok().unwrap();
    assert_eq!(e.id, Some(5));
    assert!(matches!(Emoji::try_from(&Data::new(vec![("id", Value::BigInt(5))])), Err(ParseError::MissingParam)));
    assert!(matches!(
        Emoji::try_from(&Data::new(vec![("name", s("x")), ("id", Value::Bool(true))])),
        Err(ParseError::MissingParam)
    ));
}

#[test]
fn message_keeps_readable_attachments_only() {
    let d = message_doc(s("hello"), vec![Value::Data(attachment_doc()), Value::Integer(1), Value::Data(Data::empty())]);
    let m = Message::try_from(&d).ok().unwrap();
    assert_eq!(m.id, 900);
    assert_eq!(m.channel_id, 77);
    assert_eq!(m.content, Some("hello".to_string()));
    assert_eq!(m.attachments.len(), 1);
    assert_eq!(m.author.username, "nelly");
}

#[test]
fn message_errors() {
    let mut d = message_doc(Value::NoneType, vec![]);
    d.insert("author".to_string(), Value::Integer(1));
    assert!(matches!(Message::try_from(&d), Err(ParseError::BadSubObject)));
    let mut d = message_doc(Value::NoneType, vec![]);
    d.insert("attachments".to_string(), Value::NoneType);
    assert!(matches!(Message::try_from(&d), Err(ParseError::BadSubObject)));
    let mut d = message_doc(Value::NoneType, vec![]);
    d.insert("author".to_string(), Value::Data(Data::empty()));
    assert!(matches!(Message::try_from(&d), Err(ParseError::MissingId)));
    let d = message_doc(Value::Integer(3), vec![]);
    assert!(matches!(Message::try_from(&d), Err(ParseError::MissingParam)));
    let m = Message::try_from(&message_doc(Value::NoneType, vec![])).ok().unwrap();
    assert_eq!(m.content, None);
}

fn frame(entries: Vec<(EtfTerm, EtfTerm)>) -> EtfTerm {
    EtfTerm::Dict(entries)
}

fn full_frame(s: EtfTerm) -> EtfTerm {
    frame(vec![
        (atom("t"), atom("MESSAGE_REACTION_ADD")),
        (atom("s"), s),
        (atom("op"), EtfTerm::FixInteger(0)),
        (atom("d"), EtfTerm::Dict(vec![(atom("k"), EtfTerm::FixInteger(1))])),
    ])
}

#[test]
fn payload_reads_its_four_fields() {
    let p = Payload::new(full_frame(EtfTerm::FixInteger(42))).ok().unwrap();
    assert_eq!(p.op, 0);
    assert_eq!(p.s, Some(42));
    assert_eq!(p.t, Some("MESSAGE_REACTION_ADD".to_string()));
    assert!(matches!(p.d.get("k"), Some(Value::Integer(1))));
    let p = Payload::new(full_frame(atom("nil"))).ok().unwrap();
    assert_eq!(p.s, None);
}

#[test]
fn payload_op_is_cut_to_a_byte_and_nil_event_is_none() {
    let t = frame(vec![
        (atom("op"), EtfTerm::FixInteger(257)),
        (atom("s"), atom("nil")),
        (atom("t"), atom("nil")),
        (atom("d"), atom("nil")),
    ]);
    let p = Payload::new(t).ok().unwrap();
    assert_eq!(p.op, 1);
    assert_eq!(p.t, None);
}

#[test]
fn payload_errors() {
    assert!(matches!(Payload::new(atom("x")), Err(SerialiseError::NonMapTerm)));
    let t = frame(vec![(EtfTerm::FixInteger(1), atom("x"))]);
    assert!(matches!(Payload::new(t), Err(SerialiseError::BadKey)));
    assert!(matches!(Payload::new(full_frame(EtfTerm::Binary(vec![1]))), Err(SerialiseError::BadSequence)));
    let t = frame(vec![(atom("op"), EtfTerm::FixInteger(1))]);
    assert!(matches!(Payload::new(t), Err(SerialiseError::IncompletePayload)));
    assert!(matches!(Payload::new(full_frame(atom("other"))), Err(SerialiseError::IncompletePayload)));
}

#[test]
fn payload_with_unreadable_document() {
    let t = frame(vec![
        (atom("op"), EtfTerm::FixInteger(1)),
        (atom("s"), atom("nil")),
        (atom("t"), atom("nil")),
        (atom("d"), EtfTerm::FixInteger(3)),
    ]);
    assert!(matches!(Payload::parse(&t), Ok(None)));
}

fn reaction_payload(t: Option<&str>, emoji: Value) -> Payload {
    let d = Data::new(vec![
        ("user_id", Value::BigInt(1)),
        ("channel_id", Value::BigInt(2)),
        ("message_id", Value::BigInt(3)),
        ("emoji", emoji),
    ]);
    Payload { d, op: 0, s: Some(1), t: t.map(|x| x.to_string()) }
}

#[test]
fn reactions_added_and_removed() {
    let e = || Value::Data(Data::new(vec![("name", s("x")), ("id", Value::NoneType)]));
    match Reaction::try_from(&reaction_payload(Some("MESSAGE_REACTION_ADD"), e())) {
        Ok(Reaction::Add(ev)) => {
            assert_eq!((ev.reactor, ev.channel, ev.message), (1, 2, 3));
            assert_eq!(ev.emoji.name, "x");
        },
        _ => panic!("expected an added reaction"),
    }
    assert!(matches!(
        Reaction::try_from(&reaction_payload(Some("MESSAGE_REACTION_REMOVE"), e())),
        Ok(Reaction::Remove(_))
    ));
    assert!(matches!(Reaction::try_from(&reaction_payload(Some("OTHER"), e())), Err(ParseError::BadParam)));
    assert!(matches!(Reaction::try_from(&reaction_payload(None, e())), Err(ParseError::BadParam)));
    assert!(matches!(
        Reaction::try_from(&reaction_payload(Some("MESSAGE_REACTION_ADD"), Value::NoneType)),
        Err(ParseError::BadSubObject)
    ));
}

#[test]
fn clones_keep_everything() {
    let m = Message::try_from(&message_doc(s("hi"), vec![Value::Data(attachment_doc())])).ok().unwrap();
    let c = m.clone();
    assert_eq!(c.id, m.id);
    assert_eq!(c.attachments[0].url, m.attachments[0].url);
    assert_eq!(c.author.avatar(1), m.author.avatar(1));
}
