use gateway_core::gateway::{clears_after, close_action, read_frame, Action, CloseAction, FrameRead, GatewayState};
use gateway_core::obj::{Payload, SerialiseError, User};
use gateway_core::value::{Data, Value};

const AUTHOR: u64 = 80351110224678912;
const SELF_ID: u64 = 42;
const CHANNEL: u64 = 77;

fn s(x: &str) -> Value {
    Value::String(x.to_string())
}

fn user_doc(id: u64, name: &str) -> Data {
    Data::new(vec![
        ("id", Value::BigInt(id)),
        ("username", s(name)),
        ("global_name", Value::NoneType),
        ("discriminator", s("1337")),
        ("avatar", s("8342729096ea3675442027381ff50dfe")),
        ("banner", Value::NoneType),
        ("public_flags", Value::Integer(0)),
    ])
}

fn payload(op: u8, seq: Option<u64>, t: Option<&str>, d: Data) -> Payload {
    Payload { d, op, s: seq, t: t.map(|x| x.to_string()) }
}

fn message_doc(id: u64, author: u64, content: &str, attachments: Vec<Value>) -> Data {
    Data::new(vec![
        ("author", Value::Data(user_doc(author, "nelly"))),
        ("attachments", Value::Array(attachments)),
        ("id", Value::BigInt(id)),
        ("channel_id", Value::BigInt(CHANNEL)),
        ("type", Value::Integer(0)),
        ("content", s(content)),
    ])
}

fn create(id: u64, author: u64, content: &str) -> Payload {
    payload(0, Some(id), Some("MESSAGE_CREATE"), message_doc(id, author, content, vec![]))
}

fn ready_state() -> GatewayState {
    let mut g = GatewayState::new("tok".to_string());
    let d = Data::new(vec![("session_id", s("sess")), ("user", Value::Data(user_doc(SELF_ID, "me")))]);
    let acts = g.step(payload(0, Some(1), Some("READY"), d)).expect("accepted");
    assert!(acts.is_empty());
    g
}

fn posts(acts: &[Action]) -> Vec<(u64, String, Option<u64>)> {
    acts.iter()
        .map(|a| match a {
            Action::Post { channel, content, reference } => (*channel, content.clone(), *reference),
            _ => panic!("expected only posts"),
        })
        .collect()
}

fn sent_op(a: &Action) -> Option<i32> {
    match a {
        Action::Send(d) => match d.get("op") {
            Some(Value::Integer(i)) => Some(*i),
            _ => None,
        },
        _ => None,
    }
}

fn reaction(t: &str, reactor: u64, message: u64, emoji: &str) -> Payload {
    let d = Data::new(vec![
        ("user_id", Value::BigInt(reactor)),
        ("channel_id", Value::BigInt(CHANNEL)),
        ("message_id", Value::BigInt(message)),
        ("emoji", Value::Data(Data::new(vec![("name", s(emoji)), ("id", Value::NoneType)]))),
    ]);
    payload(0, Some(9), Some(t), d)
}

#[test]
fn hello_identifies_starts_the_heartbeat_and_sets_presence() {
    let mut g = GatewayState::new("tok".to_string());
    let hello = payload(10, None, None, Data::new(vec![("heartbeat_interval", Value::Integer(41250))]));
    let acts = g.step(hello).expect("accepted");
    assert_eq!(acts.len(), 3);
    assert_eq!(sent_op(&acts[0]), Some(2));
    match &acts[0] {
        Action::Send(d) => match d.get("d") {
            Some(Value::Data(inner)) => {
                assert!(matches!(inner.get("token"), Some(Value::String(t)) if t == "tok"));
                assert!(matches!(inner.get("capabilities"), Some(Value::Integer(125))));
            },
            _ => panic!("identify without a body"),
        },
        _ => panic!("expected the identify"),
    }
    assert!(matches!(acts[1], Action::StartHeartbeat(41250)));
    assert_eq!(sent_op(&acts[2]), Some(3));
    assert!(g.authenticated);
}

#[test]
fn identify_happens_once() {
    let mut g = GatewayState::new("tok".to_string());
    g.step(payload(10, None, None, Data::empty())).expect("accepted");
    let again = g.step(payload(10, None, None, Data::empty())).expect("accepted");
    assert!(again.is_empty());
}

#[test]
fn hello_without_interval_beats_every_30_ms() {
    let mut g = GatewayState::new("tok".to_string());
    let acts = g.step(payload(10, None, None, Data::empty())).expect("accepted");
    assert!(matches!(acts[1], Action::StartHeartbeat(30)));
}

#[test]
fn hello_with_a_non_integer_interval_is_refused() {
    let mut g = GatewayState::new("tok".to_string());
    let p = payload(10, None, None, Data::new(vec![("heartbeat_interval", s("soon"))]));
    assert!(!g.accepts(&p));
    assert!(g.step(p).is_none());
    assert!(!g.authenticated);
}

#[test]
fn unacknowledged_heartbeat_closes_and_ack_rearms() {
    let mut g = GatewayState::new("tok".to_string());
    let acts = g.step(payload(1, None, None, Data::empty())).unwrap();
    assert_eq!(acts.len(), 1);
    assert_eq!(sent_op(&acts[0]), Some(1));
    match &acts[0] {
        Action::Send(d) => assert!(matches!(d.get("d"), Some(Value::BigInt(0)))),
        _ => panic!("expected a heartbeat"),
    }
    assert!(!g.heartbeat_last_acked);
    let acts = g.step(payload(1, None, None, Data::empty())).unwrap();
    assert_eq!(acts.len(), 1);
    assert!(matches!(acts[0], Action::Close));
    let acts = g.step(payload(11, None, None, Data::empty())).unwrap();
    assert!(acts.is_empty());
    assert!(g.heartbeat_last_acked);
    let acts = g.step(payload(1, None, None, Data::empty())).unwrap();
    assert_eq!(sent_op(&acts[0]), Some(1));
}

#[test]
fn dispatch_records_the_sequence_number() {
    let mut g = GatewayState::new("tok".to_string());
    g.step(payload(0, Some(5), Some("TYPING_START"), Data::empty())).unwrap();
    assert_eq!(g.seq, 5);
    g.step(payload(0, None, Some("TYPING_START"), Data::empty())).unwrap();
    assert_eq!(g.seq, 5);
    let acts = g.step(payload(1, None, None, Data::empty())).unwrap();
    match &acts[0] {
        Action::Send(d) => assert!(matches!(d.get("d"), Some(Value::BigInt(5)))),
        _ => panic!("expected a heartbeat"),
    }
}

#[test]
fn send_only_opcodes_and_nameless_dispatches_are_refused() {
    let mut g = GatewayState::new("tok".to_string());
    for op in [2u8, 3, 4, 6, 8] {
        assert!(g.step(payload(op, None, None, Data::empty())).is_none());
    }
    assert!(g.step(payload(0, Some(3), None, Data::empty())).is_none());
    assert_eq!(g.seq, 0);
    let acts = g.step(payload(12, None, None, Data::empty())).unwrap();
    assert!(acts.is_empty());
}

#[test]
fn ready_remembers_session_and_user() {
    let g = ready_state();
    assert_eq!(g.session_id, Some("sess".to_string()));
    assert_eq!(g.user.as_ref().map(|u| u.id), Some(SELF_ID));
    assert!(g.user_cache.contains_key(&SELF_ID));
}

#[test]
fn reconnect_without_session_closes_and_with_session_resumes() {
    let mut g = GatewayState::new("tok".to_string());
    let acts = g.step(payload(7, None, None, Data::empty())).unwrap();
    assert!(matches!(acts[..], [Action::Close]));
    let mut g = ready_state();
    let acts = g.step(payload(7, None, None, Data::empty())).unwrap();
    assert_eq!(acts.len(), 2);
    assert!(matches!(acts[0], Action::Reconnect));
    assert_eq!(sent_op(&acts[1]), Some(6));
    match &acts[1] {
        Action::Send(d) => match d.get("d") {
            Some(Value::Data(inner)) => {
                assert!(matches!(inner.get("session_id"), Some(Value::String(x)) if x == "sess"));
                assert!(matches!(inner.get("seq"), Some(Value::Integer(1))));
            },
            _ => panic!("resume without a body"),
        },
        _ => panic!("expected a resume"),
    }
}

#[test]
fn invalid_session_reidentifies_or_resumes() {
    let mut g = GatewayState::new("tok".to_string());
    g.step(payload(10, None, None, Data::empty())).unwrap();
    let acts = g.step(payload(9, None, None, Data::new(vec![("value", Value::Bool(false))]))).unwrap();
    assert_eq!(acts.len(), 3);
    assert!(matches!(acts[0], Action::Sleep(5)));
    assert_eq!(sent_op(&acts[1]), Some(2));
    assert_eq!(sent_op(&acts[2]), Some(3));
    assert!(g.authenticated);
    let mut g = ready_state();
    let acts = g.step(payload(9, None, None, Data::new(vec![("value", Value::Bool(true))]))).unwrap();
    assert!(matches!(acts[0], Action::Reconnect));
    assert!(!g.authenticated);
}

#[test]
fn messages_are_cached_and_own_messages_get_no_reply() {
    let mut g = ready_state();
    let acts = g.step(create(900, SELF_ID, "ping")).unwrap();
    assert!(acts.is_empty());
    let acts = g.step(create(901, AUTHOR, "hello")).unwrap();
    assert!(acts.is_empty());
    assert_eq!(g.message_cache.get(CHANNEL).map(|q| q.len()), Some(2));
    assert!(g.user_cache.contains_key(&AUTHOR));
}

#[test]
fn without_a_ready_user_nothing_is_answered() {
    let mut g = GatewayState::new("tok".to_string());
    let acts = g.step(create(900, AUTHOR, "ping")).unwrap();
    assert!(acts.is_empty());
    assert_eq!(g.message_cache.get(CHANNEL).map(|q| q.len()), Some(1));
}

#[test]
fn ping_is_answered_whatever_its_case() {
    let mut g = ready_state();
    let acts = g.step(create(900, AUTHOR, "PiNg please")).unwrap();
    assert_eq!(posts(&acts), vec![(CHANNEL, "ping".to_string(), Some(900))]);
}

#[test]
fn unreadable_messages_change_nothing() {
    let mut g = ready_state();
    let d = Data::new(vec![("id", Value::BigInt(1)), ("channel_id", Value::BigInt(CHANNEL))]);
    let acts = g.step(payload(0, Some(2), Some("MESSAGE_CREATE"), d)).unwrap();
    assert!(acts.is_empty());
    assert_eq!(g.message_cache.len(), 0);
}

#[test]
fn unrenderable_videos_are_noted_before_the_command_reply() {
    let mut g = ready_state();
    let video = Data::new(vec![
        ("id", Value::BigInt(1)),
        ("filename", s("clip.mov")),
        ("size", Value::Integer(2048)),
        ("url", s("https://cdn.example/clip.mov")),
        ("height", Value::NoneType),
        ("width", Value::Integer(640)),
        ("content_type", s("video/quicktime")),
    ]);
    let d = message_doc(900, AUTHOR, "ping", vec![Value::Data(video)]);
    let acts = g.step(payload(0, Some(2), Some("MESSAGE_CREATE"), d)).unwrap();
    assert_eq!(
        posts(&acts),
        vec![
            (CHANNEL, "clip.mov unrenderable".to_string(), Some(900)),
            (CHANNEL, "ping".to_string(), Some(900)),
        ]
    );
}

#[test]
fn deleted_messages_can_be_sniped() {
    let mut g = ready_state();
    let acts = g.step(create(902, AUTHOR, "snipe")).unwrap();
    assert_eq!(posts(&acts), vec![(CHANNEL, "no snipe".to_string(), Some(902))]);
    g.step(create(903, AUTHOR, "secret")).unwrap();
    let del = Data::new(vec![("id", Value::BigInt(903)), ("channel_id", Value::BigInt(CHANNEL))]);
    g.step(payload(0, Some(4), Some("MESSAGE_DELETE"), del)).unwrap();
    assert_eq!(g.snipes.get(&CHANNEL).map(|m| m.id), Some(903));
    let acts = g.step(create(904, AUTHOR, "snipe")).unwrap();
    assert_eq!(posts(&acts), vec![(CHANNEL, "nelly#1337 deleted:\n\nsecret\n".to_string(), Some(903))]);
}

#[test]
fn deleting_an_uncached_message_leaves_no_snipe() {
    let mut g = ready_state();
    g.step(create(903, AUTHOR, "hi")).unwrap();
    let del = Data::new(vec![("id", Value::BigInt(999)), ("channel_id", Value::BigInt(CHANNEL))]);
    g.step(payload(0, Some(4), Some("MESSAGE_DELETE"), del)).unwrap();
    assert!(g.snipes.is_empty());
}

#[test]
fn sob_reactions_count_for_the_author() {
    let mut g = ready_state();
    g.step(create(900, AUTHOR, "sad")).unwrap();
    g.step(reaction("MESSAGE_REACTION_ADD", 7, 900, "\u{1F62D}")).unwrap();
    assert_eq!(g.sob_lb.get(&AUTHOR), Some(&1));
    g.step(reaction("MESSAGE_REACTION_ADD", AUTHOR, 900, "\u{1F62D}")).unwrap();
    g.step(reaction("MESSAGE_REACTION_ADD", 7, 900, "x")).unwrap();
    g.step(reaction("MESSAGE_REACTION_ADD", 7, 12345, "\u{1F62D}")).unwrap();
    assert_eq!(g.sob_lb.get(&AUTHOR), Some(&1));
    let acts = g.step(create(905, 8, "soblb")).unwrap();
    assert_eq!(posts(&acts), vec![(CHANNEL, "SOBS!!! :\nnelly#1337 - 1\n".to_string(), Some(905))]);
}

#[test]
fn sob_added_then_removed_restores_the_count() {
    let mut g = ready_state();
    g.step(create(900, AUTHOR, "sad")).unwrap();
    g.step(reaction("MESSAGE_REACTION_ADD", 7, 900, "\u{1F62D}")).unwrap();
    g.step(reaction("MESSAGE_REACTION_ADD", 8, 900, "\u{1F62D}")).unwrap();
    assert_eq!(g.sob_lb.get(&AUTHOR), Some(&2));
    g.step(reaction("MESSAGE_REACTION_REMOVE", 8, 900, "\u{1F62D}")).unwrap();
    assert_eq!(g.sob_lb.get(&AUTHOR), Some(&1));
}

#[test]
fn removing_an_uncounted_sob_counts_from_one() {
    let mut g = ready_state();
    g.step(create(900, AUTHOR, "sad")).unwrap();
    g.step(reaction("MESSAGE_REACTION_REMOVE", 7, 900, "\u{1F62D}")).unwrap();
    assert_eq!(g.sob_lb.get(&AUTHOR), Some(&0));
    let acts = g.step(create(905, 8, "soblb")).unwrap();
    assert_eq!(posts(&acts), vec![(CHANNEL, "SOBS!!! :\n".to_string(), Some(905))]);
}

#[test]
fn av_finds_the_author_a_named_user_or_a_mention() {
    let mut g = ready_state();
    let own = "https://cdn.discordapp.com/avatars/80351110224678912/8342729096ea3675442027381ff50dfe.jpg?size=4096";
    let acts = g.step(create(900, AUTHOR, "av")).unwrap();
    assert_eq!(posts(&acts), vec![(CHANNEL, own.to_string(), Some(900))]);
    let acts = g.step(create(901, AUTHOR, "av NELLY#1337")).unwrap();
    assert_eq!(posts(&acts), vec![(CHANNEL, own.to_string(), Some(901))]);
    let acts = g.step(create(902, AUTHOR, "av <@!80351110224678912>")).unwrap();
    assert_eq!(posts(&acts), vec![(CHANNEL, own.to_string(), Some(902))]);
    let acts = g.step(create(903, AUTHOR, "av nobody")).unwrap();
    assert_eq!(posts(&acts), vec![(CHANNEL, "Couldnt find that user".to_string(), Some(903))]);
    let acts = g.step(create(904, AUTHOR, "av <@11111111111111111>")).unwrap();
    assert_eq!(posts(&acts), vec![(CHANNEL, "Couldnt find that user".to_string(), Some(904))]);
}

#[test]
fn av_with_an_unreadable_mention_is_refused() {
    let mut g = ready_state();
    let p = create(900, AUTHOR, "av <@&12345678901234>");
    assert!(!g.accepts(&p));
    assert!(g.step(p).is_none());
    assert_eq!(g.message_cache.len(), 0);
}

#[test]
fn cache_reports_its_counts() {
    let mut g = ready_state();
    g.step(create(900, AUTHOR, "one")).unwrap();
    let acts = g.step(create(901, AUTHOR, "cache")).unwrap();
    assert_eq!(
        posts(&acts),
        vec![(CHANNEL, "Message cache:\nChannels: 1\nMessages: 2\nUsers: 2".to_string(), Some(901))]
    );
}

#[test]
fn the_cache_keeps_the_newest_thousand_messages_per_channel() {
    let mut g = GatewayState::new("tok".to_string());
    for id in 0..1005u64 {
        g.step(create(id + 1, AUTHOR, "x")).unwrap();
    }
    let q = g.message_cache.get(CHANNEL).unwrap();
    assert_eq!(q.len(), 1000);
    assert_eq!(q[0].id, 6);
    assert_eq!(q[999].id, 1005);
}

#[test]
fn close_codes() {
    assert!(matches!(close_action(None), CloseAction::Stop));
    assert!(matches!(close_action(Some(1000)), CloseAction::Stop));
    assert!(matches!(close_action(Some(1001)), CloseAction::Stop));
    assert!(matches!(close_action(Some(4004)), CloseAction::InvalidToken));
    assert!(matches!(close_action(Some(4007)), CloseAction::Stop));
    assert!(matches!(close_action(Some(4009)), CloseAction::Stop));
    assert!(matches!(close_action(Some(4000)), CloseAction::Resume));
    assert!(matches!(close_action(Some(4008)), CloseAction::Resume));
    assert!(matches!(close_action(Some(1006)), CloseAction::Resume));
}

fn atom(x: &str) -> eetf::Term {
    eetf::Term::from(eetf::Atom::from(x))
}

fn fixint(i: i32) -> eetf::Term {
    eetf::Term::from(eetf::FixInteger::from(i))
}

fn etf(t: eetf::Term) -> Vec<u8> {
    let mut buf = Vec::new();
    t.encode(&mut buf).unwrap();
    buf
}

fn frame(d: eetf::Term) -> eetf::Term {
    eetf::Term::from(eetf::Map::from(vec![
        (atom("op"), fixint(10)),
        (atom("s"), atom("nil")),
        (atom("t"), atom("nil")),
        (atom("d"), d),
    ]))
}

#[test]
fn inflated_bytes_read_as_frames() {
    assert!(matches!(read_frame(&[1, 2, 3]), FrameRead::Undecodable));
    assert!(matches!(read_frame(&etf(atom("x"))), FrameRead::Rejected(SerialiseError::NonMapTerm)));
    assert!(matches!(read_frame(&etf(frame(fixint(3)))), FrameRead::Unreadable));
    let hello = frame(eetf::Term::from(eetf::Map::from(vec![(atom("heartbeat_interval"), fixint(41250))])));
    match read_frame(&etf(hello)) {
        FrameRead::Frame(p) => {
            assert_eq!(p.op, 10);
            assert_eq!(p.s, None);
            assert_eq!(p.t, None);
            assert!(matches!(p.d.get("heartbeat_interval"), Some(Value::Integer(41250))));
        },
        _ => panic!("expected a frame"),
    }
}

#[test]
fn user_lookup_by_name_ignores_ascii_case() {
    let mut g = ready_state();
    g.step(create(900, AUTHOR, "x")).unwrap();
    let found: Option<&User> = g.parse_arg_user("NeLLy");
    assert_eq!(found.map(|u| u.id), Some(AUTHOR));
    assert!(g.parse_arg_user("nobody").is_none());
}

#[test]
fn commands_are_matched_whatever_their_case() {
    let mut g = ready_state();
    let own = "https://cdn.discordapp.com/avatars/80351110224678912/8342729096ea3675442027381ff50dfe.jpg?size=4096";
    let acts = g.step(create(900, AUTHOR, "AV")).unwrap();
    assert_eq!(posts(&acts), vec![(CHANNEL, own.to_string(), Some(900))]);
    let acts = g.step(create(901, AUTHOR, "Snipe")).unwrap();
    assert_eq!(posts(&acts), vec![(CHANNEL, "no snipe".to_string(), Some(901))]);
}

#[test]
fn mentions_name_users_by_id() {
    let mut g = ready_state();
    g.step(create(900, AUTHOR, "x")).unwrap();
    assert_eq!(g.parse_arg_user("hey <@!!80351110224678912> you").map(|u| u.id), Some(AUTHOR));
    assert_eq!(g.parse_arg_user("<@42424242424242>").map(|u| u.id), None);
    assert!(g.parse_arg_user("<@8035111022467>").is_none());
    assert!(g.parse_arg_user("<@123456789012345678901>").is_none());
}

#[test]
fn terms_the_decoder_cannot_read_are_unsupported() {
    assert!(matches!(read_frame(&[131, 68, 0]), FrameRead::Unsupported));
    assert!(matches!(read_frame(&[131, 82, 0]), FrameRead::Unsupported));
    assert!(matches!(read_frame(&[131, 80, 0, 0, 0, 1]), FrameRead::Unsupported));
    // a list whose element is an atom-cache reference
    assert!(matches!(read_frame(&[131, 108, 0, 0, 0, 1, 82, 0, 106]), FrameRead::Unsupported));
    // a list announcing more elements than there are bytes
    assert!(matches!(read_frame(&[131, 108, 0xff, 0xff, 0xff, 0xff, 106]), FrameRead::Unsupported));
    // lists nested deeper than the decoder is trusted with
    let mut deep = vec![131u8];
    for _ in 0..300 {
        deep.extend_from_slice(&[108, 0, 0, 0, 1]);
    }
    deep.push(106);
    for _ in 0..300 {
        deep.push(106);
    }
    assert!(matches!(read_frame(&deep), FrameRead::Unsupported));
    // bytes refused before any tag are simply not a term
    assert!(matches!(read_frame(&[130, 97, 1]), FrameRead::Undecodable));
    assert!(matches!(read_frame(&[131]), FrameRead::Undecodable));
    // a truncated small integer is walked as cut short
    assert!(matches!(read_frame(&[131, 97]), FrameRead::Unsupported));
}

#[test]
fn every_read_drops_the_inflated_bytes() {
    assert!(clears_after(&read_frame(&[1, 2, 3])));
    assert!(clears_after(&read_frame(&[131, 68])));
    assert!(clears_after(&read_frame(&etf(atom("x")))));
    assert!(clears_after(&read_frame(&etf(frame(fixint(3))))));
}

#[test]
fn frames_may_carry_pids_references_and_bit_binaries_under_other_keys() {
    let pid = eetf::Term::from(eetf::Pid::new("node@host", 1, 2, 3));
    let bits = eetf::Term::from(eetf::BitBinary::from((vec![0xff, 0xf0], 4u8)));
    let m = eetf::Term::from(eetf::Map::from(vec![
        (atom("op"), fixint(11)),
        (atom("s"), atom("nil")),
        (atom("t"), atom("nil")),
        (atom("pid"), pid),
        (atom("bits"), bits),
        (atom("d"), atom("nil")),
    ]));
    match read_frame(&etf(m)) {
        FrameRead::Frame(p) => assert_eq!(p.op, 11),
        _ => panic!("expected a frame"),
    }
    // a bit binary whose last byte holds no bits cannot be read
    assert!(matches!(read_frame(&[131, 77, 0, 0, 0, 1, 0, 0xff]), FrameRead::Unsupported));
}
