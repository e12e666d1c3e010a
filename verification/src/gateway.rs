//! The gateway client's state and the decisions it takes on each frame: what
//! to remember, what to send back on the socket and what to post in chat.
//! Performing the actions (socket, HTTP, timers) is left to the caller.

use crate::cache::{
    bounded_push, cache_get, cache_search, sorted_by_id, strictly_sorted_by_id, ChannelCaches,
    MESSAGE_CACHE_PER_CHANNEL,
};
use crate::commands::{
    cache_text, count_cached, headtail, is_cached_total, is_leaderboard, leaderboard, mention_capture,
    snipe_text, spec_cache_text, spec_headtail, spec_mention, spec_snipe_text, spec_to_lowercase,
    spec_unrenderable, to_lowercase, unrenderable_notices, users_view,
};
use crate::obj::{
    field, spec_avatar, spec_display, spec_friendly_display, spec_message, spec_user, Message, MessageView, Payload, PayloadView, User, UserView,
};
use crate::text::{
    eq_ignore_ascii_case, parse_u64, spec_decimal, spec_eq_ignore_ascii_case, spec_parse_u64, str_eq,
};
use crate::value::{Data, Value, ValueView};
use std::collections::HashMap;
use vstd::prelude::*;
use vstd::std_specs::iter::IteratorSpec;
use vstd::string::*;

verus! {

broadcast use vstd::std_specs::hash::group_hash_axioms;

/// The client version reported to the gateway.
pub const CLIENT_VERSION: &'static str = "1.0.46";

/// The client build number reported to the gateway.
pub const CLIENT_BUILD_NUMBER: i32 = 126462;


/// Something the client must do on the outside.
pub enum Action {
    /// Encode the document as a frame and send it on the socket.
    Send(Data),
    /// Close the socket.
    Close,
    /// Open a new socket, with a new inflater.
    Reconnect,
    /// Wait this many seconds.
    Sleep(u64),
    /// Start the heartbeat timer, ticking every this many milliseconds.
    StartHeartbeat(u64),
    /// Post a chat message in a channel, optionally replying to a message.
    Post { channel: u64, content: String, reference: Option<u64> },
}

/// The mathematical value of an [`Action`].
pub enum ActionView {
    Send(Map<Seq<char>, ValueView>),
    Close,
    Reconnect,
    Sleep(u64),
    StartHeartbeat(u64),
    Post { channel: u64, content: Seq<char>, reference: Option<u64> },
}

impl View for Action {
    type V = ActionView;

    open spec fn view(&self) -> ActionView {
        match self {
            Action::Send(d) => ActionView::Send(d@),
            Action::Close => ActionView::Close,
            Action::Reconnect => ActionView::Reconnect,
            Action::Sleep(s) => ActionView::Sleep(*s),
            Action::StartHeartbeat(ms) => ActionView::StartHeartbeat(*ms),
            Action::Post { channel, content, reference } => ActionView::Post {
                channel: *channel,
                content: content@,
                reference: *reference,
            },
        }
    }
}

/// The views of a list of actions.
pub open spec fn actions_view(v: Seq<Action>) -> Seq<ActionView> {
    Seq::new(v.len(), |i: int| v[i]@)
}

/// What the client remembers between frames.
pub struct GatewayState {
    pub token: String,
    pub user: Option<User>,
    pub seq: u64,
    pub session_id: Option<String>,
    pub heartbeat_last_acked: bool,
    pub authenticated: bool,
    pub message_cache: ChannelCaches,
    pub sob_lb: HashMap<u64, u64>,
    pub snipes: HashMap<u64, Message>,
    pub user_cache: HashMap<u64, User>,
}

/// The mathematical value of a [`GatewayState`].
pub struct GatewayView {
    pub token: Seq<char>,
    pub user: Option<UserView>,
    pub seq: u64,
    pub session_id: Option<Seq<char>>,
    pub heartbeat_last_acked: bool,
    pub authenticated: bool,
    /// The cached messages of each channel, oldest first.
    pub cache: Map<u64, Seq<MessageView>>,
    /// The limit of each channel's cache.
    pub limits: Map<u64, nat>,
    pub sob_lb: Map<u64, u64>,
    pub snipes: Map<u64, MessageView>,
    pub users: Map<u64, UserView>,
}

pub open spec fn opt_user_view(u: Option<User>) -> Option<UserView> {
    match u {
        Some(x) => Some(x@),
        None => None,
    }
}

impl View for GatewayState {
    type V = GatewayView;

    open spec fn view(&self) -> GatewayView {
        GatewayView {
            token: self.token@,
            user: opt_user_view(self.user),
            seq: self.seq,
            session_id: crate::obj::opt_str_view(self.session_id),
            heartbeat_last_acked: self.heartbeat_last_acked,
            authenticated: self.authenticated,
            cache: self.message_cache.items(),
            limits: self.message_cache.limits(),
            sob_lb: self.sob_lb@,
            snipes: self.snipes@.map_values(|m: Message| m@),
            users: users_view(self.user_cache@),
        }
    }
}

/// The document of a heartbeat: opcode 1 and the last sequence number
/// (nothing while none was received).
pub open spec fn spec_heartbeat_data(seq: u64) -> Map<Seq<char>, ValueView> {
    map![
        "op"@ => ValueView::Integer(1),
        "d"@ => if seq == u64::MAX { ValueView::NoneType } else { ValueView::BigInt(seq) },
    ]
}

/// The document of a resume: opcode 6 with token, session and sequence
/// number (cut to an `i32` as `as` does).
pub open spec fn spec_resume_data(token: Seq<char>, session: Seq<char>, seq: u64) -> Map<
    Seq<char>,
    ValueView,
> {
    map![
        "op"@ => ValueView::Integer(6),
        "d"@ => ValueView::Data(map![
            "token"@ => ValueView::String(token),
            "session_id"@ => ValueView::String(session),
            "seq"@ => ValueView::Integer(seq as i32),
        ]),
    ]
}

/// The document setting the presence: opcode 3, idle, with a custom status.
pub open spec fn spec_presence_data() -> Map<Seq<char>, ValueView> {
    map![
        "op"@ => ValueView::Integer(3),
        "d"@ => ValueView::Data(map![
            "status"@ => ValueView::String("idle"@),
            "since"@ => ValueView::Integer(0),
            "activities"@ => ValueView::Array(seq![ValueView::Data(map![
                "emoji"@ => ValueView::NoneType,
                "name"@ => ValueView::String("Custom Status"@),
                "state"@ => ValueView::String(":3"@),
                "type"@ => ValueView::Integer(4),
            ])]),
            "afk"@ => ValueView::Bool(false),
        ]),
    ]
}

/// The document of an identify: opcode 2 with the token, the client
/// properties, the initial presence and the client state.
pub open spec fn spec_identify_data(token: Seq<char>) -> Map<Seq<char>, ValueView> {
    map![
        "op"@ => ValueView::Integer(2),
        "d"@ => ValueView::Data(map![
            "token"@ => ValueView::String(token),
            "capabilities"@ => ValueView::Integer(125),
            "properties"@ => ValueView::Data(map![
                "os"@ => ValueView::String("Windows"@),
                "Browser"@ => ValueView::String("Discord Client"@),
                "release_channel"@ => ValueView::String("stable"@),
                "client_version"@ => ValueView::String(CLIENT_VERSION@),
                "os_version"@ => ValueView::String("10.0.19041"@),
                "system_locale"@ => ValueView::String("en-GB"@),
                "client_build_number"@ => ValueView::Integer(CLIENT_BUILD_NUMBER),
                "client_event_source"@ => ValueView::NoneType,
            ]),
            "presence"@ => ValueView::Data(map![
                "status"@ => ValueView::String("online"@),
                "since"@ => ValueView::Integer(0),
                "activities"@ => ValueView::Array(Seq::empty()),
                "afk"@ => ValueView::Bool(false),
            ]),
            "compress"@ => ValueView::Bool(false),
            "client_state"@ => ValueView::Data(map![
                "guild_hashes"@ => ValueView::Data(Map::empty()),
                "highest_last_message_id"@ => ValueView::String("0"@),
                "read_state_version"@ => ValueView::Integer(0),
                "user_guild_settings_version"@ => ValueView::Integer(-1i32),
            ]),
        ]),
    ]
}

fn put(d: &mut Data, key: &str, value: Value)
    ensures
        final(d)@ == old(d)@.insert(key@, value@),
{
    d.insert(String::from_str(key), value);
}

fn text(s: &str) -> (r: Value)
    ensures
        r@ == ValueView::String(s@),
{
    Value::String(String::from_str(s))
}

fn doc(d: Data) -> (r: Value)
    ensures
        r@ == ValueView::Data(d@),
{
    Value::Data(d)
}

/// The document of a heartbeat (see [`spec_heartbeat_data`]).
pub fn heartbeat_data(seq: u64) -> (r: Data)
    ensures
        r@ == spec_heartbeat_data(seq),
{
    let mut d = Data::empty();
    put(&mut d, "op", Value::Integer(1));
    put(&mut d, "d", if seq == u64::MAX { Value::NoneType } else { Value::BigInt(seq) });
    assert(d@ =~= spec_heartbeat_data(seq));
    d
}

/// The document of a resume (see [`spec_resume_data`]).
pub fn resume_data(token: &String, session: &String, seq: u64) -> (r: Data)
    ensures
        r@ == spec_resume_data(token@, session@, seq),
{
    let mut inner = Data::empty();
    put(&mut inner, "token", Value::String(token.clone()));
    put(&mut inner, "session_id", Value::String(session.clone()));
    put(&mut inner, "seq", Value::Integer(seq as i32));
    let ghost iv = inner@;
    let mut d = Data::empty();
    put(&mut d, "op", Value::Integer(6));
    put(&mut d, "d", doc(inner));
    assert(iv =~= map![
        "token"@ => ValueView::String(token@),
        "session_id"@ => ValueView::String(session@),
        "seq"@ => ValueView::Integer(seq as i32),
    ]);
    assert(d@ =~= spec_resume_data(token@, session@, seq));
    d
}

/// The document setting the presence (see [`spec_presence_data`]).
pub fn presence_data() -> (r: Data)
    ensures
        r@ == spec_presence_data(),
{
    let mut activity = Data::empty();
    put(&mut activity, "emoji", Value::NoneType);
    put(&mut activity, "name", text("Custom Status"));
    put(&mut activity, "state", text(":3"));
    put(&mut activity, "type", Value::Integer(4));
    let ghost av = activity@;
    let mut activities: Vec<Value> = Vec::new();
    activities.push(doc(activity));
    let acts = Value::Array(activities);
    assert(acts@ == ValueView::Array(seq![ValueView::Data(av)])) by {
        assert(crate::value::array_view(activities) =~= seq![ValueView::Data(av)]);
    }
    let mut inner = Data::empty();
    put(&mut inner, "status", text("idle"));
    put(&mut inner, "since", Value::Integer(0));
    put(&mut inner, "activities", acts);
    put(&mut inner, "afk", Value::Bool(false));
    let ghost iv = inner@;
    let mut d = Data::empty();
    put(&mut d, "op", Value::Integer(3));
    put(&mut d, "d", doc(inner));
    assert(av =~= map![
        "emoji"@ => ValueView::NoneType,
        "name"@ => ValueView::String("Custom Status"@),
        "state"@ => ValueView::String(":3"@),
        "type"@ => ValueView::Integer(4),
    ]);
    assert(d@ =~= spec_presence_data());
    d
}

impl GatewayState {
    /// The document of an identify (see [`spec_identify_data`]).
    pub fn identify_payload(&self) -> (r: Data)
        ensures
            r@ == spec_identify_data(self.token@),
    {
        let mut props = Data::empty();
        put(&mut props, "os", text("Windows"));
        put(&mut props, "Browser", text("Discord Client"));
        put(&mut props, "release_channel", text("stable"));
        put(&mut props, "client_version", text(CLIENT_VERSION));
        put(&mut props, "os_version", text("10.0.19041"));
        put(&mut props, "system_locale", text("en-GB"));
        put(&mut props, "client_build_number", Value::Integer(CLIENT_BUILD_NUMBER));
        put(&mut props, "client_event_source", Value::NoneType);
        let ghost pv = props@;
        let mut presence = Data::empty();
        put(&mut presence, "status", text("online"));
        put(&mut presence, "since", Value::Integer(0));
        let empty: Vec<Value> = Vec::new();
        assert(crate::value::array_view(empty) =~= Seq::<ValueView>::empty());
        put(&mut presence, "activities", Value::Array(empty));
        put(&mut presence, "afk", Value::Bool(false));
        let ghost prv = presence@;
        let mut client_state = Data::empty();
        put(&mut client_state, "guild_hashes", doc(Data::empty()));
        put(&mut client_state, "highest_last_message_id", text("0"));
        put(&mut client_state, "read_state_version", Value::Integer(0));
        put(&mut client_state, "user_guild_settings_version", Value::Integer(-1));
        let ghost cv = client_state@;
        let mut inner = Data::empty();
        put(&mut inner, "token", Value::String(self.token.clone()));
        put(&mut inner, "capabilities", Value::Integer(125));
        put(&mut inner, "properties", doc(props));
        put(&mut inner, "presence", doc(presence));
        put(&mut inner, "compress", Value::Bool(false));
        put(&mut inner, "client_state", doc(client_state));
        let ghost iv = inner@;
        let mut d = Data::empty();
        put(&mut d, "op", Value::Integer(2));
        put(&mut d, "d", doc(inner));
        assert(pv =~= map![
            "os"@ => ValueView::String("Windows"@),
            "Browser"@ => ValueView::String("Discord Client"@),
            "release_channel"@ => ValueView::String("stable"@),
            "client_version"@ => ValueView::String(CLIENT_VERSION@),
            "os_version"@ => ValueView::String("10.0.19041"@),
            "system_locale"@ => ValueView::String("en-GB"@),
            "client_build_number"@ => ValueView::Integer(CLIENT_BUILD_NUMBER),
            "client_event_source"@ => ValueView::NoneType,
        ]);
        assert(prv =~= map![
            "status"@ => ValueView::String("online"@),
            "since"@ => ValueView::Integer(0),
            "activities"@ => ValueView::Array(Seq::empty()),
            "afk"@ => ValueView::Bool(false),
        ]);
        assert(cv =~= map![
            "guild_hashes"@ => ValueView::Data(Map::empty()),
            "highest_last_message_id"@ => ValueView::String("0"@),
            "read_state_version"@ => ValueView::Integer(0),
            "user_guild_settings_version"@ => ValueView::Integer(-1i32),
        ]);
        assert(d@ =~= spec_identify_data(self.token@));
        d
    }
}


/// What sending a document does: a heartbeat (opcode 1) whose predecessor was
/// not acknowledged closes the socket instead; otherwise the document is sent,
/// and a heartbeat now awaits its acknowledgement.
pub open spec fn spec_send(s: GatewayView, op: u8, data: Map<Seq<char>, ValueView>) -> (
    GatewayView,
    Seq<ActionView>,
) {
    if op == 1 {
        if !s.heartbeat_last_acked {
            (s, seq![ActionView::Close])
        } else {
            (GatewayView { heartbeat_last_acked: false, ..s }, seq![ActionView::Send(data)])
        }
    } else {
        (s, seq![ActionView::Send(data)])
    }
}

/// Resuming: without a session the socket is closed; otherwise a new socket
/// is opened and the session resumed from the last sequence number.
pub open spec fn spec_resume(s: GatewayView) -> (GatewayView, Seq<ActionView>) {
    match s.session_id {
        None => (s, seq![ActionView::Close]),
        Some(session) => (
            s,
            seq![ActionView::Reconnect, ActionView::Send(spec_resume_data(s.token, session, s.seq))],
        ),
    }
}

/// The heartbeat interval in milliseconds that a hello announces (30 when it
/// announces none); `None` when the field holds something other than an
/// integer, which gives no interval to use.
pub open spec fn spec_heartbeat_interval(d: Map<Seq<char>, ValueView>) -> Option<u64> {
    if d.contains_key("heartbeat_interval"@) {
        match d["heartbeat_interval"@] {
            ValueView::Integer(i) => Some(i as u64),
            _ => None,
        }
    } else {
        Some(30)
    }
}

/// Identifying: nothing when already authenticated; otherwise send the
/// identify document, start the heartbeat (when asked to, at the interval of
/// the hello), become authenticated and set the presence.
pub open spec fn spec_identify(s: GatewayView, interval: Option<u64>) -> (GatewayView, Seq<ActionView>) {
    if s.authenticated {
        (s, Seq::empty())
    } else {
        let beat = match interval {
            Some(ms) => seq![ActionView::StartHeartbeat(ms)],
            None => Seq::empty(),
        };
        (
            GatewayView { authenticated: true, ..s },
            seq![ActionView::Send(spec_identify_data(s.token))] + beat + seq![
                ActionView::Send(spec_presence_data()),
            ],
        )
    }
}

/// Where a frame carries a user for the user cache: its `user` field, else its
/// `author` field.
pub open spec fn cache_source(d: Map<Seq<char>, ValueView>) -> Option<ValueView> {
    if d.contains_key("user"@) {
        Some(d["user"@])
    } else if d.contains_key("author"@) {
        Some(d["author"@])
    } else {
        None
    }
}

/// Caching the user a frame carries, when it reads as a user.
pub open spec fn spec_update_cache(s: GatewayView, d: Map<Seq<char>, ValueView>) -> GatewayView {
    match cache_source(d) {
        Some(ValueView::Data(ud)) => match spec_user(ud) {
            Ok(u) => GatewayView { users: s.users.insert(u.id, u), ..s },
            Err(_) => s,
        },
        _ => s,
    }
}

/// Handling `READY`: remember the session id (when it is a string) and the
/// user the client is logged in as (when it reads as a user).
pub open spec fn spec_ready(s: GatewayView, d: Map<Seq<char>, ValueView>) -> GatewayView {
    let s1 = if d.contains_key("session_id"@) && d["session_id"@] is String {
        GatewayView { session_id: Some(d["session_id"@]->String_0), ..s }
    } else {
        s
    };
    if d.contains_key("user"@) && d["user"@] is Data && spec_user(d["user"@]->Data_0) is Ok {
        GatewayView { user: Some(spec_user(d["user"@]->Data_0).unwrap()), ..s1 }
    } else {
        s1
    }
}

/// Some cached message has the id.
pub open spec fn contains_id(items: Seq<MessageView>, id: u64) -> bool {
    exists|i: int| 0 <= i < items.len() && items[i].id == id
}

/// A message of channel `cid`'s cache with id `mid` became the channel's snipe.
pub open spec fn snipe_taken(s: GatewayView, n: GatewayView, cid: u64, mid: u64) -> bool {
    exists|i: int|
        0 <= i < s.cache[cid].len() && s.cache[cid][i].id == mid && n == (GatewayView {
            snipes: s.snipes.insert(cid, s.cache[cid][i]),
            ..s
        })
}

/// Handling `MESSAGE_DELETE`: when the search of its channel's cache finds the
/// deleted message, a message with its id becomes the channel's snipe;
/// otherwise nothing changes, and on a cache ordered by id the message is not
/// cached.
pub open spec fn snipe_rel(s: GatewayView, n: GatewayView, d: Map<Seq<char>, ValueView>) -> bool {
    match (field(d, "id"@), field(d, "channel_id"@)) {
        (ValueView::BigInt(mid), ValueView::BigInt(cid)) => if s.cache.contains_key(cid) {
            snipe_taken(s, n, cid, mid) || (n == s && (sorted_by_id(s.cache[cid]) ==> !contains_id(
                s.cache[cid],
                mid,
            )))
        } else {
            n == s
        },
        _ => n == s,
    }
}

/// The crying emoji, whose reactions the leaderboard counts.
pub open spec fn sob() -> Seq<char> {
    "\u{1F62D}"@
}

/// A count plus one, wrapping past `u64::MAX`.
pub open spec fn inc(c: u64) -> u64 {
    if c == u64::MAX {
        0
    } else {
        (c + 1) as u64
    }
}

/// A count minus one, wrapping below 0.
pub open spec fn dec(c: u64) -> u64 {
    if c == 0 {
        u64::MAX
    } else {
        (c - 1) as u64
    }
}

/// Counting a reaction to a message by `author`: nothing when the author
/// reacted; otherwise the author's count goes up (from 0) or down (from 1).
pub open spec fn sob_applied(s: GatewayView, author: u64, reactor: u64, add: bool) -> GatewayView {
    if reactor == author {
        s
    } else if add {
        GatewayView {
            sob_lb: s.sob_lb.insert(
                author,
                inc(
                    if s.sob_lb.contains_key(author) {
                        s.sob_lb[author]
                    } else {
                        0
                    },
                ),
            ),
            ..s
        }
    } else {
        GatewayView {
            sob_lb: s.sob_lb.insert(
                author,
                dec(
                    if s.sob_lb.contains_key(author) {
                        s.sob_lb[author]
                    } else {
                        1
                    },
                ),
            ),
            ..s
        }
    }
}

/// A cached message of channel `cid` with id `mid` was found and its author's
/// count updated.
pub open spec fn sob_counted(
    s: GatewayView,
    n: GatewayView,
    cid: u64,
    mid: u64,
    reactor: u64,
    add: bool,
) -> bool {
    exists|i: int|
        0 <= i < s.cache[cid].len() && s.cache[cid][i].id == mid && n == sob_applied(
            s,
            s.cache[cid][i].author.id,
            reactor,
            add,
        )
}

/// Handling a crying reaction being added or removed: when the search of its
/// channel's cache finds the reacted message, the message with that id counts
/// for (or against) its author, unless the author reacted; otherwise nothing
/// changes, and on a cache ordered by id the message is not cached.
pub open spec fn sob_rel(s: GatewayView, n: GatewayView, p: PayloadView) -> bool {
    match crate::obj::spec_reaction(p) {
        Ok(r) => {
            let (ev, add) = match r {
                crate::obj::ReactionView::Add(e) => (e, true),
                crate::obj::ReactionView::Remove(e) => (e, false),
            };
            if ev.emoji.name != sob() || !s.cache.contains_key(ev.channel) {
                n == s
            } else {
                sob_counted(s, n, ev.channel, ev.message, ev.reactor, add) || (n == s && (
                sorted_by_id(s.cache[ev.channel]) ==> !contains_id(s.cache[ev.channel], ev.message)))
            }
        },
        Err(_) => n == s,
    }
}

impl GatewayState {
    /// A fresh state for a connection logged in with `token`: nothing cached,
    /// not authenticated, no sequence number yet, heartbeat acknowledged.
    pub fn new(token: String) -> (r: GatewayState)
        ensures
            r@.token == token@,
            r@.user is None,
            r@.seq == 0,
            r@.session_id is None,
            r@.heartbeat_last_acked,
            !r@.authenticated,
            r@.cache == Map::<u64, Seq<MessageView>>::empty(),
            r@.sob_lb == Map::<u64, u64>::empty(),
            r@.snipes == Map::<u64, MessageView>::empty(),
            r@.users == Map::<u64, UserView>::empty(),
            cache_bounded(r@),
    {
        let r = GatewayState {
            token,
            user: None,
            seq: 0,
            session_id: None,
            heartbeat_last_acked: true,
            authenticated: false,
            message_cache: ChannelCaches::new(),
            sob_lb: HashMap::new(),
            snipes: HashMap::new(),
            user_cache: HashMap::new(),
        };
        assert(r@.cache =~= Map::<u64, Seq<MessageView>>::empty());
        assert(r@.snipes =~= Map::<u64, MessageView>::empty());
        assert(r@.users =~= Map::<u64, UserView>::empty());
        assert(r@.limits =~= Map::<u64, nat>::empty());
        proof {
            lemma_new_cache_bounded(r@);
        }
        r
    }

    /// Sends a document (see [`spec_send`]).
    pub fn send(&mut self, op: u8, message: Data, out: &mut Vec<Action>)
        ensures
            final(self)@ == spec_send(old(self)@, op, message@).0,
            actions_view(final(out)@) == actions_view(old(out)@) + spec_send(old(self)@, op, message@).1,
    {
        let ghost a0 = actions_view(out@);
        let ghost mv = message@;
        if op == 1 {
            if !self.heartbeat_last_acked {
                out.push(Action::Close);
                assert(actions_view(out@) =~= a0 + seq![ActionView::Close]);
                return ;
            } else {
                self.heartbeat_last_acked = false;
            }
        }
        out.push(Action::Send(message));
        assert(actions_view(out@) =~= a0 + seq![ActionView::Send(mv)]);
    }

    /// Sends a heartbeat with the last sequence number.
    pub fn heartbeat(&mut self, out: &mut Vec<Action>)
        ensures
            final(self)@ == spec_send(old(self)@, 1, spec_heartbeat_data(old(self)@.seq)).0,
            actions_view(final(out)@) == actions_view(old(out)@) + spec_send(
                old(self)@,
                1,
                spec_heartbeat_data(old(self)@.seq),
            ).1,
    {
        let d = heartbeat_data(self.seq);
        self.send(1, d, out);
    }

    /// Resumes the session on a new socket (see [`spec_resume`]).
    pub fn resume(&mut self, out: &mut Vec<Action>)
        ensures
            final(self)@ == spec_resume(old(self)@).0,
            actions_view(final(out)@) == actions_view(old(out)@) + spec_resume(old(self)@).1,
    {
        let ghost a0 = actions_view(out@);
        match &self.session_id {
            None => {
                out.push(Action::Close);
                assert(actions_view(out@) =~= a0 + seq![ActionView::Close]);
            },
            Some(session) => {
                let d = resume_data(&self.token, session, self.seq);
                let ghost dv = d@;
                out.push(Action::Reconnect);
                out.push(Action::Send(d));
                assert(actions_view(out@) =~= a0 + seq![ActionView::Reconnect, ActionView::Send(dv)]);
            },
        }
    }

    /// Sets the presence.
    pub fn set_presence(&mut self, out: &mut Vec<Action>)
        ensures
            final(self)@ == old(self)@,
            actions_view(final(out)@) == actions_view(old(out)@) + seq![
                ActionView::Send(spec_presence_data()),
            ],
    {
        let d = presence_data();
        self.send(3, d, out);
    }

    /// Identifies (see [`spec_identify`]); `interval` is the heartbeat to
    /// start, if any.
    pub fn identify(&mut self, interval: Option<u64>, out: &mut Vec<Action>)
        ensures
            final(self)@ == spec_identify(old(self)@, interval).0,
            actions_view(final(out)@) == actions_view(old(out)@) + spec_identify(old(self)@, interval).1,
    {
        if self.authenticated {
            assert(actions_view(out@) =~= actions_view(out@) + Seq::<ActionView>::empty());
            return ;
        }
        let ghost a0 = actions_view(out@);
        let data = self.identify_payload();
        self.send(2, data, out);
        let ghost a1 = actions_view(out@);
        match interval {
            Some(ms) => {
                out.push(Action::StartHeartbeat(ms));
                assert(actions_view(out@) =~= a1 + seq![ActionView::StartHeartbeat(ms)]);
            },
            None => {},
        }
        self.authenticated = true;
        self.set_presence(out);
        assert(actions_view(out@) =~= a0 + spec_identify(old(self)@, interval).1);
    }

    /// Caches the user a frame carries (see [`spec_update_cache`]).
    pub fn update_cache(&mut self, payload: &Payload)
        ensures
            final(self)@ == spec_update_cache(old(self)@, payload@.d),
    {
        let data = match payload.d.get("user") {
            Some(user) => user,
            None => match payload.d.get("author") {
                Some(user) => user,
                None => return ,
            },
        };
        if let Value::Data(d) = data {
            if let Ok(user) = User::try_from(d) {
                let ghost uv = user@;
                let ghost old_users = self@.users;
                self.user_cache.insert(user.id, user);
                assert(self@.users =~= old_users.insert(uv.id, uv));
            }
        }
    }

    /// Handles `READY` (see [`spec_ready`]).
    pub fn ready(&mut self, payload: &Payload)
        ensures
            final(self)@ == spec_ready(old(self)@, payload@.d),
    {
        if let Some(value) = payload.d.get("session_id") {
            if let Value::String(string) = value {
                self.session_id = Some(string.clone());
            }
        }
        if let Some(value) = payload.d.get("user") {
            if let Value::Data(d) = value {
                match User::try_from(d) {
                    Ok(u) => {
                        self.user = Some(u);
                    },
                    Err(_) => {},
                }
            }
        }
    }

    /// Handles `MESSAGE_DELETE` (see [`snipe_rel`]).
    pub fn add_snipe(&mut self, payload: &Payload)
        ensures
            snipe_rel(old(self)@, final(self)@, payload@.d),
    {
        let message_id = match payload.d.get("id") {
            Some(Value::BigInt(id)) => *id,
            _ => return ,
        };
        let channel_id = match payload.d.get("channel_id") {
            Some(Value::BigInt(id)) => *id,
            _ => return ,
        };
        let ghost s = self@;
        if let Some(queue) = self.message_cache.get(channel_id) {
            match cache_search(queue, message_id) {
                Ok(index) => {
                    let message = cache_get(queue, index).clone();
                    let ghost mv = message@;
                    self.snipes.insert(channel_id, message);
                    assert(self@.snipes =~= s.snipes.insert(channel_id, mv));
                    assert(self@ == GatewayView { snipes: s.snipes.insert(channel_id, s.cache[channel_id][index as int]), ..s });
                },
                Err(_) => {},
            }
        }
    }

    /// Handles a reaction being added or removed (see [`sob_rel`]).
    pub fn update_sob_lb(&mut self, payload: &Payload)
        ensures
            sob_rel(old(self)@, final(self)@, payload@),
    {
        let react = match crate::obj::Reaction::try_from(payload) {
            Ok(r) => r,
            Err(_) => return ,
        };
        let (event, add) = match react {
            crate::obj::Reaction::Add(event) => (event, true),
            crate::obj::Reaction::Remove(event) => (event, false),
        };
        proof {
            reveal_strlit("\u{1F62D}");
        }
        if !crate::text::str_eq(event.emoji.name.as_str(), "\u{1F62D}") {
            return ;
        }
        let ghost s = self@;
        if let Some(queue) = self.message_cache.get(event.channel) {
            match cache_search(queue, event.message) {
                Ok(index) => {
                    let user_id = cache_get(queue, index).author.id;
                    if event.reactor == user_id {
                        return ;
                    }
                    let current = match self.sob_lb.get(&user_id) {
                        Some(c) => *c,
                        None => if add {
                            0
                        } else {
                            1
                        },
                    };
                    let next = if add {
                        if current == u64::MAX {
                            0
                        } else {
                            current + 1
                        }
                    } else {
                        if current == 0 {
                            u64::MAX
                        } else {
                            current - 1
                        }
                    };
                    self.sob_lb.insert(user_id, next);
                    assert(self@ == sob_applied(s, s.cache[event.channel][index as int].author.id, event.reactor, add));
                },
                Err(_) => {},
            }
        }
    }
}


/// A reply in the channel of `m`, referring to `m`.
pub open spec fn post(m: MessageView, t: Seq<char>) -> ActionView {
    ActionView::Post { channel: m.channel_id, content: t, reference: Some(m.id) }
}

/// The reply when a user asked for is not found.
pub open spec fn not_found() -> Seq<char> {
    "Couldnt find that user"@
}

/// The avatar size asked for by `av`.
pub open spec fn av_size() -> u16 {
    4096
}

/// Caching a message in its channel's cache (a new cache holds
/// [`MESSAGE_CACHE_PER_CHANNEL`] messages).
pub open spec fn cache_pushed(s: GatewayView, m: MessageView) -> GatewayView {
    let ch = m.channel_id;
    let items = if s.cache.contains_key(ch) {
        s.cache[ch]
    } else {
        Seq::empty()
    };
    let limit = if s.limits.contains_key(ch) {
        s.limits[ch]
    } else {
        MESSAGE_CACHE_PER_CHANNEL as nat
    };
    GatewayView {
        cache: s.cache.insert(ch, bounded_push(items, limit, m)),
        limits: s.limits.insert(ch, limit),
        ..s
    }
}

/// Whether a user answers to `term`: by username, by `username#discriminator`
/// or by friendly display, ignoring ASCII case.
pub open spec fn user_matches(u: UserView, term: Seq<char>) -> bool {
    spec_eq_ignore_ascii_case(u.username, term) || spec_eq_ignore_ascii_case(spec_display(u), term)
        || spec_eq_ignore_ascii_case(spec_friendly_display(u), term)
}

/// The mention in `term`, if any, names a user id that fits a `u64`
/// (else there is no id to look the user up by).
pub open spec fn mention_ok(term: Seq<char>) -> bool {
    match spec_mention(term) {
        Some(c) => spec_parse_u64(c) is Some,
        None => true,
    }
}

/// The user `term` refers to: the cached user with the mentioned id when
/// `term` holds a mention; otherwise some cached user answering to `term`,
/// none only when no cached user does.
pub open spec fn arg_user_rel(users: Map<u64, UserView>, term: Seq<char>, r: Option<UserView>) -> bool {
    match spec_mention(term) {
        Some(c) => {
            let id = spec_parse_u64(c).unwrap();
            r == (if users.contains_key(id) {
                Some(users[id])
            } else {
                None
            })
        },
        None => match r {
            Some(u) => exists|k: u64| users.contains_key(k) && users[k] == u && user_matches(u, term),
            None => forall|k: u64| users.contains_key(k) ==> !user_matches(users[k], term),
        },
    }
}

/// The reply to `av` with an argument: the avatar of the user the argument
/// refers to (see [`arg_user_rel`]), or [`not_found`].
pub open spec fn av_rel(users: Map<u64, UserView>, arg: Seq<char>, m: MessageView, acts: Seq<ActionView>) -> bool {
    exists|r: Option<UserView>|
        arg_user_rel(users, arg, r) && acts == seq![
            post(
                m,
                match r {
                    Some(u) => spec_avatar(u, av_size()),
                    None => not_found(),
                },
            ),
        ]
}

/// The argument of an `av` command, when the message is one and has one.
pub open spec fn av_arg(m: MessageView) -> Option<Seq<char>> {
    match m.content {
        Some(c) => if spec_to_lowercase(spec_headtail(c).0) == "av"@ {
            spec_headtail(c).1
        } else {
            None
        },
        None => None,
    }
}

/// The client answers messages of users other than itself, once it knows who
/// it is.
pub open spec fn replies_to(s: GatewayView, m: MessageView) -> bool {
    match s.user {
        Some(u) => u.id != m.author.id,
        None => false,
    }
}

/// A message that the client can handle without the lookup of a mentioned
/// user failing.
pub open spec fn create_ok(s: GatewayView, d: Map<Seq<char>, ValueView>) -> bool {
    match spec_message(d) {
        Ok(m) => replies_to(s, m) ==> match av_arg(m) {
            Some(a) => mention_ok(a),
            None => true,
        },
        Err(_) => true,
    }
}

/// The replies to a command message (the state is that after caching it):
/// `ping`; `av` with the avatar of the author or of the user the argument
/// refers to; `soblb` with the leaderboard; `cache` with the cache counts;
/// `snipe` with the channel's last deleted message, or `no snipe`. The command
/// is the text before the first space, lower-cased.
pub open spec fn command_rel(s: GatewayView, m: MessageView, acts: Seq<ActionView>) -> bool {
    match m.content {
        None => acts == Seq::<ActionView>::empty(),
        Some(c) => {
            let (head, tail) = spec_headtail(c);
            let cmd = spec_to_lowercase(head);
            if cmd == "ping"@ {
                acts == seq![post(m, "ping"@)]
            } else if cmd == "av"@ {
                match tail {
                    None => acts == seq![post(m, spec_avatar(m.author, av_size()))],
                    Some(a) => av_rel(s.users, a, m, acts),
                }
            } else if cmd == "soblb"@ {
                exists|t: Seq<char>| is_leaderboard(t, s.sob_lb, s.users) && acts == seq![post(m, t)]
            } else if cmd == "cache"@ {
                exists|total: usize|
                    is_cached_total(total, s.cache) && acts == seq![
                        post(
                            m,
                            spec_cache_text(s.cache.dom().len(), total as nat, s.users.dom().len()),
                        ),
                    ]
            } else if cmd == "snipe"@ {
                if s.snipes.contains_key(m.channel_id) {
                    let sm = s.snipes[m.channel_id];
                    acts == seq![
                        ActionView::Post {
                            channel: sm.channel_id,
                            content: spec_snipe_text(sm),
                            reference: Some(sm.id),
                        },
                    ]
                } else {
                    acts == seq![post(m, "no snipe"@)]
                }
            } else {
                acts == Seq::<ActionView>::empty()
            }
        },
    }
}

/// The notices about a message's unrenderable videos, as replies.
pub open spec fn notice_posts(m: MessageView) -> Seq<ActionView> {
    spec_unrenderable(m.attachments).map_values(|t: Seq<char>| post(m, t))
}

/// Handling `MESSAGE_CREATE`: a message that reads as one is cached; when it
/// is from another user, the client replies with the notices about its
/// unrenderable videos and then the replies to its command.
pub open spec fn create_rel(s: GatewayView, n: GatewayView, d: Map<Seq<char>, ValueView>, acts: Seq<ActionView>) -> bool {
    match spec_message(d) {
        Err(_) => n == s && acts == Seq::<ActionView>::empty(),
        Ok(m) => n == cache_pushed(s, m) && if replies_to(s, m) {
            exists|cacts: Seq<ActionView>| command_rel(n, m, cacts) && acts == notice_posts(m) + cacts
        } else {
            acts == Seq::<ActionView>::empty()
        },
    }
}

impl GatewayState {
    /// The user `term` refers to (see [`arg_user_rel`]).
    pub fn parse_arg_user(&self, term: &str) -> (r: Option<&User>)
        requires
            mention_ok(term@),
        ensures
            arg_user_rel(self@.users, term@, opt_user_view_ref(r)),
    {
        if let Some(cap) = mention_capture(term) {
            let id = match parse_u64(cap.as_str()) {
                Some(id) => id,
                None => return None,
            };
            return self.user_cache.get(&id);
        }
        let ghost users = self@.users;
        let keys = self.user_cache.keys();
        let ghost ks = keys.remaining();
        proof {
            assert(ks.unref().to_set() == self.user_cache@.dom());
            assert forall|j: int| 0 <= j < ks.len() implies self.user_cache@.contains_key(*ks[j]) by {
                assert(ks.unref().to_set().contains(ks.unref()[j]));
            }
        }
        for k in it: keys
            invariant
                it.seq() == ks,
                users == self@.users,
                spec_mention(term@) is None,
                ks.unref().to_set() == self.user_cache@.dom(),
                forall|j: int| 0 <= j < ks.len() ==> self.user_cache@.contains_key(*ks[j]),
                forall|j: int| 0 <= j < it.index() ==> !user_matches(users[*ks[j]], term@),
        {
            let user = self.user_cache.get(k).unwrap();
            if eq_ignore_ascii_case(user.username.as_str(), term) || eq_ignore_ascii_case(
                user.display().as_str(),
                term,
            ) || eq_ignore_ascii_case(user.friendly_display().as_str(), term) {
                assert(users[*k] == user@);
                assert(users.contains_key(*k));
                assert(user_matches(user@, term@));
                return Some(user);
            }
        }
        proof {
            assert forall|k: u64| users.contains_key(k) implies !user_matches(users[k], term@) by {
                assert(ks.unref().to_set().contains(k));
                let j = choose|j: int| 0 <= j < ks.len() && ks.unref()[j] == k;
                assert(*ks[j] == k);
            }
        }
        None
    }

    /// The reply to `av`: the avatar of the author, or of the user the
    /// argument refers to, or [`not_found`].
    pub fn command_av(&self, message: &Message, args: Option<&str>) -> (r: String)
        requires
            args matches Some(a) ==> mention_ok(a@),
        ensures
            match args {
                None => r@ == spec_avatar(message@.author, av_size()),
                Some(a) => exists|u: Option<UserView>|
                    arg_user_rel(self@.users, a@, u) && r@ == match u {
                        Some(x) => spec_avatar(x, av_size()),
                        None => not_found(),
                    },
            },
    {
        match args {
            Some(arg) => {
                let found = self.parse_arg_user(arg);
                match found {
                    Some(user) => user.avatar(4096),
                    None => String::from_str("Couldnt find that user"),
                }
            },
            None => message.author.avatar(4096),
        }
    }
}

impl GatewayState {
    /// Caches a message in its channel's cache (see [`cache_pushed`]).
    fn cache_message(&mut self, message: Message)
        ensures
            final(self)@ == cache_pushed(old(self)@, message@),
    {
        self.message_cache.push(message);
    }

    /// Handles `MESSAGE_CREATE` (see [`create_rel`]), returning the replies.
    /// The message's channel then caches the newest
    /// [`MESSAGE_CACHE_PER_CHANNEL`] of its messages, this one last.
    pub fn message_create(&mut self, payload: &Payload) -> (r: Vec<Action>)
        requires
            create_ok(old(self)@, payload@.d),
        ensures
            create_rel(old(self)@, final(self)@, payload@.d, actions_view(r@)),
            spec_message(payload@.d) matches Ok(m) ==> final(self)@.cache[m.channel_id] == newest(
                channel_items(old(self)@, m.channel_id).push(m),
                MESSAGE_CACHE_PER_CHANNEL as int,
            ),
            cache_bounded(final(self)@),
    {
        proof {
            use_type_invariant(&self.message_cache);
            self.message_cache.lemma_within_limits();
        }
        let ghost s0 = self@;
        let r = self.answer_message(payload);
        proof {
            use_type_invariant(&self.message_cache);
            self.message_cache.lemma_within_limits();
            assert(cache_bounded(s0));
            match spec_message(payload@.d) {
                Ok(m) => lemma_cache_keeps_newest(s0, m),
                Err(_) => {},
            }
        }
        r
    }

    /// Handles `MESSAGE_CREATE` (see [`create_rel`]).
    fn answer_message(&mut self, payload: &Payload) -> (r: Vec<Action>)
        requires
            create_ok(old(self)@, payload@.d),
        ensures
            create_rel(old(self)@, final(self)@, payload@.d, actions_view(r@)),
    {
        let mut out: Vec<Action> = Vec::new();
        let message = match Message::try_from(&payload.d) {
            Ok(m) => m,
            Err(_) => {
                assert(actions_view(out@) =~= Seq::<ActionView>::empty());
                return out;
            },
        };
        let ghost s = self@;
        let ghost m = message@;
        self.cache_message(message.clone());
        let replies = match &self.user {
            Some(u) => u.id != message.author.id,
            None => false,
        };
        if !replies {
            assert(actions_view(out@) =~= Seq::<ActionView>::empty());
            return out;
        }
        let notes = unrenderable_notices(&message);
        let ghost nv = Seq::new(notes@.len(), |i: int| notes@[i]@);
        let mut i: usize = 0;
        while i < notes.len()
            invariant
                nv == Seq::new(notes@.len(), |i: int| notes@[i]@),
                m == message@,
                i <= notes.len(),
                actions_view(out@) == nv.take(i as int).map_values(|t: Seq<char>| post(m, t)),
            decreases notes.len() - i,
        {
            let ghost before = actions_view(out@);
            out.push(
                Action::Post {
                    channel: message.channel_id,
                    content: notes[i].clone(),
                    reference: Some(message.id),
                },
            );
            proof {
                assert(actions_view(out@) =~= before.push(post(m, nv[i as int])));
                assert(nv.take(i + 1).map_values(|t: Seq<char>| post(m, t)) =~= nv.take(
                    i as int,
                ).map_values(|t: Seq<char>| post(m, t)).push(post(m, nv[i as int])));
            }
            i = i + 1;
        }
        proof {
            assert(nv.take(i as int) =~= nv);
        }
        let ghost n = self@;
        let ghost o1 = actions_view(out@);
        match self.command(&message) {
            Some(a) => {
                out.push(a);
                proof {
                    assert(actions_view(out@) =~= o1 + seq![a@]);
                }
            },
            None => {
                assert(actions_view(out@) =~= o1 + Seq::<ActionView>::empty());
            },
        }
        out
    }

    /// The reply to a command message that is already cached (see
    /// [`command_rel`]).
    fn command(&self, message: &Message) -> (r: Option<Action>)
        requires
            match av_arg(message@) {
                Some(a) => mention_ok(a),
                None => true,
            },
        ensures
            command_rel(
                self@,
                message@,
                match r {
                    Some(a) => seq![a@],
                    None => Seq::<ActionView>::empty(),
                },
            ),
    {
        let content = match &message.content {
            Some(content) => content,
            None => return None,
        };
        let (command, arg) = headtail(content);
        let cmd = to_lowercase(command);
        proof {
            reveal_strlit("ping");
            reveal_strlit("av");
            reveal_strlit("soblb");
            reveal_strlit("cache");
            reveal_strlit("snipe");
        }
        let ghost m = message@;
        let ghost c = content@;
        assert(m.content == Some(c));
        assert(cmd@ == spec_to_lowercase(spec_headtail(c).0));
        if str_eq(cmd.as_str(), "ping") {
            let r = Action::Post {
                channel: message.channel_id,
                content: String::from_str("ping"),
                reference: Some(message.id),
            };
            assert(r@ == post(m, "ping"@));
            Some(r)
        } else if str_eq(cmd.as_str(), "av") {
            let text = self.command_av(message, arg);
            let r = Action::Post { channel: message.channel_id, content: text, reference: Some(message.id) };
            assert(command_rel(self@, m, seq![r@]));
            Some(r)
        } else if str_eq(cmd.as_str(), "soblb") {
            let text = leaderboard(&self.sob_lb, &self.user_cache);
            assert(is_leaderboard(text@, self@.sob_lb, self@.users));
            let r = Action::Post { channel: message.channel_id, content: text, reference: Some(message.id) };
            assert(r@ == post(m, text@));
            assert(command_rel(self@, m, seq![r@]));
            Some(r)
        } else if str_eq(cmd.as_str(), "cache") {
            let total = count_cached(self.message_cache.map());
            let text = cache_text(self.message_cache.len(), total, self.user_cache.len());
            proof {
                assert(self@.users.dom() == self.user_cache@.dom());
            }
            Some(Action::Post { channel: message.channel_id, content: text, reference: Some(message.id) })
        } else if str_eq(cmd.as_str(), "snipe") {
            match self.snipes.get(&message.channel_id) {
                Some(sm) => {
                    let text = snipe_text(sm);
                    Some(Action::Post { channel: sm.channel_id, content: text, reference: Some(sm.id) })
                },
                None => Some(
                    Action::Post {
                        channel: message.channel_id,
                        content: String::from_str("no snipe"),
                        reference: Some(message.id),
                    },
                ),
            }
        } else {
            None
        }
    }
}

/// The client's state once a dispatch frame's sequence number is taken (when
/// it has one) and the user it carries is cached.
pub open spec fn dispatch_prelude(s: GatewayView, p: PayloadView) -> GatewayView {
    let s1 = GatewayView {
        seq: match p.s {
            Some(x) => x,
            None => s.seq,
        },
        ..s
    };
    spec_update_cache(s1, p.d)
}

/// Whether the client can handle a frame: a dispatch names its event, and a
/// message's mention (for `av`) names a user id that fits a `u64`; opcodes 2,
/// 3, 4, 6 and 8, which only a client sends, do not come; a hello that must
/// start the heartbeat announces an integer interval, if any.
pub open spec fn spec_accepts(s: GatewayView, p: PayloadView) -> bool {
    if p.op == 0 {
        p.t is Some && (p.t == Some("MESSAGE_CREATE"@) ==> create_ok(s, p.d))
    } else if p.op == 2 || p.op == 3 || p.op == 4 || p.op == 6 || p.op == 8 {
        false
    } else if p.op == 10 {
        !s.authenticated ==> spec_heartbeat_interval(p.d) is Some
    } else {
        true
    }
}

/// What handling a frame does to the state (`s` before, `n` after) and which
/// actions it asks for, by opcode: 0 dispatches an event (messages, `READY`,
/// reactions, deletions); 1 answers with a heartbeat; 7 resumes; 9 (invalid
/// session) unauthenticates, then resumes if the session is resumable and
/// otherwise waits 5 seconds and identifies again; 10 (hello) identifies and
/// starts the heartbeat; 11 acknowledges the last heartbeat; any other is
/// ignored.
pub open spec fn spec_handled(s: GatewayView, p: PayloadView, n: GatewayView, acts: Seq<ActionView>) -> bool {
    if p.op == 0 {
        let s2 = dispatch_prelude(s, p);
        let t = p.t.unwrap();
        if t == "MESSAGE_CREATE"@ {
            create_rel(s2, n, p.d, acts)
        } else if t == "READY"@ {
            n == spec_ready(s2, p.d) && acts == Seq::<ActionView>::empty()
        } else if t == "MESSAGE_REACTION_ADD"@ || t == "MESSAGE_REACTION_REMOVE"@ {
            sob_rel(s2, n, p) && acts == Seq::<ActionView>::empty()
        } else if t == "MESSAGE_DELETE"@ {
            snipe_rel(s2, n, p.d) && acts == Seq::<ActionView>::empty()
        } else {
            n == s2 && acts == Seq::<ActionView>::empty()
        }
    } else if p.op == 1 {
        (n, acts) == spec_send(s, 1, spec_heartbeat_data(s.seq))
    } else if p.op == 7 {
        (n, acts) == spec_resume(s)
    } else if p.op == 9 {
        let s1 = GatewayView { authenticated: false, ..s };
        if field(p.d, "value"@) == ValueView::Bool(true) {
            (n, acts) == spec_resume(s1)
        } else {
            n == spec_identify(s1, None).0 && acts == seq![ActionView::Sleep(5)] + spec_identify(
                s1,
                None,
            ).1
        }
    } else if p.op == 10 {
        (n, acts) == spec_identify(s, spec_heartbeat_interval(p.d))
    } else if p.op == 11 {
        n == GatewayView { heartbeat_last_acked: true, ..s } && acts == Seq::<ActionView>::empty()
    } else {
        n == s && acts == Seq::<ActionView>::empty()
    }
}

/// The heartbeat interval of a hello (see [`spec_heartbeat_interval`]).
fn heartbeat_interval(d: &Data) -> (r: Option<u64>)
    ensures
        r == spec_heartbeat_interval(d@),
{
    match d.get("heartbeat_interval") {
        Some(Value::Integer(i)) => Some(*i as u64),
        Some(_) => None,
        None => Some(30),
    }
}

impl GatewayState {
    /// Whether a message can be handled without the lookup of a mentioned user
    /// failing (see [`create_ok`]).
    fn create_ok(&self, d: &Data) -> (r: bool)
        ensures
            r == create_ok(self@, d@),
    {
        let message = match Message::try_from(d) {
            Ok(m) => m,
            Err(_) => return true,
        };
        let replies = match &self.user {
            Some(u) => u.id != message.author.id,
            None => false,
        };
        if !replies {
            return true;
        }
        let content = match &message.content {
            Some(c) => c,
            None => return true,
        };
        let (command, arg) = headtail(content);
        let cmd = to_lowercase(command);
        proof {
            reveal_strlit("av");
        }
        if !str_eq(cmd.as_str(), "av") {
            return true;
        }
        match arg {
            Some(a) => match mention_capture(a) {
                Some(c) => parse_u64(c.as_str()).is_some(),
                None => true,
            },
            None => true,
        }
    }

    /// Whether a frame can be handled without failing (see [`spec_accepts`]).
    pub fn accepts(&self, payload: &Payload) -> (r: bool)
        ensures
            r == spec_accepts(self@, payload@),
    {
        proof {
            reveal_strlit("MESSAGE_CREATE");
        }
        let op = payload.op;
        if op == 0 {
            match &payload.t {
                Some(t) => if str_eq(t.as_str(), "MESSAGE_CREATE") {
                    self.create_ok(&payload.d)
                } else {
                    true
                },
                None => false,
            }
        } else if op == 2 || op == 3 || op == 4 || op == 6 || op == 8 {
            false
        } else if op == 10 {
            self.authenticated || heartbeat_interval(&payload.d).is_some()
        } else {
            true
        }
    }

    /// Handles one frame (see [`spec_handled`]), returning the actions to
    /// perform in order.
    pub fn handle_payload(&mut self, payload: Payload) -> (r: Vec<Action>)
        requires
            spec_accepts(old(self)@, payload@),
        ensures
            spec_handled(old(self)@, payload@, final(self)@, actions_view(r@)),
            cache_bounded(final(self)@),
    {
        let r = self.handle_frame(payload);
        proof {
            use_type_invariant(&self.message_cache);
            self.message_cache.lemma_within_limits();
        }
        r
    }

    /// Handles one frame (see [`spec_handled`]).
    fn handle_frame(&mut self, payload: Payload) -> (r: Vec<Action>)
        requires
            spec_accepts(old(self)@, payload@),
        ensures
            spec_handled(old(self)@, payload@, final(self)@, actions_view(r@)),
    {
        let mut out: Vec<Action> = Vec::new();
        let ghost s = self@;
        let ghost pv = payload@;
        proof {
            reveal_strlit("MESSAGE_CREATE");
            reveal_strlit("READY");
            reveal_strlit("MESSAGE_REACTION_ADD");
            reveal_strlit("MESSAGE_REACTION_REMOVE");
            reveal_strlit("MESSAGE_DELETE");
        }
        let op = payload.op;
        assert(actions_view(out@) =~= Seq::<ActionView>::empty());
        if op == 0 {
            self.seq = match payload.s {
                Some(x) => x,
                None => self.seq,
            };
            self.update_cache(&payload);
            assert(self@ == dispatch_prelude(s, pv));
            let event = match &payload.t {
                Some(t) => t,
                None => return out,
            };
            if str_eq(event.as_str(), "MESSAGE_CREATE") {
                return self.message_create(&payload);
            } else if str_eq(event.as_str(), "READY") {
                self.ready(&payload);
            } else if str_eq(event.as_str(), "MESSAGE_REACTION_ADD") || str_eq(
                event.as_str(),
                "MESSAGE_REACTION_REMOVE",
            ) {
                self.update_sob_lb(&payload);
            } else if str_eq(event.as_str(), "MESSAGE_DELETE") {
                self.add_snipe(&payload);
            }
        } else if op == 1 {
            self.heartbeat(&mut out);
            assert(actions_view(out@) =~= spec_send(s, 1, spec_heartbeat_data(s.seq)).1);
        } else if op == 7 {
            self.resume(&mut out);
            assert(actions_view(out@) =~= spec_resume(s).1);
        } else if op == 9 {
            self.authenticated = false;
            let ghost s1 = self@;
            let resumable = match payload.d.get("value") {
                Some(Value::Bool(b)) => *b,
                _ => false,
            };
            assert(resumable == (field(pv.d, "value"@) == ValueView::Bool(true)));
            if !resumable {
                out.push(Action::Sleep(5));
                assert(actions_view(out@) =~= seq![ActionView::Sleep(5)]);
                self.identify(None, &mut out);
            } else {
                self.resume(&mut out);
                assert(actions_view(out@) =~= spec_resume(s1).1);
            }
        } else if op == 10 {
            let interval = if self.authenticated {
                None
            } else {
                heartbeat_interval(&payload.d)
            };
            self.identify(interval, &mut out);
            assert(actions_view(out@) =~= spec_identify(s, spec_heartbeat_interval(pv.d)).1);
        } else if op == 11 {
            self.heartbeat_last_acked = true;
        }
        out
    }

    /// Handles one frame when it can be handled (see [`spec_accepts`]);
    /// `None`, changing nothing, for a frame that cannot.
    pub fn step(&mut self, payload: Payload) -> (r: Option<Vec<Action>>)
        ensures
            spec_accepts(old(self)@, payload@) ==> (r matches Some(acts) && spec_handled(
                old(self)@,
                payload@,
                final(self)@,
                actions_view(acts@),
            )),
            !spec_accepts(old(self)@, payload@) ==> r is None && final(self)@ == old(self)@,
            cache_bounded(final(self)@),
    {
        proof {
            use_type_invariant(&self.message_cache);
            self.message_cache.lemma_within_limits();
        }
        if self.accepts(&payload) {
            Some(self.handle_payload(payload))
        } else {
            None
        }
    }
}

/// What the client does when the gateway closes the socket.
pub enum CloseAction {
    /// Stop this connection (a new one is then opened).
    Stop,
    /// The token is no longer valid: give up.
    InvalidToken,
    /// Resume the session on a new socket.
    Resume,
}

/// The decision on a close code (`None` when the close came without a close
/// frame): normal closes (1000, 1001), a close without a frame, and failed
/// resumes (4007, 4009) stop; 4004 (authentication failed) means the token is
/// invalid; any other code resumes.
pub open spec fn spec_close_action(code: Option<u16>) -> CloseAction {
    match code {
        None => CloseAction::Stop,
        Some(c) => if c == 1000 || c == 1001 {
            CloseAction::Stop
        } else if c == 4004 {
            CloseAction::InvalidToken
        } else if c == 4007 || c == 4009 {
            CloseAction::Stop
        } else {
            CloseAction::Resume
        },
    }
}

/// The decision on a close code (see [`spec_close_action`]).
pub fn close_action(code: Option<u16>) -> (r: CloseAction)
    ensures
        r == spec_close_action(code),
{
    match code {
        None => CloseAction::Stop,
        Some(c) => {
            if c == 1000 || c == 1001 {
                CloseAction::Stop
            } else if c == 4004 {
                CloseAction::InvalidToken
            } else if c == 4007 || c == 4009 {
                CloseAction::Stop
            } else {
                CloseAction::Resume
            }
        },
    }
}

/// What an inflated message turns out to be.
pub enum FrameRead {
    /// The bytes hold a term the decoder cannot read without failing (see
    /// `etf_readable`).
    Unsupported,
    /// The bytes are not an external term.
    Undecodable,
    /// The term is not a frame.
    Rejected(crate::obj::SerialiseError),
    /// A frame whose document cannot be read, which cannot be handled.
    Unreadable,
    /// A frame.
    Frame(Payload),
}

/// Reads an inflated message as a frame: bytes the decoder cannot read without
/// failing are `Unsupported`; others are decoded as an external term (see
/// `etf_decode`) and the frame read out of it (see `spec_payload`).
pub fn read_frame(bytes: &[u8]) -> (r: FrameRead)
    ensures
        !crate::term::etf_readable(bytes@) ==> r is Unsupported,
        crate::term::etf_readable(bytes@) ==> match crate::term::etf_decode(bytes@) {
            None => r is Undecodable,
            Some(t) => match crate::obj::spec_payload(t) {
                Err(e) => r == FrameRead::Rejected(e),
                Ok(None) => r is Unreadable,
                Ok(Some(p)) => r matches FrameRead::Frame(q) && q@ == p,
            },
        },
{
    if !crate::term::readable(bytes) {
        return FrameRead::Unsupported;
    }
    match crate::term::decode_term(bytes) {
        None => FrameRead::Undecodable,
        Some(term) => match Payload::parse(&term) {
            Err(e) => FrameRead::Rejected(e),
            Ok(None) => FrameRead::Unreadable,
            Ok(Some(p)) => FrameRead::Frame(p),
        },
    }
}

/// Whether the inflated bytes are dropped once read: after every read,
/// whatever it gave, so that the next read holds only the next message.
pub fn clears_after(_read: &FrameRead) -> (r: bool)
    ensures
        r,
{
    true
}

/// Every channel's cache has the per-channel limit and stays within it.
pub open spec fn cache_bounded(s: GatewayView) -> bool {
    &&& s.cache.dom() == s.limits.dom()
    &&& forall|ch: u64|
        #[trigger] s.cache.contains_key(ch) ==> s.limits[ch] == MESSAGE_CACHE_PER_CHANNEL as nat
            && s.cache[ch].len() <= s.limits[ch]
}

/// A fresh state keeps no messages, so its caches are within bounds.
pub proof fn lemma_new_cache_bounded(s: GatewayView)
    requires
        s.cache == Map::<u64, Seq<MessageView>>::empty(),
        s.limits == Map::<u64, nat>::empty(),
    ensures
        cache_bounded(s),
{
    assert(s.cache.dom() =~= s.limits.dom());
}

proof fn lemma_cache_pushed_bounded(s: GatewayView, m: MessageView)
    requires
        cache_bounded(s),
    ensures
        cache_bounded(cache_pushed(s, m)),
{
    let ch = m.channel_id;
    let items = if s.cache.contains_key(ch) {
        s.cache[ch]
    } else {
        Seq::empty()
    };
    let limit = if s.limits.contains_key(ch) {
        s.limits[ch]
    } else {
        MESSAGE_CACHE_PER_CHANNEL as nat
    };
    crate::cache::lemma_bounded_push(items, limit, m);
    let n = cache_pushed(s, m);
    assert(n.cache.dom() =~= n.limits.dom());
}

/// Whatever frame the client handles, no channel's cache grows past the
/// per-channel limit.
pub proof fn lemma_handled_keeps_cache_bounded(
    s: GatewayView,
    p: PayloadView,
    n: GatewayView,
    acts: Seq<ActionView>,
)
    requires
        cache_bounded(s),
        spec_accepts(s, p),
        spec_handled(s, p, n, acts),
    ensures
        cache_bounded(n),
{
    if p.op == 0 {
        let s2 = dispatch_prelude(s, p);
        assert(s2.cache == s.cache && s2.limits == s.limits);
        let t = p.t.unwrap();
        if t == "MESSAGE_CREATE"@ {
            match spec_message(p.d) {
                Ok(m) => lemma_cache_pushed_bounded(s2, m),
                Err(_) => {},
            }
        }
    }
}

/// The messages cached for a channel (none when it has no cache).
pub open spec fn channel_items(s: GatewayView, ch: u64) -> Seq<MessageView> {
    if s.cache.contains_key(ch) {
        s.cache[ch]
    } else {
        Seq::empty()
    }
}

/// The newest `n` of some messages.
pub open spec fn newest(q: Seq<MessageView>, n: int) -> Seq<MessageView> {
    if q.len() > n {
        q.skip(q.len() - n)
    } else {
        q
    }
}

/// With the caches within bounds, caching a message keeps the newest
/// [`MESSAGE_CACHE_PER_CHANNEL`] messages of its channel, itself the newest,
/// and leaves every other channel's cache as it was.
pub proof fn lemma_cache_keeps_newest(s: GatewayView, m: MessageView)
    requires
        cache_bounded(s),
    ensures
        cache_pushed(s, m).cache[m.channel_id] == newest(
            channel_items(s, m.channel_id).push(m),
            MESSAGE_CACHE_PER_CHANNEL as int,
        ),
        forall|ch: u64|
            ch != m.channel_id ==> channel_items(cache_pushed(s, m), ch) == channel_items(s, ch)
                && (cache_pushed(s, m).cache.contains_key(ch) == s.cache.contains_key(ch)),
{
    let q = channel_items(s, m.channel_id);
    let n = cache_pushed(s, m);
    if q.len() >= 1000 {
        assert(q.skip(1).push(m) =~= q.push(m).skip(q.push(m).len() - 1000));
    }
}

/// A heartbeat the gateway has not acknowledged is not followed by another:
/// of two heartbeat requests with no acknowledgement between them, the second
/// closes the socket and changes nothing else.
pub proof fn lemma_unacked_heartbeat_closes(
    s: GatewayView,
    p1: PayloadView,
    n1: GatewayView,
    a1: Seq<ActionView>,
    p2: PayloadView,
    n2: GatewayView,
    a2: Seq<ActionView>,
)
    requires
        p1.op == 1,
        p2.op == 1,
        spec_handled(s, p1, n1, a1),
        spec_handled(n1, p2, n2, a2),
    ensures
        a2 == seq![ActionView::Close],
        n2 == n1,
{
}

/// An acknowledgement lets the next heartbeat through.
pub proof fn lemma_ack_rearms_heartbeat(
    s: GatewayView,
    p1: PayloadView,
    n1: GatewayView,
    a1: Seq<ActionView>,
    p2: PayloadView,
    n2: GatewayView,
    a2: Seq<ActionView>,
)
    requires
        p1.op == 11,
        p2.op == 1,
        spec_handled(s, p1, n1, a1),
        spec_handled(n1, p2, n2, a2),
    ensures
        a2 == seq![ActionView::Send(spec_heartbeat_data(s.seq))],
        !n2.heartbeat_last_acked,
{
}

/// The client identifies at most once: once authenticated, identifying again
/// does nothing.
pub proof fn lemma_identify_once(s: GatewayView, i: Option<u64>, j: Option<u64>)
    ensures
        spec_identify(spec_identify(s, i).0, j) == (spec_identify(s, i).0, Seq::<ActionView>::empty()),
{
}

/// A user's crying count: 0 when the user has none.
pub open spec fn sob_count(m: Map<u64, u64>, k: u64) -> u64 {
    if m.contains_key(k) {
        m[k]
    } else {
        0
    }
}

/// Adding and then removing the same reaction, with nothing else in between,
/// leaves every user's count where it was and changes nothing else but the
/// counts (an author never counted before is left with a count of 0), when the
/// channel's cache holds its messages in strictly increasing order of id.
pub proof fn lemma_sob_add_remove(
    s: GatewayView,
    p_add: PayloadView,
    n1: GatewayView,
    p_rem: PayloadView,
    n2: GatewayView,
    e: crate::obj::ReactionEventView,
)
    requires
        (crate::obj::spec_reaction(p_add) matches Ok(crate::obj::ReactionView::Add(x)) && x == e),
        (crate::obj::spec_reaction(p_rem) matches Ok(crate::obj::ReactionView::Remove(y)) && y == e),
        s.cache.contains_key(e.channel) ==> strictly_sorted_by_id(s.cache[e.channel]),
        sob_rel(s, n1, p_add),
        sob_rel(n1, n2, p_rem),
    ensures
        forall|k: u64| sob_count(n2.sob_lb, k) == sob_count(s.sob_lb, k),
        n2 == (GatewayView { sob_lb: n2.sob_lb, ..s }),
{
    if e.emoji.name == sob() && s.cache.contains_key(e.channel) {
        let q = s.cache[e.channel];
        if sob_counted(s, n1, e.channel, e.message, e.reactor, true) {
            let i = choose|i: int|
                0 <= i < q.len() && q[i].id == e.message && n1 == sob_applied(
                    s,
                    q[i].author.id,
                    e.reactor,
                    true,
                );
            let a = q[i].author.id;
            assert(n1.cache == s.cache);
            assert(contains_id(q, e.message));
            if sob_counted(n1, n2, e.channel, e.message, e.reactor, false) {
                let j = choose|j: int|
                    0 <= j < q.len() && q[j].id == e.message && n2 == sob_applied(
                        n1,
                        q[j].author.id,
                        e.reactor,
                        false,
                    );
                assert(i == j) by {
                    if i < j {
                        assert(q[i].id < q[j].id);
                    } else if j < i {
                        assert(q[j].id < q[i].id);
                    }
                }
                if e.reactor != a {
                    assert forall|k: u64| sob_count(n2.sob_lb, k) == sob_count(s.sob_lb, k) by {
                        if k == a {
                        }
                    }
                }
            } else {
                assert(sorted_by_id(q));
            }
        } else {
            assert(n1 == s);
            if sob_counted(n1, n2, e.channel, e.message, e.reactor, false) {
                let j = choose|j: int|
                    0 <= j < q.len() && q[j].id == e.message && n2 == sob_applied(
                        n1,
                        q[j].author.id,
                        e.reactor,
                        false,
                    );
                assert(sorted_by_id(q));
                assert(contains_id(q, e.message));
            }
        }
    }
}

/// A message frame is handled whenever its message reads, unless it is an
/// `av` command whose argument mentions an id too large to look up: so every
/// message without content, and every message whose command is not `av`, is
/// handled.
pub proof fn lemma_message_frames_accepted(s: GatewayView, p: PayloadView, m: MessageView)
    requires
        p.op == 0,
        p.t == Some("MESSAGE_CREATE"@),
        (spec_message(p.d) matches Ok(x) && x == m),
        (m.content matches Some(c) ==> (spec_to_lowercase(spec_headtail(c).0) != "av"@
            || spec_headtail(c).1 is None || mention_ok(spec_headtail(c).1.unwrap()))),
    ensures
        spec_accepts(s, p),
{
}

/// Looking a user up by a term with no mention finds a user whenever some
/// cached user's username, `username#discriminator` or display name equals
/// the term ignoring ASCII case; and a user found is a cached one that does.
pub proof fn lemma_user_lookup(users: Map<u64, UserView>, term: Seq<char>, r: Option<UserView>)
    requires
        spec_mention(term) is None,
        arg_user_rel(users, term, r),
    ensures
        (exists|k: u64|
            #![trigger users[k]]
            users.contains_key(k) && (spec_eq_ignore_ascii_case(users[k].username, term)
                || spec_eq_ignore_ascii_case(spec_display(users[k]), term) || (
            users[k].displayname matches Some(n) && spec_eq_ignore_ascii_case(n, term)))) ==> r is Some,
        r matches Some(u) ==> exists|k: u64|
            #![trigger users[k]]
            users.contains_key(k) && users[k] == u && (spec_eq_ignore_ascii_case(u.username, term)
                || spec_eq_ignore_ascii_case(spec_display(u), term) || (u.displayname matches Some(
                n,
            ) && spec_eq_ignore_ascii_case(n, term))),
{
    if r is None {
        assert forall|k: u64|
            #![trigger users[k]]
            users.contains_key(k) implies !(spec_eq_ignore_ascii_case(users[k].username, term)
                || spec_eq_ignore_ascii_case(spec_display(users[k]), term) || (
            users[k].displayname matches Some(n) && spec_eq_ignore_ascii_case(n, term))) by {
            assert(!user_matches(users[k], term));
        }
    }
}

/// The reply to `cache`: the channels with a cache, the messages cached over
/// all channels and the users cached, in that order.
pub proof fn lemma_cache_reply(s: GatewayView, m: MessageView, acts: Seq<ActionView>)
    requires
        command_rel(s, m, acts),
        (m.content matches Some(c) && spec_to_lowercase(spec_headtail(c).0) == "cache"@),
    ensures
        exists|total: usize|
            is_cached_total(total, s.cache) && acts == seq![
                ActionView::Post {
                    channel: m.channel_id,
                    content: "Message cache:\nChannels: "@ + spec_decimal(s.cache.dom().len())
                        + "\nMessages: "@ + spec_decimal(total as nat) + "\nUsers: "@ + spec_decimal(
                        s.users.dom().len(),
                    ),
                    reference: Some(m.id),
                },
            ],
{
    reveal_strlit("cache");
    reveal_strlit("ping");
    reveal_strlit("av");
    reveal_strlit("soblb");
    reveal_strlit("Message cache:\nChannels: ");
    reveal_strlit("\nMessages: ");
    reveal_strlit("\nUsers: ");
    assert("cache"@.len() != "ping"@.len());
    assert("cache"@.len() != "av"@.len());
    assert("cache"@[0] != "soblb"@[0]);
}

/// Resuming with a session reconnects and then sends, under opcode 6, the
/// client's own token, the session id and the last sequence number; without a
/// session the socket is closed. The state stays as it was.
pub proof fn lemma_resume_document(s: GatewayView)
    ensures
        spec_resume(s).0 == s,
        s.session_id is None ==> spec_resume(s).1 == seq![ActionView::Close],
        s.session_id matches Some(session) ==> {
            let acts = spec_resume(s).1;
            &&& acts.len() == 2
            &&& acts[0] == ActionView::Reconnect
            &&& acts[1] matches ActionView::Send(doc)
            &&& doc.contains_key("op"@)
            &&& doc["op"@] == ValueView::Integer(6)
            &&& doc.contains_key("d"@)
            &&& doc["d"@] matches ValueView::Data(inner)
            &&& inner.contains_key("token"@)
            &&& inner["token"@] == ValueView::String(s.token)
            &&& inner.contains_key("session_id"@)
            &&& inner["session_id"@] == ValueView::String(session)
            &&& inner.contains_key("seq"@)
            &&& inner["seq"@] == ValueView::Integer(s.seq as i32)
        },
{
    reveal_strlit("op");
    reveal_strlit("d");
    reveal_strlit("token");
    reveal_strlit("session_id");
    reveal_strlit("seq");
    assert("op"@.len() != "d"@.len());
    assert("token"@.len() != "seq"@.len());
    assert("session_id"@.len() != "seq"@.len());
    assert("token"@.len() != "session_id"@.len());
    match s.session_id {
        Some(session) => {
            let doc = spec_resume_data(s.token, session, s.seq);
            assert(doc["d"@] == ValueView::Data(map![
                "token"@ => ValueView::String(s.token),
                "session_id"@ => ValueView::String(session),
                "seq"@ => ValueView::Integer(s.seq as i32),
            ]));
        },
        None => {},
    }
}

/// The view of a borrowed user, if any.
pub open spec fn opt_user_view_ref(u: Option<&User>) -> Option<UserView> {
    match u {
        Some(x) => Some(x@),
        None => None,
    }
}

} // verus!
