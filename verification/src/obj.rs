//! Gateway frames and the objects read out of their documents: messages,
//! users, attachments, reactions and emoji.

use crate::term::{EtfTerm, TermView};
use crate::text::{
    str_concat, decimal, parse_u16, spec_decimal, spec_parse_u16, spec_starts_with, starts_with,
    str_eq,
};
use crate::value::{read_data, term_data, Data, Value, ValueView};
use vstd::prelude::*;
use vstd::string::*;

verus! {

/// Why a term is not a gateway frame.
#[derive(Debug)]
pub enum SerialiseError {
    /// The `s` field holds something other than `nil` or an integer.
    BadSequence,
    /// A key of the frame is not an atom.
    BadKey,
    /// One of `d`, `op`, `s`, `t` is missing.
    IncompletePayload,
    /// The term is not a map.
    NonMapTerm,
}

/// A gateway frame: opcode, sequence number, event name and document.
pub struct Payload {
    pub d: Data,
    pub op: u8,
    pub s: Option<u64>,
    pub t: Option<String>,
}

/// The mathematical value of a [`Payload`].
pub struct PayloadView {
    pub d: Map<Seq<char>, ValueView>,
    pub op: u8,
    pub s: Option<u64>,
    pub t: Option<Seq<char>>,
}

pub open spec fn opt_str_view(o: Option<String>) -> Option<Seq<char>> {
    match o {
        Some(s) => Some(s@),
        None => None,
    }
}

impl View for Payload {
    type V = PayloadView;

    open spec fn view(&self) -> PayloadView {
        PayloadView { d: self.d@, op: self.op, s: self.s, t: opt_str_view(self.t) }
    }
}

/// The fields of a frame as they stand after reading some of its entries:
/// the term under `d`, and the `op`, `s` and `t` read so far.
pub struct FrameFields {
    pub d: Option<TermView>,
    pub op: Option<u8>,
    pub s: Option<Option<u64>>,
    pub t: Option<Option<Seq<char>>>,
}

pub open spec fn chars_d() -> Seq<char> {
    seq!['d']
}

pub open spec fn chars_op() -> Seq<char> {
    seq!['o', 'p']
}

pub open spec fn chars_s() -> Seq<char> {
    seq!['s']
}

pub open spec fn chars_t() -> Seq<char> {
    seq!['t']
}

/// Reading one entry of a frame: `d` keeps its term; `op` keeps a small
/// integer cut to a byte; `s` is reset by `nil` (no number), cleared by any
/// other atom and set by an integer (widened as `as u64` does), and any other
/// term there is an error; `t` keeps an atom's name (`nil` for no name); other
/// keys are skipped. A key that is not an atom is an error.
pub open spec fn frame_step(f: FrameFields, k: TermView, v: TermView) -> Result<
    FrameFields,
    SerialiseError,
> {
    match k {
        TermView::Atom(name) => if name == chars_d() {
            Ok(FrameFields { d: Some(v), ..f })
        } else if name == chars_op() {
            match v {
                TermView::FixInteger(i) => Ok(FrameFields { op: Some(i as u8), ..f }),
                _ => Ok(f),
            }
        } else if name == chars_s() {
            match v {
                TermView::Atom(a) => if a == crate::value::nil_chars() {
                    Ok(FrameFields { s: Some(None), ..f })
                } else {
                    Ok(FrameFields { s: None, ..f })
                },
                TermView::FixInteger(i) => Ok(FrameFields { s: Some(Some(i as u64)), ..f }),
                _ => Err(SerialiseError::BadSequence),
            }
        } else if name == chars_t() {
            match v {
                TermView::Atom(a) => if a == crate::value::nil_chars() {
                    Ok(FrameFields { t: Some(None), ..f })
                } else {
                    Ok(FrameFields { t: Some(Some(a)), ..f })
                },
                _ => Ok(f),
            }
        } else {
            Ok(f)
        },
        _ => Err(SerialiseError::BadKey),
    }
}

/// Reads the entries of a frame in order, stopping at the first error.
pub open spec fn frame_fields(es: Seq<(TermView, TermView)>) -> Result<FrameFields, SerialiseError>
    decreases es.len(),
{
    if es.len() == 0 {
        Ok(FrameFields { d: None, op: None, s: None, t: None })
    } else {
        match frame_fields(es.drop_last()) {
            Ok(f) => frame_step(f, es.last().0, es.last().1),
            Err(e) => Err(e),
        }
    }
}

/// What reading a term as a frame gives: the fields of a map whose four
/// fields are all present, with `d` read as a document (`None` there when it
/// does not read as one); the errors of [`frame_fields`]; `IncompletePayload`
/// when a field is missing; `NonMapTerm` for a term that is not a map.
pub open spec fn spec_payload(t: TermView) -> Result<Option<PayloadView>, SerialiseError> {
    match t {
        TermView::Dict(es) => match frame_fields(es) {
            Ok(f) => if f.d is Some && f.op is Some && f.s is Some && f.t is Some {
                match term_data(f.d.unwrap()) {
                    Some(m) => Ok(
                        Some(
                            PayloadView {
                                d: m,
                                op: f.op.unwrap(),
                                s: f.s.unwrap(),
                                t: f.t.unwrap(),
                            },
                        ),
                    ),
                    None => Ok(None),
                }
            } else {
                Err(SerialiseError::IncompletePayload)
            },
            Err(e) => Err(e),
        },
        _ => Err(SerialiseError::NonMapTerm),
    }
}

/// Whether a frame's document can be read, so that reading the frame cannot
/// fail on it.
pub open spec fn payload_readable(t: TermView) -> bool {
    !(spec_payload(t) matches Ok(None))
}

/// The exec fields while scanning a frame: index of the `d` entry, `op`, `s`, `t`.
struct Scan {
    d: Option<usize>,
    op: Option<u8>,
    s: Option<Option<u64>>,
    t: Option<Option<String>>,
}

spec fn scan_matches(sc: Scan, f: FrameFields, es: Seq<(TermView, TermView)>) -> bool {
    &&& (sc.d is Some <==> f.d is Some)
    &&& (sc.d matches Some(j) ==> j < es.len() && f.d == Some(es[j as int].1))
    &&& sc.op == f.op
    &&& sc.s == f.s
    &&& (match sc.t {
        Some(o) => f.t == Some(opt_str_view(o)),
        None => f.t is None,
    })
}

impl Payload {
    /// Reads a frame from a term; `Ok(None)` where every field is present but
    /// the document under `d` cannot be read.
    pub fn parse(term: &EtfTerm) -> (r: Result<Option<Payload>, SerialiseError>)
        ensures
            match spec_payload(term@) {
                Ok(Some(p)) => r matches Ok(Some(q)) && q@ == p,
                Ok(None) => r matches Ok(None),
                Err(e) => r == Err::<Option<Payload>, SerialiseError>(e),
            },
    {
        proof {
            reveal_strlit("d");
            reveal_strlit("op");
            reveal_strlit("s");
            reveal_strlit("t");
            reveal_strlit("nil");
            assert("d"@ =~= chars_d());
            assert("op"@ =~= chars_op());
            assert("s"@ =~= chars_s());
            assert("t"@ =~= chars_t());
            assert("nil"@ =~= crate::value::nil_chars());
        }
        match term {
            EtfTerm::Dict(es) => {
                let ghost ev = match term@ {
                    TermView::Dict(x) => x,
                    _ => Seq::empty(),
                };
                let mut sc = Scan { d: None, op: None, s: None, t: None };
                let mut i: usize = 0;
                while i < es.len()
                    invariant
                        term@ == TermView::Dict(ev),
                        ev.len() == es@.len(),
                        forall|j: int|
                            0 <= j < es@.len() ==> ev[j] == ((#[trigger] es@[j]).0.tv(), es@[j].1.tv()),
                        i <= es.len(),
                        frame_fields(ev.take(i as int)) is Ok,
                        scan_matches(sc, frame_fields(ev.take(i as int)).unwrap(), ev),
                        "d"@ == chars_d(),
                        "op"@ == chars_op(),
                        "s"@ == chars_s(),
                        "t"@ == chars_t(),
                        "nil"@ == crate::value::nil_chars(),
                    decreases es.len() - i,
                {
                    proof {
                        assert(ev.take(i + 1).drop_last() =~= ev.take(i as int));
                    }
                    let ghost f = frame_fields(ev.take(i as int)).unwrap();
                    let (k, v) = (&es[i].0, &es[i].1);
                    match k {
                        EtfTerm::Atom(name) => {
                            if str_eq(name.as_str(), "d") {
                                sc.d = Some(i);
                            } else if str_eq(name.as_str(), "op") {
                                match v {
                                    EtfTerm::FixInteger(n) => {
                                        sc.op = Some(*n as u8);
                                    },
                                    _ => {},
                                }
                            } else if str_eq(name.as_str(), "s") {
                                match v {
                                    EtfTerm::Atom(a) => {
                                        if str_eq(a.as_str(), "nil") {
                                            sc.s = Some(None);
                                        } else {
                                            sc.s = None;
                                        }
                                    },
                                    EtfTerm::FixInteger(n) => {
                                        sc.s = Some(Some(*n as u64));
                                    },
                                    _ => {
                                        proof {
                                            lemma_frame_fields_err(ev, i as int + 1);
                                        }
                                        return Err(SerialiseError::BadSequence);
                                    },
                                }
                            } else if str_eq(name.as_str(), "t") {
                                match v {
                                    EtfTerm::Atom(a) => {
                                        if str_eq(a.as_str(), "nil") {
                                            sc.t = Some(None);
                                        } else {
                                            sc.t = Some(Some(a.clone()));
                                        }
                                    },
                                    _ => {},
                                }
                            }
                        },
                        _ => {
                            proof {
                                lemma_frame_fields_err(ev, i as int + 1);
                            }
                            return Err(SerialiseError::BadKey);
                        },
                    }
                    i = i + 1;
                }
                proof {
                    assert(ev.take(i as int) =~= ev);
                }
                match (sc.d, sc.op, sc.s, sc.t) {
                    (Some(j), Some(op), Some(s), Some(t)) => {
                        match read_data(&es[j].1) {
                            Some(d) => Ok(Some(Payload { d, op, s, t })),
                            None => Ok(None),
                        }
                    },
                    _ => Err(SerialiseError::IncompletePayload),
                }
            },
            _ => Err(SerialiseError::NonMapTerm),
        }
    }

    /// Reads a frame from a term: a map whose atom keys `d`, `op`, `s` and `t`
    /// are all present (see [`spec_payload`]). The document under `d` must be
    /// readable.
    pub fn new(term: EtfTerm) -> (r: Result<Payload, SerialiseError>)
        requires
            payload_readable(term@),
        ensures
            match spec_payload(term@) {
                Ok(Some(p)) => r matches Ok(q) && q@ == p,
                Ok(None) => false,
                Err(e) => r == Err::<Payload, SerialiseError>(e),
            },
    {
        match Payload::parse(&term) {
            Ok(Some(p)) => Ok(p),
            Ok(None) => Err(SerialiseError::IncompletePayload),
            Err(e) => Err(e),
        }
    }
}

/// Once reading the first entries of a frame fails, reading all of them fails
/// with the same error.
proof fn lemma_frame_fields_err(es: Seq<(TermView, TermView)>, j: int)
    requires
        0 <= j <= es.len(),
        frame_fields(es.take(j)) is Err,
    ensures
        frame_fields(es) == frame_fields(es.take(j)),
    decreases es.len(),
{
    if j < es.len() {
        assert(es.drop_last().take(j) =~= es.take(j));
        lemma_frame_fields_err(es.drop_last(), j);
    } else {
        assert(es.take(j) =~= es);
    }
}


/// Why a document does not describe the object asked for.
#[derive(Debug)]
pub enum ParseError {
    BadSubObject,
    MissingId,
    MissingParam,
    BadParam,
}

/// The value of a document field; an absent field reads as nothing.
pub open spec fn field(m: Map<Seq<char>, ValueView>, k: Seq<char>) -> ValueView {
    if m.contains_key(k) {
        m[k]
    } else {
        ValueView::NoneType
    }
}

/// A field that may hold a string: `Some(Some(s))` for a string, `Some(None)`
/// for nothing, `None` for anything else.
pub open spec fn opt_string(v: ValueView) -> Option<Option<Seq<char>>> {
    match v {
        ValueView::String(s) => Some(Some(s)),
        ValueView::NoneType => Some(None),
        _ => None,
    }
}

/// A field that may hold an integer: `Some(Some(i))`, `Some(None)` for
/// nothing, `None` for anything else.
pub open spec fn opt_integer(v: ValueView) -> Option<Option<i32>> {
    match v {
        ValueView::Integer(i) => Some(Some(i)),
        ValueView::NoneType => Some(None),
        _ => None,
    }
}

fn field_bigint(d: &Data, k: &str) -> (r: Option<u64>)
    ensures
        match field(d@, k@) {
            ValueView::BigInt(v) => r == Some(v),
            _ => r is None,
        },
{
    match d.get(k) {
        Some(Value::BigInt(v)) => Some(*v),
        _ => None,
    }
}

fn field_integer(d: &Data, k: &str) -> (r: Option<i32>)
    ensures
        match field(d@, k@) {
            ValueView::Integer(v) => r == Some(v),
            _ => r is None,
        },
{
    match d.get(k) {
        Some(Value::Integer(v)) => Some(*v),
        _ => None,
    }
}

fn field_string(d: &Data, k: &str) -> (r: Option<String>)
    ensures
        match field(d@, k@) {
            ValueView::String(s) => r matches Some(x) && x@ == s,
            _ => r is None,
        },
{
    match d.get(k) {
        Some(Value::String(v)) => Some(v.clone()),
        _ => None,
    }
}

fn field_opt_string(d: &Data, k: &str) -> (r: Option<Option<String>>)
    ensures
        match opt_string(field(d@, k@)) {
            Some(o) => r matches Some(x) && opt_str_view(x) == o,
            None => r is None,
        },
{
    match d.get(k) {
        Some(Value::String(v)) => Some(Some(v.clone())),
        Some(Value::NoneType) => Some(None),
        None => Some(None),
        _ => None,
    }
}

fn field_opt_integer(d: &Data, k: &str) -> (r: Option<Option<i32>>)
    ensures
        r == opt_integer(field(d@, k@)),
{
    match d.get(k) {
        Some(Value::Integer(v)) => Some(Some(*v)),
        Some(Value::NoneType) => Some(None),
        None => Some(None),
        _ => None,
    }
}

/// A Discord user.
pub struct User {
    pub id: u64,
    pub displayname: Option<String>,
    pub username: String,
    pub discriminator: u16,
    pub avatar_hash: Option<String>,
    pub banner_hash: Option<String>,
    pub bot: bool,
    pub flags: u64,
}

/// The mathematical value of a [`User`].
pub struct UserView {
    pub id: u64,
    pub displayname: Option<Seq<char>>,
    pub username: Seq<char>,
    pub discriminator: u16,
    pub avatar_hash: Option<Seq<char>>,
    pub banner_hash: Option<Seq<char>>,
    pub bot: bool,
    pub flags: u64,
}

impl View for User {
    type V = UserView;

    open spec fn view(&self) -> UserView {
        UserView {
            id: self.id,
            displayname: opt_str_view(self.displayname),
            username: self.username@,
            discriminator: self.discriminator,
            avatar_hash: opt_str_view(self.avatar_hash),
            banner_hash: opt_str_view(self.banner_hash),
            bot: self.bot,
            flags: self.flags,
        }
    }
}

/// The user flags of a document: `flags` when it is an integer; when it holds
/// nothing, `public_flags`, which must then be an integer.
pub open spec fn spec_user_flags(m: Map<Seq<char>, ValueView>) -> Result<u64, ParseError> {
    match field(m, "flags"@) {
        ValueView::Integer(i) => Ok(i as u64),
        ValueView::NoneType => match field(m, "public_flags"@) {
            ValueView::Integer(i) => Ok(i as u64),
            _ => Err(ParseError::MissingParam),
        },
        _ => Err(ParseError::BadParam),
    }
}

/// The bot flag of a document: a boolean, or `false` when it holds nothing.
pub open spec fn spec_user_bot(m: Map<Seq<char>, ValueView>) -> Result<bool, ParseError> {
    match field(m, "bot"@) {
        ValueView::Bool(b) => Ok(b),
        ValueView::NoneType => Ok(false),
        _ => Err(ParseError::BadParam),
    }
}

/// The user a document describes, checking its fields in order: `id` (a big
/// integer, else `MissingId`), `username` (a string), `global_name` (a string
/// or nothing), `discriminator` (a string, else `MissingParam`, that parses as
/// a `u16`, else `BadParam`), `avatar` and `banner` (strings or nothing), then
/// the flags and the bot flag.
pub open spec fn spec_user(m: Map<Seq<char>, ValueView>) -> Result<UserView, ParseError> {
    let id = field(m, "id"@);
    let username = field(m, "username"@);
    let global = opt_string(field(m, "global_name"@));
    let discrim = field(m, "discriminator"@);
    let avatar = opt_string(field(m, "avatar"@));
    let banner = opt_string(field(m, "banner"@));
    if !(id is BigInt) {
        Err(ParseError::MissingId)
    } else if !(username is String) {
        Err(ParseError::MissingParam)
    } else if global is None {
        Err(ParseError::MissingParam)
    } else if !(discrim is String) {
        Err(ParseError::MissingParam)
    } else if spec_parse_u16(discrim->String_0) is None {
        Err(ParseError::BadParam)
    } else if avatar is None {
        Err(ParseError::MissingParam)
    } else if banner is None {
        Err(ParseError::MissingParam)
    } else if spec_user_flags(m) is Err {
        Err(spec_user_flags(m)->Err_0)
    } else if spec_user_bot(m) is Err {
        Err(spec_user_bot(m)->Err_0)
    } else {
        Ok(
            UserView {
                id: id->BigInt_0,
                displayname: global.unwrap(),
                username: username->String_0,
                discriminator: spec_parse_u16(discrim->String_0).unwrap(),
                avatar_hash: avatar.unwrap(),
                banner_hash: banner.unwrap(),
                bot: spec_user_bot(m).unwrap(),
                flags: spec_user_flags(m).unwrap(),
            },
        )
    }
}

impl User {
    /// Reads a user out of a document (see [`spec_user`]).
    pub fn try_from(payload: &Data) -> (r: Result<User, ParseError>)
        ensures
            match spec_user(payload@) {
                Ok(u) => r matches Ok(x) && x@ == u,
                Err(e) => r == Err::<User, ParseError>(e),
            },
    {
        let id = match field_bigint(payload, "id") {
            Some(v) => v,
            None => return Err(ParseError::MissingId),
        };
        let username = match field_string(payload, "username") {
            Some(v) => v,
            None => return Err(ParseError::MissingParam),
        };
        let displayname = match field_opt_string(payload, "global_name") {
            Some(v) => v,
            None => return Err(ParseError::MissingParam),
        };
        let discrim = match field_string(payload, "discriminator") {
            Some(v) => match parse_u16(v.as_str()) {
                Some(x) => x,
                None => return Err(ParseError::BadParam),
            },
            None => return Err(ParseError::MissingParam),
        };
        let avatar = match field_opt_string(payload, "avatar") {
            Some(v) => v,
            None => return Err(ParseError::MissingParam),
        };
        let banner = match field_opt_string(payload, "banner") {
            Some(v) => v,
            None => return Err(ParseError::MissingParam),
        };
        let flags = match field_opt_integer(payload, "flags") {
            Some(Some(v)) => v as u64,
            Some(None) => match field_integer(payload, "public_flags") {
                Some(v) => v as u64,
                None => return Err(ParseError::MissingParam),
            },
            None => return Err(ParseError::BadParam),
        };
        let bot = match payload.get("bot") {
            Some(Value::Bool(b)) => *b,
            Some(Value::NoneType) => false,
            None => false,
            _ => return Err(ParseError::BadParam),
        };
        Ok(
            User {
                id,
                username,
                displayname,
                discriminator: discrim,
                avatar_hash: avatar,
                banner_hash: banner,
                bot,
                flags,
            },
        )
    }
}


/// The extension of an image hash: `gif` for animated (`a_`-prefixed) hashes,
/// `jpg` otherwise.
pub open spec fn image_ext(hash: Seq<char>) -> Seq<char> {
    if spec_starts_with(hash, "a_"@) {
        "gif"@
    } else {
        "jpg"@
    }
}

/// The avatar URL of a user: its own avatar at the given size, or else a
/// default avatar picked by discriminator (or, without one, by the id's
/// timestamp bits).
pub open spec fn spec_avatar(u: UserView, size: u16) -> Seq<char> {
    match u.avatar_hash {
        Some(av) => "https://cdn.discordapp.com/avatars/"@ + spec_decimal(u.id as nat) + "/"@ + av
            + "."@ + image_ext(av) + "?size="@ + spec_decimal(size as nat),
        None => if u.discriminator != 0 {
            "https://cdn.discordapp.com/embed/avatars/"@ + spec_decimal((u.discriminator % 5) as nat)
                + ".png"@
        } else {
            "https://cdn.discordapp.com/embed/avatars/"@ + spec_decimal(((u.id >> 22u64) % 6) as nat)
                + ".png"@
        },
    }
}

/// The banner URL of a user at the given size, if it has a banner.
pub open spec fn spec_banner(u: UserView, size: u16) -> Option<Seq<char>> {
    match u.banner_hash {
        Some(b) => Some(
            "https://cdn.discordapp.com/banners/"@ + spec_decimal(u.id as nat) + "/"@ + b + "."@
                + image_ext(b) + "?size="@ + spec_decimal(size as nat),
        ),
        None => None,
    }
}

/// `username#discriminator`, or the bare username when the discriminator is 0.
pub open spec fn spec_display(u: UserView) -> Seq<char> {
    if u.discriminator != 0 {
        u.username + "#"@ + spec_decimal(u.discriminator as nat)
    } else {
        u.username
    }
}

/// The display name when there is one, else [`spec_display`].
pub open spec fn spec_friendly_display(u: UserView) -> Seq<char> {
    match u.displayname {
        Some(n) => n,
        None => spec_display(u),
    }
}

fn image_url(base: &str, id: u64, hash: &String, size: u16) -> (r: String)
    ensures
        r@ == base@ + spec_decimal(id as nat) + "/"@ + hash@ + "."@ + image_ext(hash@) + "?size="@
            + spec_decimal(size as nat),
{
    let ext = if starts_with(hash.as_str(), "a_") {
        "gif"
    } else {
        "jpg"
    };
    let mut r = String::from_str(base);
    r.append(decimal(id).as_str());
    r.append("/");
    r.append(hash.as_str());
    r.append(".");
    r.append(ext);
    r.append("?size=");
    r.append(decimal(size as u64).as_str());
    r
}

impl User {
    /// The user's avatar URL at the given size (see [`spec_avatar`]).
    pub fn avatar(&self, size: u16) -> (r: String)
        ensures
            r@ == spec_avatar(self@, size),
    {
        if let Some(av) = &self.avatar_hash {
            image_url("https://cdn.discordapp.com/avatars/", self.id, av, size)
        } else {
            let n: u64 = if self.discriminator != 0 {
                (self.discriminator % 5) as u64
            } else {
                (self.id >> 22u64) % 6
            };
            let mut r = String::from_str("https://cdn.discordapp.com/embed/avatars/");
            r.append(decimal(n).as_str());
            r.append(".png");
            r
        }
    }

    /// The user's banner URL at the given size, if it has a banner.
    pub fn banner(&self, size: u16) -> (r: Option<String>)
        ensures
            opt_str_view(r) == spec_banner(self@, size),
    {
        if let Some(b) = &self.banner_hash {
            Some(image_url("https://cdn.discordapp.com/banners/", self.id, b, size))
        } else {
            None
        }
    }

    /// The display name when there is one, else [`User::display`].
    pub fn friendly_display(&self) -> (r: String)
        ensures
            r@ == spec_friendly_display(self@),
    {
        if let Some(dname) = &self.displayname {
            dname.clone()
        } else {
            self.display()
        }
    }

    /// `username#discriminator`, or the bare username when the discriminator
    /// is 0.
    pub fn display(&self) -> (r: String)
        ensures
            r@ == spec_display(self@),
    {
        if self.discriminator != 0 {
            let mut r = str_concat(self.username.as_str(), "#");
            r.append(decimal(self.discriminator as u64).as_str());
            r
        } else {
            self.username.clone()
        }
    }
}

/// A file attached to a message.
pub struct Attachment {
    pub id: u64,
    pub filename: String,
    pub url: String,
    pub renderable: bool,
    pub size: u64,
    pub dimensions: Option<(u32, u32)>,
    pub content_type: Option<String>,
}

/// The mathematical value of an [`Attachment`].
pub struct AttachmentView {
    pub id: u64,
    pub filename: Seq<char>,
    pub url: Seq<char>,
    pub renderable: bool,
    pub size: u64,
    pub dimensions: Option<(u32, u32)>,
    pub content_type: Option<Seq<char>>,
}

impl View for Attachment {
    type V = AttachmentView;

    open spec fn view(&self) -> AttachmentView {
        AttachmentView {
            id: self.id,
            filename: self.filename@,
            url: self.url@,
            renderable: self.renderable,
            size: self.size,
            dimensions: self.dimensions,
            content_type: opt_str_view(self.content_type),
        }
    }
}

/// The attachment a document describes, checking its fields in order: `id`
/// (a big integer, else `MissingId`), `filename` (a string), `size` (an
/// integer, else `MissingId`), `url` (a string), `height` and `width`
/// (integers or nothing), `content_type` (a string or nothing). It is
/// renderable when both dimensions are given.
pub open spec fn spec_attachment(m: Map<Seq<char>, ValueView>) -> Result<AttachmentView, ParseError> {
    let id = field(m, "id"@);
    let filename = field(m, "filename"@);
    let size = field(m, "size"@);
    let url = field(m, "url"@);
    let height = opt_integer(field(m, "height"@));
    let width = opt_integer(field(m, "width"@));
    let ctype = opt_string(field(m, "content_type"@));
    if !(id is BigInt) {
        Err(ParseError::MissingId)
    } else if !(filename is String) {
        Err(ParseError::MissingParam)
    } else if !(size is Integer) {
        Err(ParseError::MissingId)
    } else if !(url is String) {
        Err(ParseError::MissingParam)
    } else if height is None {
        Err(ParseError::MissingParam)
    } else if width is None {
        Err(ParseError::MissingParam)
    } else if ctype is None {
        Err(ParseError::MissingParam)
    } else {
        let h = height.unwrap();
        let w = width.unwrap();
        Ok(
            AttachmentView {
                id: id->BigInt_0,
                filename: filename->String_0,
                url: url->String_0,
                renderable: w is Some && h is Some,
                size: size->Integer_0 as u64,
                dimensions: if w is Some && h is Some {
                    Some((w.unwrap() as u32, h.unwrap() as u32))
                } else {
                    None
                },
                content_type: ctype.unwrap(),
            },
        )
    }
}

impl Attachment {
    /// Reads an attachment out of a document (see [`spec_attachment`]).
    pub fn try_from(payload: &Data) -> (r: Result<Attachment, ParseError>)
        ensures
            match spec_attachment(payload@) {
                Ok(a) => r matches Ok(x) && x@ == a,
                Err(e) => r == Err::<Attachment, ParseError>(e),
            },
    {
        let id = match field_bigint(payload, "id") {
            Some(v) => v,
            None => return Err(ParseError::MissingId),
        };
        let filename = match field_string(payload, "filename") {
            Some(v) => v,
            None => return Err(ParseError::MissingParam),
        };
        let size = match field_integer(payload, "size") {
            Some(v) => v as u64,
            None => return Err(ParseError::MissingId),
        };
        let url = match field_string(payload, "url") {
            Some(v) => v,
            None => return Err(ParseError::MissingParam),
        };
        let height = match field_opt_integer(payload, "height") {
            Some(Some(v)) => Some(v as u32),
            Some(None) => None,
            None => return Err(ParseError::MissingParam),
        };
        let width = match field_opt_integer(payload, "width") {
            Some(Some(v)) => Some(v as u32),
            Some(None) => None,
            None => return Err(ParseError::MissingParam),
        };
        let renderable = width.is_some() && height.is_some();
        let content_type = match field_opt_string(payload, "content_type") {
            Some(v) => v,
            None => return Err(ParseError::MissingParam),
        };
        let dimensions = match (width, height) {
            (Some(w), Some(h)) => Some((w, h)),
            _ => None,
        };
        Ok(Attachment { id, filename, url, renderable, size, dimensions, content_type })
    }
}

/// An emoji: its name, and its id for custom emoji.
pub struct Emoji {
    pub name: String,
    pub id: Option<u64>,
}

/// The mathematical value of an [`Emoji`].
pub struct EmojiView {
    pub name: Seq<char>,
    pub id: Option<u64>,
}

impl View for Emoji {
    type V = EmojiView;

    open spec fn view(&self) -> EmojiView {
        EmojiView { name: self.name@, id: self.id }
    }
}

/// The emoji a document describes: `name` (a string) and `id` (a big integer,
/// or none when it holds a string or nothing).
pub open spec fn spec_emoji(m: Map<Seq<char>, ValueView>) -> Result<EmojiView, ParseError> {
    match field(m, "name"@) {
        ValueView::String(name) => match field(m, "id"@) {
            ValueView::BigInt(v) => Ok(EmojiView { name, id: Some(v) }),
            ValueView::String(_) => Ok(EmojiView { name, id: None }),
            ValueView::NoneType => Ok(EmojiView { name, id: None }),
            _ => Err(ParseError::MissingParam),
        },
        _ => Err(ParseError::MissingParam),
    }
}

impl Emoji {
    /// Reads an emoji out of a document (see [`spec_emoji`]).
    pub fn try_from(data: &Data) -> (r: Result<Emoji, ParseError>)
        ensures
            match spec_emoji(data@) {
                Ok(e) => r matches Ok(x) && x@ == e,
                Err(e) => r == Err::<Emoji, ParseError>(e),
            },
    {
        let name = match field_string(data, "name") {
            Some(v) => v,
            None => return Err(ParseError::MissingParam),
        };
        let id = match data.get("id") {
            Some(Value::BigInt(v)) => Some(*v),
            Some(Value::String(_)) => None,
            Some(Value::NoneType) => None,
            None => None,
            _ => return Err(ParseError::MissingParam),
        };
        Ok(Emoji { name, id })
    }
}


/// A chat message.
pub struct Message {
    pub id: u64,
    pub channel_id: u64,
    pub author: User,
    pub content: Option<String>,
    pub attachments: Vec<Attachment>,
    pub message_type: u64,
}

/// The mathematical value of a [`Message`].
pub struct MessageView {
    pub id: u64,
    pub channel_id: u64,
    pub author: UserView,
    pub content: Option<Seq<char>>,
    pub attachments: Seq<AttachmentView>,
    pub message_type: u64,
}

impl View for Message {
    type V = MessageView;

    open spec fn view(&self) -> MessageView {
        MessageView {
            id: self.id,
            channel_id: self.channel_id,
            author: self.author@,
            content: opt_str_view(self.content),
            attachments: Seq::new(self.attachments@.len(), |i: int| self.attachments@[i]@),
            message_type: self.message_type,
        }
    }
}

/// The attachments among a list of values: the documents that read as
/// attachments, in order; anything else is skipped.
pub open spec fn spec_attachments(arr: Seq<ValueView>) -> Seq<AttachmentView>
    decreases arr.len(),
{
    if arr.len() == 0 {
        Seq::empty()
    } else {
        let rest = spec_attachments(arr.drop_last());
        match arr.last() {
            ValueView::Data(a) => match spec_attachment(a) {
                Ok(x) => rest.push(x),
                Err(_) => rest,
            },
            _ => rest,
        }
    }
}

/// The message a document describes, checking in order: `author` (a document
/// that reads as a user, else `BadSubObject` or the user's error),
/// `attachments` (an array, else `BadSubObject`), `id` and `channel_id` (big
/// integers), `type` (an integer), `content` (a string or nothing); each of
/// the last four else `MissingParam`.
pub open spec fn spec_message(m: Map<Seq<char>, ValueView>) -> Result<MessageView, ParseError> {
    let author = field(m, "author"@);
    let atts = field(m, "attachments"@);
    let id = field(m, "id"@);
    let channel = field(m, "channel_id"@);
    let mtype = field(m, "type"@);
    let content = opt_string(field(m, "content"@));
    if !(author is Data) {
        Err(ParseError::BadSubObject)
    } else if spec_user(author->Data_0) is Err {
        Err(spec_user(author->Data_0)->Err_0)
    } else if !(atts is Array) {
        Err(ParseError::BadSubObject)
    } else if !(id is BigInt) {
        Err(ParseError::MissingParam)
    } else if !(channel is BigInt) {
        Err(ParseError::MissingParam)
    } else if !(mtype is Integer) {
        Err(ParseError::MissingParam)
    } else if content is None {
        Err(ParseError::MissingParam)
    } else {
        Ok(
            MessageView {
                id: id->BigInt_0,
                channel_id: channel->BigInt_0,
                author: spec_user(author->Data_0).unwrap(),
                content: content.unwrap(),
                attachments: spec_attachments(atts->Array_0),
                message_type: mtype->Integer_0 as u64,
            },
        )
    }
}

/// The attachment views of a list of attachments.
pub open spec fn attachment_views(v: Seq<Attachment>) -> Seq<AttachmentView> {
    Seq::new(v.len(), |i: int| v[i]@)
}

fn read_attachments(arr: &Vec<Value>) -> (r: Vec<Attachment>)
    ensures
        attachment_views(r@) == spec_attachments(crate::value::array_view(*arr)),
{
    let ghost av = crate::value::array_view(*arr);
    let mut out: Vec<Attachment> = Vec::new();
    let mut i: usize = 0;
    while i < arr.len()
        invariant
            av == crate::value::array_view(*arr),
            i <= arr.len(),
            attachment_views(out@) == spec_attachments(av.take(i as int)),
        decreases arr.len() - i,
    {
        proof {
            assert(av.take(i + 1).drop_last() =~= av.take(i as int));
            assert(av.take(i + 1).last() == arr@[i as int].vv());
        }
        match &arr[i] {
            Value::Data(a) => {
                match Attachment::try_from(a) {
                    Ok(x) => {
                        let ghost before = attachment_views(out@);
                        out.push(x);
                        proof {
                            assert(attachment_views(out@) =~= before.push(x@));
                        }
                    },
                    Err(_) => {},
                }
            },
            _ => {},
        }
        i = i + 1;
    }
    proof {
        assert(av.take(i as int) =~= av);
    }
    out
}

impl Message {
    /// Reads a message out of a document (see [`spec_message`]).
    pub fn try_from(payload: &Data) -> (r: Result<Message, ParseError>)
        ensures
            match spec_message(payload@) {
                Ok(m) => r matches Ok(x) && x@ == m,
                Err(e) => r == Err::<Message, ParseError>(e),
            },
    {
        let user = match payload.get("author") {
            Some(Value::Data(user_data)) => match User::try_from(user_data) {
                Ok(u) => u,
                Err(e) => return Err(e),
            },
            _ => return Err(ParseError::BadSubObject),
        };
        let attachments = match payload.get("attachments") {
            Some(Value::Array(arr)) => read_attachments(arr),
            _ => return Err(ParseError::BadSubObject),
        };
        let id = match field_bigint(payload, "id") {
            Some(v) => v,
            None => return Err(ParseError::MissingParam),
        };
        let channel_id = match field_bigint(payload, "channel_id") {
            Some(v) => v,
            None => return Err(ParseError::MissingParam),
        };
        let message_type = match field_integer(payload, "type") {
            Some(v) => v as u64,
            None => return Err(ParseError::MissingParam),
        };
        let content = match field_opt_string(payload, "content") {
            Some(v) => v,
            None => return Err(ParseError::MissingParam),
        };
        let r = Message { id, channel_id, author: user, content, attachments, message_type };
        proof {
            assert(r@.attachments =~= attachment_views(r.attachments@));
        }
        Ok(r)
    }
}

/// A reaction added to or removed from a message.
pub struct ReactionEvent {
    pub channel: u64,
    pub reactor: u64,
    pub message: u64,
    pub emoji: Emoji,
}

/// The mathematical value of a [`ReactionEvent`].
pub struct ReactionEventView {
    pub channel: u64,
    pub reactor: u64,
    pub message: u64,
    pub emoji: EmojiView,
}

impl View for ReactionEvent {
    type V = ReactionEventView;

    open spec fn view(&self) -> ReactionEventView {
        ReactionEventView {
            channel: self.channel,
            reactor: self.reactor,
            message: self.message,
            emoji: self.emoji@,
        }
    }
}

/// A reaction event.
pub enum Reaction {
    Add(ReactionEvent),
    Remove(ReactionEvent),
}

/// The mathematical value of a [`Reaction`].
pub enum ReactionView {
    Add(ReactionEventView),
    Remove(ReactionEventView),
}

impl View for Reaction {
    type V = ReactionView;

    open spec fn view(&self) -> ReactionView {
        match self {
            Reaction::Add(e) => ReactionView::Add(e@),
            Reaction::Remove(e) => ReactionView::Remove(e@),
        }
    }
}

/// The reaction a frame describes, checking in order: `user_id`, `channel_id`,
/// `message_id` (big integers, else `MissingId`), `emoji` (a document that
/// reads as an emoji, else `BadSubObject`), then the event name, which must be
/// `MESSAGE_REACTION_ADD` or `MESSAGE_REACTION_REMOVE` (else `BadParam`).
pub open spec fn spec_reaction(p: PayloadView) -> Result<ReactionView, ParseError> {
    let user = field(p.d, "user_id"@);
    let channel = field(p.d, "channel_id"@);
    let message = field(p.d, "message_id"@);
    let emoji = field(p.d, "emoji"@);
    if !(user is BigInt) || !(channel is BigInt) || !(message is BigInt) {
        Err(ParseError::MissingId)
    } else if !(emoji is Data) || spec_emoji(emoji->Data_0) is Err {
        Err(ParseError::BadSubObject)
    } else {
        let ev = ReactionEventView {
            channel: channel->BigInt_0,
            reactor: user->BigInt_0,
            message: message->BigInt_0,
            emoji: spec_emoji(emoji->Data_0).unwrap(),
        };
        if p.t == Some("MESSAGE_REACTION_ADD"@) {
            Ok(ReactionView::Add(ev))
        } else if p.t == Some("MESSAGE_REACTION_REMOVE"@) {
            Ok(ReactionView::Remove(ev))
        } else {
            Err(ParseError::BadParam)
        }
    }
}

impl Reaction {
    /// Reads a reaction out of a frame (see [`spec_reaction`]).
    pub fn try_from(payload: &Payload) -> (r: Result<Reaction, ParseError>)
        ensures
            match spec_reaction(payload@) {
                Ok(x) => r matches Ok(y) && y@ == x,
                Err(e) => r == Err::<Reaction, ParseError>(e),
            },
    {
        let data = &payload.d;
        let user = match field_bigint(data, "user_id") {
            Some(v) => v,
            None => return Err(ParseError::MissingId),
        };
        let channel = match field_bigint(data, "channel_id") {
            Some(v) => v,
            None => return Err(ParseError::MissingId),
        };
        let message = match field_bigint(data, "message_id") {
            Some(v) => v,
            None => return Err(ParseError::MissingId),
        };
        let emoji = match data.get("emoji") {
            Some(Value::Data(value)) => match Emoji::try_from(value) {
                Ok(e) => e,
                Err(_) => return Err(ParseError::BadSubObject),
            },
            _ => return Err(ParseError::BadSubObject),
        };
        match &payload.t {
            Some(event) => {
                let ev = ReactionEvent { channel, message, reactor: user, emoji };
                if str_eq(event.as_str(), "MESSAGE_REACTION_ADD") {
                    Ok(Reaction::Add(ev))
                } else if str_eq(event.as_str(), "MESSAGE_REACTION_REMOVE") {
                    Ok(Reaction::Remove(ev))
                } else {
                    Err(ParseError::BadParam)
                }
            },
            None => Err(ParseError::BadParam),
        }
    }
}


fn clone_opt_string(o: &Option<String>) -> (r: Option<String>)
    ensures
        opt_str_view(r) == opt_str_view(*o),
{
    match o {
        Some(s) => Some(s.clone()),
        None => None,
    }
}

impl Clone for User {
    fn clone(&self) -> (r: Self)
        ensures
            r@ == self@,
    {
        User {
            id: self.id,
            displayname: clone_opt_string(&self.displayname),
            username: self.username.clone(),
            discriminator: self.discriminator,
            avatar_hash: clone_opt_string(&self.avatar_hash),
            banner_hash: clone_opt_string(&self.banner_hash),
            bot: self.bot,
            flags: self.flags,
        }
    }
}

impl Clone for Attachment {
    fn clone(&self) -> (r: Self)
        ensures
            r@ == self@,
    {
        Attachment {
            id: self.id,
            filename: self.filename.clone(),
            url: self.url.clone(),
            renderable: self.renderable,
            size: self.size,
            dimensions: self.dimensions,
            content_type: clone_opt_string(&self.content_type),
        }
    }
}

impl Clone for Message {
    fn clone(&self) -> (r: Self)
        ensures
            r@ == self@,
    {
        let mut atts: Vec<Attachment> = Vec::new();
        let mut i: usize = 0;
        while i < self.attachments.len()
            invariant
                i <= self.attachments.len(),
                atts.len() == i,
                forall|j: int| 0 <= j < i ==> (#[trigger] atts@[j])@ == self.attachments@[j]@,
            decreases self.attachments.len() - i,
        {
            atts.push(self.attachments[i].clone());
            i = i + 1;
        }
        let r = Message {
            id: self.id,
            channel_id: self.channel_id,
            author: self.author.clone(),
            content: clone_opt_string(&self.content),
            attachments: atts,
            message_type: self.message_type,
        };
        assert(r@.attachments =~= self@.attachments);
        r
    }
}

} // verus!
