//! The Erlang external term model of gateway frames.

use crate::text::all_digits;
use eetf::{Atom, BigInteger, Binary, FixInteger, List, Term};
use std::io::Cursor;
use vstd::prelude::*;
use vstd::utf8::encode_utf8;

verus! {

/// `eetf::Term`, the decoded form of an Erlang external term.
#[verifier::external_type_specification]
#[verifier::external_body]
pub struct ExTerm(eetf::Term);

/// `eetf::Float`, carried through unchanged.
#[verifier::external_type_specification]
#[verifier::external_body]
pub struct ExFloat(eetf::Float);

/// A decoded Erlang term, as far as this library reads it.
pub enum EtfTerm {
    Atom(String),
    FixInteger(i32),
    /// A big integer, held as its decimal rendering.
    BigInteger(String),
    Float(eetf::Float),
    Binary(Vec<u8>),
    List(Vec<EtfTerm>),
    /// A map, its entries in the order they were encoded.
    Dict(Vec<(EtfTerm, EtfTerm)>),
    /// Any other kind of term (pid, port, reference, function, tuple, ...).
    Other,
}

/// The mathematical value of an [`EtfTerm`].
pub enum TermView {
    Atom(Seq<char>),
    FixInteger(i32),
    BigInteger(Seq<char>),
    Float(eetf::Float),
    Binary(Seq<u8>),
    List(Seq<TermView>),
    Dict(Seq<(TermView, TermView)>),
    Other,
}

impl EtfTerm {
    pub open spec fn tv(self) -> TermView
        decreases self,
    {
        match self {
            EtfTerm::Atom(s) => TermView::Atom(s@),
            EtfTerm::FixInteger(i) => TermView::FixInteger(i),
            EtfTerm::BigInteger(s) => TermView::BigInteger(s@),
            EtfTerm::Float(f) => TermView::Float(f),
            EtfTerm::Binary(b) => TermView::Binary(b@),
            EtfTerm::List(v) => TermView::List(Seq::new(v@.len(), |i: int| if 0 <= i < v@.len() { v@[i].tv() } else { TermView::Other })),
            EtfTerm::Dict(v) => TermView::Dict(Seq::new(v@.len(), |i: int| if 0 <= i < v@.len() { (v@[i].0.tv(), v@[i].1.tv()) } else { (TermView::Other, TermView::Other) })),
            EtfTerm::Other => TermView::Other,
        }
    }
}

impl View for EtfTerm {
    type V = TermView;

    open spec fn view(&self) -> TermView {
        self.tv()
    }
}

/// The term that `eetf::Term::decode` reads from `bytes`, as far as this
/// library models terms; `None` where it reports a decoding error.
pub uninterp spec fn etf_decode(bytes: Seq<u8>) -> Option<TermView>;

/// The bytes that `eetf::Term::encode` writes for a term.
pub uninterp spec fn etf_encode(t: TermView) -> Seq<u8>;

/// A term that `eetf::Term::encode` writes without error once converted:
/// atom names of at most 0xFFFF bytes, big integers written as a non-empty run
/// of decimal digits, and no term of a kind this library does not model.
pub open spec fn encodable(t: TermView) -> bool
    decreases t,
{
    match t {
        TermView::Atom(name) => encode_utf8(name).len() <= 0xFFFF,
        TermView::BigInteger(digits) => digits.len() > 0 && all_digits(digits),
        TermView::List(l) => forall|i: int| 0 <= i < l.len() ==> encodable(#[trigger] l[i]),
        TermView::Dict(es) => forall|i: int|
            0 <= i < es.len() ==> encodable(#[trigger] es[i].0) && encodable(es[i].1),
        TermView::Other => false,
        _ => true,
    }
}

/// How deep terms may nest in a frame the library decodes.
pub const MAX_DEPTH: u32 = 256;

/// The big-endian 16-bit number at `p`.
pub open spec fn be16(b: Seq<u8>, p: int) -> int {
    b[p] * 256 + b[p + 1]
}

/// The big-endian 32-bit number at `p`.
pub open spec fn be32(b: Seq<u8>, p: int) -> int {
    ((b[p] * 256 + b[p + 1]) * 256 + b[p + 2]) * 256 + b[p + 3]
}

/// The position after `n` more bytes from `q`, if the bytes hold them.
pub open spec fn skip_bytes(b: Seq<u8>, q: int, n: int) -> Option<int> {
    if q + n <= b.len() {
        Some(q + n)
    } else {
        None
    }
}

/// The bytes after the node name of a pid (103, 88), port (102, 89, 120) or
/// old reference (101): its id, serial and creation fields.
pub open spec fn after_node(tag: u8) -> int {
    if tag == 103 {
        9
    } else if tag == 88 {
        12
    } else if tag == 102 {
        5
    } else if tag == 89 {
        8
    } else if tag == 120 {
        12
    } else {
        5
    }
}

/// Where the term whose tag is at `p` ends, walking it as the decoder reads it,
/// for every kind of term the decoder reads: integers, floats, atoms,
/// strings, binaries, bit binaries, big integers, lists, tuples, maps, pids,
/// ports, references and functions, nested at most `depth` deep. `None` for a
/// term cut short or nested deeper, for a bit binary whose count of bits in
/// its last byte the decoder cannot shift by, and for an atom-cache reference
/// or any unknown tag.
pub open spec fn term_end(b: Seq<u8>, p: int, depth: nat) -> Option<int>
    decreases depth, 0int,
{
    if depth == 0 || p < 0 || p >= b.len() {
        None
    } else {
        let tag = b[p];
        let q = p + 1;
        if tag == 97 {
            skip_bytes(b, q, 1)
        } else if tag == 98 {
            skip_bytes(b, q, 4)
        } else if tag == 70 {
            skip_bytes(b, q, 8)
        } else if tag == 99 {
            skip_bytes(b, q, 31)
        } else if tag == 106 {
            Some(q)
        } else if tag == 115 || tag == 119 {
            if q + 1 <= b.len() {
                skip_bytes(b, q + 1, b[q] as int)
            } else {
                None
            }
        } else if tag == 100 || tag == 118 || tag == 107 {
            if q + 2 <= b.len() {
                skip_bytes(b, q + 2, be16(b, q))
            } else {
                None
            }
        } else if tag == 109 {
            if q + 4 <= b.len() {
                skip_bytes(b, q + 4, be32(b, q))
            } else {
                None
            }
        } else if tag == 110 {
            if q + 2 <= b.len() {
                skip_bytes(b, q + 2, b[q] as int)
            } else {
                None
            }
        } else if tag == 111 {
            if q + 5 <= b.len() {
                skip_bytes(b, q + 5, be32(b, q))
            } else {
                None
            }
        } else if tag == 104 {
            if q + 1 <= b.len() {
                terms_end(b, q + 1, b[q] as int, (depth - 1) as nat)
            } else {
                None
            }
        } else if tag == 105 {
            if q + 4 <= b.len() {
                terms_end(b, q + 4, be32(b, q), (depth - 1) as nat)
            } else {
                None
            }
        } else if tag == 108 {
            if q + 4 <= b.len() {
                match terms_end(b, q + 4, be32(b, q), (depth - 1) as nat) {
                    Some(r) => term_end(b, r, (depth - 1) as nat),
                    None => None,
                }
            } else {
                None
            }
        } else if tag == 103 || tag == 88 || tag == 102 || tag == 89 || tag == 120 || tag == 101 {
            match term_end(b, q, (depth - 1) as nat) {
                Some(r) => skip_bytes(b, r, after_node(tag)),
                None => None,
            }
        } else if tag == 114 || tag == 90 {
            if q + 2 <= b.len() {
                match term_end(b, q + 2, (depth - 1) as nat) {
                    Some(r) => skip_bytes(b, r, (if tag == 114 { 1int } else { 4int }) + 4 * be16(b, q)),
                    None => None,
                }
            } else {
                None
            }
        } else if tag == 113 {
            terms_end(b, q, 3, (depth - 1) as nat)
        } else if tag == 117 {
            if q + 4 <= b.len() {
                terms_end(b, q + 4, 4 + be32(b, q), (depth - 1) as nat)
            } else {
                None
            }
        } else if tag == 112 {
            if q + 29 <= b.len() {
                terms_end(b, q + 29, 4 + be32(b, q + 25), (depth - 1) as nat)
            } else {
                None
            }
        } else if tag == 77 {
            if q + 5 <= b.len() && (be32(b, q) == 0 || 1 <= b[q + 4] <= 8) {
                skip_bytes(b, q + 5, be32(b, q))
            } else {
                None
            }
        } else if tag == 116 {
            if q + 4 <= b.len() {
                terms_end(b, q + 4, 2 * be32(b, q), (depth - 1) as nat)
            } else {
                None
            }
        } else {
            None
        }
    }
}

/// Where `count` consecutive terms from `p` end (see [`term_end`]).
pub open spec fn terms_end(b: Seq<u8>, p: int, count: int, depth: nat) -> Option<int>
    decreases depth, count,
{
    if count <= 0 {
        Some(p)
    } else {
        match term_end(b, p, depth) {
            Some(r) => terms_end(b, r, count - 1, depth),
            None => None,
        }
    }
}

/// Bytes the decoder reads without failing: bytes it refuses before reading a
/// tag (too short, or not starting with the format version 131), or a version
/// byte followed by a term that [`term_end`] walks within [`MAX_DEPTH`] levels
/// and that is neither a distribution header (68) nor a compressed term (80).
pub open spec fn etf_readable(b: Seq<u8>) -> bool {
    if b.len() < 2 || b[0] != 131 {
        true
    } else {
        b[1] != 68 && b[1] != 80 && term_end(b, 1, MAX_DEPTH as nat) is Some
    }
}

fn read_be16(b: &[u8], q: usize) -> (r: u64)
    requires
        q + 2 <= b@.len(),
    ensures
        r == be16(b@, q as int),
{
    (b[q] as u64) * 256 + (b[q + 1] as u64)
}

fn read_be32(b: &[u8], q: usize) -> (r: u64)
    requires
        q + 4 <= b@.len(),
    ensures
        r == be32(b@, q as int),
{
    (((b[q] as u64) * 256 + (b[q + 1] as u64)) * 256 + (b[q + 2] as u64)) * 256 + (b[q + 3] as u64)
}

fn skip_exec(b: &[u8], q: usize, n: u64) -> (r: Option<usize>)
    requires
        q <= b@.len(),
    ensures
        match skip_bytes(b@, q as int, n as int) {
            Some(x) => r == Some(x as usize),
            None => r is None,
        },
{
    if n <= (b.len() - q) as u64 {
        Some(q + n as usize)
    } else {
        None
    }
}

/// Where the term at `p` ends (see [`term_end`]).
/// A term walked by [`term_end`] takes at least one byte and ends within the
/// bytes.
proof fn lemma_term_end_bounds(b: Seq<u8>, p: int, depth: nat)
    ensures
        term_end(b, p, depth) matches Some(x) ==> p < x <= b.len(),
    decreases depth, 0int,
{
    if depth > 0 && 0 <= p < b.len() {
        let tag = b[p];
        let q = p + 1;
        let d = (depth - 1) as nat;
        if tag == 104 && q + 1 <= b.len() {
            lemma_terms_end_bounds(b, q + 1, b[q] as int, d);
        } else if tag == 105 && q + 4 <= b.len() {
            lemma_terms_end_bounds(b, q + 4, be32(b, q), d);
        } else if tag == 108 && q + 4 <= b.len() {
            lemma_terms_end_bounds(b, q + 4, be32(b, q), d);
            match terms_end(b, q + 4, be32(b, q), d) {
                Some(r) => lemma_term_end_bounds(b, r, d),
                None => {},
            }
        } else if tag == 116 && q + 4 <= b.len() {
            lemma_terms_end_bounds(b, q + 4, 2 * be32(b, q), d);
        } else if tag == 103 || tag == 88 || tag == 102 || tag == 89 || tag == 120 || tag == 101 {
            lemma_term_end_bounds(b, q, d);
        } else if (tag == 114 || tag == 90) && q + 2 <= b.len() {
            lemma_term_end_bounds(b, q + 2, d);
        } else if tag == 113 {
            lemma_terms_end_bounds(b, q, 3, d);
        } else if tag == 117 && q + 4 <= b.len() {
            lemma_terms_end_bounds(b, q + 4, 4 + be32(b, q), d);
        } else if tag == 112 && q + 29 <= b.len() {
            lemma_terms_end_bounds(b, q + 29, 4 + be32(b, q + 25), d);
        }
    }
}

/// Consecutive terms end within the bytes, no earlier than they start.
proof fn lemma_terms_end_bounds(b: Seq<u8>, p: int, count: int, depth: nat)
    ensures
        terms_end(b, p, count, depth) matches Some(x) ==> (p <= x <= b.len() || (count <= 0 && x == p)),
    decreases depth, count,
{
    if count > 0 {
        lemma_term_end_bounds(b, p, depth);
        match term_end(b, p, depth) {
            Some(r) => lemma_terms_end_bounds(b, r, count - 1, depth),
            None => {},
        }
    }
}

fn scan_term(b: &[u8], p: usize, depth: u32) -> (r: Option<usize>)
    ensures
        match term_end(b@, p as int, depth as nat) {
            Some(x) => r == Some(x as usize),
            None => r is None,
        },
    decreases depth, 0int,
{
    proof {
        lemma_term_end_bounds(b@, p as int, depth as nat);
    }
    if depth == 0 || p >= b.len() {
        return None;
    }
    let tag = b[p];
    let q = p + 1;
    let n = b.len();
    if tag == 97 {
        skip_exec(b, q, 1)
    } else if tag == 98 {
        skip_exec(b, q, 4)
    } else if tag == 70 {
        skip_exec(b, q, 8)
    } else if tag == 99 {
        skip_exec(b, q, 31)
    } else if tag == 106 {
        Some(q)
    } else if tag == 115 || tag == 119 {
        if q < n {
            skip_exec(b, q + 1, b[q] as u64)
        } else {
            None
        }
    } else if tag == 100 || tag == 118 || tag == 107 {
        if n - q >= 2 {
            skip_exec(b, q + 2, read_be16(b, q))
        } else {
            None
        }
    } else if tag == 109 {
        if n - q >= 4 {
            skip_exec(b, q + 4, read_be32(b, q))
        } else {
            None
        }
    } else if tag == 110 {
        if n - q >= 2 {
            skip_exec(b, q + 2, b[q] as u64)
        } else {
            None
        }
    } else if tag == 111 {
        if n - q >= 5 {
            skip_exec(b, q + 5, read_be32(b, q))
        } else {
            None
        }
    } else if tag == 104 {
        if q < n {
            scan_terms(b, q + 1, b[q] as u64, depth - 1)
        } else {
            None
        }
    } else if tag == 105 {
        if n - q >= 4 {
            scan_terms(b, q + 4, read_be32(b, q), depth - 1)
        } else {
            None
        }
    } else if tag == 108 {
        if n - q >= 4 {
            let c = read_be32(b, q);
            proof {
                lemma_terms_end_bounds(b@, q + 4, c as int, (depth - 1) as nat);
            }
            match scan_terms(b, q + 4, c, depth - 1) {
                Some(r) => scan_term(b, r, depth - 1),
                None => None,
            }
        } else {
            None
        }
    } else if tag == 103 || tag == 88 || tag == 102 || tag == 89 || tag == 120 || tag == 101 {
        proof {
            lemma_term_end_bounds(b@, q as int, (depth - 1) as nat);
        }
        match scan_term(b, q, depth - 1) {
            Some(r) => {
                let k: u64 = if tag == 103 {
                    9
                } else if tag == 88 {
                    12
                } else if tag == 102 {
                    5
                } else if tag == 89 {
                    8
                } else if tag == 120 {
                    12
                } else {
                    5
                };
                skip_exec(b, r, k)
            },
            None => None,
        }
    } else if tag == 114 || tag == 90 {
        if n - q >= 2 {
            proof {
                lemma_term_end_bounds(b@, q + 2, (depth - 1) as nat);
            }
            let ids = read_be16(b, q);
            match scan_term(b, q + 2, depth - 1) {
                Some(r) => {
                    let k: u64 = if tag == 114 {
                        1
                    } else {
                        4
                    };
                    skip_exec(b, r, k + 4 * ids)
                },
                None => None,
            }
        } else {
            None
        }
    } else if tag == 113 {
        scan_terms(b, q, 3, depth - 1)
    } else if tag == 117 {
        if n - q >= 4 {
            scan_terms(b, q + 4, 4 + read_be32(b, q), depth - 1)
        } else {
            None
        }
    } else if tag == 112 {
        if n - q >= 29 {
            scan_terms(b, q + 29, 4 + read_be32(b, q + 25), depth - 1)
        } else {
            None
        }
    } else if tag == 77 {
        if n - q >= 5 {
            let size = read_be32(b, q);
            let bits = b[q + 4];
            if size == 0 || (1 <= bits && bits <= 8) {
                skip_exec(b, q + 5, size)
            } else {
                None
            }
        } else {
            None
        }
    } else if tag == 116 {
        if n - q >= 4 {
            scan_terms(b, q + 4, 2 * read_be32(b, q), depth - 1)
        } else {
            None
        }
    } else {
        None
    }
}

/// Where `count` consecutive terms from `p` end (see [`terms_end`]).
fn scan_terms(b: &[u8], p: usize, count: u64, depth: u32) -> (r: Option<usize>)
    ensures
        match terms_end(b@, p as int, count as int, depth as nat) {
            Some(x) => r == Some(x as usize),
            None => r is None,
        },
    decreases depth, count,
{
    proof {
        lemma_terms_end_bounds(b@, p as int, count as int, depth as nat);
    }
    let n = b.len();
    let mut pos = p;
    let mut k = count;
    while k > 0
        invariant
            n == b@.len(),
            k <= count,
            p <= pos,
            terms_end(b@, p as int, count as int, depth as nat) == terms_end(
                b@,
                pos as int,
                k as int,
                depth as nat,
            ),
        decreases k,
    {
        proof {
            lemma_term_end_bounds(b@, pos as int, depth as nat);
        }
        match scan_term(b, pos, depth) {
            Some(r) => {
                pos = r;
            },
            None => {
                return None;
            },
        }
        k = k - 1;
    }
    Some(pos)
}

/// Whether the decoder reads `bytes` without failing (see [`etf_readable`]).
pub fn readable(bytes: &[u8]) -> (r: bool)
    ensures
        r == etf_readable(bytes@),
{
    if bytes.len() < 2 || bytes[0] != 131 {
        return true;
    }
    if bytes[1] == 68 || bytes[1] == 80 {
        return false;
    }
    scan_term(bytes, 1, MAX_DEPTH).is_some()
}

/// Converts a decoded `eetf::Term` into the library's term, variant for variant.
#[verifier::external_body]
fn term_from_eetf(t: Term) -> EtfTerm {
    match t {
        Term::Atom(a) => EtfTerm::Atom(a.name),
        Term::FixInteger(i) => EtfTerm::FixInteger(i.value),
        Term::BigInteger(b) => EtfTerm::BigInteger(b.value.to_string()),
        Term::Float(f) => EtfTerm::Float(f),
        Term::Binary(b) => EtfTerm::Binary(b.bytes),
        Term::List(l) => EtfTerm::List(l.elements.into_iter().map(term_from_eetf).collect()),
        Term::Map(m) => EtfTerm::Dict(m.entries.into_iter().map(|(k, v)| (term_from_eetf(k), term_from_eetf(v))).collect()),
        _ => EtfTerm::Other,
    }
}

/// Converts the library's term into an `eetf::Term`, variant for variant.
#[verifier::external_body]
fn term_to_eetf(t: &EtfTerm) -> Term
    requires
        encodable(t@),
{
    match t {
        EtfTerm::Atom(a) => Atom::from(a.as_str()).into(),
        EtfTerm::FixInteger(i) => FixInteger::from(*i).into(),
        EtfTerm::BigInteger(s) => BigInteger { value: s.parse().unwrap() }.into(),
        EtfTerm::Float(f) => f.clone().into(),
        EtfTerm::Binary(b) => Binary::from(b.as_slice()).into(),
        EtfTerm::List(l) => List::from(l.iter().map(term_to_eetf).collect::<Vec<_>>()).into(),
        EtfTerm::Dict(m) => eetf::Map::from(m.iter().map(entry_to_eetf).collect::<Vec<_>>()).into(),
        // Not reached: `encodable` leaves `Other` out.
        EtfTerm::Other => List::nil().into(),
    }
}

/// Converts a map entry of the library's terms into one of `eetf::Term`s.
#[verifier::external_body]
fn entry_to_eetf(e: &(EtfTerm, EtfTerm)) -> (Term, Term)
    requires
        encodable(e.0@),
        encodable(e.1@),
{
    (term_to_eetf(&e.0), term_to_eetf(&e.1))
}

/// `eetf::Term::decode` on a byte buffer. Claims that the call reads, from the
/// same bytes, the same term each time (named by `etf_decode`), and fails
/// exactly where `etf_decode` has no term. The bytes must be ones the decoder
/// reads without reaching an unimplemented case or exhausting memory or stack
/// (see [`etf_readable`]).
#[verifier::external_body]
pub(crate) fn decode_term(bytes: &[u8]) -> (r: Option<EtfTerm>)
    requires
        etf_readable(bytes@),
    ensures
        r is Some <==> etf_decode(bytes@) is Some,
        r matches Some(t) ==> etf_decode(bytes@) == Some(t@),
{
    Term::decode(Cursor::new(bytes)).ok().map(term_from_eetf)
}

/// `eetf::Term::encode` into a fresh buffer. Claims that the bytes written are
/// a function of the term (named by `etf_encode`); the terms admitted are those
/// the encoder accepts without error (atom names of at most 0xFFFF bytes,
/// integers it can size).
#[verifier::external_body]
pub(crate) fn encode_term(t: &EtfTerm) -> (r: Vec<u8>)
    requires
        encodable(t@),
    ensures
        r@ == etf_encode(t@),
{
    let mut buf: Vec<u8> = Vec::with_capacity(1024);
    term_to_eetf(t).encode(&mut buf).unwrap();
    buf
}

/// Copies an `eetf::Float` (its derived `Clone`, which copies the number).
#[verifier::external_body]
pub(crate) fn clone_float(f: &eetf::Float) -> (r: eetf::Float)
    ensures
        r == *f,
{
    f.clone()
}

} // verus!
