//! Gateway data: the key/value documents carried in the `d` field of frames,
//! and their conversion from and to Erlang terms.

use crate::term::{clone_float, EtfTerm, TermView};
use crate::text::{
    decimal, parse_bool, parse_u64, spec_decimal, spec_parse_bool, spec_parse_u64, str_eq,
};
use vstd::prelude::*;
use vstd::string::*;
use vstd::utf8::{decode_utf8, encode_utf8, valid_utf8};

verus! {

/// A value in a gateway document.
pub enum Value {
    String(String),
    Integer(i32),
    Bool(bool),
    BigInt(u64),
    Data(Data),
    Array(Vec<Value>),
    /// A floating-point number, carried as the decoder gave it.
    Float(eetf::Float),
    NoneType,
}

/// A gateway document: keys mapped to values. When a key occurs more than once,
/// the last occurrence is the one that counts, as with a map filled in order.
pub struct Data {
    pub d: Vec<(String, Value)>,
}

/// The mathematical value of a [`Value`].
pub enum ValueView {
    String(Seq<char>),
    Integer(i32),
    Bool(bool),
    BigInt(u64),
    Data(Map<Seq<char>, ValueView>),
    Array(Seq<ValueView>),
    Float(eetf::Float),
    NoneType,
}

/// The map that a list of entries describes, later entries overriding earlier
/// ones with the same key.
pub open spec fn fold_entries(s: Seq<(Seq<char>, ValueView)>) -> Map<Seq<char>, ValueView>
    decreases s.len(),
{
    if s.len() == 0 {
        Map::empty()
    } else {
        fold_entries(s.drop_last()).insert(s.last().0, s.last().1)
    }
}

impl Value {
    pub open spec fn vv(self) -> ValueView
        decreases self, 1int,
    {
        match self {
            Value::String(s) => ValueView::String(s@),
            Value::Integer(i) => ValueView::Integer(i),
            Value::Bool(b) => ValueView::Bool(b),
            Value::BigInt(u) => ValueView::BigInt(u),
            Value::Data(d) => ValueView::Data(fold_entries(data_entries_view(d))),
            Value::Array(v) => ValueView::Array(array_view(v)),
            Value::Float(f) => ValueView::Float(f),
            Value::NoneType => ValueView::NoneType,
        }
    }
}

/// The views of a document's entries, in order.
pub open spec fn data_entries_view(d: Data) -> Seq<(Seq<char>, ValueView)>
    decreases d, 0int,
{
    Seq::new(
        d.d@.len(),
        |i: int|
            if 0 <= i < d.d@.len() {
                (d.d@[i].0@, d.d@[i].1.vv())
            } else {
                (Seq::empty(), ValueView::NoneType)
            },
    )
}

/// The views of an array's elements, in order.
pub open spec fn array_view(v: Vec<Value>) -> Seq<ValueView>
    decreases v, 0int,
{
    Seq::new(
        v@.len(),
        |i: int|
            if 0 <= i < v@.len() {
                v@[i].vv()
            } else {
                ValueView::NoneType
            },
    )
}

impl View for Value {
    type V = ValueView;

    open spec fn view(&self) -> ValueView {
        self.vv()
    }
}

impl Data {
    /// The document as a map.
    pub open spec fn dv(self) -> Map<Seq<char>, ValueView> {
        fold_entries(data_entries_view(self))
    }
}

impl View for Data {
    type V = Map<Seq<char>, ValueView>;

    open spec fn view(&self) -> Map<Seq<char>, ValueView> {
        self.dv()
    }
}

/// A key absent from every entry is absent from the map.
proof fn lemma_fold_absent(s: Seq<(Seq<char>, ValueView)>, k: Seq<char>)
    requires
        forall|i: int| 0 <= i < s.len() ==> (#[trigger] s[i]).0 != k,
    ensures
        !fold_entries(s).contains_key(k),
    decreases s.len(),
{
    if s.len() > 0 {
        lemma_fold_absent(s.drop_last(), k);
    }
}

/// The map holds, for a key, the value of its last entry.
proof fn lemma_fold_last(s: Seq<(Seq<char>, ValueView)>, j: int)
    requires
        0 <= j < s.len(),
        forall|i: int| j < i < s.len() ==> (#[trigger] s[i]).0 != s[j].0,
    ensures
        fold_entries(s).contains_key(s[j].0),
        fold_entries(s)[s[j].0] == s[j].1,
    decreases s.len(),
{
    if j < s.len() - 1 {
        lemma_fold_last(s.drop_last(), j);
    }
}

/// Giving the last entry for a key a new value sets the key to that value.
proof fn lemma_fold_update(s: Seq<(Seq<char>, ValueView)>, j: int, e: (Seq<char>, ValueView))
    requires
        0 <= j < s.len(),
        s[j].0 == e.0,
        forall|i: int| j < i < s.len() ==> (#[trigger] s[i]).0 != e.0,
    ensures
        fold_entries(s.update(j, e)) == fold_entries(s).insert(e.0, e.1),
    decreases s.len(),
{
    let u = s.update(j, e);
    if j == s.len() - 1 {
        assert(u.drop_last() =~= s.drop_last());
        assert(fold_entries(u) =~= fold_entries(s).insert(e.0, e.1));
    } else {
        assert(u.drop_last() =~= s.drop_last().update(j, e));
        lemma_fold_update(s.drop_last(), j, e);
        assert(fold_entries(u) =~= fold_entries(s).insert(e.0, e.1));
    }
}

/// The view of `nil`.
pub open spec fn nil_chars() -> Seq<char> {
    seq!['n', 'i', 'l']
}

/// The key under which an atom `true`/`false` is read as a document.
pub open spec fn value_key() -> Seq<char> {
    seq!['v', 'a', 'l', 'u', 'e']
}

/// The value an atom is read as: `true`/`false` as booleans, `nil` as nothing,
/// any other name as a string.
pub open spec fn atom_value(name: Seq<char>) -> ValueView {
    match spec_parse_bool(name) {
        Some(b) => ValueView::Bool(b),
        None => if name == nil_chars() {
            ValueView::NoneType
        } else {
            ValueView::String(name)
        },
    }
}

/// The value a binary is read as: its UTF-8 text, where empty text and `nil`
/// read as nothing; no value where the bytes are not UTF-8.
pub open spec fn binary_value(b: Seq<u8>) -> Option<ValueView> {
    if !valid_utf8(b) {
        None
    } else if decode_utf8(b).len() == 0 || decode_utf8(b) == nil_chars() {
        Some(ValueView::NoneType)
    } else {
        Some(ValueView::String(decode_utf8(b)))
    }
}

/// The key a map key term is read as: an atom's name or a binary's UTF-8 text.
pub open spec fn key_of(t: TermView) -> Option<Seq<char>> {
    match t {
        TermView::Atom(name) => Some(name),
        TermView::Binary(b) => if valid_utf8(b) {
            Some(decode_utf8(b))
        } else {
            None
        },
        _ => None,
    }
}

/// The value a term is read as; `None` for a term that cannot be read.
pub open spec fn term_value(t: TermView) -> Option<ValueView>
    decreases t, 1int,
{
    match t {
        TermView::Atom(name) => Some(atom_value(name)),
        TermView::BigInteger(digits) => match spec_parse_u64(digits) {
            Some(v) => Some(ValueView::BigInt(v)),
            None => None,
        },
        TermView::FixInteger(i) => Some(ValueView::Integer(i)),
        TermView::List(l) => match terms_values(l) {
            Some(vs) => Some(ValueView::Array(vs)),
            None => None,
        },
        TermView::Dict(_) => match term_data(t) {
            Some(m) => Some(ValueView::Data(m)),
            None => None,
        },
        TermView::Binary(b) => binary_value(b),
        TermView::Float(f) => Some(ValueView::Float(f)),
        TermView::Other => None,
    }
}

/// The values a list of terms is read as, or `None` if one cannot be read.
pub open spec fn terms_values(s: Seq<TermView>) -> Option<Seq<ValueView>>
    decreases s, 0int,
{
    if s.len() == 0 {
        Some(Seq::empty())
    } else {
        match (terms_values(s.drop_last()), term_value(s.last())) {
            (Some(vs), Some(v)) => Some(vs.push(v)),
            _ => None,
        }
    }
}

/// The document a list of map entries is read as, or `None` if a key or a
/// value cannot be read.
pub open spec fn entries_data(es: Seq<(TermView, TermView)>) -> Option<Map<Seq<char>, ValueView>>
    decreases es, 0int,
{
    if es.len() == 0 {
        Some(Map::empty())
    } else {
        match (entries_data(es.drop_last()), key_of(es.last().0), term_value(es.last().1)) {
            (Some(m), Some(k), Some(v)) => Some(m.insert(k, v)),
            _ => None,
        }
    }
}

/// The document a term is read as: a map's entries; the first element of a
/// list; `nil` as the empty document; `true`/`false` as a document holding that
/// boolean under `value`. `None` for any other term.
pub open spec fn term_data(t: TermView) -> Option<Map<Seq<char>, ValueView>>
    decreases t, 0int,
{
    match t {
        TermView::Dict(es) => entries_data(es),
        TermView::List(l) => if l.len() > 0 {
            term_data(l[0])
        } else {
            None
        },
        TermView::Atom(name) => if name == nil_chars() {
            Some(Map::empty())
        } else {
            match spec_parse_bool(name) {
                Some(b) => Some(Map::empty().insert(value_key(), ValueView::Bool(b))),
                None => None,
            }
        },
        _ => None,
    }
}


/// The entries of a document, each taken by its view.
pub open spec fn ents(s: Seq<(String, Value)>) -> Seq<(Seq<char>, ValueView)> {
    Seq::new(s.len(), |i: int| (s[i].0@, s[i].1.vv()))
}

proof fn lemma_entries_view(d: Data)
    ensures
        data_entries_view(d) == ents(d.d@),
{
    assert(data_entries_view(d) =~= ents(d.d@));
}

proof fn lemma_ents_push(s: Seq<(String, Value)>, e: (String, Value))
    ensures
        fold_entries(ents(s.push(e))) == fold_entries(ents(s)).insert(e.0@, e.1.vv()),
{
    assert(ents(s.push(e)).drop_last() =~= ents(s));
}

/// `std::str::from_utf8`: claims success exactly on valid UTF-8, with the text
/// that the bytes encode.
#[verifier::external_body]
fn utf8_str(bytes: &[u8]) -> (r: Option<&str>)
    ensures
        r is Some <==> valid_utf8(bytes@),
        r matches Some(s) ==> s@ == decode_utf8(bytes@),
{
    std::str::from_utf8(bytes).ok()
}

/// If a prefix of a list of terms cannot be read, neither can the list.
proof fn lemma_terms_values_prefix(s: Seq<TermView>, j: int)
    requires
        0 <= j <= s.len(),
        terms_values(s.take(j)) is None,
    ensures
        terms_values(s) is None,
    decreases s.len(),
{
    if j < s.len() {
        assert(s.drop_last().take(j) =~= s.take(j));
        lemma_terms_values_prefix(s.drop_last(), j);
    } else {
        assert(s.take(j) =~= s);
    }
}

/// If a prefix of a list of entries cannot be read, neither can the list.
proof fn lemma_entries_data_prefix(s: Seq<(TermView, TermView)>, j: int)
    requires
        0 <= j <= s.len(),
        entries_data(s.take(j)) is None,
    ensures
        entries_data(s) is None,
    decreases s.len(),
{
    if j < s.len() {
        assert(s.drop_last().take(j) =~= s.take(j));
        lemma_entries_data_prefix(s.drop_last(), j);
    } else {
        assert(s.take(j) =~= s);
    }
}

impl Data {
    /// The document with no entries.
    pub fn empty() -> (r: Data)
        ensures
            r@ == Map::<Seq<char>, ValueView>::empty(),
    {
        let r = Data { d: Vec::new() };
        proof {
            lemma_entries_view(r);
            assert(ents(r.d@) =~= Seq::<(Seq<char>, ValueView)>::empty());
        }
        r
    }

    /// Sets `key` to `value`: the last entry for the key takes the value, or,
    /// when the key has no entry, a new entry is added at the end.
    pub fn insert(&mut self, key: String, value: Value)
        ensures
            final(self)@ == old(self)@.insert(key@, value@),
            final(self).d@.len() == old(self).d@.len() + if old(self)@.contains_key(key@) {
                0int
            } else {
                1int
            },
    {
        proof {
            lemma_entries_view(*self);
        }
        let ghost es = ents(self.d@);
        let mut i: usize = self.d.len();
        while i > 0
            invariant
                i <= self.d@.len(),
                es == ents(self.d@),
                *self == *old(self),
                forall|j: int| i <= j < es.len() ==> (#[trigger] es[j]).0 != key@,
            decreases i,
        {
            i = i - 1;
            if str_eq(self.d[i].0.as_str(), key.as_str()) {
                proof {
                    lemma_fold_last(es, i as int);
                    lemma_fold_update(es, i as int, (key@, value.vv()));
                    assert(ents(self.d@.update(i as int, (key, value))) =~= es.update(
                        i as int,
                        (key@, value.vv()),
                    ));
                }
                self.d.set(i, (key, value));
                proof {
                    lemma_entries_view(*self);
                    lemma_entries_view(*old(self));
                }
                return ;
            }
        }
        proof {
            lemma_fold_absent(es, key@);
            lemma_ents_push(self.d@, (key, value));
        }
        self.d.push((key, value));
        proof {
            lemma_entries_view(*self);
        }
    }

    /// Builds a document from key/value pairs; a later pair overrides an earlier
    /// one with the same key.
    pub fn new(hash: Vec<(&str, Value)>) -> (r: Data)
        ensures
            r@ == fold_entries(Seq::new(hash@.len(), |i: int| (hash@[i].0@, hash@[i].1.vv()))),
    {
        let ghost target = Seq::new(hash@.len(), |i: int| (hash@[i].0@, hash@[i].1.vv()));
        let ghost orig = hash@;
        let mut rest = hash;
        let mut rev: Vec<(&str, Value)> = Vec::new();
        while rest.len() > 0
            invariant
                rest@ + rev@.reverse() == orig,
            decreases rest.len(),
        {
            let e = rest.pop().unwrap();
            proof {
                assert(rest@.push(e) + rev@.reverse() =~= rest@ + rev@.push(e).reverse());
            }
            rev.push(e);
        }
        let mut r = Data::empty();
        let ghost n = orig.len();
        while rev.len() > 0
            invariant
                n == orig.len(),
                rev.len() <= n,
                orig == orig.take(n - rev.len()) + rev@.reverse(),
                target == Seq::new(orig.len(), |i: int| (orig[i].0@, orig[i].1.vv())),
                r@ == fold_entries(target.take(n - rev.len())),
            decreases rev.len(),
        {
            let ghost k = n - rev.len();
            let e = rev.pop().unwrap();
            proof {
                assert(orig[k] == e) by {
                    assert((orig.take(k) + rev@.push(e).reverse())[k] == e);
                }
                assert(orig =~= orig.take(k + 1) + rev@.reverse()) by {
                    assert(rev@.push(e).reverse() =~= seq![e] + rev@.reverse());
                }
                assert(target.take(k + 1).drop_last() =~= target.take(k));
            }
            let (key, value) = e;
            r.insert(String::from_str(key), value);
        }
        assert(target.take(n as int) =~= target);
        r
    }

    /// The value stored under `key`.
    pub fn get(&self, key: &str) -> (r: Option<&Value>)
        ensures
            r is Some <==> self@.contains_key(key@),
            r matches Some(v) ==> self@[key@] == v@,
    {
        proof {
            lemma_entries_view(*self);
        }
        let ghost es = ents(self.d@);
        let mut i: usize = self.d.len();
        while i > 0
            invariant
                i <= self.d.len(),
                es == ents(self.d@),
                self@ == fold_entries(es),
                forall|j: int| i <= j < es.len() ==> (#[trigger] es[j]).0 != key@,
            decreases i,
        {
            i = i - 1;
            if str_eq(self.d[i].0.as_str(), key) {
                proof {
                    lemma_fold_last(es, i as int);
                }
                return Some(&self.d[i].1);
            }
        }
        proof {
            lemma_fold_absent(es, key@);
        }
        None
    }
}


/// Reads a map key: an atom's name or a binary's UTF-8 text.
fn read_key(t: &EtfTerm) -> (r: Option<String>)
    ensures
        r is Some <==> key_of(t@) is Some,
        r matches Some(k) ==> key_of(t@) == Some(k@),
{
    match t {
        EtfTerm::Atom(name) => Some(name.clone()),
        EtfTerm::Binary(bytes) => match utf8_str(bytes.as_slice()) {
            Some(s) => Some(String::from_str(s)),
            None => None,
        },
        _ => None,
    }
}

/// Reads a binary as a value: its UTF-8 text, with empty text and `nil` as
/// nothing.
fn read_binary(bytes: &Vec<u8>) -> (r: Option<Value>)
    ensures
        r is Some <==> binary_value(bytes@) is Some,
        r matches Some(v) ==> binary_value(bytes@) == Some(v@),
{
    match utf8_str(bytes.as_slice()) {
        Some(s) => {
            proof {
                reveal_strlit("nil");
                assert("nil"@ =~= nil_chars());
            }
            if s.unicode_len() == 0 || str_eq(s, "nil") {
                Some(Value::NoneType)
            } else {
                Some(Value::String(String::from_str(s)))
            }
        },
        None => None,
    }
}

/// Reads an atom as a value: `true`/`false` as booleans, `nil` as nothing, any
/// other name as a string.
fn read_atom(name: &String) -> (r: Value)
    ensures
        r@ == atom_value(name@),
{
    match parse_bool(name.as_str()) {
        Some(b) => Value::Bool(b),
        None => {
            proof {
                reveal_strlit("nil");
                assert("nil"@ =~= nil_chars());
            }
            if str_eq(name.as_str(), "nil") {
                Value::NoneType
            } else {
                Value::String(name.clone())
            }
        },
    }
}

impl Default for Value {
    /// Nothing.
    fn default() -> (r: Value)
        ensures
            r@ == ValueView::NoneType,
    {
        Value::NoneType
    }
}

/// Reads a term as a value, or `None` where [`term_value`] has none.
pub fn read_value(t: &EtfTerm) -> (r: Option<Value>)
    ensures
        r is Some <==> term_value(t@) is Some,
        r matches Some(v) ==> term_value(t@) == Some(v@),
    decreases t, 1int,
{
    match t {
        EtfTerm::Atom(name) => Some(read_atom(name)),
        EtfTerm::BigInteger(digits) => match parse_u64(digits.as_str()) {
            Some(v) => Some(Value::BigInt(v)),
            None => None,
        },
        EtfTerm::FixInteger(i) => Some(Value::Integer(*i)),
        EtfTerm::List(l) => {
            let ghost lv = match t@ {
                TermView::List(x) => x,
                _ => Seq::empty(),
            };
            let mut out: Vec<Value> = Vec::new();
            let mut i: usize = 0;
            while i < l.len()
                invariant
                    t@ == TermView::List(lv),
                    *t == EtfTerm::List(*l),
                    lv.len() == l@.len(),
                    forall|j: int| 0 <= j < l@.len() ==> lv[j] == (#[trigger] l@[j]).tv(),
                    i <= l.len(),
                    out@.len() == i,
                    terms_values(lv.take(i as int)) == Some(array_view(out)),
                decreases l.len() - i,
            {
                proof {
                    assert(lv.take(i + 1).drop_last() =~= lv.take(i as int));
                    assert(decreases_to!(t => l@[i as int]));
                }
                match read_value(&l[i]) {
                    Some(v) => {
                        let ghost before = array_view(out);
                        out.push(v);
                        proof {
                            assert(array_view(out) =~= before.push(v@));
                        }
                    },
                    None => {
                        proof {
                            lemma_terms_values_prefix(lv, i + 1);
                        }
                        return None;
                    },
                }
                i = i + 1;
            }
            proof {
                assert(lv.take(i as int) =~= lv);
            }
            Some(Value::Array(out))
        },
        EtfTerm::Dict(_) => match read_data(t) {
            Some(d) => {
                proof {
                    lemma_entries_view(d);
                }
                Some(Value::Data(d))
            },
            None => None,
        },
        EtfTerm::Binary(bytes) => read_binary(bytes),
        EtfTerm::Float(f) => Some(Value::Float(clone_float(f))),
        EtfTerm::Other => None,
    }
}

/// Reads a term as a document, or `None` where [`term_data`] has none.
pub fn read_data(t: &EtfTerm) -> (r: Option<Data>)
    ensures
        r is Some <==> term_data(t@) is Some,
        r matches Some(d) ==> term_data(t@) == Some(d@),
    decreases t, 0int,
{
    match t {
        EtfTerm::Dict(es) => {
            let ghost ev = match t@ {
                TermView::Dict(x) => x,
                _ => Seq::empty(),
            };
            let mut out: Vec<(String, Value)> = Vec::new();
            let mut i: usize = 0;
            while i < es.len()
                invariant
                    t@ == TermView::Dict(ev),
                    *t == EtfTerm::Dict(*es),
                    ev.len() == es@.len(),
                    forall|j: int|
                        0 <= j < es@.len() ==> ev[j] == ((#[trigger] es@[j]).0.tv(), es@[j].1.tv()),
                    i <= es.len(),
                    entries_data(ev.take(i as int)) == Some(fold_entries(ents(out@))),
                decreases es.len() - i,
            {
                proof {
                    assert(ev.take(i + 1).drop_last() =~= ev.take(i as int));
                    assert(decreases_to!(t => es@[i as int].1));
                }
                let k = read_key(&es[i].0);
                let v = read_value(&es[i].1);
                match (k, v) {
                    (Some(k), Some(v)) => {
                        proof {
                            lemma_ents_push(out@, (k, v));
                        }
                        out.push((k, v));
                    },
                    _ => {
                        proof {
                            lemma_entries_data_prefix(ev, i + 1);
                        }
                        return None;
                    },
                }
                i = i + 1;
            }
            proof {
                assert(ev.take(i as int) =~= ev);
            }
            let d = Data { d: out };
            proof {
                lemma_entries_view(d);
            }
            Some(d)
        },
        EtfTerm::List(l) => {
            if l.len() > 0 {
                proof {
                    assert(decreases_to!(t => l@[0]));
                }
                read_data(&l[0])
            } else {
                None
            }
        },
        EtfTerm::Atom(name) => {
            proof {
                reveal_strlit("nil");
                assert("nil"@ =~= nil_chars());
            }
            if str_eq(name.as_str(), "nil") {
                Some(Data::empty())
            } else {
                match parse_bool(name.as_str()) {
                    Some(b) => {
                        let mut d = Data::empty();
                        proof {
                            reveal_strlit("value");
                            assert("value"@ =~= value_key());
                        }
                        d.insert(String::from_str("value"), Value::Bool(b));
                        Some(d)
                    },
                    None => None,
                }
            }
        },
        _ => None,
    }
}

impl Data {
    /// Reads a term as a value (see [`term_value`]). The term must be one that
    /// reads as a value: no value is given for another.
    pub fn from_term(term: &EtfTerm) -> (r: Value)
        requires
            term_value(term@) is Some,
        ensures
            term_value(term@) == Some(r@),
    {
        match read_value(term) {
            Some(v) => v,
            None => Value::NoneType,
        }
    }

    /// Reads a document out of a term: a map's entries (keys are atoms or UTF-8
    /// binaries), the first element of a list, `nil` as the empty document, and
    /// `true`/`false` as a document holding that boolean under `value`. The
    /// term must be one that reads as a document: no document is given for another.
    pub fn from_map(term: EtfTerm) -> (r: Data)
        requires
            term_data(term@) is Some,
        ensures
            term_data(term@) == Some(r@),
    {
        match read_data(&term) {
            Some(d) => d,
            None => Data::empty(),
        }
    }
}


/// The view of `true` or `false`.
pub open spec fn bool_chars(b: bool) -> Seq<char> {
    if b {
        seq!['t', 'r', 'u', 'e']
    } else {
        seq!['f', 'a', 'l', 's', 'e']
    }
}

/// The term a value is written as: strings as UTF-8 binaries, integers as
/// small integers, booleans as the atoms `true`/`false`, big integers by their
/// decimal digits, documents as maps with binary keys, arrays as lists,
/// nothing as the atom `nil`.
pub open spec fn value_term(v: Value) -> TermView
    decreases v, 1int,
{
    match v {
        Value::String(s) => TermView::Binary(encode_utf8(s@)),
        Value::Integer(i) => TermView::FixInteger(i),
        Value::Bool(b) => TermView::Atom(bool_chars(b)),
        Value::BigInt(u) => TermView::BigInteger(spec_decimal(u as nat)),
        Value::Data(d) => data_term(d),
        Value::Array(a) => TermView::List(
            Seq::new(
                a@.len(),
                |i: int|
                    if 0 <= i < a@.len() {
                        value_term(a@[i])
                    } else {
                        TermView::Other
                    },
            ),
        ),
        Value::Float(f) => TermView::Float(f),
        Value::NoneType => TermView::Atom(nil_chars()),
    }
}

/// The keys of a document's entries, in order.
pub open spec fn entry_keys(s: Seq<(String, Value)>) -> Seq<Seq<char>> {
    Seq::new(s.len(), |i: int| s[i].0@)
}

/// Whether a later entry has the same key as entry `j`, so that entry `j`
/// does not count.
pub open spec fn overridden(keys: Seq<Seq<char>>, j: int) -> bool {
    exists|k: int| j < k < keys.len() && keys[k] == keys[j]
}

/// The positions, in order, of the entries among the first `n` that no later
/// entry overrides.
pub open spec fn kept_upto(keys: Seq<Seq<char>>, n: int) -> Seq<int>
    decreases n,
{
    if n <= 0 {
        Seq::empty()
    } else if overridden(keys, n - 1) {
        kept_upto(keys, n - 1)
    } else {
        kept_upto(keys, n - 1).push(n - 1)
    }
}

/// The positions of the entries of a document that count: for each key, its
/// last entry, in order.
pub open spec fn kept(d: Data) -> Seq<int> {
    kept_upto(entry_keys(d.d@), d.d@.len() as int)
}

/// The map term a document is written as: one entry per key, for its last
/// entry, in order, keys as UTF-8 binaries.
pub open spec fn data_term(d: Data) -> TermView
    decreases d, 0int,
{
    TermView::Dict(
        Seq::new(
            kept(d).len(),
            |m: int|
                if 0 <= m < kept(d).len() && 0 <= kept(d)[m] < d.d@.len() {
                    (
                        TermView::Binary(encode_utf8(d.d@[kept(d)[m]].0@)),
                        value_term(d.d@[kept(d)[m]].1),
                    )
                } else {
                    (TermView::Other, TermView::Other)
                },
        ),
    )
}

/// The kept positions lie among the first `n`, grow strictly, are not
/// overridden, and hold every position among the first `n` that is not.
proof fn lemma_kept_upto(keys: Seq<Seq<char>>, n: int)
    requires
        0 <= n <= keys.len(),
    ensures
        forall|m: int|
            0 <= m < kept_upto(keys, n).len() ==> 0 <= #[trigger] kept_upto(keys, n)[m] < n
                && !overridden(keys, kept_upto(keys, n)[m]),
        forall|a: int, b: int|
            0 <= a < b < kept_upto(keys, n).len() ==> kept_upto(keys, n)[a] < kept_upto(keys, n)[b],
        forall|j: int| 0 <= j < n && !overridden(keys, j) ==> kept_upto(keys, n).contains(j),
    decreases n,
{
    if n > 0 {
        lemma_kept_upto(keys, n - 1);
        let r = kept_upto(keys, n - 1);
        if !overridden(keys, n - 1) {
            let r2 = r.push(n - 1);
            assert forall|j: int| 0 <= j < n && !overridden(keys, j) implies r2.contains(j) by {
                if j < n - 1 {
                    let m = choose|m: int| 0 <= m < r.len() && r[m] == j;
                    assert(r2[m] == j);
                } else {
                    assert(r2[r.len() as int] == j);
                }
            }
        }
    }
}

/// Some entry with a key is not overridden.
proof fn lemma_last_of_key(keys: Seq<Seq<char>>, j: int)
    requires
        0 <= j < keys.len(),
    ensures
        exists|l: int| j <= l < keys.len() && keys[l] == keys[j] && !overridden(keys, l),
    decreases keys.len() - j,
{
    if overridden(keys, j) {
        let k = choose|k: int| j < k < keys.len() && keys[k] == keys[j];
        lemma_last_of_key(keys, k);
        let l = choose|l: int| k <= l < keys.len() && keys[l] == keys[k] && !overridden(keys, l);
        assert(j <= l < keys.len() && keys[l] == keys[j] && !overridden(keys, l));
    } else {
        assert(j <= j < keys.len() && keys[j] == keys[j] && !overridden(keys, j));
    }
}

/// Keeping, for each key, only its last entry describes the same map.
proof fn lemma_fold_kept(t: Seq<(Seq<char>, ValueView)>, keys: Seq<Seq<char>>)
    requires
        keys.len() == t.len(),
        forall|i: int| 0 <= i < t.len() ==> (#[trigger] t[i]).0 == keys[i],
    ensures
        fold_entries(
            Seq::new(
                kept_upto(keys, t.len() as int).len(),
                |m: int| t[kept_upto(keys, t.len() as int)[m]],
            ),
        ) == fold_entries(t),
{
    let ks = kept_upto(keys, t.len() as int);
    let tk = Seq::new(ks.len(), |m: int| t[ks[m]]);
    lemma_kept_upto(keys, t.len() as int);
    assert forall|k: Seq<char>| #[trigger] fold_entries(tk).contains_key(k) == fold_entries(t).contains_key(k)
        && (fold_entries(t).contains_key(k) ==> fold_entries(tk)[k] == fold_entries(t)[k]) by {
        if exists|j: int| 0 <= j < t.len() && t[j].0 == k {
            let j = choose|j: int| 0 <= j < t.len() && t[j].0 == k;
            lemma_last_of_key(keys, j);
            let l = choose|l: int| j <= l < keys.len() && keys[l] == keys[j] && !overridden(keys, l);
            assert forall|i: int| l < i < t.len() implies (#[trigger] t[i]).0 != t[l].0 by {
                if t[i].0 == t[l].0 {
                    assert(keys[i] == keys[l]);
                }
            }
            lemma_fold_last(t, l);
            assert(ks.contains(l));
            let m = choose|m: int| 0 <= m < ks.len() && ks[m] == l;
            assert forall|i: int| m < i < tk.len() implies (#[trigger] tk[i]).0 != tk[m].0 by {
                assert(ks[m] < ks[i]);
                if tk[i].0 == tk[m].0 {
                    assert(keys[ks[i]] == keys[l]);
                    assert(l < ks[i] < keys.len());
                }
            }
            lemma_fold_last(tk, m);
        } else {
            lemma_fold_absent(t, k);
            assert forall|i: int| 0 <= i < tk.len() implies (#[trigger] tk[i]).0 != k by {
                assert(0 <= ks[i] < t.len());
            }
            lemma_fold_absent(tk, k);
        }
    }
    assert(fold_entries(tk) =~= fold_entries(t));
}

/// A string as a binary term of its UTF-8 bytes.
fn binary_of(s: &String) -> (r: EtfTerm)
    ensures
        r@ == TermView::Binary(encode_utf8(s@)),
{
    EtfTerm::Binary(s.as_str().as_bytes_vec())
}

impl Data {
    /// Writes a value as a term (see [`value_term`]).
    pub fn to_term(value: &Value) -> (r: EtfTerm)
        ensures
            r@ == value_term(*value),
        decreases value, 1int,
    {
        match value {
            Value::String(s) => binary_of(s),
            Value::Integer(i) => EtfTerm::FixInteger(*i),
            Value::Bool(b) => {
                proof {
                    reveal_strlit("true");
                    reveal_strlit("false");
                    assert("true"@ =~= bool_chars(true));
                    assert("false"@ =~= bool_chars(false));
                }
                if *b {
                    EtfTerm::Atom(String::from_str("true"))
                } else {
                    EtfTerm::Atom(String::from_str("false"))
                }
            },
            Value::BigInt(u) => EtfTerm::BigInteger(decimal(*u)),
            Value::Data(d) => {
                d.to_map()
            },
            Value::Array(a) => {
                let ghost target = value_term(*value);
                let mut out: Vec<EtfTerm> = Vec::new();
                let mut i: usize = 0;
                while i < a.len()
                    invariant
                        *value == Value::Array(*a),
                        i <= a.len(),
                        out.len() == i,
                        forall|j: int| 0 <= j < i ==> (#[trigger] out@[j]).tv() == value_term(a@[j]),
                    decreases a.len() - i,
                {
                    proof {
                        assert(decreases_to!(*value => value->Array_0));
                        assert(decreases_to!(value->Array_0 => value->Array_0@));
                        assert(decreases_to!(value->Array_0@ => value->Array_0@[i as int]));
                    }
                    let t = Data::to_term(&a[i]);
                    out.push(t);
                    i = i + 1;
                }
                let r = EtfTerm::List(out);
                proof {
                    let lv = match r@ {
                        TermView::List(x) => x,
                        _ => Seq::empty(),
                    };
                    let want = match value_term(*value) {
                        TermView::List(x) => x,
                        _ => Seq::empty(),
                    };
                    assert(lv =~= want);
                }
                r
            },
            Value::Float(f) => EtfTerm::Float(clone_float(f)),
            Value::NoneType => {
                proof {
                    reveal_strlit("nil");
                    assert("nil"@ =~= nil_chars());
                }
                EtfTerm::Atom(String::from_str("nil"))
            },
        }
    }

    /// Writes the document as a map term (see [`data_term`]): one entry per
    /// key, written from its last entry.
    pub fn to_map(&self) -> (r: EtfTerm)
        ensures
            r@ == data_term(*self),
        decreases self, 0int,
    {
        let ghost keys = entry_keys(self.d@);
        let ghost n = self.d@.len() as int;
        let mut out: Vec<(EtfTerm, EtfTerm)> = Vec::new();
        let mut i: usize = 0;
        proof {
            lemma_kept_upto(keys, n);
        }
        while i < self.d.len()
            invariant
                i <= self.d.len(),
                keys == entry_keys(self.d@),
                n == self.d@.len(),
                out.len() == kept_upto(keys, i as int).len(),
                forall|m: int|
                    0 <= m < out.len() ==> 0 <= kept_upto(keys, i as int)[m] < n
                        && (#[trigger] out@[m]).0.tv() == TermView::Binary(
                        encode_utf8(self.d@[kept_upto(keys, i as int)[m]].0@),
                    ) && out@[m].1.tv() == value_term(self.d@[kept_upto(keys, i as int)[m]].1),
            decreases self.d.len() - i,
        {
            let later = overridden_at(&self.d, i);
            if !later {
                let k = binary_of(&self.d[i].0);
                let v = Data::to_term(&self.d[i].1);
                out.push((k, v));
            }
            proof {
                let prev = kept_upto(keys, i as int);
                assert(kept_upto(keys, i + 1) == if overridden(keys, i as int) { prev } else { prev.push(i as int) });
            }
            i = i + 1;
        }
        let r = EtfTerm::Dict(out);
        proof {
            let ev = match r@ {
                TermView::Dict(x) => x,
                _ => Seq::empty(),
            };
            let want = match data_term(*self) {
                TermView::Dict(x) => x,
                _ => Seq::empty(),
            };
            assert(ev =~= want);
        }
        r
    }
}

/// Whether a later entry has the same key as entry `i` (see [`overridden`]).
fn overridden_at(es: &Vec<(String, Value)>, i: usize) -> (r: bool)
    requires
        i < es@.len(),
    ensures
        r == overridden(entry_keys(es@), i as int),
{
    let ghost keys = entry_keys(es@);
    let n = es.len();
    let mut k: usize = i + 1;
    while k < n
        invariant
            n == es@.len(),
            i < k <= es@.len(),
            keys == entry_keys(es@),
            forall|j: int| i < j < k ==> keys[j] != keys[i as int],
        decreases es.len() - k,
    {
        if str_eq(es[k].0.as_str(), es[i].0.as_str()) {
            assert(keys[k as int] == keys[i as int]);
            return true;
        }
        k = k + 1;
    }
    false
}


/// A value with no empty or `nil` string in it (such strings are written as
/// binaries that read back as nothing).
pub open spec fn value_plain(v: Value) -> bool
    decreases v, 1int,
{
    match v {
        Value::String(s) => s@.len() > 0 && s@ != nil_chars(),
        Value::Data(d) => data_plain(d),
        Value::Array(a) => forall|i: int| 0 <= i < a@.len() ==> value_plain(#[trigger] a@[i]),
        _ => true,
    }
}

/// A document with no empty or `nil` string among its values.
pub open spec fn data_plain(d: Data) -> bool
    decreases d, 0int,
{
    forall|i: int| 0 <= i < d.d@.len() ==> value_plain(#[trigger] d.d@[i].1)
}

proof fn lemma_ascii_atom(s: Seq<char>)
    requires
        s.len() <= 5,
        vstd::utf8::is_ascii_chars(s),
    ensures
        encode_utf8(s).len() <= 0xFFFF,
{
    vstd::utf8::is_ascii_chars_encode_utf8(s);
}

/// Every term the library writes for a value is accepted by the encoder.
pub proof fn lemma_value_term_encodable(v: Value)
    ensures
        crate::term::encodable(value_term(v)),
    decreases v, 1int,
{
    match v {
        Value::Bool(b) => {
            lemma_ascii_atom(bool_chars(b));
        },
        Value::NoneType => {
            lemma_ascii_atom(nil_chars());
        },
        Value::BigInt(u) => {
            crate::text::lemma_decimal_digits(u as nat);
        },
        Value::Data(d) => {
            lemma_data_term_encodable(d);
        },
        Value::Array(a) => {
            let l = match value_term(v) {
                TermView::List(x) => x,
                _ => Seq::empty(),
            };
            assert forall|i: int| 0 <= i < l.len() implies crate::term::encodable(#[trigger] l[i]) by {
                assert(decreases_to!(v => v->Array_0));
                assert(decreases_to!(v->Array_0 => v->Array_0@));
                assert(decreases_to!(v->Array_0@ => v->Array_0@[i]));
                lemma_value_term_encodable(a@[i]);
            }
        },
        _ => {},
    }
}

/// Every map term the library writes for a document is accepted by the encoder.
pub proof fn lemma_data_term_encodable(d: Data)
    ensures
        crate::term::encodable(data_term(d)),
    decreases d, 0int,
{
    let es = match data_term(d) {
        TermView::Dict(x) => x,
        _ => Seq::empty(),
    };
    lemma_kept_upto(entry_keys(d.d@), d.d@.len() as int);
    assert forall|m: int| 0 <= m < es.len() implies crate::term::encodable(#[trigger] es[m].0)
        && crate::term::encodable(es[m].1) by {
        let i = kept(d)[m];
        assert(decreases_to!(d => d.d));
        assert(decreases_to!(d.d => d.d@));
        assert(decreases_to!(d.d@ => d.d@[i]));
        assert(decreases_to!(d.d@[i] => d.d@[i].1));
        lemma_value_term_encodable(d.d@[i].1);
    }
}

proof fn lemma_terms_values_all(s: Seq<TermView>, t: Seq<ValueView>)
    requires
        s.len() == t.len(),
        forall|i: int| 0 <= i < s.len() ==> term_value(#[trigger] s[i]) == Some(t[i]),
    ensures
        terms_values(s) == Some(t),
    decreases s.len(),
{
    if s.len() > 0 {
        lemma_terms_values_all(s.drop_last(), t.drop_last());
        assert(t.drop_last().push(t.last()) =~= t);
    } else {
        assert(t =~= Seq::<ValueView>::empty());
    }
}

proof fn lemma_entries_data_all(es: Seq<(TermView, TermView)>, t: Seq<(Seq<char>, ValueView)>)
    requires
        es.len() == t.len(),
        forall|i: int|
            0 <= i < es.len() ==> key_of((#[trigger] es[i]).0) == Some(t[i].0) && term_value(
                es[i].1,
            ) == Some(t[i].1),
    ensures
        entries_data(es) == Some(fold_entries(t)),
    decreases es.len(),
{
    if es.len() > 0 {
        lemma_entries_data_all(es.drop_last(), t.drop_last());
    }
}

/// A value written as a term reads back as the same value, provided no string
/// in it is empty or `nil`.
pub proof fn lemma_value_roundtrip(v: Value)
    requires
        value_plain(v),
    ensures
        term_value(value_term(v)) == Some(v@),
    decreases v, 1int,
{
    broadcast use vstd::utf8::encode_utf8_valid_utf8, vstd::utf8::encode_utf8_decode_utf8;

    match v {
        Value::String(s) => {},
        Value::Bool(b) => {},
        Value::BigInt(u) => {
            crate::text::lemma_parse_decimal(u);
        },
        Value::Data(d) => {
            lemma_data_roundtrip(d);
        },
        Value::Array(a) => {
            let l = match value_term(v) {
                TermView::List(x) => x,
                _ => Seq::empty(),
            };
            assert forall|i: int| 0 <= i < l.len() implies term_value(#[trigger] l[i]) == Some(
                array_view(a)[i],
            ) by {
                assert(decreases_to!(v => v->Array_0));
                assert(decreases_to!(v->Array_0 => v->Array_0@));
                assert(decreases_to!(v->Array_0@ => v->Array_0@[i]));
                lemma_value_roundtrip(a@[i]);
            }
            lemma_terms_values_all(l, array_view(a));
        },
        _ => {},
    }
}

/// A document written as a map term reads back as the same document, provided
/// no string among its values is empty or `nil`.
pub proof fn lemma_data_roundtrip(d: Data)
    requires
        data_plain(d),
    ensures
        term_data(data_term(d)) == Some(d@),
    decreases d, 0int,
{
    broadcast use vstd::utf8::encode_utf8_valid_utf8, vstd::utf8::encode_utf8_decode_utf8;

    let es = match data_term(d) {
        TermView::Dict(x) => x,
        _ => Seq::empty(),
    };
    let t = data_entries_view(d);
    let keys = entry_keys(d.d@);
    let ks = kept(d);
    let tk = Seq::new(ks.len(), |m: int| t[ks[m]]);
    lemma_kept_upto(keys, d.d@.len() as int);
    assert forall|m: int| 0 <= m < es.len() implies key_of((#[trigger] es[m]).0) == Some(tk[m].0)
        && term_value(es[m].1) == Some(tk[m].1) by {
        let i = ks[m];
        assert(decreases_to!(d => d.d));
        assert(decreases_to!(d.d => d.d@));
        assert(decreases_to!(d.d@ => d.d@[i]));
        assert(decreases_to!(d.d@[i] => d.d@[i].1));
        lemma_value_roundtrip(d.d@[i].1);
    }
    lemma_entries_data_all(es, tk);
    lemma_fold_kept(t, keys);
    lemma_entries_view(d);
}


/// The bytes of a gateway frame carrying a document: its map term (see
/// [`data_term`]) in the external term format.
pub fn encode_frame(d: &Data) -> (r: Vec<u8>)
    ensures
        r@ == crate::term::etf_encode(data_term(*d)),
{
    let t = d.to_map();
    proof {
        lemma_data_term_encodable(*d);
    }
    crate::term::encode_term(&t)
}

} // verus!
