//! The encoder: from IPLD values to JSON trees and compact JSON text. Links
//! and bytes are written as the reserved shapes; floats must be finite.
use vstd::prelude::*;
use vstd::utf8::encode_utf8;
use crate::error::EncodeError;
use crate::ipld::{lemma_view_entries, lemma_view_items, Ipld, IpldV};
use crate::json::{json_text, write_json, Json, JsonV};
use crate::reserved::{base64_encode, base64_text, bytes_key, cid_bytes_text, cid_to_text, slash};

verus! {

pub open spec fn is_digit(c: char) -> bool {
    '0' <= c <= '9'
}

/// The end of the run of digits in `s` that starts at `i`.
pub open spec fn digits_end(s: Seq<char>, i: int) -> int
    decreases s.len() - i,
{
    if 0 <= i < s.len() && is_digit(s[i]) {
        digits_end(s, i + 1)
    } else {
        i
    }
}

/// A JSON number literal with a fraction or an exponent (or both):
/// `-? (0 | [1-9][0-9]*) (. [0-9]+)? ([eE] [+-]? [0-9]+)?`. This is how a
/// finite float is written; infinities and NaN have no such text.
pub open spec fn is_float_text(s: Seq<char>) -> bool {
    let a = if s.len() > 0 && s[0] == '-' {
        1int
    } else {
        0int
    };
    let b = digits_end(s, a);
    let has_fraction = b < s.len() && s[b] == '.';
    let c = if has_fraction {
        digits_end(s, b + 1)
    } else {
        b
    };
    let has_exponent = c < s.len() && (s[c] == 'e' || s[c] == 'E');
    let d = if !has_exponent {
        c
    } else if c + 1 < s.len() && (s[c + 1] == '+' || s[c + 1] == '-') {
        c + 2
    } else {
        c + 1
    };
    let e = if has_exponent {
        digits_end(s, d)
    } else {
        d
    };
    &&& b > a
    &&& (s[a] == '0' ==> b == a + 1)
    &&& (has_fraction ==> c > b + 1)
    &&& (has_exponent ==> e > d)
    &&& e == s.len()
    &&& (has_fraction || has_exponent)
}

fn skip_digits(s: &str, n: usize, i: usize) -> (r: usize)
    requires
        n == s@.len(),
        i <= n,
    ensures
        r == digits_end(s@, i as int),
        i <= r <= n,
{
    let mut k: usize = i;
    while k < n && is_ascii_digit(s.get_char(k))
        invariant
            n == s@.len(),
            i <= k <= n,
            digits_end(s@, k as int) == digits_end(s@, i as int),
        decreases n - k,
    {
        k = k + 1;
    }
    k
}

fn is_ascii_digit(c: char) -> (r: bool)
    ensures
        r == is_digit(c),
{
    '0' <= c && c <= '9'
}

/// Whether `t` is the text of a finite float.
pub fn float_text_ok(t: &str) -> (r: bool)
    ensures
        r == is_float_text(t@),
{
    let n = t.unicode_len();
    let a: usize = if n > 0 && t.get_char(0) == '-' {
        1
    } else {
        0
    };
    let b = skip_digits(t, n, a);
    if b == a {
        return false;
    }
    if t.get_char(a) == '0' && b != a + 1 {
        return false;
    }
    let has_fraction = b < n && t.get_char(b) == '.';
    let c = if has_fraction {
        let c = skip_digits(t, n, b + 1);
        if c == b + 1 {
            return false;
        }
        c
    } else {
        b
    };
    let has_exponent = c < n && (t.get_char(c) == 'e' || t.get_char(c) == 'E');
    let d = if !has_exponent {
        c
    } else if c + 1 < n && (t.get_char(c + 1) == '+' || t.get_char(c + 1) == '-') {
        c + 2
    } else {
        c + 1
    };
    let e = if has_exponent {
        let e = skip_digits(t, n, d);
        if e == d {
            return false;
        }
        e
    } else {
        d
    };
    e == n && (has_fraction || has_exponent)
}

pub open spec fn non_finite_message() -> Seq<char> {
    "Float must be a finite number, not Infinity or NaN"@
}

pub open spec fn invalid_link_message() -> Seq<char> {
    "Invalid CID"@
}

/// The reserved shape of a link: `{"/": text}`.
pub open spec fn link_shape(t: Seq<char>) -> JsonV {
    JsonV::Object(seq![(slash(), JsonV::String(t))])
}

/// The reserved shape of bytes: `{"/": {"bytes": text}}`.
pub open spec fn bytes_shape(t: Seq<char>) -> JsonV {
    JsonV::Object(seq![(slash(), JsonV::Object(seq![(bytes_key(), JsonV::String(t))]))])
}

/// The JSON tree that a value is written as, or the message of the first
/// error in document order.
pub open spec fn encode_ipld(v: IpldV) -> Result<JsonV, Seq<char>>
    decreases v,
{
    match v {
        IpldV::Null => Ok(JsonV::Null),
        IpldV::Bool(b) => Ok(JsonV::Bool(b)),
        IpldV::Integer(i) => Ok(JsonV::Integer(i)),
        IpldV::Float(t) => if is_float_text(t) {
            Ok(JsonV::Float(t))
        } else {
            Err(non_finite_message())
        },
        IpldV::String(s) => Ok(JsonV::String(s)),
        IpldV::Bytes(b) => Ok(bytes_shape(base64_text(b))),
        IpldV::Link(b) => match cid_bytes_text(b) {
            Some(t) => Ok(link_shape(t)),
            None => Err(invalid_link_message()),
        },
        IpldV::List(vs) => match encode_items(vs) {
            Ok(items) => Ok(JsonV::Array(items)),
            Err(m) => Err(m),
        },
        IpldV::Mapping(kvs) => match encode_entries(kvs) {
            Ok(entries) => Ok(JsonV::Object(entries)),
            Err(m) => Err(m),
        },
    }
}

pub open spec fn encode_items(vs: Seq<IpldV>) -> Result<Seq<JsonV>, Seq<char>>
    decreases vs,
{
    if vs.len() == 0 {
        Ok(Seq::empty())
    } else {
        match encode_items(vs.drop_last()) {
            Err(m) => Err(m),
            Ok(items) => match encode_ipld(vs.last()) {
                Ok(j) => Ok(items.push(j)),
                Err(m) => Err(m),
            },
        }
    }
}

pub open spec fn encode_entries(kvs: Seq<(Seq<char>, IpldV)>) -> Result<
    Seq<(Seq<char>, JsonV)>,
    Seq<char>,
>
    decreases kvs,
{
    if kvs.len() == 0 {
        Ok(Seq::empty())
    } else {
        match encode_entries(kvs.drop_last()) {
            Err(m) => Err(m),
            Ok(entries) => match encode_ipld(kvs.last().1) {
                Ok(j) => Ok(entries.push((kvs.last().0, j))),
                Err(m) => Err(m),
            },
        }
    }
}

proof fn lemma_items_error_stays(vs: Seq<IpldV>, n: int, m: int)
    requires
        0 <= n <= m <= vs.len(),
        encode_items(vs.take(n)) is Err,
    ensures
        encode_items(vs.take(m)) == encode_items(vs.take(n)),
    decreases m - n,
{
    if n < m {
        lemma_items_error_stays(vs, n, m - 1);
        assert(vs.take(m).drop_last() =~= vs.take(m - 1));
    }
}

proof fn lemma_entries_error_stays(kvs: Seq<(Seq<char>, IpldV)>, n: int, m: int)
    requires
        0 <= n <= m <= kvs.len(),
        encode_entries(kvs.take(n)) is Err,
    ensures
        encode_entries(kvs.take(m)) == encode_entries(kvs.take(n)),
    decreases m - n,
{
    if n < m {
        lemma_entries_error_stays(kvs, n, m - 1);
        assert(kvs.take(m).drop_last() =~= kvs.take(m - 1));
    }
}

pub open spec fn encoded(r: Result<Json, EncodeError>, spec_result: Result<JsonV, Seq<char>>) -> bool {
    match r {
        Ok(j) => spec_result == Ok::<JsonV, Seq<char>>(j@),
        Err(e) => spec_result == Err::<JsonV, Seq<char>>(e.text()),
    }
}

/// `{"/": x}` as a tree.
fn reserved_object(x: Json) -> (r: Json)
    ensures
        r@ == JsonV::Object(seq![(slash(), x@)]),
{
    proof {
        reveal_strlit("/");
        assert("/"@ =~= slash());
    }
    let r = Json::Object(vec![(String::from_str("/"), x)]);
    proof {
        let es = r->Object_0@;
        assert(es.drop_last() =~= Seq::<(String, Json)>::empty());
        assert(Json::view_entries(es.drop_last()) =~= Seq::<(Seq<char>, JsonV)>::empty());
        assert(Json::view_entries(es) =~= seq![(slash(), x@)]);
    }
    r
}

/// Writes bytes as `{"/": {"bytes": base64}}`.
fn bytes_tree(b: &Vec<u8>) -> (r: Json)
    ensures
        r@ == bytes_shape(base64_text(b@)),
{
    proof {
        reveal_strlit("bytes");
        assert("bytes"@ =~= bytes_key());
    }
    let text = base64_encode(b.as_slice());
    let ghost tv = text@;
    let inner = Json::Object(vec![(String::from_str("bytes"), Json::String(text))]);
    proof {
        let es = inner->Object_0@;
        assert(es.drop_last() =~= Seq::<(String, Json)>::empty());
        assert(Json::view_entries(es.drop_last()) =~= Seq::<(Seq<char>, JsonV)>::empty());
        assert(es[0].0@ == bytes_key());
        assert(es[0].1@ == JsonV::String(tv));
        assert(Json::view_entries(es) =~= seq![(bytes_key(), JsonV::String(base64_text(b@)))]);
    }
    reserved_object(inner)
}

fn encode_message(text: &str) -> (r: EncodeError)
    ensures
        r.text() == text@,
{
    EncodeError::Message(String::from_str(text))
}

/// Turns a value into the JSON tree that is written for it.
pub fn encode_tree(v: &Ipld) -> (r: Result<Json, EncodeError>)
    ensures
        encoded(r, encode_ipld(v@)),
    decreases v,
{
    match v {
        Ipld::Null => Ok(Json::Null),
        Ipld::Bool(b) => Ok(Json::Bool(*b)),
        Ipld::Integer(i) => Ok(Json::Integer(*i)),
        Ipld::Float(t) => if float_text_ok(t.as_str()) {
            Ok(Json::Float(t.clone()))
        } else {
            Err(encode_message("Float must be a finite number, not Infinity or NaN"))
        },
        Ipld::String(s) => Ok(Json::String(s.clone())),
        Ipld::Bytes(b) => Ok(bytes_tree(b)),
        Ipld::Link(b) => match cid_to_text(b.as_slice()) {
            Some(t) => Ok(reserved_object(Json::String(t))),
            None => Err(encode_message("Invalid CID")),
        },
        Ipld::List(vs) => {
            proof {
                lemma_view_items(vs@);
                crate::json::lemma_view_items(Seq::<Json>::empty());
            }
            let ghost views = Ipld::view_items(vs@);
            let mut out: Vec<Json> = Vec::new();
            let mut i: usize = 0;
            while i < vs.len()
                invariant
                    i <= vs.len(),
                    *v is List,
                    v->List_0 == *vs,
                    views == Ipld::view_items(vs@),
                    views.len() == vs@.len(),
                    forall|k: int| 0 <= k < vs@.len() ==> #[trigger] views[k] == vs@[k]@,
                    encode_items(views.take(i as int)) == Ok::<Seq<JsonV>, Seq<char>>(
                        Json::view_items(out@),
                    ),
                decreases vs.len() - i,
            {
                proof {
                    assert(decreases_to!(v => v->List_0@[i as int]));
                }
                let ghost before = out@;
                match encode_tree(&vs[i]) {
                    Ok(j) => {
                        out.push(j);
                        proof {
                            assert(out@.drop_last() =~= before);
                            assert(views.take(i + 1).drop_last() =~= views.take(i as int));
                        }
                    },
                    Err(e) => {
                        proof {
                            assert(views.take(i + 1).drop_last() =~= views.take(i as int));
                            lemma_items_error_stays(views, i + 1, views.len() as int);
                            assert(views.take(views.len() as int) =~= views);
                        }
                        return Err(e);
                    },
                }
                i = i + 1;
            }
            proof {
                assert(views.take(vs.len() as int) =~= views);
            }
            Ok(Json::Array(out))
        },
        Ipld::Mapping(kvs) => {
            proof {
                lemma_view_entries(kvs@);
            }
            let ghost views = Ipld::view_entries(kvs@);
            let mut out: Vec<(String, Json)> = Vec::new();
            let mut i: usize = 0;
            while i < kvs.len()
                invariant
                    i <= kvs.len(),
                    *v is Mapping,
                    v->Mapping_0 == *kvs,
                    views == Ipld::view_entries(kvs@),
                    views.len() == kvs@.len(),
                    forall|k: int|
                        0 <= k < kvs@.len() ==> #[trigger] views[k] == (kvs@[k].0@, kvs@[k].1@),
                    encode_entries(views.take(i as int)) == Ok::<
                        Seq<(Seq<char>, JsonV)>,
                        Seq<char>,
                    >(Json::view_entries(out@)),
                decreases kvs.len() - i,
            {
                proof {
                    assert(decreases_to!(v => v->Mapping_0@[i as int].1));
                }
                let ghost before = out@;
                match encode_tree(&kvs[i].1) {
                    Ok(j) => {
                        out.push((kvs[i].0.clone(), j));
                        proof {
                            assert(out@.drop_last() =~= before);
                            assert(views.take(i + 1).drop_last() =~= views.take(i as int));
                        }
                    },
                    Err(e) => {
                        proof {
                            assert(views.take(i + 1).drop_last() =~= views.take(i as int));
                            lemma_entries_error_stays(views, i + 1, views.len() as int);
                            assert(views.take(views.len() as int) =~= views);
                        }
                        return Err(e);
                    },
                }
                i = i + 1;
            }
            proof {
                assert(views.take(kvs.len() as int) =~= views);
            }
            Ok(Json::Object(out))
        },
    }
}

/// The compact JSON text that a value encodes to, or the error message.
pub open spec fn encode_text(v: IpldV) -> Result<Seq<char>, Seq<char>> {
    match encode_ipld(v) {
        Ok(t) => Ok(json_text(t)),
        Err(m) => Err(m),
    }
}

/// A DAG-JSON encoder that writes compact JSON text into a buffer.
pub struct Serializer {
    out: String,
}

impl View for Serializer {
    type V = Seq<char>;

    closed spec fn view(&self) -> Seq<char> {
        self.out@
    }
}

impl Serializer {
    /// A serializer that appends to `out`.
    pub fn new(out: String) -> (r: Self)
        ensures
            r@ == out@,
    {
        Serializer { out }
    }

    /// Appends the text of `v`; on an error nothing is written.
    pub fn serialize(&mut self, v: &Ipld) -> (r: Result<(), EncodeError>)
        ensures
            match encode_text(v@) {
                Ok(t) => r is Ok && final(self)@ == old(self)@ + t,
                Err(m) => r is Err && r->Err_0.text() == m && final(self)@ == old(self)@,
            },
    {
        match encode_tree(v) {
            Ok(t) => {
                write_json(&t, &mut self.out);
                Ok(())
            },
            Err(e) => Err(e),
        }
    }

    /// The text written so far.
    pub fn into_inner(self) -> (r: String)
        ensures
            r@ == self@,
    {
        self.out
    }

    /// JSON is a human-readable format.
    pub fn is_human_readable(&self) -> (r: bool)
        ensures
            r,
    {
        true
    }
}

/// Encodes a value as DAG-JSON: its compact text in UTF-8.
pub fn to_vec(v: &Ipld) -> (r: Result<Vec<u8>, EncodeError>)
    ensures
        match encode_text(v@) {
            Ok(t) => r is Ok && r->Ok_0@ == encode_utf8(t),
            Err(m) => r is Err && r->Err_0.text() == m,
        },
{
    let mut serializer = Serializer::new(String::new());
    match serializer.serialize(v) {
        Ok(()) => {
            let text = serializer.into_inner();
            proof {
                assert(text@ =~= Seq::<char>::empty() + text@);
            }
            Ok(text.as_str().as_bytes_vec())
        },
        Err(e) => Err(e),
    }
}

} // verus!
