//! The decoder: from the JSON tree to IPLD values, with the two reserved
//! shapes recognised wherever they stand.
use vstd::prelude::*;
use crate::error::{DecodeError, DecodeErrorV};
use crate::ipld::{Ipld, IpldV};
use crate::json::{json_document, lemma_view_entries, lemma_view_items, read_json, Json, JsonV};
use crate::reserved::{key_is, parse_reserved, reserved_shape, slash, ReservedKeyValue};

verus! {

pub open spec fn shape_message() -> Seq<char> {
    "Expected a CID or bytes under the reserved key"@
}

pub open spec fn extra_keys_message() -> Seq<char> {
    "The reserved key must be the only key of its map"@
}

/// Decodes a map whose first key is `"/"`. The value is read first; only a
/// value that parses lets the remaining keys fail the map.
pub open spec fn decode_reserved(entries: Seq<(Seq<char>, JsonV)>) -> Result<IpldV, Seq<char>> {
    match reserved_shape(entries[0].1) {
        None => Err(shape_message()),
        Some(r) => match parse_reserved(r) {
            Err(m) => Err(m),
            Ok(v) => if entries.len() == 1 {
                Ok(v)
            } else {
                Err(extra_keys_message())
            },
        },
    }
}

/// Whether an object is a reserved shape: its first key is `"/"`.
pub open spec fn is_reserved(entries: Seq<(Seq<char>, JsonV)>) -> bool {
    entries.len() > 0 && entries[0].0 == slash()
}

/// The value that a JSON tree decodes to, or the message of the first error in
/// document order.
pub open spec fn decode_json(j: JsonV) -> Result<IpldV, Seq<char>>
    decreases j,
{
    match j {
        JsonV::Null => Ok(IpldV::Null),
        JsonV::Bool(b) => Ok(IpldV::Bool(b)),
        JsonV::Integer(i) => Ok(IpldV::Integer(i)),
        JsonV::Float(t) => Ok(IpldV::Float(t)),
        JsonV::String(s) => Ok(IpldV::String(s)),
        JsonV::Array(items) => match decode_items(items) {
            Ok(vs) => Ok(IpldV::List(vs)),
            Err(m) => Err(m),
        },
        JsonV::Object(entries) => if is_reserved(entries) {
            decode_reserved(entries)
        } else {
            match decode_entries(entries) {
                Ok(kvs) => Ok(IpldV::Mapping(kvs)),
                Err(m) => Err(m),
            }
        },
    }
}

pub open spec fn decode_items(items: Seq<JsonV>) -> Result<Seq<IpldV>, Seq<char>>
    decreases items,
{
    if items.len() == 0 {
        Ok(Seq::empty())
    } else {
        match decode_items(items.drop_last()) {
            Err(m) => Err(m),
            Ok(vs) => match decode_json(items.last()) {
                Ok(v) => Ok(vs.push(v)),
                Err(m) => Err(m),
            },
        }
    }
}

pub open spec fn decode_entries(entries: Seq<(Seq<char>, JsonV)>) -> Result<
    Seq<(Seq<char>, IpldV)>,
    Seq<char>,
>
    decreases entries,
{
    if entries.len() == 0 {
        Ok(Seq::empty())
    } else {
        match decode_entries(entries.drop_last()) {
            Err(m) => Err(m),
            Ok(kvs) => match decode_json(entries.last().1) {
                Ok(v) => Ok(kvs.push((entries.last().0, v))),
                Err(m) => Err(m),
            },
        }
    }
}

/// Once a prefix of the items fails, every longer prefix fails the same way.
proof fn lemma_items_error_stays(items: Seq<JsonV>, n: int, m: int)
    requires
        0 <= n <= m <= items.len(),
        decode_items(items.take(n)) is Err,
    ensures
        decode_items(items.take(m)) == decode_items(items.take(n)),
    decreases m - n,
{
    if n < m {
        lemma_items_error_stays(items, n, m - 1);
        assert(items.take(m).drop_last() =~= items.take(m - 1));
    }
}

proof fn lemma_entries_error_stays(entries: Seq<(Seq<char>, JsonV)>, n: int, m: int)
    requires
        0 <= n <= m <= entries.len(),
        decode_entries(entries.take(n)) is Err,
    ensures
        decode_entries(entries.take(m)) == decode_entries(entries.take(n)),
    decreases m - n,
{
    if n < m {
        lemma_entries_error_stays(entries, n, m - 1);
        assert(entries.take(m).drop_last() =~= entries.take(m - 1));
    }
}

pub open spec fn decoded(r: Result<Ipld, DecodeError>, spec_result: Result<IpldV, Seq<char>>) -> bool {
    match r {
        Ok(v) => spec_result == Ok::<IpldV, Seq<char>>(v@),
        Err(e) => e is Message && spec_result == Err::<IpldV, Seq<char>>(e.text()),
    }
}

fn message(text: &str) -> (r: DecodeError)
    ensures
        r is Message,
        r.text() == text@,
{
    DecodeError::Message(String::from_str(text))
}

/// Decodes a map whose first key is `"/"`.
pub(crate) fn decode_reserved_map(entries: &Vec<(String, Json)>) -> (r: Result<Ipld, DecodeError>)
    requires
        entries.len() > 0,
    ensures
        decoded(r, decode_reserved(Json::view_entries(entries@))),
{
    proof {
        lemma_view_entries(entries@);
    }
    match ReservedKeyValue::from_json(&entries[0].1) {
        None => Err(message("Expected a CID or bytes under the reserved key")),
        Some(reserved) => match reserved.parse() {
            Err(e) => Err(e),
            Ok(v) => if entries.len() == 1 {
                Ok(v)
            } else {
                Err(message("The reserved key must be the only key of its map"))
            },
        },
    }
}

/// Decodes a JSON tree into an IPLD value.
pub fn decode_tree(j: &Json) -> (r: Result<Ipld, DecodeError>)
    ensures
        decoded(r, decode_json(j@)),
    decreases j,
{
    match j {
        Json::Null => Ok(Ipld::Null),
        Json::Bool(b) => Ok(Ipld::Bool(*b)),
        Json::Integer(i) => Ok(Ipld::Integer(*i)),
        Json::Float(t) => Ok(Ipld::Float(t.clone())),
        Json::String(s) => Ok(Ipld::String(s.clone())),
        Json::Array(items) => {
            proof {
                lemma_view_items(items@);
            }
            let ghost views = Json::view_items(items@);
            let mut out: Vec<Ipld> = Vec::new();
            let mut i: usize = 0;
            while i < items.len()
                invariant
                    i <= items.len(),
                    *j is Array,
                    j->Array_0 == *items,
                    views == Json::view_items(items@),
                    views.len() == items@.len(),
                    forall|k: int| 0 <= k < items@.len() ==> #[trigger] views[k] == items@[k]@,
                    decode_items(views.take(i as int)) == Ok::<Seq<IpldV>, Seq<char>>(
                        Ipld::view_items(out@),
                    ),
                decreases items.len() - i,
            {
                proof {
                    assert(decreases_to!(j => j->Array_0@[i as int]));
                }
                let ghost before = out@;
                match decode_tree(&items[i]) {
                    Ok(v) => {
                        out.push(v);
                        proof {
                            assert(out@.drop_last() =~= before);
                            assert(views.take(i + 1).drop_last() =~= views.take(i as int));
                        }
                    },
                    Err(e) => {
                        proof {
                            assert(views.take(i + 1).drop_last() =~= views.take(i as int));
                            lemma_items_error_stays(views, i + 1, views.len() as int);
                            assert(views.take(views.len() as int) =~= views);
                        }
                        return Err(e);
                    },
                }
                i = i + 1;
            }
            proof {
                assert(views.take(items.len() as int) =~= views);
            }
            Ok(Ipld::List(out))
        },
        Json::Object(entries) => {
            proof {
                lemma_view_entries(entries@);
                reveal_strlit("/");
                assert("/"@ =~= slash());
            }
            if entries.len() > 0 && key_is(&entries[0].0, "/") {
                return decode_reserved_map(entries);
            }
            let ghost views = Json::view_entries(entries@);
            let mut out: Vec<(String, Ipld)> = Vec::new();
            let mut i: usize = 0;
            while i < entries.len()
                invariant
                    i <= entries.len(),
                    *j is Object,
                    j->Object_0 == *entries,
                    views == Json::view_entries(entries@),
                    !is_reserved(views),
                    views.len() == entries@.len(),
                    forall|k: int|
                        0 <= k < entries@.len() ==> #[trigger] views[k] == (
                        entries@[k].0@,
                        entries@[k].1@,
                    ),
                    decode_entries(views.take(i as int)) == Ok::<
                        Seq<(Seq<char>, IpldV)>,
                        Seq<char>,
                    >(Ipld::view_entries(out@)),
                decreases entries.len() - i,
            {
                proof {
                    assert(decreases_to!(j => j->Object_0@[i as int].1));
                }
                let ghost before = out@;
                match decode_tree(&entries[i].1) {
                    Ok(v) => {
                        out.push((entries[i].0.clone(), v));
                        proof {
                            assert(out@.drop_last() =~= before);
                            assert(views.take(i + 1).drop_last() =~= views.take(i as int));
                        }
                    },
                    Err(e) => {
                        proof {
                            assert(views.take(i + 1).drop_last() =~= views.take(i as int));
                            lemma_entries_error_stays(views, i + 1, views.len() as int);
                            assert(views.take(views.len() as int) =~= views);
                        }
                        return Err(e);
                    },
                }
                i = i + 1;
            }
            proof {
                assert(views.take(entries.len() as int) =~= views);
            }
            Ok(Ipld::Mapping(out))
        },
    }
}

/// What a document decodes to, given what the JSON reader made of it: the
/// reader's error, the decoder's error, `TrailingData` where the value decodes
/// but more than whitespace follows it, or the value.
pub open spec fn decode_document(doc: Result<(JsonV, bool), Seq<char>>) -> Result<
    IpldV,
    DecodeErrorV,
> {
    match doc {
        Err(m) => Err(DecodeErrorV::Message(m)),
        Ok((t, complete)) => match decode_json(t) {
            Err(m) => Err(DecodeErrorV::Message(m)),
            Ok(v) => if complete {
                Ok(v)
            } else {
                Err(DecodeErrorV::TrailingData)
            },
        },
    }
}

pub open spec fn result_view(r: Result<Ipld, DecodeError>) -> Result<IpldV, DecodeErrorV> {
    match r {
        Ok(v) => Ok(v@),
        Err(e) => Err(e@),
    }
}

/// Decodes the value that the JSON reader read; `complete` tells whether only
/// whitespace followed it.
pub fn decode_read(t: &Json, complete: bool) -> (r: Result<Ipld, DecodeError>)
    ensures
        result_view(r) == decode_document(Ok((t@, complete))),
{
    match decode_tree(t) {
        Err(e) => Err(e),
        Ok(v) => if complete {
            Ok(v)
        } else {
            Err(DecodeError::TrailingData)
        },
    }
}

/// Decodes a value from DAG-JSON bytes; bytes other than whitespace after the
/// value fail with `TrailingData`.
pub fn from_slice(b: &[u8]) -> (r: Result<Ipld, DecodeError>)
    ensures
        result_view(r) == decode_document(json_document(b@)),
{
    match read_json(b) {
        Err(m) => Err(DecodeError::Message(m)),
        Ok((t, complete)) => decode_read(&t, complete),
    }
}

pub open spec fn expected_cid_message() -> Seq<char> {
    "Expected a CID"@
}

pub open spec fn expected_bytes_message() -> Seq<char> {
    "Expected bytes"@
}

/// What a request for a CID gives: the binary form of a link, or an error.
pub open spec fn cid_request(j: JsonV) -> Result<Seq<u8>, Seq<char>> {
    match decode_json(j) {
        Ok(IpldV::Link(b)) => Ok(b),
        Ok(_) => Err(expected_cid_message()),
        Err(m) => Err(m),
    }
}

/// What a request for raw bytes gives.
pub open spec fn bytes_request(j: JsonV) -> Result<Seq<u8>, Seq<char>> {
    match decode_json(j) {
        Ok(IpldV::Bytes(b)) => Ok(b),
        Ok(_) => Err(expected_bytes_message()),
        Err(m) => Err(m),
    }
}

pub open spec fn bytes_result(r: Result<Vec<u8>, DecodeError>, spec_result: Result<Seq<u8>, Seq<char>>) -> bool {
    match r {
        Ok(b) => spec_result == Ok::<Seq<u8>, Seq<char>>(b@),
        Err(e) => e is Message && spec_result == Err::<Seq<u8>, Seq<char>>(e.text()),
    }
}

/// A DAG-JSON decoder over the tree that the JSON reader produced.
pub struct Deserializer {
    json: Json,
}

impl View for Deserializer {
    type V = JsonV;

    closed spec fn view(&self) -> JsonV {
        self.json@
    }
}

impl Deserializer {
    pub fn new(json: Json) -> (r: Self)
        ensures
            r@ == json@,
    {
        Deserializer { json }
    }

    /// Decodes whatever value is there.
    pub fn deserialize_any(self) -> (r: Result<Ipld, DecodeError>)
        ensures
            decoded(r, decode_json(self@)),
    {
        decode_tree(&self.json)
    }

    /// Decodes a link, handing out the binary form of its CID.
    pub fn deserialize_cid(self) -> (r: Result<Vec<u8>, DecodeError>)
        ensures
            bytes_result(r, cid_request(self@)),
    {
        match decode_tree(&self.json) {
            Ok(Ipld::Link(b)) => Ok(b),
            Ok(_) => Err(message("Expected a CID")),
            Err(e) => Err(e),
        }
    }

    /// Decodes the reserved bytes shape, handing out the bytes.
    pub fn deserialize_bytes(self) -> (r: Result<Vec<u8>, DecodeError>)
        ensures
            bytes_result(r, bytes_request(self@)),
    {
        match decode_tree(&self.json) {
            Ok(Ipld::Bytes(b)) => Ok(b),
            Ok(_) => Err(message("Expected bytes")),
            Err(e) => Err(e),
        }
    }

    /// JSON is a human-readable format.
    pub fn is_human_readable(&self) -> (r: bool)
        ensures
            r,
    {
        true
    }
}

} // verus!
