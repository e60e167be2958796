//! Laws that relate the encoder, the decoder and the link extractor.
use vstd::prelude::*;
use crate::decode::{decode_entries, decode_items, decode_json, is_reserved};
use crate::encode::{bytes_shape, encode_entries, encode_ipld, encode_items, is_float_text, link_shape};
use crate::extract::{ipld_links, items_links, json_links, list_links, mapping_links, object_links};
use crate::ipld::IpldV;
use crate::json::JsonV;
use crate::reserved::{base64_bytes, base64_text, cid_bytes_text, cid_text_bytes, slash};

verus! {

/// Whether every part of `v` is written by the encoder in a form that the
/// decoder reads back as that part: floats are float texts, the base64 text
/// of each byte string decodes to it, each link has a CID text that parses
/// back to the same binary form, and no map starts with the reserved key.
pub open spec fn round_trips(v: IpldV) -> bool
    decreases v,
{
    match v {
        IpldV::Float(t) => is_float_text(t),
        IpldV::Bytes(b) => base64_bytes(base64_text(b)) == Some(b),
        IpldV::Link(b) => cid_bytes_text(b) matches Some(t) && cid_text_bytes(t) == Some(b),
        IpldV::List(vs) => list_round_trips(vs),
        IpldV::Mapping(kvs) => (kvs.len() == 0 || kvs[0].0 != slash()) && mapping_round_trips(kvs),
        _ => true,
    }
}

pub open spec fn list_round_trips(vs: Seq<IpldV>) -> bool
    decreases vs,
{
    if vs.len() == 0 {
        true
    } else {
        list_round_trips(vs.drop_last()) && round_trips(vs.last())
    }
}

pub open spec fn mapping_round_trips(kvs: Seq<(Seq<char>, IpldV)>) -> bool
    decreases kvs,
{
    if kvs.len() == 0 {
        true
    } else {
        mapping_round_trips(kvs.drop_last()) && round_trips(kvs.last().1)
    }
}

/// Round trip: decoding the JSON tree that the encoder writes for `v` gives
/// back `v`.
pub proof fn lemma_round_trip(v: IpldV)
    requires
        round_trips(v),
    ensures
        encode_ipld(v) is Ok,
        decode_json(encode_ipld(v)->Ok_0) == Ok::<IpldV, Seq<char>>(v),
    decreases v,
{
    match v {
        IpldV::Bytes(b) => {
            let t = bytes_shape(base64_text(b));
            assert(is_reserved(t->Object_0));
        },
        IpldV::Link(b) => {
            let t = link_shape(cid_bytes_text(b)->Some_0);
            assert(is_reserved(t->Object_0));
        },
        IpldV::List(vs) => {
            lemma_round_trip_items(vs);
        },
        IpldV::Mapping(kvs) => {
            lemma_round_trip_entries(kvs);
            let es = encode_entries(kvs)->Ok_0;
            if kvs.len() > 0 {
                assert(es[0].0 == kvs[0].0);
            }
            assert(!is_reserved(es));
        },
        _ => {},
    }
}

proof fn lemma_round_trip_items(vs: Seq<IpldV>)
    requires
        list_round_trips(vs),
    ensures
        encode_items(vs) is Ok,
        decode_items(encode_items(vs)->Ok_0) == Ok::<Seq<IpldV>, Seq<char>>(vs),
    decreases vs,
{
    if vs.len() > 0 {
        lemma_round_trip_items(vs.drop_last());
        lemma_round_trip(vs.last());
        let items = encode_items(vs)->Ok_0;
        assert(items.drop_last() =~= encode_items(vs.drop_last())->Ok_0);
        assert(vs.drop_last().push(vs.last()) =~= vs);
    } else {
        assert(decode_items(Seq::<JsonV>::empty()) == Ok::<Seq<IpldV>, Seq<char>>(Seq::empty()));
        assert(vs =~= Seq::<IpldV>::empty());
    }
}

proof fn lemma_round_trip_entries(kvs: Seq<(Seq<char>, IpldV)>)
    requires
        mapping_round_trips(kvs),
    ensures
        encode_entries(kvs) is Ok,
        encode_entries(kvs)->Ok_0.len() == kvs.len(),
        forall|i: int|
            0 <= i < kvs.len() ==> #[trigger] encode_entries(kvs)->Ok_0[i].0 == kvs[i].0,
        decode_entries(encode_entries(kvs)->Ok_0) == Ok::<Seq<(Seq<char>, IpldV)>, Seq<char>>(
            kvs,
        ),
    decreases kvs,
{
    if kvs.len() > 0 {
        lemma_round_trip_entries(kvs.drop_last());
        lemma_round_trip(kvs.last().1);
        let es = encode_entries(kvs)->Ok_0;
        let prev = encode_entries(kvs.drop_last())->Ok_0;
        assert(es.drop_last() =~= prev);
        assert forall|i: int| 0 <= i < kvs.len() implies #[trigger] es[i].0 == kvs[i].0 by {
            if i < kvs.len() - 1 {
                assert(es[i] == prev[i]);
                assert(kvs.drop_last()[i] == kvs[i]);
            }
        }
        assert(kvs.drop_last().push((kvs.last().0, kvs.last().1)) =~= kvs);
    } else {
        assert(decode_entries(Seq::<(Seq<char>, JsonV)>::empty()) == Ok::<
            Seq<(Seq<char>, IpldV)>,
            Seq<char>,
        >(Seq::empty()));
        assert(kvs =~= Seq::<(Seq<char>, IpldV)>::empty());
    }
}

/// The links of a decoding: those of the value, or the decoder's error.
pub open spec fn links_of(r: Result<IpldV, Seq<char>>) -> Result<Seq<Seq<u8>>, Seq<char>> {
    match r {
        Ok(v) => Ok(ipld_links(v)),
        Err(m) => Err(m),
    }
}

/// The link extractor collects exactly the links of the decoded value, in
/// document order, duplicates included, and fails exactly where decoding
/// fails, with the same message.
pub proof fn lemma_links_of_decoded(j: JsonV)
    ensures
        json_links(j) == links_of(decode_json(j)),
    decreases j,
{
    match j {
        JsonV::Array(items) => {
            lemma_links_of_decoded_items(items);
        },
        JsonV::Object(es) => {
            if !is_reserved(es) {
                lemma_links_of_decoded_entries(es);
            }
        },
        _ => {},
    }
}

proof fn lemma_links_of_decoded_items(items: Seq<JsonV>)
    ensures
        items_links(items) == match decode_items(items) {
            Ok(vs) => Ok(list_links(vs)),
            Err(m) => Err::<Seq<Seq<u8>>, Seq<char>>(m),
        },
    decreases items,
{
    if items.len() > 0 {
        lemma_links_of_decoded_items(items.drop_last());
        lemma_links_of_decoded(items.last());
        if let Ok(vs) = decode_items(items) {
            let prev = decode_items(items.drop_last())->Ok_0;
            assert(vs.drop_last() =~= prev);
        }
    }
}

proof fn lemma_links_of_decoded_entries(es: Seq<(Seq<char>, JsonV)>)
    ensures
        object_links(es) == match decode_entries(es) {
            Ok(kvs) => Ok(mapping_links(kvs)),
            Err(m) => Err::<Seq<Seq<u8>>, Seq<char>>(m),
        },
    decreases es,
{
    if es.len() > 0 {
        lemma_links_of_decoded_entries(es.drop_last());
        lemma_links_of_decoded(es.last().1);
        if let Ok(kvs) = decode_entries(es) {
            let prev = decode_entries(es.drop_last())->Ok_0;
            assert(kvs.drop_last() =~= prev);
        }
    }
}

proof fn lemma_decoded_keys(es: Seq<(Seq<char>, JsonV)>)
    ensures
        decode_entries(es) matches Ok(kvs) ==> kvs.len() == es.len() && forall|i: int|
            0 <= i < es.len() ==> #[trigger] kvs[i].0 == es[i].0,
    decreases es,
{
    if es.len() > 0 {
        lemma_decoded_keys(es.drop_last());
        if let Ok(kvs) = decode_entries(es) {
            let prev = decode_entries(es.drop_last())->Ok_0;
            assert(kvs.drop_last() =~= prev);
            assert forall|i: int| 0 <= i < es.len() implies #[trigger] kvs[i].0 == es[i].0 by {
                if i < es.len() - 1 {
                    assert(kvs[i] == prev[i]);
                    assert(es.drop_last()[i] == es[i]);
                }
            }
        }
    }
}

/// An object whose first key is not `"/"` is ordinary data: when it decodes,
/// it is a map with the same keys in the same order.
pub proof fn lemma_ordinary_map(es: Seq<(Seq<char>, JsonV)>)
    requires
        es.len() == 0 || es[0].0 != slash(),
    ensures
        decode_json(JsonV::Object(es)) matches Ok(v) ==> v matches IpldV::Mapping(kvs)
            && kvs.len() == es.len() && forall|i: int|
            0 <= i < es.len() ==> #[trigger] kvs[i].0 == es[i].0,
{
    lemma_decoded_keys(es);
}

/// An object whose first key is `"/"` and that has further keys never decodes.
pub proof fn lemma_reserved_key_alone(es: Seq<(Seq<char>, JsonV)>)
    requires
        es.len() > 1,
        es[0].0 == slash(),
    ensures
        decode_json(JsonV::Object(es)) is Err,
{
}

/// `{"/": text}` decodes to the link that the text names, and fails where the
/// text names no CID.
pub proof fn lemma_link_shape(t: Seq<char>)
    ensures
        decode_json(link_shape(t)) == match cid_text_bytes(t) {
            Some(b) => Ok(IpldV::Link(b)),
            None => Err::<IpldV, Seq<char>>(crate::reserved::invalid_cid_message(t)),
        },
{
    assert(is_reserved(link_shape(t)->Object_0));
}

/// `{"/": {"bytes": text}}` decodes to the bytes that the base64 text stands
/// for, and fails where it is not base64.
pub proof fn lemma_bytes_shape(t: Seq<char>)
    ensures
        decode_json(bytes_shape(t)) == match base64_bytes(t) {
            Some(b) => Ok(IpldV::Bytes(b)),
            None => Err::<IpldV, Seq<char>>(crate::reserved::invalid_base_message(t)),
        },
{
    assert(is_reserved(bytes_shape(t)->Object_0));
}

} // verus!
