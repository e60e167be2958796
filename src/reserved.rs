//! The reserved key `"/"`: the two shapes that may stand under it, and their
//! parsing into a link or into bytes.
use vstd::prelude::*;
use crate::ipld::{Ipld, IpldV};
use crate::json::{Json, JsonV};
use crate::error::DecodeError;

verus! {

/// The binary form of the CID whose text is `s`, as the cid crate parses it.
pub uninterp spec fn cid_text_bytes(s: Seq<char>) -> Option<Seq<u8>>;

/// The canonical text of the CID whose binary form starts `b`, as the cid
/// crate reads and displays it.
pub uninterp spec fn cid_bytes_text(b: Seq<u8>) -> Option<Seq<char>>;

/// The unpadded RFC 4648 base64 text of `b`.
pub uninterp spec fn base64_text(b: Seq<u8>) -> Seq<char>;

/// The bytes that the unpadded RFC 4648 base64 text `s` stands for.
pub uninterp spec fn base64_bytes(s: Seq<char>) -> Option<Seq<u8>>;

pub open spec fn opt_bytes(r: Option<Vec<u8>>) -> Option<Seq<u8>> {
    match r {
        Some(b) => Some(b@),
        None => None,
    }
}

pub open spec fn opt_text(r: Option<String>) -> Option<Seq<char>> {
    match r {
        Some(t) => Some(t@),
        None => None,
    }
}

/// Relies on `cid::Cid::try_from(&str)` and `Cid::to_bytes`: parses CID text
/// and gives the CID's binary form.
#[verifier::external_body]
pub(crate) fn cid_from_text(s: &str) -> (r: Option<Vec<u8>>)
    ensures
        opt_bytes(r) == cid_text_bytes(s@),
{
    cid::Cid::try_from(s).ok().map(|c| c.to_bytes())
}

/// Relies on `cid::Cid::try_from(&[u8])` and the `Display` of `Cid`: reads a
/// CID from its binary form and gives its canonical text.
#[verifier::external_body]
pub(crate) fn cid_to_text(b: &[u8]) -> (r: Option<String>)
    ensures
        opt_text(r) == cid_bytes_text(b@),
{
    cid::Cid::try_from(b).ok().map(|c| c.to_string())
}

/// Relies on `multibase::Base::Base64.encode`: the unpadded RFC 4648 base64
/// text of `b`.
#[verifier::external_body]
pub(crate) fn base64_encode(b: &[u8]) -> (r: String)
    ensures
        r@ == base64_text(b@),
{
    cid::multibase::Base::Base64.encode(b)
}

/// Relies on `multibase::Base::Base64.decode`: the bytes, or `None` where the
/// text is not base64.
#[verifier::external_body]
pub(crate) fn base64_decode(s: &str) -> (r: Option<Vec<u8>>)
    ensures
        opt_bytes(r) == base64_bytes(s@),
{
    cid::multibase::Base::Base64.decode(s).ok()
}

/// The key `"/"`.
pub open spec fn slash() -> Seq<char> {
    seq!['/']
}

/// The key `"bytes"`.
pub open spec fn bytes_key() -> Seq<char> {
    seq!['b', 'y', 't', 'e', 's']
}

/// A value under the reserved key: a link's text, or `{"bytes": text}`.
#[derive(Debug)]
pub enum ReservedKeyValue {
    Cid(String),
    Bytes { bytes: String },
}

pub ghost enum ReservedV {
    Cid(Seq<char>),
    Bytes(Seq<char>),
}

impl View for ReservedKeyValue {
    type V = ReservedV;

    open spec fn view(&self) -> ReservedV {
        match self {
            ReservedKeyValue::Cid(t) => ReservedV::Cid(t@),
            ReservedKeyValue::Bytes { bytes } => ReservedV::Bytes(bytes@),
        }
    }
}

/// The shape of a value under the reserved key, if it has one of the two.
pub open spec fn reserved_shape(j: JsonV) -> Option<ReservedV> {
    match j {
        JsonV::String(t) => Some(ReservedV::Cid(t)),
        JsonV::Object(es) => if es.len() == 1 && es[0].0 == bytes_key() && es[0].1 is String {
            Some(ReservedV::Bytes(es[0].1->String_0))
        } else {
            None
        },
        _ => None,
    }
}

pub open spec fn invalid_cid_message(t: Seq<char>) -> Seq<char> {
    "Invalid CID `"@ + t + "`"@
}

pub open spec fn invalid_base_message(t: Seq<char>) -> Seq<char> {
    "Cannot base decode bytes `"@ + t + "`"@
}

/// What a reserved value parses to: a link, bytes, or the error message that
/// names the offending text.
pub open spec fn parse_reserved(r: ReservedV) -> Result<IpldV, Seq<char>> {
    match r {
        ReservedV::Cid(t) => match cid_text_bytes(t) {
            Some(b) => Ok(IpldV::Link(b)),
            None => Err(invalid_cid_message(t)),
        },
        ReservedV::Bytes(t) => match base64_bytes(t) {
            Some(b) => Ok(IpldV::Bytes(b)),
            None => Err(invalid_base_message(t)),
        },
    }
}

/// Whether `k` holds exactly the characters of `lit`.
pub(crate) fn key_is(k: &String, lit: &str) -> (r: bool)
    ensures
        r == (k@ == lit@),
{
    let l = String::from_str(lit);
    *k == l
}

fn message_naming(prefix: &str, t: &String) -> (r: DecodeError)
    ensures
        r == DecodeError::Message(r->Message_0),
        r->Message_0@ == prefix@ + t@ + "`"@,
{
    let mut m = String::from_str(prefix);
    m.append(t.as_str());
    m.append("`");
    DecodeError::Message(m)
}

impl ReservedKeyValue {
    /// Recognises the two reserved shapes.
    pub fn from_json(j: &Json) -> (r: Option<ReservedKeyValue>)
        ensures
            r is Some ==> reserved_shape(j@) == Some(r->Some_0@),
            r is None ==> reserved_shape(j@) is None,
    {
        proof {
            reveal_strlit("bytes");
            assert("bytes"@ =~= bytes_key());
        }
        match j {
            Json::String(t) => Some(ReservedKeyValue::Cid(t.clone())),
            Json::Object(es) => {
                proof {
                    crate::json::lemma_view_entries(es@);
                }
                if es.len() == 1 && key_is(&es[0].0, "bytes") {
                    match &es[0].1 {
                        Json::String(t) => Some(ReservedKeyValue::Bytes { bytes: t.clone() }),
                        _ => None,
                    }
                } else {
                    None
                }
            },
            _ => None,
        }
    }

    /// Parses the link text or the base64 text.
    pub fn parse(&self) -> (r: Result<Ipld, DecodeError>)
        ensures
            match r {
                Ok(v) => parse_reserved(self@) == Ok::<IpldV, Seq<char>>(v@),
                Err(e) => e is Message && parse_reserved(self@) == Err::<IpldV, Seq<char>>(
                    e.text(),
                ),
            },
    {
        match self {
            ReservedKeyValue::Cid(t) => match cid_from_text(t.as_str()) {
                Some(b) => Ok(Ipld::Link(b)),
                None => Err(message_naming("Invalid CID `", t)),
            },
            ReservedKeyValue::Bytes { bytes } => match base64_decode(bytes.as_str()) {
                Some(b) => Ok(Ipld::Bytes(b)),
                None => Err(message_naming("Cannot base decode bytes `", bytes)),
            },
        }
    }
}

} // verus!
