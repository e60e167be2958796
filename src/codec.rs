//! The DAG-JSON codec: encode, decode and link extraction on bytes.
use vstd::prelude::*;
use vstd::utf8::encode_utf8;
use crate::decode::{decode_document, from_slice};
use crate::encode::{encode_text, to_vec};
use crate::error::{CodecError, DecodeError};
use crate::extract::{extract_links, json_links, links_view};
use crate::ipld::Ipld;
use crate::json::{json_document, read_json};

verus! {

/// The multicodec code of DAG-JSON.
pub const DAG_JSON_CODE: u64 = 0x0129;

/// The DAG-JSON codec.
#[derive(Copy, Clone, Debug, PartialEq, Eq, Structural)]
pub struct DagJsonCodec;

impl DagJsonCodec {
    /// The multicodec code of this codec.
    pub fn code() -> (r: u64)
        ensures
            r == DAG_JSON_CODE,
    {
        DAG_JSON_CODE
    }

    /// Encodes a value into DAG-JSON bytes.
    pub fn encode_to_vec(data: &Ipld) -> (r: Result<Vec<u8>, CodecError>)
        ensures
            match encode_text(data@) {
                Ok(t) => r matches Ok(b) && b@ == encode_utf8(t),
                Err(m) => r matches Err(CodecError::Encode(e)) && e.text() == m,
            },
    {
        match to_vec(data) {
            Ok(b) => Ok(b),
            Err(e) => Err(CodecError::Encode(e)),
        }
    }

    /// Decodes a value from DAG-JSON bytes.
    pub fn decode_from_slice(data: &[u8]) -> (r: Result<Ipld, CodecError>)
        ensures
            match decode_document(json_document(data@)) {
                Ok(v) => r matches Ok(x) && x@ == v,
                Err(e) => r matches Err(CodecError::Decode(d)) && d@ == e,
            },
    {
        match from_slice(data) {
            Ok(v) => Ok(v),
            Err(e) => Err(CodecError::Decode(e)),
        }
    }

    /// The links of a DAG-JSON document, in document order. What follows the
    /// first value is not looked at.
    pub fn links(data: &[u8]) -> (r: Result<Vec<Vec<u8>>, CodecError>)
        ensures
            match json_document(data@) {
                Err(m) => r matches Err(CodecError::UnderlyingFormat(x)) && x@ == m,
                Ok((t, _)) => match json_links(t) {
                    Ok(ls) => r matches Ok(v) && links_view(v@) == ls,
                    Err(m) => r matches Err(CodecError::Decode(DecodeError::Message(x))) && x@ == m,
                },
            },
    {
        match read_json(data) {
            Err(m) => Err(CodecError::UnderlyingFormat(m)),
            Ok((t, _)) => match extract_links(&t) {
                Ok(v) => Ok(v),
                Err(e) => Err(CodecError::Decode(e)),
            },
        }
    }
}

} // verus!
