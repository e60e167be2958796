//! DAG-JSON: a JSON encoding of the IPLD data model, with two reserved object
//! shapes under the key `"/"` for links (CIDs) and raw bytes.
pub mod codec;
pub mod decode;
pub mod encode;
pub mod error;
pub mod extract;
pub mod ipld;
pub mod json;
pub mod laws;
pub mod reserved;

pub use crate::codec::{DagJsonCodec, DAG_JSON_CODE};
pub use crate::decode::{from_slice, Deserializer};
pub use crate::encode::{to_vec, Serializer};
pub use crate::error::{CodecError, DecodeError, EncodeError};
pub use crate::extract::ExtractLinks;
pub use crate::ipld::{Ipld, IpldV};
pub use crate::json::Json;
