//! The errors of encoding and decoding.
use vstd::prelude::*;

verus! {

/// An error while encoding.
#[derive(Debug)]
pub enum EncodeError {
    Message(String),
}

/// An error while decoding. `TrailingData` is kept apart from the other
/// failures: the value itself was read, but more than whitespace followed it.
#[derive(Debug)]
pub enum DecodeError {
    Message(String),
    TrailingData,
}

/// Encode and decode errors combined.
#[derive(Debug)]
pub enum CodecError {
    /// A decoding error.
    Decode(DecodeError),
    /// An encoding error.
    Encode(EncodeError),
    /// An error of the JSON reader that does not come from this layer.
    UnderlyingFormat(String),
}

/// The mathematical model of a [`DecodeError`].
pub ghost enum DecodeErrorV {
    Message(Seq<char>),
    TrailingData,
}

impl View for DecodeError {
    type V = DecodeErrorV;

    open spec fn view(&self) -> DecodeErrorV {
        match self {
            DecodeError::Message(m) => DecodeErrorV::Message(m@),
            DecodeError::TrailingData => DecodeErrorV::TrailingData,
        }
    }
}

impl EncodeError {
    pub open spec fn text(&self) -> Seq<char> {
        match self {
            EncodeError::Message(m) => m@,
        }
    }

    /// The error as text.
    pub fn message(&self) -> (r: String)
        ensures
            r@ == self.text(),
    {
        match self {
            EncodeError::Message(m) => m.clone(),
        }
    }
}

impl DecodeError {
    pub open spec fn text(&self) -> Seq<char> {
        match self {
            DecodeError::Message(m) => m@,
            DecodeError::TrailingData => "trailing data"@,
        }
    }

    /// The error as text.
    pub fn message(&self) -> (r: String)
        ensures
            r@ == self.text(),
    {
        match self {
            DecodeError::Message(m) => m.clone(),
            DecodeError::TrailingData => String::from_str("trailing data"),
        }
    }
}

impl CodecError {
    pub open spec fn text(&self) -> Seq<char> {
        match self {
            CodecError::Decode(e) => "decode error: "@ + e.text(),
            CodecError::Encode(e) => "encode error: "@ + e.text(),
            CodecError::UnderlyingFormat(m) => "serde_json error: "@ + m@,
        }
    }

    /// The error as text, prefixed with where it arose.
    pub fn message(&self) -> (r: String)
        ensures
            r@ == self.text(),
    {
        match self {
            CodecError::Decode(e) => {
                let mut r = String::from_str("decode error: ");
                let inner = e.message();
                r.append(inner.as_str());
                r
            },
            CodecError::Encode(e) => {
                let mut r = String::from_str("encode error: ");
                let inner = e.message();
                r.append(inner.as_str());
                r
            },
            CodecError::UnderlyingFormat(m) => {
                let mut r = String::from_str("serde_json error: ");
                r.append(m.as_str());
                r
            },
        }
    }
}

impl From<DecodeError> for CodecError {
    fn from(error: DecodeError) -> (r: CodecError)
        ensures
            r == CodecError::Decode(error),
    {
        CodecError::Decode(error)
    }
}

impl vstd::std_specs::convert::FromSpecImpl<DecodeError> for CodecError {
    open spec fn obeys_from_spec() -> bool {
        true
    }

    open spec fn from_spec(error: DecodeError) -> CodecError {
        CodecError::Decode(error)
    }
}

impl From<EncodeError> for CodecError {
    fn from(error: EncodeError) -> (r: CodecError)
        ensures
            r == CodecError::Encode(error),
    {
        CodecError::Encode(error)
    }
}

impl vstd::std_specs::convert::FromSpecImpl<EncodeError> for CodecError {
    open spec fn obeys_from_spec() -> bool {
        true
    }

    open spec fn from_spec(error: EncodeError) -> CodecError {
        CodecError::Encode(error)
    }
}

} // verus!
