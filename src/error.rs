//! Errors surfaced by the library.
use vstd::prelude::*;

use crate::model::TrapCategory;

verus! {

/// The I/O error type of the standard library, carried opaquely.
#[verifier::external_type_specification]
#[verifier::external_body]
pub struct ExIoError(std::io::Error);

/// Why a sentence could not be turned into a reply value.
#[derive(Debug)]
pub enum DeserializerError {
    /// The sentence has no reply-kind word.
    MissingWord,
    /// The first word is none of `!done`, `!re`, `!trap`, `!fatal`.
    UnknownReplyKind(Vec<u8>),
    /// A word in attribute position is not of the form `=key=value`.
    MalformedAttribute(Vec<u8>),
    /// A required field is absent.
    MissingField(String),
    /// A field is present but its value does not fit the field's type.
    InvalidValue { key: String, value: Vec<u8> },
    /// Any other failure, described in words.
    Custom(String),
}

/// The mathematical content of a [`DeserializerError`].
pub ghost enum DeserializerErrorView {
    MissingWord,
    UnknownReplyKind(Seq<u8>),
    MalformedAttribute(Seq<u8>),
    MissingField(Seq<char>),
    InvalidValue(Seq<char>, Seq<u8>),
    Custom(Seq<char>),
}

impl View for DeserializerError {
    type V = DeserializerErrorView;

    open spec fn view(&self) -> DeserializerErrorView {
        match self {
            DeserializerError::MissingWord => DeserializerErrorView::MissingWord,
            DeserializerError::UnknownReplyKind(w) => DeserializerErrorView::UnknownReplyKind(w@),
            DeserializerError::MalformedAttribute(w) => DeserializerErrorView::MalformedAttribute(
                w@,
            ),
            DeserializerError::MissingField(k) => DeserializerErrorView::MissingField(k@),
            DeserializerError::InvalidValue { key, value } => DeserializerErrorView::InvalidValue(
                key@,
                value@,
            ),
            DeserializerError::Custom(m) => DeserializerErrorView::Custom(m@),
        }
    }
}

impl DeserializerError {
    /// An error described by a free-form message.
    pub fn custom(text: String) -> (r: Self)
        ensures
            r@ == DeserializerErrorView::Custom(text@),
    {
        DeserializerError::Custom(text)
    }
}

/// Errors of a connection or of a call.
#[derive(Debug)]
pub enum Error {
    /// The decoder needs more bytes.
    Incomplete,
    /// A malformed length prefix, or a word longer than allowed.
    Framing,
    /// The peer closed the connection.
    EndOfStream,
    /// The router answered the call with `!trap`.
    Remote { category: Option<TrapCategory>, message: String },
    /// The router sent `!fatal`, or the connection failed while the call was pending.
    Fatal(String),
    /// A reply to the call could not be decoded.
    Deserialize(DeserializerError),
    /// The call ended with `!done` and no reply.
    NoReply,
    /// The call table has no free tag left.
    NoFreeTag,
    /// The underlying socket failed.
    Io(std::io::Error),
}

} // verus!
