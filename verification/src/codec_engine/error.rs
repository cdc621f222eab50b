//! The closed set of errors that the codec reports.

use vstd::prelude::*;

verus! {

/// An error of the codec.
#[derive(Debug, PartialEq, Eq)]
pub enum CodecError {
    /// A transport failure. The codec itself never reports it.
    Io,
    /// Bytes that were to become an owned string are not UTF-8.
    StringUtf8,
    /// Bytes that were to be read as a string slice are not UTF-8.
    StrUtf8,
    /// More data is needed before a message can be read.
    IncompleteMessage,
    /// The message breaks the wire format; the text says how.
    InvalidFormat(String),
    /// A mandatory field is absent; the tag says which.
    MissingField(u32),
    /// A field holds a value that its type does not admit.
    InvalidValue { tag: u32, value: String },
    /// The message type is none that the codec decodes.
    UnsupportedMessageType(String),
    /// The announced checksum (`expected`) is not the computed one (`actual`).
    ChecksumMismatch { expected: u8, actual: u8 },
    /// A field that was to hold a decimal number does not.
    ParseDecimal,
    /// A field that was to hold an integer does not.
    ParseInt,
    /// Every buffer of a pool is handed out.
    BufferPoolExhausted,
    /// A buffer of `len` bytes was to be advanced by `advance` bytes.
    BufferAdvance { len: usize, advance: usize },
}

/// A `CodecError` with its texts as sequences of characters.
pub enum CodecErrorView {
    Io,
    StringUtf8,
    StrUtf8,
    IncompleteMessage,
    InvalidFormat(Seq<char>),
    MissingField(u32),
    InvalidValue { tag: u32, value: Seq<char> },
    UnsupportedMessageType(Seq<char>),
    ChecksumMismatch { expected: u8, actual: u8 },
    ParseDecimal,
    ParseInt,
    BufferPoolExhausted,
    BufferAdvance { len: usize, advance: usize },
}

impl View for CodecError {
    type V = CodecErrorView;

    open spec fn view(&self) -> CodecErrorView {
        match *self {
            CodecError::Io => CodecErrorView::Io,
            CodecError::StringUtf8 => CodecErrorView::StringUtf8,
            CodecError::StrUtf8 => CodecErrorView::StrUtf8,
            CodecError::IncompleteMessage => CodecErrorView::IncompleteMessage,
            CodecError::InvalidFormat(detail) => CodecErrorView::InvalidFormat(detail@),
            CodecError::MissingField(tag) => CodecErrorView::MissingField(tag),
            CodecError::InvalidValue { tag, value } => CodecErrorView::InvalidValue {
                tag,
                value: value@,
            },
            CodecError::UnsupportedMessageType(msg_type) => CodecErrorView::UnsupportedMessageType(
                msg_type@,
            ),
            CodecError::ChecksumMismatch { expected, actual } => CodecErrorView::ChecksumMismatch {
                expected,
                actual,
            },
            CodecError::ParseDecimal => CodecErrorView::ParseDecimal,
            CodecError::ParseInt => CodecErrorView::ParseInt,
            CodecError::BufferPoolExhausted => CodecErrorView::BufferPoolExhausted,
            CodecError::BufferAdvance { len, advance } => CodecErrorView::BufferAdvance {
                len,
                advance,
            },
        }
    }
}

} // verus!
