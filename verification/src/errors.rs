//! What can go wrong, and of which kind each failure is.

use crate::data_types::NumberType;
use crate::text::{push_decimal, spec_decimal};
use vstd::prelude::*;
use vstd::string::*;

verus! {

/// The kinds of failure.
#[derive(Clone, Copy, Debug, PartialEq, Eq, Structural)]
pub enum ErrorKind {
    /// The data was written by a version of the format that this library does
    /// not read.
    Compatibility,
    /// The data is not what the format allows.
    Corruption,
    /// The data ends too early.
    InsufficientData,
    /// The caller passed something that the interface does not accept.
    InvalidArgument,
    /// Reading or writing the bytes failed. Nothing in this library does either:
    /// the kind is for the code around it that does.
    Io,
}

/// A failure of the codec, with what is needed to report it.
#[derive(Clone, Copy, Debug, PartialEq, Eq, Structural)]
pub enum PcoError {
    /// The stream ends before what is being read is complete. `available` is
    /// the number of bytes that were left where the reading began.
    InsufficientData { available: usize },
    /// The stream does not begin with the format's four magic bytes.
    MagicHeader,
    /// The header names a version of the format other than the one known.
    FormatVersion { version: u8 },
    /// The byte where a chunk's tag stands belongs to no kind of the registry.
    UnknownNumberType { byte: u8 },
    /// The chunk holds numbers of another kind than the caller asked for.
    NumberTypeMismatch { expected: NumberType, found: NumberType },
    /// A chunk declares that it holds no numbers.
    EmptyChunk,
    /// A chunk declares an order of delta encoding above the highest there is.
    DeltaOrder { declared: u8 },
    /// Another chunk follows where the stream had to end.
    ExtraChunk { found: NumberType },
    /// The chunk was asked for more after it had given its last number.
    ChunkFinished,
    /// The compression level is above the highest there is.
    CompressionLevel { level: usize },
    /// The order of delta encoding asked for is above the highest there is.
    DeltaEncodingOrder { order: usize },
}

impl PcoError {
    /// The kind of a failure.
    pub open spec fn spec_kind(self) -> ErrorKind {
        match self {
            PcoError::InsufficientData { .. } => ErrorKind::InsufficientData,
            PcoError::MagicHeader => ErrorKind::Corruption,
            PcoError::FormatVersion { .. } => ErrorKind::Compatibility,
            PcoError::UnknownNumberType { .. } => ErrorKind::Corruption,
            PcoError::NumberTypeMismatch { .. } => ErrorKind::InvalidArgument,
            PcoError::EmptyChunk => ErrorKind::Corruption,
            PcoError::DeltaOrder { .. } => ErrorKind::Corruption,
            PcoError::ExtraChunk { .. } => ErrorKind::Corruption,
            PcoError::ChunkFinished => ErrorKind::InvalidArgument,
            PcoError::CompressionLevel { .. } => ErrorKind::InvalidArgument,
            PcoError::DeltaEncodingOrder { .. } => ErrorKind::InvalidArgument,
        }
    }

    /// The name of a kind of failure.
    pub open spec fn spec_kind_name(kind: ErrorKind) -> Seq<char> {
        match kind {
            ErrorKind::Compatibility => "Compatibility"@,
            ErrorKind::Corruption => "Corruption"@,
            ErrorKind::InsufficientData => "InsufficientData"@,
            ErrorKind::InvalidArgument => "InvalidArgument"@,
            ErrorKind::Io => "Io"@,
        }
    }

    /// What a failure says of itself, after its kind.
    pub open spec fn spec_detail(self) -> Seq<char> {
        match self {
            PcoError::InsufficientData { available } => "the data ends too early: no more than "@
                + spec_decimal(available as nat) + " bytes were left"@,
            PcoError::MagicHeader => "magic header does not match"@,
            PcoError::FormatVersion { version } => "the data has format version "@ + spec_decimal(
                version as nat,
            ) + ", which this library does not read"@,
            PcoError::UnknownNumberType { byte } => "unrecognized number type byte "@
                + spec_decimal(byte as nat),
            PcoError::NumberTypeMismatch { expected, found } => "the chunk holds numbers of type "@
                + found.spec_name() + ", not "@ + expected.spec_name(),
            PcoError::EmptyChunk => "a chunk declares that it holds no numbers"@,
            PcoError::DeltaOrder { declared } => "a chunk declares the delta encoding order "@
                + spec_decimal(declared as nat) + ", and the highest is 7"@,
            PcoError::ExtraChunk { found } => "a chunk of type "@ + found.spec_name()
                + " follows where the data had to end"@,
            PcoError::ChunkFinished => "the chunk has no numbers left"@,
            PcoError::CompressionLevel { level } => "compression level may not exceed 12 (was "@
                + spec_decimal(level as nat) + ")"@,
            PcoError::DeltaEncodingOrder { order } =>
                "delta encoding order may not exceed 7 (was "@ + spec_decimal(order as nat) + ")"@,
        }
    }

    /// The message of a failure: its kind, then what it says of itself.
    pub open spec fn spec_message(self) -> Seq<char> {
        "pco "@ + Self::spec_kind_name(self.spec_kind()) + " error: "@ + self.spec_detail()
    }

    /// The name of a kind of failure.
    pub fn kind_name(kind: ErrorKind) -> (r: &'static str)
        ensures
            r@ == Self::spec_kind_name(kind),
    {
        match kind {
            ErrorKind::Compatibility => "Compatibility",
            ErrorKind::Corruption => "Corruption",
            ErrorKind::InsufficientData => "InsufficientData",
            ErrorKind::InvalidArgument => "InvalidArgument",
            ErrorKind::Io => "Io",
        }
    }

    /// The message of this failure.
    pub fn message(self) -> (r: String)
        ensures
            r@ == self.spec_message(),
    {
        let mut text = String::from_str("pco ");
        text.append(Self::kind_name(self.kind()));
        text.append(" error: ");
        let ghost front = text@;
        match self {
            PcoError::InsufficientData { available } => {
                text.append("the data ends too early: no more than ");
                push_decimal(&mut text, available as u64);
                text.append(" bytes were left");
            },
            PcoError::MagicHeader => {
                text.append("magic header does not match");
            },
            PcoError::FormatVersion { version } => {
                text.append("the data has format version ");
                push_decimal(&mut text, version as u64);
                text.append(", which this library does not read");
            },
            PcoError::UnknownNumberType { byte } => {
                text.append("unrecognized number type byte ");
                push_decimal(&mut text, byte as u64);
            },
            PcoError::NumberTypeMismatch { expected, found } => {
                text.append("the chunk holds numbers of type ");
                text.append(found.name());
                text.append(", not ");
                text.append(expected.name());
            },
            PcoError::EmptyChunk => {
                text.append("a chunk declares that it holds no numbers");
            },
            PcoError::DeltaOrder { declared } => {
                text.append("a chunk declares the delta encoding order ");
                push_decimal(&mut text, declared as u64);
                text.append(", and the highest is 7");
            },
            PcoError::ExtraChunk { found } => {
                text.append("a chunk of type ");
                text.append(found.name());
                text.append(" follows where the data had to end");
            },
            PcoError::ChunkFinished => {
                text.append("the chunk has no numbers left");
            },
            PcoError::CompressionLevel { level } => {
                text.append("compression level may not exceed 12 (was ");
                push_decimal(&mut text, level as u64);
                text.append(")");
            },
            PcoError::DeltaEncodingOrder { order } => {
                text.append("delta encoding order may not exceed 7 (was ");
                push_decimal(&mut text, order as u64);
                text.append(")");
            },
        }
        assert(text@ =~= front + self.spec_detail());
        text
    }

    /// The kind of this failure.
    #[verifier::when_used_as_spec(spec_kind)]
    pub fn kind(self) -> (r: ErrorKind)
        ensures
            r == self.spec_kind(),
    {
        match self {
            PcoError::InsufficientData { .. } => ErrorKind::InsufficientData,
            PcoError::MagicHeader => ErrorKind::Corruption,
            PcoError::FormatVersion { .. } => ErrorKind::Compatibility,
            PcoError::UnknownNumberType { .. } => ErrorKind::Corruption,
            PcoError::NumberTypeMismatch { .. } => ErrorKind::InvalidArgument,
            PcoError::EmptyChunk => ErrorKind::Corruption,
            PcoError::DeltaOrder { .. } => ErrorKind::Corruption,
            PcoError::ExtraChunk { .. } => ErrorKind::Corruption,
            PcoError::ChunkFinished => ErrorKind::InvalidArgument,
            PcoError::CompressionLevel { .. } => ErrorKind::InvalidArgument,
            PcoError::DeltaEncodingOrder { .. } => ErrorKind::InvalidArgument,
        }
    }
}

} // verus!
