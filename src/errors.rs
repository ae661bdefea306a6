//! The closed set of errors that decoding can end in.
use vstd::prelude::*;
use crate::sentence::SentenceType;

verus! {

/// Why a field of a sentence body could not be read.
#[derive(Debug, Clone, Copy, PartialEq)]
pub enum DataError<'a> {
    /// The token is not of the shape its field asks for; carries the token.
    Invalid(&'a [u8]),
    /// The body ended before the field's delimiter was found.
    Incomplete,
}

/// A two-byte status code that names no status.
#[derive(Debug, Clone, Copy, PartialEq, Eq, Structural)]
pub struct StatusParsingError(pub u8, pub u8);

/// Everything that can go wrong while decoding one sentence.
#[derive(Debug, Clone, Copy, PartialEq)]
pub enum NmeaSentenceError<'a> {
    /// The sentence is longer than the protocol allows; carries its length.
    SentenceLengthError(usize),
    /// The transmitted checksum (first) differs from the computed one (second).
    ChecksumError(u8, u8),
    /// The framing or the token sequence of a body is malformed.
    GeneralParsingError,
    /// The type tag is known, but no grammar decodes it.
    TypeNotImplementedError(SentenceType),
    /// The two checksum characters are not both hexadecimal digits.
    HexParsingError(u8, u8),
    /// The type tag matches no known sentence; carries the tag.
    UnkownTypeError(&'a [u8]),
    /// A field could not be read.
    DataParsingError(DataError<'a>),
    /// A status field holds an unknown code.
    StatusParsingError(StatusParsingError),
}

/// What a `DataError` says, with the offending token as a sequence.
pub enum DataErrorModel {
    Invalid(Seq<u8>),
    Incomplete,
}

/// What a `NmeaSentenceError` says, with borrowed bytes as sequences.
pub enum ErrorModel {
    SentenceLength(usize),
    Checksum(u8, u8),
    General,
    TypeNotImplemented(SentenceType),
    Hex(u8, u8),
    UnknownType(Seq<u8>),
    Data(DataErrorModel),
    Status(u8, u8),
}

impl<'a> View for DataError<'a> {
    type V = DataErrorModel;

    open spec fn view(&self) -> DataErrorModel {
        match self {
            DataError::Invalid(t) => DataErrorModel::Invalid(t@),
            DataError::Incomplete => DataErrorModel::Incomplete,
        }
    }
}

impl<'a> View for NmeaSentenceError<'a> {
    type V = ErrorModel;

    open spec fn view(&self) -> ErrorModel {
        match self {
            NmeaSentenceError::SentenceLengthError(n) => ErrorModel::SentenceLength(*n),
            NmeaSentenceError::ChecksumError(p, c) => ErrorModel::Checksum(*p, *c),
            NmeaSentenceError::GeneralParsingError => ErrorModel::General,
            NmeaSentenceError::TypeNotImplementedError(t) => ErrorModel::TypeNotImplemented(*t),
            NmeaSentenceError::HexParsingError(a, b) => ErrorModel::Hex(*a, *b),
            NmeaSentenceError::UnkownTypeError(t) => ErrorModel::UnknownType(t@),
            NmeaSentenceError::DataParsingError(d) => ErrorModel::Data(d@),
            NmeaSentenceError::StatusParsingError(s) => ErrorModel::Status(s.0, s.1),
        }
    }
}

} // verus!
