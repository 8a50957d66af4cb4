//! The ways in which decoding a packet fails.

use vstd::prelude::*;

verus! {

/// What `String::from_utf8` reports for bytes that are no UTF-8.
#[verifier::external_type_specification]
#[verifier::external_body]
pub struct ExFromUtf8Error(std::string::FromUtf8Error);

/// What a reader reports when it cannot go on.
#[verifier::external_type_specification]
#[verifier::external_body]
pub struct ExIoError(std::io::Error);

/// Why a compressed colour stream could not be used.
#[derive(Debug)]
pub enum DecompressCause {
    /// The bytes are no gzip stream, or a damaged one.
    Gzip(std::io::Error),
    /// The stream unpacked to this many bytes, which is no whole number of triplets.
    Ragged(usize),
}

/// A failed decode. Every failure ends the whole decode: there is no partial packet.
#[derive(Debug)]
pub enum Error {
    /// Fewer bytes remain than a read requires.
    TooSmallPacket,
    /// The packet has no `ID` field with a four-byte payload.
    NoId,
    /// The field of this name carries a type tag that the format does not define.
    InvalidFieldType(String, u16),
    /// The text of the field of this name is no UTF-8.
    InvalidString(String, std::string::FromUtf8Error),
    /// The colour stream of the field of this name could not be unpacked.
    UnableToDecompress(String, DecompressCause),
    /// Key-value fields are nested deeper than the decoder was told to follow.
    NestingTooDeep,
}

pub type ParsePacketResult<T> = Result<T, Error>;

/// A `DecompressCause` without the report of the decompressor: whether the
/// stream could not be unpacked, or the number of bytes that it unpacked to.
pub enum DecompressCauseView {
    Gzip,
    Ragged(nat),
}

impl View for DecompressCause {
    type V = DecompressCauseView;

    open spec fn view(&self) -> DecompressCauseView {
        match self {
            DecompressCause::Gzip(_) => DecompressCauseView::Gzip,
            DecompressCause::Ragged(n) => DecompressCauseView::Ragged(*n as nat),
        }
    }
}

/// An `Error` without the reports of the outside libraries, which are values
/// that only those libraries can read: the kind of the failure, the field it
/// was found in and, for a colour stream, why it could not be used. The
/// functions that make a failure out of such a report (`text_from`,
/// `colours_from`) and `name` say that the report is carried unchanged.
pub enum ErrorView {
    TooSmallPacket,
    NoId,
    InvalidFieldType(Seq<char>, u16),
    InvalidString(Seq<char>),
    UnableToDecompress(Seq<char>, DecompressCauseView),
    NestingTooDeep,
}

impl View for Error {
    type V = ErrorView;

    open spec fn view(&self) -> ErrorView {
        match self {
            Error::TooSmallPacket => ErrorView::TooSmallPacket,
            Error::NoId => ErrorView::NoId,
            Error::InvalidFieldType(name, tag) => ErrorView::InvalidFieldType(name@, *tag),
            Error::InvalidString(name, _) => ErrorView::InvalidString(name@),
            Error::UnableToDecompress(name, cause) => ErrorView::UnableToDecompress(
                name@,
                cause@,
            ),
            Error::NestingTooDeep => ErrorView::NestingTooDeep,
        }
    }
}

impl ErrorView {
    /// The same failure, found in the field `name`. A failure that names a
    /// field already keeps that name.
    pub open spec fn named(self, name: Seq<char>) -> ErrorView {
        match self {
            ErrorView::InvalidFieldType(n, tag) if n.len() == 0 => ErrorView::InvalidFieldType(
                name,
                tag,
            ),
            ErrorView::InvalidString(n) if n.len() == 0 => ErrorView::InvalidString(name),
            ErrorView::UnableToDecompress(n, cause) if n.len() == 0 => ErrorView::UnableToDecompress(
                name,
                cause,
            ),
            other => other,
        }
    }
}

/// Whether two failures carry the same report of an outside library.
pub open spec fn same_cause(a: Error, b: Error) -> bool {
    match (a, b) {
        (Error::InvalidString(_, c), Error::InvalidString(_, d)) => c == d,
        (Error::UnableToDecompress(_, c), Error::UnableToDecompress(_, d)) => c == d,
        _ => true,
    }
}

/// Attaches the field's name to a failure that was found while reading its
/// payload and names no field yet; a success passes through.
pub fn name<T>(field: &str, res: ParsePacketResult<T>) -> (out: ParsePacketResult<T>)
    ensures
        res is Ok ==> out == res,
        res is Err ==> out is Err && out->Err_0@ == res->Err_0@.named(field@),
        res is Err ==> same_cause(res->Err_0, out->Err_0),
{
    match res {
        Ok(v) => Ok(v),
        Err(Error::InvalidFieldType(n, tag)) => {
            if n.as_str().is_empty() {
                Err(Error::InvalidFieldType(field.to_owned(), tag))
            } else {
                Err(Error::InvalidFieldType(n, tag))
            }
        },
        Err(Error::InvalidString(n, cause)) => {
            if n.as_str().is_empty() {
                Err(Error::InvalidString(field.to_owned(), cause))
            } else {
                Err(Error::InvalidString(n, cause))
            }
        },
        Err(Error::UnableToDecompress(n, cause)) => {
            if n.as_str().is_empty() {
                Err(Error::UnableToDecompress(field.to_owned(), cause))
            } else {
                Err(Error::UnableToDecompress(n, cause))
            }
        },
        Err(e) => Err(e),
    }
}

} // verus!
