//! The error taxonomy shared by the reader, the writer and the drivers.

use crate::text::{lossy_text, utf8_lossy};
use vstd::prelude::*;
use vstd::string::{to_string_from_display_ensures, StringExecFns};
use vstd::utf8::{decode_utf8, valid_utf8};

verus! {

pub type Result<T> = std::result::Result<T, Error>;

/// `std::io::Error`, held as it comes: nothing is known of what is in it.
#[verifier::external_type_specification]
#[verifier::external_body]
pub struct ExIoError(std::io::Error);

/// `std::any::TypeId`, held as it comes: nothing is known of what is in it.
#[verifier::external_type_specification]
#[verifier::external_body]
pub struct ExTypeId(std::any::TypeId);

/// Why a decode or an encode stopped. Every error ends the call that met it.
#[derive(Debug)]
pub enum Error {
    /// A mismatch found above the token level, with its description.
    Internal(String),
    /// The underlying source or sink failed, or had too few bytes.
    IO(std::io::Error),
    /// Bytes that had to be text are not well-formed UTF-8.
    UTF8(std::string::FromUtf8Error),
    /// Text that had to be a decimal integer is not one.
    ParseInt(std::num::ParseIntError),
    /// A byte that starts no token, or a token where none may stand.
    Syntax(String),
    /// The input ended where a token had to follow.
    EOF,
    /// A complete value was followed by more input, kept here.
    TrailingData(Vec<u8>),
    ExpectedBytes,
    ExpectedDelimiter,
    ExpectedEnd,
    ExpectedList,
    /// A value nests deeper than the codec follows it.
    NestingTooDeep,
    /// A value of a type that the format has no encoding for.
    UnsupportedType(std::any::TypeId),
}

/// What an [`Error`] says, without the payloads of the standard library.
pub enum ErrorView {
    Internal(Seq<char>),
    IO,
    UTF8,
    ParseInt,
    Syntax(Seq<char>),
    EOF,
    TrailingData(Seq<u8>),
    ExpectedBytes,
    ExpectedDelimiter,
    ExpectedEnd,
    ExpectedList,
    NestingTooDeep,
    UnsupportedType,
}

impl View for Error {
    type V = ErrorView;

    open spec fn view(&self) -> ErrorView {
        match self {
            Error::Internal(m) => ErrorView::Internal(m@),
            Error::IO(_) => ErrorView::IO,
            Error::UTF8(_) => ErrorView::UTF8,
            Error::ParseInt(_) => ErrorView::ParseInt,
            Error::Syntax(m) => ErrorView::Syntax(m@),
            Error::EOF => ErrorView::EOF,
            Error::TrailingData(d) => ErrorView::TrailingData(d@),
            Error::ExpectedBytes => ErrorView::ExpectedBytes,
            Error::ExpectedDelimiter => ErrorView::ExpectedDelimiter,
            Error::ExpectedEnd => ErrorView::ExpectedEnd,
            Error::ExpectedList => ErrorView::ExpectedList,
            Error::NestingTooDeep => ErrorView::NestingTooDeep,
            Error::UnsupportedType(_) => ErrorView::UnsupportedType,
        }
    }
}

/// The call failed, and `why` is what its error says.
pub open spec fn fails_with<T>(r: Result<T>, why: ErrorView) -> bool {
    r matches Err(e) && e@ == why
}

/// How a call ended, with the error reduced to what it says.
pub open spec fn outcome<T>(r: Result<T>) -> std::result::Result<T, ErrorView> {
    match r {
        Ok(v) => Ok(v),
        Err(e) => Err(e@),
    }
}

/// How a call ended, with both the value and the error taken by their views.
pub open spec fn outcome_view<T: View>(r: Result<T>) -> std::result::Result<T::V, ErrorView> {
    match r {
        Ok(v) => Ok(v@),
        Err(e) => Err(e@),
    }
}

/// `std::io::Error::from`, for the kind that reports too short an input.
/// Nothing is claimed of the error.
#[verifier::external_body]
pub(crate) fn unexpected_eof() -> std::io::Error {
    std::io::Error::from(std::io::ErrorKind::UnexpectedEof)
}

/// What the error says before its detail, or as a whole where it has none.
pub open spec fn heading(e: ErrorView) -> Seq<char> {
    match e {
        ErrorView::Internal(_) => "Internal error: "@,
        ErrorView::IO => "IO error: "@,
        ErrorView::UTF8 => "UTF8 error: "@,
        ErrorView::ParseInt => "ParseInt error: "@,
        ErrorView::Syntax(_) => "Syntax error: "@,
        ErrorView::EOF => "EOF"@,
        ErrorView::TrailingData(_) => "Trailing data: "@,
        ErrorView::ExpectedBytes => "Expected bytes"@,
        ErrorView::ExpectedDelimiter => "Expected delimiter"@,
        ErrorView::ExpectedEnd => "Expected end"@,
        ErrorView::ExpectedList => "Expected list"@,
        ErrorView::NestingTooDeep => "Nesting too deep"@,
        ErrorView::UnsupportedType => "Unsupported type: "@,
    }
}

/// The detail that follows the heading, where the error itself determines
/// it: the description, or the trailing bytes as text. `None` where the
/// detail is worded by the standard library, and for an error without one.
pub open spec fn detail(e: ErrorView) -> Option<Seq<char>> {
    match e {
        ErrorView::Internal(m) => Some(m),
        ErrorView::Syntax(m) => Some(m),
        ErrorView::TrailingData(d) => Some(utf8_lossy(d)),
        _ => None,
    }
}

/// The error has neither a payload nor a detail.
pub open spec fn is_bare(e: ErrorView) -> bool {
    e is EOF || e is ExpectedBytes || e is ExpectedDelimiter || e is ExpectedEnd
        || e is ExpectedList || e is NestingTooDeep
}

/// `TypeId`'s debug form, by `format!`. Nothing is claimed of the text.
#[verifier::external_body]
fn type_id_text(id: &std::any::TypeId) -> String {
    format!("{:?}", id)
}

/// `TypeId::of`: the identifier of the type `T`. Nothing is claimed of it.
#[verifier::external_body]
fn type_id_of<T: 'static>() -> std::any::TypeId {
    std::any::TypeId::of::<T>()
}

impl Error {
    pub fn from_internal(err: String) -> (e: Self)
        ensures
            e@ == ErrorView::Internal(err@),
    {
        Error::Internal(err)
    }

    pub fn from_io(err: std::io::Error) -> (e: Self)
        ensures
            e == Error::IO(err),
    {
        Error::IO(err)
    }

    pub fn from_utf8(err: std::string::FromUtf8Error) -> (e: Self)
        ensures
            e == Error::UTF8(err),
    {
        Error::UTF8(err)
    }

    pub fn from_parse_int(err: std::num::ParseIntError) -> (e: Self)
        ensures
            e == Error::ParseInt(err),
    {
        Error::ParseInt(err)
    }

    pub fn from_syntax(err: &str) -> (e: Self)
        ensures
            e@ == ErrorView::Syntax(err@),
    {
        Error::Syntax(String::from_str(err))
    }

    pub fn from_trailing_data(data: Vec<u8>) -> (e: Self)
        ensures
            e@ == ErrorView::TrailingData(data@),
    {
        Error::TrailingData(data)
    }

    /// The error as a line of text: its heading, and after it its detail.
    /// For an error of the standard library the detail is that error's own
    /// text, as its `to_string` gives it.
    pub fn to_string(&self) -> (r: String)
        ensures
            heading(self@).is_prefix_of(r@),
            is_bare(self@) ==> r@ == heading(self@),
            detail(self@) matches Some(d) ==> r@ == heading(self@) + d,
            self matches Error::TrailingData(d) ==> (valid_utf8(d@) ==> r@ == heading(self@)
                + decode_utf8(d@)),
            self matches Error::IO(err) ==> exists|d: String|
                to_string_from_display_ensures::<std::io::Error>(err, d) && r@ == heading(self@)
                    + d@,
            self matches Error::UTF8(err) ==> exists|d: String|
                to_string_from_display_ensures::<std::string::FromUtf8Error>(err, d) && r@
                    == heading(self@) + d@,
            self matches Error::ParseInt(err) ==> exists|d: String|
                to_string_from_display_ensures::<std::num::ParseIntError>(err, d) && r@
                    == heading(self@) + d@,
    {
        match self {
            Error::Internal(err) => {
                let mut text = String::from_str("Internal error: ");
                text.append(err.as_str());
                text
            },
            Error::IO(err) => {
                let mut text = String::from_str("IO error: ");
                let said = err.to_string();
                text.append(said.as_str());
                assert(to_string_from_display_ensures::<std::io::Error>(err, said) && text@
                    == heading(self@) + said@);
                text
            },
            Error::UTF8(err) => {
                let mut text = String::from_str("UTF8 error: ");
                let said = err.to_string();
                text.append(said.as_str());
                assert(to_string_from_display_ensures::<std::string::FromUtf8Error>(err, said)
                    && text@ == heading(self@) + said@);
                text
            },
            Error::ParseInt(err) => {
                let mut text = String::from_str("ParseInt error: ");
                let said = err.to_string();
                text.append(said.as_str());
                assert(to_string_from_display_ensures::<std::num::ParseIntError>(err, said)
                    && text@ == heading(self@) + said@);
                text
            },
            Error::EOF => String::from_str("EOF"),
            Error::ExpectedBytes => String::from_str("Expected bytes"),
            Error::ExpectedDelimiter => String::from_str("Expected delimiter"),
            Error::ExpectedEnd => String::from_str("Expected end"),
            Error::ExpectedList => String::from_str("Expected list"),
            Error::NestingTooDeep => String::from_str("Nesting too deep"),
            Error::TrailingData(data) => {
                let mut text = String::from_str("Trailing data: ");
                text.append(lossy_text(data.as_slice()).as_str());
                text
            },
            Error::Syntax(err) => {
                let mut text = String::from_str("Syntax error: ");
                text.append(err.as_str());
                text
            },
            Error::UnsupportedType(type_id) => {
                let mut text = String::from_str("Unsupported type: ");
                text.append(type_id_text(type_id).as_str());
                text
            },
        }
    }

    pub fn from_unsupported_type<T: 'static>() -> (e: Self)
        ensures
            e@ == ErrorView::UnsupportedType,
    {
        Error::UnsupportedType(type_id_of::<T>())
    }
}

} // verus!
