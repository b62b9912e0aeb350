//! What can go wrong while a transfer is driven.

use crate::text::{decimal, decimal_string, push_char};
use vstd::prelude::*;
use vstd::string::StringExecFns;

verus! {

/// The failures that the engine reports to its host.
#[derive(Debug, PartialEq, Eq)]
pub enum Error {
    /// The pending bytes of the output buffer already end at or past its
    /// capacity; the value is where they end.
    OutBuffOutOfBounds(u32),
    /// The output buffer's free room is smaller than what should be written.
    OutBuffFull { need: u32, actual: u32 },
    /// The input file could not be opened or read, or is not usable; the text
    /// says why.
    FileIoError(String),
    /// The text is no address in decimal, hexadecimal, octal or binary.
    BadAddressError(String),
    /// The target answered with a byte that is no reply code.
    UnexpectedResponse(u8),
}

/// An [`Error`] with its texts as sequences of characters.
pub enum ErrorView {
    OutBuffOutOfBounds(u32),
    OutBuffFull { need: u32, actual: u32 },
    FileIoError(Seq<char>),
    BadAddressError(Seq<char>),
    UnexpectedResponse(u8),
}

impl View for Error {
    type V = ErrorView;

    open spec fn view(&self) -> ErrorView {
        match *self {
            Error::OutBuffOutOfBounds(end) => ErrorView::OutBuffOutOfBounds(end),
            Error::OutBuffFull { need, actual } => ErrorView::OutBuffFull { need, actual },
            Error::FileIoError(why) => ErrorView::FileIoError(why@),
            Error::BadAddressError(text) => ErrorView::BadAddressError(text@),
            Error::UnexpectedResponse(byte) => ErrorView::UnexpectedResponse(byte),
        }
    }
}

/// What an error says to the operator.
pub open spec fn message_text(e: ErrorView) -> Seq<char> {
    match e {
        ErrorView::OutBuffOutOfBounds(end) => {
            "A write to TeraTerm's OutBuff would go out of bounds ("@ + decimal(end as nat) + ")"@
        },
        ErrorView::OutBuffFull { need, actual } => {
            "A write to TeraTerm's OutBuff would not fit (need "@ + decimal(need as nat)
                + ", actual "@ + decimal(actual as nat) + ")"@
        },
        ErrorView::FileIoError(why) => "Could not open or read kernel file: "@ + why,
        ErrorView::BadAddressError(text) => {
            "Could not intepret address as a decimal or hex integer: "@ + text
        },
        ErrorView::UnexpectedResponse(byte) => {
            ("Received an invalid response char: "@ + decimal(byte as nat) + " ("@).push(
                byte as char,
            ) + ")"@
        },
    }
}

impl Error {
    /// What the error says to the operator.
    pub fn message(&self) -> (s: String)
        ensures
            s@ == message_text(self@),
    {
        match self {
            Error::OutBuffOutOfBounds(end) => {
                let mut s = String::from_str(
                    "A write to TeraTerm's OutBuff would go out of bounds (",
                );
                s.append(decimal_string(*end as u64).as_str());
                s.append(")");
                s
            },
            Error::OutBuffFull { need, actual } => {
                let mut s = String::from_str("A write to TeraTerm's OutBuff would not fit (need ");
                s.append(decimal_string(*need as u64).as_str());
                s.append(", actual ");
                s.append(decimal_string(*actual as u64).as_str());
                s.append(")");
                s
            },
            Error::FileIoError(why) => {
                let mut s = String::from_str("Could not open or read kernel file: ");
                s.append(why.as_str());
                s
            },
            Error::BadAddressError(text) => {
                let mut s = String::from_str(
                    "Could not intepret address as a decimal or hex integer: ",
                );
                s.append(text.as_str());
                s
            },
            Error::UnexpectedResponse(byte) => {
                let mut s = String::from_str("Received an invalid response char: ");
                s.append(decimal_string(*byte as u64).as_str());
                s.append(" (");
                push_char(&mut s, *byte as char);
                s.append(")");
                s
            },
        }
    }
}

} // verus!
