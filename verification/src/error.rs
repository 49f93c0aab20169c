//! The library's error type.
use vstd::prelude::*;

use crate::relay;

verus! {

/// What can go wrong on a CAN bus or in one of its protocol layers.
#[derive(Debug, Clone, PartialEq, Eq)]
pub enum Error {
    /// The bus is closed.
    Closed,
    /// There is no connection to the peer.
    NotConnected,
    /// A deadline passed before the operation was done.
    Timeout,
    /// The payload does not fit the transport.
    PayloadTooLarge,
    /// The frame breaks a rule of its format.
    InvalidFrame { reason: String },
    /// The controller is in the bus-off state.
    BusOff,
    /// An operating-system call failed.
    Io(String),
    /// Anything else, in words.
    Other(String),
}

/// The mathematical value of an [`Error`].
pub enum ErrorView {
    Closed,
    NotConnected,
    Timeout,
    PayloadTooLarge,
    InvalidFrame(Seq<char>),
    BusOff,
    Io(Seq<char>),
    Other(Seq<char>),
}

impl View for Error {
    type V = ErrorView;

    open spec fn view(&self) -> ErrorView {
        match self {
            Error::Closed => ErrorView::Closed,
            Error::NotConnected => ErrorView::NotConnected,
            Error::Timeout => ErrorView::Timeout,
            Error::PayloadTooLarge => ErrorView::PayloadTooLarge,
            Error::InvalidFrame { reason } => ErrorView::InvalidFrame(reason@),
            Error::BusOff => ErrorView::BusOff,
            Error::Io(s) => ErrorView::Io(s@),
            Error::Other(s) => ErrorView::Other(s@),
        }
    }
}

impl Error {
    /// An [`Error::InvalidFrame`] with the given reason.
    pub fn invalid_frame(reason: String) -> (e: Error)
        ensures
            e@ == ErrorView::InvalidFrame(reason@),
    {
        Error::InvalidFrame { reason }
    }

    /// An [`Error::Other`] with the given text.
    pub fn other(s: &str) -> (e: Error)
        ensures
            e@ == ErrorView::Other(s@),
    {
        Error::Other(s.to_owned())
    }

    /// The relay sentinel that this error stands for, if it stands for one.
    pub fn kind(&self) -> (r: Option<relay::Error>)
        ensures
            r == sentinel(self@),
    {
        match self {
            Error::Closed => Some(relay::Error::Closed),
            Error::NotConnected => Some(relay::Error::NotConnected),
            Error::Timeout => Some(relay::Error::Timeout),
            Error::PayloadTooLarge => Some(relay::Error::PayloadTooLarge),
            _ => None,
        }
    }

    /// The error in words.
    pub fn to_string(&self) -> (r: String)
        ensures
            r@ == error_text(self@),
    {
        match self {
            Error::Closed => "can: closed".to_owned(),
            Error::NotConnected => "can: not connected".to_owned(),
            Error::Timeout => "can: timeout".to_owned(),
            Error::PayloadTooLarge => "can: payload too large".to_owned(),
            Error::InvalidFrame { reason } => crate::text::join2(
                "can: invalid frame: ",
                reason.as_str(),
            ),
            Error::BusOff => "can: bus-off".to_owned(),
            Error::Io(s) => crate::text::join2("can: I/O error: ", s.as_str()),
            Error::Other(s) => s.clone(),
        }
    }
}

/// The relay sentinel of an error: four errors have one.
pub open spec fn sentinel(e: ErrorView) -> Option<relay::Error> {
    match e {
        ErrorView::Closed => Some(relay::Error::Closed),
        ErrorView::NotConnected => Some(relay::Error::NotConnected),
        ErrorView::Timeout => Some(relay::Error::Timeout),
        ErrorView::PayloadTooLarge => Some(relay::Error::PayloadTooLarge),
        _ => None,
    }
}

/// The words of an error.
pub open spec fn error_text(e: ErrorView) -> Seq<char> {
    match e {
        ErrorView::Closed => "can: closed"@,
        ErrorView::NotConnected => "can: not connected"@,
        ErrorView::Timeout => "can: timeout"@,
        ErrorView::PayloadTooLarge => "can: payload too large"@,
        ErrorView::InvalidFrame(s) => "can: invalid frame: "@ + s,
        ErrorView::BusOff => "can: bus-off"@,
        ErrorView::Io(s) => "can: I/O error: "@ + s,
        ErrorView::Other(s) => s,
    }
}

impl From<relay::Error> for Error {
    fn from(e: relay::Error) -> (r: Error) {
        match e {
            relay::Error::Closed => Error::Closed,
            relay::Error::NotConnected => Error::NotConnected,
            relay::Error::Timeout => Error::Timeout,
            relay::Error::PayloadTooLarge => Error::PayloadTooLarge,
        }
    }
}

impl vstd::std_specs::convert::FromSpecImpl<relay::Error> for Error {
    open spec fn obeys_from_spec() -> bool {
        true
    }

    open spec fn from_spec(e: relay::Error) -> Error {
        match e {
            relay::Error::Closed => Error::Closed,
            relay::Error::NotConnected => Error::NotConnected,
            relay::Error::Timeout => Error::Timeout,
            relay::Error::PayloadTooLarge => Error::PayloadTooLarge,
        }
    }
}

/// A sentinel survives the way into an error and back.
pub proof fn sentinel_round_trip(e: relay::Error)
    ensures
        sentinel(<Error as vstd::std_specs::convert::FromSpec<relay::Error>>::from_spec(e)@) == Some(e),
{
}

/// Only the errors that a relay transport shares have a sentinel: an error of a frame, of
/// the controller or of the system has none.
pub proof fn other_errors_have_no_sentinel(e: ErrorView)
    ensures
        sentinel(e) is None <==> e is InvalidFrame || e is BusOff || e is Io || e is Other,
        sentinel(ErrorView::Closed) == Some(relay::Error::Closed),
        sentinel(ErrorView::NotConnected) == Some(relay::Error::NotConnected),
        sentinel(ErrorView::Timeout) == Some(relay::Error::Timeout),
        sentinel(ErrorView::PayloadTooLarge) == Some(relay::Error::PayloadTooLarge),
{
}

/// The words of an error. Those of one that carries a text end with it, so no text is lost.
pub proof fn words_of_an_error_keep_its_text(s: Seq<char>)
    ensures
        error_text(ErrorView::Closed) == "can: closed"@,
        error_text(ErrorView::NotConnected) == "can: not connected"@,
        error_text(ErrorView::Timeout) == "can: timeout"@,
        error_text(ErrorView::PayloadTooLarge) == "can: payload too large"@,
        error_text(ErrorView::BusOff) == "can: bus-off"@,
        error_text(ErrorView::Other(s)) == s,
        error_text(ErrorView::InvalidFrame(s)).len() >= s.len() && error_text(
            ErrorView::InvalidFrame(s),
        ).skip(error_text(ErrorView::InvalidFrame(s)).len() - s.len()) == s,
        error_text(ErrorView::Io(s)).len() >= s.len() && error_text(ErrorView::Io(s)).skip(
            error_text(ErrorView::Io(s)).len() - s.len(),
        ) == s,
{
    let a = error_text(ErrorView::InvalidFrame(s));
    let b = error_text(ErrorView::Io(s));
    assert(a.skip(a.len() - s.len()) =~= s);
    assert(b.skip(b.len() - s.len()) =~= s);
}

} // verus!
