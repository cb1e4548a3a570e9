//! What can go wrong between us and the cooler.

use crate::text;
use vstd::prelude::*;

verus! {

#[derive(Debug)]
pub enum Error {
    NotFound,
    Open { path: String, source: String },
    Read(String),
    Write(String),
    Poll(String),
    Timeout,
    /// A command the cooler never acknowledged.
    NoAck { cmd: u8 },
    Disconnected,
    RpmOutOfRange { rpm: u16, min: u16, max: u16 },
    Config(String),
}

pub type Result<T> = std::result::Result<T, Error>;

#[verifier::ext_equal]
pub enum ErrorView {
    NotFound,
    Open { path: Seq<char>, source: Seq<char> },
    Read(Seq<char>),
    Write(Seq<char>),
    Poll(Seq<char>),
    Timeout,
    NoAck { cmd: u8 },
    Disconnected,
    RpmOutOfRange { rpm: u16, min: u16, max: u16 },
    Config(Seq<char>),
}

impl View for Error {
    type V = ErrorView;

    open spec fn view(&self) -> ErrorView {
        match self {
            Error::NotFound => ErrorView::NotFound,
            Error::Open { path, source } => ErrorView::Open { path: path@, source: source@ },
            Error::Read(source) => ErrorView::Read(source@),
            Error::Write(source) => ErrorView::Write(source@),
            Error::Poll(source) => ErrorView::Poll(source@),
            Error::Timeout => ErrorView::Timeout,
            Error::NoAck { cmd } => ErrorView::NoAck { cmd: *cmd },
            Error::Disconnected => ErrorView::Disconnected,
            Error::RpmOutOfRange { rpm, min, max } => ErrorView::RpmOutOfRange {
                rpm: *rpm,
                min: *min,
                max: *max,
            },
            Error::Config(message) => ErrorView::Config(message@),
        }
    }
}

impl ErrorView {
    /// The words for it.
    pub open spec fn label(self) -> Seq<char> {
        match self {
            ErrorView::NotFound => "no cooler found (check bluetooth pairing and udev rules)"@,
            ErrorView::Open { path, source } => "cannot open "@ + path + ": "@ + source,
            ErrorView::Read(source) => "read failed: "@ + source,
            ErrorView::Write(source) => "write failed: "@ + source,
            ErrorView::Poll(source) => "poll failed: "@ + source,
            ErrorView::Timeout => "timed out waiting for status"@,
            ErrorView::NoAck { cmd } => "no acknowledgement of command 0x"@ + text::hex2(cmd),
            ErrorView::Disconnected => "device went away"@,
            ErrorView::RpmOutOfRange { rpm, min, max } => "rpm "@ + text::dec(rpm as nat)
                + " out of range ("@ + text::dec(min as nat) + "-"@ + text::dec(max as nat)
                + ", or 0 to stop)"@,
            ErrorView::Config(message) => message,
        }
    }
}

impl Error {
    pub fn to_string(&self) -> (text: String)
        ensures
            text@ == self@.label(),
    {
        match self {
            Self::NotFound =>
                "no cooler found (check bluetooth pairing and udev rules)".to_owned(),
            Self::Open { path, source } => {
                let mut text = text::joined("cannot open ", path.as_str());
                text.append(": ");
                text.append(source.as_str());
                text
            },
            Self::Read(source) => text::joined("read failed: ", source.as_str()),
            Self::Write(source) => text::joined("write failed: ", source.as_str()),
            Self::Poll(source) => text::joined("poll failed: ", source.as_str()),
            Self::Timeout => "timed out waiting for status".to_owned(),
            Self::NoAck { cmd } => {
                let mut text = "no acknowledgement of command 0x".to_owned();
                text::push_hex2(&mut text, *cmd);
                text
            },
            Self::Disconnected => "device went away".to_owned(),
            Self::RpmOutOfRange { rpm, min, max } => {
                let mut text = "rpm ".to_owned();
                text::push_dec(&mut text, *rpm as u64);
                text.append(" out of range (");
                text::push_dec(&mut text, *min as u64);
                text.append("-");
                text::push_dec(&mut text, *max as u64);
                text.append(", or 0 to stop)");
                text
            },
            Self::Config(message) => message.clone(),
        }
    }
}

} // verus!
