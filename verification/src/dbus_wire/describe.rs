//! What an error of the bus or the wire is shown as.

use vstd::prelude::*;

use crate::dbus_wire::value::{WireError, WireErrorView};
use crate::text::{decimal, decimal_digits, joined, lossy, lossy_text};

verus! {

/// Longest a call waits for its reply, in seconds, and the whole of what a
/// connect and its authentication may take. A bus that has not answered
/// within it is not going to.
pub const CALL_TIMEOUT_SECS: u64 = 5;

/// The text `{:?}` makes of a string: in quotes, with escapes.
pub uninterp spec fn debug_text(s: Seq<char>) -> Seq<char>;

/// The text `{:?}` makes of a character: in quotes, with escapes.
pub uninterp spec fn debug_char(c: char) -> Seq<char>;

/// `std::fmt::Debug` of a string. Which text that is depends on the string
/// alone.
#[verifier::external_body]
fn quoted(s: &str) -> (r: String)
    ensures
        r@ == debug_text(s@),
{
    format!("{s:?}")
}

/// `std::fmt::Debug` of a character. Which text that is depends on the
/// character alone.
#[verifier::external_body]
fn quoted_char(c: char) -> (r: String)
    ensures
        r@ == debug_char(c),
{
    format!("{c:?}")
}

/// The message an error is shown with.
pub open spec fn wire_message(e: WireErrorView) -> Seq<char> {
    match e {
        WireErrorView::Connect { path, reason: _ } => "connecting to the bus socket "@ + lossy(
            path,
        ),
        WireErrorView::Io(reason) => "talking to the bus: "@ + reason,
        WireErrorView::Closed => "the bus closed the connection"@,
        WireErrorView::Timeout => "the bus did not answer within "@ + decimal_digits(
            CALL_TIMEOUT_SECS as nat,
        ) + "s"@,
        WireErrorView::Auth(line) => "the bus answered the authentication handshake with "@
            + debug_text(line),
        WireErrorView::AuthRejected(offer) =>
            "the bus refused EXTERNAL authentication (it offers "@ + debug_text(offer) + ")"@,
        WireErrorView::NoFdPassing =>
            "the bus does not pass file descriptors on this connection"@,
        WireErrorView::TooManyFds(n) => decimal_digits(n)
            + " file descriptors is more than one message may carry"@,
        WireErrorView::Remote { name, message } => name + ": "@ + message,
        WireErrorView::BadSignature(sig) => debug_text(sig) + " is not a valid type signature"@,
        WireErrorView::Arity { expected, got } => "the signature describes "@ + decimal_digits(
            expected,
        ) + " values and "@ + decimal_digits(got) + " were given"@,
        WireErrorView::TypeMismatch { expected, got } => "the signature says "@ + debug_char(
            expected,
        ) + " and "@ + got + " was given"@,
        WireErrorView::Unsupported(what) => "unsupported: "@ + what,
        WireErrorView::Truncated => "a value runs past the end of the message"@,
        WireErrorView::Padding => "alignment padding that is not nul"@,
        WireErrorView::Trailing(n) => decimal_digits(n) + " bytes left over after the values"@,
        WireErrorView::ArrayTooLong(n) => "an array of "@ + decimal_digits(n)
            + " bytes is longer than the specification allows"@,
        WireErrorView::MessageTooLong(n) => "a message of "@ + decimal_digits(n)
            + " bytes is longer than the specification allows"@,
        WireErrorView::BadString =>
            "a string is not nul-terminated, holds a nul, or is not UTF-8"@,
        WireErrorView::BadObjectPath(path) => debug_text(path) + " is not a valid object path"@,
        WireErrorView::BadBool(n) => decimal_digits(n as nat) + " is not a boolean"@,
        WireErrorView::Depth => "containers nested deeper than the specification allows"@,
        WireErrorView::Endianness(flag) => "a message with endianness flag "@ + decimal_digits(
            flag as nat,
        ) + ", which this client does not read"@,
        WireErrorView::BadMessage(what) => "the bus sent "@ + what,
        WireErrorView::FdIndex(n) => "a value names file descriptor "@ + decimal_digits(n as nat)
            + ", which was not given to the call"@,
        WireErrorView::NoDestination => "a call with no destination"@,
    }
}

impl WireError {
    /// The message this error is shown with.
    pub fn message(&self) -> (r: String)
        ensures
            r@ == wire_message(self@),
    {
        match self {
            WireError::Connect { path, reason: _ } => joined(
                "connecting to the bus socket ",
                &lossy_text(path),
            ),
            WireError::Io(reason) => joined("talking to the bus: ", reason),
            WireError::Closed => "the bus closed the connection".to_owned(),
            WireError::Timeout => joined(
                &joined("the bus did not answer within ", &decimal(CALL_TIMEOUT_SECS)),
                "s",
            ),
            WireError::Auth(line) => joined(
                "the bus answered the authentication handshake with ",
                &quoted(line),
            ),
            WireError::AuthRejected(offer) => joined(
                &joined("the bus refused EXTERNAL authentication (it offers ", &quoted(offer)),
                ")",
            ),
            WireError::NoFdPassing =>
                "the bus does not pass file descriptors on this connection".to_owned(),
            WireError::TooManyFds(n) => joined(
                &decimal(*n as u64),
                " file descriptors is more than one message may carry",
            ),
            WireError::Remote { name, message } => joined(&joined(name, ": "), message),
            WireError::BadSignature(sig) => joined(
                &quoted(sig),
                " is not a valid type signature",
            ),
            WireError::Arity { expected, got } => {
                let first = joined("the signature describes ", &decimal(*expected as u64));
                let second = joined(&joined(&first, " values and "), &decimal(*got as u64));
                joined(&second, " were given")
            },
            WireError::TypeMismatch { expected, got } => {
                let first = joined("the signature says ", &quoted_char(*expected));
                joined(&joined(&joined(&first, " and "), got), " was given")
            },
            WireError::Unsupported(what) => joined("unsupported: ", what),
            WireError::Truncated => "a value runs past the end of the message".to_owned(),
            WireError::Padding => "alignment padding that is not nul".to_owned(),
            WireError::Trailing(n) => joined(
                &decimal(*n as u64),
                " bytes left over after the values",
            ),
            WireError::ArrayTooLong(n) => joined(
                &joined("an array of ", &decimal(*n as u64)),
                " bytes is longer than the specification allows",
            ),
            WireError::MessageTooLong(n) => joined(
                &joined("a message of ", &decimal(*n as u64)),
                " bytes is longer than the specification allows",
            ),
            WireError::BadString =>
                "a string is not nul-terminated, holds a nul, or is not UTF-8".to_owned(),
            WireError::BadObjectPath(path) => joined(
                &quoted(path),
                " is not a valid object path",
            ),
            WireError::BadBool(n) => joined(&decimal(*n as u64), " is not a boolean"),
            WireError::Depth =>
                "containers nested deeper than the specification allows".to_owned(),
            WireError::Endianness(flag) => joined(
                &joined("a message with endianness flag ", &decimal(*flag as u64)),
                ", which this client does not read",
            ),
            WireError::BadMessage(what) => joined("the bus sent ", what),
            WireError::FdIndex(n) => joined(
                &joined("a value names file descriptor ", &decimal(*n as u64)),
                ", which was not given to the call",
            ),
            WireError::NoDestination => "a call with no destination".to_owned(),
        }
    }
}

} // verus!
