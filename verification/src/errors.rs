//! Error types of the protocol layer.
//!
//! Decoding consumes bytes from an untrusted peer, so every failure there is
//! a recoverable, classified outcome: [`ParseError`].  Connection
//! establishment reports its own failures through [`ConnectError`], and
//! parsing of a display address through [`DisplayParsingError`].

use vstd::prelude::*;
use vstd::string::StringSliceAdditionalSpecFns;

verus! {

/// An error occurred while parsing some data.
#[derive(Debug, Copy, Clone, PartialEq, Eq, Structural)]
pub enum ParseError {
    /// Not enough data was provided.
    InsufficientData,
    /// A value did not fit into its target representation.
    ConversionFailed,
    /// The value of an expression could not be computed, e.g. it overflowed.
    InvalidExpression,
    /// A value was outside of its valid range, including an unmatched
    /// tagged-union discriminant.
    InvalidValue,
    /// Some file descriptors were expected, but not enough were received.
    MissingFileDescriptors,
}

/// An error that occurred while parsing a display address.
#[derive(Debug, Clone, PartialEq, Eq)]
pub enum DisplayParsingError {
    /// No explicit display was provided and none is configured.
    DisplayNotSet,
    /// The given value could not be parsed.  The input to parsing is
    /// provided.
    MalformedValue(String),
    /// The configured display value is not valid unicode.
    NotUnicode,
    /// An unknown error occurred during display parsing.
    Unknown,
}

/// The server rejected the connection, demanding further authentication.
#[derive(Debug, Clone, PartialEq, Eq)]
pub struct SetupAuthenticate {
    pub status: u8,
    pub reason: Vec<u8>,
}

/// The server rejected the connection as failed.
#[derive(Debug, Clone, PartialEq, Eq)]
pub struct SetupFailed {
    pub status: u8,
    pub protocol_major_version: u16,
    pub protocol_minor_version: u16,
    pub reason: Vec<u8>,
}

/// An error that occurred while connecting to a display server.
#[derive(Debug)]
pub enum ConnectError {
    /// An unknown error occurred.
    UnknownError,
    /// Error while parsing some data, see [`ParseError`].
    ParseError(ParseError),
    /// Out of memory.
    InsufficientMemory,
    /// Error during parsing of the display address.
    DisplayParsingError(DisplayParsingError),
    /// The server does not have a screen matching the display.
    InvalidScreen,
    /// The resource id mask provided by the server was zero.
    ZeroIdMask,
    /// The server rejected the connection with an authenticate message.
    SetupAuthenticate(SetupAuthenticate),
    /// The server rejected the connection with a failed message.
    SetupFailed(SetupFailed),
    /// The client did not receive enough data from the server to complete
    /// the handshake.
    Incomplete {
        /// The number of bytes that were expected.
        expected: usize,
        /// The number of bytes that were received.
        received: usize,
    },
}

impl ParseError {
    /// The diagnostic text of this error.
    pub open spec fn spec_message(self) -> Seq<char> {
        match self {
            ParseError::InsufficientData => "Insufficient data was provided"@,
            ParseError::ConversionFailed => "A value conversion failed due to out of range data"@,
            ParseError::InvalidExpression => "An expression could not be computed, e.g. due to overflow"@,
            ParseError::InvalidValue => "A value could not be parsed into an enumeration"@,
            ParseError::MissingFileDescriptors => "Missing file descriptors"@,
        }
    }

    /// A human-readable description of this error.
    pub fn message(&self) -> (r: &'static str)
        ensures
            r@ == self.spec_message(),
    {
        match self {
            ParseError::InsufficientData => "Insufficient data was provided",
            ParseError::ConversionFailed => "A value conversion failed due to out of range data",
            ParseError::InvalidExpression => "An expression could not be computed, e.g. due to overflow",
            ParseError::InvalidValue => "A value could not be parsed into an enumeration",
            ParseError::MissingFileDescriptors => "Missing file descriptors",
        }
    }
}

impl DisplayParsingError {
    /// The diagnostic text of this error.
    pub open spec fn spec_message(self) -> Seq<char> {
        match self {
            DisplayParsingError::DisplayNotSet => "$DISPLAY variable not set and no value was provided explicitly"@,
            DisplayParsingError::MalformedValue(dpy) => "Failed to parse value '"@ + dpy@ + "'"@,
            DisplayParsingError::NotUnicode => "The value of $DISPLAY is not valid unicode"@,
            DisplayParsingError::Unknown => "Unknown error while parsing a $DISPLAY address"@,
        }
    }

    /// A human-readable description of this error.
    pub fn message(&self) -> (r: String)
        ensures
            r@ == self.spec_message(),
    {
        match self {
            DisplayParsingError::DisplayNotSet => String::from_str(
                "$DISPLAY variable not set and no value was provided explicitly",
            ),
            DisplayParsingError::MalformedValue(dpy) => {
                let mut s = String::from_str("Failed to parse value '");
                s.append(dpy.as_str());
                s.append("'");
                s
            },
            DisplayParsingError::NotUnicode => String::from_str(
                "The value of $DISPLAY is not valid unicode",
            ),
            DisplayParsingError::Unknown => String::from_str(
                "Unknown error while parsing a $DISPLAY address",
            ),
        }
    }
}

/// The character of a single decimal digit.
pub open spec fn spec_digit(n: nat) -> char {
    if n == 0 {
        '0'
    } else if n == 1 {
        '1'
    } else if n == 2 {
        '2'
    } else if n == 3 {
        '3'
    } else if n == 4 {
        '4'
    } else if n == 5 {
        '5'
    } else if n == 6 {
        '6'
    } else if n == 7 {
        '7'
    } else if n == 8 {
        '8'
    } else {
        '9'
    }
}

/// The decimal rendering of a number, most significant digit first.
pub open spec fn spec_decimal(n: nat) -> Seq<char>
    decreases n,
{
    if n < 10 {
        seq![spec_digit(n)]
    } else {
        spec_decimal(n / 10) + seq![spec_digit(n % 10)]
    }
}

/// The decimal listing of the bytes from position `i` on, comma-separated.
pub open spec fn spec_byte_listing(bs: Seq<u8>, i: nat) -> Seq<char>
    decreases bs.len() - i,
{
    if i >= bs.len() {
        Seq::empty()
    } else if i + 1 == bs.len() {
        spec_decimal(bs[i as int] as nat)
    } else {
        spec_decimal(bs[i as int] as nat) + seq![',', ' '] + spec_byte_listing(bs, i + 1)
    }
}

/// Append the decimal rendering of `n`.
fn push_decimal(s: &mut String, n: u64)
    ensures
        final(s)@ == old(s)@ + spec_decimal(n as nat),
    decreases n,
{
    if n >= 10 {
        push_decimal(s, n / 10);
    }
    let d = n % 10;
    if d == 0 {
        s.append("0");
    } else if d == 1 {
        s.append("1");
    } else if d == 2 {
        s.append("2");
    } else if d == 3 {
        s.append("3");
    } else if d == 4 {
        s.append("4");
    } else if d == 5 {
        s.append("5");
    } else if d == 6 {
        s.append("6");
    } else if d == 7 {
        s.append("7");
    } else if d == 8 {
        s.append("8");
    } else {
        s.append("9");
    }
    proof {
        reveal_strlit("0");
        reveal_strlit("1");
        reveal_strlit("2");
        reveal_strlit("3");
        reveal_strlit("4");
        reveal_strlit("5");
        reveal_strlit("6");
        reveal_strlit("7");
        reveal_strlit("8");
        reveal_strlit("9");
        assert(final(s)@ =~= old(s)@ + spec_decimal(n as nat));
    }
}

/// The rendering of a server-supplied rejection reason: the decoded text
/// in quotes when the bytes are valid UTF-8, otherwise the decimal listing
/// of the bytes with a marker that the message is not UTF-8.
pub open spec fn spec_reason(bytes: Seq<u8>) -> Seq<char> {
    if vstd::utf8::valid_utf8(bytes) {
        "'"@ + vstd::utf8::decode_utf8(bytes) + "'"@
    } else {
        "["@ + spec_byte_listing(bytes, 0) + "] [message is not utf8]"@
    }
}

/// Relies on core::str::from_utf8: it accepts exactly the valid UTF-8
/// byte sequences and returns the text whose encoding they are — the
/// behaviour vstd's own model states for the unchecked variant.
#[verifier::external_body]
fn bytes_as_utf8(bytes: &[u8]) -> (r: Option<&str>)
    ensures
        (match r {
            Option::Some(s) => vstd::utf8::valid_utf8(bytes@) && s.spec_bytes() == bytes@,
            Option::None => !vstd::utf8::valid_utf8(bytes@),
        }),
{
    core::str::from_utf8(bytes).ok()
}

/// Append the rendering of a rejection reason.
fn push_reason(out: &mut String, reason: &Vec<u8>)
    ensures
        final(out)@ == old(out)@ + spec_reason(reason@),
{
    match bytes_as_utf8(reason.as_slice()) {
        Some(text) => {
            out.append("'");
            out.append(text);
            out.append("'");
            proof {
                vstd::utf8::encode_utf8_decode_utf8(text@);
                assert(text@ == vstd::utf8::decode_utf8(reason@));
                assert(out@ =~= old(out)@ + spec_reason(reason@));
            }
        },
        None => {
            out.append("[");
            push_byte_listing(out, reason, 0);
            out.append("] [message is not utf8]");
            proof {
                assert(out@ =~= old(out)@ + spec_reason(reason@));
            }
        },
    }
}

/// Append the decimal listing of the bytes from position `i` on.
fn push_byte_listing(s: &mut String, bs: &Vec<u8>, i: usize)
    requires
        i <= bs@.len(),
    ensures
        final(s)@ == old(s)@ + spec_byte_listing(bs@, i as nat),
    decreases bs@.len() - i,
{
    if i >= bs.len() {
        proof {
            assert(final(s)@ =~= old(s)@ + spec_byte_listing(bs@, i as nat));
        }
    } else {
        push_decimal(s, bs[i] as u64);
        if i + 1 < bs.len() {
            s.append(", ");
            push_byte_listing(s, bs, i + 1);
        }
        proof {
            reveal_strlit(", ");
            assert(", "@ =~= seq![',', ' ']);
            assert(final(s)@ =~= old(s)@ + spec_byte_listing(bs@, i as nat));
        }
    }
}

impl ConnectError {
    /// The diagnostic text of this error.  A server-supplied rejection
    /// reason is embedded as quoted text when it is valid UTF-8 and as the
    /// decimal listing of its bytes otherwise; the incomplete-handshake
    /// text carries both byte counts.
    pub open spec fn spec_message(self) -> Seq<char> {
        match self {
            ConnectError::UnknownError => "Unknown connection error"@,
            ConnectError::InsufficientMemory => "Insufficient memory"@,
            ConnectError::DisplayParsingError(err) => err.spec_message(),
            ConnectError::InvalidScreen => "Invalid screen"@,
            ConnectError::ParseError(err) => err.spec_message(),
            ConnectError::ZeroIdMask => "XID mask was zero"@,
            ConnectError::SetupFailed(s) => "X11 setup failed: "@ + spec_reason(s.reason@),
            ConnectError::SetupAuthenticate(s) => "X11 authentication failed: "@ + spec_reason(
                s.reason@,
            ),
            ConnectError::Incomplete { expected, received } => {
                "Not enough data received to complete the handshake. Expected "@ + spec_decimal(
                    expected as nat,
                ) + ", received "@ + spec_decimal(received as nat)
            },
        }
    }

    /// A human-readable description of this error.
    pub fn message(&self) -> (r: String)
        ensures
            r@ == self.spec_message(),
    {
        match self {
            ConnectError::UnknownError => String::from_str("Unknown connection error"),
            ConnectError::InsufficientMemory => String::from_str("Insufficient memory"),
            ConnectError::DisplayParsingError(err) => err.message(),
            ConnectError::InvalidScreen => String::from_str("Invalid screen"),
            ConnectError::ParseError(err) => String::from_str(err.message()),
            ConnectError::ZeroIdMask => String::from_str("XID mask was zero"),
            ConnectError::SetupFailed(s) => {
                let mut out = String::from_str("X11 setup failed: ");
                push_reason(&mut out, &s.reason);
                proof {
                    assert(out@ =~= self.spec_message());
                }
                out
            },
            ConnectError::SetupAuthenticate(s) => {
                let mut out = String::from_str("X11 authentication failed: ");
                push_reason(&mut out, &s.reason);
                proof {
                    assert(out@ =~= self.spec_message());
                }
                out
            },
            ConnectError::Incomplete { expected, received } => {
                let mut out = String::from_str(
                    "Not enough data received to complete the handshake. Expected ",
                );
                push_decimal(&mut out, *expected as u64);
                out.append(", received ");
                push_decimal(&mut out, *received as u64);
                proof {
                    assert(out@ =~= self.spec_message());
                }
                out
            },
        }
    }
}

impl From<ParseError> for ConnectError {
    /// Wrap a parse error as a connection error.
    fn from(err: ParseError) -> (r: ConnectError) {
        ConnectError::ParseError(err)
    }
}

impl vstd::std_specs::convert::FromSpecImpl<ParseError> for ConnectError {
    open spec fn obeys_from_spec() -> bool {
        true
    }

    open spec fn from_spec(err: ParseError) -> ConnectError {
        ConnectError::ParseError(err)
    }
}

impl From<DisplayParsingError> for ConnectError {
    /// Wrap a display parsing error as a connection error.
    fn from(err: DisplayParsingError) -> (r: ConnectError) {
        ConnectError::DisplayParsingError(err)
    }
}

impl vstd::std_specs::convert::FromSpecImpl<DisplayParsingError> for ConnectError {
    open spec fn obeys_from_spec() -> bool {
        true
    }

    open spec fn from_spec(err: DisplayParsingError) -> ConnectError {
        ConnectError::DisplayParsingError(err)
    }
}

} // verus!
