use vstd::prelude::*;
use vstd::string::StringExecFns;

use crate::status::Status;

verus! {

/// A failure to frame or read a packet according to the binary protocol.
#[derive(Debug, PartialEq, Eq, Clone)]
pub enum ProtocolError {
    /// A response began with this byte instead of the response magic.
    InvalidMagic(u8),
    /// Fewer than the 24 bytes of a header were given.
    PacketTooSmall,
    /// A body's length disagrees with what its header announces.
    BodySizeMismatch,
    /// A response carried an opcode that the expected reply cannot have.
    OpCodeMismatch,
    /// A response carried a status other than success.
    NonZeroStatus(Status),
    /// A value that should have been text was not valid UTF-8.
    InvalidUtf8(Vec<u8>),
    /// A key, extras or body too long for its length field in the header.
    PacketTooLarge,
}

#[verifier::external_type_specification]
#[verifier::external_body]
pub struct ExIoError(std::io::Error);

/// An error met while talking to a memcached node.
#[derive(Debug)]
pub enum Error {
    /// The byte stream, or a compressor working on it, failed.
    IoError(std::io::Error),
    /// The bytes did not follow the binary protocol.
    Protocol(ProtocolError),
    /// The server answered with a status other than success.
    Status(Status),
}

/// The character of a decimal digit.
pub open spec fn digit_char(d: nat) -> char {
    if d == 0 {
        '0'
    } else if d == 1 {
        '1'
    } else if d == 2 {
        '2'
    } else if d == 3 {
        '3'
    } else if d == 4 {
        '4'
    } else if d == 5 {
        '5'
    } else if d == 6 {
        '6'
    } else if d == 7 {
        '7'
    } else if d == 8 {
        '8'
    } else {
        '9'
    }
}

/// `n` written in decimal, without leading zeros.
pub open spec fn decimal(n: nat) -> Seq<char>
    decreases n,
{
    if n < 10 {
        seq![digit_char(n)]
    } else {
        decimal(n / 10) + seq![digit_char(n % 10)]
    }
}

/// Appends the digit `d` to `s`.
fn push_digit(s: &mut String, d: u8)
    requires
        d < 10,
    ensures
        final(s)@ == old(s)@ + seq![digit_char(d as nat)],
{
    proof {
        reveal_strlit("0");
        reveal_strlit("1");
        reveal_strlit("2");
        reveal_strlit("3");
        reveal_strlit("4");
        reveal_strlit("5");
        reveal_strlit("6");
        reveal_strlit("7");
        reveal_strlit("8");
        reveal_strlit("9");
    }
    let t = match d {
        0 => "0",
        1 => "1",
        2 => "2",
        3 => "3",
        4 => "4",
        5 => "5",
        6 => "6",
        7 => "7",
        8 => "8",
        _ => "9",
    };
    s.append(t);
    proof {
        assert(final(s)@ =~= old(s)@ + seq![digit_char(d as nat)]);
    }
}

/// Appends `n` in decimal to `s`.
fn push_decimal(s: &mut String, n: u8)
    ensures
        final(s)@ == old(s)@ + decimal(n as nat),
{
    let ghost start = s@;
    if n >= 100 {
        push_digit(s, n / 100);
    }
    if n >= 10 {
        push_digit(s, (n / 10) % 10);
    }
    push_digit(s, n % 10);
    proof {
        let m = n as nat;
        if m >= 100 {
            assert(decimal(m / 100) == seq![digit_char(m / 100)]);
            assert((m / 10) / 10 == m / 100);
            assert(decimal(m / 10) =~= seq![digit_char(m / 100), digit_char((m / 10) % 10)]);
        } else if m >= 10 {
            assert(decimal(m / 10) == seq![digit_char(m / 10)]);
            assert((m / 10) % 10 == m / 10);
        }
        assert(s@ =~= start + decimal(m));
    }
}

impl ProtocolError {
    /// The description of this error in words.
    pub open spec fn text(self) -> Seq<char> {
        match self {
            ProtocolError::InvalidMagic(b) => "Invalid magic byte: "@ + decimal(b as nat),
            ProtocolError::PacketTooSmall => "Packet too small"@,
            ProtocolError::BodySizeMismatch => "Body size mismatch"@,
            ProtocolError::OpCodeMismatch => "Opcode mismatch"@,
            ProtocolError::NonZeroStatus(s) => "Non-zero status: "@ + s.text(),
            ProtocolError::InvalidUtf8(_) => "Invalid UTF-8"@,
            ProtocolError::PacketTooLarge => "Packet too large"@,
        }
    }

    /// Describes this error in words.
    pub fn to_string(&self) -> (r: String)
        ensures
            r@ == self.text(),
    {
        match self {
            ProtocolError::InvalidMagic(b) => {
                let mut s = String::from_str("Invalid magic byte: ");
                push_decimal(&mut s, *b);
                s
            },
            ProtocolError::PacketTooSmall => String::from_str("Packet too small"),
            ProtocolError::BodySizeMismatch => String::from_str("Body size mismatch"),
            ProtocolError::OpCodeMismatch => String::from_str("Opcode mismatch"),
            ProtocolError::NonZeroStatus(st) => {
                let mut s = String::from_str("Non-zero status: ");
                s.append(st.message());
                s
            },
            ProtocolError::InvalidUtf8(_) => String::from_str("Invalid UTF-8"),
            ProtocolError::PacketTooLarge => String::from_str("Packet too large"),
        }
    }
}

impl Error {
    /// Describes this error in words, prefixed with its kind. The text of a
    /// failure of the byte stream is the stream's own.
    pub fn to_string(&self) -> (r: String)
        ensures
            self matches Error::Protocol(p) ==> r@ == "ProtocolError: "@ + p.text(),
            self matches Error::Status(s) ==> r@ == "StatusError: "@ + s.text(),
            self is IoError ==> r@.len() >= 9 && r@.subrange(0, 9) == "IoError: "@,
    {
        match self {
            Error::IoError(e) => {
                let mut s = String::from_str("IoError: ");
                let detail = e.to_string();
                s.append(detail.as_str());
                proof {
                    reveal_strlit("IoError: ");
                    assert(s@.subrange(0, 9) =~= "IoError: "@);
                }
                s
            },
            Error::Protocol(p) => {
                let mut s = String::from_str("ProtocolError: ");
                let detail = p.to_string();
                s.append(detail.as_str());
                s
            },
            Error::Status(st) => {
                let mut s = String::from_str("StatusError: ");
                s.append(st.message());
                s
            },
        }
    }
}

impl From<ProtocolError> for Error {
    fn from(e: ProtocolError) -> (r: Error) {
        Error::Protocol(e)
    }
}

impl vstd::std_specs::convert::FromSpecImpl<ProtocolError> for Error {
    open spec fn obeys_from_spec() -> bool {
        true
    }

    open spec fn from_spec(e: ProtocolError) -> Error {
        Error::Protocol(e)
    }
}

impl From<Status> for Error {
    fn from(s: Status) -> (r: Error) {
        Error::Status(s)
    }
}

impl vstd::std_specs::convert::FromSpecImpl<Status> for Error {
    open spec fn obeys_from_spec() -> bool {
        true
    }

    open spec fn from_spec(s: Status) -> Error {
        Error::Status(s)
    }
}

impl From<std::io::Error> for Error {
    fn from(e: std::io::Error) -> (r: Error) {
        Error::IoError(e)
    }
}

impl vstd::std_specs::convert::FromSpecImpl<std::io::Error> for Error {
    open spec fn obeys_from_spec() -> bool {
        true
    }

    open spec fn from_spec(e: std::io::Error) -> Error {
        Error::IoError(e)
    }
}

} // verus!
