//! The ways in which decoding a `kronarknode` file can fail.

use vstd::prelude::*;
use vstd::string::StringExecFns;

verus! {

/// A failed decode. Every variant carries the number of bytes that had been
/// consumed from the input when the failure was noticed.
#[derive(Debug, PartialEq, Eq)]
pub enum NodeParseError {
    /// Unexpected end: the input ended while the named field, table or
    /// string was being read.
    EOF(&'static str, u64),
    /// Invalid header: the input does not begin with the magic number.
    InvalidFile(u64),
    /// Unsupported version: the version byte names a version that this
    /// decoder does not know.
    InvalidVersion(u64),
    /// Invalid UTF-8: the bytes of a string are not valid UTF-8.
    UTF8EncodingError(u64),
    /// Trailing data: bytes are left over behind a structurally complete
    /// file. The offset is the length of that file: the offset at which
    /// the left-over bytes begin.
    FileTooLong(u64),
    /// The type code of a socket is not one of the six defined codes.
    InvalidSocketType(u64),
    /// A socket is marked repetitive and typed `IncomingSwitch` at once.
    InvalidSocketCombination(u64),
}

/// The character for the digit `d`, which is below ten.
pub open spec fn digit(d: nat) -> char {
    (0x30 + d) as char
}

/// `n` written in decimal digits, without leading zeros.
pub open spec fn decimal(n: nat) -> Seq<char>
    decreases n,
{
    if n < 10 {
        seq![digit(n)]
    } else {
        decimal(n / 10).push(digit(n % 10))
    }
}

/// The message for the error `e`: what went wrong, then at which byte, on a
/// line of its own.
pub open spec fn message_of(e: NodeParseError) -> Seq<char> {
    match e {
        NodeParseError::EOF(field, at) => "Early EOF while reading "@ + field@
            + ". At byte offset "@ + decimal(at as nat) + "\n"@,
        NodeParseError::InvalidFile(at) =>
            "File type not recognized (magic number incorrect), At byte offset "@ + decimal(
                at as nat,
            ) + "\n"@,
        NodeParseError::InvalidVersion(at) => "Invalid Version. At byte offset "@ + decimal(
            at as nat,
        ) + " \n"@,
        NodeParseError::UTF8EncodingError(at) =>
            "Could not parse, got invalid UTF8. At byte offset "@ + decimal(at as nat) + "\n"@,
        NodeParseError::FileTooLong(at) => "Extra data at the end of parsing. At byte offset: "@
            + decimal(at as nat) + "\n"@,
        NodeParseError::InvalidSocketType(at) =>
            "Socket type is an invalid number. At byte offset: "@ + decimal(at as nat) + "\n"@,
        NodeParseError::InvalidSocketCombination(at) =>
            "Socket is marked as repetitive and as type `IncomingSwitch`, an illegal combination. At byte offset: "@
                + decimal(at as nat) + "\n"@,
    }
}

/// Appends `n` in decimal digits to `text`.
fn push_decimal(text: &mut String, n: u64)
    ensures
        final(text)@ == old(text)@ + decimal(n as nat),
    decreases n,
{
    if n >= 10 {
        push_decimal(text, n / 10);
    }
    let d: u8 = (n % 10) as u8;
    text.push((0x30 + d) as char);
}

impl NodeParseError {
    /// The message that tells a user of this error.
    pub fn message(&self) -> (text: String)
        ensures
            text@ == message_of(*self),
    {
        match self {
            NodeParseError::EOF(field, at) => {
                let mut text = String::from_str("Early EOF while reading ");
                text.append(field);
                text.append(". At byte offset ");
                push_decimal(&mut text, *at);
                text.append("\n");
                text
            },
            NodeParseError::InvalidFile(at) => {
                let mut text = String::from_str(
                    "File type not recognized (magic number incorrect), At byte offset ",
                );
                push_decimal(&mut text, *at);
                text.append("\n");
                text
            },
            NodeParseError::InvalidVersion(at) => {
                let mut text = String::from_str("Invalid Version. At byte offset ");
                push_decimal(&mut text, *at);
                text.append(" \n");
                text
            },
            NodeParseError::UTF8EncodingError(at) => {
                let mut text = String::from_str(
                    "Could not parse, got invalid UTF8. At byte offset ",
                );
                push_decimal(&mut text, *at);
                text.append("\n");
                text
            },
            NodeParseError::FileTooLong(at) => {
                let mut text = String::from_str(
                    "Extra data at the end of parsing. At byte offset: ",
                );
                push_decimal(&mut text, *at);
                text.append("\n");
                text
            },
            NodeParseError::InvalidSocketType(at) => {
                let mut text = String::from_str(
                    "Socket type is an invalid number. At byte offset: ",
                );
                push_decimal(&mut text, *at);
                text.append("\n");
                text
            },
            NodeParseError::InvalidSocketCombination(at) => {
                let mut text = String::from_str(
                    "Socket is marked as repetitive and as type `IncomingSwitch`, an illegal combination. At byte offset: ",
                );
                push_decimal(&mut text, *at);
                text.append("\n");
                text
            },
        }
    }


    /// The byte offset that the error carries.
    pub open spec fn spec_offset(&self) -> u64 {
        match *self {
            NodeParseError::EOF(_, at) => at,
            NodeParseError::InvalidFile(at) => at,
            NodeParseError::InvalidVersion(at) => at,
            NodeParseError::UTF8EncodingError(at) => at,
            NodeParseError::FileTooLong(at) => at,
            NodeParseError::InvalidSocketType(at) => at,
            NodeParseError::InvalidSocketCombination(at) => at,
        }
    }

    /// The byte offset at which decoding stopped.
    #[verifier::when_used_as_spec(spec_offset)]
    pub fn offset(&self) -> (at: u64)
        ensures
            at == self.spec_offset(),
    {
        match self {
            NodeParseError::EOF(_, at) => *at,
            NodeParseError::InvalidFile(at) => *at,
            NodeParseError::InvalidVersion(at) => *at,
            NodeParseError::UTF8EncodingError(at) => *at,
            NodeParseError::FileTooLong(at) => *at,
            NodeParseError::InvalidSocketType(at) => *at,
            NodeParseError::InvalidSocketCombination(at) => *at,
        }
    }
}

} // verus!
