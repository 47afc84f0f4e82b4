//! One socket of an instance: its flags, its type and slot, and what it is
//! fed from.

use crate::encoding::encodable_socket;
use crate::errors::NodeParseError;
use crate::inverse::lemma_socket_was_written;
use crate::lexer::Lexer;
use crate::packing::{be_number, be_u32};
use crate::wire::{
    byte_at, pair_at, read_byte, read_pair, read_text, resting, run_at, text_at, value_of, viewed,
    Outcome,
};
use vstd::prelude::*;

verus! {

/// The kind of a socket.
#[derive(Debug, Clone, Copy, PartialEq, Eq, Structural)]
pub enum SocketType {
    OutgoingNamed,
    IncomingNamed,
    IncomingNumber,
    IncomingSelect,
    IncomingSwitch,
    IncomingText,
}

/// The type code of a flags byte: its bits 5 to 3.
pub open spec fn type_code(flags: u8) -> u8 {
    (flags >> 3) & 0b111
}

/// Bit 2 of a flags byte: the socket is repetitive.
pub open spec fn repetitive_bit(flags: u8) -> bool {
    flags & 0b100 != 0
}

/// Bit 1 of a flags byte: the socket is connected.
pub open spec fn connected_bit(flags: u8) -> bool {
    flags & 0b010 != 0
}

/// Bit 0 of a flags byte: the switch is on.
pub open spec fn switch_on_bit(flags: u8) -> bool {
    flags & 0b001 != 0
}

/// The socket type that a type code stands for; none for the codes 6 and 7.
pub open spec fn type_of_code(code: u8) -> Option<SocketType> {
    if code == 0 {
        Some(SocketType::OutgoingNamed)
    } else if code == 1 {
        Some(SocketType::IncomingNamed)
    } else if code == 2 {
        Some(SocketType::IncomingNumber)
    } else if code == 3 {
        Some(SocketType::IncomingSelect)
    } else if code == 4 {
        Some(SocketType::IncomingSwitch)
    } else if code == 5 {
        Some(SocketType::IncomingText)
    } else {
        None
    }
}

/// A flags byte is legal when its type code is one of the six defined codes
/// and it does not mark an `IncomingSwitch` as repetitive.
pub open spec fn legal_flags(flags: u8) -> bool {
    type_code(flags) <= 5 && !(repetitive_bit(flags) && type_code(flags) == 4)
}

/// What checking a flags byte comes to when `at` bytes have been consumed:
/// the byte itself when it is legal, else the error for its first fault.
pub open spec fn checked_flags(flags: u8, at: u64) -> Result<u8, NodeParseError> {
    if type_code(flags) > 5 {
        Err(NodeParseError::InvalidSocketType(at))
    } else if repetitive_bit(flags) && type_code(flags) == 4 {
        Err(NodeParseError::InvalidSocketCombination(at))
    } else {
        Ok(flags)
    }
}

/// Masking bits 5 to 3 and shifting them down gives the type code, which is
/// below 8.
pub proof fn lemma_type_code(flags: u8)
    ensures
        (flags & 0b0011_1000) >> 3 == type_code(flags),
        type_code(flags) < 8,
{
    assert((flags & 0b0011_1000) >> 3 == (flags >> 3) & 0b111) by (bit_vector);
    assert((flags >> 3) & 0b111 < 8) by (bit_vector);
}

/// Whether a flags byte is legal, and which error it gets where it is not,
/// rests on its type code and its repetitive bit alone: two bytes that
/// agree in bits 5 to 2 are both legal, or get the same error, whatever
/// their connected and switch-on bits and their two high bits are.
pub proof fn lemma_verdict_ignores_other_bits(flags: u8, other: u8, at: u64)
    requires
        flags & 0b0011_1100 == other & 0b0011_1100,
    ensures
        checked_flags(flags, at).is_ok() == checked_flags(other, at).is_ok(),
        checked_flags(flags, at) matches Err(e) ==> checked_flags(other, at) == Err::<
            u8,
            NodeParseError,
        >(e),
{
    assert(type_code(flags) == type_code(other) && repetitive_bit(flags) == repetitive_bit(other))
        by (bit_vector)
        requires
            flags & 0b0011_1100 == other & 0b0011_1100,
    ;
}

/// A type code of 6 or 7 is an invalid socket type, and a repetitive
/// `IncomingSwitch` is an invalid combination, whatever the other bits are.
pub proof fn lemma_illegal_flags(flags: u8, at: u64)
    ensures
        (flags & 0b0011_0000 == 0b0011_0000) ==> checked_flags(flags, at) == Err::<
            u8,
            NodeParseError,
        >(NodeParseError::InvalidSocketType(at)),
        (flags & 0b0011_1100 == 0b0010_0100) ==> checked_flags(flags, at) == Err::<
            u8,
            NodeParseError,
        >(NodeParseError::InvalidSocketCombination(at)),
{
    assert((flags & 0b0011_0000 == 0b0011_0000) ==> type_code(flags) > 5) by (bit_vector);
    assert((flags & 0b0011_1100 == 0b0010_0100) ==> type_code(flags) == 4 && repetitive_bit(flags))
        by (bit_vector);
}

impl SocketType {
    /// The socket type that the type code of `flags` stands for.
    pub fn from_flags(flags: &SocketFlags) -> (kind: Self)
        ensures
            Some(kind) == type_of_code(type_code(flags@)),
    {
        proof {
            use_type_invariant(flags);
        }
        let byte: u8 = flags.0;
        let code: u8 = (byte & 0b00111000) >> 3;
        proof {
            lemma_type_code(byte);
        }
        if code == 0 {
            Self::OutgoingNamed
        } else if code == 1 {
            Self::IncomingNamed
        } else if code == 2 {
            Self::IncomingNumber
        } else if code == 3 {
            Self::IncomingSelect
        } else if code == 4 {
            Self::IncomingSwitch
        } else {
            Self::IncomingText
        }
    }

    /// Whether the socket takes a value in: true of every type but
    /// `OutgoingNamed`.
    pub fn is_incoming(&self) -> (incoming: bool)
        ensures
            incoming == (*self != SocketType::OutgoingNamed),
    {
        match self {
            Self::OutgoingNamed => false,
            _ => true,
        }
    }
}

/// A legal flags byte.
#[derive(Debug, Clone, Copy, PartialEq, Eq)]
pub struct SocketFlags(u8);

impl View for SocketFlags {
    type V = u8;

    closed spec fn view(&self) -> u8 {
        self.0
    }
}

impl SocketFlags {
    #[verifier::type_invariant]
    spec fn legal(self) -> bool {
        legal_flags(self.0)
    }

    /// Checks a flags byte read when `byte_read` bytes had been consumed.
    pub fn from_byte(byte: u8, byte_read: u64) -> (r: Result<SocketFlags, NodeParseError>)
        ensures
            viewed(r) == checked_flags(byte, byte_read),
    {
        let socket_type: u8 = (byte & 0b00111000) >> 3;
        proof {
            lemma_type_code(byte);
        }
        if socket_type > 5 {
            return Err(NodeParseError::InvalidSocketType(byte_read));
        }
        if byte & 0b100 != 0 && socket_type == 4 {
            return Err(NodeParseError::InvalidSocketCombination(byte_read));
        }
        Ok(SocketFlags(byte))
    }

    /// The flags byte, which is legal.
    pub fn bits(&self) -> (flags: u8)
        ensures
            flags == self@,
            legal_flags(flags),
    {
        proof {
            use_type_invariant(self);
        }
        self.0
    }

    /// The socket's type.
    pub fn get_type(&self) -> (kind: SocketType)
        ensures
            Some(kind) == type_of_code(type_code(self@)),
    {
        SocketType::from_flags(self)
    }

    /// Whether the socket is marked repetitive.
    pub fn is_repetitive(&self) -> (set: bool)
        ensures
            set == repetitive_bit(self@),
    {
        self.0 & 0b100 != 0
    }

    /// Whether the socket is fed from a connection.
    pub fn is_connected(&self) -> (set: bool)
        ensures
            set == connected_bit(self@),
    {
        self.0 & 0b010 != 0
    }

    /// Whether the switch is on; means something for `IncomingSwitch` only.
    pub fn is_switch_on(&self) -> (set: bool)
        ensures
            set == switch_on_bit(self@),
    {
        self.0 & 0b001 != 0
    }
}

/// What a socket is fed from.
#[derive(Debug, PartialEq, Eq)]
pub enum DataType {
    /// The key of an instance and the slot of one of its sockets.
    Connection(u8, u8),
    /// A value written into the file.
    Constant(String),
}

/// A [`DataType`] with its text as a sequence of characters.
pub ghost enum DataView {
    Connection(u8, u8),
    Constant(Seq<char>),
}

impl View for DataType {
    type V = DataView;

    open spec fn view(&self) -> DataView {
        match *self {
            DataType::Connection(node, socket) => DataView::Connection(node, socket),
            DataType::Constant(text) => DataView::Constant(text@),
        }
    }
}

/// One typed port of an instance.
#[derive(Debug, PartialEq, Eq)]
pub struct Socket {
    pub flags: SocketFlags,
    /// Index into the table of type names; not checked against its length.
    pub type_index: usize,
    pub port_slot: u8,
    pub data: Option<DataType>,
}

/// A [`Socket`] as plain values.
pub ghost struct SocketView {
    pub flags: u8,
    pub type_index: usize,
    pub port_slot: u8,
    pub data: Option<DataView>,
}

impl View for Socket {
    type V = SocketView;

    open spec fn view(&self) -> SocketView {
        SocketView {
            flags: self.flags@,
            type_index: self.type_index,
            port_slot: self.port_slot,
            data: match self.data {
                Some(d) => Some(d@),
                None => None,
            },
        }
    }
}

/// What feeds a socket with the legal flags byte `flags`, read from offset
/// `at` on. An outgoing socket has nothing behind it. A connected incoming
/// socket has two bytes, the key of an instance and a slot. Any other
/// incoming socket but a switch has its value as text: four bytes that spell
/// the length, then that many bytes of UTF-8. An unconnected switch has
/// nothing behind it.
pub open spec fn payload_at(input: Seq<u8>, at: int, flags: u8) -> Outcome<Option<DataView>> {
    if type_code(flags) == 0 {
        Ok((None, at))
    } else if connected_bit(flags) {
        match pair_at(input, at, "socket connection") {
            Err(e) => Err(e),
            Ok((pair, next)) => Ok((Some(DataView::Connection(pair.0, pair.1)), next)),
        }
    } else if type_code(flags) != 4 {
        match run_at(input, at, 4, "socket constant value length") {
            Err(e) => Err(e),
            Ok((len, next)) => match text_at(
                input,
                next,
                be_number(len) as int,
                "socket constant value",
            ) {
                Err(e) => Err(e),
                Ok((text, end)) => Ok((Some(DataView::Constant(text)), end)),
            },
        }
    } else {
        Ok((None, at))
    }
}

/// The socket that starts at offset `at`: the flags byte, which must be
/// legal, the type index, the port slot, and what feeds the socket.
pub open spec fn socket_at(input: Seq<u8>, at: int) -> Outcome<SocketView> {
    match byte_at(input, at, "socket flags") {
        Err(e) => Err(e),
        Ok((byte, _)) => match checked_flags(byte, (at + 1) as u64) {
            Err(e) => Err(e),
            Ok(flags) => match byte_at(input, at + 1, "socket type index") {
                Err(e) => Err(e),
                Ok((type_index, _)) => match byte_at(input, at + 2, "socket port slot") {
                    Err(e) => Err(e),
                    Ok((port_slot, _)) => match payload_at(input, at + 3, flags) {
                        Err(e) => Err(e),
                        Ok((data, next)) => Ok(
                            (
                                SocketView {
                                    flags,
                                    type_index: type_index as usize,
                                    port_slot,
                                    data,
                                },
                                next,
                            ),
                        ),
                    },
                },
            },
        },
    }
}

impl Socket {
    /// Decodes the socket at the cursor.
    pub fn from_bytes(lexer: &mut Lexer) -> (r: Result<Self, NodeParseError>)
        ensures
            final(lexer).input() == old(lexer).input(),
            viewed(r) == value_of(socket_at(old(lexer).input(), old(lexer).position())),
            final(lexer).position() == resting(
                socket_at(old(lexer).input(), old(lexer).position()),
            ),
            r matches Ok(socket) ==> encodable_socket(socket@),
    {
        proof {
            lexer.lemma_position_is_natural();
            if socket_at(lexer.input(), lexer.position()).is_ok() {
                lemma_socket_was_written(lexer.input(), lexer.position());
            }
        }
        let byte: u8 = read_byte(lexer, "socket flags")?;
        let flags = SocketFlags::from_byte(byte, lexer.bytes_read())?;
        let type_index: u8 = read_byte(lexer, "socket type index")?;
        let port_slot: u8 = read_byte(lexer, "socket port slot")?;

        let mut data = None;
        if flags.get_type().is_incoming() {
            if flags.is_connected() {
                let (node, socket) = read_pair(lexer, "socket connection")?;
                data = Some(DataType::Connection(node, socket));
            } else if !matches!(flags.get_type(), SocketType::IncomingSwitch) {
                let value_len_bytes = lexer.take(4);
                if value_len_bytes.len() < 4 {
                    return Err(
                        NodeParseError::EOF("socket constant value length", lexer.bytes_read()),
                    );
                }
                let value_len: usize = be_u32(&value_len_bytes) as usize;
                let value = read_text(lexer, value_len, "socket constant value")?;
                data = Some(DataType::Constant(value));
            }
        }
        Ok(Socket { flags, type_index: type_index as usize, port_slot, data })
    }
}

} // verus!
