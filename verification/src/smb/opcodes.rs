//! The application header's command-code enumeration: nineteen known
//! operations; any other 16-bit value is rejected.

use vstd::prelude::*;

verus! {

#[derive(Debug, Clone, Copy, PartialEq, Eq, Structural)]
pub enum Opcodes {
    NegotiateProtocol,
    SessionSetup,
    SessionLogoff,
    TreeConnect,
    TreeDisconnect,
    Create,
    Close,
    Flush,
    Read,
    Write,
    Lock,
    Ioctl,
    Cancel,
    KeepAlive,
    Find,
    Notify,
    GetInfo,
    SetInfo,
    Break,
}

#[derive(Debug, Clone, Copy, PartialEq, Eq, Structural)]
pub enum Error {
    UnknownOpcode,
}

/// The operation a 16-bit wire value denotes, if any: the table covers
/// exactly the values 0x00 through 0x12.
pub open spec fn spec_opcode_of(v: u16) -> Option<Opcodes> {
    if v == 0x00 {
        Some(Opcodes::NegotiateProtocol)
    } else if v == 0x01 {
        Some(Opcodes::SessionSetup)
    } else if v == 0x02 {
        Some(Opcodes::SessionLogoff)
    } else if v == 0x03 {
        Some(Opcodes::TreeConnect)
    } else if v == 0x04 {
        Some(Opcodes::TreeDisconnect)
    } else if v == 0x05 {
        Some(Opcodes::Create)
    } else if v == 0x06 {
        Some(Opcodes::Close)
    } else if v == 0x07 {
        Some(Opcodes::Flush)
    } else if v == 0x08 {
        Some(Opcodes::Read)
    } else if v == 0x09 {
        Some(Opcodes::Write)
    } else if v == 0x0a {
        Some(Opcodes::Lock)
    } else if v == 0x0b {
        Some(Opcodes::Ioctl)
    } else if v == 0x0c {
        Some(Opcodes::Cancel)
    } else if v == 0x0d {
        Some(Opcodes::KeepAlive)
    } else if v == 0x0e {
        Some(Opcodes::Find)
    } else if v == 0x0f {
        Some(Opcodes::Notify)
    } else if v == 0x10 {
        Some(Opcodes::GetInfo)
    } else if v == 0x11 {
        Some(Opcodes::SetInfo)
    } else if v == 0x12 {
        Some(Opcodes::Break)
    } else {
        None
    }
}

/// The wire value of an operation.
pub open spec fn spec_opcode_num(op: Opcodes) -> u16 {
    match op {
        Opcodes::NegotiateProtocol => 0x00,
        Opcodes::SessionSetup => 0x01,
        Opcodes::SessionLogoff => 0x02,
        Opcodes::TreeConnect => 0x03,
        Opcodes::TreeDisconnect => 0x04,
        Opcodes::Create => 0x05,
        Opcodes::Close => 0x06,
        Opcodes::Flush => 0x07,
        Opcodes::Read => 0x08,
        Opcodes::Write => 0x09,
        Opcodes::Lock => 0x0a,
        Opcodes::Ioctl => 0x0b,
        Opcodes::Cancel => 0x0c,
        Opcodes::KeepAlive => 0x0d,
        Opcodes::Find => 0x0e,
        Opcodes::Notify => 0x0f,
        Opcodes::GetInfo => 0x10,
        Opcodes::SetInfo => 0x11,
        Opcodes::Break => 0x12,
    }
}

impl Opcodes {
    /// Decode a wire value; a value outside the table (0x13 and above) is an
    /// unknown opcode.
    pub fn try_from(value: u16) -> (r: Result<Self, Error>)
        ensures
            r == (match spec_opcode_of(value) {
                Some(op) => Ok::<Opcodes, Error>(op),
                None => Err::<Opcodes, Error>(Error::UnknownOpcode),
            }),
    {
        match value {
            0x00 => Ok(Opcodes::NegotiateProtocol),
            0x01 => Ok(Opcodes::SessionSetup),
            0x02 => Ok(Opcodes::SessionLogoff),
            0x03 => Ok(Opcodes::TreeConnect),
            0x04 => Ok(Opcodes::TreeDisconnect),
            0x05 => Ok(Opcodes::Create),
            0x06 => Ok(Opcodes::Close),
            0x07 => Ok(Opcodes::Flush),
            0x08 => Ok(Opcodes::Read),
            0x09 => Ok(Opcodes::Write),
            0x0a => Ok(Opcodes::Lock),
            0x0b => Ok(Opcodes::Ioctl),
            0x0c => Ok(Opcodes::Cancel),
            0x0d => Ok(Opcodes::KeepAlive),
            0x0e => Ok(Opcodes::Find),
            0x0f => Ok(Opcodes::Notify),
            0x10 => Ok(Opcodes::GetInfo),
            0x11 => Ok(Opcodes::SetInfo),
            0x12 => Ok(Opcodes::Break),
            _ => Err(Error::UnknownOpcode),
        }
    }

    /// Encode back to the wire value.
    pub fn as_u16(&self) -> (r: u16)
        ensures
            r == spec_opcode_num(*self),
    {
        match self {
            Opcodes::NegotiateProtocol => 0x00,
            Opcodes::SessionSetup => 0x01,
            Opcodes::SessionLogoff => 0x02,
            Opcodes::TreeConnect => 0x03,
            Opcodes::TreeDisconnect => 0x04,
            Opcodes::Create => 0x05,
            Opcodes::Close => 0x06,
            Opcodes::Flush => 0x07,
            Opcodes::Read => 0x08,
            Opcodes::Write => 0x09,
            Opcodes::Lock => 0x0a,
            Opcodes::Ioctl => 0x0b,
            Opcodes::Cancel => 0x0c,
            Opcodes::KeepAlive => 0x0d,
            Opcodes::Find => 0x0e,
            Opcodes::Notify => 0x0f,
            Opcodes::GetInfo => 0x10,
            Opcodes::SetInfo => 0x11,
            Opcodes::Break => 0x12,
        }
    }
}

/// Decoding is a partial inverse of encoding: every operation's wire value
/// decodes back to that operation.
pub proof fn lemma_opcode_round_trip(op: Opcodes)
    ensures
        spec_opcode_of(spec_opcode_num(op)) == Some(op),
{
}

/// Encoding is a partial inverse of decoding: a wire value that decodes to
/// an operation is that operation's wire value.
pub proof fn lemma_opcode_of_num(v: u16)
    ensures
        spec_opcode_of(v) matches Some(op) ==> spec_opcode_num(op) == v,
{
}

} // verus!
