use vstd::prelude::*;

verus! {

/// The opcodes of the wire protocol: a closed enumeration, with a
/// total mapping from the wire byte (unknown bytes map to `None`).
#[derive(Clone, Copy, PartialEq, Eq, Structural, Debug)]
pub enum OpCodes {
    ErrorCode,
    Info,
    Auth,
    Publish,
    Subscribe,
    Unsubscribe,
}

impl OpCodes {
    /// The byte that stands for this opcode on the wire.
    pub open spec fn spec_byte(self) -> u8 {
        match self {
            OpCodes::ErrorCode => 0,
            OpCodes::Info => 1,
            OpCodes::Auth => 2,
            OpCodes::Publish => 3,
            OpCodes::Subscribe => 4,
            OpCodes::Unsubscribe => 5,
        }
    }

    /// The opcode a wire byte stands for, `None` for an unknown byte.
    pub open spec fn spec_from_byte(b: u8) -> Option<OpCodes> {
        if b == 0 {
            Some(OpCodes::ErrorCode)
        } else if b == 1 {
            Some(OpCodes::Info)
        } else if b == 2 {
            Some(OpCodes::Auth)
        } else if b == 3 {
            Some(OpCodes::Publish)
        } else if b == 4 {
            Some(OpCodes::Subscribe)
        } else if b == 5 {
            Some(OpCodes::Unsubscribe)
        } else {
            None
        }
    }

    /// Write this opcode as its wire byte.
    pub fn as_byte(self) -> (r: u8)
        ensures
            r == self.spec_byte(),
    {
        match self {
            OpCodes::ErrorCode => 0,
            OpCodes::Info => 1,
            OpCodes::Auth => 2,
            OpCodes::Publish => 3,
            OpCodes::Subscribe => 4,
            OpCodes::Unsubscribe => 5,
        }
    }

    /// Read an opcode from its wire byte; total over all byte values.
    pub fn from_byte(b: u8) -> (r: Option<OpCodes>)
        ensures
            r == Self::spec_from_byte(b),
    {
        match b {
            0 => Some(OpCodes::ErrorCode),
            1 => Some(OpCodes::Info),
            2 => Some(OpCodes::Auth),
            3 => Some(OpCodes::Publish),
            4 => Some(OpCodes::Subscribe),
            5 => Some(OpCodes::Unsubscribe),
            _ => None,
        }
    }
}

} // verus!
