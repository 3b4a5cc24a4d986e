//! The application header's 32-bit processing-flags bitset: seven defined
//! bit groups; a value with any other bit set is rejected.

use vstd::prelude::*;

verus! {

/// Union of all defined flag bits: response, async command, related
/// operation, signed, priority mask, DFS operation, replay operation.
pub const FLAGS_MASK: u32 = 0x3000007F;

pub const FLAGS_SERVER_TO_REDIR: u32 = 0x00000001;

pub const FLAGS_ASYNC_COMMAND: u32 = 0x00000002;

pub const FLAGS_RELATED_OPS: u32 = 0x00000004;

pub const FLAGS_SIGNED: u32 = 0x00000008;

pub const FLAGS_PRIORITY_MASK: u32 = 0x00000070;

pub const FLAGS_DFS_OPS: u32 = 0x10000000;

pub const FLAGS_RELAY_OPS: u32 = 0x20000000;

#[derive(Debug, Clone, Copy, PartialEq, Eq, Structural)]
pub struct Flags(u32);

impl Flags {
    /// The raw 32-bit value; only bits inside `FLAGS_MASK` can be set.
    pub closed spec fn spec_bits(self) -> u32 {
        self.0
    }

    /// A well-formed flags value has no bit outside the defined set.
    pub open spec fn wf(self) -> bool {
        self.spec_bits() & !FLAGS_MASK == 0
    }

    /// Accept a raw value exactly when every set bit is a defined one.
    pub fn from_bits(v: u32) -> (r: Option<Self>)
        ensures
            r is Some <==> v & !FLAGS_MASK == 0,
            r matches Some(f) ==> f.spec_bits() == v && f.wf(),
    {
        if v & !FLAGS_MASK == 0 {
            Some(Flags(v))
        } else {
            None
        }
    }

    /// The raw value back.
    pub fn bits(&self) -> (r: u32)
        ensures
            r == self.spec_bits(),
    {
        self.0
    }

    /// True iff every bit of `mask` is set.
    pub fn contains(&self, mask: u32) -> (r: bool)
        ensures
            r == (self.spec_bits() & mask == mask),
    {
        self.0 & mask == mask
    }
}

} // verus!
