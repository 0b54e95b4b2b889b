//! Debug print categories; the host layer owns the actual printing.

use vstd::prelude::*;

verus! {

/// A category tag for the host layer's debug output.
#[allow(non_camel_case_types)]
#[derive(Clone, Copy, Debug, PartialEq, Eq, Structural)]
pub enum DebugPrint {
    COMMON,
    NETWORK,
    PACKET,
    GRAPHICS,
    LIBCONWAY,
    AUDIO,
    MAXDEBUGPRINTTYPES,
}

/// The numeric code a category carries in the log format: one block of
/// codes per subsystem.
pub open spec fn spec_debug_code(d: DebugPrint) -> u32 {
    match d {
        DebugPrint::COMMON => 0x1000,
        DebugPrint::NETWORK => 0x1001,
        DebugPrint::PACKET => 0x1002,
        DebugPrint::GRAPHICS => 0x2000,
        DebugPrint::LIBCONWAY => 0x3000,
        DebugPrint::AUDIO => 0x4000,
        DebugPrint::MAXDEBUGPRINTTYPES => 0xFFFF,
    }
}

impl DebugPrint {
    /// This category's numeric code.
    pub fn code(&self) -> (r: u32)
        ensures
            r == spec_debug_code(*self),
    {
        match self {
            DebugPrint::COMMON => 0x1000,
            DebugPrint::NETWORK => 0x1001,
            DebugPrint::PACKET => 0x1002,
            DebugPrint::GRAPHICS => 0x2000,
            DebugPrint::LIBCONWAY => 0x3000,
            DebugPrint::AUDIO => 0x4000,
            DebugPrint::MAXDEBUGPRINTTYPES => 0xFFFF,
        }
    }
}

} // verus!
