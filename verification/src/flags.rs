//! The packed layout field of a font header: one bit for each smushing rule
//! and two bits for each axis that choose its layout mode.

use vstd::prelude::*;

verus! {

pub const HRULE1: u16 = 0x0001;
pub const HRULE2: u16 = 0x0002;
pub const HRULE3: u16 = 0x0004;
pub const HRULE4: u16 = 0x0008;
pub const HRULE5: u16 = 0x0010;
pub const HRULE6: u16 = 0x0020;
pub const HLAYOUT_FIT: u16 = 0x0040;
pub const HLAYOUT_SMUSH: u16 = 0x0080;
pub const VRULE1: u16 = 0x0100;
pub const VRULE2: u16 = 0x0200;
pub const VRULE3: u16 = 0x0400;
pub const VRULE4: u16 = 0x0800;
pub const VRULE5: u16 = 0x1000;
pub const VLAYOUT_FIT: u16 = 0x2000;
pub const VLAYOUT_SMUSH: u16 = 0x4000;

/// Every bit that has a meaning; the top bit has none.
pub const ALL_FLAGS: u16 = 0x7fff;

/// Whether every bit of `mask` is set in `bits`.
pub open spec fn flag_set(bits: u16, mask: u16) -> bool {
    bits & mask == mask
}

/// A set of layout flags. Its view is the bit pattern.
#[derive(Clone, Copy, Debug)]
pub struct RuleFlags {
    bits: u16,
}

impl View for RuleFlags {
    type V = u16;

    closed spec fn view(&self) -> u16 {
        self.bits
    }
}

impl RuleFlags {
    /// The set with no flag.
    pub fn empty() -> (r: RuleFlags)
        ensures
            r@ == 0,
    {
        RuleFlags { bits: 0 }
    }

    /// The flags of a bit pattern; the bit without a meaning is dropped.
    pub fn from_bits_truncate(bits: u16) -> (r: RuleFlags)
        ensures
            r@ == bits & ALL_FLAGS,
    {
        RuleFlags { bits: bits & ALL_FLAGS }
    }

    /// The bit pattern.
    pub fn bits(&self) -> (r: u16)
        ensures
            r == self@,
    {
        self.bits
    }

    /// Whether every flag of `mask` is in the set.
    pub fn contains(&self, mask: u16) -> (r: bool)
        ensures
            r == flag_set(self@, mask),
    {
        self.bits & mask == mask
    }
}

/// The empty bit pattern holds no flag.
pub proof fn lemma_zero_holds_no_flag(mask: u16)
    requires
        mask != 0,
    ensures
        !flag_set(0, mask),
{
    assert(0u16 & mask == mask ==> mask == 0) by (bit_vector);
}

/// Dropping the bit without a meaning changes no flag.
pub proof fn lemma_truncate_keeps_flags(bits: u16, mask: u16)
    requires
        mask <= ALL_FLAGS,
    ensures
        flag_set(bits & ALL_FLAGS, mask) == flag_set(bits, mask),
{
    assert((bits & 0x7fffu16) & mask == mask <==> bits & mask == mask) by (bit_vector)
        requires
            mask <= 0x7fffu16,
    ;
}

} // verus!
