//! The access flags of a class.

use vstd::prelude::*;

verus! {

/// The class is visible everywhere.
pub const PUBLIC: u32 = 0x1;

/// The class is visible to its defining class only.
pub const PRIVATE: u32 = 0x2;

/// The class is visible to its package and to subclasses.
pub const PROTECTED: u32 = 0x4;

/// The class is not constructed with a reference to an outer instance.
pub const STATIC: u32 = 0x8;

/// The class cannot be subclassed.
pub const FINAL: u32 = 0x10;

/// The class is an interface.
pub const INTERFACE: u32 = 0x200;

/// The class cannot be instantiated.
pub const ABSTRACT: u32 = 0x400;

/// The class does not stand in the source code.
pub const SYNTHETIC: u32 = 0x1000;

/// The class is an annotation class.
pub const ANNOTATION: u32 = 0x2000;

/// The class is an enumerated type.
pub const ENUM: u32 = 0x4000;

/// Every flag that a class can have.
pub const ALL: u32 = 0x761f;

/// Whether `bits` holds known flags only.
pub open spec fn known(bits: u32) -> bool {
    bits & !ALL == 0
}

/// A set of access flags. It never holds a bit that is no known flag.
#[derive(Clone, Copy, Debug, PartialEq, Eq, Structural)]
pub struct AccessFlags {
    bits: u32,
}

impl AccessFlags {
    /// The flags as a bit mask.
    pub closed spec fn spec_bits(&self) -> u32 {
        self.bits
    }

    #[verifier::type_invariant]
    spec fn only_known_flags(self) -> bool {
        known(self.bits)
    }

    /// The set of the flags in `bits`, or `None` where a bit of `bits` is no
    /// known flag.
    pub fn from_bits(bits: u32) -> (r: Option<AccessFlags>)
        ensures
            known(bits) ==> (r matches Some(flags) && flags.spec_bits() == bits),
            !known(bits) ==> r is None,
    {
        if bits & !ALL == 0 {
            Some(AccessFlags { bits })
        } else {
            None
        }
    }

    /// The set without a flag.
    pub fn empty() -> (flags: AccessFlags)
        ensures
            flags.spec_bits() == 0,
    {
        assert(0u32 & !0x761fu32 == 0) by (bit_vector);
        AccessFlags { bits: 0 }
    }

    /// The flags as a bit mask, which holds known flags only.
    #[verifier::when_used_as_spec(spec_bits)]
    pub fn bits(&self) -> (bits: u32)
        ensures
            bits == self.spec_bits(),
            known(bits),
    {
        proof {
            use_type_invariant(self);
        }
        self.bits
    }

    /// Whether every flag of `mask` is in the set.
    pub fn contains(&self, mask: u32) -> (r: bool)
        ensures
            r == (self.spec_bits() & mask == mask),
    {
        self.bits & mask == mask
    }
}

/// The known flags are the ten named ones and their unions.
pub proof fn lemma_known_flags(bits: u32)
    ensures
        known(bits) <==> bits == bits & (PUBLIC | PRIVATE | PROTECTED | STATIC | FINAL | INTERFACE
            | ABSTRACT | SYNTHETIC | ANNOTATION | ENUM),
{
    assert((bits & !0x761fu32 == 0) <==> bits == bits & (0x1u32 | 0x2u32 | 0x4u32 | 0x8u32 | 0x10u32
        | 0x200u32 | 0x400u32 | 0x1000u32 | 0x2000u32 | 0x4000u32)) by (bit_vector);
}

} // verus!
