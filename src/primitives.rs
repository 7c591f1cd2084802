use vstd::prelude::*;

verus! {

/// A 160-bit account address, held as its top 32 bits and its low 128 bits.
#[derive(Clone, Copy, Debug, PartialEq, Eq, Structural, Hash)]
pub struct Address {
    pub hi: u32,
    pub lo: u128,
}

/// A 256-bit word, held as its top and bottom 128 bits.
#[derive(Clone, Copy, Debug, PartialEq, Eq, Structural, Hash)]
pub struct Word256 {
    pub hi: u128,
    pub lo: u128,
}

/// A storage slot key.
pub type U256 = Word256;

/// A code hash.
pub type B256 = Word256;

impl Address {
    /// The address as a number below `2^160`.
    pub open spec fn value(self) -> nat {
        self.hi as nat * 0x1_0000_0000_0000_0000_0000_0000_0000_0000 + self.lo as nat
    }

    pub fn new(hi: u32, lo: u128) -> (r: Address)
        ensures
            r.hi == hi,
            r.lo == lo,
    {
        Address { hi, lo }
    }
}

impl Word256 {
    /// The word as a number below `2^256`.
    pub open spec fn value(self) -> nat {
        self.hi as nat * 0x1_0000_0000_0000_0000_0000_0000_0000_0000 + self.lo as nat
    }

    pub fn new(hi: u128, lo: u128) -> (r: Word256)
        ensures
            r.hi == hi,
            r.lo == lo,
    {
        Word256 { hi, lo }
    }

    /// The word that holds a small number.
    pub fn from_u128(n: u128) -> (r: Word256)
        ensures
            r.value() == n,
    {
        Word256 { hi: 0, lo: n }
    }
}

} // verus!
