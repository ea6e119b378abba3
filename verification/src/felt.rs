use vstd::prelude::*;

verus! {

/// A field element of the underlying chain, held as the 256-bit big-endian
/// value it canonically serializes to, split in two 128-bit halves.
///
/// The engine never does field arithmetic on these values: it only compares
/// them, keys maps by them and passes them through into calls, so a plain
/// pair of machine integers is the right representation.
#[derive(PartialEq, Eq, Structural, Clone, Copy, Debug)]
pub struct FieldElement {
    pub hi: u128,
    pub lo: u128,
}

impl FieldElement {
    /// The zero field element.
    pub fn zero() -> (r: FieldElement)
        ensures
            r == (FieldElement { hi: 0, lo: 0 }),
    {
        FieldElement { hi: 0, lo: 0 }
    }

    /// A field element out of one machine word, for small constants.
    pub fn from_u64(v: u64) -> (r: FieldElement)
        ensures
            r == (FieldElement { hi: 0, lo: v as u128 }),
    {
        FieldElement { hi: 0, lo: v as u128 }
    }
}

} // verus!
