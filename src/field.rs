//! Field elements as plain values.
use vstd::prelude::*;

verus! {

/// An element of the scalar field, as four little-endian 64-bit limbs of its
/// canonical representative. Identifiers, commitments, roots and public
/// inputs are all such elements.
#[derive(Clone, Copy, Debug, PartialEq, Eq, Structural)]
pub struct Field {
    pub limbs0: u64,
    pub limbs1: u64,
    pub limbs2: u64,
    pub limbs3: u64,
}

impl Field {
    pub open spec fn spec_from_u64(x: u64) -> Field {
        Field { limbs0: x, limbs1: 0, limbs2: 0, limbs3: 0 }
    }

    /// The element with the given small value.
    pub fn from_u64(x: u64) -> (r: Field)
        ensures
            r == Field::spec_from_u64(x),
    {
        Field { limbs0: x, limbs1: 0, limbs2: 0, limbs3: 0 }
    }

    /// The additive identity.
    pub fn zero() -> (r: Field)
        ensures
            r == Field::spec_from_u64(0),
    {
        Field::from_u64(0)
    }

    /// The multiplicative identity.
    pub fn one() -> (r: Field)
        ensures
            r == Field::spec_from_u64(1),
    {
        Field::from_u64(1)
    }
}

/// Whether `x` occurs in `s`.
pub fn contains_field(s: &Vec<Field>, x: Field) -> (r: bool)
    ensures
        r == s@.contains(x),
{
    let mut i: usize = 0;
    while i < s.len()
        invariant
            0 <= i <= s@.len(),
            forall|j: int| 0 <= j < i ==> s@[j] != x,
        decreases s@.len() - i,
    {
        if s[i] == x {
            return true;
        }
        i = i + 1;
    }
    false
}

/// Appends every element of `src` to `out`.
pub fn extend_fields(out: &mut Vec<Field>, src: &Vec<Field>)
    ensures
        final(out)@ == old(out)@ + src@,
{
    let ghost start = out@;
    let mut i: usize = 0;
    while i < src.len()
        invariant
            0 <= i <= src@.len(),
            out@ == start + src@.subrange(0, i as int),
        decreases src@.len() - i,
    {
        out.push(src[i]);
        i = i + 1;
        assert(out@ =~= start + src@.subrange(0, i as int));
    }
    assert(src@.subrange(0, src@.len() as int) =~= src@);
}

} // verus!
