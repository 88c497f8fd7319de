//! The bits of a transaction's Merkle leaf.
use crate::field::Field;
use vstd::prelude::*;

verus! {

/// The number of bits of a field element.
pub const FIELD_SIZE_IN_BITS: usize = 253;

/// Bit `i` of `x`, counting from the least significant.
pub open spec fn bit(x: u64, i: int) -> bool {
    ((x >> (i as u64)) & 1u64) == 1u64
}

/// The low `n` bits of `x`, least significant first.
pub open spec fn bits_le(x: u64, n: nat) -> Seq<bool> {
    Seq::new(n, |i: int| bit(x, i))
}

/// The low `n` bits of `x`, most significant first.
pub open spec fn bits_be(x: u64, n: nat) -> Seq<bool> {
    Seq::new(n, |i: int| bit(x, n - 1 - i))
}

/// The limb of `f` that holds bit `i`.
pub open spec fn limb(f: Field, i: int) -> u64 {
    if i < 64 {
        f.limbs0
    } else if i < 128 {
        f.limbs1
    } else if i < 192 {
        f.limbs2
    } else {
        f.limbs3
    }
}

/// Bit `i` of a field element, counting from the least significant.
pub open spec fn field_bit(f: Field, i: int) -> bool {
    bit(limb(f, i), i % 64)
}

/// The bits of a field element, least significant first.
pub open spec fn field_bits_le(f: Field) -> Seq<bool> {
    Seq::new(FIELD_SIZE_IN_BITS as nat, |i: int| field_bit(f, i))
}

/// The bits of a field element, most significant first.
pub open spec fn field_bits_be(f: Field) -> Seq<bool> {
    Seq::new(FIELD_SIZE_IN_BITS as nat, |i: int| field_bit(f, FIELD_SIZE_IN_BITS - 1 - i))
}

/// A leaf of a transaction's Merkle tree: the kind of entry, its position,
/// and its ID.
#[derive(Clone, Copy, Debug, PartialEq, Eq, Structural)]
pub struct TransactionLeaf {
    pub variant: u8,
    pub index: u16,
    pub id: Field,
}

pub open spec fn leaf_bits_le(l: TransactionLeaf) -> Seq<bool> {
    bits_le(l.variant as u64, 8) + bits_le(l.index as u64, 16) + field_bits_le(l.id)
}

pub open spec fn leaf_bits_be(l: TransactionLeaf) -> Seq<bool> {
    bits_be(l.variant as u64, 8) + bits_be(l.index as u64, 16) + field_bits_be(l.id)
}

fn get_bit(x: u64, i: u64) -> (r: bool)
    requires
        i < 64,
    ensures
        r == bit(x, i as int),
{
    ((x >> i) & 1u64) == 1u64
}

fn push_bits_le(vec: &mut Vec<bool>, x: u64, n: u64)
    requires
        n <= 64,
    ensures
        final(vec)@ == old(vec)@ + bits_le(x, n as nat),
{
    let ghost start = vec@;
    let mut i: u64 = 0;
    while i < n
        invariant
            0 <= i <= n <= 64,
            vec@ == start + bits_le(x, i as nat),
        decreases n - i,
    {
        vec.push(get_bit(x, i));
        i = i + 1;
        assert(vec@ =~= start + bits_le(x, i as nat));
    }
}

fn push_bits_be(vec: &mut Vec<bool>, x: u64, n: u64)
    requires
        n <= 64,
    ensures
        final(vec)@ == old(vec)@ + bits_be(x, n as nat),
{
    let ghost start = vec@;
    let mut i: u64 = 0;
    while i < n
        invariant
            0 <= i <= n <= 64,
            vec@ == start + bits_be(x, n as nat).subrange(0, i as int),
        decreases n - i,
    {
        vec.push(get_bit(x, n - 1 - i));
        i = i + 1;
        assert(vec@ =~= start + bits_be(x, n as nat).subrange(0, i as int));
    }
    assert(bits_be(x, n as nat).subrange(0, n as int) =~= bits_be(x, n as nat));
}

fn get_field_bit(f: &Field, i: usize) -> (r: bool)
    requires
        i < FIELD_SIZE_IN_BITS,
    ensures
        r == field_bit(*f, i as int),
{
    let l = if i < 64 {
        f.limbs0
    } else if i < 128 {
        f.limbs1
    } else if i < 192 {
        f.limbs2
    } else {
        f.limbs3
    };
    get_bit(l, (i % 64) as u64)
}

impl TransactionLeaf {
    /// Appends the little-endian bits of the leaf: variant, index, then ID.
    pub fn write_bits_le(&self, vec: &mut Vec<bool>)
        ensures
            final(vec)@ == old(vec)@ + leaf_bits_le(*self),
    {
        let ghost start = vec@;
        push_bits_le(vec, self.variant as u64, 8);
        push_bits_le(vec, self.index as u64, 16);
        let ghost mid = vec@;
        let mut i: usize = 0;
        while i < FIELD_SIZE_IN_BITS
            invariant
                0 <= i <= FIELD_SIZE_IN_BITS,
                vec@ == mid + field_bits_le(self.id).subrange(0, i as int),
            decreases FIELD_SIZE_IN_BITS - i,
        {
            vec.push(get_field_bit(&self.id, i));
            i = i + 1;
            assert(vec@ =~= mid + field_bits_le(self.id).subrange(0, i as int));
        }
        assert(field_bits_le(self.id).subrange(0, FIELD_SIZE_IN_BITS as int) =~= field_bits_le(self.id));
        assert(vec@ =~= start + leaf_bits_le(*self));
    }

    /// Appends the big-endian bits of the leaf: variant, index, then ID.
    pub fn write_bits_be(&self, vec: &mut Vec<bool>)
        ensures
            final(vec)@ == old(vec)@ + leaf_bits_be(*self),
    {
        let ghost start = vec@;
        push_bits_be(vec, self.variant as u64, 8);
        push_bits_be(vec, self.index as u64, 16);
        let ghost mid = vec@;
        let mut i: usize = 0;
        while i < FIELD_SIZE_IN_BITS
            invariant
                0 <= i <= FIELD_SIZE_IN_BITS,
                vec@ == mid + field_bits_be(self.id).subrange(0, i as int),
            decreases FIELD_SIZE_IN_BITS - i,
        {
            vec.push(get_field_bit(&self.id, FIELD_SIZE_IN_BITS - 1 - i));
            i = i + 1;
            assert(vec@ =~= mid + field_bits_be(self.id).subrange(0, i as int));
        }
        assert(field_bits_be(self.id).subrange(0, FIELD_SIZE_IN_BITS as int) =~= field_bits_be(self.id));
        assert(vec@ =~= start + leaf_bits_be(*self));
    }
}

} // verus!
