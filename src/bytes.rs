//! Little-endian fixed-width integers inside byte buffers.
use vstd::bytes::*;
use vstd::prelude::*;
use vstd::slice::slice_subrange;

verus! {

/// Appends the eight little-endian bytes of `x`.
pub fn push_u64_le(out: &mut Vec<u8>, x: u64)
    ensures
        final(out)@ == old(out)@ + spec_u64_to_le_bytes(x),
{
    let b = u64_to_le_bytes(x);
    let mut i: usize = 0;
    let ghost start = out@;
    while i < 8
        invariant
            b@ == spec_u64_to_le_bytes(x),
            b@.len() == 8,
            0 <= i <= 8,
            out@ == start + b@.subrange(0, i as int),
        decreases 8 - i,
    {
        out.push(b[i]);
        i = i + 1;
        assert(out@ =~= start + b@.subrange(0, i as int));
    }
    assert(b@.subrange(0, 8) =~= b@);
}

/// Appends the four little-endian bytes of `x`.
pub fn push_u32_le(out: &mut Vec<u8>, x: u32)
    ensures
        final(out)@ == old(out)@ + spec_u32_to_le_bytes(x),
{
    let b = u32_to_le_bytes(x);
    let mut i: usize = 0;
    let ghost start = out@;
    while i < 4
        invariant
            b@ == spec_u32_to_le_bytes(x),
            b@.len() == 4,
            0 <= i <= 4,
            out@ == start + b@.subrange(0, i as int),
        decreases 4 - i,
    {
        out.push(b[i]);
        i = i + 1;
        assert(out@ =~= start + b@.subrange(0, i as int));
    }
    assert(b@.subrange(0, 4) =~= b@);
}

/// Appends `src` to `out`.
pub fn push_all(out: &mut Vec<u8>, src: &[u8])
    ensures
        final(out)@ == old(out)@ + src@,
{
    let mut i: usize = 0;
    let ghost start = out@;
    while i < src.len()
        invariant
            0 <= i <= src@.len(),
            out@ == start + src@.subrange(0, i as int),
        decreases src@.len() - i,
    {
        out.push(src[i]);
        i = i + 1;
        assert(out@ =~= start + src@.subrange(0, i as int));
    }
    assert(src@.subrange(0, src@.len() as int) =~= src@);
}

/// The `u64` stored little-endian at `pos`, if eight bytes are there.
pub fn read_u64_le(bytes: &[u8], pos: usize) -> (r: Option<u64>)
    ensures
        r == (if pos + 8 <= bytes@.len() {
            Some(spec_u64_from_le_bytes(bytes@.subrange(pos as int, pos + 8)))
        } else {
            None::<u64>
        }),
{
    if pos > bytes.len() || bytes.len() - pos < 8 {
        return None;
    }
    let s = slice_subrange(bytes, pos, pos + 8);
    Some(u64_from_le_bytes(s))
}

/// The `u32` stored little-endian at `pos`, if four bytes are there.
pub fn read_u32_le(bytes: &[u8], pos: usize) -> (r: Option<u32>)
    ensures
        r == (if pos + 4 <= bytes@.len() {
            Some(spec_u32_from_le_bytes(bytes@.subrange(pos as int, pos + 4)))
        } else {
            None::<u32>
        }),
{
    if pos > bytes.len() || bytes.len() - pos < 4 {
        return None;
    }
    let s = slice_subrange(bytes, pos, pos + 4);
    Some(u32_from_le_bytes(s))
}

/// The `len` bytes at `pos`, if they are there.
pub fn read_bytes(bytes: &[u8], pos: usize, len: usize) -> (r: Option<Vec<u8>>)
    ensures
        match r {
            Some(v) => pos + len <= bytes@.len() && v@ == bytes@.subrange(pos as int, pos + len),
            None => pos + len > bytes@.len(),
        },
{
    if pos > bytes.len() || bytes.len() - pos < len {
        return None;
    }
    let mut v: Vec<u8> = Vec::new();
    let mut i: usize = 0;
    let total = bytes.len();
    while i < len
        invariant
            total == bytes@.len(),
            pos + len <= total,
            0 <= i <= len,
            v@ == bytes@.subrange(pos as int, pos + i),
        decreases len - i,
    {
        v.push(bytes[pos + i]);
        i = i + 1;
        assert(v@ =~= bytes@.subrange(pos as int, pos + i));
    }
    Some(v)
}

/// Round trip of the little-endian encodings of `u64` and `u32`.
pub proof fn lemma_le_round_trip()
    ensures
        forall|x: u64|
            #![trigger spec_u64_to_le_bytes(x)]
            spec_u64_to_le_bytes(x).len() == 8 && spec_u64_from_le_bytes(spec_u64_to_le_bytes(x))
                == x,
        forall|x: u32|
            #![trigger spec_u32_to_le_bytes(x)]
            spec_u32_to_le_bytes(x).len() == 4 && spec_u32_from_le_bytes(spec_u32_to_le_bytes(x))
                == x,
{
    lemma_auto_spec_u64_to_from_le_bytes();
    lemma_auto_spec_u32_to_from_le_bytes();
    assert forall|x: u32| #![trigger spec_u32_to_le_bytes(x)]
        spec_u32_to_le_bytes(x).len() == 4 && spec_u32_from_le_bytes(spec_u32_to_le_bytes(x))
            == x by {}
    assert forall|x: u64| #![trigger spec_u64_to_le_bytes(x)]
        spec_u64_to_le_bytes(x).len() == 8 && spec_u64_from_le_bytes(spec_u64_to_le_bytes(x))
            == x by {}
}

} // verus!
