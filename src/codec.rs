//! Length-prefixed sequences of fixed-width elements inside byte buffers.
use crate::bytes::read_bytes;
use vstd::prelude::*;

verus! {

/// The elements, one after the other.
pub open spec fn concat(es: Seq<Seq<u8>>) -> Seq<u8>
    decreases es.len(),
{
    if es.len() == 0 {
        seq![]
    } else {
        concat(es.drop_last()) + es.last()
    }
}

/// Every element has `width` bytes.
pub open spec fn all_width(es: Seq<Seq<u8>>, width: nat) -> bool {
    forall|i: int| 0 <= i < es.len() ==> (#[trigger] es[i]).len() == width
}

pub open spec fn elems_view(v: Seq<Vec<u8>>) -> Seq<Seq<u8>> {
    v.map_values(|e: Vec<u8>| e@)
}

/// The first `k` elements of `width` bytes from `pos` on, and the position
/// after them, if the bytes are there.
pub open spec fn parse_elements(bytes: Seq<u8>, pos: int, k: nat, width: nat) -> Option<
    (Seq<Seq<u8>>, int),
>
    decreases k,
{
    if k == 0 {
        if 0 <= pos <= bytes.len() {
            Some((seq![], pos))
        } else {
            None
        }
    } else {
        match parse_elements(bytes, pos, (k - 1) as nat, width) {
            None => None,
            Some((es, p)) => if p + width <= bytes.len() {
                Some((es.push(bytes.subrange(p, p + width)), p + width))
            } else {
                None
            },
        }
    }
}

/// Reads `count` elements of `width` bytes from `pos` on.
pub fn read_elements(bytes: &[u8], pos: usize, count: u64, width: usize) -> (r: Option<
    (Vec<Vec<u8>>, usize),
>)
    ensures
        match parse_elements(bytes@, pos as int, count as nat, width as nat) {
            None => r is None,
            Some((es, end)) => r matches Some((v, e)) && elems_view(v@) == es && e == end,
        },
        r matches Some((v, e)) ==> e <= bytes@.len(),
{
    if pos > bytes.len() {
        proof {
            lemma_parse_elements_stops(bytes@, pos as int, 0, count as nat, width as nat);
        }
        return None;
    }
    let total = bytes.len();
    let mut v: Vec<Vec<u8>> = Vec::new();
    let mut p: usize = pos;
    let mut k: u64 = 0;
    while k < count
        invariant
            0 <= k <= count,
            parse_elements(bytes@, pos as int, k as nat, width as nat) == Some((elems_view(v@), p as int)),
            p <= bytes@.len(),
            total == bytes@.len(),
        decreases count - k,
    {
        let e = match read_bytes(bytes, p, width) {
            Some(e) => e,
            None => {
                proof {
                    lemma_parse_elements_stops(bytes@, pos as int, (k + 1) as nat, count as nat, width as nat);
                }
                return None;
            },
        };
        let ghost before = elems_view(v@);
        v.push(e);
        assert(elems_view(v@) =~= before.push(bytes@.subrange(p as int, p + width)));
        p = p + width;
        k = k + 1;
    }
    Some((v, p))
}

proof fn lemma_parse_elements_stops(bytes: Seq<u8>, pos: int, k0: nat, k: nat, width: nat)
    requires
        k0 <= k,
        parse_elements(bytes, pos, k0, width) is None,
    ensures
        parse_elements(bytes, pos, k, width) is None,
    decreases k,
{
    if k > k0 {
        lemma_parse_elements_stops(bytes, pos, k0, (k - 1) as nat, width);
    }
}

/// Elements of `width` bytes laid out one after the other read back as
/// themselves, whatever stands before and after them.
pub proof fn lemma_elements_round_trip(es: Seq<Seq<u8>>, width: nat, prefix: Seq<u8>, suffix: Seq<u8>)
    requires
        all_width(es, width),
    ensures
        concat(es).len() == es.len() * width,
        parse_elements(prefix + concat(es) + suffix, prefix.len() as int, es.len(), width) == Some(
            (es, (prefix.len() + concat(es).len()) as int),
        ),
    decreases es.len(),
{
    if es.len() > 0 {
        let d = es.drop_last();
        assert(all_width(d, width)) by {
            assert forall|i: int| 0 <= i < d.len() implies (#[trigger] d[i]).len() == width by {
                assert(d[i] == es[i]);
            }
        }
        let last = es.last();
        assert(last.len() == width) by {
            assert(es[es.len() - 1].len() == width);
        }
        lemma_elements_round_trip(d, width, prefix, last + suffix);
        assert(prefix + concat(es) + suffix =~= prefix + concat(d) + (last + suffix));
        let b = prefix + concat(es) + suffix;
        let p = (prefix.len() + concat(d).len()) as int;
        assert(b.subrange(p, p + width as int) =~= last);
        assert(d.push(last) =~= es);
        assert(concat(es).len() == es.len() * width) by (nonlinear_arith)
            requires
                concat(es).len() == concat(d).len() + width,
                concat(d).len() == d.len() * width,
                d.len() + 1 == es.len(),
        ;
    } else {
        assert(prefix + concat(es) + suffix =~= prefix + suffix);
    }
}

} // verus!
