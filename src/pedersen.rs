//! Canonical bytes of Pedersen commitment parameters. Group elements are
//! carried as their canonical encodings, all of one width; checking that an
//! encoding is a point of the group is the curve arithmetic's business.
use crate::bytes::{push_all, push_u32_le, read_u32_le};
use crate::codec::{all_width, concat, elems_view, lemma_elements_round_trip, parse_elements, read_elements};
use vstd::bytes::{spec_u32_from_le_bytes, spec_u32_to_le_bytes};
use vstd::prelude::*;

verus! {

/// The parameters of a Pedersen commitment: the windows of bases of the
/// underlying hash, and the powers of the blinding base.
#[derive(Clone, Debug)]
pub struct PedersenCommitmentParameters {
    pub bases: Vec<Vec<Vec<u8>>>,
    pub random_base: Vec<Vec<u8>>,
}

/// Why bytes could not be produced.
#[derive(Clone, Copy, Debug, PartialEq, Eq, Structural)]
pub enum EncodeError {
    /// A count does not fit in its length prefix.
    TooLong,
}

pub open spec fn windows_view(bs: Seq<Vec<Vec<u8>>>) -> Seq<Seq<Seq<u8>>> {
    bs.map_values(|b: Vec<Vec<u8>>| elems_view(b@))
}

impl View for PedersenCommitmentParameters {
    type V = (Seq<Seq<Seq<u8>>>, Seq<Seq<u8>>);

    open spec fn view(&self) -> (Seq<Seq<Seq<u8>>>, Seq<Seq<u8>>) {
        (windows_view(self.bases@), elems_view(self.random_base@))
    }
}

/// One window: its length as a little-endian `u32`, then its elements.
pub open spec fn window_bytes(b: Seq<Seq<u8>>) -> Seq<u8> {
    spec_u32_to_le_bytes(b.len() as u32) + concat(b)
}

pub open spec fn windows_bytes(bs: Seq<Seq<Seq<u8>>>) -> Seq<u8>
    decreases bs.len(),
{
    if bs.len() == 0 {
        seq![]
    } else {
        windows_bytes(bs.drop_last()) + window_bytes(bs.last())
    }
}

/// The canonical bytes: the number of windows, each window, then the number
/// of blinding powers and the powers, every count a little-endian `u32`.
pub open spec fn params_bytes(p: (Seq<Seq<Seq<u8>>>, Seq<Seq<u8>>)) -> Seq<u8> {
    spec_u32_to_le_bytes(p.0.len() as u32) + windows_bytes(p.0) + spec_u32_to_le_bytes(
        p.1.len() as u32,
    ) + concat(p.1)
}

/// Every count fits in its `u32` prefix.
pub open spec fn counts_fit(p: (Seq<Seq<Seq<u8>>>, Seq<Seq<u8>>)) -> bool {
    &&& p.0.len() <= u32::MAX
    &&& p.1.len() <= u32::MAX
    &&& forall|i: int| 0 <= i < p.0.len() ==> (#[trigger] p.0[i]).len() <= u32::MAX
}

/// Every element has `width` bytes.
pub open spec fn params_width(p: (Seq<Seq<Seq<u8>>>, Seq<Seq<u8>>), width: nat) -> bool {
    &&& all_width(p.1, width)
    &&& forall|i: int| 0 <= i < p.0.len() ==> all_width(#[trigger] p.0[i], width)
}

pub open spec fn u32_at(bytes: Seq<u8>, pos: int) -> Option<u32> {
    if 0 <= pos && pos + 4 <= bytes.len() {
        Some(spec_u32_from_le_bytes(bytes.subrange(pos, pos + 4)))
    } else {
        None
    }
}

/// The first `k` windows from `pos` on, and the position after them.
pub open spec fn parse_windows(bytes: Seq<u8>, pos: int, k: nat, width: nat) -> Option<
    (Seq<Seq<Seq<u8>>>, int),
>
    decreases k,
{
    if k == 0 {
        Some((seq![], pos))
    } else {
        match parse_windows(bytes, pos, (k - 1) as nat, width) {
            None => None,
            Some((bs, p)) => match u32_at(bytes, p) {
                None => None,
                Some(n) => match parse_elements(bytes, p + 4, n as nat, width) {
                    None => None,
                    Some((es, q)) => Some((bs.push(es), q)),
                },
            },
        }
    }
}

/// The parameters encoded from `pos` on, and the position after them.
pub open spec fn parse_params(bytes: Seq<u8>, pos: int, width: nat) -> Option<
    ((Seq<Seq<Seq<u8>>>, Seq<Seq<u8>>), int),
> {
    match u32_at(bytes, pos) {
        None => None,
        Some(nb) => match parse_windows(bytes, pos + 4, nb as nat, width) {
            None => None,
            Some((bs, p)) => match u32_at(bytes, p) {
                None => None,
                Some(nr) => match parse_elements(bytes, p + 4, nr as nat, width) {
                    None => None,
                    Some((rb, q)) => Some(((bs, rb), q)),
                },
            },
        },
    }
}

impl PedersenCommitmentParameters {
    /// The canonical bytes, or `TooLong` when a count does not fit in a `u32`.
    pub fn write_le(&self) -> (r: Result<Vec<u8>, EncodeError>)
        ensures
            counts_fit(self@) ==> r is Ok && r->Ok_0@ == params_bytes(self@),
            !counts_fit(self@) ==> r == Err::<Vec<u8>, EncodeError>(EncodeError::TooLong),
    {
        if self.bases.len() > u32::MAX as usize || self.random_base.len() > u32::MAX as usize {
            return Err(EncodeError::TooLong);
        }
        let mut out: Vec<u8> = Vec::new();
        push_u32_le(&mut out, self.bases.len() as u32);
        let ghost head = out@;
        let mut i: usize = 0;
        while i < self.bases.len()
            invariant
                0 <= i <= self.bases@.len(),
                self.bases@.len() <= u32::MAX,
                forall|k: int| 0 <= k < i ==> (#[trigger] self@.0[k]).len() <= u32::MAX,
                out@ == head + windows_bytes(self@.0.subrange(0, i as int)),
            decreases self.bases@.len() - i,
        {
            let b = &self.bases[i];
            if b.len() > u32::MAX as usize {
                assert(self@.0[i as int].len() > u32::MAX);
                return Err(EncodeError::TooLong);
            }
            let ghost before = out@;
            push_u32_le(&mut out, b.len() as u32);
            self.push_elements(&mut out, b);
            assert(self@.0.subrange(0, i + 1).drop_last() =~= self@.0.subrange(0, i as int));
            assert(self@.0[i as int] == elems_view(b@));
            i = i + 1;
            assert(out@ =~= head + windows_bytes(self@.0.subrange(0, i as int)));
        }
        assert(self@.0.subrange(0, self@.0.len() as int) =~= self@.0);
        push_u32_le(&mut out, self.random_base.len() as u32);
        self.push_elements(&mut out, &self.random_base);
        assert(out@ =~= params_bytes(self@));
        Ok(out)
    }

    fn push_elements(&self, out: &mut Vec<u8>, es: &Vec<Vec<u8>>)
        ensures
            final(out)@ == old(out)@ + concat(elems_view(es@)),
    {
        let ghost start = out@;
        let mut i: usize = 0;
        while i < es.len()
            invariant
                0 <= i <= es@.len(),
                out@ == start + concat(elems_view(es@).subrange(0, i as int)),
            decreases es@.len() - i,
        {
            push_all(out, es[i].as_slice());
            assert(elems_view(es@).subrange(0, i + 1).drop_last() =~= elems_view(es@).subrange(0, i as int));
            i = i + 1;
            assert(out@ =~= start + concat(elems_view(es@).subrange(0, i as int)));
        }
        assert(elems_view(es@).subrange(0, es@.len() as int) =~= elems_view(es@));
    }

    /// Reads parameters whose elements have `width` bytes from `pos` on;
    /// returns them with the position after them.
    pub fn read_le(bytes: &[u8], pos: usize, width: usize) -> (r: Option<(PedersenCommitmentParameters, usize)>)
        ensures
            match parse_params(bytes@, pos as int, width as nat) {
                None => r is None,
                Some((p, end)) => r matches Some((q, e)) && q@ == p && e == end,
            },
    {
        let nb = match read_u32_le(bytes, pos) {
            Some(n) => n,
            None => {
                return None;
            },
        };
        let total = bytes.len();
        let mut bases: Vec<Vec<Vec<u8>>> = Vec::new();
        let mut p: usize = pos + 4;
        let mut k: u32 = 0;
        while k < nb
            invariant
                0 <= k <= nb,
                u32_at(bytes@, pos as int) == Some(nb),
                total == bytes@.len(),
                p <= total,
                parse_windows(bytes@, pos + 4, k as nat, width as nat) == Some((windows_view(bases@), p as int)),
            decreases nb - k,
        {
            let n = match read_u32_le(bytes, p) {
                Some(n) => n,
                None => {
                    proof {
                        lemma_parse_windows_stops(bytes@, pos + 4, (k + 1) as nat, nb as nat, width as nat);
                    }
                    return None;
                },
            };
            let (es, q) = match read_elements(bytes, p + 4, n as u64, width) {
                Some(x) => x,
                None => {
                    proof {
                        lemma_parse_windows_stops(bytes@, pos + 4, (k + 1) as nat, nb as nat, width as nat);
                    }
                    return None;
                },
            };
            let ghost before = windows_view(bases@);
            bases.push(es);
            assert(windows_view(bases@) =~= before.push(elems_view(es@)));
            p = q;
            k = k + 1;
        }
        let nr = match read_u32_le(bytes, p) {
            Some(n) => n,
            None => {
                return None;
            },
        };
        let (random_base, end) = match read_elements(bytes, p + 4, nr as u64, width) {
            Some(x) => x,
            None => {
                return None;
            },
        };
        Some((PedersenCommitmentParameters { bases, random_base }, end))
    }
}

proof fn lemma_parse_windows_stops(bytes: Seq<u8>, pos: int, k0: nat, k: nat, width: nat)
    requires
        k0 <= k,
        parse_windows(bytes, pos, k0, width) is None,
    ensures
        parse_windows(bytes, pos, k, width) is None,
    decreases k,
{
    if k > k0 {
        lemma_parse_windows_stops(bytes, pos, k0, (k - 1) as nat, width);
    }
}

proof fn lemma_windows_round_trip(bs: Seq<Seq<Seq<u8>>>, width: nat, prefix: Seq<u8>, suffix: Seq<u8>)
    requires
        forall|i: int| 0 <= i < bs.len() ==> all_width(#[trigger] bs[i], width),
        forall|i: int| 0 <= i < bs.len() ==> (#[trigger] bs[i]).len() <= u32::MAX,
    ensures
        parse_windows(prefix + windows_bytes(bs) + suffix, prefix.len() as int, bs.len(), width) == Some(
            (bs, (prefix.len() + windows_bytes(bs).len()) as int),
        ),
    decreases bs.len(),
{
    if bs.len() > 0 {
        let d = bs.drop_last();
        let last = bs.last();
        assert(all_width(last, width) && last.len() <= u32::MAX) by {
            assert(all_width(bs[bs.len() - 1], width));
            assert(bs[bs.len() - 1].len() <= u32::MAX);
        }
        assert forall|i: int| 0 <= i < d.len() implies all_width(#[trigger] d[i], width) && d[i].len() <= u32::MAX by {
            assert(d[i] == bs[i]);
        }
        lemma_windows_round_trip(d, width, prefix, window_bytes(last) + suffix);
        let b = prefix + windows_bytes(bs) + suffix;
        assert(b =~= prefix + windows_bytes(d) + (window_bytes(last) + suffix));
        let p = (prefix.len() + windows_bytes(d).len()) as int;
        crate::bytes::lemma_le_round_trip();
        assert(b.subrange(p, p + 4) =~= spec_u32_to_le_bytes(last.len() as u32));
        assert(u32_at(b, p) == Some(last.len() as u32));
        lemma_elements_round_trip(last, width, b.subrange(0, p + 4), b.subrange(p + 4 + concat(last).len(), b.len() as int));
        assert(b.subrange(0, p + 4) + concat(last) + b.subrange(p + 4 + concat(last).len(), b.len() as int) =~= b);
        assert(d.push(last) =~= bs);
    } else {
        assert(prefix + windows_bytes(bs) + suffix =~= prefix + suffix);
    }
}

/// Decoding the canonical bytes of parameters whose counts fit and whose
/// elements all have `width` bytes gives the parameters back, whatever
/// stands before and after them.
pub proof fn lemma_params_round_trip(
    p: (Seq<Seq<Seq<u8>>>, Seq<Seq<u8>>),
    width: nat,
    prefix: Seq<u8>,
    suffix: Seq<u8>,
)
    requires
        counts_fit(p),
        params_width(p, width),
    ensures
        parse_params(prefix + params_bytes(p) + suffix, prefix.len() as int, width) == Some(
            (p, (prefix.len() + params_bytes(p).len()) as int),
        ),
{
    crate::bytes::lemma_le_round_trip();
    let b = prefix + params_bytes(p) + suffix;
    let n0 = prefix.len() as int;
    assert(b.subrange(n0, n0 + 4) =~= spec_u32_to_le_bytes(p.0.len() as u32));
    let rest = spec_u32_to_le_bytes(p.1.len() as u32) + concat(p.1) + suffix;
    lemma_windows_round_trip(p.0, width, prefix + spec_u32_to_le_bytes(p.0.len() as u32), rest);
    assert(b =~= prefix + spec_u32_to_le_bytes(p.0.len() as u32) + windows_bytes(p.0) + rest);
    let q = n0 + 4 + windows_bytes(p.0).len();
    assert(b.subrange(q, q + 4) =~= spec_u32_to_le_bytes(p.1.len() as u32));
    lemma_elements_round_trip(p.1, width, b.subrange(0, q + 4), suffix);
    assert(b.subrange(0, q + 4) + concat(p.1) + suffix =~= b);
}

/// The canonical bytes of parameters read back as the same parameters.
pub proof fn lemma_pedersen_write_read(p: PedersenCommitmentParameters, width: nat)
    requires
        counts_fit(p@),
        params_width(p@, width),
    ensures
        parse_params(params_bytes(p@), 0, width) == Some((p@, params_bytes(p@).len() as int)),
{
    lemma_params_round_trip(p@, width, seq![], seq![]);
    assert(seq![] + params_bytes(p@) + seq![] =~= params_bytes(p@));
}

} // verus!
