//! Shape of an indexed circuit: FFT domain sizes, the strict degree bounds and
//! the maximum polynomial degree that the AHP needs, and the canonical bytes.
use crate::bytes::{push_u64_le, read_u64_le};
use vstd::bytes::{spec_u64_from_le_bytes, spec_u64_to_le_bytes};
use vstd::prelude::*;

verus! {

/// Why a circuit's shape cannot be served.
#[derive(Clone, Copy, Debug, PartialEq, Eq, Structural)]
pub enum SetupError {
    /// A domain is larger than the field's power-of-two subgroup (or a `usize`).
    DomainTooLarge,
    /// The maximum degree does not fit in a `usize`.
    DegreeTooLarge,
}

/// Whether the prover masks its polynomials for zero knowledge.
#[derive(Clone, Copy, Debug, PartialEq, Eq, Structural)]
pub enum ProvingMode {
    Hiding,
    NonHiding,
}

/// The masking degree that a proving mode adds (zero when it does not mask).
pub open spec fn zk_bound_of(mode: ProvingMode) -> nat {
    match mode {
        ProvingMode::Hiding => 1,
        ProvingMode::NonHiding => 0,
    }
}

impl ProvingMode {
    /// The zero-knowledge bound of the mode, `None` when it does not mask.
    pub fn zk_bound(self) -> (r: Option<usize>)
        ensures
            r == (match self {
                ProvingMode::Hiding => Some(1usize),
                ProvingMode::NonHiding => None::<usize>,
            }),
    {
        match self {
            ProvingMode::Hiding => Some(1),
            ProvingMode::NonHiding => None,
        }
    }
}

/// Shape of a circuit: its counters, fixed once the circuit is indexed.
#[derive(Clone, Copy, Debug, PartialEq, Eq, Structural)]
pub struct CircuitInfo {
    /// The number of public inputs after padding.
    pub num_public_inputs: usize,
    /// The total number of variables in the constraint system.
    pub num_variables: usize,
    /// The number of constraints.
    pub num_constraints: usize,
    /// The number of non-zero entries in the A matrix.
    pub num_non_zero_a: usize,
    /// The number of non-zero entries in the B matrix.
    pub num_non_zero_b: usize,
    /// The number of non-zero entries in the C matrix.
    pub num_non_zero_c: usize,
}

pub open spec fn max_nat(a: nat, b: nat) -> nat {
    if a >= b {
        a
    } else {
        b
    }
}

/// The degree that the AHP needs for domains of the given sizes.
pub open spec fn ahp_degree_of_domains(
    constraint_domain: nat,
    variable_domain: nat,
    non_zero_domain: nat,
    mode: ProvingMode,
) -> nat {
    let zk = zk_bound_of(mode);
    let mask = match mode {
        ProvingMode::Hiding => variable_domain + 3,
        ProvingMode::NonHiding => 0,
    };
    max_nat(
        max_nat(
            max_nat((2 * constraint_domain + 2 * zk - 2) as nat, (2 * variable_domain + 2 * zk - 2) as nat),
            max_nat(mask, variable_domain),
        ),
        max_nat(constraint_domain, (non_zero_domain - 1) as nat),
    )
}

/// The maximum polynomial degree of the AHP for a circuit of the given size,
/// or the reason it cannot be served.
pub open spec fn ahp_max_degree_spec(
    num_constraints: nat,
    num_variables: nat,
    num_non_zero: nat,
    mode: ProvingMode,
    two_adicity: nat,
) -> Result<nat, SetupError> {
    if !domain_fits(num_constraints, two_adicity) || !domain_fits(num_variables, two_adicity)
        || !domain_fits(num_non_zero, two_adicity) {
        Err(SetupError::DomainTooLarge)
    } else {
        let d = ahp_degree_of_domains(
            domain_size(num_constraints),
            domain_size(num_variables),
            domain_size(num_non_zero),
            mode,
        );
        if d <= usize::MAX {
            Ok(d)
        } else {
            Err(SetupError::DegreeTooLarge)
        }
    }
}

/// The four strict degree bounds (for `g_1`, `g_A`, `g_B`, `g_C`), or the
/// reason they do not exist. Each count is at least two, so that its domain
/// has at least two points.
pub open spec fn degree_bounds_spec(info: CircuitInfo, two_adicity: nat) -> Result<Seq<usize>, SetupError> {
    let v = info.num_variables as nat;
    let a = info.num_non_zero_a as nat;
    let b = info.num_non_zero_b as nat;
    let c = info.num_non_zero_c as nat;
    if !domain_fits(v, two_adicity) || !domain_fits(a, two_adicity) || !domain_fits(b, two_adicity)
        || !domain_fits(c, two_adicity) {
        Err(SetupError::DomainTooLarge)
    } else {
        Ok(
            seq![
                (domain_size(v) - 2) as usize,
                (domain_size(a) - 2) as usize,
                (domain_size(b) - 2) as usize,
                (domain_size(c) - 2) as usize,
            ],
        )
    }
}

/// The canonical bytes of a circuit's shape: its six counters as
/// little-endian `u64`s, in declaration order.
pub open spec fn circuit_info_bytes(info: CircuitInfo) -> Seq<u8> {
    spec_u64_to_le_bytes(info.num_public_inputs as u64) + spec_u64_to_le_bytes(
        info.num_variables as u64,
    ) + spec_u64_to_le_bytes(info.num_constraints as u64) + spec_u64_to_le_bytes(
        info.num_non_zero_a as u64,
    ) + spec_u64_to_le_bytes(info.num_non_zero_b as u64) + spec_u64_to_le_bytes(
        info.num_non_zero_c as u64,
    )
}

/// The number of bytes of an encoded `CircuitInfo`.
pub const CIRCUIT_INFO_SIZE: usize = 48;

/// The counter stored at `pos` of `bytes`, if it fits in a `usize`.
pub open spec fn counter_at(bytes: Seq<u8>, pos: int) -> Option<usize> {
    let x = spec_u64_from_le_bytes(bytes.subrange(pos, pos + 8));
    if x <= usize::MAX {
        Some(x as usize)
    } else {
        None
    }
}

/// The `CircuitInfo` encoded in the 48 bytes at `pos`, if they are there and
/// every counter fits in a `usize`.
pub open spec fn circuit_info_at(bytes: Seq<u8>, pos: int) -> Option<CircuitInfo> {
    if pos < 0 || pos + 48 > bytes.len() {
        None
    } else if counter_at(bytes, pos) is None || counter_at(bytes, pos + 8) is None || counter_at(
        bytes,
        pos + 16,
    ) is None || counter_at(bytes, pos + 24) is None || counter_at(bytes, pos + 32) is None
        || counter_at(bytes, pos + 40) is None {
        None
    } else {
        Some(
            CircuitInfo {
                num_public_inputs: counter_at(bytes, pos)->0,
                num_variables: counter_at(bytes, pos + 8)->0,
                num_constraints: counter_at(bytes, pos + 16)->0,
                num_non_zero_a: counter_at(bytes, pos + 24)->0,
                num_non_zero_b: counter_at(bytes, pos + 32)->0,
                num_non_zero_c: counter_at(bytes, pos + 40)->0,
            },
        )
    }
}

/// The maximum polynomial degree that the AHP needs for `num_constraints`
/// constraints, `num_variables` variables and `num_non_zero` non-zero
/// entries per matrix, in the given proving mode.
pub fn ahp_max_degree(
    num_constraints: usize,
    num_variables: usize,
    num_non_zero: usize,
    mode: ProvingMode,
    two_adicity: u32,
) -> (r: Result<usize, SetupError>)
    ensures
        match ahp_max_degree_spec(
            num_constraints as nat,
            num_variables as nat,
            num_non_zero as nat,
            mode,
            two_adicity as nat,
        ) {
            Ok(d) => r == Ok::<usize, SetupError>(d as usize),
            Err(e) => r == Err::<usize, SetupError>(e),
        },
{
    let c = compute_size_of_domain(num_constraints, two_adicity);
    let v = compute_size_of_domain(num_variables, two_adicity);
    let n = compute_size_of_domain(num_non_zero, two_adicity);
    if c.is_none() || v.is_none() || n.is_none() {
        return Err(SetupError::DomainTooLarge);
    }
    let c = c.unwrap() as u128;
    let v = v.unwrap() as u128;
    let n = n.unwrap() as u128;
    proof {
        lemma_domain_size_is_least_pow2(num_constraints as nat);
        lemma_domain_size_is_least_pow2(num_variables as nat);
        lemma_domain_size_is_least_pow2(num_non_zero as nat);
    }
    let zk: u128 = match mode {
        ProvingMode::Hiding => 1,
        ProvingMode::NonHiding => 0,
    };
    let mask: u128 = match mode {
        ProvingMode::Hiding => v + 3,
        ProvingMode::NonHiding => 0,
    };
    let d = max_u128(
        max_u128(max_u128(2 * c + 2 * zk - 2, 2 * v + 2 * zk - 2), max_u128(mask, v)),
        max_u128(c, n - 1),
    );
    if d > usize::MAX as u128 {
        return Err(SetupError::DegreeTooLarge);
    }
    Ok(d as usize)
}

impl CircuitInfo {
    /// The largest number of non-zero entries over the three matrices.
    pub open spec fn max_non_zero_spec(self) -> nat {
        max_nat(max_nat(self.num_non_zero_a as nat, self.num_non_zero_b as nat), self.num_non_zero_c as nat)
    }

    /// The maximum degree of polynomial required to represent this index in the AHP.
    pub fn max_degree(&self, mode: ProvingMode, two_adicity: u32) -> (r: Result<usize, SetupError>)
        ensures
            match ahp_max_degree_spec(
                self.num_constraints as nat,
                self.num_variables as nat,
                self.max_non_zero_spec(),
                mode,
                two_adicity as nat,
            ) {
                Ok(d) => r == Ok::<usize, SetupError>(d as usize),
                Err(e) => r == Err::<usize, SetupError>(e),
            },
    {
        let mut max_non_zero = self.num_non_zero_a;
        if self.num_non_zero_b > max_non_zero {
            max_non_zero = self.num_non_zero_b;
        }
        if self.num_non_zero_c > max_non_zero {
            max_non_zero = self.num_non_zero_c;
        }
        ahp_max_degree(self.num_constraints, self.num_variables, max_non_zero, mode, two_adicity)
    }

    /// All the strict degree bounds enforced in the AHP, for `g_1`, `g_A`,
    /// `g_B` and `g_C` in that order: each is the size of the smallest
    /// power-of-two domain for the matching count, less two.
    pub fn get_degree_bounds(&self, two_adicity: u32) -> (r: Result<[usize; 4], SetupError>)
        requires
            self.num_variables >= 2,
            self.num_non_zero_a >= 2,
            self.num_non_zero_b >= 2,
            self.num_non_zero_c >= 2,
        ensures
            match degree_bounds_spec(*self, two_adicity as nat) {
                Ok(s) => r is Ok && r->Ok_0@ == s,
                Err(e) => r == Err::<[usize; 4], SetupError>(e),
            },
    {
        let v = compute_size_of_domain(self.num_variables, two_adicity);
        let a = compute_size_of_domain(self.num_non_zero_a, two_adicity);
        let b = compute_size_of_domain(self.num_non_zero_b, two_adicity);
        let c = compute_size_of_domain(self.num_non_zero_c, two_adicity);
        match (v, a, b, c) {
            (Some(v), Some(a), Some(b), Some(c)) => {
                proof {
                    lemma_domain_size_is_least_pow2(self.num_variables as nat);
                    lemma_domain_size_is_least_pow2(self.num_non_zero_a as nat);
                    lemma_domain_size_is_least_pow2(self.num_non_zero_b as nat);
                    lemma_domain_size_is_least_pow2(self.num_non_zero_c as nat);
                }
                let r = [v - 2, a - 2, b - 2, c - 2];
                assert(r@ =~= degree_bounds_spec(*self, two_adicity as nat)->Ok_0);
                Ok(r)
            },
            _ => Err(SetupError::DomainTooLarge),
        }
    }

    /// The canonical bytes: the six counters as little-endian `u64`s.
    pub fn write_le(&self) -> (r: Vec<u8>)
        ensures
            r@ == circuit_info_bytes(*self),
    {
        let mut out: Vec<u8> = Vec::new();
        self.write_le_into(&mut out);
        assert(out@ =~= circuit_info_bytes(*self));
        out
    }

    /// Appends the canonical bytes to `out`.
    pub fn write_le_into(&self, out: &mut Vec<u8>)
        ensures
            final(out)@ == old(out)@ + circuit_info_bytes(*self),
    {
        let ghost start = out@;
        push_u64_le(out, self.num_public_inputs as u64);
        push_u64_le(out, self.num_variables as u64);
        push_u64_le(out, self.num_constraints as u64);
        push_u64_le(out, self.num_non_zero_a as u64);
        push_u64_le(out, self.num_non_zero_b as u64);
        push_u64_le(out, self.num_non_zero_c as u64);
        assert(out@ =~= start + circuit_info_bytes(*self));
    }

    /// Reads a `CircuitInfo` from the 48 bytes at `pos`.
    pub fn read_le_at(bytes: &[u8], pos: usize) -> (r: Option<CircuitInfo>)
        ensures
            r == circuit_info_at(bytes@, pos as int),
    {
        if pos > bytes.len() || bytes.len() - pos < CIRCUIT_INFO_SIZE {
            return None;
        }
        let a = read_counter(bytes, pos);
        let b = read_counter(bytes, pos + 8);
        let c = read_counter(bytes, pos + 16);
        let d = read_counter(bytes, pos + 24);
        let e = read_counter(bytes, pos + 32);
        let f = read_counter(bytes, pos + 40);
        match (a, b, c, d, e, f) {
            (Some(a), Some(b), Some(c), Some(d), Some(e), Some(f)) => Some(
                CircuitInfo {
                    num_public_inputs: a,
                    num_variables: b,
                    num_constraints: c,
                    num_non_zero_a: d,
                    num_non_zero_b: e,
                    num_non_zero_c: f,
                },
            ),
            _ => None,
        }
    }
}

fn max_u128(a: u128, b: u128) -> (r: u128)
    ensures
        r as nat == max_nat(a as nat, b as nat),
{
    if a >= b {
        a
    } else {
        b
    }
}

/// The counter at `pos`: `None` when eight bytes are not there or the value
/// does not fit in a `usize`.
fn read_counter(bytes: &[u8], pos: usize) -> (r: Option<usize>)
    ensures
        r == (if pos + 8 <= bytes@.len() {
            counter_at(bytes@, pos as int)
        } else {
            None::<usize>
        }),
{
    match read_u64_le(bytes, pos) {
        Some(x) => {
            if x as u128 <= usize::MAX as u128 {
                Some(x as usize)
            } else {
                None
            }
        },
        None => None,
    }
}

/// Each strict degree bound is two less than the smallest power of two that
/// is at least the matching count (`num_variables`, then the non-zero
/// entries of A, B and C).
pub proof fn lemma_degree_bounds_are_least_domains(info: CircuitInfo, two_adicity: nat)
    requires
        info.num_variables >= 2,
        info.num_non_zero_a >= 2,
        info.num_non_zero_b >= 2,
        info.num_non_zero_c >= 2,
        degree_bounds_spec(info, two_adicity) is Ok,
    ensures
        ({
            let bounds = degree_bounds_spec(info, two_adicity)->Ok_0;
            let counts = seq![
                info.num_variables as nat,
                info.num_non_zero_a as nat,
                info.num_non_zero_b as nat,
                info.num_non_zero_c as nat,
            ];
            &&& bounds.len() == 4
            &&& forall|i: int|
                0 <= i < 4 ==> {
                    let d = #[trigger] bounds[i] + 2;
                    &&& exists|k: nat| pow2(k) == d
                    &&& d >= counts[i]
                    &&& d < 2 * counts[i]
                }
        }),
{
    lemma_domain_size_is_least_pow2(info.num_variables as nat);
    lemma_domain_size_is_least_pow2(info.num_non_zero_a as nat);
    lemma_domain_size_is_least_pow2(info.num_non_zero_b as nat);
    lemma_domain_size_is_least_pow2(info.num_non_zero_c as nat);
}

/// Decoding the canonical bytes of a shape gives the shape back.
pub proof fn lemma_circuit_info_round_trip(info: CircuitInfo, prefix: Seq<u8>, suffix: Seq<u8>)
    ensures
        circuit_info_bytes(info).len() == 48,
        circuit_info_at(prefix + circuit_info_bytes(info) + suffix, prefix.len() as int) == Some(info),
{
    crate::bytes::lemma_le_round_trip();
    let s = prefix + circuit_info_bytes(info) + suffix;
    let p = prefix.len() as int;
    let enc = circuit_info_bytes(info);
    assert(s.subrange(p, p + 8) =~= spec_u64_to_le_bytes(info.num_public_inputs as u64));
    assert(s.subrange(p + 8, p + 16) =~= spec_u64_to_le_bytes(info.num_variables as u64));
    assert(s.subrange(p + 16, p + 24) =~= spec_u64_to_le_bytes(info.num_constraints as u64));
    assert(s.subrange(p + 24, p + 32) =~= spec_u64_to_le_bytes(info.num_non_zero_a as u64));
    assert(s.subrange(p + 32, p + 40) =~= spec_u64_to_le_bytes(info.num_non_zero_b as u64));
    assert(s.subrange(p + 40, p + 48) =~= spec_u64_to_le_bytes(info.num_non_zero_c as u64));
}

/// `2^k`.
pub open spec fn pow2(k: nat) -> nat
    decreases k,
{
    if k == 0 {
        1
    } else {
        2 * pow2((k - 1) as nat)
    }
}

/// The first of `d, 2d, 4d, ...` that is at least `n` (`d` itself when `d == 0`).
pub open spec fn double_until(n: nat, d: nat) -> nat
    decreases (if d < n { n - d } else { 0 }),
{
    if d == 0 || d >= n {
        d
    } else {
        double_until(n, 2 * d)
    }
}

/// The size of the smallest power-of-two FFT domain that holds `n` points:
/// the smallest power of two that is at least `n`.
pub open spec fn domain_size(n: nat) -> nat {
    double_until(n, 1)
}

/// The domain for `n` points exists in a field of the given 2-adicity, and
/// its size fits in a `usize`.
pub open spec fn domain_fits(n: nat, two_adicity: nat) -> bool {
    domain_size(n) <= pow2(two_adicity) && domain_size(n) <= usize::MAX
}

pub proof fn lemma_pow2_positive(k: nat)
    ensures
        pow2(k) >= 1,
    decreases k,
{
    if k > 0 {
        lemma_pow2_positive((k - 1) as nat);
    }
}

proof fn lemma_double_until_grows(n: nat, d: nat)
    requires
        d > 0,
    ensures
        double_until(n, d) >= d,
        double_until(n, d) >= n,
    decreases (if d < n { n - d } else { 0 }),
{
    if d < n {
        lemma_double_until_grows(n, 2 * d);
    }
}

/// The smallest power of two that is at least `n` is a power of two, is at
/// least `n`, and half of it (when it is above one) is below `n`.
pub proof fn lemma_domain_size_is_least_pow2(n: nat)
    ensures
        exists|k: nat| #[trigger] pow2(k) == domain_size(n),
        domain_size(n) >= n,
        domain_size(n) >= 1,
        domain_size(n) > 1 ==> domain_size(n) < 2 * n,
{
    lemma_least_pow2_from(n, 0);
}

proof fn lemma_least_pow2_from(n: nat, k: nat)
    requires
        pow2(k) <= 1 || pow2(k) < 2 * n,
        double_until(n, pow2(k)) == domain_size(n),
    ensures
        exists|j: nat| #[trigger] pow2(j) == domain_size(n),
        domain_size(n) >= n,
        domain_size(n) >= 1,
        domain_size(n) > 1 ==> domain_size(n) < 2 * n,
    decreases (if pow2(k) < n { n - pow2(k) } else { 0 }),
{
    lemma_pow2_positive(k);
    if pow2(k) >= n {
        assert(pow2(k) == domain_size(n));
    } else {
        assert(pow2(k + 1) == 2 * pow2(k));
        lemma_least_pow2_from(n, k + 1);
    }
}

/// The size of the FFT domain for `n` points over a field of the given
/// 2-adicity, or `None` when no such domain exists.
pub fn compute_size_of_domain(n: usize, two_adicity: u32) -> (r: Option<usize>)
    ensures
        r == (if domain_fits(n as nat, two_adicity as nat) {
            Some(domain_size(n as nat) as usize)
        } else {
            None::<usize>
        }),
{
    let mut size: usize = 1;
    let mut k: u32 = 0;
    while size < n
        invariant
            size as nat == pow2(k as nat),
            double_until(n as nat, size as nat) == domain_size(n as nat),
            k <= two_adicity,
        decreases two_adicity - k,
    {
        if k == two_adicity || size > usize::MAX / 2 {
            proof {
                lemma_pow2_positive(k as nat);
                lemma_double_until_grows(n as nat, 2 * size as nat);
                lemma_pow2_monotone(k as nat, two_adicity as nat);
            }
            return None;
        }
        size = size * 2;
        k = k + 1;
    }
    proof {
        lemma_pow2_monotone(k as nat, two_adicity as nat);
    }
    Some(size)
}

proof fn lemma_pow2_monotone(a: nat, b: nat)
    requires
        a <= b,
    ensures
        pow2(a) <= pow2(b),
    decreases b - a,
{
    if a < b {
        lemma_pow2_monotone(a, (b - 1) as nat);
        lemma_pow2_positive((b - 1) as nat);
    }
}

} // verus!
