use snarkvm_core::circuit_info::{
    ahp_max_degree, compute_size_of_domain, CircuitInfo, ProvingMode, SetupError,
};

const BLS12_377_FR_TWO_ADICITY: u32 = 47;

fn info(
    num_public_inputs: usize,
    num_variables: usize,
    num_constraints: usize,
    a: usize,
    b: usize,
    c: usize,
) -> CircuitInfo {
    CircuitInfo {
        num_public_inputs,
        num_variables,
        num_constraints,
        num_non_zero_a: a,
        num_non_zero_b: b,
        num_non_zero_c: c,
    }
}

#[test]
fn domain_size_is_smallest_power_of_two() {
    let f = BLS12_377_FR_TWO_ADICITY;
    assert_eq!(compute_size_of_domain(0, f), Some(1));
    assert_eq!(compute_size_of_domain(1, f), Some(1));
    assert_eq!(compute_size_of_domain(2, f), Some(2));
    assert_eq!(compute_size_of_domain(3, f), Some(4));
    assert_eq!(compute_size_of_domain(25, f), Some(32));
    assert_eq!(compute_size_of_domain(1 << 20, f), Some(1 << 20));
    assert_eq!(compute_size_of_domain((1 << 20) + 1, f), Some(1 << 21));
}

#[test]
fn domain_size_respects_two_adicity() {
    assert_eq!(compute_size_of_domain(16, 4), Some(16));
    assert_eq!(compute_size_of_domain(17, 4), None);
    assert_eq!(compute_size_of_domain(1, 0), Some(1));
    assert_eq!(compute_size_of_domain(2, 0), None);
    assert_eq!(compute_size_of_domain(usize::MAX, 200), None);
}

#[test]
fn degree_bounds_are_domain_sizes_less_two() {
    let i = info(2, 25, 100, 300, 40, 3);
    assert_eq!(i.get_degree_bounds(BLS12_377_FR_TWO_ADICITY), Ok([30, 510, 62, 2]));
    let square = info(2, 25, 25, 25, 25, 25);
    assert_eq!(square.get_degree_bounds(BLS12_377_FR_TWO_ADICITY), Ok([30, 30, 30, 30]));
    let exact = info(1, 2, 2, 64, 65, 128);
    assert_eq!(exact.get_degree_bounds(BLS12_377_FR_TWO_ADICITY), Ok([0, 62, 126, 126]));
}

#[test]
fn degree_bounds_domain_too_large() {
    let i = info(2, 25, 100, 300, 40, 3);
    assert_eq!(i.get_degree_bounds(8), Err(SetupError::DomainTooLarge));
    assert_eq!(i.get_degree_bounds(4), Err(SetupError::DomainTooLarge));
}

#[test]
fn ahp_max_degree_values() {
    let f = BLS12_377_FR_TWO_ADICITY;
    // domains: 128 constraints, 32 variables, 512 non-zero entries
    assert_eq!(ahp_max_degree(100, 25, 300, ProvingMode::Hiding, f), Ok(511));
    assert_eq!(ahp_max_degree(100, 25, 300, ProvingMode::NonHiding, f), Ok(511));
    // domains: 1024 constraints, 32 variables, 16 non-zero entries
    assert_eq!(ahp_max_degree(1000, 25, 10, ProvingMode::Hiding, f), Ok(2048));
    assert_eq!(ahp_max_degree(1000, 25, 10, ProvingMode::NonHiding, f), Ok(2046));
    // domains: 4 constraints, 64 variables, 2 non-zero entries
    assert_eq!(ahp_max_degree(4, 64, 2, ProvingMode::Hiding, f), Ok(128));
    assert_eq!(ahp_max_degree(4, 64, 2, ProvingMode::NonHiding, f), Ok(126));
    assert_eq!(ahp_max_degree(1 << 20, 25, 300, ProvingMode::Hiding, 10), Err(SetupError::DomainTooLarge));
}

#[test]
fn circuit_max_degree_uses_largest_matrix() {
    let f = BLS12_377_FR_TWO_ADICITY;
    let i = info(2, 25, 100, 10, 300, 20);
    assert_eq!(i.max_degree(ProvingMode::Hiding, f), Ok(511));
    let j = info(2, 25, 1000, 3, 2, 10);
    assert_eq!(j.max_degree(ProvingMode::NonHiding, f), Ok(2046));
}

#[test]
fn zk_bound_by_mode() {
    assert_eq!(ProvingMode::Hiding.zk_bound(), Some(1));
    assert_eq!(ProvingMode::NonHiding.zk_bound(), None);
}

#[test]
fn circuit_info_bytes_are_six_le_u64() {
    let i = info(1, 2, 3, 4, 5, 0x0102);
    let bytes = i.write_le();
    assert_eq!(bytes.len(), 48);
    let mut expected = Vec::new();
    for x in [1u64, 2, 3, 4, 5, 0x0102] {
        expected.extend_from_slice(&x.to_le_bytes());
    }
    assert_eq!(bytes, expected);
    assert_eq!(CircuitInfo::read_le_at(&bytes, 0), Some(i));
    let mut shifted = vec![9u8, 9, 9];
    shifted.extend_from_slice(&bytes);
    assert_eq!(CircuitInfo::read_le_at(&shifted, 3), Some(i));
    assert_eq!(CircuitInfo::read_le_at(&bytes[..47], 0), None);
}
