use snarkvm_core::field::Field;
use snarkvm_core::leaf::{TransactionLeaf, FIELD_SIZE_IN_BITS};

fn sample() -> TransactionLeaf {
    TransactionLeaf {
        variant: 3,
        index: 5,
        id: Field { limbs0: 1, limbs1: 0, limbs2: 1 << 3, limbs3: 1 << 60 },
    }
}

#[test]
fn leaf_bits_le() {
    let mut bits = vec![true];
    sample().write_bits_le(&mut bits);
    assert_eq!(bits.len(), 1 + 8 + 16 + FIELD_SIZE_IN_BITS);
    let bits = &bits[1..];
    assert_eq!(&bits[..8], &[true, true, false, false, false, false, false, false]);
    assert_eq!(&bits[8..11], &[true, false, true]);
    assert!(bits[11..24].iter().all(|b| !b));
    let id = &bits[24..];
    let ones: Vec<usize> = (0..id.len()).filter(|&i| id[i]).collect();
    assert_eq!(ones, vec![0, 131, 252]);
}

#[test]
fn leaf_bits_be() {
    let mut bits = Vec::new();
    sample().write_bits_be(&mut bits);
    assert_eq!(bits.len(), 8 + 16 + FIELD_SIZE_IN_BITS);
    assert_eq!(&bits[..8], &[false, false, false, false, false, false, true, true]);
    assert!(bits[8..21].iter().all(|b| !b));
    assert_eq!(&bits[21..24], &[true, false, true]);
    let id = &bits[24..];
    let ones: Vec<usize> = (0..id.len()).filter(|&i| id[i]).collect();
    assert_eq!(ones, vec![0, 252 - 131, 252]);
}
