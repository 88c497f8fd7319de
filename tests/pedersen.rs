use snarkvm_core::pedersen::PedersenCommitmentParameters;

fn sample() -> PedersenCommitmentParameters {
    PedersenCommitmentParameters {
        bases: vec![vec![vec![1, 1, 1, 1], vec![2, 2, 2, 2]], vec![vec![3, 3, 3, 3]]],
        random_base: vec![vec![4, 4, 4, 4], vec![5, 5, 5, 5]],
    }
}

#[test]
fn pedersen_bytes_layout() {
    let bytes = sample().write_le().unwrap();
    let expected: Vec<u8> = vec![
        2, 0, 0, 0, 2, 0, 0, 0, 1, 1, 1, 1, 2, 2, 2, 2, 1, 0, 0, 0, 3, 3, 3, 3, 2, 0, 0, 0, 4, 4,
        4, 4, 5, 5, 5, 5,
    ];
    assert_eq!(bytes, expected);
}

#[test]
fn pedersen_bytes_round_trip() {
    let p = sample();
    let bytes = p.write_le().unwrap();
    let (q, end) = PedersenCommitmentParameters::read_le(&bytes, 0, 4).unwrap();
    assert_eq!(end, bytes.len());
    assert_eq!(q.bases, p.bases);
    assert_eq!(q.random_base, p.random_base);
    let mut framed = vec![0xff, 0xee];
    framed.extend_from_slice(&bytes);
    framed.push(0xdd);
    let (r, end) = PedersenCommitmentParameters::read_le(&framed, 2, 4).unwrap();
    assert_eq!(end, framed.len() - 1);
    assert_eq!(r.bases, p.bases);
    assert_eq!(r.random_base, p.random_base);
}

#[test]
fn pedersen_empty_parameters() {
    let p = PedersenCommitmentParameters { bases: vec![], random_base: vec![] };
    let bytes = p.write_le().unwrap();
    assert_eq!(bytes, vec![0, 0, 0, 0, 0, 0, 0, 0]);
    let (q, end) = PedersenCommitmentParameters::read_le(&bytes, 0, 4).unwrap();
    assert_eq!(end, 8);
    assert!(q.bases.is_empty() && q.random_base.is_empty());
}

#[test]
fn pedersen_truncated_bytes() {
    let bytes = sample().write_le().unwrap();
    for cut in [0, 3, 4, 10, 20, bytes.len() - 1] {
        assert!(PedersenCommitmentParameters::read_le(&bytes[..cut], 0, 4).is_none());
    }
    assert!(PedersenCommitmentParameters::read_le(&bytes, 0, 5).is_none());
}
