use r1cs_nark_as::codec::{deserialize_index_info, deserialize_index_key, deserialize_proof,
    serialize_index_info, serialize_index_key, serialize_proof};
use r1cs_nark_as::data_structures::FullAssignment;
use r1cs_nark_as::field::{Scalar, MODULUS};
use r1cs_nark_as::nark::{ConstraintSystemDescription, R1CSNark};

fn s(v: u64) -> Scalar {
    Scalar { v: v % MODULUS }
}

fn square_description() -> ConstraintSystemDescription {
    ConstraintSystemDescription {
        a: vec![vec![(s(1), 1usize)]],
        b: vec![vec![(s(1), 1usize)]],
        c: vec![vec![(s(1), 2usize)]],
        num_instance_variables: 2,
        num_witness_variables: 1,
        num_constraints: 1,
    }
}

#[test]
fn proof_round_trips_and_still_verifies() {
    let pp = R1CSNark::setup();
    let (ipk, ivk) = R1CSNark::index(&pp, &square_description()).unwrap();
    let assignment = FullAssignment { input: vec![s(1), s(3)], witness: vec![s(9)] };
    let input = vec![s(1), s(3)];
    for zk in [false, true] {
        let proof = R1CSNark::prove(&ipk, &assignment, zk).unwrap();
        let bytes = serialize_proof(&proof);
        let back = deserialize_proof(&bytes).unwrap();
        assert_eq!(serialize_proof(&back), bytes);
        assert!(R1CSNark::verify(&ivk, &input, &back));
    }
}

#[test]
fn index_info_round_trips() {
    let pp = R1CSNark::setup();
    let (ipk, _) = R1CSNark::index(&pp, &square_description()).unwrap();
    let bytes = serialize_index_info(&ipk.index_info);
    let back = deserialize_index_info(&bytes).unwrap();
    assert_eq!(back.num_variables, ipk.index_info.num_variables);
    assert_eq!(back.num_constraints, ipk.index_info.num_constraints);
    assert_eq!(back.num_instance_variables, ipk.index_info.num_instance_variables);
    assert_eq!(back.matrices_hash, ipk.index_info.matrices_hash);
}

#[test]
fn index_key_round_trips_and_still_verifies() {
    let pp = R1CSNark::setup();
    let (ipk, ivk) = R1CSNark::index(&pp, &square_description()).unwrap();
    let bytes = serialize_index_key(&ivk);
    let back = deserialize_index_key(&bytes).unwrap();
    assert_eq!(serialize_index_key(&back), bytes);
    let assignment = FullAssignment { input: vec![s(1), s(3)], witness: vec![s(9)] };
    let proof = R1CSNark::prove(&ipk, &assignment, true).unwrap();
    assert!(R1CSNark::verify(&back, &vec![s(1), s(3)], &proof));
}

#[test]
fn corrupted_encodings_are_rejected() {
    let pp = R1CSNark::setup();
    let (ipk, _) = R1CSNark::index(&pp, &square_description()).unwrap();
    let assignment = FullAssignment { input: vec![s(1), s(3)], witness: vec![s(9)] };
    let proof = R1CSNark::prove(&ipk, &assignment, false).unwrap();
    let bytes = serialize_proof(&proof);

    // A truncated encoding is rejected.
    let mut truncated = bytes.clone();
    truncated.pop();
    assert!(deserialize_proof(&truncated).is_none());

    // Trailing bytes are rejected.
    let mut padded = bytes.clone();
    padded.push(0);
    assert!(deserialize_proof(&padded).is_none());

    // A non-canonical field element (all bits set) is rejected.
    let mut non_canonical = bytes.clone();
    for i in 0..8 {
        non_canonical[i] = 0xff;
    }
    assert!(deserialize_proof(&non_canonical).is_none());

    // An unknown flag byte is rejected.
    let mut bad_flag = bytes.clone();
    bad_flag[24] = 2;
    assert!(deserialize_proof(&bad_flag).is_none());
}
