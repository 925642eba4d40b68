use r1cs_nark_as::data_structures::FullAssignment;
use r1cs_nark_as::field::{Scalar, MODULUS};
use r1cs_nark_as::hashing::derive_challenge;
use r1cs_nark_as::nark::{ConstraintSystemDescription, R1CSNark, ZkRandomness};
use r1cs_nark_as::NarkError;

fn s(v: u64) -> Scalar {
    Scalar { v: v % MODULUS }
}

/// The relation x * x = y with instance variables (1, x) and witness (y):
/// one constraint, A = B = [x], C = [y].
fn square_description() -> ConstraintSystemDescription {
    ConstraintSystemDescription {
        a: vec![vec![(s(1), 1usize)]],
        b: vec![vec![(s(1), 1usize)]],
        c: vec![vec![(s(1), 2usize)]],
        num_instance_variables: 2,
        num_witness_variables: 1,
        num_constraints: 1,
    }
}

fn square_assignment(x: u64, y: u64) -> FullAssignment {
    FullAssignment { input: vec![s(1), s(x)], witness: vec![s(y)] }
}

#[test]
fn square_relation_accepts_honest_proof() {
    let pp = R1CSNark::setup();
    let (ipk, ivk) = R1CSNark::index(&pp, &square_description()).unwrap();
    let assignment = square_assignment(3, 9);
    let proof = R1CSNark::prove(&ipk, &assignment, false).unwrap();
    assert!(R1CSNark::verify(&ivk, &vec![s(1), s(3)], &proof));
}

#[test]
fn square_relation_accepts_zero_knowledge_proof() {
    let pp = R1CSNark::setup();
    let (ipk, ivk) = R1CSNark::index(&pp, &square_description()).unwrap();
    let assignment = square_assignment(3, 9);
    let proof = R1CSNark::prove(&ipk, &assignment, true).unwrap();
    assert!(proof.first_msg.randomness.is_some());
    assert!(proof.second_msg.randomness.is_some());
    assert!(R1CSNark::verify(&ivk, &vec![s(1), s(3)], &proof));
}

#[test]
fn changed_public_input_is_rejected() {
    let pp = R1CSNark::setup();
    let (ipk, ivk) = R1CSNark::index(&pp, &square_description()).unwrap();
    let assignment = square_assignment(3, 9);
    let proof = R1CSNark::prove(&ipk, &assignment, false).unwrap();
    assert!(!R1CSNark::verify(&ivk, &vec![s(1), s(4)], &proof));
}

#[test]
fn mutated_witness_coordinate_is_rejected() {
    let pp = R1CSNark::setup();
    let (ipk, ivk) = R1CSNark::index(&pp, &square_description()).unwrap();
    let assignment = square_assignment(3, 9);
    let mut proof = R1CSNark::prove(&ipk, &assignment, false).unwrap();
    let old = proof.second_msg.blinded_witness.blinded_assignment[0];
    proof.second_msg.blinded_witness.blinded_assignment[0] = s(old.v + 1);
    assert!(!R1CSNark::verify(&ivk, &vec![s(1), s(3)], &proof));
}

#[test]
fn mutated_commitments_are_rejected() {
    let pp = R1CSNark::setup();
    let (ipk, ivk) = R1CSNark::index(&pp, &square_description()).unwrap();
    let assignment = square_assignment(3, 9);
    let honest = R1CSNark::prove(&ipk, &assignment, false).unwrap();
    let input = vec![s(1), s(3)];

    let mut p = honest.clone();
    p.first_msg.comm_a = r1cs_nark_as::group::Group { v: (p.first_msg.comm_a.v + 1) % MODULUS };
    assert!(!R1CSNark::verify(&ivk, &input, &p));

    let mut p = honest.clone();
    p.first_msg.comm_b = r1cs_nark_as::group::Group { v: (p.first_msg.comm_b.v + 1) % MODULUS };
    assert!(!R1CSNark::verify(&ivk, &input, &p));

    let mut p = honest.clone();
    p.first_msg.comm_c = r1cs_nark_as::group::Group { v: (p.first_msg.comm_c.v + 1) % MODULUS };
    assert!(!R1CSNark::verify(&ivk, &input, &p));
}

#[test]
fn mutated_zero_knowledge_witness_is_rejected() {
    let pp = R1CSNark::setup();
    let (ipk, ivk) = R1CSNark::index(&pp, &square_description()).unwrap();
    let assignment = square_assignment(3, 9);
    let mut proof = R1CSNark::prove(&ipk, &assignment, true).unwrap();
    let old = proof.second_msg.blinded_witness.blinded_assignment[0];
    proof.second_msg.blinded_witness.blinded_assignment[0] = s(old.v + 1);
    assert!(!R1CSNark::verify(&ivk, &vec![s(1), s(3)], &proof));
}

#[test]
fn flag_mismatch_is_rejected() {
    let pp = R1CSNark::setup();
    let (ipk, ivk) = R1CSNark::index(&pp, &square_description()).unwrap();
    let assignment = square_assignment(3, 9);
    let honest = R1CSNark::prove(&ipk, &assignment, false).unwrap();
    let input = vec![s(1), s(3)];

    // Second round claims zero knowledge while the first does not.
    let mut p = honest.clone();
    p.second_msg.randomness = Some(r1cs_nark_as::data_structures::SecondRoundRandomness {
        sigma_a: s(0),
        sigma_b: s(0),
        sigma_c: s(0),
        sigma_o: s(0),
    });
    assert!(!R1CSNark::verify(&ivk, &input, &p));

    // First round claims zero knowledge while the second does not.
    let zk = R1CSNark::prove(&ipk, &assignment, true).unwrap();
    let mut q = zk.clone();
    q.second_msg.randomness = None;
    assert!(!R1CSNark::verify(&ivk, &input, &q));
}

#[test]
fn challenge_derivation_is_deterministic() {
    let pp = R1CSNark::setup();
    let (ipk, _) = R1CSNark::index(&pp, &square_description()).unwrap();
    let assignment = square_assignment(3, 9);
    let proof = R1CSNark::prove(&ipk, &assignment, false).unwrap();
    let input = vec![s(1), s(3)];
    let c1 = derive_challenge(&ipk.index_info.matrices_hash, &input, &proof.first_msg);
    let c2 = derive_challenge(&ipk.index_info.matrices_hash, &input, &proof.first_msg);
    assert_eq!(c1.v, c2.v);

    // Changing one byte of the matrices hash changes the challenge.
    let mut other_hash = ipk.index_info.matrices_hash.clone();
    other_hash[0] ^= 1;
    let c3 = derive_challenge(&other_hash, &input, &proof.first_msg);
    assert_ne!(c1.v, c3.v);

    // Changing the public input changes the challenge.
    let c4 = derive_challenge(&ipk.index_info.matrices_hash, &vec![s(1), s(4)], &proof.first_msg);
    assert_ne!(c1.v, c4.v);

    // Changing the first-round message changes the challenge.
    let mut other_msg = proof.first_msg.clone();
    other_msg.comm_a = r1cs_nark_as::group::Group { v: (other_msg.comm_a.v + 1) % MODULUS };
    let c5 = derive_challenge(&ipk.index_info.matrices_hash, &input, &other_msg);
    assert_ne!(c1.v, c5.v);
}

#[test]
fn two_zero_knowledge_proofs_hide_the_witness() {
    let pp = R1CSNark::setup();
    let (ipk, ivk) = R1CSNark::index(&pp, &square_description()).unwrap();
    let assignment = square_assignment(3, 9);
    let rand1 = ZkRandomness {
        r: vec![s(11)],
        a_blind: s(21),
        b_blind: s(22),
        c_blind: s(23),
        r_a_blind: s(24),
        r_b_blind: s(25),
        r_c_blind: s(26),
        blind_1: s(27),
        blind_2: s(28),
    };
    let rand2 = ZkRandomness {
        r: vec![s(31)],
        a_blind: s(41),
        b_blind: s(42),
        c_blind: s(43),
        r_a_blind: s(44),
        r_b_blind: s(45),
        r_c_blind: s(46),
        blind_1: s(47),
        blind_2: s(48),
    };
    let p1 = R1CSNark::prove_with_randomness(&ipk, &assignment, Some(&rand1)).unwrap();
    let p2 = R1CSNark::prove_with_randomness(&ipk, &assignment, Some(&rand2)).unwrap();
    let input = vec![s(1), s(3)];
    assert!(R1CSNark::verify(&ivk, &input, &p1));
    assert!(R1CSNark::verify(&ivk, &input, &p2));
    // The commitments and blinded witnesses of the two proofs differ, and
    // neither published witness equals the raw witness.
    assert_ne!(p1.first_msg.comm_a.v, p2.first_msg.comm_a.v);
    assert_ne!(
        p1.second_msg.blinded_witness.blinded_assignment[0].v,
        p2.second_msg.blinded_witness.blinded_assignment[0].v
    );
    assert_ne!(p1.second_msg.blinded_witness.blinded_assignment[0].v, 9);
    assert_ne!(p2.second_msg.blinded_witness.blinded_assignment[0].v, 9);
    // The blinded witness is exactly witness + challenge * randomizer.
    let gamma = derive_challenge(&ipk.index_info.matrices_hash, &input, &p1.first_msg);
    let expected = s(9).add(gamma.mul(s(11)));
    assert_eq!(p1.second_msg.blinded_witness.blinded_assignment[0].v, expected.v);
}

#[test]
fn dimension_mismatch_is_reported() {
    let pp = R1CSNark::setup();
    let (ipk, _) = R1CSNark::index(&pp, &square_description()).unwrap();
    let bad = FullAssignment { input: vec![s(1), s(3)], witness: vec![s(9), s(7)] };
    let result = R1CSNark::prove(&ipk, &bad, false);
    assert_eq!(result.err().unwrap(), NarkError::DimensionMismatchError(3, 2, 2, 1));
}

#[test]
fn malformed_description_is_rejected() {
    let pp = R1CSNark::setup();
    // Row count disagrees with the declared constraint count.
    let bad = ConstraintSystemDescription {
        a: vec![vec![(s(1), 1usize)], vec![]],
        b: vec![vec![(s(1), 1usize)]],
        c: vec![vec![(s(1), 2usize)]],
        num_instance_variables: 2,
        num_witness_variables: 1,
        num_constraints: 1,
    };
    assert_eq!(R1CSNark::index(&pp, &bad).err().unwrap(), NarkError::ConstraintGenerationError);

    // A column index out of the variable range.
    let bad_col = ConstraintSystemDescription {
        a: vec![vec![(s(1), 7usize)]],
        b: vec![vec![(s(1), 1usize)]],
        c: vec![vec![(s(1), 2usize)]],
        num_instance_variables: 2,
        num_witness_variables: 1,
        num_constraints: 1,
    };
    assert_eq!(
        R1CSNark::index(&pp, &bad_col).err().unwrap(),
        NarkError::ConstraintGenerationError
    );
}

#[test]
fn prover_and_verifier_keys_agree() {
    let pp = R1CSNark::setup();
    let (ipk, ivk) = R1CSNark::index(&pp, &square_description()).unwrap();
    assert_eq!(ipk.index_info.matrices_hash, ivk.index_info.matrices_hash);
    assert_eq!(ipk.index_info.num_variables, 3);
    assert_eq!(ipk.index_info.num_constraints, 1);
    assert_eq!(ipk.index_info.num_instance_variables, 2);
    assert_eq!(ipk.index_info.matrices_hash.len(), 32);
    assert_eq!(ipk.ck.generators.len(), 1);
    assert_eq!(ipk.ck.generators[0].v, ivk.ck.generators[0].v);
    assert_eq!(ipk.ck.hiding_generator.v, ivk.ck.hiding_generator.v);
}

#[test]
fn assignment_concatenates_for_absorption() {
    let assignment = square_assignment(3, 9);
    let elements = assignment.to_sponge_field_elements();
    assert_eq!(elements.len(), 3);
    assert_eq!(elements[0].v, 1);
    assert_eq!(elements[1].v, 3);
    assert_eq!(elements[2].v, 9);
    let bytes = assignment.to_sponge_bytes();
    // Two length prefixes plus three eight-byte values.
    assert_eq!(bytes.len(), 16 + 24);
}

#[test]
fn field_arithmetic_reduces() {
    let a = Scalar { v: MODULUS - 1 };
    let b = Scalar { v: 2 };
    assert_eq!(a.add(b).v, 1);
    assert_eq!(a.mul(b).v, MODULUS - 2);
    assert_eq!(Scalar::new(MODULUS).v, 0);
    assert_eq!(Scalar::one().mul(a).v, MODULUS - 1);
    assert_eq!(a.square().v, a.mul(a).v);
}
