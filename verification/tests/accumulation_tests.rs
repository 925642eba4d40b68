use r1cs_nark_as::accumulation::{Accumulator, BDASForR1CSNark, InputInstance};
use r1cs_nark_as::data_structures::FullAssignment;
use r1cs_nark_as::field::{Scalar, MODULUS};
use r1cs_nark_as::nark::{ConstraintSystemDescription, R1CSNark};
use r1cs_nark_as::NarkError;

fn s(v: u64) -> Scalar {
    Scalar { v: v % MODULUS }
}

fn square_description() -> ConstraintSystemDescription {
    ConstraintSystemDescription {
        a: vec![vec![(s(1), 1usize)]],
        b: vec![vec![(s(1), 1usize)]],
        c: vec![vec![(s(1), 2usize)]],
        num_instance_variables: 2,
        num_witness_variables: 1,
        num_constraints: 1,
    }
}

fn square_instance(x: u64, y: u64, zk: bool) -> (InputInstance, Vec<Scalar>) {
    let pp = R1CSNark::setup();
    let (ipk, _) = R1CSNark::index(&pp, &square_description()).unwrap();
    let assignment = FullAssignment { input: vec![s(1), s(x)], witness: vec![s(y)] };
    let proof = R1CSNark::prove(&ipk, &assignment, zk).unwrap();
    (InputInstance { input: vec![s(1), s(x)], proof }, vec![s(1), s(x)])
}

#[test]
fn folding_valid_proofs_is_decided_true() {
    let as_pp = BDASForR1CSNark::setup(4);
    let nark_pp = R1CSNark::setup();
    let (apk, _avk, adk) =
        BDASForR1CSNark::index(&as_pp, &nark_pp, &square_description()).unwrap();
    let (inst1, _) = square_instance(3, 9, false);
    let (inst2, _) = square_instance(5, 25, true);
    let inputs = vec![inst1, inst2];
    let (acc, _fp) = BDASForR1CSNark::prove(&apk, &inputs, None).unwrap();
    assert!(BDASForR1CSNark::decide(&adk, &acc));
}

#[test]
fn folding_chains_through_an_old_accumulator() {
    let as_pp = BDASForR1CSNark::setup(2);
    let nark_pp = R1CSNark::setup();
    let (apk, _avk, adk) =
        BDASForR1CSNark::index(&as_pp, &nark_pp, &square_description()).unwrap();
    let (inst1, _) = square_instance(3, 9, false);
    let (acc1, _) = BDASForR1CSNark::prove(&apk, &vec![inst1], None).unwrap();
    assert!(BDASForR1CSNark::decide(&adk, &acc1));
    let (inst2, _) = square_instance(4, 16, false);
    let (acc2, _) = BDASForR1CSNark::prove(&apk, &vec![inst2], Some(&acc1)).unwrap();
    assert!(BDASForR1CSNark::decide(&adk, &acc2));
}

#[test]
fn exceeding_the_depth_bound_is_an_error() {
    let as_pp = BDASForR1CSNark::setup(2);
    let nark_pp = R1CSNark::setup();
    let (apk, _avk, _adk) =
        BDASForR1CSNark::index(&as_pp, &nark_pp, &square_description()).unwrap();
    let (inst1, _) = square_instance(3, 9, false);
    let (inst2, _) = square_instance(4, 16, false);
    let (inst3, _) = square_instance(5, 25, false);
    let inputs = vec![inst1, inst2, inst3];
    let result = BDASForR1CSNark::prove(&apk, &inputs, None);
    assert_eq!(result.err().unwrap(), NarkError::BoundExceededError(2, 3));
}

#[test]
fn mismatched_instance_is_an_error() {
    let as_pp = BDASForR1CSNark::setup(2);
    let nark_pp = R1CSNark::setup();
    let (apk, _avk, _adk) =
        BDASForR1CSNark::index(&as_pp, &nark_pp, &square_description()).unwrap();
    let (mut inst, _) = square_instance(3, 9, false);
    // An instance whose public input does not fit the indexed relation.
    inst.input = vec![s(1)];
    let result = BDASForR1CSNark::prove(&apk, &vec![inst], None);
    assert_eq!(result.err().unwrap(), NarkError::RelationMismatchError);
}

#[test]
fn folding_a_corrupted_proof_is_decided_false() {
    let as_pp = BDASForR1CSNark::setup(2);
    let nark_pp = R1CSNark::setup();
    let (apk, _avk, adk) =
        BDASForR1CSNark::index(&as_pp, &nark_pp, &square_description()).unwrap();
    let (mut inst, _) = square_instance(3, 9, false);
    let old = inst.proof.second_msg.blinded_witness.blinded_assignment[0];
    inst.proof.second_msg.blinded_witness.blinded_assignment[0] = s(old.v + 1);
    let (acc, _) = BDASForR1CSNark::prove(&apk, &vec![inst], None).unwrap();
    assert!(!BDASForR1CSNark::decide(&adk, &acc));
}

#[test]
fn folding_proof_coefficient_is_deterministic() {
    let as_pp = BDASForR1CSNark::setup(2);
    let nark_pp = R1CSNark::setup();
    let (apk, _avk, _adk) =
        BDASForR1CSNark::index(&as_pp, &nark_pp, &square_description()).unwrap();
    let (inst, _) = square_instance(3, 9, false);
    let (acc1, fp1) = BDASForR1CSNark::prove(&apk, &vec![inst.clone()], None).unwrap();
    let (acc2, fp2) = BDASForR1CSNark::prove(&apk, &vec![inst], None).unwrap();
    assert_eq!(fp1.nu.v, fp2.nu.v);
    assert_eq!(acc1.lhs.v, acc2.lhs.v);
    assert_eq!(acc1.rhs.v, acc2.rhs.v);
}

#[test]
fn decider_compares_the_folded_sides() {
    let as_pp = BDASForR1CSNark::setup(1);
    let nark_pp = R1CSNark::setup();
    let (_apk, _avk, adk) =
        BDASForR1CSNark::index(&as_pp, &nark_pp, &square_description()).unwrap();
    let equal = Accumulator {
        lhs: r1cs_nark_as::group::Group { v: 7 },
        rhs: r1cs_nark_as::group::Group { v: 7 },
    };
    let unequal = Accumulator {
        lhs: r1cs_nark_as::group::Group { v: 7 },
        rhs: r1cs_nark_as::group::Group { v: 8 },
    };
    assert!(BDASForR1CSNark::decide(&adk, &equal));
    assert!(!BDASForR1CSNark::decide(&adk, &unequal));
}
