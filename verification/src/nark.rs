//! The NARK for R1CS satisfiability: indexing, proving, verifying.
//!
//! The prover commits to the three matrix products of the solution vector,
//! derives the Fiat-Shamir challenge from the matrices hash, the public input
//! and the first-round message, and publishes the (optionally blinded) witness
//! with the commitment openings. The verifier recomputes the products from the
//! public input and the published witness and checks the four commitment
//! equations.

use vstd::prelude::*;
use crate::field::{fadd, fmul, in_field, Scalar, MODULUS};
use crate::group::Group;
use crate::matrix::{copy_matrix, copy_scalars, hadamard_product, in_field_seq, matrix_canonical,
    matrix_model, matrix_vec_mul, matrix_wf, lemma_scalars_wf_vals, scalars_canonical, scalars_wf,
    spec_mat_vec, vals, vec_add, vec_hadamard, vec_scale, vector_add, vector_scale, zero_vector,
    zeros, Matrix};
use crate::commitment::{commit, opt_val, spec_commit, CommitmentKeyView};
use crate::hashing::{challenge_spec, derive_challenge, derive_commitment_key, generator_spec,
    hash_matrices, protocol_name, protocol_name_bytes};
use crate::data_structures::{CommitmentFullAssignment, FirstRoundMessage, FirstRoundMessageView,
    FirstRoundRandomness, FirstRoundRandomnessView, FullAssignment, IndexInfo, IndexInfoView,
    IndexKeyView, IndexProverKey, IndexVerifierKey, Proof, ProofView, PublicParameters,
    SecondRoundMessage, SecondRoundMessageView, SecondRoundRandomness, SecondRoundRandomnessView};
use crate::field::sample_scalar;
use crate::NarkError;

verus! {

/// A plain description of an R1CS instance: the three sparse matrices and the
/// variable and constraint counts they must match.
pub struct ConstraintSystemDescription {
    pub a: Matrix,
    pub b: Matrix,
    pub c: Matrix,
    pub num_instance_variables: usize,
    pub num_witness_variables: usize,
    pub num_constraints: usize,
}

/// The view of a constraint-system description.
pub struct ConstraintSystemDescriptionView {
    pub a: Seq<Seq<(int, int)>>,
    pub b: Seq<Seq<(int, int)>>,
    pub c: Seq<Seq<(int, int)>>,
    pub num_instance_variables: int,
    pub num_witness_variables: int,
    pub num_constraints: int,
}

impl View for ConstraintSystemDescription {
    type V = ConstraintSystemDescriptionView;

    open spec fn view(&self) -> ConstraintSystemDescriptionView {
        ConstraintSystemDescriptionView {
            a: matrix_model(self.a@),
            b: matrix_model(self.b@),
            c: matrix_model(self.c@),
            num_instance_variables: self.num_instance_variables as int,
            num_witness_variables: self.num_witness_variables as int,
            num_constraints: self.num_constraints as int,
        }
    }
}

impl ConstraintSystemDescriptionView {
    /// A description can produce matrices exactly when the counts match the
    /// matrices, entries are canonical and column indices in range, and the
    /// counts stay within machine bounds.
    pub open spec fn valid(self) -> bool {
        &&& self.a.len() == self.num_constraints
        &&& self.b.len() == self.num_constraints
        &&& self.c.len() == self.num_constraints
        &&& matrix_wf(self.a, self.num_instance_variables + self.num_witness_variables)
        &&& matrix_wf(self.b, self.num_instance_variables + self.num_witness_variables)
        &&& matrix_wf(self.c, self.num_instance_variables + self.num_witness_variables)
        &&& self.num_instance_variables + self.num_witness_variables <= usize::MAX
        &&& self.num_constraints < usize::MAX
    }
}

impl ConstraintSystemDescription {
    /// Whether this description can produce its matrices.
    pub fn is_valid(&self) -> (r: bool)
        ensures
            r == self@.valid(),
    {
        if self.a.len() != self.num_constraints || self.b.len() != self.num_constraints
            || self.c.len() != self.num_constraints {
            return false;
        }
        if self.num_constraints >= usize::MAX {
            return false;
        }
        if self.num_instance_variables > usize::MAX - self.num_witness_variables {
            return false;
        }
        let num_variables = self.num_instance_variables + self.num_witness_variables;
        let ok = matrix_canonical(&self.a, num_variables) && matrix_canonical(&self.b, num_variables)
            && matrix_canonical(&self.c, num_variables);
        ok
    }
}

/// The randomness a zero-knowledge prover consumes: the witness randomizer and
/// the eight blinding scalars.
pub struct ZkRandomness {
    pub r: Vec<Scalar>,
    pub a_blind: Scalar,
    pub b_blind: Scalar,
    pub c_blind: Scalar,
    pub r_a_blind: Scalar,
    pub r_b_blind: Scalar,
    pub r_c_blind: Scalar,
    pub blind_1: Scalar,
    pub blind_2: Scalar,
}

/// The view of the zero-knowledge randomness.
pub struct ZkRandomnessView {
    pub r: Seq<int>,
    pub a_blind: int,
    pub b_blind: int,
    pub c_blind: int,
    pub r_a_blind: int,
    pub r_b_blind: int,
    pub r_c_blind: int,
    pub blind_1: int,
    pub blind_2: int,
}

impl View for ZkRandomness {
    type V = ZkRandomnessView;

    open spec fn view(&self) -> ZkRandomnessView {
        ZkRandomnessView {
            r: vals(self.r@),
            a_blind: self.a_blind@,
            b_blind: self.b_blind@,
            c_blind: self.c_blind@,
            r_a_blind: self.r_a_blind@,
            r_b_blind: self.r_b_blind@,
            r_c_blind: self.r_c_blind@,
            blind_1: self.blind_1@,
            blind_2: self.blind_2@,
        }
    }
}

impl ZkRandomness {
    /// Canonicity of all randomness entries.
    pub open spec fn wf(self) -> bool {
        scalars_wf(self.r@) && self.a_blind.wf() && self.b_blind.wf() && self.c_blind.wf()
            && self.r_a_blind.wf() && self.r_b_blind.wf() && self.r_c_blind.wf()
            && self.blind_1.wf() && self.blind_2.wf()
    }
}

impl ZkRandomnessView {
    /// Canonicity, with the randomizer sized to the witness.
    pub open spec fn wf(self, witness_len: int) -> bool {
        &&& self.r.len() == witness_len
        &&& in_field_seq(self.r)
        &&& in_field(self.a_blind)
        &&& in_field(self.b_blind)
        &&& in_field(self.c_blind)
        &&& in_field(self.r_a_blind)
        &&& in_field(self.r_b_blind)
        &&& in_field(self.r_c_blind)
        &&& in_field(self.blind_1)
        &&& in_field(self.blind_2)
    }
}

/// The index descriptor a valid description indexes to.
pub open spec fn spec_index_info(cs: ConstraintSystemDescriptionView) -> IndexInfoView {
    IndexInfoView {
        num_variables: cs.num_instance_variables + cs.num_witness_variables,
        num_constraints: cs.num_constraints,
        num_instance_variables: cs.num_instance_variables,
        matrices_hash: crate::hashing::matrices_hash_spec(protocol_name(), cs.a, cs.b, cs.c),
    }
}

/// The key a valid description indexes to: the descriptor, the matrices, and
/// the commitment key derived from the matrices hash, sized to the constraint
/// count.
pub open spec fn spec_index_key(cs: ConstraintSystemDescriptionView) -> IndexKeyView {
    let info = spec_index_info(cs);
    IndexKeyView {
        info: info,
        a: cs.a,
        b: cs.b,
        c: cs.c,
        ck: CommitmentKeyView {
            generators: Seq::new(
                cs.num_constraints as nat,
                |i: int| generator_spec(info.matrices_hash, i),
            ),
            hiding_generator: generator_spec(info.matrices_hash, cs.num_constraints),
        },
    }
}

/// Whether an assignment satisfies the indexed relation: the Hadamard product
/// of the A- and B-products of the solution vector equals its C-product.
pub open spec fn satisfying(k: IndexKeyView, input: Seq<int>, witness: Seq<int>) -> bool {
    let z = input + witness;
    vec_hadamard(spec_mat_vec(k.a, z), spec_mat_vec(k.b, z)) == spec_mat_vec(k.c, z)
}

/// The proof an honest prover produces from an assignment and, when zero
/// knowledge is requested, a randomness bundle.
pub open spec fn prove_spec(
    k: IndexKeyView,
    input: Seq<int>,
    witness: Seq<int>,
    zk: Option<ZkRandomnessView>,
) -> ProofView {
    let z = input + witness;
    let za = spec_mat_vec(k.a, z);
    let zb = spec_mat_vec(k.b, z);
    let zc = spec_mat_vec(k.c, z);
    match zk {
        None => ProofView {
            first: FirstRoundMessageView {
                comm_a: spec_commit(k.ck, za, None),
                comm_b: spec_commit(k.ck, zb, None),
                comm_c: spec_commit(k.ck, zc, None),
                randomness: None,
            },
            second: SecondRoundMessageView { blinded_witness: witness, randomness: None },
        },
        Some(zr) => {
            let zrv = zeros(input.len()) + zr.r;
            let ra = spec_mat_vec(k.a, zrv);
            let rb = spec_mat_vec(k.b, zrv);
            let rc = spec_mat_vec(k.c, zrv);
            let cross = vec_add(vec_hadamard(za, rb), vec_hadamard(zb, ra));
            let first = FirstRoundMessageView {
                comm_a: spec_commit(k.ck, za, Some(zr.a_blind)),
                comm_b: spec_commit(k.ck, zb, Some(zr.b_blind)),
                comm_c: spec_commit(k.ck, zc, Some(zr.c_blind)),
                randomness: Some(
                    FirstRoundRandomnessView {
                        comm_r_a: spec_commit(k.ck, ra, Some(zr.r_a_blind)),
                        comm_r_b: spec_commit(k.ck, rb, Some(zr.r_b_blind)),
                        comm_r_c: spec_commit(k.ck, rc, Some(zr.r_c_blind)),
                        comm_1: spec_commit(k.ck, cross, Some(zr.blind_1)),
                        comm_2: spec_commit(k.ck, vec_hadamard(ra, rb), Some(zr.blind_2)),
                    },
                ),
            };
            let gamma = challenge_spec(k.info.matrices_hash, input, first);
            ProofView {
                first: first,
                second: SecondRoundMessageView {
                    blinded_witness: vec_add(witness, vec_scale(gamma, zr.r)),
                    randomness: Some(
                        SecondRoundRandomnessView {
                            sigma_a: fadd(zr.a_blind, fmul(gamma, zr.r_a_blind)),
                            sigma_b: fadd(zr.b_blind, fmul(gamma, zr.r_b_blind)),
                            sigma_c: fadd(zr.c_blind, fmul(gamma, zr.r_c_blind)),
                            sigma_o: fadd(
                                zr.c_blind,
                                fadd(fmul(gamma, zr.blind_1), fmul(fmul(gamma, gamma), zr.blind_2)),
                            ),
                        },
                    ),
                },
            }
        },
    }
}

/// What the verifier accepts: flag-consistent, canonical, well-sized proofs
/// whose four commitment equations hold for the re-derived challenge.
pub open spec fn verify_spec(k: IndexKeyView, input: Seq<int>, p: ProofView) -> bool {
    if (p.first.randomness is Some) != (p.second.randomness is Some) {
        false
    } else if !p.wf() {
        false
    } else if !in_field_seq(input) {
        false
    } else if input.len() != k.info.num_instance_variables {
        false
    } else if input.len() + p.second.blinded_witness.len() != k.info.num_variables {
        false
    } else {
        let gamma = challenge_spec(k.info.matrices_hash, input, p.first);
        let zp = input + p.second.blinded_witness;
        let az = spec_mat_vec(k.a, zp);
        let bz = spec_mat_vec(k.b, zp);
        let cz = spec_mat_vec(k.c, zp);
        let e_a = verify_lhs(p.first.comm_a, gamma, first_rand_a(p.first)) == spec_commit(
            k.ck,
            az,
            second_rand_a(p.second),
        );
        let e_b = verify_lhs(p.first.comm_b, gamma, first_rand_b(p.first)) == spec_commit(
            k.ck,
            bz,
            second_rand_b(p.second),
        );
        let e_c = verify_lhs(p.first.comm_c, gamma, first_rand_c(p.first)) == spec_commit(
            k.ck,
            cz,
            second_rand_c(p.second),
        );
        let e_o = verify_lhs_hadamard(p.first, gamma) == spec_commit(
            k.ck,
            vec_hadamard(az, bz),
            second_rand_o(p.second),
        );
        e_a && e_b && e_c && e_o
    }
}

/// The randomizer commitment the A-equation folds in, if any.
pub open spec fn first_rand_a(fm: FirstRoundMessageView) -> Option<int> {
    match fm.randomness {
        Some(r) => Some(r.comm_r_a),
        None => None,
    }
}

/// The randomizer commitment the B-equation folds in, if any.
pub open spec fn first_rand_b(fm: FirstRoundMessageView) -> Option<int> {
    match fm.randomness {
        Some(r) => Some(r.comm_r_b),
        None => None,
    }
}

/// The randomizer commitment the C-equation folds in, if any.
pub open spec fn first_rand_c(fm: FirstRoundMessageView) -> Option<int> {
    match fm.randomness {
        Some(r) => Some(r.comm_r_c),
        None => None,
    }
}

/// The opening the A-equation uses, if any.
pub open spec fn second_rand_a(sm: SecondRoundMessageView) -> Option<int> {
    match sm.randomness {
        Some(r) => Some(r.sigma_a),
        None => None,
    }
}

/// The opening the B-equation uses, if any.
pub open spec fn second_rand_b(sm: SecondRoundMessageView) -> Option<int> {
    match sm.randomness {
        Some(r) => Some(r.sigma_b),
        None => None,
    }
}

/// The opening the C-equation uses, if any.
pub open spec fn second_rand_c(sm: SecondRoundMessageView) -> Option<int> {
    match sm.randomness {
        Some(r) => Some(r.sigma_c),
        None => None,
    }
}

/// The opening the Hadamard equation uses, if any.
pub open spec fn second_rand_o(sm: SecondRoundMessageView) -> Option<int> {
    match sm.randomness {
        Some(r) => Some(r.sigma_o),
        None => None,
    }
}

/// One side of a product equation: the claimed commitment, shifted by the
/// challenge multiple of the randomizer commitment when present.
pub open spec fn verify_lhs(comm: int, gamma: int, rand_comm: Option<int>) -> int {
    match rand_comm {
        Some(rc) => fadd(comm, fmul(gamma, rc)),
        None => comm,
    }
}

/// The claimed side of the Hadamard equation: the C-commitment, shifted by the
/// challenge and squared-challenge multiples of the two cross-term
/// commitments when present.
pub open spec fn verify_lhs_hadamard(fm: FirstRoundMessageView, gamma: int) -> int {
    match fm.randomness {
        Some(r) => fadd(fm.comm_c, fadd(fmul(gamma, r.comm_1), fmul(fmul(gamma, gamma), r.comm_2))),
        None => fm.comm_c,
    }
}

/// Whether a proof carries only canonical representatives.
pub fn proof_canonical(p: &Proof) -> (r: bool)
    ensures
        r == p@.wf(),
{
    if p.first_msg.comm_a.v >= MODULUS || p.first_msg.comm_b.v >= MODULUS
        || p.first_msg.comm_c.v >= MODULUS {
        return false;
    }
    match &p.first_msg.randomness {
        Some(fr) => {
            if fr.comm_r_a.v >= MODULUS || fr.comm_r_b.v >= MODULUS || fr.comm_r_c.v >= MODULUS
                || fr.comm_1.v >= MODULUS || fr.comm_2.v >= MODULUS {
                return false;
            }
        },
        None => {},
    }
    proof {
        lemma_scalars_wf_vals(p.second_msg.blinded_witness.blinded_assignment@);
    }
    if !scalars_canonical(&p.second_msg.blinded_witness.blinded_assignment) {
        return false;
    }
    match &p.second_msg.randomness {
        Some(sr) => {
            if sr.sigma_a.v >= MODULUS || sr.sigma_b.v >= MODULUS || sr.sigma_c.v >= MODULUS
                || sr.sigma_o.v >= MODULUS {
                return false;
            }
        },
        None => {},
    }
    true
}

/// The NARK: indexing a relation, proving satisfiability, verifying proofs.
pub struct R1CSNark {}

impl R1CSNark {
    /// Produces the scheme's public parameters. The scheme needs no trapdoor
    /// material, so there is nothing to sample.
    pub fn setup() -> (r: PublicParameters) {
        PublicParameters {}
    }

    /// Indexes an R1CS instance: hashes the matrices under the protocol's
    /// domain-separation tag, derives the commitment key sized to the
    /// constraint count, and returns the identical prover and verifier keys.
    /// Fails exactly on descriptions that cannot produce their matrices.
    pub fn index(_pp: &PublicParameters, r1cs_instance: &ConstraintSystemDescription) -> (r: Result<
        (IndexProverKey, IndexVerifierKey),
        NarkError,
    >)
        ensures
            r is Ok <==> r1cs_instance@.valid(),
            r is Err ==> r == Err::<(IndexProverKey, IndexVerifierKey), NarkError>(
                NarkError::ConstraintGenerationError,
            ),
            r is Ok ==> ({
                let (ipk, ivk) = r.unwrap();
                &&& ipk@ == spec_index_key(r1cs_instance@)
                &&& ivk@ == spec_index_key(r1cs_instance@)
                &&& ipk.wf()
                &&& ivk.wf()
            }),
    {
        if !r1cs_instance.is_valid() {
            return Err(NarkError::ConstraintGenerationError);
        }
        let ds = protocol_name_bytes();
        let num_variables = r1cs_instance.num_instance_variables
            + r1cs_instance.num_witness_variables;
        let hash = hash_matrices(&ds, &r1cs_instance.a, &r1cs_instance.b, &r1cs_instance.c);
        let hash2 = crate::codec::copy_bytes(&hash);
        let ck = derive_commitment_key(&hash, r1cs_instance.num_constraints);
        let ck2 = derive_commitment_key(&hash, r1cs_instance.num_constraints);
        let info = IndexInfo {
            num_variables: num_variables,
            num_constraints: r1cs_instance.num_constraints,
            num_instance_variables: r1cs_instance.num_instance_variables,
            matrices_hash: hash,
        };
        let info2 = IndexInfo {
            num_variables: num_variables,
            num_constraints: r1cs_instance.num_constraints,
            num_instance_variables: r1cs_instance.num_instance_variables,
            matrices_hash: hash2,
        };
        let ipk = IndexProverKey {
            index_info: info,
            a: copy_matrix(&r1cs_instance.a),
            b: copy_matrix(&r1cs_instance.b),
            c: copy_matrix(&r1cs_instance.c),
            ck: ck,
        };
        let ivk = IndexProverKey {
            index_info: info2,
            a: copy_matrix(&r1cs_instance.a),
            b: copy_matrix(&r1cs_instance.b),
            c: copy_matrix(&r1cs_instance.c),
            ck: ck2,
        };
        proof {
            let key = spec_index_key(r1cs_instance@);
            assert(ipk@.ck.generators =~= key.ck.generators);
            assert(ivk@.ck.generators =~= key.ck.generators);
            assert(ipk@ == key);
            assert(ivk@ == key);
        }
        Ok((ipk, ivk))
    }

    /// Proves satisfiability of the indexed relation by an assignment,
    /// consuming fresh randomness when zero knowledge is requested. Fails
    /// exactly on assignments whose sizes disagree with the key, naming the
    /// expected and actual counts.
    pub fn prove(ipk: &IndexProverKey, assignment: &FullAssignment, make_zk: bool) -> (r: Result<
        Proof,
        NarkError,
    >)
        requires
            ipk.wf(),
            assignment.wf(),
        ensures
            (r is Err) <==> (assignment@.input.len() != ipk@.info.num_instance_variables
                || assignment@.input.len() + assignment@.witness.len() != ipk@.info.num_variables),
            r is Err ==> r == Err::<Proof, NarkError>(
                NarkError::DimensionMismatchError(
                    ipk.index_info.num_variables,
                    assignment.input.len(),
                    assignment.witness.len(),
                    ipk.index_info.num_constraints,
                ),
            ),
            r is Ok ==> r.unwrap().wf(),
            (r is Ok && !make_zk) ==> r.unwrap()@ == prove_spec(
                ipk@,
                assignment@.input,
                assignment@.witness,
                None,
            ),
            (r is Ok && make_zk) ==> exists|zr: ZkRandomnessView|
                zr.wf(assignment@.witness.len() as int) && r.unwrap()@ == prove_spec(
                    ipk@,
                    assignment@.input,
                    assignment@.witness,
                    Some(zr),
                ),
    {
        if make_zk {
            let mut rand_vec: Vec<Scalar> = Vec::new();
            let mut k: usize = 0;
            let witness_len = assignment.witness.len();
            while k < witness_len
                invariant
                    k <= witness_len,
                    rand_vec@.len() == k,
                    scalars_wf(rand_vec@),
                decreases witness_len - k,
            {
                rand_vec.push(sample_scalar());
                k = k + 1;
            }
            let zk_rand = ZkRandomness {
                r: rand_vec,
                a_blind: sample_scalar(),
                b_blind: sample_scalar(),
                c_blind: sample_scalar(),
                r_a_blind: sample_scalar(),
                r_b_blind: sample_scalar(),
                r_c_blind: sample_scalar(),
                blind_1: sample_scalar(),
                blind_2: sample_scalar(),
            };
            proof {
                lemma_scalars_wf_vals(zk_rand.r@);
            }
            let result = Self::prove_with_randomness(ipk, assignment, Some(&zk_rand));
            proof {
                if result is Ok {
                    assert(zk_rand@.wf(assignment@.witness.len() as int) && result.unwrap()@
                        == prove_spec(
                        ipk@,
                        assignment@.input,
                        assignment@.witness,
                        Some(zk_rand@),
                    ));
                }
            }
            result
        } else {
            Self::prove_with_randomness(ipk, assignment, None)
        }
    }

    /// The deterministic core of the prover: produces the proof for an
    /// assignment and a fixed zero-knowledge randomness bundle, or for none.
    pub fn prove_with_randomness(
        ipk: &IndexProverKey,
        assignment: &FullAssignment,
        zk: Option<&ZkRandomness>,
    ) -> (r: Result<Proof, NarkError>)
        requires
            ipk.wf(),
            assignment.wf(),
            match zk {
                Some(z) => z.wf() && z.r@.len() == assignment.witness@.len(),
                None => true,
            },
        ensures
            (r is Err) <==> (assignment@.input.len() != ipk@.info.num_instance_variables
                || assignment@.input.len() + assignment@.witness.len() != ipk@.info.num_variables),
            r is Err ==> r == Err::<Proof, NarkError>(
                NarkError::DimensionMismatchError(
                    ipk.index_info.num_variables,
                    assignment.input.len(),
                    assignment.witness.len(),
                    ipk.index_info.num_constraints,
                ),
            ),
            r is Ok ==> ({
                let p = r.unwrap();
                &&& p.wf()
                &&& p@ == prove_spec(
                    ipk@,
                    assignment@.input,
                    assignment@.witness,
                    match zk {
                        Some(z) => Some(z@),
                        None => None,
                    },
                )
            }),
    {
        let num_input = assignment.input.len();
        let num_witness = assignment.witness.len();
        if num_input != ipk.index_info.num_instance_variables || num_input
            > ipk.index_info.num_variables || num_witness != ipk.index_info.num_variables
            - num_input {
            return Err(
                NarkError::DimensionMismatchError(
                    ipk.index_info.num_variables,
                    num_input,
                    num_witness,
                    ipk.index_info.num_constraints,
                ),
            );
        }
        let za = matrix_vec_mul(&ipk.a, &assignment.input, &assignment.witness);
        let zb = matrix_vec_mul(&ipk.b, &assignment.input, &assignment.witness);
        let zc = matrix_vec_mul(&ipk.c, &assignment.input, &assignment.witness);
        match zk {
            None => {
                let comm_a = commit(&ipk.ck, &za, None);
                let comm_b = commit(&ipk.ck, &zb, None);
                let comm_c = commit(&ipk.ck, &zc, None);
                let first_msg = FirstRoundMessage { comm_a, comm_b, comm_c, randomness: None };
                let second_msg = SecondRoundMessage {
                    blinded_witness: CommitmentFullAssignment {
                        blinded_assignment: copy_scalars(&assignment.witness),
                    },
                    randomness: None,
                };
                let p = Proof { first_msg, second_msg };
                proof {
                    assert(p@ == prove_spec(ipk@, assignment@.input, assignment@.witness, None));
                }
                Ok(p)
            },
            Some(zk_rand) => {
                let zero_input = zero_vector(num_input);
                proof {
                    assert(vals(zero_input@) + vals(zk_rand.r@) =~= zeros(assignment@.input.len())
                        + vals(zk_rand.r@));
                }
                let ra = matrix_vec_mul(&ipk.a, &zero_input, &zk_rand.r);
                let rb = matrix_vec_mul(&ipk.b, &zero_input, &zk_rand.r);
                let rc = matrix_vec_mul(&ipk.c, &zero_input, &zk_rand.r);
                let comm_a = commit(&ipk.ck, &za, Some(zk_rand.a_blind));
                let comm_b = commit(&ipk.ck, &zb, Some(zk_rand.b_blind));
                let comm_c = commit(&ipk.ck, &zc, Some(zk_rand.c_blind));
                let comm_r_a = commit(&ipk.ck, &ra, Some(zk_rand.r_a_blind));
                let comm_r_b = commit(&ipk.ck, &rb, Some(zk_rand.r_b_blind));
                let comm_r_c = commit(&ipk.ck, &rc, Some(zk_rand.r_c_blind));
                let cross = vector_add(&hadamard_product(&za, &rb), &hadamard_product(&zb, &ra));
                let comm_1 = commit(&ipk.ck, &cross, Some(zk_rand.blind_1));
                let comm_2 = commit(&ipk.ck, &hadamard_product(&ra, &rb), Some(zk_rand.blind_2));
                let first_msg = FirstRoundMessage {
                    comm_a,
                    comm_b,
                    comm_c,
                    randomness: Some(
                        FirstRoundRandomness { comm_r_a, comm_r_b, comm_r_c, comm_1, comm_2 },
                    ),
                };
                let gamma = derive_challenge(
                    &ipk.index_info.matrices_hash,
                    &assignment.input,
                    &first_msg,
                );
                let blinded = vector_add(&assignment.witness, &vector_scale(gamma, &zk_rand.r));
                let sigma_a = zk_rand.a_blind.add(gamma.mul(zk_rand.r_a_blind));
                let sigma_b = zk_rand.b_blind.add(gamma.mul(zk_rand.r_b_blind));
                let sigma_c = zk_rand.c_blind.add(gamma.mul(zk_rand.r_c_blind));
                let sigma_o = zk_rand.c_blind.add(
                    gamma.mul(zk_rand.blind_1).add(gamma.square().mul(zk_rand.blind_2)),
                );
                let second_msg = SecondRoundMessage {
                    blinded_witness: CommitmentFullAssignment { blinded_assignment: blinded },
                    randomness: Some(
                        SecondRoundRandomness { sigma_a, sigma_b, sigma_c, sigma_o },
                    ),
                };
                let p = Proof { first_msg, second_msg };
                proof {
                    assert(p@ == prove_spec(
                        ipk@,
                        assignment@.input,
                        assignment@.witness,
                        Some(zk_rand@),
                    ));
                }
                Ok(p)
            },
        }
    }

    /// Verifies a proof against a public input. Total: any inconsistency —
    /// mismatched flags, non-canonical elements, wrong sizes, or a failed
    /// commitment equation — yields `false`, never an error.
    pub fn verify(ivk: &IndexVerifierKey, input: &Vec<Scalar>, proof: &Proof) -> (r: bool)
        requires
            ivk.wf(),
        ensures
            r == verify_spec(ivk@, vals(input@), proof@),
    {
        let zk1 = proof.first_msg.randomness.is_some();
        let zk2 = proof.second_msg.randomness.is_some();
        if zk1 != zk2 {
            return false;
        }
        if !proof_canonical(proof) {
            return false;
        }
        proof {
            lemma_scalars_wf_vals(input@);
        }
        if !scalars_canonical(input) {
            return false;
        }
        if input.len() != ivk.index_info.num_instance_variables {
            return false;
        }
        proof {
            lemma_scalars_wf_vals(proof.second_msg.blinded_witness.blinded_assignment@);
        }
        let bw = &proof.second_msg.blinded_witness.blinded_assignment;
        if bw.len() > ivk.index_info.num_variables - input.len() || input.len() + bw.len()
            != ivk.index_info.num_variables {
            return false;
        }
        let gamma = derive_challenge(&ivk.index_info.matrices_hash, input, &proof.first_msg);
        let az = matrix_vec_mul(&ivk.a, input, bw);
        let bz = matrix_vec_mul(&ivk.b, input, bw);
        let cz = matrix_vec_mul(&ivk.c, input, bw);
        proof {
            assert(az@.len() == vals(az@).len() && vals(az@).len() == ivk@.a.len());
            assert(bz@.len() == vals(bz@).len() && vals(bz@).len() == ivk@.b.len());
            assert(cz@.len() == vals(cz@).len() && vals(cz@).len() == ivk@.c.len());
            assert(ivk.ck.generators@.len() == ivk@.ck.generators.len());
        }
        let (sigma_a, sigma_b, sigma_c, sigma_o) = match &proof.second_msg.randomness {
            Some(sr) => (Some(sr.sigma_a), Some(sr.sigma_b), Some(sr.sigma_c), Some(sr.sigma_o)),
            None => (None, None, None, None),
        };
        let recon_a = commit(&ivk.ck, &az, sigma_a);
        let recon_b = commit(&ivk.ck, &bz, sigma_b);
        let recon_c = commit(&ivk.ck, &cz, sigma_c);
        let (lhs_a, lhs_b, lhs_c) = match &proof.first_msg.randomness {
            Some(fr) => (
                proof.first_msg.comm_a.add(fr.comm_r_a.mul(gamma)),
                proof.first_msg.comm_b.add(fr.comm_r_b.mul(gamma)),
                proof.first_msg.comm_c.add(fr.comm_r_c.mul(gamma)),
            ),
            None => (proof.first_msg.comm_a, proof.first_msg.comm_b, proof.first_msg.comm_c),
        };
        let e_a = lhs_a.v == recon_a.v;
        let e_b = lhs_b.v == recon_b.v;
        let e_c = lhs_c.v == recon_c.v;
        let had = hadamard_product(&az, &bz);
        let recon_o = commit(&ivk.ck, &had, sigma_o);
        let lhs_o = match &proof.first_msg.randomness {
            Some(fr) => proof.first_msg.comm_c.add(
                fr.comm_1.mul(gamma).add(fr.comm_2.mul(gamma.square())),
            ),
            None => proof.first_msg.comm_c,
        };
        let e_o = lhs_o.v == recon_o.v;
        e_a && e_b && e_c && e_o
    }
}

} // verus!
