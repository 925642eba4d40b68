//! The laws of the NARK, proved once and for all inputs: completeness of the
//! honest prover, unconditional rejection of flag-inconsistent proofs, and
//! unconditional rejection of commitment mutations of honest unblinded
//! proofs.

use vstd::prelude::*;
use crate::field::{fadd, fmul, in_field, lemma_fadd_in_field, lemma_fmul_in_field, lemma_horner3};
use crate::matrix::{in_field_seq, lemma_blind_split, lemma_hadamard_blinded, lemma_mat_vec_in_field,
    lemma_mat_vec_linear, lemma_vec_add_in_field, lemma_vec_hadamard_in_field,
    lemma_vec_scale_in_field, spec_mat_vec, vec_add, vec_hadamard, vec_scale, zeros};
use crate::commitment::{lemma_commit_in_field, lemma_commit_linear, spec_commit};
use crate::hashing::{challenge_spec, lemma_hash_to_scalar_in_field};
use crate::nark::{prove_spec, satisfying, verify_spec, ZkRandomnessView};
use crate::data_structures::{IndexKeyView, ProofView};

verus! {

/// Completeness: for every valid relation key, every satisfying assignment of
/// the right shape, and every (or no) zero-knowledge randomness bundle, the
/// honestly produced proof verifies.
pub proof fn lemma_completeness(
    k: IndexKeyView,
    input: Seq<int>,
    witness: Seq<int>,
    zk: Option<ZkRandomnessView>,
)
    requires
        k.wf(),
        input.len() == k.info.num_instance_variables,
        input.len() + witness.len() == k.info.num_variables,
        in_field_seq(input),
        in_field_seq(witness),
        match zk {
            Some(zr) => zr.wf(witness.len() as int),
            None => true,
        },
        satisfying(k, input, witness),
    ensures
        verify_spec(k, input, prove_spec(k, input, witness, zk)),
{
    let p = prove_spec(k, input, witness, zk);
    let z = input + witness;
    assert(in_field_seq(z)) by {
        assert(forall|i: int|
            0 <= i < z.len() ==> #[trigger] z[i] == if i < input.len() {
                input[i]
            } else {
                witness[i - input.len()]
            });
    }
    let za = spec_mat_vec(k.a, z);
    let zb = spec_mat_vec(k.b, z);
    let zc = spec_mat_vec(k.c, z);
    lemma_mat_vec_in_field(k.a, z);
    lemma_mat_vec_in_field(k.b, z);
    lemma_mat_vec_in_field(k.c, z);
    match zk {
        None => {
            lemma_commit_in_field(k.ck, za, None);
            lemma_commit_in_field(k.ck, zb, None);
            lemma_commit_in_field(k.ck, zc, None);
            assert(p.wf());
            assert(input + p.second.blinded_witness == z);
            assert(verify_spec(k, input, p));
        },
        Some(zr) => {
            let zrv = zeros(input.len()) + zr.r;
            assert(in_field_seq(zrv)) by {
                assert(forall|i: int|
                    0 <= i < zrv.len() ==> #[trigger] zrv[i] == if i < input.len() {
                        0int
                    } else {
                        zr.r[i - input.len()]
                    });
            }
            let ra = spec_mat_vec(k.a, zrv);
            let rb = spec_mat_vec(k.b, zrv);
            let rc = spec_mat_vec(k.c, zrv);
            lemma_mat_vec_in_field(k.a, zrv);
            lemma_mat_vec_in_field(k.b, zrv);
            lemma_mat_vec_in_field(k.c, zrv);
            let cross = vec_add(vec_hadamard(za, rb), vec_hadamard(zb, ra));
            let rr = vec_hadamard(ra, rb);
            lemma_vec_hadamard_in_field(za, rb);
            lemma_vec_hadamard_in_field(zb, ra);
            lemma_vec_add_in_field(vec_hadamard(za, rb), vec_hadamard(zb, ra));
            lemma_vec_hadamard_in_field(ra, rb);
            let gamma = challenge_spec(k.info.matrices_hash, input, p.first);
            lemma_hash_to_scalar_in_field(
                k.info.matrices_hash + crate::codec::enc_val_vec(input) + crate::codec::enc_first_msg(
                    p.first,
                ),
            );
            assert(in_field(gamma));
            // The published witness and the full blinded solution vector.
            let bw = vec_add(witness, vec_scale(gamma, zr.r));
            let zp = input + bw;
            lemma_blind_split(input, witness, zr.r, gamma);
            assert(zp == vec_add(z, vec_scale(gamma, zrv)));
            lemma_mat_vec_linear(k.a, z, zrv, gamma);
            lemma_mat_vec_linear(k.b, z, zrv, gamma);
            lemma_mat_vec_linear(k.c, z, zrv, gamma);
            assert(spec_mat_vec(k.a, zp) == vec_add(za, vec_scale(gamma, ra)));
            assert(spec_mat_vec(k.b, zp) == vec_add(zb, vec_scale(gamma, rb)));
            assert(spec_mat_vec(k.c, zp) == vec_add(zc, vec_scale(gamma, rc)));
            // The three product equations, by linearity of the commitment.
            lemma_commit_linear(k.ck, za, ra, zr.a_blind, zr.r_a_blind, gamma);
            lemma_commit_linear(k.ck, zb, rb, zr.b_blind, zr.r_b_blind, gamma);
            lemma_commit_linear(k.ck, zc, rc, zr.c_blind, zr.r_c_blind, gamma);
            // The Hadamard equation: expand the blinded product, fold the
            // satisfying relation in, and apply linearity twice.
            lemma_hadamard_blinded(za, zb, ra, rb, gamma);
            let w_vec = vec_add(cross, vec_scale(gamma, rr));
            let s_w = fadd(zr.blind_1, fmul(gamma, zr.blind_2));
            lemma_vec_scale_in_field(gamma, rr);
            lemma_vec_add_in_field(cross, vec_scale(gamma, rr));
            lemma_fmul_in_field(gamma, zr.blind_2);
            lemma_fadd_in_field(zr.blind_1, fmul(gamma, zr.blind_2));
            lemma_commit_linear(k.ck, cross, rr, zr.blind_1, zr.blind_2, gamma);
            lemma_commit_linear(k.ck, zc, w_vec, zr.c_blind, s_w, gamma);
            lemma_horner3(zr.c_blind, zr.blind_1, zr.blind_2, gamma);
            assert(vec_hadamard(spec_mat_vec(k.a, zp), spec_mat_vec(k.b, zp)) == vec_add(
                zc,
                vec_scale(gamma, w_vec),
            )) by {
                assert(vec_hadamard(za, zb) == zc);
            }
            // Canonicity of everything the proof carries.
            lemma_commit_in_field(k.ck, za, Some(zr.a_blind));
            lemma_commit_in_field(k.ck, zb, Some(zr.b_blind));
            lemma_commit_in_field(k.ck, zc, Some(zr.c_blind));
            lemma_commit_in_field(k.ck, ra, Some(zr.r_a_blind));
            lemma_commit_in_field(k.ck, rb, Some(zr.r_b_blind));
            lemma_commit_in_field(k.ck, rc, Some(zr.r_c_blind));
            lemma_commit_in_field(k.ck, cross, Some(zr.blind_1));
            lemma_commit_in_field(k.ck, rr, Some(zr.blind_2));
            lemma_vec_scale_in_field(gamma, zr.r);
            lemma_vec_add_in_field(witness, vec_scale(gamma, zr.r));
            lemma_fmul_in_field(gamma, zr.r_a_blind);
            lemma_fadd_in_field(zr.a_blind, fmul(gamma, zr.r_a_blind));
            lemma_fmul_in_field(gamma, zr.r_b_blind);
            lemma_fadd_in_field(zr.b_blind, fmul(gamma, zr.r_b_blind));
            lemma_fmul_in_field(gamma, zr.r_c_blind);
            lemma_fadd_in_field(zr.c_blind, fmul(gamma, zr.r_c_blind));
            lemma_fmul_in_field(gamma, zr.blind_1);
            lemma_fmul_in_field(gamma, gamma);
            lemma_fmul_in_field(fmul(gamma, gamma), zr.blind_2);
            lemma_fadd_in_field(fmul(gamma, zr.blind_1), fmul(fmul(gamma, gamma), zr.blind_2));
            lemma_fadd_in_field(
                zr.c_blind,
                fadd(fmul(gamma, zr.blind_1), fmul(fmul(gamma, gamma), zr.blind_2)),
            );
            assert(p.wf());
            lemma_horner3(
                spec_commit(k.ck, zc, Some(zr.c_blind)),
                spec_commit(k.ck, cross, Some(zr.blind_1)),
                spec_commit(k.ck, rr, Some(zr.blind_2)),
                gamma,
            );
            assert(verify_spec(k, input, p));
        },
    }
}

/// Flag consistency: a proof whose first-round message carries a randomness
/// block but whose second-round message does not, or the other way round, is
/// rejected unconditionally, whatever the rest of its content.
pub proof fn lemma_flag_mismatch_rejected(k: IndexKeyView, input: Seq<int>, p: ProofView)
    requires
        (p.first.randomness is Some) != (p.second.randomness is Some),
    ensures
        !verify_spec(k, input, p),
{
}

/// Mutation soundness for the unblinded prover: changing any of the three
/// commitments of an honestly produced proof without a zero-knowledge block,
/// while leaving the second-round message unchanged, makes the verifier
/// reject.
pub proof fn lemma_nonzk_commitment_mutation_rejected(
    k: IndexKeyView,
    input: Seq<int>,
    witness: Seq<int>,
    q: ProofView,
)
    requires
        k.wf(),
        input.len() == k.info.num_instance_variables,
        input.len() + witness.len() == k.info.num_variables,
        in_field_seq(input),
        in_field_seq(witness),
        q.second == prove_spec(k, input, witness, None).second,
        q.first.randomness is None,
        q.first != prove_spec(k, input, witness, None).first,
    ensures
        !verify_spec(k, input, q),
{
    let p = prove_spec(k, input, witness, None);
    if q.wf() {
        let z = input + witness;
        assert(input + q.second.blinded_witness == z);
        assert(q.first.comm_a != p.first.comm_a || q.first.comm_b != p.first.comm_b
            || q.first.comm_c != p.first.comm_c);
        assert(!verify_spec(k, input, q));
    }
}

} // verus!
