//! The bounded-depth accumulation scheme for the R1CS NARK.
//!
//! Folding technique: every input proof contributes the four group-element
//! equations its verification would check — the claimed side and the
//! reconstructed side of each — and a prior accumulator contributes its own
//! pair. All pairs are combined into one left and one right group element by
//! a Horner evaluation in a Fiat-Shamir coefficient derived from the whole
//! input list. The decider later checks a single group equality instead of
//! re-running every folded verification; honest inputs always fold into an
//! accumulator it accepts (`lemma_fold_completeness`). That a dishonest input
//! breaks the equality except with the soundness error of the challenge
//! derivation is a probabilistic claim over the digest, which no contract
//! here states.

use vstd::prelude::*;
use crate::field::{fadd, fmul, Scalar};
use crate::group::Group;
use crate::matrix::{in_field_seq, lemma_scalars_wf_vals, matrix_vec_mul, hadamard_product,
    scalars_canonical, spec_mat_vec, vals, vec_hadamard};
use crate::commitment::{commit, spec_commit};
use crate::hashing::{challenge_spec, derive_challenge, hash_to_scalar, hash_to_scalar_spec};
use crate::codec::{enc_proof, enc_u64, enc_val, enc_val_vec, serialize_proof, write_scalar_vec,
    write_u64, write_bytes};
use crate::data_structures::{IndexInfo, IndexKeyView, IndexProverKey, Proof, ProofView,
    PublicParameters};
use crate::nark::{first_rand_a, first_rand_b, first_rand_c, proof_canonical, second_rand_a,
    second_rand_b, second_rand_c, second_rand_o, spec_index_key, verify_lhs, verify_lhs_hadamard,
    verify_spec, ConstraintSystemDescription, R1CSNark};
use crate::NarkError;

verus! {

/// Public parameters of the accumulation scheme: the depth bound, the largest
/// number of NARK instances one folding step may consume.
pub struct AsPublicParameters {
    pub depth_bound: usize,
}

/// The accumulation prover key: the full NARK index key and the depth bound.
pub struct AsProverKey {
    pub nark_key: IndexProverKey,
    pub bound: usize,
}

/// The accumulation verifier key: the index descriptor and the depth bound.
pub struct AsVerifierKey {
    pub index_info: IndexInfo,
    pub bound: usize,
}

/// The decider key: the index descriptor the accumulator belongs to.
pub struct AsDeciderKey {
    pub index_info: IndexInfo,
}

/// One input to a folding step: a public input and the NARK proof claimed for
/// it.
#[derive(Clone)]
pub struct InputInstance {
    pub input: Vec<Scalar>,
    pub proof: Proof,
}

/// The view of a folding input.
pub struct InputInstanceView {
    pub input: Seq<int>,
    pub proof: ProofView,
}

impl View for InputInstance {
    type V = InputInstanceView;

    open spec fn view(&self) -> InputInstanceView {
        InputInstanceView { input: vals(self.input@), proof: self.proof@ }
    }
}

/// An accumulator: the folded claimed side and the folded reconstructed side
/// of every equation folded so far. The decider accepts exactly when the two
/// agree.
pub struct Accumulator {
    pub lhs: Group,
    pub rhs: Group,
}

/// The view of an accumulator.
pub struct AccumulatorView {
    pub lhs: int,
    pub rhs: int,
}

impl View for Accumulator {
    type V = AccumulatorView;

    open spec fn view(&self) -> AccumulatorView {
        AccumulatorView { lhs: self.lhs@, rhs: self.rhs@ }
    }
}

impl Accumulator {
    /// Canonicity of both sides.
    pub open spec fn wf(self) -> bool {
        self.lhs.wf() && self.rhs.wf()
    }
}

/// The folding proof: the Fiat-Shamir coefficient the fold was taken at.
pub struct FoldingProof {
    pub nu: Scalar,
}

/// Whether an input can be folded for a key: sizes match the indexed
/// relation, every element is canonical, and the zero-knowledge flags agree.
pub open spec fn input_compatible(k: IndexKeyView, inst: InputInstanceView) -> bool {
    &&& inst.input.len() == k.info.num_instance_variables
    &&& inst.input.len() + inst.proof.second.blinded_witness.len() == k.info.num_variables
    &&& in_field_seq(inst.input)
    &&& inst.proof.wf()
    &&& (inst.proof.first.randomness is Some) == (inst.proof.second.randomness is Some)
}

/// The four (claimed, reconstructed) equation sides one input contributes.
pub open spec fn pairs_of(k: IndexKeyView, inst: InputInstanceView) -> Seq<(int, int)> {
    let p = inst.proof;
    let gamma = challenge_spec(k.info.matrices_hash, inst.input, p.first);
    let zp = inst.input + p.second.blinded_witness;
    let az = spec_mat_vec(k.a, zp);
    let bz = spec_mat_vec(k.b, zp);
    let cz = spec_mat_vec(k.c, zp);
    seq![
        (verify_lhs(p.first.comm_a, gamma, first_rand_a(p.first)), spec_commit(k.ck, az, second_rand_a(p.second))),
        (verify_lhs(p.first.comm_b, gamma, first_rand_b(p.first)), spec_commit(k.ck, bz, second_rand_b(p.second))),
        (verify_lhs(p.first.comm_c, gamma, first_rand_c(p.first)), spec_commit(k.ck, cz, second_rand_c(p.second))),
        (verify_lhs_hadamard(p.first, gamma), spec_commit(k.ck, vec_hadamard(az, bz), second_rand_o(p.second))),
    ]
}

/// All pairs a folding step combines: the prior accumulator's pair, then each
/// input's four, in order.
pub open spec fn all_pairs(
    k: IndexKeyView,
    old: Option<AccumulatorView>,
    instances: Seq<InputInstanceView>,
) -> Seq<(int, int)>
    decreases instances.len(),
{
    if instances.len() == 0 {
        match old {
            Some(a) => seq![(a.lhs, a.rhs)],
            None => Seq::empty(),
        }
    } else {
        all_pairs(k, old, instances.drop_last()) + pairs_of(k, instances.last())
    }
}

/// The Horner combination of a value sequence at a coefficient.
pub open spec fn combine(nu: int, vs: Seq<int>) -> int
    decreases vs.len(),
{
    if vs.len() == 0 {
        0
    } else {
        fadd(fmul(nu, combine(nu, vs.drop_last())), vs.last())
    }
}

/// The left components of a pair sequence.
pub open spec fn firsts(ps: Seq<(int, int)>) -> Seq<int> {
    ps.map_values(|p: (int, int)| p.0)
}

/// The right components of a pair sequence.
pub open spec fn seconds(ps: Seq<(int, int)>) -> Seq<int> {
    ps.map_values(|p: (int, int)| p.1)
}

/// The encoding of an optional prior accumulator for the fold transcript.
pub open spec fn enc_old_accumulator(old: Option<AccumulatorView>) -> Seq<u8> {
    match old {
        Some(a) => seq![1u8] + enc_val(a.lhs) + enc_val(a.rhs),
        None => seq![0u8],
    }
}

/// The concatenated encodings of the fold's inputs.
pub open spec fn enc_instances(instances: Seq<InputInstanceView>) -> Seq<u8>
    decreases instances.len(),
{
    if instances.len() == 0 {
        Seq::empty()
    } else {
        enc_instances(instances.drop_last()) + enc_val_vec(instances.last().input) + enc_proof(
            instances.last().proof,
        )
    }
}

/// The fold coefficient: derived from the matrices hash, the prior
/// accumulator, the input count, and every input's encoding.
pub open spec fn fold_challenge_spec(
    k: IndexKeyView,
    old: Option<AccumulatorView>,
    instances: Seq<InputInstanceView>,
) -> int {
    hash_to_scalar_spec(
        k.info.matrices_hash + enc_old_accumulator(old) + enc_u64(instances.len() as u64)
            + enc_instances(instances),
    )
}

/// The accumulator a folding step produces.
pub open spec fn fold_spec(
    k: IndexKeyView,
    old: Option<AccumulatorView>,
    instances: Seq<InputInstanceView>,
) -> AccumulatorView {
    let nu = fold_challenge_spec(k, old, instances);
    AccumulatorView {
        lhs: combine(nu, firsts(all_pairs(k, old, instances))),
        rhs: combine(nu, seconds(all_pairs(k, old, instances))),
    }
}

/// One Horner step matches appending one value.
proof fn lemma_combine_push(nu: int, vs: Seq<int>, v: int)
    ensures
        combine(nu, vs.push(v)) == fadd(fmul(nu, combine(nu, vs)), v),
{
    assert(vs.push(v).drop_last() =~= vs);
    assert(vs.push(v).last() == v);
}

/// Four Horner steps match appending four values.
proof fn lemma_combine_append4(nu: int, s: Seq<int>, t: Seq<int>)
    requires
        t.len() == 4,
    ensures
        combine(nu, s + t) == fadd(
            fmul(
                nu,
                fadd(fmul(nu, fadd(fmul(nu, fadd(fmul(nu, combine(nu, s)), t[0])), t[1])), t[2]),
            ),
            t[3],
        ),
{
    let a = s.push(t[0]);
    let b = a.push(t[1]);
    let c = b.push(t[2]);
    let d = c.push(t[3]);
    assert(d =~= s + t);
    lemma_combine_push(nu, s, t[0]);
    lemma_combine_push(nu, a, t[1]);
    lemma_combine_push(nu, b, t[2]);
    lemma_combine_push(nu, c, t[3]);
}

/// Appending four pairs advances both component combinations by four Horner
/// steps.
proof fn lemma_combine_append4_pairs(nu: int, s: Seq<(int, int)>, t: Seq<(int, int)>)
    requires
        t.len() == 4,
    ensures
        combine(nu, firsts(s + t)) == fadd(
            fmul(
                nu,
                fadd(
                    fmul(
                        nu,
                        fadd(fmul(nu, fadd(fmul(nu, combine(nu, firsts(s))), t[0].0)), t[1].0),
                    ),
                    t[2].0,
                ),
            ),
            t[3].0,
        ),
        combine(nu, seconds(s + t)) == fadd(
            fmul(
                nu,
                fadd(
                    fmul(
                        nu,
                        fadd(fmul(nu, fadd(fmul(nu, combine(nu, seconds(s))), t[0].1)), t[1].1),
                    ),
                    t[2].1,
                ),
            ),
            t[3].1,
        ),
{
    assert(firsts(s + t) =~= firsts(s) + firsts(t));
    assert(seconds(s + t) =~= seconds(s) + seconds(t));
    lemma_combine_append4(nu, firsts(s), firsts(t));
    lemma_combine_append4(nu, seconds(s), seconds(t));
}

/// A verifying, foldable input contributes four equal pairs.
proof fn lemma_verifying_input_pairs_equal(k: IndexKeyView, inst: InputInstanceView)
    requires
        input_compatible(k, inst),
        verify_spec(k, inst.input, inst.proof),
    ensures
        forall|t: int| 0 <= t < 4 ==> (#[trigger] pairs_of(k, inst)[t]).0 == pairs_of(k, inst)[t].1,
{
    let ps = pairs_of(k, inst);
    assert(ps[0].0 == ps[0].1 && ps[1].0 == ps[1].1 && ps[2].0 == ps[2].1 && ps[3].0 == ps[3].1);
}

/// Completeness of folding: when every folded input verifies and the prior
/// accumulator's sides agree, the new accumulator's sides agree, so the
/// decider accepts it.
pub proof fn lemma_fold_completeness(
    k: IndexKeyView,
    old: Option<AccumulatorView>,
    instances: Seq<InputInstanceView>,
)
    requires
        forall|j: int|
            0 <= j < instances.len() ==> input_compatible(k, #[trigger] instances[j]) && verify_spec(
                k,
                instances[j].input,
                instances[j].proof,
            ),
        match old {
            Some(a) => a.lhs == a.rhs,
            None => true,
        },
    ensures
        fold_spec(k, old, instances).lhs == fold_spec(k, old, instances).rhs,
{
    let ps = all_pairs(k, old, instances);
    lemma_all_pairs_equal(k, old, instances);
    assert(firsts(ps) =~= seconds(ps));
}

/// Every pair a fold of verifying inputs combines has equal sides.
proof fn lemma_all_pairs_equal(
    k: IndexKeyView,
    old: Option<AccumulatorView>,
    instances: Seq<InputInstanceView>,
)
    requires
        forall|j: int|
            0 <= j < instances.len() ==> input_compatible(k, #[trigger] instances[j]) && verify_spec(
                k,
                instances[j].input,
                instances[j].proof,
            ),
        match old {
            Some(a) => a.lhs == a.rhs,
            None => true,
        },
    ensures
        forall|t: int|
            0 <= t < all_pairs(k, old, instances).len() ==> (#[trigger] all_pairs(
                k,
                old,
                instances,
            )[t]).0 == all_pairs(k, old, instances)[t].1,
    decreases instances.len(),
{
    if instances.len() > 0 {
        let prefix = instances.drop_last();
        assert(forall|j: int| 0 <= j < prefix.len() ==> prefix[j] == instances[j]);
        lemma_all_pairs_equal(k, old, prefix);
        lemma_verifying_input_pairs_equal(k, instances.last());
        let ps = all_pairs(k, old, instances);
        let pre = all_pairs(k, old, prefix);
        assert forall|t: int| 0 <= t < ps.len() implies (#[trigger] ps[t]).0 == ps[t].1 by {
            if t < pre.len() {
                assert(ps[t] == pre[t]);
            } else {
                assert(ps[t] == pairs_of(k, instances.last())[t - pre.len()]);
            }
        }
    }
}

/// The bounded-depth accumulation scheme for the R1CS NARK.
pub struct BDASForR1CSNark {}

impl BDASForR1CSNark {
    /// Fixes the scheme's public parameters: the depth bound that every later
    /// folding step is held to.
    pub fn setup(depth_bound: usize) -> (r: AsPublicParameters)
        ensures
            r.depth_bound == depth_bound,
    {
        AsPublicParameters { depth_bound }
    }

    /// Indexes the predicate: runs the NARK indexer and equips the three keys
    /// with the depth bound. Fails exactly as the NARK indexer does.
    pub fn index(
        public_params: &AsPublicParameters,
        predicate_params: &PublicParameters,
        predicate_index: &ConstraintSystemDescription,
    ) -> (r: Result<(AsProverKey, AsVerifierKey, AsDeciderKey), NarkError>)
        ensures
            r is Ok <==> predicate_index@.valid(),
            r is Err ==> r == Err::<(AsProverKey, AsVerifierKey, AsDeciderKey), NarkError>(
                NarkError::ConstraintGenerationError,
            ),
            r is Ok ==> ({
                let (apk, avk, adk) = r.unwrap();
                &&& apk.nark_key@ == spec_index_key(predicate_index@)
                &&& apk.nark_key.wf()
                &&& apk.bound == public_params.depth_bound
                &&& avk.index_info@ == spec_index_key(predicate_index@).info
                &&& avk.bound == public_params.depth_bound
                &&& adk.index_info@ == spec_index_key(predicate_index@).info
            }),
    {
        let keys = R1CSNark::index(predicate_params, predicate_index);
        match keys {
            Ok((ipk, ivk)) => {
                let avk = AsVerifierKey {
                    index_info: ivk.index_info,
                    bound: public_params.depth_bound,
                };
                let decider_info = IndexInfo {
                    num_variables: ipk.index_info.num_variables,
                    num_constraints: ipk.index_info.num_constraints,
                    num_instance_variables: ipk.index_info.num_instance_variables,
                    matrices_hash: crate::codec::copy_bytes(&ipk.index_info.matrices_hash),
                };
                let adk = AsDeciderKey { index_info: decider_info };
                let apk = AsProverKey { nark_key: ipk, bound: public_params.depth_bound };
                Ok((apk, avk, adk))
            },
            Err(_) => Err(NarkError::ConstraintGenerationError),
        }
    }

    /// Folds a bounded number of NARK instance-proof pairs and at most one
    /// prior accumulator into a new accumulator and a folding proof. Rejects
    /// an overfull input list before doing any cryptographic work, and an
    /// input that does not belong to the indexed relation before folding.
    #[verifier::rlimit(100)]
    pub fn prove(
        apk: &AsProverKey,
        inputs: &Vec<InputInstance>,
        old_accumulator: Option<&Accumulator>,
    ) -> (r: Result<(Accumulator, FoldingProof), NarkError>)
        requires
            apk.nark_key.wf(),
            match old_accumulator {
                Some(a) => a.wf(),
                None => true,
            },
        ensures
            (inputs@.len() > apk.bound) <==> r == Err::<(Accumulator, FoldingProof), NarkError>(
                NarkError::BoundExceededError(apk.bound, inputs.len()),
            ),
            (inputs@.len() <= apk.bound && exists|j: int|
                0 <= j < inputs@.len() && !input_compatible(
                    apk.nark_key@,
                    #[trigger] inputs@[j]@,
                )) <==> r == Err::<(Accumulator, FoldingProof), NarkError>(
                NarkError::RelationMismatchError,
            ),
            r is Ok <==> (inputs@.len() <= apk.bound && forall|j: int|
                0 <= j < inputs@.len() ==> input_compatible(
                    apk.nark_key@,
                    #[trigger] inputs@[j]@,
                )),
            r is Ok ==> ({
                let (acc, fp) = r.unwrap();
                let old_view = match old_accumulator {
                    Some(a) => Some(a@),
                    None => None,
                };
                let views = inputs@.map_values(|i: InputInstance| i@);
                &&& acc.wf()
                &&& acc@ == fold_spec(apk.nark_key@, old_view, views)
                &&& fp.nu.wf()
                &&& fp.nu@ == fold_challenge_spec(apk.nark_key@, old_view, views)
            }),
    {
        let ghost k = apk.nark_key@;
        let ghost old_view = match old_accumulator {
            Some(a) => Some(a@),
            None => None,
        };
        let ghost views = inputs@.map_values(|i: InputInstance| i@);
        if inputs.len() > apk.bound {
            return Err(NarkError::BoundExceededError(apk.bound, inputs.len()));
        }
        let mut j: usize = 0;
        while j < inputs.len()
            invariant
                j <= inputs@.len(),
                inputs@.len() <= apk.bound,
                apk.nark_key.wf(),
                k == apk.nark_key@,
                views == inputs@.map_values(|i: InputInstance| i@),
                forall|t: int| 0 <= t < j ==> input_compatible(k, #[trigger] views[t]),
            decreases inputs@.len() - j,
        {
            if !Self::check_input(&apk.nark_key, &inputs[j]) {
                proof {
                    assert(!input_compatible(apk.nark_key@, inputs@[j as int]@));
                }
                return Err(NarkError::RelationMismatchError);
            }
            proof {
                assert(views[j as int] == inputs@[j as int]@);
            }
            j = j + 1;
        }
        proof {
            assert forall|t: int|
                0 <= t < inputs@.len() implies input_compatible(k, #[trigger] inputs@[t]@) by {
                assert(views[t] == inputs@[t]@);
            }
        }
        let nu = Self::fold_coefficient(apk, inputs, &old_accumulator);
        let mut acc_lhs = Group::identity();
        let mut acc_rhs = Group::identity();
        let ghost mut processed: Seq<(int, int)> = Seq::empty();
        match old_accumulator {
            Some(a) => {
                proof {
                    lemma_combine_push(nu@, firsts(processed), a@.lhs);
                    lemma_combine_push(nu@, seconds(processed), a@.rhs);
                }
                acc_lhs = acc_lhs.mul(nu).add(a.lhs);
                acc_rhs = acc_rhs.mul(nu).add(a.rhs);
                proof {
                    processed = processed.push((a@.lhs, a@.rhs));
                    assert(firsts(processed) =~= firsts(Seq::empty()).push(a@.lhs));
                    assert(seconds(processed) =~= seconds(Seq::empty()).push(a@.rhs));
                    assert(processed =~= all_pairs(k, old_view, views.take(0)));
                }
            },
            None => {
                proof {
                    assert(processed =~= all_pairs(k, old_view, views.take(0)));
                }
            },
        }
        let mut i: usize = 0;
        while i < inputs.len()
            invariant
                i <= inputs@.len(),
                apk.nark_key.wf(),
                k == apk.nark_key@,
                views == inputs@.map_values(|t: InputInstance| t@),
                forall|t: int| 0 <= t < inputs@.len() ==> input_compatible(k, #[trigger] views[t]),
                nu.wf(),
                acc_lhs.wf(),
                acc_rhs.wf(),
                processed == all_pairs(k, old_view, views.take(i as int)),
                acc_lhs@ == combine(nu@, firsts(processed)),
                acc_rhs@ == combine(nu@, seconds(processed)),
            decreases inputs@.len() - i,
    {
            let inst = &inputs[i];
            proof {
                assert(views[i as int] == inst@);
                assert(input_compatible(k, inst@));
            }
            let sides = Self::equation_sides(&apk.nark_key, inst);
            let folded = Self::fold_step(
                acc_lhs,
                acc_rhs,
                nu,
                sides,
                Ghost(processed),
                Ghost(pairs_of(k, inst@)),
            );
            acc_lhs = folded.0;
            acc_rhs = folded.1;
            proof {
                processed = processed + pairs_of(k, inst@);
                assert(views.take(i as int + 1).drop_last() =~= views.take(i as int));
                assert(views.take(i as int + 1).last() == inst@);
                assert(processed == all_pairs(k, old_view, views.take(i as int + 1)));
            }
            i = i + 1;
        }
        proof {
            assert(views.take(views.len() as int) =~= views);
        }
        Ok((Accumulator { lhs: acc_lhs, rhs: acc_rhs }, FoldingProof { nu }))
    }

    /// Folds one input's four equation pairs into the running combination.
    #[verifier::rlimit(100)]
    #[verifier::spinoff_prover]
    fn fold_step(
        acc_lhs: Group,
        acc_rhs: Group,
        nu: Scalar,
        sides: (Group, Group, Group, Group, Group, Group, Group, Group),
        Ghost(processed): Ghost<Seq<(int, int)>>,
        Ghost(pairs): Ghost<Seq<(int, int)>>,
    ) -> (out: (Group, Group))
        requires
            acc_lhs.wf(),
            acc_rhs.wf(),
            nu.wf(),
            sides.0.wf() && sides.1.wf() && sides.2.wf() && sides.3.wf() && sides.4.wf()
                && sides.5.wf() && sides.6.wf() && sides.7.wf(),
            pairs.len() == 4,
            sides.0@ == pairs[0].0 && sides.1@ == pairs[0].1,
            sides.2@ == pairs[1].0 && sides.3@ == pairs[1].1,
            sides.4@ == pairs[2].0 && sides.5@ == pairs[2].1,
            sides.6@ == pairs[3].0 && sides.7@ == pairs[3].1,
            acc_lhs@ == combine(nu@, firsts(processed)),
            acc_rhs@ == combine(nu@, seconds(processed)),
        ensures
            out.0.wf(),
            out.1.wf(),
            out.0@ == combine(nu@, firsts(processed + pairs)),
            out.1@ == combine(nu@, seconds(processed + pairs)),
    {
        let (l1, r1, l2, r2, l3, r3, l4, r4) = sides;
        proof {
            lemma_combine_append4_pairs(nu@, processed, pairs);
        }
        let lhs = acc_lhs.mul(nu).add(l1).mul(nu).add(l2).mul(nu).add(l3).mul(nu).add(l4);
        let rhs = acc_rhs.mul(nu).add(r1).mul(nu).add(r2).mul(nu).add(r3).mul(nu).add(r4);
        (lhs, rhs)
    }

    /// Whether one input can be folded for the key.
    fn check_input(nark_key: &IndexProverKey, inst: &InputInstance) -> (r: bool)
        ensures
            r == input_compatible(nark_key@, inst@),
    {
        proof {
            lemma_scalars_wf_vals(inst.input@);
        }
        if !scalars_canonical(&inst.input) {
            return false;
        }
        if !proof_canonical(&inst.proof) {
            return false;
        }
        if inst.proof.first_msg.randomness.is_some() != inst.proof.second_msg.randomness.is_some() {
            return false;
        }
        if inst.input.len() != nark_key.index_info.num_instance_variables {
            return false;
        }
        let bw_len = inst.proof.second_msg.blinded_witness.blinded_assignment.len();
        if inst.input.len() > nark_key.index_info.num_variables || bw_len
            != nark_key.index_info.num_variables - inst.input.len() {
            return false;
        }
        true
    }

    /// The four equation sides one compatible input contributes, in order:
    /// (claimed, reconstructed) for the A, B, C, and Hadamard equations.
    fn equation_sides(nark_key: &IndexProverKey, inst: &InputInstance) -> (r: (
        Group,
        Group,
        Group,
        Group,
        Group,
        Group,
        Group,
        Group,
    ))
        requires
            nark_key.wf(),
            input_compatible(nark_key@, inst@),
        ensures
            ({
                let ps = pairs_of(nark_key@, inst@);
                &&& r.0@ == ps[0].0 && r.1@ == ps[0].1
                &&& r.2@ == ps[1].0 && r.3@ == ps[1].1
                &&& r.4@ == ps[2].0 && r.5@ == ps[2].1
                &&& r.6@ == ps[3].0 && r.7@ == ps[3].1
                &&& r.0.wf() && r.1.wf() && r.2.wf() && r.3.wf() && r.4.wf() && r.5.wf()
                    && r.6.wf() && r.7.wf()
            }),
    {
        let p = &inst.proof;
        proof {
            lemma_scalars_wf_vals(inst.input@);
            lemma_scalars_wf_vals(p.second_msg.blinded_witness.blinded_assignment@);
        }
        let bw = &p.second_msg.blinded_witness.blinded_assignment;
        let gamma = derive_challenge(&nark_key.index_info.matrices_hash, &inst.input, &p.first_msg);
        let az = matrix_vec_mul(&nark_key.a, &inst.input, bw);
        let bz = matrix_vec_mul(&nark_key.b, &inst.input, bw);
        let cz = matrix_vec_mul(&nark_key.c, &inst.input, bw);
        proof {
            assert(az@.len() == vals(az@).len() && vals(az@).len() == nark_key@.a.len());
            assert(bz@.len() == vals(bz@).len() && vals(bz@).len() == nark_key@.b.len());
            assert(cz@.len() == vals(cz@).len() && vals(cz@).len() == nark_key@.c.len());
            assert(nark_key.ck.generators@.len() == nark_key@.ck.generators.len());
        }
        let (sigma_a, sigma_b, sigma_c, sigma_o) = match &p.second_msg.randomness {
            Some(sr) => (Some(sr.sigma_a), Some(sr.sigma_b), Some(sr.sigma_c), Some(sr.sigma_o)),
            None => (None, None, None, None),
        };
        let recon_a = commit(&nark_key.ck, &az, sigma_a);
        let recon_b = commit(&nark_key.ck, &bz, sigma_b);
        let recon_c = commit(&nark_key.ck, &cz, sigma_c);
        let (lhs_a, lhs_b, lhs_c) = match &p.first_msg.randomness {
            Some(fr) => (
                p.first_msg.comm_a.add(fr.comm_r_a.mul(gamma)),
                p.first_msg.comm_b.add(fr.comm_r_b.mul(gamma)),
                p.first_msg.comm_c.add(fr.comm_r_c.mul(gamma)),
            ),
            None => (p.first_msg.comm_a, p.first_msg.comm_b, p.first_msg.comm_c),
        };
        let had = hadamard_product(&az, &bz);
        let recon_o = commit(&nark_key.ck, &had, sigma_o);
        let lhs_o = match &p.first_msg.randomness {
            Some(fr) => p.first_msg.comm_c.add(
                fr.comm_1.mul(gamma).add(fr.comm_2.mul(gamma.square())),
            ),
            None => p.first_msg.comm_c,
        };
        (lhs_a, recon_a, lhs_b, recon_b, lhs_c, recon_c, lhs_o, recon_o)
    }

    /// The fold coefficient for a key, an optional prior accumulator, and an
    /// input list.
    fn fold_coefficient(
        apk: &AsProverKey,
        inputs: &Vec<InputInstance>,
        old_accumulator: &Option<&Accumulator>,
    ) -> (r: Scalar)
        ensures
            r.wf(),
            r@ == fold_challenge_spec(
                apk.nark_key@,
                match *old_accumulator {
                    Some(a) => Some(a@),
                    None => None,
                },
                inputs@.map_values(|i: InputInstance| i@),
            ),
    {
        let ghost views = inputs@.map_values(|i: InputInstance| i@);
        let mut buf: Vec<u8> = Vec::new();
        write_bytes(&mut buf, &apk.nark_key.index_info.matrices_hash);
        match old_accumulator {
            Some(a) => {
                buf.push(1u8);
                write_u64(&mut buf, a.lhs.v);
                write_u64(&mut buf, a.rhs.v);
                proof {
                    assert(buf@ =~= apk.nark_key.index_info.matrices_hash@ + enc_old_accumulator(
                        Some(a@),
                    ));
                }
            },
            None => {
                buf.push(0u8);
                proof {
                    assert(buf@ =~= apk.nark_key.index_info.matrices_hash@ + enc_old_accumulator(
                        None,
                    ));
                }
            },
        }
        let ghost header = buf@;
        write_u64(&mut buf, inputs.len() as u64);
        let ghost with_count = buf@;
        let mut i: usize = 0;
        while i < inputs.len()
            invariant
                i <= inputs@.len(),
                views == inputs@.map_values(|t: InputInstance| t@),
                with_count == header + enc_u64(views.len() as u64),
                buf@ == with_count + enc_instances(views.take(i as int)),
            decreases inputs@.len() - i,
        {
            proof {
                assert(views[i as int] == inputs@[i as int]@);
            }
            write_scalar_vec(&mut buf, &inputs[i].input);
            let proof_bytes = serialize_proof(&inputs[i].proof);
            write_bytes(&mut buf, &proof_bytes);
            proof {
                assert(views.take(i as int + 1).drop_last() =~= views.take(i as int));
                assert(views.take(i as int + 1).last() == views[i as int]);
                assert(buf@ =~= with_count + enc_instances(views.take(i as int + 1)));
            }
            i = i + 1;
        }
        proof {
            assert(views.take(views.len() as int) =~= views);
            assert(buf@ =~= apk.nark_key.index_info.matrices_hash@ + enc_old_accumulator(
                match *old_accumulator {
                    Some(a) => Some(a@),
                    None => None,
                },
            ) + enc_u64(views.len() as u64) + enc_instances(views));
        }
        hash_to_scalar(&buf)
    }

    /// The decider's check: an accumulator is accepted exactly when its folded
    /// claimed side equals its folded reconstructed side.
    pub fn decide(_adk: &AsDeciderKey, accumulator: &Accumulator) -> (r: bool)
        ensures
            r == (accumulator@.lhs == accumulator@.rhs),
    {
        accumulator.lhs.v == accumulator.rhs.v
    }
}

} // verus!
