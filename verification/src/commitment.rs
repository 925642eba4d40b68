//! The Pedersen-style vector commitment used by the NARK.
//!
//! A commitment key is a generator per committed coordinate plus one hiding
//! generator; a commitment is the corresponding linear combination, with the
//! optional blinding scalar acting on the hiding generator. The commitment is
//! linear, which is what the verifier's equations rely on.

use vstd::prelude::*;
use crate::field::{fadd, fmul, in_field, lemma_fadd_zero, lemma_fadd_in_field, lemma_fmul_in_field,
    lemma_fmul_zero, lemma_field_comm, lemma_linear_step, Scalar};
use crate::group::Group;
use crate::matrix::{in_field_seq, scalars_wf, vals, vec_add, vec_scale};

verus! {

/// The values of a sequence of group elements.
pub open spec fn group_vals(s: Seq<Group>) -> Seq<int> {
    s.map_values(|x: Group| x@)
}

/// Canonicity of every element of a sequence of group elements.
pub open spec fn groups_wf(s: Seq<Group>) -> bool {
    forall|i: int| 0 <= i < s.len() ==> (#[trigger] s[i]).wf()
}

/// A commitment key: one generator per committed coordinate, plus the hiding
/// generator for the optional blinding scalar.
#[derive(Clone)]
pub struct CommitmentKey {
    pub generators: Vec<Group>,
    pub hiding_generator: Group,
}

/// The view of a commitment key.
pub struct CommitmentKeyView {
    pub generators: Seq<int>,
    pub hiding_generator: int,
}

impl View for CommitmentKey {
    type V = CommitmentKeyView;

    open spec fn view(&self) -> CommitmentKeyView {
        CommitmentKeyView {
            generators: group_vals(self.generators@),
            hiding_generator: self.hiding_generator@,
        }
    }
}

impl CommitmentKey {
    /// Canonicity of all generators.
    pub open spec fn wf(self) -> bool {
        self@.wf()
    }
}

impl CommitmentKeyView {
    /// Canonicity of all generators.
    pub open spec fn wf(self) -> bool {
        in_field_seq(self.generators) && in_field(self.hiding_generator)
    }
}

/// The multi-scalar combination of a vector with the generator prefix of the
/// same length.
pub open spec fn spec_msm(gens: Seq<int>, v: Seq<int>) -> int
    recommends
        v.len() <= gens.len(),
    decreases v.len(),
{
    if v.len() == 0 {
        0
    } else {
        fadd(spec_msm(gens, v.drop_last()), fmul(v.last(), gens[v.len() - 1]))
    }
}

/// A commitment to a vector: the multi-scalar combination, shifted by the
/// blinding scalar's action on the hiding generator when one is supplied.
pub open spec fn spec_commit(ck: CommitmentKeyView, v: Seq<int>, blind: Option<int>) -> int {
    match blind {
        Some(s) => fadd(spec_msm(ck.generators, v), fmul(s, ck.hiding_generator)),
        None => spec_msm(ck.generators, v),
    }
}

/// The value of an optional blinding scalar.
pub open spec fn opt_val(o: Option<Scalar>) -> Option<int> {
    match o {
        Some(s) => Some(s@),
        None => None,
    }
}

/// A multi-scalar combination over canonical values is canonical.
pub proof fn lemma_msm_in_field(gens: Seq<int>, v: Seq<int>)
    requires
        v.len() <= gens.len(),
        in_field_seq(gens),
        in_field_seq(v),
    ensures
        in_field(spec_msm(gens, v)),
    decreases v.len(),
{
    if v.len() == 0 {
    } else {
        lemma_msm_in_field(gens, v.drop_last());
        lemma_fmul_in_field(v.last(), gens[v.len() - 1]);
        lemma_fadd_in_field(spec_msm(gens, v.drop_last()), fmul(v.last(), gens[v.len() - 1]));
    }
}

/// A commitment over canonical values is canonical.
pub proof fn lemma_commit_in_field(ck: CommitmentKeyView, v: Seq<int>, blind: Option<int>)
    requires
        ck.wf(),
        v.len() <= ck.generators.len(),
        in_field_seq(v),
        match blind {
            Some(s) => in_field(s),
            None => true,
        },
    ensures
        in_field(spec_commit(ck, v, blind)),
{
    lemma_msm_in_field(ck.generators, v);
    match blind {
        Some(s) => {
            lemma_fmul_in_field(s, ck.hiding_generator);
            lemma_fadd_in_field(spec_msm(ck.generators, v), fmul(s, ck.hiding_generator));
        },
        None => {},
    }
}

/// Linearity of the multi-scalar combination in the committed vector.
pub proof fn lemma_msm_linear(gens: Seq<int>, x: Seq<int>, y: Seq<int>, g: int)
    requires
        x.len() == y.len(),
        x.len() <= gens.len(),
        in_field_seq(gens),
        in_field_seq(x),
        in_field_seq(y),
        in_field(g),
    ensures
        spec_msm(gens, vec_add(x, vec_scale(g, y))) == fadd(
            spec_msm(gens, x),
            fmul(g, spec_msm(gens, y)),
        ),
    decreases x.len(),
{
    let z = vec_add(x, vec_scale(g, y));
    if x.len() == 0 {
        lemma_fmul_zero(g);
        lemma_fadd_zero(0);
    } else {
        let n = x.len() - 1;
        let gen = gens[n];
        assert(z.drop_last() =~= vec_add(x.drop_last(), vec_scale(g, y.drop_last())));
        lemma_msm_linear(gens, x.drop_last(), y.drop_last(), g);
        lemma_msm_in_field(gens, x.drop_last());
        lemma_msm_in_field(gens, y.drop_last());
        lemma_linear_step(
            spec_msm(gens, x.drop_last()),
            spec_msm(gens, y.drop_last()),
            gen,
            x.last(),
            y.last(),
            g,
        );
        lemma_field_comm(z.last(), gen);
        lemma_field_comm(x.last(), gen);
        lemma_field_comm(y.last(), gen);
        assert(z.last() == fadd(x.last(), fmul(g, y.last())));
    }
}

/// Linearity of the blinded commitment: committing to a blinded vector under
/// the combined opening equals combining the two commitments with the same
/// challenge.
pub proof fn lemma_commit_linear(
    ck: CommitmentKeyView,
    x: Seq<int>,
    y: Seq<int>,
    sx: int,
    sy: int,
    g: int,
)
    requires
        ck.wf(),
        x.len() == y.len(),
        x.len() <= ck.generators.len(),
        in_field_seq(x),
        in_field_seq(y),
        in_field(sx),
        in_field(sy),
        in_field(g),
    ensures
        spec_commit(ck, vec_add(x, vec_scale(g, y)), Some(fadd(sx, fmul(g, sy)))) == fadd(
            spec_commit(ck, x, Some(sx)),
            fmul(g, spec_commit(ck, y, Some(sy))),
        ),
{
    let h = ck.hiding_generator;
    lemma_msm_linear(ck.generators, x, y, g);
    lemma_msm_in_field(ck.generators, x);
    lemma_msm_in_field(ck.generators, y);
    lemma_linear_step(spec_msm(ck.generators, x), spec_msm(ck.generators, y), h, sx, sy, g);
    lemma_field_comm(fadd(sx, fmul(g, sy)), h);
    lemma_field_comm(sx, h);
    lemma_field_comm(sy, h);
}

/// Commits to a vector with the generator prefix of its length, optionally
/// blinded by a scalar acting on the hiding generator.
pub fn commit(ck: &CommitmentKey, v: &Vec<Scalar>, blind: Option<Scalar>) -> (r: Group)
    requires
        ck.wf(),
        scalars_wf(v@),
        v@.len() <= ck.generators@.len(),
        match blind {
            Some(s) => s.wf(),
            None => true,
        },
    ensures
        r.wf(),
        r@ == spec_commit(ck@, vals(v@), opt_val(blind)),
{
    let ghost gens = group_vals(ck.generators@);
    let mut acc = Group::identity();
    let mut k: usize = 0;
    while k < v.len()
        invariant
            k <= v@.len(),
            v@.len() <= ck.generators@.len(),
            ck.wf(),
            scalars_wf(v@),
            gens == group_vals(ck.generators@),
            acc.wf(),
            acc@ == spec_msm(gens, vals(v@).take(k as int)),
        decreases v@.len() - k,
    {
        proof {
            assert(in_field(gens[k as int]));
        }
        let term = ck.generators[k].mul(v[k]);
        proof {
            let taken = vals(v@).take(k as int + 1);
            assert(taken.drop_last() =~= vals(v@).take(k as int));
            assert(taken.last() == v@[k as int]@);
        }
        acc = acc.add(term);
        k = k + 1;
    }
    proof {
        assert(vals(v@).take(v@.len() as int) =~= vals(v@));
    }
    match blind {
        Some(s) => acc.add(ck.hiding_generator.mul(s)),
        None => acc,
    }
}

} // verus!
