//! Data structures of the NARK: assignments, index information, keys, the two
//! round messages, and the proof.
//!
//! Every structure has a mathematical view: field and group elements become
//! their integer representatives, vectors become integer sequences. All
//! contracts are stated over these views.

use vstd::prelude::*;
use crate::field::{in_field, Scalar};
use crate::group::Group;
use crate::matrix::{in_field_seq, matrix_model, matrix_wf, scalars_wf, vals, Matrix};
use crate::commitment::{CommitmentKey, CommitmentKeyView};

verus! {

/// Public parameters of the NARK. The scheme needs no trapdoor material: the
/// commitment key is derived at indexing time from the matrices' hash.
pub struct PublicParameters {}

/// An assignment to every variable: the ordered public input followed by the
/// ordered witness.
#[derive(Clone)]
pub struct FullAssignment {
    pub input: Vec<Scalar>,
    pub witness: Vec<Scalar>,
}

/// The view of a full assignment.
pub struct FullAssignmentView {
    pub input: Seq<int>,
    pub witness: Seq<int>,
}

impl View for FullAssignment {
    type V = FullAssignmentView;

    open spec fn view(&self) -> FullAssignmentView {
        FullAssignmentView { input: vals(self.input@), witness: vals(self.witness@) }
    }
}

impl FullAssignment {
    /// Canonicity of every assigned value.
    pub open spec fn wf(self) -> bool {
        scalars_wf(self.input@) && scalars_wf(self.witness@)
    }

    /// The assignment's canonical byte form for sponge absorption: the
    /// length-prefixed input followed by the length-prefixed witness.
    pub fn to_sponge_bytes(&self) -> (r: Vec<u8>)
        ensures
            r@ == crate::codec::enc_val_vec(self@.input) + crate::codec::enc_val_vec(self@.witness),
    {
        let mut out: Vec<u8> = Vec::new();
        crate::codec::write_scalar_vec(&mut out, &self.input);
        crate::codec::write_scalar_vec(&mut out, &self.witness);
        proof {
            assert(out@ =~= crate::codec::enc_val_vec(self@.input) + crate::codec::enc_val_vec(
                self@.witness,
            ));
        }
        out
    }

    /// The full solution vector: input followed by witness.
    pub fn to_sponge_field_elements(&self) -> (r: Vec<Scalar>)
        ensures
            r@ == self.input@ + self.witness@,
    {
        let mut out: Vec<Scalar> = Vec::new();
        let mut k: usize = 0;
        while k < self.input.len()
            invariant
                k <= self.input@.len(),
                out@ == self.input@.take(k as int),
            decreases self.input@.len() - k,
        {
            out.push(self.input[k]);
            k = k + 1;
        }
        proof {
            assert(self.input@.take(self.input@.len() as int) =~= self.input@);
        }
        let mut j: usize = 0;
        while j < self.witness.len()
            invariant
                j <= self.witness@.len(),
                out@ == self.input@ + self.witness@.take(j as int),
            decreases self.witness@.len() - j,
        {
            proof {
                assert(self.input@ + self.witness@.take(j as int + 1) =~= (self.input@
                    + self.witness@.take(j as int)).push(self.witness@[j as int]));
            }
            out.push(self.witness[j]);
            j = j + 1;
        }
        proof {
            assert(self.input@ + self.witness@.take(self.witness@.len() as int) =~= self.input@
                + self.witness@);
        }
        out
    }
}

/// The vector a prover publishes in the second round in place of the witness:
/// the witness itself, or the witness shifted by a challenge multiple of a
/// randomizer when zero knowledge is requested.
#[derive(Clone)]
pub struct CommitmentFullAssignment {
    pub blinded_assignment: Vec<Scalar>,
}

impl View for CommitmentFullAssignment {
    type V = Seq<int>;

    open spec fn view(&self) -> Seq<int> {
        vals(self.blinded_assignment@)
    }
}

impl CommitmentFullAssignment {
    /// Canonicity of every entry.
    pub open spec fn wf(self) -> bool {
        scalars_wf(self.blinded_assignment@)
    }
}

/// Immutable descriptor of an R1CS instance.
#[derive(Clone)]
pub struct IndexInfo {
    /// Combined count of instance and witness variables.
    pub num_variables: usize,
    /// Number of constraints, i.e. of matrix rows.
    pub num_constraints: usize,
    /// Count of instance (public input) variables.
    pub num_instance_variables: usize,
    /// The 32-byte domain-separated hash of the matrices.
    pub matrices_hash: Vec<u8>,
}

/// The view of an index descriptor.
pub struct IndexInfoView {
    pub num_variables: int,
    pub num_constraints: int,
    pub num_instance_variables: int,
    pub matrices_hash: Seq<u8>,
}

impl View for IndexInfo {
    type V = IndexInfoView;

    open spec fn view(&self) -> IndexInfoView {
        IndexInfoView {
            num_variables: self.num_variables as int,
            num_constraints: self.num_constraints as int,
            num_instance_variables: self.num_instance_variables as int,
            matrices_hash: self.matrices_hash@,
        }
    }
}

impl IndexInfoView {
    /// Shape of a valid descriptor.
    pub open spec fn wf(self) -> bool {
        &&& self.matrices_hash.len() == 32
        &&& 0 <= self.num_instance_variables <= self.num_variables
        &&& 0 <= self.num_constraints
    }

    /// Relation equality: two descriptors name the same relation exactly when
    /// all four fields agree.
    pub open spec fn relation_eq(self, other: IndexInfoView) -> bool {
        &&& self.num_variables == other.num_variables
        &&& self.num_constraints == other.num_constraints
        &&& self.num_instance_variables == other.num_instance_variables
        &&& self.matrices_hash == other.matrices_hash
    }
}

/// The prover key: index descriptor, the three constraint matrices, and the
/// commitment key. The verifier key is identical in content; it holds no
/// secret material.
#[derive(Clone)]
pub struct IndexProverKey {
    pub index_info: IndexInfo,
    pub a: Matrix,
    pub b: Matrix,
    pub c: Matrix,
    pub ck: CommitmentKey,
}

/// Verifier and prover key are the same data.
pub type IndexVerifierKey = IndexProverKey;

/// The view of an index key.
pub struct IndexKeyView {
    pub info: IndexInfoView,
    pub a: Seq<Seq<(int, int)>>,
    pub b: Seq<Seq<(int, int)>>,
    pub c: Seq<Seq<(int, int)>>,
    pub ck: CommitmentKeyView,
}

impl View for IndexProverKey {
    type V = IndexKeyView;

    open spec fn view(&self) -> IndexKeyView {
        IndexKeyView {
            info: self.index_info@,
            a: matrix_model(self.a@),
            b: matrix_model(self.b@),
            c: matrix_model(self.c@),
            ck: self.ck@,
        }
    }
}

impl IndexKeyView {
    /// Well-formedness of a key: a valid descriptor, matrices of the declared
    /// shape over the declared column space, and a commitment key able to bind
    /// vectors with one coordinate per constraint.
    pub open spec fn wf(self) -> bool {
        &&& self.info.wf()
        &&& self.a.len() == self.info.num_constraints
        &&& self.b.len() == self.info.num_constraints
        &&& self.c.len() == self.info.num_constraints
        &&& matrix_wf(self.a, self.info.num_variables)
        &&& matrix_wf(self.b, self.info.num_variables)
        &&& matrix_wf(self.c, self.info.num_variables)
        &&& self.ck.wf()
        &&& self.ck.generators.len() == self.info.num_constraints
    }
}

impl IndexProverKey {
    /// Executable well-formedness, delegated to the view.
    pub open spec fn wf(self) -> bool {
        self@.wf()
    }
}

/// The optional zero-knowledge block of the first-round message: commitments
/// to the randomizer's three matrix products and to the two cross terms.
#[derive(Clone)]
pub struct FirstRoundRandomness {
    pub comm_r_a: Group,
    pub comm_r_b: Group,
    pub comm_r_c: Group,
    pub comm_1: Group,
    pub comm_2: Group,
}

/// The view of a first-round randomness block.
pub struct FirstRoundRandomnessView {
    pub comm_r_a: int,
    pub comm_r_b: int,
    pub comm_r_c: int,
    pub comm_1: int,
    pub comm_2: int,
}

impl View for FirstRoundRandomness {
    type V = FirstRoundRandomnessView;

    open spec fn view(&self) -> FirstRoundRandomnessView {
        FirstRoundRandomnessView {
            comm_r_a: self.comm_r_a@,
            comm_r_b: self.comm_r_b@,
            comm_r_c: self.comm_r_c@,
            comm_1: self.comm_1@,
            comm_2: self.comm_2@,
        }
    }
}

impl FirstRoundRandomness {
    /// Canonicity of all five commitments.
    pub open spec fn wf(self) -> bool {
        self.comm_r_a.wf() && self.comm_r_b.wf() && self.comm_r_c.wf() && self.comm_1.wf()
            && self.comm_2.wf()
    }
}

/// The first-round message: commitments to the three matrix products of the
/// solution vector, and the optional zero-knowledge block. The block's
/// presence is the proof's zero-knowledge flag.
#[derive(Clone)]
pub struct FirstRoundMessage {
    pub comm_a: Group,
    pub comm_b: Group,
    pub comm_c: Group,
    pub randomness: Option<FirstRoundRandomness>,
}

/// The view of a first-round message.
pub struct FirstRoundMessageView {
    pub comm_a: int,
    pub comm_b: int,
    pub comm_c: int,
    pub randomness: Option<FirstRoundRandomnessView>,
}

impl View for FirstRoundMessage {
    type V = FirstRoundMessageView;

    open spec fn view(&self) -> FirstRoundMessageView {
        FirstRoundMessageView {
            comm_a: self.comm_a@,
            comm_b: self.comm_b@,
            comm_c: self.comm_c@,
            randomness: match self.randomness {
                Some(r) => Some(r@),
                None => None,
            },
        }
    }
}

impl FirstRoundMessage {
    /// Canonicity of every commitment carried.
    pub open spec fn wf(self) -> bool {
        &&& self.comm_a.wf()
        &&& self.comm_b.wf()
        &&& self.comm_c.wf()
        &&& match self.randomness {
            Some(r) => r.wf(),
            None => true,
        }
    }
}

/// The optional zero-knowledge block of the second-round message: the four
/// commitment opening scalars.
#[derive(Clone)]
pub struct SecondRoundRandomness {
    pub sigma_a: Scalar,
    pub sigma_b: Scalar,
    pub sigma_c: Scalar,
    pub sigma_o: Scalar,
}

/// The view of a second-round randomness block.
pub struct SecondRoundRandomnessView {
    pub sigma_a: int,
    pub sigma_b: int,
    pub sigma_c: int,
    pub sigma_o: int,
}

impl View for SecondRoundRandomness {
    type V = SecondRoundRandomnessView;

    open spec fn view(&self) -> SecondRoundRandomnessView {
        SecondRoundRandomnessView {
            sigma_a: self.sigma_a@,
            sigma_b: self.sigma_b@,
            sigma_c: self.sigma_c@,
            sigma_o: self.sigma_o@,
        }
    }
}

impl SecondRoundRandomness {
    /// Canonicity of the four openings.
    pub open spec fn wf(self) -> bool {
        self.sigma_a.wf() && self.sigma_b.wf() && self.sigma_c.wf() && self.sigma_o.wf()
    }
}

/// The second-round message: the blinded witness and the optional
/// zero-knowledge block, whose presence must match the first round's flag.
#[derive(Clone)]
pub struct SecondRoundMessage {
    pub blinded_witness: CommitmentFullAssignment,
    pub randomness: Option<SecondRoundRandomness>,
}

/// The view of a second-round message.
pub struct SecondRoundMessageView {
    pub blinded_witness: Seq<int>,
    pub randomness: Option<SecondRoundRandomnessView>,
}

impl View for SecondRoundMessage {
    type V = SecondRoundMessageView;

    open spec fn view(&self) -> SecondRoundMessageView {
        SecondRoundMessageView {
            blinded_witness: self.blinded_witness@,
            randomness: match self.randomness {
                Some(r) => Some(r@),
                None => None,
            },
        }
    }
}

impl SecondRoundMessage {
    /// Canonicity of the blinded witness and the openings.
    pub open spec fn wf(self) -> bool {
        &&& self.blinded_witness.wf()
        &&& match self.randomness {
            Some(r) => r.wf(),
            None => true,
        }
    }
}

/// A proof: the two round messages. Immutable once produced.
#[derive(Clone)]
pub struct Proof {
    pub first_msg: FirstRoundMessage,
    pub second_msg: SecondRoundMessage,
}

/// The view of a proof.
pub struct ProofView {
    pub first: FirstRoundMessageView,
    pub second: SecondRoundMessageView,
}

impl View for Proof {
    type V = ProofView;

    open spec fn view(&self) -> ProofView {
        ProofView { first: self.first_msg@, second: self.second_msg@ }
    }
}

impl Proof {
    /// Canonicity of every element carried by the proof.
    pub open spec fn wf(self) -> bool {
        self.first_msg.wf() && self.second_msg.wf()
    }
}

impl ProofView {
    /// Canonicity of a proof's view: every representative lies in the field.
    pub open spec fn wf(self) -> bool {
        &&& in_field(self.first.comm_a)
        &&& in_field(self.first.comm_b)
        &&& in_field(self.first.comm_c)
        &&& match self.first.randomness {
            Some(r) => in_field(r.comm_r_a) && in_field(r.comm_r_b) && in_field(r.comm_r_c)
                && in_field(r.comm_1) && in_field(r.comm_2),
            None => true,
        }
        &&& in_field_seq(self.second.blinded_witness)
        &&& match self.second.randomness {
            Some(r) => in_field(r.sigma_a) && in_field(r.sigma_b) && in_field(r.sigma_c)
                && in_field(r.sigma_o),
            None => true,
        }
    }
}

} // verus!
