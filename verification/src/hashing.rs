//! Hashing: the matrices' domain-separated content hash, the Fiat-Shamir
//! challenge deriver, and the derivation of the commitment key.
//!
//! All three are deterministic functions of their byte inputs, built from one
//! 256-bit BLAKE2b digest whose result is named `blake2b256_of`. A transcript
//! is mapped into the field by taking the digest's first 128 bits — the
//! challenge bit-length bound — and reducing them.

use vstd::prelude::*;
use vstd::arithmetic::div_mod::lemma_mod_bound;
use vstd::bytes::{spec_u128_from_le_bytes, u128_from_le_bytes};
use vstd::slice::slice_subrange;
use crate::field::{modulus, Scalar, MODULUS};
use crate::group::Group;
use crate::matrix::{matrix_model, vals, Matrix};
use crate::commitment::CommitmentKey;
use crate::codec::{enc_first_msg, enc_matrix, enc_u64, enc_val_vec, write_bytes, write_first_msg,
    write_matrix, write_scalar_vec, write_u64};
use crate::data_structures::{FirstRoundMessage, FirstRoundMessageView};

use blake2::Blake2b256;
use digest::Digest;

verus! {

/// The number of digest bits a transcript's field element is squeezed from,
/// bounding malicious-challenge bias while keeping derivation cheap.
pub const CHALLENGE_SIZE: usize = 128;

/// The 256-bit BLAKE2b digest of a byte string, named: the digest is a
/// function of the input bytes alone.
pub uninterp spec fn blake2b256_of(input: Seq<u8>) -> Seq<u8>;

/// Relies on blake2::Blake2b256 through digest::Digest: hashing the input
/// bytes yields a 32-byte digest that depends on those bytes alone.
#[verifier::external_body]
fn blake2b_256(input: &Vec<u8>) -> (r: Vec<u8>)
    ensures
        r@ == blake2b256_of(input@),
        r@.len() == 32,
{
    let mut hasher = Blake2b256::new();
    Digest::update(&mut hasher, input.as_slice());
    hasher.finalize().to_vec()
}

/// The field element a transcript is mapped to: the digest's first 128 bits,
/// read little endian and reduced into the field.
pub open spec fn hash_to_scalar_spec(bytes: Seq<u8>) -> int {
    (spec_u128_from_le_bytes(blake2b256_of(bytes).take(16)) as int) % modulus()
}

/// Maps a transcript to a field element.
pub fn hash_to_scalar(bytes: &Vec<u8>) -> (r: Scalar)
    ensures
        r.wf(),
        r@ == hash_to_scalar_spec(bytes@),
{
    let digest = blake2b_256(bytes);
    let head = slice_subrange(digest.as_slice(), 0, CHALLENGE_SIZE / 8);
    proof {
        assert(digest@.subrange(0, 16) =~= blake2b256_of(bytes@).take(16));
    }
    let x = u128_from_le_bytes(head);
    let m = x % (MODULUS as u128);
    proof {
        lemma_mod_bound(x as int, MODULUS as int);
    }
    Scalar { v: m as u64 }
}

/// A transcript always maps into the field.
pub proof fn lemma_hash_to_scalar_in_field(bytes: Seq<u8>)
    ensures
        crate::field::in_field(hash_to_scalar_spec(bytes)),
{
    lemma_mod_bound(
        spec_u128_from_le_bytes(blake2b256_of(bytes).take(16)) as int,
        modulus(),
    );
}

/// The protocol's domain-separation tag.
pub open spec fn protocol_name() -> Seq<u8> {
    seq![82u8, 49u8, 67u8, 83u8, 45u8, 78u8, 65u8, 82u8, 75u8, 45u8, 50u8, 48u8, 50u8, 48u8]
}

/// The domain-separation tag as bytes.
pub fn protocol_name_bytes() -> (r: Vec<u8>)
    ensures
        r@ == protocol_name(),
{
    let mut out: Vec<u8> = Vec::new();
    out.push(82);
    out.push(49);
    out.push(67);
    out.push(83);
    out.push(45);
    out.push(78);
    out.push(65);
    out.push(82);
    out.push(75);
    out.push(45);
    out.push(50);
    out.push(48);
    out.push(50);
    out.push(48);
    proof {
        assert(out@ =~= protocol_name());
    }
    out
}

/// The 32-byte domain-separated hash of the three constraint matrices, over
/// their canonical order-sensitive encodings.
pub open spec fn matrices_hash_spec(
    ds: Seq<u8>,
    a: Seq<Seq<(int, int)>>,
    b: Seq<Seq<(int, int)>>,
    c: Seq<Seq<(int, int)>>,
) -> Seq<u8> {
    blake2b256_of(ds + enc_matrix(a) + enc_matrix(b) + enc_matrix(c))
}

/// Hashes the three constraint matrices under a domain-separation tag.
pub fn hash_matrices(domain_separator: &Vec<u8>, a: &Matrix, b: &Matrix, c: &Matrix) -> (r: Vec<
    u8>)
    ensures
        r@ == matrices_hash_spec(
            domain_separator@,
            matrix_model(a@),
            matrix_model(b@),
            matrix_model(c@),
        ),
        r@.len() == 32,
{
    let mut buf: Vec<u8> = Vec::new();
    write_bytes(&mut buf, domain_separator);
    write_matrix(&mut buf, a);
    write_matrix(&mut buf, b);
    write_matrix(&mut buf, c);
    proof {
        assert(buf@ =~= domain_separator@ + enc_matrix(matrix_model(a@)) + enc_matrix(
            matrix_model(b@),
        ) + enc_matrix(matrix_model(c@)));
    }
    blake2b_256(&buf)
}

/// The Fiat-Shamir challenge: the matrices hash, the public input, and the
/// first-round message are absorbed in order; the squeezed element is the
/// digest truncated to the challenge bit length and reduced.
pub open spec fn challenge_spec(mh: Seq<u8>, input: Seq<int>, fm: FirstRoundMessageView) -> int {
    hash_to_scalar_spec(mh + enc_val_vec(input) + enc_first_msg(fm))
}

/// Derives the challenge for a public input and a first-round message.
pub fn derive_challenge(
    matrices_hash: &Vec<u8>,
    input: &Vec<Scalar>,
    first_msg: &FirstRoundMessage,
) -> (r: Scalar)
    ensures
        r.wf(),
        r@ == challenge_spec(matrices_hash@, vals(input@), first_msg@),
{
    let mut buf: Vec<u8> = Vec::new();
    write_bytes(&mut buf, matrices_hash);
    write_scalar_vec(&mut buf, input);
    write_first_msg(&mut buf, first_msg);
    proof {
        assert(buf@ =~= matrices_hash@ + enc_val_vec(vals(input@)) + enc_first_msg(first_msg@));
    }
    hash_to_scalar(&buf)
}

/// The challenge deriver is deterministic: identical matrices hash, public
/// input, and first-round message yield the identical challenge.
pub proof fn lemma_challenge_deterministic(
    mh1: Seq<u8>,
    input1: Seq<int>,
    fm1: FirstRoundMessageView,
    mh2: Seq<u8>,
    input2: Seq<int>,
    fm2: FirstRoundMessageView,
)
    requires
        mh1 == mh2,
        input1 == input2,
        fm1 == fm2,
    ensures
        challenge_spec(mh1, input1, fm1) == challenge_spec(mh2, input2, fm2),
{
}

/// The generator a commitment key holds at a position, derived from the
/// matrices hash and the position.
pub open spec fn generator_spec(mh: Seq<u8>, i: int) -> int {
    hash_to_scalar_spec(mh + enc_u64(i as u64))
}

/// Derives the commitment key for a relation: one generator per constraint
/// from the matrices hash and the generator's position, and the hiding
/// generator from the position after the last.
pub fn derive_commitment_key(matrices_hash: &Vec<u8>, num_constraints: usize) -> (r: CommitmentKey)
    requires
        num_constraints < usize::MAX,
    ensures
        r.wf(),
        r@.generators.len() == num_constraints,
        forall|i: int|
            0 <= i < num_constraints ==> r@.generators[i] == generator_spec(matrices_hash@, i),
        r@.hiding_generator == generator_spec(matrices_hash@, num_constraints as int),
{
    let mut gens: Vec<Group> = Vec::new();
    let mut k: usize = 0;
    while k < num_constraints
        invariant
            k <= num_constraints,
            gens@.len() == k,
            forall|i: int|
                0 <= i < k ==> (#[trigger] gens@[i])@ == generator_spec(matrices_hash@, i)
                    && gens@[i].wf(),
        decreases num_constraints - k,
    {
        let mut buf: Vec<u8> = Vec::new();
        write_bytes(&mut buf, matrices_hash);
        write_u64(&mut buf, k as u64);
        let s = hash_to_scalar(&buf);
        gens.push(Group { v: s.v });
        k = k + 1;
    }
    let mut buf: Vec<u8> = Vec::new();
    write_bytes(&mut buf, matrices_hash);
    write_u64(&mut buf, num_constraints as u64);
    let h = hash_to_scalar(&buf);
    let r = CommitmentKey { generators: gens, hiding_generator: Group { v: h.v } };
    proof {
        assert(forall|i: int|
            0 <= i < num_constraints ==> r@.generators[i] == (#[trigger] r.generators@[i])@);
    }
    r
}

} // verus!
