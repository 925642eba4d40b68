//! The canonical byte encoding of the protocol's data.
//!
//! Field and group elements are eight little-endian bytes of their canonical
//! representative; vectors and matrix rows carry a length prefix; optional
//! zero-knowledge blocks carry a one-byte flag. The encoding is what the
//! challenge deriver absorbs and what two parties exchanging proofs or keys
//! must agree on byte for byte.

use vstd::prelude::*;
use vstd::bytes::{lemma_auto_spec_u64_to_from_le_bytes, spec_u64_from_le_bytes,
    spec_u64_to_le_bytes, u64_from_le_bytes, u64_to_le_bytes};
use vstd::slice::slice_subrange;
use crate::field::{in_field, MODULUS};
use crate::field::Scalar;
use crate::group::Group;
use crate::matrix::{matrix_model, row_model, vals, Matrix};
use crate::commitment::{group_vals, groups_wf, CommitmentKey, CommitmentKeyView};
use crate::data_structures::{CommitmentFullAssignment, FirstRoundMessage, FirstRoundMessageView,
    FirstRoundRandomness, FirstRoundRandomnessView, IndexInfo, IndexInfoView, IndexKeyView,
    IndexProverKey, Proof, ProofView, SecondRoundMessage, SecondRoundMessageView,
    SecondRoundRandomness, SecondRoundRandomnessView};

verus! {

/// Eight little-endian bytes of a machine word.
pub open spec fn enc_u64(x: u64) -> Seq<u8> {
    spec_u64_to_le_bytes(x)
}

/// The encoding of one field or group element value.
pub open spec fn enc_val(v: int) -> Seq<u8> {
    spec_u64_to_le_bytes(v as u64)
}

/// The concatenated encodings of a sequence of values.
pub open spec fn enc_vals(vs: Seq<int>) -> Seq<u8>
    decreases vs.len(),
{
    if vs.len() == 0 {
        Seq::empty()
    } else {
        enc_vals(vs.drop_last()) + enc_val(vs.last())
    }
}

/// A length-prefixed vector of values.
pub open spec fn enc_val_vec(vs: Seq<int>) -> Seq<u8> {
    enc_u64(vs.len() as u64) + enc_vals(vs)
}

/// The encoding of one sparse (coefficient, column) pair.
pub open spec fn enc_pair(p: (int, int)) -> Seq<u8> {
    enc_val(p.0) + enc_u64(p.1 as u64)
}

/// The concatenated encodings of a row's pairs.
pub open spec fn enc_pairs(r: Seq<(int, int)>) -> Seq<u8>
    decreases r.len(),
{
    if r.len() == 0 {
        Seq::empty()
    } else {
        enc_pairs(r.drop_last()) + enc_pair(r.last())
    }
}

/// A length-prefixed sparse row.
pub open spec fn enc_row(r: Seq<(int, int)>) -> Seq<u8> {
    enc_u64(r.len() as u64) + enc_pairs(r)
}

/// The concatenated encodings of a matrix's rows.
pub open spec fn enc_rows(m: Seq<Seq<(int, int)>>) -> Seq<u8>
    decreases m.len(),
{
    if m.len() == 0 {
        Seq::empty()
    } else {
        enc_rows(m.drop_last()) + enc_row(m.last())
    }
}

/// A length-prefixed sparse matrix.
pub open spec fn enc_matrix(m: Seq<Seq<(int, int)>>) -> Seq<u8> {
    enc_u64(m.len() as u64) + enc_rows(m)
}

/// The encoding of an index descriptor: the three counts and the matrices
/// hash.
pub open spec fn enc_index_info(info: IndexInfoView) -> Seq<u8> {
    enc_u64(info.num_variables as u64) + enc_u64(info.num_constraints as u64) + enc_u64(
        info.num_instance_variables as u64,
    ) + info.matrices_hash
}

/// The encoding of a commitment key.
pub open spec fn enc_ck(ck: CommitmentKeyView) -> Seq<u8> {
    enc_val_vec(ck.generators) + enc_val(ck.hiding_generator)
}

/// The encoding of an index (prover or verifier) key.
pub open spec fn enc_key(k: IndexKeyView) -> Seq<u8> {
    enc_index_info(k.info) + enc_matrix(k.a) + enc_matrix(k.b) + enc_matrix(k.c) + enc_ck(k.ck)
}

/// The encoding of a first-round message: the three commitments and the
/// flagged zero-knowledge block.
pub open spec fn enc_first_msg(fm: FirstRoundMessageView) -> Seq<u8> {
    enc_val(fm.comm_a) + enc_val(fm.comm_b) + enc_val(fm.comm_c) + match fm.randomness {
        Some(r) => seq![1u8] + enc_val(r.comm_r_a) + enc_val(r.comm_r_b) + enc_val(r.comm_r_c)
            + enc_val(r.comm_1) + enc_val(r.comm_2),
        None => seq![0u8],
    }
}

/// The encoding of a second-round message: the blinded witness and the
/// flagged zero-knowledge block.
pub open spec fn enc_second_msg(sm: SecondRoundMessageView) -> Seq<u8> {
    enc_val_vec(sm.blinded_witness) + match sm.randomness {
        Some(r) => seq![1u8] + enc_val(r.sigma_a) + enc_val(r.sigma_b) + enc_val(r.sigma_c)
            + enc_val(r.sigma_o),
        None => seq![0u8],
    }
}

/// The encoding of a proof: both round messages.
pub open spec fn enc_proof(p: ProofView) -> Seq<u8> {
    enc_first_msg(p.first) + enc_second_msg(p.second)
}

/// Appends a byte vector.
pub fn write_bytes(out: &mut Vec<u8>, b: &Vec<u8>)
    ensures
        final(out)@ == old(out)@ + b@,
{
    let mut k: usize = 0;
    while k < b.len()
        invariant
            k <= b@.len(),
            out@ == old(out)@ + b@.take(k as int),
        decreases b@.len() - k,
    {
        proof {
            assert(old(out)@ + b@.take(k as int + 1) =~= (old(out)@ + b@.take(k as int)).push(
                b@[k as int],
            ));
        }
        out.push(b[k]);
        k = k + 1;
    }
    proof {
        assert(old(out)@ + b@.take(b@.len() as int) =~= old(out)@ + b@);
    }
}

/// A copy of a byte vector.
pub fn copy_bytes(b: &Vec<u8>) -> (r: Vec<u8>)
    ensures
        r@ == b@,
{
    let mut out: Vec<u8> = Vec::new();
    write_bytes(&mut out, b);
    proof {
        assert(Seq::<u8>::empty() + b@ =~= b@);
    }
    out
}

/// Appends one machine word, little endian.
pub fn write_u64(out: &mut Vec<u8>, x: u64)
    ensures
        final(out)@ == old(out)@ + enc_u64(x),
{
    let bytes = u64_to_le_bytes(x);
    write_bytes(out, &bytes);
}

/// Appends one field element.
pub fn write_scalar(out: &mut Vec<u8>, s: Scalar)
    ensures
        final(out)@ == old(out)@ + enc_val(s@),
{
    write_u64(out, s.v);
}

/// Appends one group element.
pub fn write_group(out: &mut Vec<u8>, g: Group)
    ensures
        final(out)@ == old(out)@ + enc_val(g@),
{
    write_u64(out, g.v);
}

/// Appends the encodings of a vector of field elements, without a prefix.
pub fn write_scalars(out: &mut Vec<u8>, v: &Vec<Scalar>)
    ensures
        final(out)@ == old(out)@ + enc_vals(vals(v@)),
{
    let mut k: usize = 0;
    while k < v.len()
        invariant
            k <= v@.len(),
            out@ == old(out)@ + enc_vals(vals(v@).take(k as int)),
        decreases v@.len() - k,
    {
        proof {
            let taken = vals(v@).take(k as int + 1);
            assert(taken.drop_last() =~= vals(v@).take(k as int));
            assert(taken.last() == v@[k as int]@);
        }
        write_scalar(out, v[k]);
        k = k + 1;
    }
    proof {
        assert(vals(v@).take(v@.len() as int) =~= vals(v@));
    }
}

/// Appends a length-prefixed vector of field elements.
pub fn write_scalar_vec(out: &mut Vec<u8>, v: &Vec<Scalar>)
    ensures
        final(out)@ == old(out)@ + enc_val_vec(vals(v@)),
{
    write_u64(out, v.len() as u64);
    write_scalars(out, v);
    proof {
        assert(old(out)@ + enc_u64(vals(v@).len() as u64) + enc_vals(vals(v@)) =~= old(out)@
            + enc_val_vec(vals(v@)));
    }
}

/// Appends the encodings of a vector of group elements, without a prefix.
pub fn write_groups(out: &mut Vec<u8>, v: &Vec<Group>)
    ensures
        final(out)@ == old(out)@ + enc_vals(group_vals(v@)),
{
    let mut k: usize = 0;
    while k < v.len()
        invariant
            k <= v@.len(),
            out@ == old(out)@ + enc_vals(group_vals(v@).take(k as int)),
        decreases v@.len() - k,
    {
        proof {
            let taken = group_vals(v@).take(k as int + 1);
            assert(taken.drop_last() =~= group_vals(v@).take(k as int));
            assert(taken.last() == v@[k as int]@);
        }
        write_group(out, v[k]);
        k = k + 1;
    }
    proof {
        assert(group_vals(v@).take(v@.len() as int) =~= group_vals(v@));
    }
}

/// Appends one length-prefixed sparse row.
pub fn write_row(out: &mut Vec<u8>, row: &Vec<(Scalar, usize)>)
    ensures
        final(out)@ == old(out)@ + enc_row(row_model(row@)),
{
    write_u64(out, row.len() as u64);
    let ghost base = out@;
    let mut k: usize = 0;
    while k < row.len()
        invariant
            k <= row@.len(),
            out@ == base + enc_pairs(row_model(row@).take(k as int)),
        decreases row@.len() - k,
    {
        let (coeff, col) = row[k];
        proof {
            let taken = row_model(row@).take(k as int + 1);
            assert(taken.drop_last() =~= row_model(row@).take(k as int));
            assert(taken.last() == (coeff@, col as int));
        }
        write_scalar(out, coeff);
        write_u64(out, col as u64);
        k = k + 1;
    }
    proof {
        assert(row_model(row@).take(row@.len() as int) =~= row_model(row@));
        assert(old(out)@ + enc_u64(row_model(row@).len() as u64) + enc_pairs(row_model(row@)) =~= old(
            out,
        )@ + enc_row(row_model(row@)));
    }
}

/// Appends one length-prefixed sparse matrix.
pub fn write_matrix(out: &mut Vec<u8>, m: &Matrix)
    ensures
        final(out)@ == old(out)@ + enc_matrix(matrix_model(m@)),
{
    write_u64(out, m.len() as u64);
    let ghost base = out@;
    let mut k: usize = 0;
    while k < m.len()
        invariant
            k <= m@.len(),
            out@ == base + enc_rows(matrix_model(m@).take(k as int)),
        decreases m@.len() - k,
    {
        proof {
            let taken = matrix_model(m@).take(k as int + 1);
            assert(taken.drop_last() =~= matrix_model(m@).take(k as int));
            assert(taken.last() == row_model(m@[k as int]@));
        }
        write_row(out, &m[k]);
        k = k + 1;
    }
    proof {
        assert(matrix_model(m@).take(m@.len() as int) =~= matrix_model(m@));
        assert(old(out)@ + enc_u64(matrix_model(m@).len() as u64) + enc_rows(matrix_model(m@)) =~= old(
            out,
        )@ + enc_matrix(matrix_model(m@)));
    }
}

/// Appends an index descriptor.
pub fn write_index_info(out: &mut Vec<u8>, info: &IndexInfo)
    ensures
        final(out)@ == old(out)@ + enc_index_info(info@),
{
    write_u64(out, info.num_variables as u64);
    write_u64(out, info.num_constraints as u64);
    write_u64(out, info.num_instance_variables as u64);
    write_bytes(out, &info.matrices_hash);
    proof {
        assert(old(out)@ + enc_u64(info.num_variables as u64) + enc_u64(info.num_constraints as u64)
            + enc_u64(info.num_instance_variables as u64) + info.matrices_hash@ =~= old(out)@
            + enc_index_info(info@));
    }
}

/// Appends a commitment key.
pub fn write_ck(out: &mut Vec<u8>, ck: &CommitmentKey)
    ensures
        final(out)@ == old(out)@ + enc_ck(ck@),
{
    write_u64(out, ck.generators.len() as u64);
    write_groups(out, &ck.generators);
    write_group(out, ck.hiding_generator);
    proof {
        assert(old(out)@ + enc_u64(group_vals(ck.generators@).len() as u64) + enc_vals(group_vals(
            ck.generators@,
        )) + enc_val(ck.hiding_generator@) =~= old(out)@ + enc_ck(ck@));
    }
}

/// Appends a first-round message.
pub fn write_first_msg(out: &mut Vec<u8>, fm: &FirstRoundMessage)
    ensures
        final(out)@ == old(out)@ + enc_first_msg(fm@),
{
    write_group(out, fm.comm_a);
    write_group(out, fm.comm_b);
    write_group(out, fm.comm_c);
    let ghost base = out@;
    match &fm.randomness {
        Some(r) => {
            out.push(1u8);
            proof {
                assert(out@ =~= base + seq![1u8]);
            }
            write_group(out, r.comm_r_a);
            write_group(out, r.comm_r_b);
            write_group(out, r.comm_r_c);
            write_group(out, r.comm_1);
            write_group(out, r.comm_2);
            proof {
                assert(out@ =~= old(out)@ + enc_first_msg(fm@));
            }
        },
        None => {
            out.push(0u8);
            proof {
                assert(out@ =~= old(out)@ + enc_first_msg(fm@));
            }
        },
    }
}

/// Appends a second-round message.
pub fn write_second_msg(out: &mut Vec<u8>, sm: &SecondRoundMessage)
    ensures
        final(out)@ == old(out)@ + enc_second_msg(sm@),
{
    write_scalar_vec(out, &sm.blinded_witness.blinded_assignment);
    let ghost base = out@;
    match &sm.randomness {
        Some(r) => {
            out.push(1u8);
            proof {
                assert(out@ =~= base + seq![1u8]);
            }
            write_scalar(out, r.sigma_a);
            write_scalar(out, r.sigma_b);
            write_scalar(out, r.sigma_c);
            write_scalar(out, r.sigma_o);
            proof {
                assert(out@ =~= old(out)@ + enc_second_msg(sm@));
            }
        },
        None => {
            out.push(0u8);
            proof {
                assert(out@ =~= old(out)@ + enc_second_msg(sm@));
            }
        },
    }
}

/// Reads one machine word at a position.
pub open spec fn dec_u64(bytes: Seq<u8>, pos: int) -> Option<(u64, int)> {
    if 0 <= pos && pos + 8 <= bytes.len() {
        Some((spec_u64_from_le_bytes(bytes.subrange(pos, pos + 8)), pos + 8))
    } else {
        None
    }
}

/// Reads one canonical field or group element value.
pub open spec fn dec_val(bytes: Seq<u8>, pos: int) -> Option<(int, int)> {
    match dec_u64(bytes, pos) {
        Some((x, p)) => if x < MODULUS {
            Some((x as int, p))
        } else {
            None
        },
        None => None,
    }
}

/// Reads `n` canonical values in order.
pub open spec fn dec_vals(bytes: Seq<u8>, pos: int, n: nat) -> Option<(Seq<int>, int)>
    decreases n,
{
    if n == 0 {
        Some((Seq::empty(), pos))
    } else {
        match dec_vals(bytes, pos, (n - 1) as nat) {
            Some((s, p)) => match dec_val(bytes, p) {
                Some((v, p2)) => Some((s.push(v), p2)),
                None => None,
            },
            None => None,
        }
    }
}

/// Reads a length-prefixed vector of values.
pub open spec fn dec_val_vec(bytes: Seq<u8>, pos: int) -> Option<(Seq<int>, int)> {
    match dec_u64(bytes, pos) {
        Some((n, p)) => dec_vals(bytes, p, n as nat),
        None => None,
    }
}

/// Reads one sparse pair over `cols` columns.
pub open spec fn dec_pair(bytes: Seq<u8>, pos: int, cols: int) -> Option<((int, int), int)> {
    match dec_val(bytes, pos) {
        Some((coeff, p)) => match dec_u64(bytes, p) {
            Some((col, p2)) => if col < cols && col <= usize::MAX {
                Some(((coeff, col as int), p2))
            } else {
                None
            },
            None => None,
        },
        None => None,
    }
}

/// Reads `n` sparse pairs in order.
pub open spec fn dec_pairs(bytes: Seq<u8>, pos: int, n: nat, cols: int) -> Option<(
    Seq<(int, int)>,
    int,
)>
    decreases n,
{
    if n == 0 {
        Some((Seq::empty(), pos))
    } else {
        match dec_pairs(bytes, pos, (n - 1) as nat, cols) {
            Some((s, p)) => match dec_pair(bytes, p, cols) {
                Some((v, p2)) => Some((s.push(v), p2)),
                None => None,
            },
            None => None,
        }
    }
}

/// Reads one length-prefixed sparse row.
pub open spec fn dec_row(bytes: Seq<u8>, pos: int, cols: int) -> Option<(Seq<(int, int)>, int)> {
    match dec_u64(bytes, pos) {
        Some((n, p)) => dec_pairs(bytes, p, n as nat, cols),
        None => None,
    }
}

/// Reads `n` sparse rows in order.
pub open spec fn dec_rows(bytes: Seq<u8>, pos: int, n: nat, cols: int) -> Option<(
    Seq<Seq<(int, int)>>,
    int,
)>
    decreases n,
{
    if n == 0 {
        Some((Seq::empty(), pos))
    } else {
        match dec_rows(bytes, pos, (n - 1) as nat, cols) {
            Some((s, p)) => match dec_row(bytes, p, cols) {
                Some((v, p2)) => Some((s.push(v), p2)),
                None => None,
            },
            None => None,
        }
    }
}

/// Reads one length-prefixed sparse matrix.
pub open spec fn dec_matrix(bytes: Seq<u8>, pos: int, cols: int) -> Option<(
    Seq<Seq<(int, int)>>,
    int,
)> {
    match dec_u64(bytes, pos) {
        Some((n, p)) => dec_rows(bytes, p, n as nat, cols),
        None => None,
    }
}

/// Reads an index descriptor.
pub open spec fn dec_index_info(bytes: Seq<u8>, pos: int) -> Option<(IndexInfoView, int)> {
    match dec_u64(bytes, pos) {
        Some((nv, p1)) => match dec_u64(bytes, p1) {
            Some((nc, p2)) => match dec_u64(bytes, p2) {
                Some((ni, p3)) => if p3 + 32 <= bytes.len() && ni <= nv && nv <= usize::MAX && nc
                    <= usize::MAX {
                    Some(
                        (
                            IndexInfoView {
                                num_variables: nv as int,
                                num_constraints: nc as int,
                                num_instance_variables: ni as int,
                                matrices_hash: bytes.subrange(p3, p3 + 32),
                            },
                            p3 + 32,
                        ),
                    )
                } else {
                    None
                },
                None => None,
            },
            None => None,
        },
        None => None,
    }
}

/// Reads a first-round message.
pub open spec fn dec_first_msg(bytes: Seq<u8>, pos: int) -> Option<(FirstRoundMessageView, int)> {
    match dec_vals(bytes, pos, 3) {
        Some((cs, p)) => if 0 <= p < bytes.len() {
            if bytes[p] == 0u8 {
                Some(
                    (
                        FirstRoundMessageView {
                            comm_a: cs[0],
                            comm_b: cs[1],
                            comm_c: cs[2],
                            randomness: None,
                        },
                        p + 1,
                    ),
                )
            } else if bytes[p] == 1u8 {
                match dec_vals(bytes, p + 1, 5) {
                    Some((rs, p2)) => Some(
                        (
                            FirstRoundMessageView {
                                comm_a: cs[0],
                                comm_b: cs[1],
                                comm_c: cs[2],
                                randomness: Some(
                                    FirstRoundRandomnessView {
                                        comm_r_a: rs[0],
                                        comm_r_b: rs[1],
                                        comm_r_c: rs[2],
                                        comm_1: rs[3],
                                        comm_2: rs[4],
                                    },
                                ),
                            },
                            p2,
                        ),
                    ),
                    None => None,
                }
            } else {
                None
            }
        } else {
            None
        },
        None => None,
    }
}

/// Reads a second-round message.
pub open spec fn dec_second_msg(bytes: Seq<u8>, pos: int) -> Option<(SecondRoundMessageView, int)> {
    match dec_val_vec(bytes, pos) {
        Some((bw, p)) => if 0 <= p < bytes.len() {
            if bytes[p] == 0u8 {
                Some((SecondRoundMessageView { blinded_witness: bw, randomness: None }, p + 1))
            } else if bytes[p] == 1u8 {
                match dec_vals(bytes, p + 1, 4) {
                    Some((rs, p2)) => Some(
                        (
                            SecondRoundMessageView {
                                blinded_witness: bw,
                                randomness: Some(
                                    SecondRoundRandomnessView {
                                        sigma_a: rs[0],
                                        sigma_b: rs[1],
                                        sigma_c: rs[2],
                                        sigma_o: rs[3],
                                    },
                                ),
                            },
                            p2,
                        ),
                    ),
                    None => None,
                }
            } else {
                None
            }
        } else {
            None
        },
        None => None,
    }
}

/// Reads a whole proof: both messages, consuming every byte.
pub open spec fn dec_proof(bytes: Seq<u8>) -> Option<ProofView> {
    match dec_first_msg(bytes, 0) {
        Some((fm, p1)) => match dec_second_msg(bytes, p1) {
            Some((sm, p2)) => if p2 == bytes.len() {
                Some(ProofView { first: fm, second: sm })
            } else {
                None
            },
            None => None,
        },
        None => None,
    }
}

/// Reads a whole index descriptor, consuming every byte.
pub open spec fn dec_index_info_full(bytes: Seq<u8>) -> Option<IndexInfoView> {
    match dec_index_info(bytes, 0) {
        Some((info, p)) => if p == bytes.len() {
            Some(info)
        } else {
            None
        },
        None => None,
    }
}

/// Reads a whole index key, consuming every byte: the descriptor, the three
/// matrices over its column space, and a commitment key with one generator
/// per constraint.
pub open spec fn dec_key(bytes: Seq<u8>) -> Option<IndexKeyView> {
    match dec_index_info(bytes, 0) {
        Some((info, p0)) => match dec_matrix(bytes, p0, info.num_variables) {
            Some((a, p1)) => match dec_matrix(bytes, p1, info.num_variables) {
                Some((b, p2)) => match dec_matrix(bytes, p2, info.num_variables) {
                    Some((c, p3)) => match dec_val_vec(bytes, p3) {
                        Some((gens, p4)) => match dec_val(bytes, p4) {
                            Some((h, p5)) => if p5 == bytes.len() && a.len()
                                == info.num_constraints && b.len() == info.num_constraints
                                && c.len() == info.num_constraints && gens.len()
                                == info.num_constraints {
                                Some(
                                    IndexKeyView {
                                        info: info,
                                        a: a,
                                        b: b,
                                        c: c,
                                        ck: CommitmentKeyView {
                                            generators: gens,
                                            hiding_generator: h,
                                        },
                                    },
                                )
                            } else {
                                None
                            },
                            None => None,
                        },
                        None => None,
                    },
                    None => None,
                },
                None => None,
            },
            None => None,
        },
        None => None,
    }
}

/// A pair's encoding is sixteen bytes long.
proof fn lemma_enc_pair_len(p: (int, int))
    ensures
        enc_pair(p).len() == 16,
{
    lemma_auto_spec_u64_to_from_le_bytes();
}

/// A pair sequence's encoding is sixteen bytes per pair.
proof fn lemma_enc_pairs_len(r: Seq<(int, int)>)
    ensures
        enc_pairs(r).len() == 16 * r.len(),
    decreases r.len(),
{
    if r.len() > 0 {
        lemma_enc_pairs_len(r.drop_last());
        lemma_enc_pair_len(r.last());
    }
}

/// Reading back one encoded in-range pair yields the pair.
proof fn lemma_dec_pair_enc(bytes: Seq<u8>, pos: int, p: (int, int), cols: int)
    requires
        in_field(p.0),
        0 <= p.1 < cols,
        cols <= usize::MAX,
        0 <= pos,
        pos + 16 <= bytes.len(),
        bytes.subrange(pos, pos + 16) == enc_pair(p),
    ensures
        dec_pair(bytes, pos, cols) == Some((p, pos + 16)),
{
    lemma_enc_val_len(p.0);
    lemma_auto_spec_u64_to_from_le_bytes();
    lemma_subrange_split(bytes, pos, enc_val(p.0), enc_u64(p.1 as u64));
    lemma_dec_val_enc(bytes, pos, p.0);
    lemma_dec_u64_enc(bytes, pos + 8, p.1 as u64);
}

/// Reading back an encoded sequence of in-range pairs yields the sequence.
proof fn lemma_dec_pairs_enc(bytes: Seq<u8>, pos: int, r: Seq<(int, int)>, cols: int)
    requires
        crate::matrix::row_wf(r, cols),
        cols <= usize::MAX,
        0 <= pos,
        pos + 16 * r.len() <= bytes.len(),
        bytes.subrange(pos, pos + 16 * r.len()) == enc_pairs(r),
    ensures
        dec_pairs(bytes, pos, r.len(), cols) == Some((r, pos + 16 * r.len())),
    decreases r.len(),
{
    if r.len() == 0 {
        assert(r =~= Seq::<(int, int)>::empty());
    } else {
        let front = r.drop_last();
        lemma_enc_pairs_len(front);
        lemma_enc_pair_len(r.last());
        lemma_subrange_split(bytes, pos, enc_pairs(front), enc_pair(r.last()));
        lemma_dec_pairs_enc(bytes, pos, front, cols);
        lemma_dec_pair_enc(bytes, pos + 16 * front.len(), r.last(), cols);
        assert(front.push(r.last()) =~= r);
    }
}

/// Reading back one encoded well-formed row yields the row.
proof fn lemma_dec_row_enc(bytes: Seq<u8>, pos: int, r: Seq<(int, int)>, cols: int)
    requires
        crate::matrix::row_wf(r, cols),
        r.len() <= usize::MAX,
        cols <= usize::MAX,
        0 <= pos,
        pos + enc_row(r).len() <= bytes.len(),
        bytes.subrange(pos, pos + enc_row(r).len()) == enc_row(r),
    ensures
        enc_row(r).len() == 8 + 16 * r.len(),
        dec_row(bytes, pos, cols) == Some((r, pos + enc_row(r).len())),
{
    lemma_enc_pairs_len(r);
    lemma_auto_spec_u64_to_from_le_bytes();
    lemma_subrange_split(bytes, pos, enc_u64(r.len() as u64), enc_pairs(r));
    lemma_dec_u64_enc(bytes, pos, r.len() as u64);
    lemma_dec_pairs_enc(bytes, pos + 8, r, cols);
}

/// Reading back an encoded sequence of well-formed rows yields the rows.
proof fn lemma_dec_rows_enc(bytes: Seq<u8>, pos: int, m: Seq<Seq<(int, int)>>, cols: int)
    requires
        crate::matrix::matrix_wf(m, cols),
        forall|i: int| 0 <= i < m.len() ==> (#[trigger] m[i]).len() <= usize::MAX,
        cols <= usize::MAX,
        0 <= pos,
        pos + enc_rows(m).len() <= bytes.len(),
        bytes.subrange(pos, pos + enc_rows(m).len()) == enc_rows(m),
    ensures
        dec_rows(bytes, pos, m.len(), cols) == Some((m, pos + enc_rows(m).len())),
    decreases m.len(),
{
    if m.len() == 0 {
        assert(m =~= Seq::<Seq<(int, int)>>::empty());
    } else {
        let front = m.drop_last();
        lemma_subrange_split(bytes, pos, enc_rows(front), enc_row(m.last()));
        lemma_dec_rows_enc(bytes, pos, front, cols);
        lemma_dec_row_enc(bytes, pos + enc_rows(front).len(), m.last(), cols);
        assert(front.push(m.last()) =~= m);
    }
}

/// Reading back an encoded well-formed matrix yields the matrix.
proof fn lemma_dec_matrix_enc(bytes: Seq<u8>, pos: int, m: Seq<Seq<(int, int)>>, cols: int)
    requires
        crate::matrix::matrix_wf(m, cols),
        m.len() <= usize::MAX,
        forall|i: int| 0 <= i < m.len() ==> (#[trigger] m[i]).len() <= usize::MAX,
        cols <= usize::MAX,
        0 <= pos,
        pos + enc_matrix(m).len() <= bytes.len(),
        bytes.subrange(pos, pos + enc_matrix(m).len()) == enc_matrix(m),
    ensures
        dec_matrix(bytes, pos, cols) == Some((m, pos + enc_matrix(m).len())),
{
    lemma_auto_spec_u64_to_from_le_bytes();
    lemma_subrange_split(bytes, pos, enc_u64(m.len() as u64), enc_rows(m));
    lemma_dec_u64_enc(bytes, pos, m.len() as u64);
    lemma_dec_rows_enc(bytes, pos + 8, m, cols);
}

/// Whether a matrix model is small enough to encode with machine-word
/// prefixes.
pub open spec fn matrix_encodable(m: Seq<Seq<(int, int)>>) -> bool {
    m.len() <= usize::MAX && forall|i: int| 0 <= i < m.len() ==> (#[trigger] m[i]).len()
        <= usize::MAX
}

/// Round trip: deserializing a serialized index key yields the key.
pub proof fn lemma_key_round_trip(v: IndexKeyView)
    requires
        v.wf(),
        v.info.num_variables <= usize::MAX,
        v.info.num_constraints <= usize::MAX,
        matrix_encodable(v.a),
        matrix_encodable(v.b),
        matrix_encodable(v.c),
    ensures
        dec_key(enc_key(v)) == Some(v),
{
    let bytes = enc_key(v);
    let cols = v.info.num_variables;
    assert(bytes.subrange(0, bytes.len() as int) =~= bytes);
    let s_info = enc_index_info(v.info);
    let s_a = enc_matrix(v.a);
    let s_b = enc_matrix(v.b);
    let s_c = enc_matrix(v.c);
    let s_gens = enc_val_vec(v.ck.generators);
    let s_h = enc_val(v.ck.hiding_generator);
    assert(bytes =~= s_info + (s_a + (s_b + (s_c + (s_gens + s_h)))));
    lemma_subrange_split(bytes, 0, s_info, s_a + (s_b + (s_c + (s_gens + s_h))));
    let p0 = s_info.len() as int;
    lemma_subrange_split(bytes, p0, s_a, s_b + (s_c + (s_gens + s_h)));
    let p1 = p0 + s_a.len();
    lemma_subrange_split(bytes, p1, s_b, s_c + (s_gens + s_h));
    let p2 = p1 + s_b.len();
    lemma_subrange_split(bytes, p2, s_c, s_gens + s_h);
    let p3 = p2 + s_c.len();
    lemma_subrange_split(bytes, p3, s_gens, s_h);
    let p4 = p3 + s_gens.len();
    lemma_dec_index_info_enc(bytes, 0, v.info);
    lemma_dec_matrix_enc(bytes, p0, v.a, cols);
    lemma_dec_matrix_enc(bytes, p1, v.b, cols);
    lemma_dec_matrix_enc(bytes, p2, v.c, cols);
    lemma_enc_vals_len(v.ck.generators);
    lemma_auto_spec_u64_to_from_le_bytes();
    lemma_subrange_split(bytes, p3, enc_u64(v.ck.generators.len() as u64), enc_vals(
        v.ck.generators,
    ));
    lemma_dec_u64_enc(bytes, p3, v.ck.generators.len() as u64);
    lemma_dec_vals_enc(bytes, p3 + 8, v.ck.generators);
    lemma_dec_val_enc(bytes, p4, v.ck.hiding_generator);
}

/// Reads one machine word at a position.
fn read_u64(bytes: &Vec<u8>, pos: usize) -> (r: Option<(u64, usize)>)
    ensures
        r is Some ==> dec_u64(bytes@, pos as int) == Some(
            (r.unwrap().0, r.unwrap().1 as int),
        ) && r.unwrap().1 <= bytes@.len(),
        r is None ==> dec_u64(bytes@, pos as int) is None,
{
    if bytes.len() < 8 || pos > bytes.len() - 8 {
        return None;
    }
    let s = slice_subrange(bytes.as_slice(), pos, pos + 8);
    let x = u64_from_le_bytes(s);
    Some((x, pos + 8))
}

/// Reads one canonical field element at a position.
fn read_scalar(bytes: &Vec<u8>, pos: usize) -> (r: Option<(Scalar, usize)>)
    ensures
        r is Some ==> dec_val(bytes@, pos as int) == Some(
            (r.unwrap().0@, r.unwrap().1 as int),
        ) && r.unwrap().0.wf() && r.unwrap().1 <= bytes@.len(),
        r is None ==> dec_val(bytes@, pos as int) is None,
{
    match read_u64(bytes, pos) {
        Some((x, p)) => {
            if x < MODULUS {
                Some((Scalar { v: x }, p))
            } else {
                None
            }
        },
        None => None,
    }
}

/// Reads `n` canonical field elements at a position.
fn read_scalars(bytes: &Vec<u8>, pos: usize, n: u64) -> (r: Option<(Vec<Scalar>, usize)>)
    requires
        pos <= bytes@.len(),
    ensures
        r is Some ==> dec_vals(bytes@, pos as int, n as nat) == Some(
            (vals(r.unwrap().0@), r.unwrap().1 as int),
        ) && crate::matrix::scalars_wf(r.unwrap().0@) && r.unwrap().0@.len() == n
            && r.unwrap().1 <= bytes@.len(),
        r is None ==> dec_vals(bytes@, pos as int, n as nat) is None,
{
    let mut out: Vec<Scalar> = Vec::new();
    let mut cur: usize = pos;
    let mut k: u64 = 0;
    while k < n
        invariant
            k <= n,
            cur <= bytes@.len(),
            out@.len() == k,
            crate::matrix::scalars_wf(out@),
            dec_vals(bytes@, pos as int, k as nat) == Some((vals(out@), cur as int)),
        decreases n - k,
    {
        match read_scalar(bytes, cur) {
            Some((s, p)) => {
                out.push(s);
                proof {
                    assert(vals(out@) =~= vals(out@.drop_last()).push(s@));
                }
                cur = p;
            },
            None => {
                proof {
                    lemma_dec_vals_fail(bytes@, pos as int, k as nat, n as nat);
                }
                return None;
            },
        }
        k = k + 1;
    }
    Some((out, cur))
}

/// A failed pair read fails every longer pair-sequence read.
proof fn lemma_dec_pairs_fail(bytes: Seq<u8>, pos: int, k: nat, n: nat, cols: int)
    requires
        k < n,
        dec_pairs(bytes, pos, k, cols) is Some,
        dec_pair(bytes, dec_pairs(bytes, pos, k, cols).unwrap().1, cols) is None,
    ensures
        dec_pairs(bytes, pos, n, cols) is None,
    decreases n,
{
    if n > k + 1 {
        lemma_dec_pairs_fail(bytes, pos, k, (n - 1) as nat, cols);
    }
}

/// A failed row read fails every longer row-sequence read.
proof fn lemma_dec_rows_fail(bytes: Seq<u8>, pos: int, k: nat, n: nat, cols: int)
    requires
        k < n,
        dec_rows(bytes, pos, k, cols) is Some,
        dec_row(bytes, dec_rows(bytes, pos, k, cols).unwrap().1, cols) is None,
    ensures
        dec_rows(bytes, pos, n, cols) is None,
    decreases n,
{
    if n > k + 1 {
        lemma_dec_rows_fail(bytes, pos, k, (n - 1) as nat, cols);
    }
}

/// Reads one sparse pair at a position.
fn read_pair(bytes: &Vec<u8>, pos: usize, cols: usize) -> (r: Option<((Scalar, usize), usize)>)
    ensures
        r is Some ==> dec_pair(bytes@, pos as int, cols as int) == Some(
            ((r.unwrap().0.0@, r.unwrap().0.1 as int), r.unwrap().1 as int),
        ) && r.unwrap().0.0.wf() && r.unwrap().0.1 < cols && r.unwrap().1 <= bytes@.len(),
        r is None ==> dec_pair(bytes@, pos as int, cols as int) is None,
{
    let (coeff, p) = match read_scalar(bytes, pos) {
        Some(t) => t,
        None => {
            return None;
        },
    };
    let (col, p2) = match read_u64(bytes, p) {
        Some(t) => t,
        None => {
            return None;
        },
    };
    if col >= cols as u64 {
        return None;
    }
    Some(((coeff, col as usize), p2))
}

/// Reads `n` sparse pairs at a position.
fn read_pairs(bytes: &Vec<u8>, pos: usize, n: u64, cols: usize) -> (r: Option<(
    Vec<(Scalar, usize)>,
    usize,
)>)
    requires
        pos <= bytes@.len(),
    ensures
        r is Some ==> dec_pairs(bytes@, pos as int, n as nat, cols as int) == Some(
            (row_model(r.unwrap().0@), r.unwrap().1 as int),
        ) && crate::matrix::row_wf(row_model(r.unwrap().0@), cols as int) && r.unwrap().0@.len()
            == n && r.unwrap().1 <= bytes@.len(),
        r is None ==> dec_pairs(bytes@, pos as int, n as nat, cols as int) is None,
{
    let mut out: Vec<(Scalar, usize)> = Vec::new();
    let mut cur: usize = pos;
    let mut k: u64 = 0;
    while k < n
        invariant
            k <= n,
            cur <= bytes@.len(),
            out@.len() == k,
            crate::matrix::row_wf(row_model(out@), cols as int),
            dec_pairs(bytes@, pos as int, k as nat, cols as int) == Some(
                (row_model(out@), cur as int),
            ),
        decreases n - k,
    {
        match read_pair(bytes, cur, cols) {
            Some((pair, p)) => {
                let ghost prev_vec = out@;
                out.push(pair);
                proof {
                    assert(out@.drop_last() =~= prev_vec);
                    let rm = row_model(out@);
                    let prev = row_model(prev_vec);
                    assert(rm =~= prev.push((pair.0@, pair.1 as int)));
                    assert forall|t: int|
                        0 <= t < rm.len() implies in_field((#[trigger] rm[t]).0) && 0 <= rm[t].1
                        < cols as int by {
                        if t < prev.len() {
                            assert(rm[t] == prev[t]);
                            assert(in_field(prev[t].0) && 0 <= prev[t].1 < cols as int);
                        } else {
                            assert(rm[t] == (pair.0@, pair.1 as int));
                        }
                    }
                }
                cur = p;
            },
            None => {
                proof {
                    lemma_dec_pairs_fail(bytes@, pos as int, k as nat, n as nat, cols as int);
                }
                return None;
            },
        }
        k = k + 1;
    }
    Some((out, cur))
}

/// Reads one length-prefixed sparse row at a position.
fn read_row(bytes: &Vec<u8>, pos: usize, cols: usize) -> (r: Option<(Vec<(Scalar, usize)>, usize)>)
    requires
        pos <= bytes@.len(),
    ensures
        r is Some ==> dec_row(bytes@, pos as int, cols as int) == Some(
            (row_model(r.unwrap().0@), r.unwrap().1 as int),
        ) && crate::matrix::row_wf(row_model(r.unwrap().0@), cols as int) && r.unwrap().1
            <= bytes@.len(),
        r is None ==> dec_row(bytes@, pos as int, cols as int) is None,
{
    let (n, p) = match read_u64(bytes, pos) {
        Some(t) => t,
        None => {
            return None;
        },
    };
    match read_pairs(bytes, p, n, cols) {
        Some(t) => Some(t),
        None => None,
    }
}

/// Reads one length-prefixed sparse matrix at a position.
fn read_matrix(bytes: &Vec<u8>, pos: usize, cols: usize) -> (r: Option<(Matrix, usize)>)
    requires
        pos <= bytes@.len(),
    ensures
        r is Some ==> dec_matrix(bytes@, pos as int, cols as int) == Some(
            (matrix_model(r.unwrap().0@), r.unwrap().1 as int),
        ) && crate::matrix::matrix_wf(matrix_model(r.unwrap().0@), cols as int) && r.unwrap().1
            <= bytes@.len(),
        r is None ==> dec_matrix(bytes@, pos as int, cols as int) is None,
{
    let (n, p0) = match read_u64(bytes, pos) {
        Some(t) => t,
        None => {
            return None;
        },
    };
    let mut out: Matrix = Vec::new();
    let mut cur: usize = p0;
    let mut k: u64 = 0;
    while k < n
        invariant
            k <= n,
            cur <= bytes@.len(),
            out@.len() == k,
            dec_u64(bytes@, pos as int) == Some((n, p0 as int)),
            crate::matrix::matrix_wf(matrix_model(out@), cols as int),
            dec_rows(bytes@, p0 as int, k as nat, cols as int) == Some(
                (matrix_model(out@), cur as int),
            ),
        decreases n - k,
    {
        match read_row(bytes, cur, cols) {
            Some((row, p)) => {
                let ghost prev_vec = out@;
                out.push(row);
                proof {
                    assert(out@.drop_last() =~= prev_vec);
                    let mm = matrix_model(out@);
                    let prev = matrix_model(prev_vec);
                    assert(mm =~= prev.push(row_model(row@)));
                    assert forall|t: int|
                        0 <= t < mm.len() implies crate::matrix::row_wf(
                        #[trigger] mm[t],
                        cols as int,
                    ) by {
                        if t < prev.len() {
                            assert(mm[t] == prev[t]);
                            assert(crate::matrix::row_wf(prev[t], cols as int));
                        } else {
                            assert(mm[t] == row_model(row@));
                        }
                    }
                }
                cur = p;
            },
            None => {
                proof {
                    lemma_dec_rows_fail(bytes@, p0 as int, k as nat, n as nat, cols as int);
                }
                return None;
            },
        }
        k = k + 1;
    }
    Some((out, cur))
}

/// Reads an index descriptor at a position.
fn read_index_info(bytes: &Vec<u8>, pos: usize) -> (r: Option<(IndexInfo, usize)>)
    ensures
        r is Some ==> dec_index_info(bytes@, pos as int) == Some(
            (r.unwrap().0@, r.unwrap().1 as int),
        ) && r.unwrap().0@.wf() && r.unwrap().1 <= bytes@.len(),
        r is None ==> dec_index_info(bytes@, pos as int) is None,
{
    let (nv, p1) = match read_u64(bytes, pos) {
        Some(t) => t,
        None => {
            return None;
        },
    };
    let (nc, p2) = match read_u64(bytes, p1) {
        Some(t) => t,
        None => {
            return None;
        },
    };
    let (ni, p3) = match read_u64(bytes, p2) {
        Some(t) => t,
        None => {
            return None;
        },
    };
    if bytes.len() < 32 || p3 > bytes.len() - 32 {
        return None;
    }
    if ni > nv || nv > usize::MAX as u64 || nc > usize::MAX as u64 {
        return None;
    }
    let mut hash: Vec<u8> = Vec::new();
    let mut i: usize = 0;
    while i < 32
        invariant
            i <= 32,
            p3 + 32 <= bytes@.len(),
            bytes@.len() <= usize::MAX,
            hash@ == bytes@.subrange(p3 as int, p3 as int + i),
        decreases 32 - i,
    {
        proof {
            assert(bytes@.subrange(p3 as int, p3 as int + i + 1) =~= bytes@.subrange(
                p3 as int,
                p3 as int + i,
            ).push(bytes@[p3 as int + i]));
        }
        hash.push(bytes[p3 + i]);
        i = i + 1;
    }
    Some(
        (
            IndexInfo {
                num_variables: nv as usize,
                num_constraints: nc as usize,
                num_instance_variables: ni as usize,
                matrices_hash: hash,
            },
            p3 + 32,
        ),
    )
}

/// Deserializes an index key from its canonical bytes. Returns the key
/// exactly when the bytes are one whole canonical key encoding over a
/// consistent descriptor.
pub fn deserialize_index_key(bytes: &Vec<u8>) -> (r: Option<IndexProverKey>)
    ensures
        r is Some ==> dec_key(bytes@) == Some(r.unwrap()@) && r.unwrap().wf(),
        r is None ==> dec_key(bytes@) is None,
{
    let (info, p0) = match read_index_info(bytes, 0) {
        Some(t) => t,
        None => {
            return None;
        },
    };
    let cols = info.num_variables;
    let (a, p1) = match read_matrix(bytes, p0, cols) {
        Some(t) => t,
        None => {
            return None;
        },
    };
    let (b, p2) = match read_matrix(bytes, p1, cols) {
        Some(t) => t,
        None => {
            return None;
        },
    };
    let (c, p3) = match read_matrix(bytes, p2, cols) {
        Some(t) => t,
        None => {
            return None;
        },
    };
    let (n_gens, p4) = match read_u64(bytes, p3) {
        Some(t) => t,
        None => {
            return None;
        },
    };
    let (gen_scalars, p5) = match read_scalars(bytes, p4, n_gens) {
        Some(t) => t,
        None => {
            return None;
        },
    };
    let (h, p6) = match read_scalar(bytes, p5) {
        Some(t) => t,
        None => {
            return None;
        },
    };
    if p6 != bytes.len() {
        return None;
    }
    if a.len() != info.num_constraints || b.len() != info.num_constraints || c.len()
        != info.num_constraints || gen_scalars.len() != info.num_constraints {
        return None;
    }
    let mut generators: Vec<Group> = Vec::new();
    let mut g: usize = 0;
    while g < gen_scalars.len()
        invariant
            g <= gen_scalars@.len(),
            crate::matrix::scalars_wf(gen_scalars@),
            generators@.len() == g,
            groups_wf(generators@),
            group_vals(generators@) == vals(gen_scalars@).take(g as int),
        decreases gen_scalars@.len() - g,
    {
        generators.push(Group { v: gen_scalars[g].v });
        proof {
            assert(group_vals(generators@) =~= vals(gen_scalars@).take(g as int + 1));
        }
        g = g + 1;
    }
    proof {
        assert(vals(gen_scalars@).take(gen_scalars@.len() as int) =~= vals(gen_scalars@));
    }
    let key = IndexProverKey {
        index_info: info,
        a,
        b,
        c,
        ck: CommitmentKey { generators, hiding_generator: Group { v: h.v } },
    };
    Some(key)
}

/// Reads a first-round message at a position.
fn read_first_msg(bytes: &Vec<u8>, pos: usize) -> (r: Option<(FirstRoundMessage, usize)>)
    requires
        pos <= bytes@.len(),
    ensures
        r is Some ==> dec_first_msg(bytes@, pos as int) == Some(
            (r.unwrap().0@, r.unwrap().1 as int),
        ) && r.unwrap().0.wf() && r.unwrap().1 <= bytes@.len(),
        r is None ==> dec_first_msg(bytes@, pos as int) is None,
{
    let (cs, p) = match read_scalars(bytes, pos, 3) {
        Some(t) => t,
        None => {
            return None;
        },
    };
    if p >= bytes.len() {
        return None;
    }
    let flag = bytes[p];
    let comm_a = Group { v: cs[0].v };
    let comm_b = Group { v: cs[1].v };
    let comm_c = Group { v: cs[2].v };
    if flag == 0 {
        let fm = FirstRoundMessage { comm_a, comm_b, comm_c, randomness: None };
        proof {
            assert(dec_vals(bytes@, pos as int, 3).unwrap().0 =~= seq![cs@[0]@, cs@[1]@, cs@[2]@]);
        }
        Some((fm, p + 1))
    } else if flag == 1 {
        let (rs, p2) = match read_scalars(bytes, p + 1, 5) {
            Some(t) => t,
            None => {
                return None;
            },
        };
        let fm = FirstRoundMessage {
            comm_a,
            comm_b,
            comm_c,
            randomness: Some(
                FirstRoundRandomness {
                    comm_r_a: Group { v: rs[0].v },
                    comm_r_b: Group { v: rs[1].v },
                    comm_r_c: Group { v: rs[2].v },
                    comm_1: Group { v: rs[3].v },
                    comm_2: Group { v: rs[4].v },
                },
            ),
        };
        proof {
            assert(dec_vals(bytes@, pos as int, 3).unwrap().0 =~= seq![cs@[0]@, cs@[1]@, cs@[2]@]);
            assert(dec_vals(bytes@, p as int + 1, 5).unwrap().0 =~= seq![
                rs@[0]@,
                rs@[1]@,
                rs@[2]@,
                rs@[3]@,
                rs@[4]@,
            ]);
        }
        Some((fm, p2))
    } else {
        None
    }
}

/// Reads a second-round message at a position.
fn read_second_msg(bytes: &Vec<u8>, pos: usize) -> (r: Option<(SecondRoundMessage, usize)>)
    requires
        pos <= bytes@.len(),
    ensures
        r is Some ==> dec_second_msg(bytes@, pos as int) == Some(
            (r.unwrap().0@, r.unwrap().1 as int),
        ) && r.unwrap().0.wf() && r.unwrap().1 <= bytes@.len(),
        r is None ==> dec_second_msg(bytes@, pos as int) is None,
{
    let (n, p0) = match read_u64(bytes, pos) {
        Some(t) => t,
        None => {
            return None;
        },
    };
    let (bw, p) = match read_scalars(bytes, p0, n) {
        Some(t) => t,
        None => {
            return None;
        },
    };
    if p >= bytes.len() {
        return None;
    }
    let flag = bytes[p];
    if flag == 0 {
        let sm = SecondRoundMessage {
            blinded_witness: CommitmentFullAssignment { blinded_assignment: bw },
            randomness: None,
        };
        Some((sm, p + 1))
    } else if flag == 1 {
        let (rs, p2) = match read_scalars(bytes, p + 1, 4) {
            Some(t) => t,
            None => {
                return None;
            },
        };
        let sm = SecondRoundMessage {
            blinded_witness: CommitmentFullAssignment { blinded_assignment: bw },
            randomness: Some(
                SecondRoundRandomness {
                    sigma_a: rs[0],
                    sigma_b: rs[1],
                    sigma_c: rs[2],
                    sigma_o: rs[3],
                },
            ),
        };
        proof {
            assert(dec_vals(bytes@, p as int + 1, 4).unwrap().0 =~= seq![
                rs@[0]@,
                rs@[1]@,
                rs@[2]@,
                rs@[3]@,
            ]);
        }
        Some((sm, p2))
    } else {
        None
    }
}

/// Deserializes a proof from its canonical bytes. Returns the proof exactly
/// when the bytes are one whole canonical proof encoding.
pub fn deserialize_proof(bytes: &Vec<u8>) -> (r: Option<Proof>)
    ensures
        r is Some ==> dec_proof(bytes@) == Some(r.unwrap()@) && r.unwrap().wf(),
        r is None ==> dec_proof(bytes@) is None,
{
    let (fm, p1) = match read_first_msg(bytes, 0) {
        Some(t) => t,
        None => {
            return None;
        },
    };
    let (sm, p2) = match read_second_msg(bytes, p1) {
        Some(t) => t,
        None => {
            return None;
        },
    };
    if p2 != bytes.len() {
        return None;
    }
    Some(Proof { first_msg: fm, second_msg: sm })
}

/// Deserializes an index descriptor from its canonical bytes. Returns the
/// descriptor exactly when the bytes are one whole canonical descriptor
/// encoding.
pub fn deserialize_index_info(bytes: &Vec<u8>) -> (r: Option<IndexInfo>)
    ensures
        r is Some ==> dec_index_info_full(bytes@) == Some(r.unwrap()@) && r.unwrap()@.wf(),
        r is None ==> dec_index_info_full(bytes@) is None,
{
    let (info, p) = match read_index_info(bytes, 0) {
        Some(t) => t,
        None => {
            return None;
        },
    };
    if p != bytes.len() {
        return None;
    }
    Some(info)
}

/// Serializes a proof to its canonical bytes.
pub fn serialize_proof(p: &Proof) -> (r: Vec<u8>)
    ensures
        r@ == enc_proof(p@),
{
    let mut out: Vec<u8> = Vec::new();
    write_first_msg(&mut out, &p.first_msg);
    write_second_msg(&mut out, &p.second_msg);
    proof {
        assert(out@ =~= enc_proof(p@));
    }
    out
}

/// Serializes an index descriptor to its canonical bytes.
pub fn serialize_index_info(info: &IndexInfo) -> (r: Vec<u8>)
    ensures
        r@ == enc_index_info(info@),
{
    let mut out: Vec<u8> = Vec::new();
    write_index_info(&mut out, info);
    proof {
        assert(out@ =~= enc_index_info(info@));
    }
    out
}

/// One value's encoding is eight bytes long.
proof fn lemma_enc_val_len(v: int)
    ensures
        enc_val(v).len() == 8,
{
    lemma_auto_spec_u64_to_from_le_bytes();
}

/// A value sequence's encoding is eight bytes per value.
proof fn lemma_enc_vals_len(vs: Seq<int>)
    ensures
        enc_vals(vs).len() == 8 * vs.len(),
    decreases vs.len(),
{
    if vs.len() > 0 {
        lemma_enc_vals_len(vs.drop_last());
        lemma_enc_val_len(vs.last());
    }
}

/// A subrange equal to a concatenation splits into subranges equal to the
/// parts.
proof fn lemma_subrange_split(bytes: Seq<u8>, pos: int, s1: Seq<u8>, s2: Seq<u8>)
    requires
        0 <= pos,
        pos + s1.len() + s2.len() <= bytes.len(),
        bytes.subrange(pos, pos + s1.len() + s2.len()) == s1 + s2,
    ensures
        bytes.subrange(pos, pos + s1.len() as int) == s1,
        bytes.subrange(pos + s1.len(), pos + s1.len() + s2.len()) == s2,
{
    let whole = bytes.subrange(pos, pos + s1.len() + s2.len());
    assert forall|i: int| 0 <= i < s1.len() implies bytes.subrange(pos, pos + s1.len() as int)[i]
        == s1[i] by {
        assert(whole[i] == (s1 + s2)[i]);
    }
    assert(bytes.subrange(pos, pos + s1.len() as int) =~= s1);
    assert forall|i: int| 0 <= i < s2.len() implies bytes.subrange(
        pos + s1.len(),
        pos + s1.len() + s2.len(),
    )[i] == s2[i] by {
        assert(whole[s1.len() + i] == (s1 + s2)[s1.len() + i]);
    }
    assert(bytes.subrange(pos + s1.len(), pos + s1.len() + s2.len()) =~= s2);
}

/// Reading back one encoded machine word yields the word.
proof fn lemma_dec_u64_enc(bytes: Seq<u8>, pos: int, x: u64)
    requires
        0 <= pos,
        pos + 8 <= bytes.len(),
        bytes.subrange(pos, pos + 8) == enc_u64(x),
    ensures
        dec_u64(bytes, pos) == Some((x, pos + 8)),
{
    lemma_auto_spec_u64_to_from_le_bytes();
}

/// Reading back one encoded canonical value yields the value.
proof fn lemma_dec_val_enc(bytes: Seq<u8>, pos: int, v: int)
    requires
        in_field(v),
        0 <= pos,
        pos + 8 <= bytes.len(),
        bytes.subrange(pos, pos + 8) == enc_val(v),
    ensures
        dec_val(bytes, pos) == Some((v, pos + 8)),
{
    lemma_dec_u64_enc(bytes, pos, v as u64);
}

/// Reading back an encoded sequence of canonical values yields the sequence.
proof fn lemma_dec_vals_enc(bytes: Seq<u8>, pos: int, vs: Seq<int>)
    requires
        crate::matrix::in_field_seq(vs),
        0 <= pos,
        pos + 8 * vs.len() <= bytes.len(),
        bytes.subrange(pos, pos + 8 * vs.len()) == enc_vals(vs),
    ensures
        dec_vals(bytes, pos, vs.len()) == Some((vs, pos + 8 * vs.len())),
    decreases vs.len(),
{
    if vs.len() == 0 {
        assert(vs =~= Seq::<int>::empty());
    } else {
        let front = vs.drop_last();
        lemma_enc_vals_len(front);
        lemma_enc_val_len(vs.last());
        lemma_subrange_split(bytes, pos, enc_vals(front), enc_val(vs.last()));
        lemma_dec_vals_enc(bytes, pos, front);
        lemma_dec_val_enc(bytes, pos + 8 * front.len(), vs.last());
        assert(front.push(vs.last()) =~= vs);
    }
}

/// A failed element read fails every longer sequence read.
proof fn lemma_dec_vals_fail(bytes: Seq<u8>, pos: int, k: nat, n: nat)
    requires
        k < n,
        dec_vals(bytes, pos, k) is Some,
        dec_val(bytes, dec_vals(bytes, pos, k).unwrap().1) is None,
    ensures
        dec_vals(bytes, pos, n) is None,
    decreases n,
{
    if n > k + 1 {
        lemma_dec_vals_fail(bytes, pos, k, (n - 1) as nat);
    }
}

/// The concatenated encodings of three values, as a sequence encoding.
proof fn lemma_enc_vals3(a: int, b: int, c: int)
    ensures
        enc_vals(seq![a, b, c]) == enc_val(a) + enc_val(b) + enc_val(c),
{
    let s = seq![a, b, c];
    assert(s.drop_last() =~= seq![a, b]);
    assert(s.last() == c);
    assert(seq![a, b].drop_last() =~= seq![a]);
    assert(seq![a, b].last() == b);
    assert(seq![a].len() == 1);
    assert(seq![a].drop_last() =~= Seq::<int>::empty());
    assert(seq![a].last() == a);
    assert(enc_vals(Seq::<int>::empty()) == Seq::<u8>::empty());
    assert(enc_vals(seq![a]) == enc_vals(seq![a].drop_last()) + enc_val(seq![a].last()));
    assert(enc_vals(seq![a]) == Seq::<u8>::empty() + enc_val(a));
    assert(Seq::<u8>::empty() + enc_val(a) =~= enc_val(a));
    assert(enc_vals(seq![a, b]) == enc_val(a) + enc_val(b));
    assert(enc_vals(s) == enc_val(a) + enc_val(b) + enc_val(c));
}

/// The concatenated encodings of four values, as a sequence encoding.
proof fn lemma_enc_vals4(a: int, b: int, c: int, d: int)
    ensures
        enc_vals(seq![a, b, c, d]) == enc_val(a) + enc_val(b) + enc_val(c) + enc_val(d),
{
    let s = seq![a, b, c, d];
    assert(s.drop_last() =~= seq![a, b, c]);
    assert(s.last() == d);
    lemma_enc_vals3(a, b, c);
    assert(enc_vals(s) == enc_val(a) + enc_val(b) + enc_val(c) + enc_val(d));
}

/// The concatenated encodings of five values, as a sequence encoding.
proof fn lemma_enc_vals5(a: int, b: int, c: int, d: int, e: int)
    ensures
        enc_vals(seq![a, b, c, d, e]) == enc_val(a) + enc_val(b) + enc_val(c) + enc_val(d)
            + enc_val(e),
{
    let s = seq![a, b, c, d, e];
    assert(s.drop_last() =~= seq![a, b, c, d]);
    assert(s.last() == e);
    lemma_enc_vals4(a, b, c, d);
    assert(enc_vals(s) == enc_val(a) + enc_val(b) + enc_val(c) + enc_val(d) + enc_val(e));
}

/// Reading back an encoded first-round message yields the message.
proof fn lemma_dec_first_msg_enc(bytes: Seq<u8>, pos: int, fm: FirstRoundMessageView)
    requires
        in_field(fm.comm_a),
        in_field(fm.comm_b),
        in_field(fm.comm_c),
        match fm.randomness {
            Some(r) => in_field(r.comm_r_a) && in_field(r.comm_r_b) && in_field(r.comm_r_c)
                && in_field(r.comm_1) && in_field(r.comm_2),
            None => true,
        },
        0 <= pos,
        pos + enc_first_msg(fm).len() <= bytes.len(),
        bytes.subrange(pos, pos + enc_first_msg(fm).len()) == enc_first_msg(fm),
    ensures
        dec_first_msg(bytes, pos) == Some((fm, pos + enc_first_msg(fm).len())),
{
    let cs = seq![fm.comm_a, fm.comm_b, fm.comm_c];
    lemma_enc_vals3(fm.comm_a, fm.comm_b, fm.comm_c);
    lemma_enc_vals_len(cs);
    match fm.randomness {
        None => {
            let tail = seq![0u8];
            assert(enc_first_msg(fm) =~= enc_vals(cs) + tail);
            lemma_subrange_split(bytes, pos, enc_vals(cs), tail);
            lemma_dec_vals_enc(bytes, pos, cs);
            assert(bytes[pos + 24] == 0u8) by {
                assert(bytes.subrange(pos + 24, pos + 25)[0] == tail[0]);
            }
        },
        Some(r) => {
            let rs = seq![r.comm_r_a, r.comm_r_b, r.comm_r_c, r.comm_1, r.comm_2];
            lemma_enc_vals5(r.comm_r_a, r.comm_r_b, r.comm_r_c, r.comm_1, r.comm_2);
            lemma_enc_vals_len(rs);
            let tail = seq![1u8] + enc_vals(rs);
            assert(enc_first_msg(fm) =~= enc_vals(cs) + tail);
            lemma_subrange_split(bytes, pos, enc_vals(cs), tail);
            lemma_dec_vals_enc(bytes, pos, cs);
            assert(bytes[pos + 24] == 1u8) by {
                assert(bytes.subrange(pos + 24, pos + 24 + tail.len() as int)[0] == tail[0]);
            }
            assert forall|i: int| 0 <= i < 40 implies bytes.subrange(pos + 25, pos + 25 + 40)[i]
                == enc_vals(rs)[i] by {
                assert(bytes.subrange(pos + 24, pos + 24 + tail.len() as int)[i + 1] == tail[i
                    + 1]);
            }
            assert(bytes.subrange(pos + 25, pos + 25 + 40) =~= enc_vals(rs));
            lemma_dec_vals_enc(bytes, pos + 25, rs);
        },
    }
}

/// Reading back an encoded second-round message yields the message.
proof fn lemma_dec_second_msg_enc(bytes: Seq<u8>, pos: int, sm: SecondRoundMessageView)
    requires
        crate::matrix::in_field_seq(sm.blinded_witness),
        sm.blinded_witness.len() <= usize::MAX,
        match sm.randomness {
            Some(r) => in_field(r.sigma_a) && in_field(r.sigma_b) && in_field(r.sigma_c)
                && in_field(r.sigma_o),
            None => true,
        },
        0 <= pos,
        pos + enc_second_msg(sm).len() <= bytes.len(),
        bytes.subrange(pos, pos + enc_second_msg(sm).len()) == enc_second_msg(sm),
    ensures
        dec_second_msg(bytes, pos) == Some((sm, pos + enc_second_msg(sm).len())),
{
    let bw = sm.blinded_witness;
    lemma_enc_vals_len(bw);
    lemma_auto_spec_u64_to_from_le_bytes();
    let body = enc_u64(bw.len() as u64) + enc_vals(bw);
    assert(enc_val_vec(bw) == body);
    match sm.randomness {
        None => {
            let tail = seq![0u8];
            assert(enc_second_msg(sm) =~= body + tail);
            lemma_subrange_split(bytes, pos, body, tail);
            lemma_subrange_split(bytes, pos, enc_u64(bw.len() as u64), enc_vals(bw));
            lemma_dec_u64_enc(bytes, pos, bw.len() as u64);
            lemma_dec_vals_enc(bytes, pos + 8, bw);
            assert(bytes[pos + 8 + 8 * bw.len()] == 0u8) by {
                assert(bytes.subrange(
                    pos + body.len(),
                    pos + body.len() + 1,
                )[0] == tail[0]);
            }
        },
        Some(r) => {
            let rs = seq![r.sigma_a, r.sigma_b, r.sigma_c, r.sigma_o];
            lemma_enc_vals4(r.sigma_a, r.sigma_b, r.sigma_c, r.sigma_o);
            lemma_enc_vals_len(rs);
            let tail = seq![1u8] + enc_vals(rs);
            assert(enc_second_msg(sm) =~= body + tail);
            lemma_subrange_split(bytes, pos, body, tail);
            lemma_subrange_split(bytes, pos, enc_u64(bw.len() as u64), enc_vals(bw));
            lemma_dec_u64_enc(bytes, pos, bw.len() as u64);
            lemma_dec_vals_enc(bytes, pos + 8, bw);
            let p = pos + 8 + 8 * bw.len();
            assert(bytes[p] == 1u8) by {
                assert(bytes.subrange(pos + body.len(), pos + body.len() + tail.len() as int)[0]
                    == tail[0]);
            }
            assert forall|i: int| 0 <= i < 32 implies bytes.subrange(p + 1, p + 1 + 32)[i]
                == enc_vals(rs)[i] by {
                assert(bytes.subrange(pos + body.len(), pos + body.len() + tail.len() as int)[i
                    + 1] == tail[i + 1]);
            }
            assert(bytes.subrange(p + 1, p + 1 + 32) =~= enc_vals(rs));
            lemma_dec_vals_enc(bytes, p + 1, rs);
        },
    }
}

/// Round trip: deserializing a serialized proof yields the proof.
pub proof fn lemma_proof_round_trip(v: ProofView)
    requires
        v.wf(),
        v.second.blinded_witness.len() <= usize::MAX,
    ensures
        dec_proof(enc_proof(v)) == Some(v),
{
    let bytes = enc_proof(v);
    assert(bytes.subrange(0, bytes.len() as int) =~= bytes);
    lemma_subrange_split(bytes, 0, enc_first_msg(v.first), enc_second_msg(v.second));
    lemma_dec_first_msg_enc(bytes, 0, v.first);
    lemma_dec_second_msg_enc(bytes, enc_first_msg(v.first).len() as int, v.second);
}

/// Reading back an encoded index descriptor yields the descriptor.
proof fn lemma_dec_index_info_enc(bytes: Seq<u8>, pos: int, v: IndexInfoView)
    requires
        v.wf(),
        v.num_variables <= usize::MAX,
        v.num_constraints <= usize::MAX,
        0 <= pos,
        pos + enc_index_info(v).len() <= bytes.len(),
        bytes.subrange(pos, pos + enc_index_info(v).len()) == enc_index_info(v),
    ensures
        enc_index_info(v).len() == 56,
        dec_index_info(bytes, pos) == Some((v, pos + 56)),
{
    lemma_auto_spec_u64_to_from_le_bytes();
    let h1 = enc_u64(v.num_variables as u64);
    let h2 = enc_u64(v.num_constraints as u64);
    let h3 = enc_u64(v.num_instance_variables as u64);
    assert(enc_index_info(v) =~= h1 + (h2 + (h3 + v.matrices_hash)));
    lemma_subrange_split(bytes, pos, h1, h2 + (h3 + v.matrices_hash));
    lemma_subrange_split(bytes, pos + 8, h2, h3 + v.matrices_hash);
    lemma_subrange_split(bytes, pos + 16, h3, v.matrices_hash);
    lemma_dec_u64_enc(bytes, pos, v.num_variables as u64);
    lemma_dec_u64_enc(bytes, pos + 8, v.num_constraints as u64);
    lemma_dec_u64_enc(bytes, pos + 16, v.num_instance_variables as u64);
}

/// Round trip: deserializing a serialized index descriptor yields the
/// descriptor.
pub proof fn lemma_index_info_round_trip(v: IndexInfoView)
    requires
        v.wf(),
        v.num_variables <= usize::MAX,
        v.num_constraints <= usize::MAX,
    ensures
        dec_index_info_full(enc_index_info(v)) == Some(v),
{
    let bytes = enc_index_info(v);
    assert(bytes.subrange(0, bytes.len() as int) =~= bytes);
    lemma_dec_index_info_enc(bytes, 0, v);
}

/// Serializes an index (prover or verifier) key to its canonical bytes.
pub fn serialize_index_key(k: &IndexProverKey) -> (r: Vec<u8>)
    ensures
        r@ == enc_key(k@),
{
    let mut out: Vec<u8> = Vec::new();
    write_index_info(&mut out, &k.index_info);
    write_matrix(&mut out, &k.a);
    write_matrix(&mut out, &k.b);
    write_matrix(&mut out, &k.c);
    write_ck(&mut out, &k.ck);
    proof {
        assert(out@ =~= enc_key(k@));
    }
    out
}

} // verus!
