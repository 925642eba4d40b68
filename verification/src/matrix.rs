//! Sparse constraint matrices and the matrix-vector algebra of the protocol.
//!
//! A matrix is a sequence of sparse rows; a row is an ordered sequence of
//! (coefficient, column index) pairs over the combined (input, witness) index
//! space. Specs are stated over the integer model of a matrix and over plain
//! integer vectors.

use vstd::prelude::*;
use crate::field::{fadd, fmul, in_field, lemma_fadd_in_field, lemma_fmul_in_field, lemma_fadd_zero,
    lemma_fmul_zero, lemma_fmul_one, lemma_linear_step, lemma_cross_expand, lemma_horner3, Scalar};

verus! {

/// A sparse constraint matrix: rows of (coefficient, column index) pairs.
pub type Matrix = Vec<Vec<(Scalar, usize)>>;

/// The values of a sequence of field elements.
pub open spec fn vals(s: Seq<Scalar>) -> Seq<int> {
    s.map_values(|x: Scalar| x@)
}

/// Canonicity of every element of a sequence.
pub open spec fn scalars_wf(s: Seq<Scalar>) -> bool {
    forall|i: int| 0 <= i < s.len() ==> (#[trigger] s[i]).wf()
}

/// Every coordinate is a canonical representative.
pub open spec fn in_field_seq(v: Seq<int>) -> bool {
    forall|i: int| 0 <= i < v.len() ==> in_field(#[trigger] v[i])
}

/// Pointwise vector addition.
pub open spec fn vec_add(x: Seq<int>, y: Seq<int>) -> Seq<int>
    recommends
        x.len() == y.len(),
{
    Seq::new(x.len(), |i: int| fadd(x[i], y[i]))
}

/// Pointwise scaling of a vector by a field element.
pub open spec fn vec_scale(c: int, x: Seq<int>) -> Seq<int> {
    Seq::new(x.len(), |i: int| fmul(c, x[i]))
}

/// The elementwise (Hadamard) product.
pub open spec fn vec_hadamard(x: Seq<int>, y: Seq<int>) -> Seq<int>
    recommends
        x.len() == y.len(),
{
    Seq::new(x.len(), |i: int| fmul(x[i], y[i]))
}

/// The all-zero vector.
pub open spec fn zeros(n: nat) -> Seq<int> {
    Seq::new(n, |i: int| 0)
}

/// The integer model of one sparse row.
pub open spec fn row_model(r: Seq<(Scalar, usize)>) -> Seq<(int, int)> {
    r.map_values(|p: (Scalar, usize)| (p.0@, p.1 as int))
}

/// The integer model of a matrix.
pub open spec fn matrix_model(m: Seq<Vec<(Scalar, usize)>>) -> Seq<Seq<(int, int)>> {
    m.map_values(|row: Vec<(Scalar, usize)>| row_model(row@))
}

/// Well-formedness of a row over `cols` columns: canonical coefficients and
/// in-range column indices.
pub open spec fn row_wf(r: Seq<(int, int)>, cols: int) -> bool {
    forall|i: int| 0 <= i < r.len() ==> in_field((#[trigger] r[i]).0) && 0 <= r[i].1 < cols
}

/// Well-formedness of a matrix over `cols` columns.
pub open spec fn matrix_wf(m: Seq<Seq<(int, int)>>, cols: int) -> bool {
    forall|i: int| 0 <= i < m.len() ==> row_wf(#[trigger] m[i], cols)
}

/// The inner product of a sparse row with a full vector.
pub open spec fn spec_inner_prod(r: Seq<(int, int)>, z: Seq<int>) -> int
    decreases r.len(),
{
    if r.len() == 0 {
        0
    } else {
        fadd(spec_inner_prod(r.drop_last(), z), fmul(r.last().0, z[r.last().1]))
    }
}

/// The sparse matrix-vector product.
pub open spec fn spec_mat_vec(m: Seq<Seq<(int, int)>>, z: Seq<int>) -> Seq<int> {
    Seq::new(m.len(), |i: int| spec_inner_prod(m[i], z))
}

/// A row inner product over canonical values is canonical.
pub proof fn lemma_inner_prod_in_field(r: Seq<(int, int)>, z: Seq<int>)
    requires
        row_wf(r, z.len() as int),
        in_field_seq(z),
    ensures
        in_field(spec_inner_prod(r, z)),
    decreases r.len(),
{
    if r.len() == 0 {
    } else {
        lemma_inner_prod_in_field(r.drop_last(), z);
        lemma_fmul_in_field(r.last().0, z[r.last().1]);
        lemma_fadd_in_field(spec_inner_prod(r.drop_last(), z), fmul(r.last().0, z[r.last().1]));
    }
}

/// A matrix-vector product over canonical values is canonical.
pub proof fn lemma_mat_vec_in_field(m: Seq<Seq<(int, int)>>, z: Seq<int>)
    requires
        matrix_wf(m, z.len() as int),
        in_field_seq(z),
    ensures
        in_field_seq(spec_mat_vec(m, z)),
{
    assert forall|i: int| 0 <= i < m.len() implies in_field(#[trigger] spec_mat_vec(m, z)[i]) by {
        lemma_inner_prod_in_field(m[i], z);
    }
}

/// Linearity of the row inner product: evaluating on a blinded vector splits
/// into the unblinded evaluation plus the challenge times the randomizer's
/// evaluation.
pub proof fn lemma_inner_prod_linear(r: Seq<(int, int)>, x: Seq<int>, y: Seq<int>, g: int)
    requires
        x.len() == y.len(),
        row_wf(r, x.len() as int),
        in_field_seq(x),
        in_field_seq(y),
        in_field(g),
    ensures
        spec_inner_prod(r, vec_add(x, vec_scale(g, y))) == fadd(
            spec_inner_prod(r, x),
            fmul(g, spec_inner_prod(r, y)),
        ),
    decreases r.len(),
{
    let z = vec_add(x, vec_scale(g, y));
    if r.len() == 0 {
        lemma_fmul_zero(g);
        lemma_fadd_zero(0);
    } else {
        let rd = r.drop_last();
        let c = r.last().0;
        let idx = r.last().1;
        lemma_inner_prod_linear(rd, x, y, g);
        lemma_inner_prod_in_field(rd, x);
        lemma_inner_prod_in_field(rd, y);
        assert(z[idx] == fadd(x[idx], fmul(g, y[idx])));
        lemma_linear_step(spec_inner_prod(rd, x), spec_inner_prod(rd, y), c, x[idx], y[idx], g);
        assert(z.len() == x.len());
        assert(row_wf(rd, x.len() as int));
    }
}

/// Linearity of the matrix-vector product.
pub proof fn lemma_mat_vec_linear(m: Seq<Seq<(int, int)>>, x: Seq<int>, y: Seq<int>, g: int)
    requires
        x.len() == y.len(),
        matrix_wf(m, x.len() as int),
        in_field_seq(x),
        in_field_seq(y),
        in_field(g),
    ensures
        spec_mat_vec(m, vec_add(x, vec_scale(g, y))) == vec_add(
            spec_mat_vec(m, x),
            vec_scale(g, spec_mat_vec(m, y)),
        ),
{
    let lhs = spec_mat_vec(m, vec_add(x, vec_scale(g, y)));
    let rhs = vec_add(spec_mat_vec(m, x), vec_scale(g, spec_mat_vec(m, y)));
    assert forall|i: int| 0 <= i < m.len() implies lhs[i] == rhs[i] by {
        lemma_inner_prod_linear(m[i], x, y, g);
    }
    assert(lhs =~= rhs);
}

/// Splitting the blinded solution vector: leaving the instance part unblinded
/// equals blinding the full vector with a randomizer that is zero on the
/// instance part.
pub proof fn lemma_blind_split(input: Seq<int>, w: Seq<int>, r: Seq<int>, g: int)
    requires
        w.len() == r.len(),
        in_field_seq(input),
        in_field_seq(w),
        in_field_seq(r),
        in_field(g),
    ensures
        input + vec_add(w, vec_scale(g, r)) == vec_add(input + w, vec_scale(g, zeros(input.len()) + r)),
{
    let lhs = input + vec_add(w, vec_scale(g, r));
    let rhs = vec_add(input + w, vec_scale(g, zeros(input.len()) + r));
    assert forall|i: int| 0 <= i < lhs.len() implies lhs[i] == rhs[i] by {
        if i < input.len() {
            lemma_fmul_zero(g);
            lemma_fadd_zero(input[i]);
        }
    }
    assert(lhs =~= rhs);
}

/// The Hadamard product of two blinded vectors expands into the unblinded
/// product, plus the challenge times the cross term, plus the challenge's
/// square times the randomizer product, read in nested form.
pub proof fn lemma_hadamard_blinded(x: Seq<int>, y: Seq<int>, a: Seq<int>, b: Seq<int>, g: int)
    requires
        x.len() == y.len(),
        x.len() == a.len(),
        x.len() == b.len(),
        in_field_seq(x),
        in_field_seq(y),
        in_field_seq(a),
        in_field_seq(b),
        in_field(g),
    ensures
        vec_hadamard(vec_add(x, vec_scale(g, a)), vec_add(y, vec_scale(g, b))) == vec_add(
            vec_hadamard(x, y),
            vec_scale(
                g,
                vec_add(
                    vec_add(vec_hadamard(x, b), vec_hadamard(y, a)),
                    vec_scale(g, vec_hadamard(a, b)),
                ),
            ),
        ),
{
    let lhs = vec_hadamard(vec_add(x, vec_scale(g, a)), vec_add(y, vec_scale(g, b)));
    let cross = vec_add(vec_hadamard(x, b), vec_hadamard(y, a));
    let rhs = vec_add(vec_hadamard(x, y), vec_scale(g, vec_add(cross, vec_scale(g, vec_hadamard(a, b)))));
    assert forall|i: int| 0 <= i < lhs.len() implies lhs[i] == rhs[i] by {
        lemma_cross_expand(x[i], y[i], a[i], b[i], g);
        lemma_fmul_in_field(x[i], y[i]);
        lemma_fmul_in_field(x[i], b[i]);
        lemma_fmul_in_field(y[i], a[i]);
        lemma_fmul_in_field(a[i], b[i]);
        lemma_fadd_in_field(fmul(x[i], b[i]), fmul(y[i], a[i]));
        lemma_horner3(fmul(x[i], y[i]), fadd(fmul(x[i], b[i]), fmul(y[i], a[i])), fmul(a[i], b[i]), g);
    }
    assert(lhs =~= rhs);
}

/// The inner product of one sparse row against the combined (input, witness)
/// vector, skipping the multiplication when a coefficient is the
/// multiplicative identity.
pub fn inner_prod(row: &Vec<(Scalar, usize)>, input: &Vec<Scalar>, witness: &Vec<Scalar>) -> (r:
    Scalar)
    requires
        row_wf(row_model(row@), input@.len() + witness@.len() as int),
        scalars_wf(input@),
        scalars_wf(witness@),
    ensures
        r.wf(),
        r@ == spec_inner_prod(row_model(row@), vals(input@) + vals(witness@)),
{
    let ghost z = vals(input@) + vals(witness@);
    let mut acc = Scalar::zero();
    let mut k: usize = 0;
    while k < row.len()
        invariant
            k <= row@.len(),
            row_wf(row_model(row@), input@.len() + witness@.len() as int),
            scalars_wf(input@),
            scalars_wf(witness@),
            z == vals(input@) + vals(witness@),
            acc.wf(),
            acc@ == spec_inner_prod(row_model(row@).take(k as int), z),
        decreases row@.len() - k,
    {
        let (coeff, i) = row[k];
        assert(row_model(row@)[k as int] == (coeff@, i as int));
        let tmp = if i < input.len() {
            input[i]
        } else {
            witness[i - input.len()]
        };
        assert(tmp@ == z[i as int]);
        let term = if coeff.v == 1 {
            proof {
                lemma_fmul_one(tmp@);
            }
            tmp
        } else {
            coeff.mul(tmp)
        };
        let new_acc = acc.add(term);
        proof {
            let taken = row_model(row@).take(k as int + 1);
            assert(taken.drop_last() =~= row_model(row@).take(k as int));
            assert(taken.last() == (coeff@, i as int));
        }
        acc = new_acc;
        k = k + 1;
    }
    proof {
        assert(row_model(row@).take(row@.len() as int) =~= row_model(row@));
    }
    acc
}

/// The sparse matrix-vector product `M * (input, witness)`, one row at a time.
pub fn matrix_vec_mul(matrix: &Matrix, input: &Vec<Scalar>, witness: &Vec<Scalar>) -> (r: Vec<
    Scalar>)
    requires
        matrix_wf(matrix_model(matrix@), input@.len() + witness@.len() as int),
        scalars_wf(input@),
        scalars_wf(witness@),
    ensures
        scalars_wf(r@),
        vals(r@) == spec_mat_vec(matrix_model(matrix@), vals(input@) + vals(witness@)),
{
    let ghost z = vals(input@) + vals(witness@);
    let mut out: Vec<Scalar> = Vec::new();
    let mut k: usize = 0;
    while k < matrix.len()
        invariant
            k <= matrix@.len(),
            matrix_wf(matrix_model(matrix@), input@.len() + witness@.len() as int),
            scalars_wf(input@),
            scalars_wf(witness@),
            z == vals(input@) + vals(witness@),
            scalars_wf(out@),
            out@.len() == k,
            vals(out@) == spec_mat_vec(matrix_model(matrix@), z).take(k as int),
        decreases matrix@.len() - k,
    {
        assert(matrix_model(matrix@)[k as int] == row_model(matrix@[k as int]@));
        let row_result = inner_prod(&matrix[k], input, witness);
        out.push(row_result);
        proof {
            assert(vals(out@) =~= spec_mat_vec(matrix_model(matrix@), z).take(k as int + 1));
        }
        k = k + 1;
    }
    proof {
        assert(spec_mat_vec(matrix_model(matrix@), z).take(matrix@.len() as int) =~= spec_mat_vec(
            matrix_model(matrix@),
            z,
        ));
    }
    out
}

/// A pointwise sum of canonical vectors is canonical.
pub proof fn lemma_vec_add_in_field(x: Seq<int>, y: Seq<int>)
    requires
        x.len() == y.len(),
        in_field_seq(x),
        in_field_seq(y),
    ensures
        in_field_seq(vec_add(x, y)),
{
    assert forall|i: int| 0 <= i < x.len() implies in_field(#[trigger] vec_add(x, y)[i]) by {
        lemma_fadd_in_field(x[i], y[i]);
    }
}

/// A scaled canonical vector is canonical.
pub proof fn lemma_vec_scale_in_field(c: int, x: Seq<int>)
    requires
        in_field(c),
        in_field_seq(x),
    ensures
        in_field_seq(vec_scale(c, x)),
{
    assert forall|i: int| 0 <= i < x.len() implies in_field(#[trigger] vec_scale(c, x)[i]) by {
        lemma_fmul_in_field(c, x[i]);
    }
}

/// A Hadamard product of canonical vectors is canonical.
pub proof fn lemma_vec_hadamard_in_field(x: Seq<int>, y: Seq<int>)
    requires
        x.len() == y.len(),
        in_field_seq(x),
        in_field_seq(y),
    ensures
        in_field_seq(vec_hadamard(x, y)),
{
    assert forall|i: int| 0 <= i < x.len() implies in_field(#[trigger] vec_hadamard(x, y)[i]) by {
        lemma_fmul_in_field(x[i], y[i]);
    }
}

/// Pointwise vector addition.
pub fn vector_add(x: &Vec<Scalar>, y: &Vec<Scalar>) -> (r: Vec<Scalar>)
    requires
        x@.len() == y@.len(),
        scalars_wf(x@),
        scalars_wf(y@),
    ensures
        scalars_wf(r@),
        r@.len() == x@.len(),
        vals(r@) == vec_add(vals(x@), vals(y@)),
{
    let mut out: Vec<Scalar> = Vec::new();
    let mut k: usize = 0;
    while k < x.len()
        invariant
            k <= x@.len(),
            x@.len() == y@.len(),
            scalars_wf(x@),
            scalars_wf(y@),
            scalars_wf(out@),
            out@.len() == k,
            vals(out@) == vec_add(vals(x@), vals(y@)).take(k as int),
        decreases x@.len() - k,
    {
        out.push(x[k].add(y[k]));
        proof {
            assert(vals(out@) =~= vec_add(vals(x@), vals(y@)).take(k as int + 1));
        }
        k = k + 1;
    }
    proof {
        assert(vec_add(vals(x@), vals(y@)).take(x@.len() as int) =~= vec_add(vals(x@), vals(y@)));
    }
    out
}

/// Pointwise scaling of a vector by a field element.
pub fn vector_scale(c: Scalar, x: &Vec<Scalar>) -> (r: Vec<Scalar>)
    requires
        c.wf(),
        scalars_wf(x@),
    ensures
        scalars_wf(r@),
        r@.len() == x@.len(),
        vals(r@) == vec_scale(c@, vals(x@)),
{
    let mut out: Vec<Scalar> = Vec::new();
    let mut k: usize = 0;
    while k < x.len()
        invariant
            k <= x@.len(),
            c.wf(),
            scalars_wf(x@),
            scalars_wf(out@),
            out@.len() == k,
            vals(out@) == vec_scale(c@, vals(x@)).take(k as int),
        decreases x@.len() - k,
    {
        out.push(c.mul(x[k]));
        proof {
            assert(vals(out@) =~= vec_scale(c@, vals(x@)).take(k as int + 1));
        }
        k = k + 1;
    }
    proof {
        assert(vec_scale(c@, vals(x@)).take(x@.len() as int) =~= vec_scale(c@, vals(x@)));
    }
    out
}

/// The elementwise (Hadamard) product of two vectors.
pub fn hadamard_product(x: &Vec<Scalar>, y: &Vec<Scalar>) -> (r: Vec<Scalar>)
    requires
        x@.len() == y@.len(),
        scalars_wf(x@),
        scalars_wf(y@),
    ensures
        scalars_wf(r@),
        r@.len() == x@.len(),
        vals(r@) == vec_hadamard(vals(x@), vals(y@)),
{
    let mut out: Vec<Scalar> = Vec::new();
    let mut k: usize = 0;
    while k < x.len()
        invariant
            k <= x@.len(),
            x@.len() == y@.len(),
            scalars_wf(x@),
            scalars_wf(y@),
            scalars_wf(out@),
            out@.len() == k,
            vals(out@) == vec_hadamard(vals(x@), vals(y@)).take(k as int),
        decreases x@.len() - k,
    {
        out.push(x[k].mul(y[k]));
        proof {
            assert(vals(out@) =~= vec_hadamard(vals(x@), vals(y@)).take(k as int + 1));
        }
        k = k + 1;
    }
    proof {
        assert(vec_hadamard(vals(x@), vals(y@)).take(x@.len() as int) =~= vec_hadamard(
            vals(x@),
            vals(y@),
        ));
    }
    out
}

/// The all-zero vector of a length.
pub fn zero_vector(n: usize) -> (r: Vec<Scalar>)
    ensures
        scalars_wf(r@),
        r@.len() == n,
        vals(r@) == zeros(n as nat),
{
    let mut out: Vec<Scalar> = Vec::new();
    let mut k: usize = 0;
    while k < n
        invariant
            k <= n,
            scalars_wf(out@),
            out@.len() == k,
            forall|i: int| 0 <= i < k ==> (#[trigger] out@[i])@ == 0,
        decreases n - k,
    {
        out.push(Scalar::zero());
        k = k + 1;
    }
    proof {
        assert(vals(out@) =~= zeros(n as nat));
    }
    out
}

/// A copy of a vector of field elements.
pub fn copy_scalars(x: &Vec<Scalar>) -> (r: Vec<Scalar>)
    ensures
        r@ == x@,
{
    let mut out: Vec<Scalar> = Vec::new();
    let mut k: usize = 0;
    while k < x.len()
        invariant
            k <= x@.len(),
            out@ == x@.take(k as int),
        decreases x@.len() - k,
    {
        out.push(x[k]);
        proof {
            assert(out@ =~= x@.take(k as int + 1));
        }
        k = k + 1;
    }
    proof {
        assert(x@.take(x@.len() as int) =~= x@);
    }
    out
}

/// A copy of a sparse matrix, row by row.
pub fn copy_matrix(m: &Matrix) -> (r: Matrix)
    ensures
        r@.len() == m@.len(),
        matrix_model(r@) == matrix_model(m@),
{
    let mut out: Matrix = Vec::new();
    let mut k: usize = 0;
    while k < m.len()
        invariant
            k <= m@.len(),
            out@.len() == k,
            forall|i: int| 0 <= i < k ==> (#[trigger] out@[i])@ == m@[i]@,
        decreases m@.len() - k,
    {
        let row = &m[k];
        let mut new_row: Vec<(Scalar, usize)> = Vec::new();
        let mut j: usize = 0;
        while j < row.len()
            invariant
                j <= row@.len(),
                new_row@ == row@.take(j as int),
            decreases row@.len() - j,
        {
            new_row.push(row[j]);
            proof {
                assert(new_row@ =~= row@.take(j as int + 1));
            }
            j = j + 1;
        }
        proof {
            assert(row@.take(row@.len() as int) =~= row@);
        }
        out.push(new_row);
        k = k + 1;
    }
    proof {
        assert(matrix_model(out@) =~= matrix_model(m@));
    }
    out
}

/// Canonicity of a vector of field elements equals canonicity of its values.
pub proof fn lemma_scalars_wf_vals(s: Seq<Scalar>)
    ensures
        scalars_wf(s) == in_field_seq(vals(s)),
{
    if scalars_wf(s) {
        assert forall|i: int| 0 <= i < vals(s).len() implies in_field(#[trigger] vals(s)[i]) by {
            assert(s[i].wf());
        }
    }
    if in_field_seq(vals(s)) {
        assert forall|i: int| 0 <= i < s.len() implies (#[trigger] s[i]).wf() by {
            assert(in_field(vals(s)[i]));
        }
    }
}

/// Whether a matrix is well formed over `cols` columns: every coefficient
/// canonical and every column index in range.
pub fn matrix_canonical(m: &Matrix, cols: usize) -> (r: bool)
    ensures
        r == matrix_wf(matrix_model(m@), cols as int),
{
    let mut k: usize = 0;
    while k < m.len()
        invariant
            k <= m@.len(),
            forall|i: int| 0 <= i < k ==> row_wf(#[trigger] matrix_model(m@)[i], cols as int),
        decreases m@.len() - k,
    {
        let row = &m[k];
        let mut j: usize = 0;
        while j < row.len()
            invariant
                k < m@.len(),
                row@ == m@[k as int]@,
                j <= row@.len(),
                forall|i: int|
                    0 <= i < j ==> in_field((#[trigger] row_model(row@)[i]).0) && 0 <= row_model(
                        row@,
                    )[i].1 < cols as int,
            decreases row@.len() - j,
        {
            let (coeff, col) = row[j];
            if coeff.v >= crate::field::MODULUS || col >= cols {
                proof {
                    assert(matrix_model(m@)[k as int] == row_model(row@));
                    assert(row_model(row@)[j as int] == (coeff@, col as int));
                    assert(!row_wf(matrix_model(m@)[k as int], cols as int));
                }
                return false;
            }
            j = j + 1;
        }
        proof {
            assert(row_wf(matrix_model(m@)[k as int], cols as int));
        }
        k = k + 1;
    }
    true
}

/// Whether every element of a vector is canonical.
pub fn scalars_canonical(v: &Vec<Scalar>) -> (r: bool)
    ensures
        r == scalars_wf(v@),
{
    let mut k: usize = 0;
    while k < v.len()
        invariant
            k <= v@.len(),
            forall|i: int| 0 <= i < k ==> (#[trigger] v@[i]).wf(),
        decreases v@.len() - k,
    {
        if v[k].v >= crate::field::MODULUS {
            return false;
        }
        k = k + 1;
    }
    true
}

} // verus!
