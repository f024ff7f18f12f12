//! Packed storage for square symmetric matrices.
//!
//! An `n x n` symmetric matrix is stored as its lower triangle: row `i` holds
//! `i + 1` cells, for `n * (n + 1) / 2` cells in all. Reading or writing at
//! `(i, j)` and at `(j, i)` addresses the same physical cell, so the matrix is
//! symmetric by construction. The free functions translate between the packed
//! row representation and a flat vector of length `n * (n + 1) / 2`.

use vstd::prelude::*;

verus! {

/// Number of cells in the lower triangle of an `n x n` matrix:
/// `0 + 1 + ... + n == n * (n + 1) / 2`.
pub open spec fn tri(n: int) -> int
    decreases n,
{
    if n <= 0 {
        0
    } else {
        tri(n - 1) + n
    }
}

pub proof fn lemma_tri_monotonic(a: int, b: int)
    requires
        0 <= a <= b,
    ensures
        tri(a) <= tri(b),
        a < b ==> tri(a) + a < tri(b),
    decreases b,
{
    if a < b {
        lemma_tri_monotonic(a, b - 1);
    }
}

/// The packed offset of the cell `(i, j)` of the lower triangle, `j <= i`.
pub open spec fn packed_index(i: int, j: int) -> int {
    tri(i) + j
}

/// Every position `k` in a packed vector of length `tri(n)` is the image of
/// exactly one cell `(i, j)` with `j <= i < n`; this gives the existence half.
pub proof fn lemma_tri_decomposition(k: int, n: int)
    requires
        0 <= k < tri(n),
    ensures
        exists|i: int, j: int| 0 <= j <= i < n && k == #[trigger] packed_index(i, j),
    decreases n,
{
    if k < tri(n - 1) {
        lemma_tri_decomposition(k, n - 1);
        let (i, j) = choose|i: int, j: int| 0 <= j <= i < n - 1 && k == #[trigger] packed_index(
            i,
            j,
        );
        assert(0 <= j <= i < n && k == packed_index(i, j));
    } else {
        let i = n - 1;
        let j = k - tri(i);
        assert(0 <= j <= i < n && k == packed_index(i, j));
    }
}

/// The sequence-of-rows view of a vector of row vectors.
pub open spec fn rows_view<T>(m: Seq<Vec<T>>) -> Seq<Seq<T>> {
    m.map_values(|r: Vec<T>| r@)
}

/// A sequence of rows has triangular shape: row `i` holds `i + 1` cells.
pub open spec fn is_triangular<T>(rows: Seq<Seq<T>>) -> bool {
    forall|i: int| 0 <= i < rows.len() ==> #[trigger] rows[i].len() == i + 1
}

/// Packing a triangular sequence of rows into a flat sequence, row 0 first.
pub open spec fn spec_pack<T>(rows: Seq<Seq<T>>) -> Seq<T>
    decreases rows.len(),
{
    if rows.len() == 0 {
        Seq::empty()
    } else {
        spec_pack(rows.drop_last()) + rows.last()
    }
}

/// Unpacking a flat sequence of length `tri(n)` into `n` triangular rows.
pub open spec fn spec_unpack<T>(v: Seq<T>, n: int) -> Seq<Seq<T>> {
    Seq::new(n as nat, |i: int| Seq::new((i + 1) as nat, |j: int| v[tri(i) + j]))
}

pub proof fn lemma_pack_len<T>(rows: Seq<Seq<T>>)
    requires
        is_triangular(rows),
    ensures
        spec_pack(rows).len() == tri(rows.len() as int),
    decreases rows.len(),
{
    if rows.len() > 0 {
        assert(is_triangular(rows.drop_last()));
        lemma_pack_len(rows.drop_last());
    }
}

/// The cell `(i, j)` of a triangular row sequence lands at offset
/// `tri(i) + j` of the packed vector.
pub proof fn lemma_pack_index<T>(rows: Seq<Seq<T>>, i: int, j: int)
    requires
        is_triangular(rows),
        0 <= j <= i < rows.len(),
    ensures
        0 <= tri(i) + j < spec_pack(rows).len(),
        spec_pack(rows)[tri(i) + j] == rows[i][j],
    decreases rows.len(),
{
    lemma_pack_len(rows);
    lemma_tri_monotonic(i + 1, rows.len() as int);
    lemma_tri_monotonic(i, i + 1);
    if i + 1 == rows.len() {
        assert(is_triangular(rows.drop_last()));
        lemma_pack_len(rows.drop_last());
        assert(spec_pack(rows)[tri(i) + j] == rows.last()[j]);
    } else {
        assert(is_triangular(rows.drop_last()));
        lemma_pack_index(rows.drop_last(), i, j);
        lemma_pack_len(rows.drop_last());
        lemma_tri_monotonic(i + 1, rows.len() - 1);
        assert(spec_pack(rows)[tri(i) + j] == spec_pack(rows.drop_last())[tri(i) + j]);
    }
}

/// Unpacking a packed vector and packing the result again is the identity.
pub proof fn lemma_unpack_pack_identity<T>(v: Seq<T>, n: int)
    requires
        0 <= n,
        v.len() == tri(n),
    ensures
        spec_pack(spec_unpack(v, n)) == v,
{
    let rows = spec_unpack(v, n);
    assert(is_triangular(rows));
    lemma_pack_len(rows);
    assert forall|k: int| 0 <= k < v.len() implies spec_pack(rows)[k] == v[k] by {
        lemma_tri_decomposition(k, n);
        let (i, j) = choose|i: int, j: int| 0 <= j <= i < n && k == #[trigger] packed_index(
            i,
            j,
        );
        lemma_pack_index(rows, i, j);
        assert(rows[i][j] == v[tri(i) + j]);
    }
    assert(spec_pack(rows) =~= v);
}

/// Packing a triangular row sequence and unpacking the result again is the
/// identity.
pub proof fn lemma_pack_unpack_identity<T>(rows: Seq<Seq<T>>)
    requires
        is_triangular(rows),
    ensures
        spec_unpack(spec_pack(rows), rows.len() as int) == rows,
{
    let n = rows.len() as int;
    let back = spec_unpack(spec_pack(rows), n);
    assert forall|i: int| 0 <= i < n implies back[i] == rows[i] by {
        assert forall|j: int| 0 <= j < rows[i].len() implies back[i][j] == rows[i][j] by {
            lemma_pack_index(rows, i, j);
        }
        assert(back[i] =~= rows[i]);
    }
    assert(back =~= rows);
}

/// Flatten the packed rows of a lower-triangular matrix into a vector of
/// length `n * (n + 1) / 2`, row 0 first.
pub fn vec_from_lowertriang<T>(m: Vec<Vec<T>>) -> (r: Vec<T>)
    ensures
        r@ == spec_pack(rows_view(m@)),
{
    let ghost om = m@;
    let mut m = m;
    let mut r: Vec<T> = Vec::new();
    let n = m.len();
    for idx in 0..n
        invariant
            n == om.len(),
            m@ == om.skip(idx as int),
            r@ == spec_pack(rows_view(om.take(idx as int))),
    {
        let mut row = m.remove(0);
        proof {
            assert(row == om[idx as int]);
            assert(m@ =~= om.skip(idx as int + 1));
            assert(rows_view(om.take(idx as int + 1)).drop_last() =~= rows_view(
                om.take(idx as int),
            ));
            assert(rows_view(om.take(idx as int + 1)).last() == om[idx as int]@);
        }
        r.append(&mut row);
    }
    proof {
        assert(om.take(n as int) =~= om);
    }
    r
}

/// Split a flat vector of length `n * (n + 1) / 2` into the packed rows of a
/// lower-triangular matrix: row `i` receives cells `tri(i) .. tri(i) + i + 1`.
pub fn lowertriang_from_vec<T>(v: Vec<T>, n: usize) -> (r: Vec<Vec<T>>)
    requires
        v@.len() == tri(n as int),
    ensures
        rows_view(r@) == spec_unpack(v@, n as int),
{
    let ghost ov = v@;
    let mut v = v;
    let mut r: Vec<Vec<T>> = Vec::new();
    for i in 0..n
        invariant
            ov.len() == tri(n as int),
            v@ == ov.skip(tri(i as int)),
            r@.len() == i,
            forall|k: int| #![auto]
                0 <= k < i ==> r@[k]@ == spec_unpack(ov, n as int)[k],
    {
        proof {
            lemma_tri_monotonic(i as int, n as int);
        }
        let mut row: Vec<T> = Vec::new();
        let end = i + 1;
        for j in 0..end
            invariant
                end == i + 1,
                i < n,
                ov.len() == tri(n as int),
                tri(i as int) + i + 1 <= tri(n as int),
                v@ == ov.skip(tri(i as int) + j),
                row@.len() == j,
                forall|l: int| #![auto] 0 <= l < j ==> row@[l] == ov[tri(i as int) + l],
        {
            proof {
                lemma_tri_monotonic(0, i as int);
                assert(tri(i as int) + j < tri(n as int));
                assert(v@.len() > 0);
            }
            let cell = v.remove(0);
            proof {
                assert(cell == ov[tri(i as int) + j]);
                assert(v@ =~= ov.skip(tri(i as int) + j + 1));
            }
            row.push(cell);
        }
        r.push(row);
        proof {
            assert(r@[i as int]@ =~= spec_unpack(ov, n as int)[i as int]);
        }
    }
    proof {
        assert(rows_view(r@) =~= spec_unpack(ov, n as int));
    }
    r
}

/// The cells `(i, j)` of the lower triangle of an `n x n` matrix, in packed
/// order: `(0,0), (1,0), (1,1), (2,0), ...`.
pub fn lower_triang_indices(n: usize) -> (r: Vec<(usize, usize)>)
    ensures
        r@.len() == tri(n as int),
        forall|i: int, j: int|
            0 <= j <= i < n ==> r@[#[trigger] packed_index(i, j)] == (i as usize, j as usize),
{
    let mut r: Vec<(usize, usize)> = Vec::new();
    for i in 0..n
        invariant
            r@.len() == tri(i as int),
            forall|a: int, b: int|
                0 <= b <= a < i ==> r@[#[trigger] packed_index(a, b)] == (
                    a as usize,
                    b as usize,
                ),
    {
        let end = i + 1;
        for j in 0..end
            invariant
                end == i + 1,
                i < n,
                r@.len() == tri(i as int) + j,
                forall|a: int, b: int|
                    0 <= b <= a < i ==> r@[#[trigger] packed_index(a, b)] == (
                        a as usize,
                        b as usize,
                    ),
                forall|b: int|
                    0 <= b < j ==> r@[#[trigger] packed_index(i as int, b)] == (i, b as usize),
        {
            r.push((i, j));
            proof {
                lemma_tri_monotonic(0, i as int);
                assert forall|a: int, b: int| 0 <= b <= a < i implies r@[#[trigger] packed_index(
                    a,
                    b,
                )] == (a as usize, b as usize) by {
                    lemma_tri_monotonic(a + 1, i as int);
                    lemma_tri_monotonic(0, a);
                }
            }
        }
    }
    r
}

/// A square symmetric matrix in packed lower-triangular storage.
#[derive(Debug, PartialEq)]
pub struct SymmetricMatrix<F>(Vec<Vec<F>>);

impl<F> SymmetricMatrix<F> {
    /// The packed rows, as sequences.
    pub closed spec fn rows(self) -> Seq<Seq<F>> {
        rows_view(self.0@)
    }

    /// Well-formed packed storage: row `i` holds exactly `i + 1` cells.
    pub open spec fn wf(self) -> bool {
        is_triangular(self.rows())
    }

    pub open spec fn spec_size(self) -> int {
        self.rows().len() as int
    }

    /// The logical cell at `(i, j)`; `(i, j)` and `(j, i)` share one
    /// physical cell, so the matrix is symmetric by construction.
    pub open spec fn entry(self, i: int, j: int) -> F {
        if j <= i {
            self.rows()[i][j]
        } else {
            self.rows()[j][i]
        }
    }

    /// The matrix reads the same at `(i, j)` and `(j, i)`.
    pub proof fn lemma_entry_symmetric(self, i: int, j: int)
        ensures
            self.entry(i, j) == self.entry(j, i),
    {
    }

    /// Wrap packed rows; `None` unless row `i` has exactly `i + 1` cells.
    pub fn from_rows(rows: Vec<Vec<F>>) -> (r: Option<Self>)
        ensures
            match r {
                Some(m) => m.rows() == rows_view(rows@) && m.wf(),
                None => !is_triangular(rows_view(rows@)),
            },
    {
        let n = rows.len();
        for i in 0..n
            invariant
                n == rows.len(),
                forall|k: int| 0 <= k < i ==> #[trigger] rows@[k]@.len() == k + 1,
        {
            if rows[i].len() != i + 1 {
                proof {
                    assert(rows_view(rows@)[i as int].len() != i + 1);
                }
                return None;
            }
        }
        Some(SymmetricMatrix(rows))
    }

    /// Decide well-formedness: row `i` holds exactly `i + 1` cells.
    pub fn shape_check(&self) -> (ok: bool)
        ensures
            ok <==> self.wf(),
    {
        let n = self.0.len();
        for i in 0..n
            invariant
                n == self.rows().len(),
                forall|k: int| 0 <= k < i ==> #[trigger] self.rows()[k].len() == k + 1,
        {
            if self.0[i].len() != i + 1 {
                proof {
                    assert(self.rows()[i as int].len() != i + 1);
                }
                return false;
            }
            proof {
                assert(self.rows()[i as int].len() == i + 1);
            }
        }
        true
    }

    /// Wrap packed rows whose triangular shape is already established.
    pub fn from_triangular_rows(rows: Vec<Vec<F>>) -> (r: Self)
        requires
            is_triangular(rows_view(rows@)),
        ensures
            r.rows() == rows_view(rows@),
            r.wf(),
    {
        SymmetricMatrix(rows)
    }

    /// Hand back the packed rows.
    pub fn into_rows(self) -> (r: Vec<Vec<F>>)
        ensures
            rows_view(r@) == self.rows(),
    {
        self.0
    }

    pub fn size(&self) -> (n: usize)
        ensures
            n == self.spec_size(),
    {
        self.0.len()
    }

    pub fn at(&self, i: usize, j: usize) -> (r: &F)
        requires
            self.wf(),
            i < self.spec_size(),
            j < self.spec_size(),
        ensures
            *r == self.entry(i as int, j as int),
    {
        if i <= j {
            proof {
                assert(self.rows()[j as int].len() == j + 1);
            }
            &self.0[j][i]
        } else {
            proof {
                assert(self.rows()[i as int].len() == i + 1);
            }
            &self.0[i][j]
        }
    }

    /// Replace the physical cell shared by `(i, j)` and `(j, i)`. This is the
    /// packed matrix's only mutator; it stands in for a mutable-reference
    /// accessor, which the verifier does not admit as a return value.
    pub fn at_mut(&mut self, i: usize, j: usize, value: F)
        requires
            old(self).wf(),
            i < old(self).spec_size(),
            j < old(self).spec_size(),
        ensures
            final(self).wf(),
            final(self).spec_size() == old(self).spec_size(),
            final(self).entry(i as int, j as int) == value,
            forall|a: int, b: int|
                0 <= a < old(self).spec_size() && 0 <= b < old(self).spec_size() && !(a == i && b
                    == j) && !(a == j && b == i) ==> final(self).entry(a, b) == old(
                self,
                ).entry(a, b),
    {
        let (hi, lo) = if i <= j {
            (j, i)
        } else {
            (i, j)
        };
        proof {
            assert(self.rows()[hi as int].len() == hi + 1);
        }
        self.0[hi][lo] = value;
        proof {
            assert(self.rows()[hi as int] =~= old(self).rows()[hi as int].update(
                lo as int,
                value,
            ));
            assert forall|k: int|
                0 <= k < self.rows().len() && k != hi implies #[trigger] self.rows()[k] == old(
                self,
            ).rows()[k] by {}
        }
    }
}

impl<F: Clone> SymmetricMatrix<F> {
    /// The `n x n` matrix whose every cell is a copy of `z`.
    pub fn zero(n: usize, z: F) -> (r: Self)
        ensures
            r.wf(),
            r.spec_size() == n,
            forall|i: int, j: int|
                0 <= j <= i < n ==> cloned(z, #[trigger] r.rows()[i][j]),
    {
        let mut rows: Vec<Vec<F>> = Vec::new();
        for i in 0..n
            invariant
                rows@.len() == i,
                forall|k: int| 0 <= k < i ==> #[trigger] rows@[k]@.len() == k + 1,

                forall|k: int, j: int|
                    0 <= j <= k < i ==> cloned(z, #[trigger] rows@[k]@[j]),
        {
            let mut row: Vec<F> = Vec::new();
            let end = i + 1;
            for j in 0..end
                invariant
                    end == i + 1,
                    row@.len() == j,
                    forall|l: int| 0 <= l < j ==> cloned(z, #[trigger] row@[l]),
            {
                row.push(z.clone());
            }
            rows.push(row);
        }
        SymmetricMatrix(rows)
    }

    /// The main diagonal, as copies of the diagonal cells.
    pub fn diag(&self) -> (r: Vec<F>)
        requires
            self.wf(),
        ensures
            r@.len() == self.spec_size(),
            forall|i: int|
                0 <= i < self.spec_size() ==> cloned(self.entry(i, i), #[trigger] r@[i]),
    {
        let mut r: Vec<F> = Vec::new();
        let n = self.0.len();
        for i in 0..n
            invariant
                n == self.spec_size(),
                self.wf(),
                r@.len() == i,
                forall|k: int| 0 <= k < i ==> cloned(self.entry(k, k), #[trigger] r@[k]),
        {
            proof {
                assert(self.rows()[i as int].len() == i + 1);
            }
            r.push(self.0[i][i].clone());
        }
        r
    }
}

} // verus!
