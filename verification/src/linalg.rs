//! Dense integer vectors and matrices, stored by `nalgebra`.
//!
//! Verus cannot look inside a `nalgebra` matrix, so the two types of this
//! module are opaque to it. What they hold is named by [`vector_entries`],
//! [`matrix_rows`] and [`matrix_width`]; the private functions at the head of
//! the module call `nalgebra` and state, unproved, what each call does to
//! those contents. Everything below them is verified against those
//! statements.

use crate::consts::Number;
use vstd::prelude::*;

verus! {

/// A column vector of numbers, held in a `nalgebra::DVector`.
#[verifier::external_body]
#[derive(Debug)]
pub struct NumberVector {
    cells: nalgebra::DVector<i32>,
}

/// A matrix of numbers, held in a `nalgebra::DMatrix`.
#[verifier::external_body]
#[derive(Debug)]
pub struct NumberMatrix {
    cells: nalgebra::DMatrix<i32>,
}

/// The entries of a vector, first to last.
pub uninterp spec fn vector_entries(v: NumberVector) -> Seq<i32>;

/// The rows of a matrix, top to bottom, each row left to right.
pub uninterp spec fn matrix_rows(m: NumberMatrix) -> Seq<Seq<i32>>;

/// The number of columns of a matrix (which a matrix without rows has too).
pub uninterp spec fn matrix_width(m: NumberMatrix) -> nat;

impl View for NumberVector {
    type V = Seq<i32>;

    open spec fn view(&self) -> Seq<i32> {
        vector_entries(*self)
    }
}

impl View for NumberMatrix {
    type V = Seq<Seq<i32>>;

    open spec fn view(&self) -> Seq<Seq<i32>> {
        matrix_rows(*self)
    }
}

/// The dot product of two sequences of equal length.
pub open spec fn dot(a: Seq<i32>, b: Seq<i32>) -> int
    decreases a.len(),
{
    if a.len() == 0 {
        0
    } else {
        dot(a.drop_last(), b.drop_last()) + a.last() * b.last()
    }
}

/// Machine arithmetic can form the dot product of `a` and `b` term by term,
/// left to right: every product and every partial sum is an `i32`.
pub open spec fn dot_fits(a: Seq<i32>, b: Seq<i32>) -> bool {
    &&& forall|j: int| 0 <= j < a.len() ==> i32::MIN <= #[trigger] (a[j] * b[j]) <= i32::MAX
    &&& forall|k: int|
        0 <= k <= a.len() ==> i32::MIN <= #[trigger] dot(a.take(k), b.take(k)) <= i32::MAX
}

/// `at` is the first position of the greatest entry of `s`.
pub open spec fn is_first_max(s: Seq<i32>, at: int) -> bool {
    &&& 0 <= at < s.len()
    &&& forall|j: int| 0 <= j < s.len() ==> s[j] <= s[at]
    &&& forall|j: int| 0 <= j < at ==> s[j] < s[at]
}

/// Calls `nalgebra::DVector::from_vec`: the vector holds the entries of
/// `entries`, in their order.
#[verifier::external_body]
fn vector_from_vec(entries: Vec<i32>) -> (v: NumberVector)
    ensures
        vector_entries(v) == entries@,
{
    NumberVector { cells: nalgebra::DVector::from_vec(entries) }
}

/// Calls `nalgebra::Matrix::nrows` on a vector: its number of entries.
#[verifier::external_body]
fn vector_nrows(v: &NumberVector) -> (n: usize)
    ensures
        n == vector_entries(*v).len(),
{
    v.cells.nrows()
}

/// Calls `nalgebra::Matrix::ncols` on a vector: a column vector has one
/// column.
#[verifier::external_body]
fn vector_ncols(v: &NumberVector) -> (n: usize)
    ensures
        n == 1,
{
    v.cells.ncols()
}

/// Copies what `nalgebra::VecStorage::as_vec` shows of a vector: its entries,
/// in their order.
#[verifier::external_body]
fn vector_to_vec(v: &NumberVector) -> (entries: Vec<i32>)
    ensures
        entries@ == vector_entries(*v),
{
    v.cells.data.as_vec().clone()
}

/// Calls `nalgebra::Matrix::component_mul_assign` on two vectors. It panics
/// unless both have the same length, and multiplies entry by entry in machine
/// arithmetic, so every product has to be an `i32`.
#[verifier::external_body]
fn vector_component_mul_assign(v: &mut NumberVector, rhs: &NumberVector)
    requires
        vector_entries(*old(v)).len() == vector_entries(*rhs).len(),
        forall|i: int|
            0 <= i < vector_entries(*rhs).len() ==> i32::MIN <= #[trigger] (vector_entries(
                *old(v),
            )[i] * vector_entries(*rhs)[i]) <= i32::MAX,
    ensures
        vector_entries(*final(v)).len() == vector_entries(*old(v)).len(),
        forall|i: int|
            0 <= i < vector_entries(*rhs).len() ==> #[trigger] vector_entries(*final(v))[i]
                == vector_entries(*old(v))[i] * vector_entries(*rhs)[i],
{
    v.cells.component_mul_assign(&rhs.cells);
}

/// Calls `nalgebra::Matrix::argmax` on a vector. It panics on an empty vector;
/// otherwise it scans from the first entry and moves on only to a strictly
/// greater one, so it returns the first position of the greatest entry, and
/// that entry.
#[verifier::external_body]
fn vector_argmax(v: &NumberVector) -> (found: (usize, i32))
    requires
        vector_entries(*v).len() > 0,
    ensures
        is_first_max(vector_entries(*v), found.0 as int),
        found.1 == vector_entries(*v)[found.0 as int],
{
    v.cells.argmax()
}

/// Calls `nalgebra::DMatrix::from_vec`. It panics unless `data` holds
/// `nrows * ncols` numbers, and fills the matrix column by column: the cell in
/// row `i` and column `j` is `data[i + j * nrows]`.
#[verifier::external_body]
fn matrix_from_vec(nrows: usize, ncols: usize, data: Vec<i32>) -> (m: NumberMatrix)
    requires
        data@.len() == nrows * ncols,
    ensures
        matrix_rows(m).len() == nrows,
        matrix_width(m) == ncols,
        forall|i: int| 0 <= i < nrows ==> (#[trigger] matrix_rows(m)[i]).len() == ncols,
        forall|i: int, j: int|
            0 <= i < nrows && 0 <= j < ncols ==> #[trigger] matrix_rows(m)[i][j] == data@[i + j
                * nrows],
{
    NumberMatrix { cells: nalgebra::DMatrix::from_vec(nrows, ncols, data) }
}

/// Calls `nalgebra::Matrix::nrows`: the number of rows.
#[verifier::external_body]
fn matrix_nrows(m: &NumberMatrix) -> (n: usize)
    ensures
        n == matrix_rows(*m).len(),
{
    m.cells.nrows()
}

/// Calls `nalgebra::Matrix::ncols`: the number of columns, which is the
/// length of every row.
#[verifier::external_body]
fn matrix_ncols(m: &NumberMatrix) -> (n: usize)
    ensures
        n == matrix_width(*m),
        forall|i: int| 0 <= i < matrix_rows(*m).len() ==> (#[trigger] matrix_rows(*m)[i]).len() == n,
{
    m.cells.ncols()
}

/// Reads a cell through `nalgebra`'s `Index<(usize, usize)>`, which panics
/// outside the matrix.
#[verifier::external_body]
fn matrix_get(m: &NumberMatrix, row: usize, column: usize) -> (cell: i32)
    requires
        row < matrix_rows(*m).len(),
        column < matrix_width(*m),
    ensures
        cell == matrix_rows(*m)[row as int][column as int],
{
    m.cells[(row, column)]
}

/// Writes a cell through `nalgebra`'s `IndexMut<(usize, usize)>`, which panics
/// outside the matrix. No other cell changes, nor the shape.
#[verifier::external_body]
fn matrix_set(m: &mut NumberMatrix, row: usize, column: usize, cell: i32)
    requires
        row < matrix_rows(*old(m)).len(),
        column < matrix_width(*old(m)),
    ensures
        matrix_width(*final(m)) == matrix_width(*old(m)),
        matrix_rows(*final(m)) == matrix_rows(*old(m)).update(
            row as int,
            matrix_rows(*old(m))[row as int].update(column as int, cell),
        ),
{
    m.cells[(row, column)] = cell;
}

/// Calls `nalgebra`'s `Mul` of a matrix reference by a vector reference. It
/// panics unless the vector has one entry per column. Each entry of the
/// result is the dot product of a row with the vector, accumulated column by
/// column in machine arithmetic: the products and partial sums have to be
/// `i32`s.
#[verifier::external_body]
fn matrix_mul_vector(m: &NumberMatrix, v: &NumberVector) -> (product: NumberVector)
    requires
        matrix_width(*m) == vector_entries(*v).len(),
        forall|i: int|
            0 <= i < matrix_rows(*m).len() ==> dot_fits(
                #[trigger] matrix_rows(*m)[i],
                vector_entries(*v),
            ),
    ensures
        vector_entries(product).len() == matrix_rows(*m).len(),
        forall|i: int|
            0 <= i < matrix_rows(*m).len() ==> #[trigger] vector_entries(product)[i] == dot(
                matrix_rows(*m)[i],
                vector_entries(*v),
            ),
{
    NumberVector { cells: &m.cells * &v.cells }
}

impl NumberVector {
    /// A vector of the given entries.
    pub fn from_vec(entries: Vec<Number>) -> (v: NumberVector)
        ensures
            v@ == entries@,
    {
        vector_from_vec(entries)
    }

    /// The number of entries.
    pub fn nrows(&self) -> (n: usize)
        ensures
            n == self@.len(),
    {
        vector_nrows(self)
    }

    /// The number of columns, which is one.
    pub fn ncols(&self) -> (n: usize)
        ensures
            n == 1,
    {
        vector_ncols(self)
    }

    /// The entries, copied out.
    pub fn to_vec(&self) -> (entries: Vec<Number>)
        ensures
            entries@ == self@,
    {
        vector_to_vec(self)
    }

    /// Multiplies each entry by the entry of `rhs` at the same position.
    pub fn component_mul_assign(&mut self, rhs: &NumberVector)
        requires
            old(self)@.len() == rhs@.len(),
            forall|i: int|
                0 <= i < rhs@.len() ==> i32::MIN <= #[trigger] (old(self)@[i] * rhs@[i])
                    <= i32::MAX,
        ensures
            final(self)@.len() == old(self)@.len(),
            forall|i: int|
                0 <= i < rhs@.len() ==> #[trigger] final(self)@[i] == old(self)@[i] * rhs@[i],
    {
        vector_component_mul_assign(self, rhs);
    }

    /// The first position of the greatest entry, and that entry.
    pub fn argmax(&self) -> (found: (usize, Number))
        requires
            self@.len() > 0,
        ensures
            is_first_max(self@, found.0 as int),
            found.1 == self@[found.0 as int],
    {
        vector_argmax(self)
    }
}

impl NumberMatrix {
    /// Every row has as many entries as the matrix has columns.
    pub open spec fn rectangular(&self) -> bool {
        forall|i: int| 0 <= i < self@.len() ==> (#[trigger] self@[i]).len() == self.width()
    }

    /// The number of columns.
    pub open spec fn width(&self) -> nat {
        matrix_width(*self)
    }

    /// A matrix of `nrows` rows and `ncols` columns, filled column by column
    /// from `data`.
    pub fn from_vec(nrows: usize, ncols: usize, data: Vec<Number>) -> (m: NumberMatrix)
        requires
            data@.len() == nrows * ncols,
        ensures
            m@.len() == nrows,
            m.width() == ncols,
            m.rectangular(),
            forall|i: int, j: int|
                0 <= i < nrows && 0 <= j < ncols ==> #[trigger] m@[i][j] == data@[i + j * nrows],
    {
        matrix_from_vec(nrows, ncols, data)
    }

    /// The number of rows.
    pub fn nrows(&self) -> (n: usize)
        ensures
            n == self@.len(),
    {
        matrix_nrows(self)
    }

    /// The number of columns. Calling it also brings to light that the
    /// matrix is rectangular.
    pub fn ncols(&self) -> (n: usize)
        ensures
            n == self.width(),
            self.rectangular(),
    {
        matrix_ncols(self)
    }

    /// The cell in the given row and column.
    pub fn get(&self, row: usize, column: usize) -> (cell: Number)
        requires
            row < self@.len(),
            column < self.width(),
        ensures
            cell == self@[row as int][column as int],
    {
        matrix_get(self, row, column)
    }

    /// Overwrites the cell in the given row and column.
    pub fn set(&mut self, row: usize, column: usize, cell: Number)
        requires
            row < old(self)@.len(),
            column < old(self).width(),
        ensures
            final(self).width() == old(self).width(),
            final(self)@ == old(self)@.update(
                row as int,
                old(self)@[row as int].update(column as int, cell),
            ),
    {
        matrix_set(self, row, column, cell);
    }

    /// Copies the given row into `into`.
    pub fn copy_row(&self, row: usize, into: &mut Vec<Number>)
        requires
            row < self@.len(),
            old(into)@.len() == self.width(),
        ensures
            final(into)@ == self@[row as int],
    {
        let width: usize = self.ncols();
        let mut column: usize = 0;
        while column < width
            invariant
                column <= width,
                width == self.width(),
                row < self@.len(),
                self@[row as int].len() == width,
                into@.len() == width,
                forall|j: int| 0 <= j < column ==> into@[j] == self@[row as int][j],
            decreases width - column,
        {
            into.set(column, self.get(row, column));
            column += 1;
        }
    }

    /// Overwrites the given row with `from`.
    pub fn set_row(&mut self, row: usize, from: &Vec<Number>)
        requires
            row < old(self)@.len(),
            from@.len() == old(self).width(),
        ensures
            final(self).width() == old(self).width(),
            final(self)@ == old(self)@.update(row as int, from@),
    {
        let width: usize = self.ncols();
        let mut column: usize = 0;
        while column < width
            invariant
                column <= width,
                width == self.width(),
                width == old(self).width(),
                from@.len() == width,
                row < self@.len(),
                self@.len() == old(self)@.len(),
                self@[row as int].len() == width,
                forall|i: int| 0 <= i < self@.len() && i != row ==> self@[i] == old(self)@[i],
                forall|j: int| 0 <= j < column ==> self@[row as int][j] == from@[j],
            decreases width - column,
        {
            self.set(row, column, from[column]);
            column += 1;
        }
        assert(self@[row as int] =~= from@);
    }

    /// The product of the matrix with a vector: the dot product of each row
    /// with it.
    pub fn mul_vector(&self, v: &NumberVector) -> (product: NumberVector)
        requires
            self.width() == v@.len(),
            forall|i: int| 0 <= i < self@.len() ==> dot_fits(#[trigger] self@[i], v@),
        ensures
            product@.len() == self@.len(),
            forall|i: int| 0 <= i < self@.len() ==> #[trigger] product@[i] == dot(self@[i], v@),
    {
        matrix_mul_vector(self, v)
    }
}

} // verus!
