//! Tables of samples.

use crate::number::Single;
use scirs2_core::ndarray::Array2;
use vstd::prelude::*;

verus! {

/// A table of samples, row by row.
#[derive(Debug)]
pub struct Matrix {
    rows: usize,
    cols: usize,
    values: Vec<Single>,
}

proof fn row_fits(rows: int, cols: int, i: int)
    requires
        0 <= i < rows,
        0 <= cols,
    ensures
        0 <= i * cols,
        i * cols + cols <= rows * cols,
{
    assert(i * cols + cols <= rows * cols) by (nonlinear_arith)
        requires
            0 <= i < rows,
            0 <= cols,
    ;
    assert(0 <= i * cols) by (nonlinear_arith)
        requires
            0 <= i,
            0 <= cols,
    ;
}

/// Whether the sides of a table that are not zero have a product that a signed
/// word can hold.
pub open spec fn countable(rows: usize, cols: usize) -> bool {
    (if rows == 0 {
        1int
    } else {
        rows as int
    }) * (if cols == 0 {
        1int
    } else {
        cols as int
    }) <= isize::MAX
}

/// Why a number of samples cannot be laid out as a table, if they cannot.
pub open spec fn shape_fault(count: nat, rows: usize, cols: usize) -> Option<Seq<char>> {
    if !countable(rows, cols) {
        Some("ShapeError/Overflow: arithmetic overflow"@)
    } else if count < rows * cols {
        Some("ShapeError/OutOfBounds: out of bounds indexing"@)
    } else if count > rows * cols {
        Some("ShapeError/IncompatibleShape: incompatible shapes"@)
    } else {
        None
    }
}

/// `Array2::from_shape_vec` of the `ndarray` in `scirs2_core`, which takes
/// samples row by row, and `into_raw_vec_and_offset`, which gives them back
/// as they were. It fails where the sides are too long, where there are too few
/// samples and where there are too many, in this order, and each failure has
/// its own text.
#[verifier::external_body]
pub(crate) fn laid_out(rows: usize, cols: usize, values: Vec<Single>) -> (r: Result<
    Vec<Single>,
    String,
>)
    ensures
        match shape_fault(values@.len(), rows, cols) {
            None => r matches Ok(v) && v@ == values@,
            Some(text) => r matches Err(e) && e@ == text,
        },
{
    match Array2::from_shape_vec((rows, cols), values) {
        Ok(table) => Ok(table.into_raw_vec_and_offset().0),
        Err(e) => Err(e.to_string()),
    }
}

impl Matrix {
    /// The number of rows.
    pub closed spec fn height(&self) -> nat {
        self.rows as nat
    }

    /// The number of columns.
    pub closed spec fn width(&self) -> nat {
        self.cols as nat
    }

    /// The samples, row by row.
    pub closed spec fn flat(&self) -> Seq<Single> {
        self.values@
    }

    /// Every place has a sample.
    pub open spec fn wf(&self) -> bool {
        &&& self.flat().len() == self.height() * self.width()
        &&& self.height() <= usize::MAX
        &&& self.width() <= usize::MAX
        &&& self.flat().len() <= usize::MAX
    }

    /// A row.
    pub open spec fn line(&self, i: int) -> Seq<Single> {
        self.flat().subrange(i * self.width(), i * self.width() + self.width())
    }

    /// A table from its samples, row by row; none where they do not fill it.
    pub fn from_vec(rows: usize, cols: usize, values: Vec<Single>) -> (r: Option<Self>)
        ensures
            match r {
                Some(m) => {
                    &&& m.wf()
                    &&& m.height() == rows
                    &&& m.width() == cols
                    &&& m.flat() == values@
                },
                None => values@.len() != rows * cols,
            },
    {
        let n: usize = values.len();
        match rows.checked_mul(cols) {
            Some(size) => {
                if size == n {
                    return Some(Matrix { rows, cols, values });
                }
            },
            None => {},
        }
        None
    }

    /// A table from its samples, row by row, or why they cannot be laid out as
    /// one.
    pub fn from_shape_vec(rows: usize, cols: usize, values: Vec<Single>) -> (r: Result<
        Self,
        String,
    >)
        ensures
            match shape_fault(values@.len(), rows, cols) {
                None => {
                    &&& r is Ok
                    &&& r->Ok_0.wf()
                    &&& r->Ok_0.height() == rows
                    &&& r->Ok_0.width() == cols
                    &&& r->Ok_0.flat() == values@
                },
                Some(text) => r matches Err(e) && e@ == text,
            },
    {
        let values: Vec<Single> = laid_out(rows, cols, values)?;
        assert(values@.len() == values.len());
        Ok(Matrix { rows, cols, values })
    }

    /// A table of zeros.
    pub fn zeros(rows: usize, cols: usize) -> (r: Self)
        requires
            rows * cols <= usize::MAX,
        ensures
            r.wf(),
            r.height() == rows,
            r.width() == cols,
            r.flat() == Seq::new((rows * cols) as nat, |i: int| Single { bits: 0 }),
    {
        let values: Vec<Single> = vec![Single::zero(); rows * cols];
        assert(values@ =~= Seq::new((rows * cols) as nat, |i: int| Single { bits: 0 }));
        Matrix { rows, cols, values }
    }

    /// The number of rows.
    pub fn nrows(&self) -> (n: usize)
        ensures
            n == self.height(),
    {
        self.rows
    }

    /// The number of columns.
    pub fn ncols(&self) -> (n: usize)
        ensures
            n == self.width(),
    {
        self.cols
    }

    /// A row.
    pub fn row(&self, i: usize) -> (r: &[Single])
        requires
            self.wf(),
            i < self.height(),
        ensures
            r@ == self.line(i as int),
            r@.len() == self.width(),
    {
        proof {
            row_fits(self.rows as int, self.cols as int, i as int);
        }
        let start: usize = i * self.cols;
        vstd::slice::slice_subrange(self.values.as_slice(), start, start + self.cols)
    }

    /// The sample at a place.
    pub fn get(&self, i: usize, j: usize) -> (r: Single)
        requires
            self.wf(),
            i < self.height(),
            j < self.width(),
        ensures
            r == self.line(i as int)[j as int],
    {
        self.row(i)[j]
    }

    /// The samples, row by row.
    pub fn values(&self) -> (r: &[Single])
        ensures
            r@ == self.flat(),
    {
        self.values.as_slice()
    }

    /// A copy of the table.
    pub fn copy(&self) -> (r: Self)
        ensures
            r.height() == self.height(),
            r.width() == self.width(),
            r.flat() == self.flat(),
            self.wf() ==> r.wf(),
    {
        Matrix {
            rows: self.rows,
            cols: self.cols,
            values: crate::samples::copy_samples(self.values.as_slice()),
        }
    }
}

} // verus!
