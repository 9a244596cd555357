//! Dimensions of the two-dimensional arrays that flow through a graph, and
//! the rule by which each operation derives the dimensions of its result.

use vstd::prelude::*;

verus! {

/// Rows and columns of a two-dimensional array.
#[derive(Debug, Clone, Copy, PartialEq, Eq, Structural)]
pub struct Shape {
    pub rows: usize,
    pub cols: usize,
}

/// Direction along which two arrays are joined.
#[derive(Debug, Clone, Copy, PartialEq, Eq, Structural)]
pub enum Axis {
    /// The rows of the second array follow the rows of the first.
    Rows,
    /// The columns of the second array follow the columns of the first.
    Columns,
}

impl Axis {
    /// The axis with the given number, if arrays of two dimensions have it.
    pub fn from_index(index: usize) -> (axis: Option<Axis>)
        ensures
            axis == (if index == 0 {
                Some(Axis::Rows)
            } else if index == 1 {
                Some(Axis::Columns)
            } else {
                None
            }),
    {
        if index == 0 {
            Some(Axis::Rows)
        } else if index == 1 {
            Some(Axis::Columns)
        } else {
            None
        }
    }

    /// The number of the axis.
    pub fn index(&self) -> (index: usize)
        ensures
            index == (match *self {
                Axis::Rows => 0usize,
                Axis::Columns => 1usize,
            }),
    {
        match self {
            Axis::Rows => 0,
            Axis::Columns => 1,
        }
    }
}

impl Shape {
    /// The shape of an array with the given numbers of rows and columns.
    pub fn new(rows: usize, cols: usize) -> (shape: Shape)
        ensures
            shape == (Shape { rows, cols }),
    {
        Shape { rows, cols }
    }

    /// Number of elements of an array of this shape.
    pub open spec fn size(&self) -> nat {
        (self.rows * self.cols) as nat
    }

    /// The shape with rows and columns exchanged.
    pub open spec fn transposed(&self) -> Shape {
        Shape { rows: self.cols, cols: self.rows }
    }

    /// Whether a matrix product of arrays of these shapes exists.
    pub open spec fn multiplies(&self, rhs: &Shape) -> bool {
        self.cols == rhs.rows
    }

    /// Shape of the matrix product.
    pub open spec fn product(&self, rhs: &Shape) -> Shape {
        Shape { rows: self.rows, cols: rhs.cols }
    }

    /// Shape of the column that holds one dot product per row.
    pub open spec fn row_dots(&self) -> Shape {
        Shape { rows: self.rows, cols: 1 }
    }

    /// Whether arrays of these shapes can be joined along the axis: they
    /// agree in the other direction and the joined length fits.
    pub open spec fn joins(&self, rhs: &Shape, axis: Axis) -> bool {
        match axis {
            Axis::Rows => self.cols == rhs.cols && self.rows + rhs.rows <= usize::MAX,
            Axis::Columns => self.rows == rhs.rows && self.cols + rhs.cols <= usize::MAX,
        }
    }

    /// Shape of the two arrays joined along the axis.
    pub open spec fn joined(&self, rhs: &Shape, axis: Axis) -> Shape {
        match axis {
            Axis::Rows => Shape { rows: (self.rows + rhs.rows) as usize, cols: self.cols },
            Axis::Columns => Shape { rows: self.rows, cols: (self.cols + rhs.cols) as usize },
        }
    }

    /// Shape of the square matrix of partial derivatives of one row.
    pub open spec fn jacobian(&self) -> Shape {
        Shape { rows: self.cols, cols: self.cols }
    }

    /// Shape of an array that holds a single number.
    pub open spec fn scalar() -> Shape {
        Shape { rows: 1, cols: 1 }
    }

    /// Shape of a selection of `count` rows.
    pub open spec fn selection(&self, count: nat) -> Shape {
        Shape { rows: count as usize, cols: self.cols }
    }

    /// The shape with rows and columns exchanged.
    pub fn transpose(&self) -> (shape: Shape)
        ensures
            shape == self.transposed(),
    {
        Shape { rows: self.cols, cols: self.rows }
    }

    /// Whether a matrix product of arrays of these shapes exists.
    pub fn can_multiply(&self, rhs: &Shape) -> (ok: bool)
        ensures
            ok == self.multiplies(rhs),
    {
        self.cols == rhs.rows
    }

    /// Whether arrays of these shapes can be joined along the axis.
    pub fn can_join(&self, rhs: &Shape, axis: Axis) -> (ok: bool)
        ensures
            ok == self.joins(rhs, axis),
    {
        match axis {
            Axis::Rows => self.cols == rhs.cols && self.rows <= usize::MAX - rhs.rows,
            Axis::Columns => self.rows == rhs.rows && self.cols <= usize::MAX - rhs.cols,
        }
    }

    /// Shape of the two arrays joined along the axis.
    pub fn join(&self, rhs: &Shape, axis: Axis) -> (shape: Shape)
        requires
            self.joins(rhs, axis),
        ensures
            shape == self.joined(rhs, axis),
    {
        match axis {
            Axis::Rows => Shape { rows: self.rows + rhs.rows, cols: self.cols },
            Axis::Columns => Shape { rows: self.rows, cols: self.cols + rhs.cols },
        }
    }
}

} // verus!
