//! Mutable access: the whole buffer, or one element behind a bounds check.
use vstd::prelude::*;

use crate::errors::IndexError;
use crate::lemma_buffer_index;
use crate::Matrix;

verus! {

impl<T> Matrix<T> {
    /// A mutable borrow of the flat, row-major element buffer. The borrow
    /// can change element values but, to keep the matrix well formed, must
    /// leave the length alone.
    pub fn data_mut(&mut self) -> (r: &mut Vec<T>)
        ensures
            *r == old(self).data,
            final(self).data == *final(r),
            final(self).rows == old(self).rows,
            final(self).columns == old(self).columns,
    {
        &mut self.data
    }

    /// A mutable reference to the element at `row, col`, or the error naming
    /// the axis (or both axes) that lies out of bounds.
    pub fn get_mut(&mut self, row: usize, col: usize) -> (r: Result<&mut T, IndexError>)
        requires
            old(self).wf(),
        ensures
            final(self).rows == old(self).rows,
            final(self).columns == old(self).columns,
            final(self).wf(),
            match r {
                Ok(p) => old(self).in_bounds(row as int, col as int) && *p == old(self).ent(
                    row as int,
                    col as int,
                ) && final(self).data@ == old(self).data@.update(
                    row * old(self).columns + col,
                    *final(p),
                ),
                Err(e) => final(self).data@ == old(self).data@ && match e {
                    IndexError::Both(a, b) => a == row && b == col && row >= old(self).rows && col
                        >= old(self).columns,
                    IndexError::Row(a) => a == row && row >= old(self).rows && col < old(
                        self,
                    ).columns,
                    IndexError::Column(b) => b == col && col >= old(self).columns && row < old(
                        self,
                    ).rows,
                },
            },
    {
        if row >= self.rows && col >= self.columns {
            return Err(IndexError::Both(row, col));
        }
        if row >= self.rows {
            return Err(IndexError::Row(row));
        }
        if col >= self.columns {
            return Err(IndexError::Column(col));
        }
        proof {
            lemma_buffer_index(*self, row as int, col as int);
        }
        Ok(&mut self.data[row * self.columns + col])
    }
}

} // verus!
