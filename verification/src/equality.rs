//! `==` on matrices.
use vstd::prelude::*;
use vstd::std_specs::cmp::{PartialEqSpec, PartialEqSpecImpl};
use crate::linalg::Matrix;

verus! {

impl<T: Copy + PartialEq> PartialEq for Matrix<T> {
    /// Two matrices are equal where their shapes agree and their entries are
    /// equal cell by cell; matrices of different shapes are never equal.
    fn eq(&self, other: &Matrix<T>) -> (r: bool) {
        self.equals(other)
    }
}

impl<T: Copy + PartialEq> PartialEqSpecImpl for Matrix<T> {
    open spec fn obeys_eq_spec() -> bool {
        T::obeys_eq_spec()
    }

    open spec fn eq_spec(&self, other: &Matrix<T>) -> bool {
        &&& self@.same_shape(other@)
        &&& forall|i: int, j: int|
            self@.has(i, j) ==> (#[trigger] self@.at(i, j)).eq_spec(&other@.at(i, j))
    }
}

} // verus!
