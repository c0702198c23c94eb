//! The width of a table column.

use vstd::prelude::*;

verus! {

/// A column of a table: how many bits each of its values takes.
#[derive(Clone, Copy, Debug, PartialEq, Eq)]
pub struct Column {
    size: u128,
}

impl View for Column {
    type V = u128;

    closed spec fn view(&self) -> u128 {
        self.size
    }
}

impl Column {
    pub fn new(size: u128) -> (column: Self)
        ensures
            column@ == size,
    {
        Self { size }
    }

    pub fn get_size(&self) -> (size: u128)
        ensures
            size == self@,
    {
        self.size
    }
}

} // verus!
