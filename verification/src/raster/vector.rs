//! Small vectors of unsigned integers for screen-space coordinates.

use vstd::prelude::*;

verus! {

/// The error of asking a vector for a component that it does not have.
#[derive(Clone, Copy, Debug, PartialEq, Eq, Structural)]
pub struct IndexError {
    /// The index that was asked for.
    pub index: usize,
    /// The number of components that the vector has.
    pub arity: usize,
}

/// Two unsigned components, such as a pixel's column and row.
#[derive(Clone, Copy, Debug, PartialEq, Eq, Structural)]
pub struct Vec2u(pub usize, pub usize);

impl Vec2u {
    /// The component with the given index; meaningful for `0` and `1`.
    pub open spec fn component(self, index: int) -> usize {
        if index == 0 {
            self.0
        } else {
            self.1
        }
    }

    /// Reads the component `index`, which must be `0` or `1`.
    pub fn get(&self, index: usize) -> (value: Result<usize, IndexError>)
        ensures
            index < 2 ==> value == Ok::<usize, IndexError>(self.component(index as int)),
            index >= 2 ==> value == Err::<usize, IndexError>(IndexError { index, arity: 2 }),
    {
        match index {
            0 => Ok(self.0),
            1 => Ok(self.1),
            _ => Err(IndexError { index, arity: 2 }),
        }
    }

    /// Replaces the component `index`, which must be `0` or `1`; any other
    /// index leaves the vector as it is.
    pub fn set(&mut self, index: usize, value: usize) -> (done: Result<(), IndexError>)
        ensures
            index == 0 ==> done.is_ok() && *final(self) == Vec2u(value, old(self).1),
            index == 1 ==> done.is_ok() && *final(self) == Vec2u(old(self).0, value),
            index >= 2 ==> done == Err::<(), IndexError>(IndexError { index, arity: 2 })
                && *final(self) == *old(self),
    {
        match index {
            0 => {
                self.0 = value;
                Ok(())
            },
            1 => {
                self.1 = value;
                Ok(())
            },
            _ => Err(IndexError { index, arity: 2 }),
        }
    }
}

/// Three unsigned components, such as a pixel's column, row and depth.
#[derive(Clone, Copy, Debug, PartialEq, Eq, Structural)]
pub struct Vec3u(pub usize, pub usize, pub usize);

impl Vec3u {
    /// The component with the given index; meaningful for `0`, `1` and `2`.
    pub open spec fn component(self, index: int) -> usize {
        if index == 0 {
            self.0
        } else if index == 1 {
            self.1
        } else {
            self.2
        }
    }

    /// Reads the component `index`, which must be below `3`.
    pub fn get(&self, index: usize) -> (value: Result<usize, IndexError>)
        ensures
            index < 3 ==> value == Ok::<usize, IndexError>(self.component(index as int)),
            index >= 3 ==> value == Err::<usize, IndexError>(IndexError { index, arity: 3 }),
    {
        match index {
            0 => Ok(self.0),
            1 => Ok(self.1),
            2 => Ok(self.2),
            _ => Err(IndexError { index, arity: 3 }),
        }
    }

    /// Replaces the component `index`, which must be below `3`; any other
    /// index leaves the vector as it is.
    pub fn set(&mut self, index: usize, value: usize) -> (done: Result<(), IndexError>)
        ensures
            index == 0 ==> done.is_ok() && *final(self) == Vec3u(value, old(self).1, old(self).2),
            index == 1 ==> done.is_ok() && *final(self) == Vec3u(old(self).0, value, old(self).2),
            index == 2 ==> done.is_ok() && *final(self) == Vec3u(old(self).0, old(self).1, value),
            index >= 3 ==> done == Err::<(), IndexError>(IndexError { index, arity: 3 })
                && *final(self) == *old(self),
    {
        match index {
            0 => {
                self.0 = value;
                Ok(())
            },
            1 => {
                self.1 = value;
                Ok(())
            },
            2 => {
                self.2 = value;
                Ok(())
            },
            _ => Err(IndexError { index, arity: 3 }),
        }
    }
}

} // verus!
