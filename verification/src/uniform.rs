//! Uniform handles and the values they carry.
//!
//! A [`Uniform`] names one location of one linked program; it is handed out by
//! a successful lookup on a [`crate::program::Program`] and stays meaningful
//! as long as that program exists. Floating-point values are carried as their
//! IEEE-754 bit patterns (`u32`), so the model of driver state stays within
//! the integers; callers convert with `f32::to_bits` at the boundary.

use vstd::prelude::*;

verus! {

/// A handle to one uniform of one linked program: the program's driver handle
/// and the location the driver reported for the name.
#[derive(Clone, Copy, Debug, PartialEq, Eq, Structural)]
pub struct Uniform {
    pub program: u32,
    pub location: i32,
}

impl Uniform {
    /// A uniform handle is well formed when it names a real program and a
    /// location the driver could have reported.
    pub open spec fn wf(self) -> bool {
        self.program != 0 && self.location >= 0
    }
}

/// One value a uniform can hold. Scalar and vector floats are IEEE-754 bit
/// patterns; a matrix is its sixteen entries in column-major order.
#[derive(Clone, Debug, PartialEq, Eq)]
pub enum UniformValue {
    Int1(i32),
    Float1(u32),
    Float3(u32, u32, u32),
    Mat4(Vec<u32>),
}

impl UniformValue {
    /// A value is well formed when a matrix carries exactly its sixteen
    /// entries.
    pub open spec fn wf(self) -> bool {
        match self {
            UniformValue::Mat4(m) => m@.len() == 16,
            _ => true,
        }
    }

    /// Check well-formedness of this value.
    pub fn check_wf(&self) -> (b: bool)
        ensures
            b == self.wf(),
    {
        match self {
            UniformValue::Mat4(m) => m.len() == 16,
            _ => true,
        }
    }
}

} // verus!
