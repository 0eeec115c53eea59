//! The pipeline stages a shader object can belong to.

use vstd::prelude::*;

verus! {

/// The stage of the rendering pipeline a shader is compiled for.
#[derive(Clone, Copy, Debug, PartialEq, Eq, Structural)]
pub enum ShaderStage {
    Vertex,
    Fragment,
}

} // verus!
