//! The seam between procedural code and a code generator.

use crate::ir::Module;
use vstd::prelude::*;

verus! {

/// A code generator: it makes an artifact of its own kind from a module.
pub trait Codegen {
    /// The artifact, such as assembly text or object code.
    type Output;

    /// What a user is told when there is none.
    type Error: std::fmt::Display;

    fn emit(&mut self, module: &Module) -> Result<Self::Output, Self::Error>;
}

} // verus!
