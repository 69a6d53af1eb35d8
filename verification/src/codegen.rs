//! Back ends.

pub mod c;

use crate::ir::module::Module;
use vstd::prelude::*;

verus! {

/// A module, with the language that it is to be printed in.
pub enum Target {
    C(Module),
}

impl Target {
    /// The module, printed in the target language.
    pub fn print(&self) -> (r: String)
        requires
            match *self {
                Target::C(m) => c::printable(m@),
            },
        ensures
            match *self {
                Target::C(m) => r@ == c::c_module(m@),
            },
    {
        match self {
            Target::C(module) => c::codegen(module),
        }
    }
}

} // verus!
