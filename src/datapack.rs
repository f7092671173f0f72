//! The compiled package: a list of named command scripts.
use vstd::prelude::*;

verus! {

/// A package of command scripts with its metadata.
pub struct Datapack {
    pub description: String,
    pub pack_format: usize,
    pub functions: Vec<Function>,
}

/// One command script: `namespace:name`, one command per line of `content`.
#[derive(Debug, Clone, PartialEq, Eq)]
pub struct Function {
    pub namespace: String,
    pub name: String,
    pub content: String,
}

} // verus!
