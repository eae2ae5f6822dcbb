use vstd::prelude::*;

verus! {

/// Which bind groups a shader expects: a single draw, or instanced drawing with a
/// storage buffer of instances.
#[derive(PartialEq, Eq, Debug, Clone, Copy, Structural)]
pub enum ShaderKind {
    DrawSingle,
    Instanced,
}

} // verus!
