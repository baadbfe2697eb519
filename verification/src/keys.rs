//! Key identity, engine configuration toggles, and the evaluation errors.

use vstd::prelude::*;

verus! {

/// Identity of one computation: a key-type tag and an optional integer
/// argument. `tag` indexes the key types registered with the engine.
#[derive(Clone, Copy, PartialEq, Eq, Structural, Debug)]
pub struct Key {
    pub tag: u64,
    pub has_arg: bool,
    pub arg: u64,
}

impl Key {
    /// A key of a type that carries no argument.
    pub fn plain(tag: u64) -> (k: Key)
        ensures
            k == (Key { tag, has_arg: false, arg: 0 }),
    {
        Key { tag, has_arg: false, arg: 0 }
    }

    /// A key of a type parameterised by one integer argument.
    pub fn with_arg(tag: u64, arg: u64) -> (k: Key)
        ensures
            k == (Key { tag, has_arg: true, arg }),
    {
        Key { tag, has_arg: true, arg }
    }
}

/// Whether the engine checks, on every nested request, that the requested
/// key is not already on the active call chain.
#[derive(Clone, Copy, PartialEq, Eq, Structural, Debug)]
pub enum DetectCycles {
    Enabled,
    Disabled,
}

/// What happens to an in-flight computation that is no longer wanted:
/// either it runs to completion anyway, or it is proactively cancelled.
#[derive(Clone, Copy, PartialEq, Eq, Structural, Debug)]
pub enum WhichSpawner {
    RunToCompletion,
    ExplicitCancel,
}

/// Failure of one evaluation. The variants that carry a chain report the
/// dependency chain, outermost request first, that led to the key at fault.
#[derive(Clone, Debug, PartialEq, Eq)]
pub enum DiceError {
    /// The requested key is already being computed further up its own call
    /// chain; the cycle runs from the repeated key back to itself.
    Cycle { cycle: Vec<Key> },
    /// A compute routine failed, or the nesting depth limit was exhausted.
    Compute { chain: Vec<Key> },
    /// The computation was cancelled before it produced a value, so no
    /// result is known; this is never memoized as a cached failure.
    Cancelled,
    /// The key does not match any declaration in the registry.
    Registry { key: Key, chain: Vec<Key> },
}

} // verus!
