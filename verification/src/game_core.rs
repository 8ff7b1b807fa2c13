//! Modules that a script context can be given.
use vstd::prelude::*;

verus! {

/// A module that is made and then attached to a script context of type `T`.
pub trait ScriptModule<T>: Sized {
    fn new() -> Self;

    fn attach_script_context(&self, ctx: T);
}

} // verus!
