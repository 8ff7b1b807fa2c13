//! The file-system module for scripts.
use vstd::prelude::*;
use quick_js::Context;
use crate::game_core::ScriptModule;

verus! {

/// `quick_js::Context`, a JavaScript context; carried, never looked into.
#[verifier::external_type_specification]
#[verifier::external_body]
pub struct ExContext(Context);

pub struct JSFileSystemModule {
    a: [i32; 5],
}

impl JSFileSystemModule {
    pub closed spec fn values(&self) -> Seq<i32> {
        self.a@
    }
}

impl ScriptModule<Context> for JSFileSystemModule {
    fn new() -> (r: JSFileSystemModule)
        ensures
            r.values() == seq![1i32, 2, 3, 4, 5],
    {
        let r = JSFileSystemModule { a: [1, 2, 3, 4, 5] };
        assert(r.values() =~= seq![1i32, 2, 3, 4, 5]);
        r
    }

    /// Takes the context and keeps nothing of it.
    fn attach_script_context(&self, ctx: Context) {
    }
}

} // verus!
