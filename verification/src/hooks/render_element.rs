pub use crate::common::{Element, RenderElementAttributes, RenderElementProps};
use crate::dispatch::{answered_until_success, first_success, hook_first};
use crate::error::Error;
use crate::extension::Extension;
use crate::hooks::Hook;
use crate::host::Host;
use crate::module_loader::ModuleLoader;
use vstd::prelude::*;

verus! {

/// The rendering of an element: the answer of the extension that was the
/// first to give one, where `completed` holds the outcomes in the order in
/// which the calls completed. Fails with the last error where every
/// extension failed, and with `NotFound` where none renders elements.
pub fn render_element(completed: Vec<Result<String, Error>>) -> (r: Result<String, Error>)
    ensures
        r == first_success(completed@),
{
    hook_first(completed)
}

impl<L: ModuleLoader> Host<L> {
    /// The rendering of the element of `props`, where `call` asks one
    /// extension for it: the answer of the first registered extension, in
    /// the order of the ids, that gives one. Fails with the last error
    /// where every extension failed, and with `NotFound` where none renders
    /// elements.
    pub fn render_element<C: Fn(&Extension, Hook, &RenderElementProps) -> Result<String, Error>>(
        &self,
        props: &RenderElementProps,
        call: C,
    ) -> (r: Result<String, Error>)
        requires
            self.wf(),
            forall|ext: &Extension| call.requires((ext, Hook::RenderElement, props)),
        ensures
            exists|outcomes: Seq<Result<String, Error>>|
                #![trigger first_success(outcomes)]
                answered_until_success(
                    call,
                    self.records(Hook::RenderElement),
                    Hook::RenderElement,
                    props,
                    outcomes,
                ) && r == first_success(outcomes),
    {
        self.hook_first(Hook::RenderElement, props, call)
    }
}

} // verus!
