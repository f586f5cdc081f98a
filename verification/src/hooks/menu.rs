pub use crate::common::{MenuItem, MenuKind};
use crate::dispatch::{answered, hook_parallel, successes};
use crate::error::Error;
use crate::extension::Extension;
use crate::hooks::Hook;
use crate::host::Host;
use crate::module_loader::ModuleLoader;
use vstd::prelude::*;

verus! {

/// The items of all the lists in `lists`, list after list.
pub open spec fn all_items(lists: Seq<Vec<MenuItem>>) -> Seq<MenuItem> {
    lists.map_values(|list: Vec<MenuItem>| list@).flatten()
}

/// The items of all the lists in `lists`, list after list.
pub fn flatten(lists: Vec<Vec<MenuItem>>) -> (items: Vec<MenuItem>)
    ensures
        items@ == all_items(lists@),
{
    let ghost all = lists@;
    let mut items: Vec<MenuItem> = Vec::new();
    for list in iter: lists
        invariant
            iter.seq() == all,
            items@ == all_items(all.take(iter.index() as int)),
    {
        let ghost k = iter.index() as int;
        proof {
            let views = all.take(k).map_values(|list: Vec<MenuItem>| list@);
            assert(all.take(k + 1).map_values(|list: Vec<MenuItem>| list@) =~= views.push(
                all[k]@,
            ));
            views.lemma_flatten_push(all[k]@);
        }
        let mut list = list;
        items.append(&mut list);
    }
    proof {
        assert(all.take(all.len() as int) == all);
    }
    items
}

/// The menu that the extensions make together: the items of every
/// extension that answered, in the order of the registry, each extension's
/// items in the order it gave them. Extensions that failed add nothing.
pub fn menu(outcomes: Vec<Result<Vec<MenuItem>, Error>>) -> (r: Result<Vec<MenuItem>, Error>)
    ensures
        r matches Ok(items) && items@ == all_items(successes(outcomes@)),
{
    Ok(flatten(hook_parallel(outcomes)))
}

impl<L: ModuleLoader> Host<L> {
    /// The menu of kind `kind` that the registered extensions make
    /// together, where `call` asks one extension for its items: the items
    /// of every extension that answered, in the order of the ids. This
    /// never fails.
    pub fn menu<C: Fn(&Extension, Hook, &MenuKind) -> Result<Vec<MenuItem>, Error>>(
        &self,
        kind: &MenuKind,
        call: C,
    ) -> (r: Result<Vec<MenuItem>, Error>)
        requires
            self.wf(),
            forall|ext: &Extension| call.requires((ext, Hook::Menu, kind)),
        ensures
            r matches Ok(items) && exists|outcomes: Seq<Result<Vec<MenuItem>, Error>>|
                #![trigger successes(outcomes)]
                answered(call, self.records(Hook::Menu), Hook::Menu, kind, outcomes) && items@
                    == all_items(successes(outcomes)),
    {
        match self.hook_parallel(Hook::Menu, kind, call) {
            Ok(lists) => Ok(flatten(lists)),
            Err(e) => Err(e),
        }
    }
}

} // verus!
