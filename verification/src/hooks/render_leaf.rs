pub use crate::common::{JsonValue, RenderLeafAttributes, RenderLeafProps, Text};
use crate::dispatch::{folded, hook_fold_next, hook_fold_start, FoldStep};
use crate::error::Error;
use crate::extension::Extension;
use crate::hooks::Hook;
use crate::host::Host;
use crate::module_loader::ModuleLoader;
use vstd::prelude::*;

verus! {

/// Whether `next` is the request that follows `props` once an extension
/// rendered the leaf as `rendered`: the same leaf, text and attributes, and
/// the rendering as the one child.
pub open spec fn follows(props: RenderLeafProps, rendered: Seq<char>, next: RenderLeafProps) -> bool {
    &&& next.children@.len() == 1
    &&& next.children@[0] matches JsonValue::String(child)
    &&& child@ == rendered
    &&& next.leaf.text@ == props.leaf.text@
    &&& next.text.text@ == props.text.text@
    &&& next.attributes == props.attributes
}

/// The request for the next extension, once one rendered the leaf of
/// `props` as `rendered`.
pub fn next_props(props: &RenderLeafProps, rendered: String) -> (next: RenderLeafProps)
    ensures
        follows(*props, rendered@, next),
{
    let mut children: Vec<JsonValue> = Vec::new();
    children.push(JsonValue::String(rendered));
    RenderLeafProps {
        children,
        leaf: Text { text: props.leaf.text.clone() },
        text: Text { text: props.text.text.clone() },
        attributes: props.attributes,
    }
}

/// The first step of the rendering of a leaf by `providers` extensions,
/// one after the other: the first is asked `props`.
pub fn render_leaf_start(providers: usize, props: RenderLeafProps) -> (step: FoldStep<
    RenderLeafProps,
    String,
>)
    ensures
        match step {
            FoldStep::Call { index, request } => providers > 0 && index == 0 && request == props,
            FoldStep::Failed(e) => providers == 0 && e == Error::NotFound,
            FoldStep::Done(_) => false,
        },
{
    hook_fold_start(providers, props)
}

/// The next step of the rendering of a leaf, once the extension at place
/// `index` gave `outcome`. The rendering of the last extension is the
/// result; the rendering of another goes to the next extension as the one
/// child of the leaf; a failure fails the whole.
pub fn render_leaf_next(
    providers: usize,
    index: usize,
    props: &RenderLeafProps,
    outcome: Result<String, Error>,
) -> (step: FoldStep<RenderLeafProps, String>)
    requires
        index < providers,
    ensures
        match outcome {
            Err(e) => step == FoldStep::<RenderLeafProps, String>::Failed(e),
            Ok(rendered) => if index + 1 < providers {
                &&& step matches FoldStep::Call { index: next, request }
                &&& next == index + 1
                &&& follows(*props, rendered@, request)
            } else {
                step == FoldStep::<RenderLeafProps, String>::Done(rendered)
            },
        },
{
    let f = |rendered: String| -> (next: RenderLeafProps)
        ensures
            follows(*props, rendered@, next),
        { next_props(props, rendered) };
    hook_fold_next(providers, index, outcome, &f)
}

/// Whether `result` is what the rendering of a leaf by `exts` comes to,
/// one after the other, where `call` asks an extension: the first is asked
/// `request`, a failure is the result of the whole, the rendering of the
/// last is the result, and the rendering of any other goes to the rest as
/// the one child of the leaf of `props`.
pub open spec fn leaf_rendered<
    C: Fn(&Extension, Hook, &RenderLeafProps) -> Result<String, Error>,
>(
    call: C,
    props: RenderLeafProps,
    exts: Seq<Extension>,
    request: &RenderLeafProps,
    result: Result<String, Error>,
) -> bool
    decreases exts.len(),
{
    if exts.len() == 0 {
        result == Err::<String, Error>(Error::NotFound)
    } else {
        exists|outcome: Result<String, Error>|
            #![trigger call.ensures((&exts[0], Hook::RenderLeaf, request), outcome)]
            call.ensures((&exts[0], Hook::RenderLeaf, request), outcome) && match outcome {
                Err(e) => result == Err::<String, Error>(e),
                Ok(rendered) => if exts.len() == 1 {
                    result == Ok::<String, Error>(rendered)
                } else {
                    exists|next: RenderLeafProps|
                        #![trigger follows(props, rendered@, next)]
                        follows(props, rendered@, next) && leaf_rendered(
                            call,
                            props,
                            exts.drop_first(),
                            &next,
                            result,
                        )
                },
            }
    }
}

proof fn lemma_leaf_rendered<
    C: Fn(&Extension, Hook, &RenderLeafProps) -> Result<String, Error>,
    F: Fn(String) -> RenderLeafProps,
>(
    call: C,
    f: F,
    props: RenderLeafProps,
    exts: Seq<Extension>,
    request: &RenderLeafProps,
    result: Result<String, Error>,
)
    requires
        folded(call, f, exts, Hook::RenderLeaf, request, result),
        forall|rendered: String, next: RenderLeafProps|
            #[trigger] f.ensures((rendered,), next) ==> follows(props, rendered@, next),
    ensures
        leaf_rendered(call, props, exts, request, result),
    decreases exts.len(),
{
    if exts.len() > 0 {
        let outcome = choose|outcome: Result<String, Error>|
            #![trigger call.ensures((&exts[0], Hook::RenderLeaf, request), outcome)]
            call.ensures((&exts[0], Hook::RenderLeaf, request), outcome) && match outcome {
                Err(e) => result == Err::<String, Error>(e),
                Ok(r) => if exts.len() == 1 {
                    result == Ok::<String, Error>(r)
                } else {
                    exists|next: RenderLeafProps|
                        #![trigger f.ensures((r,), next)]
                        f.ensures((r,), next) && folded(
                            call,
                            f,
                            exts.drop_first(),
                            Hook::RenderLeaf,
                            &next,
                            result,
                        )
                },
            };
        match outcome {
            Err(e) => {},
            Ok(r) => {
                if exts.len() > 1 {
                    let next = choose|next: RenderLeafProps|
                        #![trigger f.ensures((r,), next)]
                        f.ensures((r,), next) && folded(
                            call,
                            f,
                            exts.drop_first(),
                            Hook::RenderLeaf,
                            &next,
                            result,
                        );
                    lemma_leaf_rendered(call, f, props, exts.drop_first(), &next, result);
                    assert(follows(props, r@, next));
                }
            },
        }
    }
}

impl<L: ModuleLoader> Host<L> {
    /// The rendering of the leaf of `props` by all the registered
    /// extensions, one after the other in the order of the ids, where
    /// `call` asks one extension for its rendering. The first is asked
    /// `props`; each next one is asked for the same leaf with the rendering
    /// before it as the one child; the rendering of the last is returned.
    /// The first failure ends the whole and is its result. Fails with
    /// `NotFound` where no extension renders leaves.
    pub fn render_leaf<C: Fn(&Extension, Hook, &RenderLeafProps) -> Result<String, Error>>(
        &self,
        props: &RenderLeafProps,
        call: C,
    ) -> (r: Result<String, Error>)
        requires
            self.wf(),
            forall|ext: &Extension, request: &RenderLeafProps|
                call.requires((ext, Hook::RenderLeaf, request)),
        ensures
            leaf_rendered(call, *props, self.records(Hook::RenderLeaf), props, r),
    {
        let f = |rendered: String| -> (next: RenderLeafProps)
            ensures
                follows(*props, rendered@, next),
            { next_props(props, rendered) };
        let r = self.hook_fold(Hook::RenderLeaf, props, call, f);
        proof {
            lemma_leaf_rendered(call, f, *props, self.records(Hook::RenderLeaf), props, r);
        }
        r
    }
}

} // verus!
