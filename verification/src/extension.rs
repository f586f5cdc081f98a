use crate::error::Error;
use crate::hooks::{hook_named, Hook};
use crate::wasm::{
    compile_module, export_views, pre_instantiate, share_template, wasi_linker, wasm_exports,
    ConfiguredEngine, ExportKind,
};
use std::sync::Arc;
use vstd::prelude::*;
use vstd::string::StringExecFns;

verus! {

/// The module of an extension with its imports resolved: what every call
/// of the extension is instantiated from.
pub type Template = Arc<wasmtime::InstancePre<wasmtime_wasi::preview1::WasiP1Ctx>>;

/// A validated and compiled extension: its id, the names of the functions
/// that it exports, and the template that its calls are instantiated from.
pub struct Extension {
    id: String,
    exports: Vec<String>,
    instance_pre: Template,
}

/// An `Extension` in specifications.
pub struct ExtensionView {
    pub id: Seq<char>,
    pub exports: Seq<Seq<char>>,
    pub instance_pre: Template,
}

impl View for Extension {
    type V = ExtensionView;

    closed spec fn view(&self) -> ExtensionView {
        ExtensionView {
            id: self.id@,
            exports: self.exports@.map_values(|s: String| s@),
            instance_pre: self.instance_pre,
        }
    }
}

impl ExtensionView {
    /// Whether the extension provides `hook`: whether it exports a function
    /// under the hook's name. Exports under other names provide nothing.
    pub open spec fn provides(&self, hook: Hook) -> bool {
        exists|i: int| 0 <= i < self.exports.len() && hook_named(#[trigger] self.exports[i]) == Some(hook)
    }
}

/// The names of those exports that are functions, in their order.
pub open spec fn function_names(exports: Seq<(Seq<char>, ExportKind)>) -> Seq<Seq<char>> {
    exports.filter_map(
        |e: (Seq<char>, ExportKind)|
            if e.1 == ExportKind::Func {
                Some(e.0)
            } else {
                None
            },
    )
}

/// What an engine that does not run extensions asynchronously is refused
/// with.
pub open spec fn spec_synchronous_engine() -> Seq<char> {
    "the engine does not run extensions asynchronously"@
}

impl Extension {
    /// Compiles `bytes` and resolves the module's imports against the
    /// functions that the host offers. The extension gets the id `id`, and
    /// it keeps the names of the functions that the module exports. An
    /// engine that does not run extensions asynchronously is refused before
    /// anything is compiled. Beyond that the call fails with the engine's
    /// message where the bytes are no module that the engine takes, or
    /// where an import is none that the host offers.
    pub fn new(engine: &ConfiguredEngine, bytes: &[u8], id: String) -> (r: Result<Extension, Error>)
        ensures
            match r {
                Ok(ext) => {
                    &&& engine.spec_asynchronous()
                    &&& ext@.id == id@
                    &&& ext@.exports == function_names(wasm_exports(bytes@))
                },
                Err(e) => e is Other,
            },
            !engine.spec_asynchronous() ==> (r matches Err(Error::Other(why)) && why@
                == spec_synchronous_engine()),
    {
        if !engine.asynchronous() {
            return Err(
                Error::Other(String::from_str("the engine does not run extensions asynchronously")),
            );
        }
        let (module, exports) = match compile_module(engine.engine(), bytes) {
            Ok(compiled) => compiled,
            Err(why) => {
                return Err(Error::Other(why));
            },
        };
        let linker = match wasi_linker(engine) {
            Ok(linker) => linker,
            Err(why) => {
                return Err(Error::Other(why));
            },
        };
        let instance_pre = match pre_instantiate(&linker, &module) {
            Ok(instance_pre) => instance_pre,
            Err(why) => {
                return Err(Error::Other(why));
            },
        };
        Ok(Extension::from_parts(id, exports, Arc::new(instance_pre)))
    }

    /// The extension with the id `id` whose module has the exports
    /// `exports`, each with its name and its kind. Only the functions are
    /// kept.
    pub fn from_parts(id: String, exports: Vec<(String, ExportKind)>, instance_pre: Template) -> (ext:
        Extension)
        ensures
            ext@.id == id@,
            ext@.exports == function_names(export_views(exports@)),
            ext@.instance_pre == instance_pre,
    {
        let mut names: Vec<String> = Vec::new();
        let mut i: usize = 0;
        while i < exports.len()
            invariant
                i <= exports.len(),
                names@.map_values(|s: String| s@) == function_names(
                    export_views(exports@).take(i as int),
                ),
            decreases exports.len() - i,
        {
            proof {
                export_views(exports@).lemma_filter_map_take_succ(
                    |e: (Seq<char>, ExportKind)|
                        if e.1 == ExportKind::Func {
                            Some(e.0)
                        } else {
                            None
                        },
                    i as int,
                );
            }
            let ghost before = names@;
            if matches!(exports[i].1, ExportKind::Func) {
                names.push(exports[i].0.clone());
                assert(names@.map_values(|s: String| s@) =~= before.map_values(|s: String| s@)
                    + seq![exports@[i as int].0@]);
            }
            i += 1;
        }
        proof {
            assert(export_views(exports@).take(i as int) == export_views(exports@));
        }
        Extension { id, exports: names, instance_pre }
    }

    /// The id of the extension.
    pub fn id(&self) -> (id: &String)
        ensures
            id@ == self@.id,
    {
        &self.id
    }

    /// The names of the functions that the extension exports.
    pub fn exports(&self) -> (exports: &Vec<String>)
        ensures
            exports@.map_values(|s: String| s@) == self@.exports,
    {
        &self.exports
    }

    /// The template that calls of the extension are instantiated from.
    pub fn instance_pre(&self) -> (template: &Template)
        ensures
            *template == self@.instance_pre,
    {
        &self.instance_pre
    }

    /// Whether the extension provides `hook`.
    pub fn provides(&self, hook: Hook) -> (r: bool)
        ensures
            r == self@.provides(hook),
    {
        let mut i: usize = 0;
        while i < self.exports.len()
            invariant
                i <= self.exports.len(),
                forall|j: int|
                    0 <= j < i ==> hook_named(#[trigger] self@.exports[j]) != Some(hook),
            decreases self.exports.len() - i,
        {
            match Hook::from_str(self.exports[i].as_str()) {
                Ok(found) => {
                    if found == hook {
                        assert(hook_named(self@.exports[i as int]) == Some(hook));
                        return true;
                    }
                },
                Err(_) => {},
            }
            i += 1;
        }
        false
    }

    /// A second record of the same extension. It shares the template.
    pub fn duplicate(&self) -> (ext: Extension)
        ensures
            ext@ == self@,
    {
        let mut names: Vec<String> = Vec::new();
        let mut i: usize = 0;
        while i < self.exports.len()
            invariant
                i <= self.exports.len(),
                names@.len() == i,
                forall|j: int| 0 <= j < i ==> (#[trigger] names@[j])@ == self.exports@[j]@,
            decreases self.exports.len() - i,
        {
            names.push(self.exports[i].clone());
            i += 1;
        }
        proof {
            assert(names@.map_values(|s: String| s@) =~= self.exports@.map_values(|s: String| s@));
        }
        Extension {
            id: self.id.clone(),
            exports: names,
            instance_pre: share_template(&self.instance_pre),
        }
    }
}

/// The parts of one call of an extension, in their order.
#[derive(Debug, Clone, Copy, PartialEq, Eq, Structural)]
pub enum CallPhase {
    /// A fresh instance is made from the template, with a fresh context:
    /// no resources, the first permissions, the request as its input.
    Instantiate,
    /// The function that sets the instance up runs.
    Start,
    /// The function of the hook runs.
    Hook,
}

/// How a part of a call failed.
#[derive(Debug, Clone, PartialEq, Eq)]
pub enum CallFailure {
    /// The extension stopped with a trap. The text is the trap's message.
    Trap(String),
    /// The host could not do its part: the instance could not be made, or
    /// it exports no such function. The text says what went wrong.
    Host(String),
}

/// What follows a part of a call.
#[derive(Debug, Clone, PartialEq, Eq)]
pub enum CallStep {
    /// Run this part next.
    Run(CallPhase),
    /// The call is done. What the extension wrote to its output is its
    /// answer.
    Collect,
    /// The call failed with this error.
    Failed(Error),
}

/// The name of the function that sets an instance up.
pub open spec fn spec_start_name() -> Seq<char> {
    "_start"@
}

/// The name of the exported function that the part `phase` of a call of
/// `hook` runs, if it runs one.
pub open spec fn spec_export_of(phase: CallPhase, hook: Hook) -> Option<Seq<char>> {
    match phase {
        CallPhase::Instantiate => None,
        CallPhase::Start => Some(spec_start_name()),
        CallPhase::Hook => Some(hook.spec_name()),
    }
}

/// The name of the exported function that the part `phase` of a call of
/// `hook` runs, if it runs one.
pub fn export_of(phase: CallPhase, hook: Hook) -> (name: Option<&'static str>)
    ensures
        match name {
            Some(n) => spec_export_of(phase, hook) == Some(n@),
            None => spec_export_of(phase, hook).is_none(),
        },
{
    match phase {
        CallPhase::Instantiate => None,
        CallPhase::Start => Some("_start"),
        CallPhase::Hook => Some(hook.name()),
    }
}

/// What follows the part `phase` of a call that ended with `outcome`.
pub open spec fn spec_call_next(phase: CallPhase, outcome: Result<(), CallFailure>) -> CallStep {
    match outcome {
        Ok(()) => match phase {
            CallPhase::Instantiate => CallStep::Run(CallPhase::Start),
            CallPhase::Start => CallStep::Run(CallPhase::Hook),
            CallPhase::Hook => CallStep::Collect,
        },
        Err(CallFailure::Host(why)) => CallStep::Failed(Error::Other(why)),
        Err(CallFailure::Trap(why)) => match phase {
            CallPhase::Instantiate => CallStep::Failed(Error::Other(why)),
            CallPhase::Start => CallStep::Failed(Error::HookInitialization(why)),
            CallPhase::Hook => CallStep::Failed(Error::HookExecution(why)),
        },
    }
}

/// The first part of every call.
pub fn call_start() -> (step: CallStep)
    ensures
        step == CallStep::Run(CallPhase::Instantiate),
{
    CallStep::Run(CallPhase::Instantiate)
}

/// What follows the part `phase` of a call that ended with `outcome`: the
/// next part, or the end of the call. A trap while the instance is set up
/// fails the call with `HookInitialization`, a trap in the hook's function
/// with `HookExecution`.
pub fn call_next(phase: CallPhase, outcome: Result<(), CallFailure>) -> (step: CallStep)
    ensures
        step == spec_call_next(phase, outcome),
{
    match outcome {
        Ok(()) => match phase {
            CallPhase::Instantiate => CallStep::Run(CallPhase::Start),
            CallPhase::Start => CallStep::Run(CallPhase::Hook),
            CallPhase::Hook => CallStep::Collect,
        },
        Err(CallFailure::Host(why)) => CallStep::Failed(Error::Other(why)),
        Err(CallFailure::Trap(why)) => match phase {
            CallPhase::Instantiate => CallStep::Failed(Error::Other(why)),
            CallPhase::Start => CallStep::Failed(Error::HookInitialization(why)),
            CallPhase::Hook => CallStep::Failed(Error::HookExecution(why)),
        },
    }
}

/// What follows the part `phase` of an invocation that ended with
/// `outcome`. An invocation runs an extension for its own sake, not for a
/// hook: it is a call without the third part. Once the function that sets
/// the instance up has returned the invocation is done.
pub open spec fn spec_invoke_next(phase: CallPhase, outcome: Result<(), CallFailure>) -> CallStep {
    match spec_call_next(phase, outcome) {
        CallStep::Run(CallPhase::Hook) => CallStep::Collect,
        step => step,
    }
}

/// What follows the part `phase` of an invocation that ended with
/// `outcome`: the next part, or the end of the invocation. No function of
/// a hook is run.
pub fn invoke_next(phase: CallPhase, outcome: Result<(), CallFailure>) -> (step: CallStep)
    ensures
        step == spec_invoke_next(phase, outcome),
        step != CallStep::Run(CallPhase::Hook),
{
    match call_next(phase, outcome) {
        CallStep::Run(CallPhase::Hook) => CallStep::Collect,
        step => step,
    }
}

/// A call gets to its answer only through all three parts, each without a
/// failure, and in their order.
pub proof fn lemma_call_order(phase: CallPhase, outcome: Result<(), CallFailure>)
    ensures
        spec_call_next(phase, outcome) == CallStep::Collect <==> phase == CallPhase::Hook
            && outcome.is_ok(),
        spec_call_next(phase, outcome) == CallStep::Run(CallPhase::Hook) <==> phase
            == CallPhase::Start && outcome.is_ok(),
        spec_call_next(phase, outcome) == CallStep::Run(CallPhase::Start) <==> phase
            == CallPhase::Instantiate && outcome.is_ok(),
        spec_call_next(phase, outcome) != CallStep::Run(CallPhase::Instantiate),
        outcome.is_err() ==> spec_call_next(phase, outcome) is Failed,
{
}

} // verus!
