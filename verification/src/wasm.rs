//! What this library takes on trust from the crates that it calls: their
//! types, which it only hands on, and small functions around the calls
//! that it makes into them. Those functions are not proved. Where one has
//! no `ensures`, nothing is claimed of what it returns; where one has a
//! `requires`, it leaves out what the call would panic on.

use std::sync::Arc;
use vstd::prelude::*;

verus! {

/// `wasmtime::Engine`: compiles modules and keeps the epoch.
#[verifier::external_type_specification]
#[verifier::external_body]
pub struct ExEngine(wasmtime::Engine);

/// `wasmtime::Module`: a compiled module.
#[verifier::external_type_specification]
#[verifier::external_body]
pub struct ExModule(wasmtime::Module);

/// `wasmtime::Linker`: the host functions that modules can import.
#[verifier::external_type_specification]
#[verifier::external_body]
#[verifier::reject_recursive_types(T)]
pub struct ExLinker<T>(wasmtime::Linker<T>);

/// `wasmtime::InstancePre`: a module with its imports resolved.
#[verifier::external_type_specification]
#[verifier::external_body]
#[verifier::reject_recursive_types(T)]
pub struct ExInstancePre<T>(wasmtime::InstancePre<T>);

/// `wasmtime_wasi::preview1::WasiP1Ctx`: the state of WASI in a store.
#[verifier::external_type_specification]
#[verifier::external_body]
pub struct ExWasiP1Ctx(wasmtime_wasi::preview1::WasiP1Ctx);

/// `futures_util::future::AbortHandle`: the handle that stops a task.
#[verifier::external_type_specification]
#[verifier::external_body]
pub struct ExAbortHandle(futures_util::future::AbortHandle);

/// One item of a binary, as far as the host looks at it.
#[derive(Debug, Clone, PartialEq, Eq)]
pub enum Section {
    /// A custom section: its name and what it holds.
    Custom { name: String, data: Vec<u8> },
    /// Any other item.
    Other,
    /// The place at which the binary stops making sense. Nothing follows it.
    Malformed,
}

/// A `Section` in specifications.
pub enum SectionView {
    Custom { name: Seq<char>, data: Seq<u8> },
    Other,
    Malformed,
}

impl View for Section {
    type V = SectionView;

    open spec fn view(&self) -> SectionView {
        match self {
            Section::Custom { name, data } => SectionView::Custom { name: name@, data: data@ },
            Section::Other => SectionView::Other,
            Section::Malformed => SectionView::Malformed,
        }
    }
}

/// The settings of an engine that the host decides. All others are the
/// engine's defaults.
#[derive(Debug, Clone, Copy, PartialEq, Eq, Structural)]
pub struct EngineSettings {
    /// Whether extensions run asynchronously, so that a call can be
    /// suspended and dropped.
    pub async_support: bool,
    /// Whether compiled code checks the epoch, so that a tick makes an
    /// extension yield.
    pub epoch_interruption: bool,
}

/// An engine, together with what this library knows of its settings: for
/// every engine whether it runs extensions asynchronously, and for one that
/// this library made all the settings that it was made with.
pub struct ConfiguredEngine {
    asynchronous: bool,
    settings: Option<EngineSettings>,
    engine: wasmtime::Engine,
}

impl ConfiguredEngine {
    /// Whether the engine runs extensions asynchronously. Only such an
    /// engine can compile an extension.
    pub closed spec fn spec_asynchronous(&self) -> bool {
        self.asynchronous
    }

    /// The settings that the engine was made with, where they are known.
    pub closed spec fn spec_settings(&self) -> Option<EngineSettings> {
        self.settings
    }

    /// The engine itself.
    pub closed spec fn spec_engine(&self) -> wasmtime::Engine {
        self.engine
    }

    /// An engine with the default configuration but for `settings`, or the
    /// text of the engine's error where it takes no such configuration.
    pub fn with_settings(settings: EngineSettings) -> (r: Result<ConfiguredEngine, String>)
        ensures
            r matches Ok(made) ==> made.spec_settings() == Some(settings)
                && made.spec_asynchronous() == settings.async_support,
    {
        match engine_with(settings) {
            Ok(engine) => Ok(
                ConfiguredEngine {
                    asynchronous: settings.async_support,
                    settings: Some(settings),
                    engine,
                },
            ),
            Err(why) => Err(why),
        }
    }

    /// An engine that was made elsewhere. The engine is asked whether it
    /// runs extensions asynchronously; nothing else is known of its
    /// settings.
    pub fn from_engine(engine: wasmtime::Engine) -> (made: ConfiguredEngine)
        ensures
            made.spec_settings().is_none(),
            made.spec_engine() == engine,
    {
        let asynchronous = engine_is_async(&engine);
        ConfiguredEngine { asynchronous, settings: None, engine }
    }

    /// Whether the engine runs extensions asynchronously.
    pub fn asynchronous(&self) -> (asynchronous: bool)
        ensures
            asynchronous == self.spec_asynchronous(),
    {
        self.asynchronous
    }

    /// The settings that the engine was made with, where they are known.
    pub fn settings(&self) -> (settings: Option<EngineSettings>)
        ensures
            settings == self.spec_settings(),
    {
        self.settings
    }

    /// The engine itself.
    pub fn engine(&self) -> (engine: &wasmtime::Engine)
        ensures
            *engine == self.spec_engine(),
    {
        &self.engine
    }
}

/// What a module can export.
#[derive(Debug, Clone, Copy, PartialEq, Eq, Structural)]
pub enum ExportKind {
    Func,
    Global,
    Table,
    Memory,
    Tag,
}

/// What `wasmparser` makes of a binary: its items in their order.
pub uninterp spec fn wasm_sections(bytes: Seq<u8>) -> Seq<SectionView>;

/// `wasmparser::Parser::parse_all`, from offset 0: the items of `bytes` in
/// their order, each custom section with its name and contents. Where the
/// parser reports an error the list ends with `Malformed`. The parser reads
/// nothing but `bytes`, so the same bytes always give the same list.
#[verifier::external_body]
pub(crate) fn read_sections(bytes: &[u8]) -> (out: Vec<Section>)
    ensures
        out@.map_values(|s: Section| s@) == wasm_sections(bytes@),
{
    wasmparser::Parser::new(0).parse_all(bytes).map(
        |payload| match payload {
            Ok(wasmparser::Payload::CustomSection(section)) => Section::Custom {
                name: section.name().to_string(),
                data: section.data().to_vec(),
            },
            Ok(_) => Section::Other,
            Err(_) => Section::Malformed,
        },
    ).collect()
}

/// `wasmtime::Config::new`, `Config::async_support`,
/// `Config::epoch_interruption` and `wasmtime::Engine::new`: an engine made
/// with the default configuration but for `settings`, or the text of the
/// engine's error where it takes no such configuration.
#[verifier::external_body]
pub(crate) fn engine_with(settings: EngineSettings) -> Result<wasmtime::Engine, String> {
    let mut config = wasmtime::Config::new();
    config.async_support(settings.async_support);
    config.epoch_interruption(settings.epoch_interruption);
    wasmtime::Engine::new(&config).map_err(|e| e.to_string())
}

/// `wasmtime::Engine::is_async`: whether `engine` was configured to run
/// its modules asynchronously.
#[verifier::external_body]
pub(crate) fn engine_is_async(engine: &wasmtime::Engine) -> bool {
    engine.is_async()
}

/// `wasmtime::Module::validate`: whether `bytes` are a valid module for
/// `engine`, and the text of the engine's error where they are not. Nothing
/// is said of the outcome: it depends on how the engine was configured.
#[verifier::external_body]
pub(crate) fn validate_module(engine: &wasmtime::Engine, bytes: &[u8]) -> Result<(), String> {
    wasmtime::Module::validate(engine, bytes).map_err(|e| e.to_string())
}

/// What a module that was compiled from a binary exports: the name and the
/// kind of each export, in the module's order.
pub uninterp spec fn wasm_exports(bytes: Seq<u8>) -> Seq<(Seq<char>, ExportKind)>;

/// Exports as specifications speak of them: each name as a sequence of
/// characters.
pub open spec fn export_views(exports: Seq<(String, ExportKind)>) -> Seq<(Seq<char>, ExportKind)> {
    exports.map_values(|e: (String, ExportKind)| (e.0@, e.1))
}

/// `wasmtime::Module::new` and `Module::exports`: compiles `bytes`, or
/// gives the text of the engine's error. With the module come the name and
/// the kind of each of its exports, in the module's order. Whether the
/// engine takes the bytes depends on its configuration; what a module
/// exports is read from the bytes alone, so the same bytes always give the
/// same exports.
#[verifier::external_body]
pub(crate) fn compile_module(engine: &wasmtime::Engine, bytes: &[u8]) -> (r: Result<
    (wasmtime::Module, Vec<(String, ExportKind)>),
    String,
>)
    ensures
        r matches Ok(compiled) ==> export_views(compiled.1@) == wasm_exports(bytes@),
{
    let module = wasmtime::Module::new(engine, bytes).map_err(|e| e.to_string())?;
    let kind = |ty: wasmtime::ExternType| match ty {
        wasmtime::ExternType::Func(_) => ExportKind::Func,
        wasmtime::ExternType::Global(_) => ExportKind::Global,
        wasmtime::ExternType::Table(_) => ExportKind::Table,
        wasmtime::ExternType::Memory(_) => ExportKind::Memory,
        wasmtime::ExternType::Tag(_) => ExportKind::Tag,
    };
    let exports = module.exports().map(|e| (e.name().to_string(), kind(e.ty()))).collect();
    Ok((module, exports))
}

/// `wasmtime::Linker::new` and
/// `wasmtime_wasi::preview1::add_to_linker_async`: a linker for the engine
/// that defines the functions of WASI and nothing else, or the text of the
/// error. The functions of WASI are asynchronous, and a linker panics when
/// such a function is defined for an engine that does not run its modules
/// asynchronously: those engines are left out.
#[verifier::external_body]
pub(crate) fn wasi_linker(engine: &ConfiguredEngine) -> Result<
    wasmtime::Linker<wasmtime_wasi::preview1::WasiP1Ctx>,
    String,
>
    requires
        engine.spec_asynchronous(),
{
    let mut linker = wasmtime::Linker::new(&engine.engine);
    wasmtime_wasi::preview1::add_to_linker_async(&mut linker, |cx| cx).map(|()| linker).map_err(
        |e| e.to_string(),
    )
}

/// `wasmtime::Engine::increment_epoch`: moves the engine's epoch on by one.
/// Every store of the engine that has reached its deadline then yields.
#[verifier::external_body]
pub(crate) fn increment_epoch(engine: &wasmtime::Engine) {
    engine.increment_epoch()
}

/// `futures_util::future::AbortHandle::abort`: tells the task that belongs
/// to the handle to stop. The task is dropped when it is polled next.
#[verifier::external_body]
pub(crate) fn abort_task(handle: &futures_util::future::AbortHandle) {
    handle.abort()
}

/// `Arc::clone`: another handle to the same template. The two are equal, as
/// any two handles to one value are.
#[verifier::external_body]
pub(crate) fn share_template(
    template: &Arc<wasmtime::InstancePre<wasmtime_wasi::preview1::WasiP1Ctx>>,
) -> (shared: Arc<wasmtime::InstancePre<wasmtime_wasi::preview1::WasiP1Ctx>>)
    ensures
        shared == *template,
{
    Arc::clone(template)
}

/// `wasmtime::Linker::instantiate_pre`: resolves the imports of `module`
/// once, for every later instantiation, or gives the text of the error.
#[verifier::external_body]
pub(crate) fn pre_instantiate(
    linker: &wasmtime::Linker<wasmtime_wasi::preview1::WasiP1Ctx>,
    module: &wasmtime::Module,
) -> Result<wasmtime::InstancePre<wasmtime_wasi::preview1::WasiP1Ctx>, String> {
    linker.instantiate_pre(module).map_err(|e| e.to_string())
}

} // verus!
