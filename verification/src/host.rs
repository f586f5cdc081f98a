pub use crate::registry::{
    has_key, key_lt, ordered, providers_of, registered, unloaded, value_of, Entry, EntryView,
    HookKey, HookKeyView, HookRange, Registry,
};
use crate::error::Error;
use crate::extension::{Extension, ExtensionView};
use crate::hooks::Hook;
use crate::module_loader::ModuleLoader;
use crate::text::text_lt;
use crate::extension::function_names;
use crate::wasm::{wasm_exports, ConfiguredEngine, EngineSettings};
use vstd::prelude::*;
use vstd::string::StringExecFns;

verus! {

/// The host: an engine, a way to load modules, and the registry of the
/// extensions that were loaded, by hook and id.
pub struct Host<L: ModuleLoader> {
    engine: ConfiguredEngine,
    module_loader: L,
    registry: Registry,
}

impl<L: ModuleLoader> Host<L> {
    /// The registry: its entries in their order.
    pub closed spec fn entries(&self) -> Seq<EntryView> {
        self.registry.entries()
    }

    /// Whether the registry is in order. Every host that this library
    /// hands out is.
    pub open spec fn wf(&self) -> bool {
        ordered(self.entries())
    }

    /// Whether the extension `id` is registered for `hook`.
    pub open spec fn provides(&self, hook: Hook, id: Seq<char>) -> bool {
        has_key(self.entries(), HookKeyView { hook, extension: id })
    }

    /// The extension that is registered for `hook` under `id`.
    pub open spec fn provider(&self, hook: Hook, id: Seq<char>) -> ExtensionView {
        value_of(self.entries(), HookKeyView { hook, extension: id })
    }

    /// The extensions that are registered for `hook`, in the order of
    /// their ids.
    pub open spec fn providers(&self, hook: Hook) -> Seq<ExtensionView> {
        providers_of(self.entries(), hook)
    }

    /// The records of the extensions that are registered for `hook`, in the
    /// order of their ids.
    pub closed spec fn records(&self, hook: Hook) -> Seq<Extension> {
        self.registry.records(hook)
    }

    /// The records for a hook are the records of its providers.
    pub proof fn lemma_records(&self, hook: Hook)
        ensures
            self.records(hook).map_values(|e: Extension| e@) == self.providers(hook),
    {
        self.registry.lemma_records(hook);
    }

    /// The loader of the host.
    pub closed spec fn spec_module_loader(&self) -> L {
        self.module_loader
    }

    /// The engine of the host.
    pub closed spec fn spec_engine(&self) -> wasmtime::Engine {
        self.engine.spec_engine()
    }

    /// The settings that the engine of the host was made with, where the
    /// host made it.
    pub closed spec fn spec_settings(&self) -> Option<EngineSettings> {
        self.engine.spec_settings()
    }

    /// Whether the engine of the host runs extensions asynchronously. A
    /// host whose engine does not can load no extension.
    pub closed spec fn spec_asynchronous(&self) -> bool {
        self.engine.spec_asynchronous()
    }

    /// The engine of the host with what is known of its settings.
    pub closed spec fn spec_configured(&self) -> ConfiguredEngine {
        self.engine
    }

    /// The settings that every host makes its engine with: extensions run
    /// asynchronously, and the epoch interrupts them.
    pub open spec fn spec_host_settings() -> EngineSettings {
        EngineSettings { async_support: true, epoch_interruption: true }
    }

    /// The settings that every host makes its engine with: extensions run
    /// asynchronously, and the epoch interrupts them.
    pub fn host_settings() -> (settings: EngineSettings)
        ensures
            settings == Self::spec_host_settings(),
    {
        EngineSettings { async_support: true, epoch_interruption: true }
    }

    /// A host with an empty registry, and an engine of its own that runs
    /// extensions asynchronously and lets the epoch interrupt them. Fails
    /// with the engine's message where the engine cannot be made.
    pub fn new(module_loader: L) -> (r: Result<Self, Error>)
        ensures
            match r {
                Ok(host) => {
                    &&& host.wf()
                    &&& host.entries().len() == 0
                    &&& host.spec_module_loader() == module_loader
                    &&& host.spec_settings() == Some(Self::spec_host_settings())
                    &&& host.spec_asynchronous()
                },
                Err(e) => e is Other,
            },
    {
        match ConfiguredEngine::with_settings(Self::host_settings()) {
            Ok(engine) => Ok(Host { engine, module_loader, registry: Registry::new() }),
            Err(why) => Err(Error::Other(why)),
        }
    }

    /// A host with an empty registry that compiles and runs its extensions
    /// with `engine`: the engine that the process made for all its hosts,
    /// and whose epoch its ticker moves on. The host asks such an engine
    /// whether it runs extensions asynchronously, and knows nothing else
    /// of its settings.
    pub fn with_engine(module_loader: L, engine: wasmtime::Engine) -> (host: Self)
        ensures
            host.wf(),
            host.entries().len() == 0,
            host.spec_module_loader() == module_loader,
            host.spec_engine() == engine,
            host.spec_settings().is_none(),
    {
        Host {
            engine: ConfiguredEngine::from_engine(engine),
            module_loader,
            registry: Registry::new(),
        }
    }

    /// The engine that compiles and runs the extensions.
    pub fn engine(&self) -> (engine: &wasmtime::Engine)
        ensures
            *engine == self.spec_engine(),
    {
        self.engine.engine()
    }

    /// The engine of the host with what is known of its settings.
    pub fn configured(&self) -> (engine: &ConfiguredEngine)
        ensures
            *engine == self.spec_configured(),
            engine.spec_engine() == self.spec_engine(),
            engine.spec_settings() == self.spec_settings(),
            engine.spec_asynchronous() == self.spec_asynchronous(),
    {
        &self.engine
    }

    /// The settings that the engine of the host was made with, where the
    /// host made it.
    pub fn settings(&self) -> (settings: Option<EngineSettings>)
        ensures
            settings == self.spec_settings(),
    {
        self.engine.settings()
    }

    /// The loader that this host gets the bytes of its modules from.
    pub fn module_loader(&self) -> (loader: &L)
        ensures
            *loader == self.spec_module_loader(),
    {
        &self.module_loader
    }

    /// Takes the extension `id` out of the registry: it is registered for
    /// no hook afterwards, and the other extensions are as before.
    pub fn unload(&mut self, id: &str)
        requires
            old(self).wf(),
        ensures
            final(self).wf(),
            final(self).spec_engine() == old(self).spec_engine(),
            final(self).spec_settings() == old(self).spec_settings(),
            final(self).spec_configured() == old(self).spec_configured(),
            final(self).spec_module_loader() == old(self).spec_module_loader(),
            unloaded(old(self).entries(), final(self).entries(), id@),
    {
        self.registry.unload(id);
    }

    /// Puts `ext` into the registry: under each hook that it provides, and
    /// under no other. An extension with the same id that was registered
    /// before is replaced.
    pub fn register(&mut self, ext: Extension)
        requires
            old(self).wf(),
        ensures
            final(self).wf(),
            final(self).spec_engine() == old(self).spec_engine(),
            final(self).spec_settings() == old(self).spec_settings(),
            final(self).spec_configured() == old(self).spec_configured(),
            final(self).spec_module_loader() == old(self).spec_module_loader(),
            registered(old(self).entries(), final(self).entries(), ext@),
    {
        self.registry.register(ext);
    }

    /// The extensions that are registered for `hook`, in the strict order
    /// of their ids.
    pub fn lookup(&self, hook: Hook) -> (out: Vec<&Extension>)
        requires
            self.wf(),
        ensures
            out@.map_values(|e: &Extension| *e) == self.records(hook),
            out@.map_values(|e: &Extension| e@) == self.providers(hook),
            forall|a: int, b: int|
                0 <= a < b < out@.len() ==> text_lt(
                    (#[trigger] out@[a])@.id,
                    (#[trigger] out@[b])@.id,
                ),
            forall|a: int|
                0 <= a < out@.len() ==> self.provides(hook, (#[trigger] out@[a])@.id)
                    && self.provider(hook, out@[a]@.id) == out@[a]@,
            forall|x: Seq<char>|
                self.provides(hook, x) ==> exists|a: int|
                    0 <= a < out@.len() && (#[trigger] out@[a])@.id == x,
    {
        let out = self.registry.lookup(hook);
        proof {
            assert forall|x: Seq<char>| self.provides(hook, x) implies exists|a: int|
                0 <= a < out@.len() && (#[trigger] out@[a])@.id == x by {
                assert(self.registry.provides(hook, x));
            }
        }
        out
    }

    /// The second half of loading: registers the extension that the
    /// engine made of a module, or hands on the error that it failed with
    /// and leaves the registry as it was.
    pub fn finish_load(&mut self, compiled: Result<Extension, Error>) -> (r: Result<(), Error>)
        requires
            old(self).wf(),
        ensures
            final(self).wf(),
            final(self).spec_engine() == old(self).spec_engine(),
            final(self).spec_settings() == old(self).spec_settings(),
            final(self).spec_configured() == old(self).spec_configured(),
            final(self).spec_module_loader() == old(self).spec_module_loader(),
            match compiled {
                Ok(ext) => r.is_ok() && registered(
                    old(self).entries(),
                    final(self).entries(),
                    ext@,
                ),
                Err(e) => r == Err::<(), Error>(e) && final(self).entries() == old(
                    self,
                ).entries(),
            },
    {
        match compiled {
            Ok(ext) => {
                self.register(ext);
                Ok(())
            },
            Err(e) => Err(e),
        }
    }

    /// Loads the module that `specifier` names, compiles it, and registers
    /// it under `specifier` as its id, for each hook that it provides.
    /// Where the loader fails the call fails with the loader's error; where
    /// the engine does not take the module it fails with the engine's
    /// message, and a host whose engine does not run extensions
    /// asynchronously loads none. Either way the registry stays as it was.
    pub fn load_extension(&mut self, specifier: &str) -> (r: Result<(), Error>)
        requires
            old(self).wf(),
        ensures
            final(self).wf(),
            final(self).spec_engine() == old(self).spec_engine(),
            final(self).spec_settings() == old(self).spec_settings(),
            final(self).spec_configured() == old(self).spec_configured(),
            final(self).spec_module_loader() == old(self).spec_module_loader(),
            r.is_ok() ==> old(self).spec_asynchronous(),
            exists|loaded: Result<Vec<u8>, Error>|
                #![trigger old(self).spec_module_loader().loads(specifier@, loaded)]
                old(self).spec_module_loader().loads(specifier@, loaded) && loaded_into(
                    old(self).entries(),
                    final(self).entries(),
                    specifier@,
                    loaded,
                    r,
                ),
    {
        let loaded = self.module_loader.load(specifier);
        assert(old(self).spec_module_loader().loads(specifier@, loaded));
        match loaded {
            Ok(bytes) => {
                let compiled = Extension::new(
                    &self.engine,
                    bytes.as_slice(),
                    String::from_str(specifier),
                );
                let r = self.finish_load(compiled);
                assert(loaded_into(
                    old(self).entries(),
                    self.entries(),
                    specifier@,
                    loaded,
                    r,
                ));
                r
            },
            Err(e) => {
                assert(loaded_into(
                    old(self).entries(),
                    self.entries(),
                    specifier@,
                    loaded,
                    Err::<(), Error>(e),
                ));
                Err(e)
            },
        }
    }
}

/// Whether a load of the module `id` that went from the registry `before`
/// to the registry `after` and ended with `r` is what follows from what the
/// loader gave. The loader's error is the error of the load. Of bytes the
/// engine makes an extension with the id `id` and the functions that the
/// module exports, which is registered, or it fails with a message of its
/// own. Whatever fails, the registry stays as
/// it was.
pub open spec fn loaded_into(
    before: Seq<EntryView>,
    after: Seq<EntryView>,
    id: Seq<char>,
    loaded: Result<Vec<u8>, Error>,
    r: Result<(), Error>,
) -> bool {
    match loaded {
        Err(e) => r == Err::<(), Error>(e) && after == before,
        Ok(bytes) => match r {
            Ok(()) => exists|ext: ExtensionView|
                #![trigger registered(before, after, ext)]
                ext.id == id && ext.exports == function_names(wasm_exports(bytes@)) && registered(
                    before,
                    after,
                    ext,
                ),
            Err(e) => e is Other && after == before,
        },
    }
}

} // verus!
