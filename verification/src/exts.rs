use crate::error::Error;
use crate::ext_table::ExtTable;
use crate::host::{unloaded, Host};
use crate::metadata::{decoded_from, metadata_payloads, Metadata};
use crate::module_loader::{check_specifier, well_formed, ModuleLoader};
use crate::wasm::{abort_task, increment_epoch, validate_module, wasm_sections};
use vstd::hash_map::StringHashMap;
use vstd::prelude::*;

verus! {

/// A running extension: the handle that stops it.
pub struct Worker {
    abort_handle: futures_util::future::AbortHandle,
}

impl Worker {
    /// The worker that `abort_handle` stops.
    pub fn new(abort_handle: futures_util::future::AbortHandle) -> (worker: Worker)
        ensures
            worker.spec_abort_handle() == abort_handle,
    {
        Worker { abort_handle }
    }

    /// The handle that stops the worker.
    pub closed spec fn spec_abort_handle(&self) -> futures_util::future::AbortHandle {
        self.abort_handle
    }
}

/// The extensions that are running, by id.
pub struct WorkerTable {
    workers: StringHashMap<Worker>,
}

impl View for WorkerTable {
    type V = Map<Seq<char>, Worker>;

    closed spec fn view(&self) -> Map<Seq<char>, Worker> {
        self.workers@
    }
}

impl Default for WorkerTable {
    /// A table without workers.
    fn default() -> (table: WorkerTable)
        ensures
            table@ == Map::<Seq<char>, Worker>::empty(),
    {
        WorkerTable { workers: StringHashMap::new() }
    }
}

impl WorkerTable {
    /// A table without workers.
    pub fn new() -> (table: WorkerTable)
        ensures
            table@ == Map::<Seq<char>, Worker>::empty(),
    {
        WorkerTable::default()
    }

    /// Whether the extension `id` is running.
    pub fn is_running(&self, id: &str) -> (r: bool)
        ensures
            r == self@.contains_key(id@),
    {
        self.workers.contains_key(id)
    }

    /// How many extensions are running.
    pub fn len(&self) -> (n: usize)
        ensures
            n == self@.len(),
    {
        self.workers.len()
    }
}

/// What the store `before` holds after the installation of the binary
/// `bytes` with the id `id`: the binary under its id where the engine found
/// it valid, and what it held before where not.
pub open spec fn store_after_install(
    before: Map<Seq<char>, Seq<u8>>,
    id: Seq<char>,
    bytes: Seq<u8>,
    valid: bool,
) -> Map<Seq<char>, Seq<u8>> {
    if valid {
        before.insert(id, bytes)
    } else {
        before
    }
}

/// After the installation of a valid binary the store holds its bytes
/// under its id: a query for the id finds it, and a read gives the bytes
/// that were installed. What was stored under other ids is as before.
pub proof fn lemma_installed_is_stored(
    before: Map<Seq<char>, Seq<u8>>,
    id: Seq<char>,
    bytes: Seq<u8>,
)
    ensures
        store_after_install(before, id, bytes, true).contains_key(id),
        store_after_install(before, id, bytes, true)[id] == bytes,
        forall|other: Seq<char>|
            other != id ==> (store_after_install(before, id, bytes, true).contains_key(other)
                <==> before.contains_key(other)),
        forall|other: Seq<char>|
            other != id && before.contains_key(other) ==> store_after_install(
                before,
                id,
                bytes,
                true,
            )[other] == before[other],
{
}

/// The installation of an invalid binary stores nothing: the store holds
/// no id that it did not hold before.
pub proof fn lemma_invalid_is_not_stored(
    before: Map<Seq<char>, Seq<u8>>,
    id: Seq<char>,
    bytes: Seq<u8>,
)
    ensures
        store_after_install(before, id, bytes, false) == before,
        forall|any: Seq<char>|
            store_after_install(before, id, bytes, false).contains_key(any) ==> before.contains_key(
                any,
            ),
{
}

/// After an extension was uninstalled a query for its id finds nothing,
/// and what was stored under other ids is as before.
pub proof fn lemma_uninstalled_is_gone(before: Map<Seq<char>, Seq<u8>>, id: Seq<char>)
    ensures
        !before.remove(id).contains_key(id),
        forall|other: Seq<char>|
            other != id ==> (before.remove(id).contains_key(other) <==> before.contains_key(other)),
        forall|other: Seq<char>|
            other != id && before.contains_key(other) ==> before.remove(id)[other] == before[other],
{
}

/// Whether an installation of the binary `bytes` that went from the store
/// `before` to the store `after` and ended with `r` is what `install_bytes`
/// does: a binary that the engine finds valid is stored under the id of the
/// metadata that `decode` reads from it, which is returned; one that it
/// finds invalid fails with `Validation` and leaves the store as it was.
pub open spec fn installed_as<F: Fn(&Vec<u8>) -> Option<Metadata>>(
    decode: F,
    before: Map<Seq<char>, Seq<u8>>,
    after: Map<Seq<char>, Seq<u8>>,
    bytes: Seq<u8>,
    r: Result<String, Error>,
) -> bool {
    match r {
        Ok(id) => {
            &&& after == store_after_install(before, id@, bytes, true)
            &&& exists|payloads: Seq<Vec<u8>>, taken: int, m: Metadata|
                #![trigger decoded_from(decode, payloads, taken, m)]
                payloads.map_values(|d: Vec<u8>| d@) == metadata_payloads(wasm_sections(bytes))
                    && decoded_from(decode, payloads, taken, m) && id@ == m.spec_id()
        },
        Err(e) => e is Validation && after == before,
    }
}

/// Puts the binary `bytes`, which `metadata` describes, into the store,
/// once the engine gave `verdict` on it. A valid binary is stored under its
/// id, `name@version`, in place of what was there, and the id is returned.
/// An invalid one is not stored: the call fails with the engine's message
/// and the store stays as it was.
pub fn finish_install(
    ext_table: &mut ExtTable,
    metadata: &Metadata,
    bytes: &[u8],
    verdict: Result<(), String>,
) -> (r: Result<String, Error>)
    requires
        old(ext_table).wf(),
    ensures
        final(ext_table).wf(),
        final(ext_table)@ == store_after_install(
            old(ext_table)@,
            metadata.spec_id(),
            bytes@,
            verdict.is_ok(),
        ),
        match verdict {
            Ok(()) => {
                &&& r matches Ok(id)
                &&& id@ == metadata.spec_id()
                &&& final(ext_table)@.contains_key(id@)
                &&& final(ext_table)@[id@] == bytes@
            },
            Err(why) => {
                &&& r matches Err(Error::Validation(text))
                &&& text == why
                &&& final(ext_table)@ == old(ext_table)@
            },
        },
{
    match verdict {
        Ok(()) => {
            let id = metadata.id();
            match ext_table.install(id.as_str(), bytes) {
                Ok(()) => Ok(id),
                Err(e) => Err(e),
            }
        },
        Err(why) => Err(Error::Validation(why)),
    }
}

/// Installs the binary `bytes`: reads its metadata with `decode`, has the
/// engine validate it, and stores it under its id, which is returned. Where
/// the engine finds the binary invalid the call fails with `Validation` and
/// the store stays as it was.
pub fn install_bytes<F: Fn(&Vec<u8>) -> Option<Metadata>>(
    engine: &wasmtime::Engine,
    ext_table: &mut ExtTable,
    bytes: &[u8],
    decode: F,
) -> (r: Result<String, Error>)
    requires
        old(ext_table).wf(),
        forall|payload: &Vec<u8>| decode.requires((payload,)),
    ensures
        final(ext_table).wf(),
        installed_as(decode, old(ext_table)@, final(ext_table)@, bytes@, r),
        match r {
            Ok(id) => {
                &&& final(ext_table)@ == old(ext_table)@.insert(id@, bytes@)
                &&& final(ext_table)@.contains_key(id@)
                &&& final(ext_table)@[id@] == bytes@
            },
            Err(e) => e is Validation && final(ext_table)@ == old(ext_table)@,
        },
{
    let metadata = Metadata::parse(bytes, decode).unwrap();
    let verdict = validate_module(engine, bytes);
    finish_install(ext_table, &metadata, bytes, verdict)
}

/// Installs the binary that `specifier` names: loads its bytes with
/// `loader` and installs them as `install_bytes` does. An empty specifier
/// names nothing: the call fails with `InvalidSpecifier` and the loader is
/// not asked. Where the loader fails the call fails with the loader's
/// error. Whatever fails, the store stays as it was.
pub fn install<L: ModuleLoader, F: Fn(&Vec<u8>) -> Option<Metadata>>(
    engine: &wasmtime::Engine,
    loader: &L,
    ext_table: &mut ExtTable,
    specifier: &str,
    decode: F,
) -> (r: Result<String, Error>)
    requires
        old(ext_table).wf(),
        forall|payload: &Vec<u8>| decode.requires((payload,)),
    ensures
        final(ext_table).wf(),
        !well_formed(specifier@) ==> r == Err::<String, Error>(Error::InvalidSpecifier),
        well_formed(specifier@) ==> exists|loaded: Result<Vec<u8>, Error>|
            #![trigger loader.loads(specifier@, loaded)]
            loader.loads(specifier@, loaded) && match loaded {
                Ok(bytes) => installed_as(
                    decode,
                    old(ext_table)@,
                    final(ext_table)@,
                    bytes@,
                    r,
                ),
                Err(e) => r == Err::<String, Error>(e) && final(ext_table)@ == old(ext_table)@,
            },
        r.is_err() ==> final(ext_table)@ == old(ext_table)@,
{
    match check_specifier(specifier) {
        Ok(()) => {},
        Err(e) => {
            return Err(e);
        },
    }
    match loader.load(specifier) {
        Ok(bytes) => {
            let r = install_bytes(engine, ext_table, bytes.as_slice(), decode);
            assert(loader.loads(specifier@, Ok::<Vec<u8>, Error>(bytes)));
            r
        },
        Err(e) => {
            assert(loader.loads(specifier@, Err::<Vec<u8>, Error>(e)));
            Err(e)
        },
    }
}

/// Stops the running extension `id`, however far it got and without
/// letting it clean up, and takes it out of the table. Fails with
/// `NotFound`, and changes nothing, where it is not running.
pub fn terminate(wk_table: &mut WorkerTable, id: &str) -> (r: Result<(), Error>)
    ensures
        final(wk_table)@ == old(wk_table)@.remove(id@),
        !final(wk_table)@.contains_key(id@),
        match r {
            Ok(()) => old(wk_table)@.contains_key(id@),
            Err(e) => !old(wk_table)@.contains_key(id@) && e == Error::NotFound,
        },
{
    let running = match wk_table.workers.get(id) {
        Some(worker) => {
            abort_task(&worker.abort_handle);
            true
        },
        None => false,
    };
    wk_table.workers.remove(id);
    assert(!running ==> final(wk_table)@ =~= old(wk_table)@);
    if running {
        Ok(())
    } else {
        Err(Error::NotFound)
    }
}

/// Notes that the extension `id` began to run and that `worker` stops it.
/// A worker that was noted under the same id before is forgotten.
pub fn instantiate(wk_table: &mut WorkerTable, id: String, worker: Worker)
    ensures
        final(wk_table)@ == old(wk_table)@.insert(id@, worker),
{
    wk_table.workers.insert(id, worker);
}

/// Notes that the extension `id` came to its end by itself.
pub fn finished(wk_table: &mut WorkerTable, id: &str)
    ensures
        final(wk_table)@ == old(wk_table)@.remove(id@),
{
    wk_table.workers.remove(id);
}

/// Uninstalls the extension `id`: first stops it if it runs, then takes
/// its binary out of the store, then takes it out of the registry of
/// `host`. Where the store holds no such binary the call fails with
/// `NotFound` at that step: the invocation was stopped, and store and
/// registry stay as they were.
pub fn uninstall<L: ModuleLoader>(
    ext_table: &mut ExtTable,
    wk_table: &mut WorkerTable,
    host: &mut Host<L>,
    id: &str,
) -> (r: Result<(), Error>)
    requires
        old(ext_table).wf(),
        old(host).wf(),
    ensures
        final(ext_table).wf(),
        final(host).wf(),
        r.is_ok() <==> old(ext_table)@.contains_key(id@),
        !final(ext_table)@.contains_key(id@),
        final(wk_table)@ == old(wk_table)@.remove(id@),
        !final(wk_table)@.contains_key(id@),
        match r {
            Ok(()) => {
                &&& final(ext_table)@ == old(ext_table)@.remove(id@)
                &&& unloaded(old(host).entries(), final(host).entries(), id@)
            },
            Err(e) => {
                &&& e == Error::NotFound
                &&& final(ext_table)@ == old(ext_table)@
                &&& final(host).entries() == old(host).entries()
            },
        },
{
    let _ = terminate(wk_table, id);
    match ext_table.uninstall(id) {
        Ok(()) => {
            host.unload(id);
            Ok(())
        },
        Err(e) => Err(e),
    }
}

/// Whether an extension with the id `id` is installed.
pub fn installed(ext_table: &ExtTable, id: &str) -> (r: bool)
    ensures
        r == ext_table@.contains_key(id@),
{
    ext_table.is_installed(id)
}

/// The metadata of the installed extension `id`, read with `decode`. Fails
/// with `NotFound` where no such extension is installed.
pub fn metadata<F: Fn(&Vec<u8>) -> Option<Metadata>>(ext_table: &ExtTable, id: &str, decode: F) -> (r:
    Result<Metadata, Error>)
    requires
        ext_table.wf(),
        forall|payload: &Vec<u8>| decode.requires((payload,)),
    ensures
        r.is_ok() <==> ext_table@.contains_key(id@),
        match r {
            Ok(m) => exists|payloads: Seq<Vec<u8>>, taken: int|
                #![trigger decoded_from(decode, payloads, taken, m)]
                payloads.map_values(|d: Vec<u8>| d@) == metadata_payloads(
                    wasm_sections(ext_table@[id@]),
                ) && decoded_from(decode, payloads, taken, m),
            Err(e) => e == Error::NotFound,
        },
{
    let bytes = match ext_table.get(id) {
        Ok(bytes) => bytes,
        Err(e) => {
            return Err(e);
        },
    };
    Metadata::parse(bytes.as_slice(), decode)
}

/// Uninstalls all extensions.
pub fn clear(ext_table: &mut ExtTable) -> (r: Result<(), Error>)
    ensures
        r.is_ok(),
        final(ext_table).wf(),
        final(ext_table)@ == Map::<Seq<char>, Seq<u8>>::empty(),
{
    ext_table.clear()
}

/// The ids of all installed extensions, each once.
pub fn ids(ext_table: &ExtTable) -> (r: Result<Vec<String>, Error>)
    requires
        ext_table.wf(),
    ensures
        r matches Ok(out) && out@.map_values(|s: String| s@).no_duplicates() && out@.map_values(
            |s: String| s@,
        ).to_set() == ext_table@.dom(),
{
    Ok(ext_table.ids())
}

/// The time between two ticks of the epoch, in milliseconds.
pub const TICK_MILLIS: u64 = 25;

/// The number of ticks after which a running extension has to yield.
pub const YIELD_AFTER_TICKS: u64 = 1;

/// What the ticker does after a tick.
#[derive(Debug, Clone, Copy, PartialEq, Eq, Structural)]
pub enum TickStep {
    /// Sleep for this many milliseconds, then tick again.
    Sleep(u64),
    /// The ticker was stopped. Do not tick again.
    Stop,
}

/// The clock of the host. While it runs, each tick moves the epoch of the
/// engine on, which makes every extension that has run since the tick
/// before yield to the others.
#[derive(Debug, Clone, Copy, PartialEq, Eq, Structural)]
pub struct Ticker {
    pub running: bool,
    /// The number of ticks so far, counting round.
    pub ticks: u64,
}

impl Ticker {
    /// A ticker that runs and has not ticked yet.
    pub fn start() -> (ticker: Ticker)
        ensures
            ticker.running,
            ticker.ticks == 0,
    {
        Ticker { running: true, ticks: 0 }
    }

    /// Stops the ticker. It moves the epoch on no more.
    pub fn stop(&mut self)
        ensures
            !final(self).running,
            final(self).ticks == old(self).ticks,
    {
        self.running = false;
    }

    /// One tick. A ticker that runs moves the epoch of `engine` on by one
    /// and asks to be called again after `TICK_MILLIS`; one that was
    /// stopped does nothing.
    pub fn tick(&mut self, engine: &wasmtime::Engine) -> (step: TickStep)
        ensures
            final(self).running == old(self).running,
            step == if old(self).running {
                TickStep::Sleep(TICK_MILLIS)
            } else {
                TickStep::Stop
            },
            final(self).ticks == if old(self).running {
                if old(self).ticks == u64::MAX {
                    0
                } else {
                    (old(self).ticks + 1) as u64
                }
            } else {
                old(self).ticks
            },
    {
        if self.running {
            increment_epoch(engine);
            self.ticks = self.ticks.wrapping_add(1);
            TickStep::Sleep(TICK_MILLIS)
        } else {
            TickStep::Stop
        }
    }
}

} // verus!
