use extension_host::common::{
    Element, JsonValue, MenuItem, MenuKind, RenderElementAttributes, RenderElementProps,
};
use extension_host::error::Error;
use extension_host::ext_table::ExtTable;
use extension_host::extension::{
    call_next, call_start, export_of, CallFailure, CallPhase, CallStep, Extension,
};
use extension_host::exts::{
    instantiate, terminate, TickStep, Ticker, Worker, WorkerTable, YIELD_AFTER_TICKS,
};
use extension_host::hooks::Hook;
use extension_host::host::Host;
use extension_host::wasm::ConfiguredEngine;
use futures_util::future::{AbortHandle, Abortable, Aborted};
use std::sync::{Arc, Mutex};
use std::time::{Duration, Instant};
use wasmtime::{Engine, Instance, Store};
use wasmtime_wasi::p2::pipe::{MemoryInputPipe, MemoryOutputPipe};
use wasmtime_wasi::preview1::WasiP1Ctx;
use wasmtime_wasi::WasiCtxBuilder;

fn escaped(text: &str) -> String {
    text.bytes().map(|b| format!("\\{:02x}", b)).collect()
}

/// The text of a module whose function `export` writes `output`.
fn writer(export: &str, output: &str) -> Vec<u8> {
    format!(
        r#"(module
  (import "wasi_snapshot_preview1" "fd_write"
    (func $fd_write (param i32 i32 i32 i32) (result i32)))
  (memory (export "memory") 1)
  (data (i32.const 64) "{data}")
  (func (export "_start"))
  (func (export "{export}")
    (i32.store (i32.const 0) (i32.const 64))
    (i32.store (i32.const 4) (i32.const {len}))
    (drop (call $fd_write (i32.const 1) (i32.const 0) (i32.const 1) (i32.const 8)))))"#,
        data = escaped(output),
        export = export,
        len = output.len(),
    )
    .into_bytes()
}

/// The text of a module whose function `render_leaf` reads a JSON string
/// and writes it back wrapped in `tag`.
fn wrapper(tag: &str) -> Vec<u8> {
    let prefix = format!("\"<{}>", tag);
    let suffix = format!("</{}>\"", tag);
    format!(
        r#"(module
  (import "wasi_snapshot_preview1" "fd_read"
    (func $fd_read (param i32 i32 i32 i32) (result i32)))
  (import "wasi_snapshot_preview1" "fd_write"
    (func $fd_write (param i32 i32 i32 i32) (result i32)))
  (memory (export "memory") 1)
  (data (i32.const 256) "{prefix}")
  (data (i32.const 320) "{suffix}")
  (func (export "_start"))
  (func (export "render_leaf")
    (i32.store (i32.const 0) (i32.const 1024))
    (i32.store (i32.const 4) (i32.const 4096))
    (drop (call $fd_read (i32.const 0) (i32.const 0) (i32.const 1) (i32.const 64)))
    (i32.store (i32.const 8) (i32.const 256))
    (i32.store (i32.const 12) (i32.const {prefix_len}))
    (drop (call $fd_write (i32.const 1) (i32.const 8) (i32.const 1) (i32.const 68)))
    (i32.store (i32.const 8) (i32.const 1025))
    (i32.store (i32.const 12) (i32.sub (i32.load (i32.const 64)) (i32.const 2)))
    (drop (call $fd_write (i32.const 1) (i32.const 8) (i32.const 1) (i32.const 68)))
    (i32.store (i32.const 8) (i32.const 320))
    (i32.store (i32.const 12) (i32.const {suffix_len}))
    (drop (call $fd_write (i32.const 1) (i32.const 8) (i32.const 1) (i32.const 68)))))"#,
        prefix = escaped(&prefix),
        suffix = escaped(&suffix),
        prefix_len = prefix.len(),
        suffix_len = suffix.len(),
    )
    .into_bytes()
}

/// The text of a module whose function `export` stops with a trap.
fn trapping(export: &str) -> Vec<u8> {
    if export == "_start" {
        return br#"(module (func (export "_start") unreachable))"#.to_vec();
    }
    format!(
        r#"(module
  (func (export "_start"))
  (func (export "{}") unreachable))"#,
        export
    )
    .into_bytes()
}

/// An engine that asks the system for no more memory than a small module
/// needs.
fn small_engine() -> Engine {
    let mut config = wasmtime::Config::new();
    config.async_support(true);
    config.epoch_interruption(true);
    config.memory_reservation(1 << 20);
    config.memory_reservation_for_growth(0);
    config.memory_guard_size(0);
    config.guard_before_linear_memory(false);
    Engine::new(&config).unwrap()
}

fn host_with(modules: &[(&str, Vec<u8>)]) -> Host<ExtTable> {
    let mut table = ExtTable::new();
    for (id, bytes) in modules {
        table.install(id, bytes).unwrap();
    }
    let mut host = Host::with_engine(table, small_engine());
    for (id, _) in modules {
        host.load_extension(id).unwrap();
    }
    host
}

async fn run_phase(
    phase: CallPhase,
    hook: Hook,
    ext: &Extension,
    store: &mut Store<WasiP1Ctx>,
    instance: &mut Option<Instance>,
) -> Result<(), CallFailure> {
    let name = match export_of(phase, hook) {
        None => {
            let made = ext
                .instance_pre()
                .instantiate_async(&mut *store)
                .await
                .map_err(|e| CallFailure::Host(e.to_string()))?;
            *instance = Some(made);
            return Ok(());
        }
        Some(name) => name,
    };
    let func = instance
        .as_ref()
        .unwrap()
        .get_typed_func::<(), ()>(&mut *store, name)
        .map_err(|e| CallFailure::Host(e.to_string()))?;
    func.call_async(&mut *store, ()).await.map_err(|e| CallFailure::Trap(e.to_string()))
}

/// Runs one call of `hook` on `ext`: a fresh store, the request on its
/// input, and what it wrote to its output as the answer.
fn call_hook(engine: &Engine, ext: &Extension, hook: Hook, payload: Vec<u8>) -> Result<Vec<u8>, Error> {
    let runtime = tokio::runtime::Builder::new_current_thread().build().unwrap();
    runtime.block_on(async {
        let stdout = MemoryOutputPipe::new(1 << 20);
        let wasi = WasiCtxBuilder::new()
            .stdin(MemoryInputPipe::new(payload))
            .stdout(stdout.clone())
            .build_p1();
        let mut store = Store::new(engine, wasi);
        store.set_epoch_deadline(1_000_000);
        store.epoch_deadline_async_yield_and_update(YIELD_AFTER_TICKS);
        let mut instance = None;
        let mut step = call_start();
        loop {
            match step {
                CallStep::Run(phase) => {
                    let outcome = run_phase(phase, hook, ext, &mut store, &mut instance).await;
                    step = call_next(phase, outcome);
                }
                CallStep::Collect => {
                    drop(store);
                    return Ok(stdout.contents().to_vec());
                }
                CallStep::Failed(e) => return Err(e),
            }
        }
    })
}

fn text_answer(bytes: Vec<u8>) -> Result<String, Error> {
    match serde_json::from_slice::<serde_json::Value>(&bytes) {
        Ok(serde_json::Value::String(text)) => Ok(text),
        Ok(other) => Err(Error::Json(format!("a string was expected, not {}", other))),
        Err(e) => Err(Error::Json(e.to_string())),
    }
}

fn items_answer(bytes: Vec<u8>) -> Result<Vec<MenuItem>, Error> {
    let value: serde_json::Value =
        serde_json::from_slice(&bytes).map_err(|e| Error::Json(e.to_string()))?;
    let list = value.as_array().ok_or(Error::Json("a list was expected".to_string()))?;
    list.iter()
        .map(|item| match item.get("title").and_then(|title| title.as_str()) {
            Some(title) => Ok(MenuItem { title: title.to_string() }),
            None => Err(Error::Json("an item has no title".to_string())),
        })
        .collect()
}

fn paragraph() -> RenderElementProps {
    RenderElementProps {
        children: Vec::new(),
        element: Element { kind: "paragraph".to_string(), children: Vec::new() },
        attributes: RenderElementAttributes {
            data_slate_node: "element".to_string(),
            data_slate_inline: true,
            data_slate_void: true,
            dir: Some("rtl".to_string()),
            reference: JsonValue::Null,
        },
    }
}

fn paragraph_json() -> Vec<u8> {
    let props = paragraph();
    let mut attributes = serde_json::Map::new();
    attributes.insert(
        "data-slate-node".to_string(),
        serde_json::Value::String(props.attributes.data_slate_node),
    );
    attributes.insert(
        "data-slate-inline".to_string(),
        serde_json::Value::Bool(props.attributes.data_slate_inline),
    );
    attributes.insert(
        "data-slate-void".to_string(),
        serde_json::Value::Bool(props.attributes.data_slate_void),
    );
    attributes.insert("dir".to_string(), serde_json::Value::String("rtl".to_string()));
    attributes.insert("ref".to_string(), serde_json::Value::Null);
    let mut element = serde_json::Map::new();
    element.insert("type".to_string(), serde_json::Value::String(props.element.kind));
    element.insert("children".to_string(), serde_json::Value::Array(Vec::new()));
    let mut request = serde_json::Map::new();
    request.insert("children".to_string(), serde_json::Value::Array(Vec::new()));
    request.insert("element".to_string(), serde_json::Value::Object(element));
    request.insert("attributes".to_string(), serde_json::Value::Object(attributes));
    serde_json::to_vec(&serde_json::Value::Object(request)).unwrap()
}

#[test]
fn menu_main() {
    let host = host_with(&[("./menu.wasm", writer("menu", r#"[{"title":"foobar"}]"#))]);
    let engine = host.engine().clone();

    let menu_items = host
        .menu(&MenuKind::Context, |ext: &Extension, hook: Hook, _kind: &MenuKind| {
            items_answer(call_hook(&engine, ext, hook, b"\"Context\"".to_vec())?)
        })
        .unwrap();

    assert_eq!(menu_items, vec![MenuItem { title: "foobar".to_string() }]);
}

#[test]
fn render_element_main() {
    let expected = "<p data-slate-node=\"element\" data-slate-inline=\"true\" data-slate-void=\"true\" ref=\"null\" dir=\"rtl\">foobar</p>";
    let answer = serde_json::to_string(&serde_json::Value::String(expected.to_string())).unwrap();
    let host = host_with(&[("./render_element.wasm", writer("render_element", &answer))]);
    let engine = host.engine().clone();

    let props = paragraph();
    let html = host
        .render_element(&props, |ext: &Extension, hook: Hook, _props: &RenderElementProps| {
            text_answer(call_hook(&engine, ext, hook, paragraph_json())?)
        })
        .unwrap();

    assert_eq!(html, "<p data-slate-node=\"element\" data-slate-inline=\"true\" data-slate-void=\"true\" ref=\"null\" dir=\"rtl\">foobar</p>");
}

#[test]
fn extensions_fold_a_leaf_through_their_output() {
    let host = host_with(&[("E2", wrapper("i")), ("E1", wrapper("b"))]);
    let engine = host.engine().clone();
    let rendered = host.hook_fold(
        Hook::RenderLeaf,
        &"hi".to_string(),
        |ext: &Extension, hook: Hook, request: &String| {
            let payload = serde_json::to_vec(&serde_json::Value::String(request.clone())).unwrap();
            text_answer(call_hook(&engine, ext, hook, payload)?)
        },
        |answer: String| answer,
    );
    assert_eq!(rendered, Ok("<i><b>hi</b></i>".to_string()));
}

#[test]
fn menu_of_running_extensions_drops_the_one_that_traps() {
    let host = host_with(&[
        ("a", writer("menu", r#"[{"title":"one"},{"title":"two"}]"#)),
        ("b", trapping("menu")),
        ("c", writer("menu", "[]")),
        ("d", writer("menu", "not json")),
        ("e", writer("menu", r#"[{"title":"three"}]"#)),
    ]);
    let engine = host.engine().clone();
    let items = host.menu(&MenuKind::Context, |ext: &Extension, hook: Hook, _: &MenuKind| {
        items_answer(call_hook(&engine, ext, hook, b"\"Context\"".to_vec())?)
    });
    let titles: Vec<String> = items.unwrap().into_iter().map(|item| item.title).collect();
    assert_eq!(titles, vec!["one".to_string(), "two".to_string(), "three".to_string()]);
}

#[test]
fn a_trap_in_the_hook_is_a_failed_execution() {
    let host = host_with(&[("t", trapping("render_element"))]);
    let engine = host.engine().clone();
    let found = host.lookup(Hook::RenderElement);
    let outcome = call_hook(&engine, found[0], Hook::RenderElement, Vec::new());
    assert!(matches!(outcome, Err(Error::HookExecution(_))), "{:?}", outcome);
}

#[test]
fn a_trap_while_setting_up_is_a_failed_initialization() {
    let engine = small_engine();
    let ext = Extension::new(&ConfiguredEngine::from_engine(engine.clone()), &trapping("_start"), "t".to_string()).unwrap();
    let outcome = call_hook(&engine, &ext, Hook::Menu, Vec::new());
    assert!(matches!(outcome, Err(Error::HookInitialization(_))), "{:?}", outcome);
}

#[test]
fn a_hook_that_is_not_exported_fails_on_the_host_side() {
    let engine = small_engine();
    let ext = Extension::new(&ConfiguredEngine::from_engine(engine.clone()), &writer("menu", "[]"), "m".to_string()).unwrap();
    let outcome = call_hook(&engine, &ext, Hook::RenderLeaf, Vec::new());
    assert!(matches!(outcome, Err(Error::Other(_))), "{:?}", outcome);
}

#[test]
fn every_call_starts_from_a_fresh_instance() {
    let engine = small_engine();
    let ext = Extension::new(&ConfiguredEngine::from_engine(engine.clone()), &writer("menu", "[]"), "m".to_string()).unwrap();
    // what one call wrote is not in the output of the next
    for _ in 0..3 {
        assert_eq!(call_hook(&engine, &ext, Hook::Menu, Vec::new()), Ok(b"[]".to_vec()));
    }
}

/// The text of a module whose entry point never returns and never calls
/// the host.
fn spinning() -> Vec<u8> {
    br#"(module (func (export "_start") (loop (br 0))))"#.to_vec()
}

#[test]
fn terminate_halts_an_extension_that_spins() {
    let engine = small_engine();
    let ext = Extension::new(&ConfiguredEngine::from_engine(engine.clone()), &spinning(), "spin@1.0.0".to_string()).unwrap();
    let runtime = tokio::runtime::Builder::new_multi_thread()
        .worker_threads(2)
        .enable_time()
        .build()
        .unwrap();

    let ticker = Arc::new(Mutex::new(Ticker::start()));
    let clock = ticker.clone();
    let clock_engine = engine.clone();
    runtime.spawn(async move {
        loop {
            let step = clock.lock().unwrap().tick(&clock_engine);
            match step {
                TickStep::Sleep(millis) => tokio::time::sleep(Duration::from_millis(millis)).await,
                TickStep::Stop => break,
            }
        }
    });

    let mut workers = WorkerTable::new();
    let (handle, registration) = AbortHandle::new_pair();
    instantiate(&mut workers, "spin@1.0.0".to_string(), Worker::new(handle));
    let task_engine = engine.clone();
    let running = runtime.spawn(Abortable::new(
        async move {
            let wasi = WasiCtxBuilder::new().build_p1();
            let mut store = Store::new(&task_engine, wasi);
            store.set_epoch_deadline(YIELD_AFTER_TICKS);
            store.epoch_deadline_async_yield_and_update(YIELD_AFTER_TICKS);
            let mut instance = None;
            let mut step = call_start();
            loop {
                match step {
                    CallStep::Run(phase) => {
                        let outcome =
                            run_phase(phase, Hook::Menu, &ext, &mut store, &mut instance).await;
                        step = call_next(phase, outcome);
                    }
                    CallStep::Collect => return Ok(()),
                    CallStep::Failed(e) => return Err(e),
                }
            }
        },
        registration,
    ));

    let outcome = runtime.block_on(async {
        tokio::time::sleep(Duration::from_millis(100)).await;
        assert!(!running.is_finished(), "the extension should still spin");
        assert!(workers.is_running("spin@1.0.0"));
        let asked = Instant::now();
        assert_eq!(terminate(&mut workers, "spin@1.0.0"), Ok(()));
        let outcome = tokio::time::timeout(Duration::from_secs(5), running).await;
        (outcome, asked.elapsed())
    });
    ticker.lock().unwrap().stop();

    let (outcome, took) = outcome;
    let joined = outcome.expect("the extension did not halt in time").unwrap();
    assert_eq!(joined, Err(Aborted));
    assert!(took < Duration::from_secs(5));
    assert!(!workers.is_running("spin@1.0.0"));
    assert_eq!(workers.len(), 0);
    assert_eq!(terminate(&mut workers, "spin@1.0.0"), Err(Error::NotFound));
}

#[test]
fn the_engine_of_a_host_interrupts_at_the_epoch() {
    // a module without memory, so that the engine of the host can run it here
    let host = Host::new(ExtTable::new()).unwrap();
    let engine = host.engine().clone();
    let ext = Extension::new(&ConfiguredEngine::from_engine(engine.clone()), &spinning(), "spin".to_string()).unwrap();
    let runtime = tokio::runtime::Builder::new_current_thread().build().unwrap();
    let outcome = runtime.block_on(async {
        let wasi = WasiCtxBuilder::new().build_p1();
        let mut store = Store::new(&engine, wasi);
        // the deadline is reached at once, and reaching it is a trap
        store.set_epoch_deadline(0);
        store.epoch_deadline_trap();
        let mut instance = None;
        run_phase(CallPhase::Instantiate, Hook::Menu, &ext, &mut store, &mut instance)
            .await
            .unwrap();
        run_phase(CallPhase::Start, Hook::Menu, &ext, &mut store, &mut instance).await
    });
    assert!(matches!(outcome, Err(CallFailure::Trap(_))), "{:?}", outcome);
}
