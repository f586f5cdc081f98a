use extension_host::error::Error;
use extension_host::ext_table::ExtTable;
use extension_host::exts::{
    clear, finish_install, finished, ids, install, install_bytes, installed, instantiate, metadata,
    terminate, uninstall, TickStep, Ticker, Worker, WorkerTable, TICK_MILLIS, YIELD_AFTER_TICKS,
};
use extension_host::hooks::Hook;
use extension_host::host::Host;
use extension_host::metadata::{decimal_string, Metadata, Version};
use extension_host::module_loader::{ModuleLoader, NoopModuleLoader};
use futures_util::future::AbortHandle;

fn leb(mut n: usize, out: &mut Vec<u8>) {
    loop {
        let byte = (n & 0x7f) as u8;
        n >>= 7;
        if n == 0 {
            out.push(byte);
            return;
        }
        out.push(byte | 0x80);
    }
}

fn header() -> Vec<u8> {
    vec![0x00, 0x61, 0x73, 0x6d, 0x01, 0x00, 0x00, 0x00]
}

fn custom_section(name: &str, payload: &[u8]) -> Vec<u8> {
    let mut body = Vec::new();
    leb(name.len(), &mut body);
    body.extend_from_slice(name.as_bytes());
    body.extend_from_slice(payload);
    let mut out = vec![0x00];
    leb(body.len(), &mut out);
    out.extend(body);
    out
}

/// A module that exports a function under each of `names`, and its memory
/// as `memory`.
fn module_with_exports(names: &[&str]) -> Vec<u8> {
    let mut out = header();
    // one type: () -> ()
    out.extend([0x01, 0x04, 0x01, 0x60, 0x00, 0x00]);
    // one function of that type for each name
    let mut funcs = Vec::new();
    leb(names.len(), &mut funcs);
    funcs.extend(std::iter::repeat(0x00).take(names.len()));
    out.push(0x03);
    leb(funcs.len(), &mut out);
    out.extend(funcs);
    // one memory of one page
    out.extend([0x05, 0x03, 0x01, 0x00, 0x01]);
    let mut exports = Vec::new();
    leb(names.len() + 1, &mut exports);
    for (i, name) in names.iter().enumerate() {
        leb(name.len(), &mut exports);
        exports.extend_from_slice(name.as_bytes());
        exports.push(0x00);
        leb(i, &mut exports);
    }
    exports.extend([0x06, b'm', b'e', b'm', b'o', b'r', b'y', 0x02, 0x00]);
    out.push(0x07);
    leb(exports.len(), &mut out);
    out.extend(exports);
    let mut code = Vec::new();
    leb(names.len(), &mut code);
    for _ in names {
        code.extend([0x02, 0x00, 0x0b]);
    }
    out.push(0x0a);
    leb(code.len(), &mut out);
    out.extend(code);
    out
}

fn with_metadata(mut module: Vec<u8>, json: &str) -> Vec<u8> {
    module.extend(custom_section("mtt_meta", json.as_bytes()));
    module
}

fn text_of<'a>(value: &'a serde_json::Value, key: &str) -> Option<&'a str> {
    value.get(key)?.as_str()
}

/// Reads a metadata record from JSON.
fn decode(payload: &Vec<u8>) -> Option<Metadata> {
    let value: serde_json::Value = serde_json::from_slice(payload).ok()?;
    let name = text_of(&value, "name")?.to_string();
    let description = text_of(&value, "description")?.to_string();
    let version = semver::Version::parse(text_of(&value, "version")?).ok()?;
    let requirement = match value.get("host_requirement") {
        None | Some(serde_json::Value::Null) => None,
        Some(range) => Some(semver::VersionReq::parse(range.as_str()?).ok()?.to_string()),
    };
    Some(Metadata::new(
        name,
        description,
        Version {
            major: version.major,
            minor: version.minor,
            patch: version.patch,
            pre: version.pre.as_str().to_string(),
            build: version.build.as_str().to_string(),
        },
        requirement,
    ))
}

fn engine() -> wasmtime::Engine {
    Host::new(NoopModuleLoader).unwrap().engine().clone()
}

const RECORD: &str = r#"{"name":"clock","description":"shows the time","version":"1.2.3"}"#;

#[test]
fn decimal_string_is_what_rust_prints() {
    for n in [0u64, 1, 9, 10, 11, 99, 100, 101, 12345, 1_000_000, u64::MAX - 1, u64::MAX] {
        assert_eq!(decimal_string(n), n.to_string());
    }
    assert_eq!(decimal_string(18_446_744_073_709_551_615), "18446744073709551615");
}

#[test]
fn version_text_is_what_semver_prints() {
    for text in ["0.0.0", "1.2.3", "10.20.30", "1.0.0-alpha.1", "1.0.0+build.5", "2.1.0-rc.1+exp.sha.5114f85"] {
        let parsed = semver::Version::parse(text).unwrap();
        let version = Version {
            major: parsed.major,
            minor: parsed.minor,
            patch: parsed.patch,
            pre: parsed.pre.as_str().to_string(),
            build: parsed.build.as_str().to_string(),
        };
        assert_eq!(version.text(), text);
        assert_eq!(version.text(), parsed.to_string());
    }
    assert_eq!(Version::new(3, 0, 12).text(), "3.0.12");
}

#[test]
fn default_metadata_is_anonymous() {
    let m = Metadata::default();
    assert_eq!(m.name(), "unknown");
    assert_eq!(m.description(), "");
    assert_eq!(m.version(), &Version::new(0, 0, 0));
    assert_eq!(m.host_requirement(), None);
    assert_eq!(m.id(), "unknown@0.0.0");
}

fn in_range(range: &String, version: &Version) -> bool {
    let version = semver::Version::parse(&version.text()).unwrap();
    semver::VersionReq::parse(range).unwrap().matches(&version)
}

#[test]
fn missing_metadata_fits_no_host() {
    assert!(!Metadata::default().fits_host(&Version::new(1, 0, 0), in_range));
    assert!(!Metadata::default().fits_host(&Version::new(0, 0, 0), |_: &String, _: &Version| true));
    let silent = Metadata::new("a".to_string(), String::new(), Version::new(1, 0, 0), None);
    assert!(!silent.fits_host(&Version::new(1, 0, 0), in_range));
}

#[test]
fn a_host_fits_where_its_version_is_in_the_range() {
    let m = Metadata::new(
        "a".to_string(),
        String::new(),
        Version::new(1, 0, 0),
        Some(">=2.0.0, <3.0.0".to_string()),
    );
    assert!(m.fits_host(&Version::new(2, 4, 1), in_range));
    assert!(!m.fits_host(&Version::new(3, 0, 0), in_range));
    assert!(!m.fits_host(&Version::new(1, 9, 9), in_range));
}

#[test]
fn default_worker_table_is_empty() {
    let workers = WorkerTable::default();
    assert!(!workers.is_running("a"));
    assert_eq!(workers.len(), 0);
}

#[test]
fn id_is_name_at_version() {
    let m = Metadata::new(
        "clock".to_string(),
        "shows the time".to_string(),
        Version { major: 1, minor: 2, patch: 3, pre: "beta".to_string(), build: String::new() },
        Some(">=1.0.0".to_string()),
    );
    assert_eq!(m.id(), "clock@1.2.3-beta");
    assert_eq!(m.name(), "clock");
    assert_eq!(m.description(), "shows the time");
    assert_eq!(m.host_requirement(), Some(&">=1.0.0".to_string()));
}

#[test]
fn candidates_are_the_metadata_sections_in_order() {
    let mut module = header();
    module.extend(custom_section("name", b"ignored"));
    module.extend(custom_section("mtt_meta", b"first"));
    module.extend(custom_section("mtt_meta2", b"no"));
    module.extend(custom_section("mtt_meta", b""));
    module.extend(custom_section("mtt_meta", b"third"));
    assert_eq!(
        Metadata::candidates(&module),
        vec![b"first".to_vec(), Vec::new(), b"third".to_vec()]
    );
    assert_eq!(Metadata::candidates(&header()), Vec::<Vec<u8>>::new());
    assert_eq!(Metadata::candidates(&[]), Vec::<Vec<u8>>::new());
    assert_eq!(Metadata::candidates(b"not wasm at all"), Vec::<Vec<u8>>::new());
}

#[test]
fn candidates_stop_where_the_binary_breaks() {
    let mut module = header();
    module.extend(custom_section("mtt_meta", b"kept"));
    // a section that claims more bytes than there are
    module.extend([0x00, 0x7f, 0x01]);
    module.extend(custom_section("mtt_meta", b"lost"));
    assert_eq!(Metadata::candidates(&module), vec![b"kept".to_vec()]);
}

#[test]
fn parse_reads_the_record() {
    let module = with_metadata(module_with_exports(&["menu"]), RECORD);
    let m = Metadata::parse(&module, decode).unwrap();
    assert_eq!(m.name(), "clock");
    assert_eq!(m.description(), "shows the time");
    assert_eq!(m.version(), &Version::new(1, 2, 3));
    assert_eq!(m.host_requirement(), None);
}

#[test]
fn parse_reads_the_host_requirement() {
    let json = r#"{"name":"a","description":"","version":"0.1.0","host_requirement":">=2.0.0, <3.0.0"}"#;
    let m = Metadata::parse(&with_metadata(header(), json), decode).unwrap();
    assert_eq!(m.host_requirement(), Some(&">=2.0.0, <3.0.0".to_string()));
}

#[test]
fn parse_falls_back_to_the_default() {
    for module in [
        header(),
        Vec::new(),
        b"garbage".to_vec(),
        with_metadata(header(), "{not json"),
        with_metadata(header(), r#"{"name":"x"}"#),
        with_metadata(header(), r#"{"name":"x","description":"","version":"one"}"#),
    ] {
        let m = Metadata::parse(&module, decode).unwrap();
        assert_eq!(m, Metadata::default());
    }
}

#[test]
fn parse_takes_the_first_section_that_decodes() {
    let mut module = header();
    module.extend(custom_section("mtt_meta", b"{broken"));
    module.extend(custom_section("mtt_meta", RECORD.as_bytes()));
    module.extend(custom_section(
        "mtt_meta",
        br#"{"name":"late","description":"","version":"9.9.9"}"#,
    ));
    assert_eq!(Metadata::parse(&module, decode).unwrap().id(), "clock@1.2.3");
}

#[test]
fn first_or_default_takes_the_first_record() {
    let a = Metadata::new("a".to_string(), String::new(), Version::new(1, 0, 0), None);
    let b = Metadata::new("b".to_string(), String::new(), Version::new(2, 0, 0), None);
    assert_eq!(Metadata::first_or_default(vec![None, Some(a.clone()), Some(b.clone())]), a);
    assert_eq!(Metadata::first_or_default(vec![Some(b.clone()), Some(a)]), b);
    assert_eq!(Metadata::first_or_default(vec![None, None]), Metadata::default());
    assert_eq!(Metadata::first_or_default(Vec::new()), Metadata::default());
}

#[test]
fn store_keeps_what_is_installed() {
    let mut table = ExtTable::new();
    assert!(!table.is_installed("a@1.0.0"));
    assert_eq!(table.get("a@1.0.0"), Err(Error::NotFound));
    assert_eq!(table.install("a@1.0.0", &[1, 2, 3]), Ok(()));
    assert!(table.is_installed("a@1.0.0"));
    assert_eq!(table.get("a@1.0.0"), Ok(vec![1, 2, 3]));
    assert_eq!(table.install("b@1.0.0", &[]), Ok(()));
    assert_eq!(table.get("b@1.0.0"), Ok(Vec::new()));
    assert_eq!(table.get("a@1.0.0"), Ok(vec![1, 2, 3]));
}

#[test]
fn store_overwrites_by_id() {
    let mut table = ExtTable::new();
    table.install("a@1.0.0", &[1]).unwrap();
    table.install("a@1.0.0", &[2, 2]).unwrap();
    assert_eq!(table.get("a@1.0.0"), Ok(vec![2, 2]));
    assert_eq!(table.ids(), vec!["a@1.0.0".to_string()]);
}

#[test]
fn store_uninstall_of_unknown_id_is_not_found() {
    let mut table = ExtTable::new();
    table.install("a@1.0.0", &[1]).unwrap();
    assert_eq!(table.uninstall("b@1.0.0"), Err(Error::NotFound));
    assert!(table.is_installed("a@1.0.0"));
    assert_eq!(table.uninstall("a@1.0.0"), Ok(()));
    assert!(!table.is_installed("a@1.0.0"));
    assert_eq!(table.uninstall("a@1.0.0"), Err(Error::NotFound));
}

#[test]
fn store_lists_and_clears() {
    let mut table = ExtTable::new();
    assert_eq!(table.ids(), Vec::<String>::new());
    table.install("b", &[2]).unwrap();
    table.install("a", &[1]).unwrap();
    table.install("c", &[3]).unwrap();
    table.uninstall("a").unwrap();
    let mut listed = table.ids();
    listed.sort();
    assert_eq!(listed, vec!["b".to_string(), "c".to_string()]);
    assert_eq!(table.clear(), Ok(()));
    assert_eq!(table.ids(), Vec::<String>::new());
    assert!(!table.is_installed("b"));
    assert_eq!(clear(&mut table), Ok(()));
}

#[test]
fn store_loads_modules_by_id() {
    let mut table = ExtTable::new();
    table.install("a@1.0.0", &[7, 7]).unwrap();
    assert_eq!(table.load("a@1.0.0"), Ok(vec![7, 7]));
    assert_eq!(table.load("missing"), Err(Error::NotFound));
    assert_eq!(NoopModuleLoader.load("a@1.0.0"), Err(Error::ModuleLoadingDisabled));
}

#[test]
fn install_stores_a_valid_binary_under_its_id() {
    let engine = engine();
    let mut table = ExtTable::new();
    let module = with_metadata(module_with_exports(&["menu"]), RECORD);
    let id = install_bytes(&engine, &mut table, &module, decode).unwrap();
    assert_eq!(id, "clock@1.2.3");
    assert!(installed(&table, &id));
    assert_eq!(table.get(&id), Ok(module));
}

#[test]
fn install_of_a_binary_without_metadata_is_anonymous() {
    let engine = engine();
    let mut table = ExtTable::new();
    let module = module_with_exports(&["_start"]);
    assert_eq!(install_bytes(&engine, &mut table, &module, decode), Ok("unknown@0.0.0".to_string()));
    assert_eq!(table.get("unknown@0.0.0"), Ok(module));
}

#[test]
fn install_of_an_invalid_binary_stores_nothing() {
    let engine = engine();
    let mut table = ExtTable::new();
    table.install("kept@1.0.0", &[1]).unwrap();
    // the metadata is readable, but the function section names a type that does not exist
    let mut module = header();
    module.extend(custom_section("mtt_meta", RECORD.as_bytes()));
    module.extend([0x03, 0x02, 0x01, 0x05]);
    for bytes in [module, b"no module".to_vec(), Vec::new()] {
        let result = install_bytes(&engine, &mut table, &bytes, decode);
        assert!(matches!(result, Err(Error::Validation(_))), "{:?}", result);
        assert_eq!(table.ids(), vec!["kept@1.0.0".to_string()]);
        assert!(!installed(&table, "clock@1.2.3"));
        assert!(!installed(&table, "unknown@0.0.0"));
    }
}

#[test]
fn install_again_overwrites() {
    let engine = engine();
    let mut table = ExtTable::new();
    let first = with_metadata(module_with_exports(&["menu"]), RECORD);
    let second = with_metadata(module_with_exports(&["menu", "render_leaf"]), RECORD);
    assert_eq!(install_bytes(&engine, &mut table, &first, decode).unwrap(), "clock@1.2.3");
    assert_eq!(install_bytes(&engine, &mut table, &second, decode).unwrap(), "clock@1.2.3");
    assert_eq!(table.ids(), vec!["clock@1.2.3".to_string()]);
    assert_eq!(table.get("clock@1.2.3"), Ok(second));
}

#[test]
fn install_loads_through_the_loader() {
    let engine = engine();
    let mut source = ExtTable::new();
    let module = with_metadata(module_with_exports(&["menu"]), RECORD);
    source.install("./clock.wasm", &module).unwrap();
    let mut table = ExtTable::new();
    assert_eq!(
        install(&engine, &source, &mut table, "./clock.wasm", decode),
        Ok("clock@1.2.3".to_string())
    );
    assert_eq!(table.get("clock@1.2.3"), Ok(module));
    assert_eq!(install(&engine, &source, &mut table, "./other.wasm", decode), Err(Error::NotFound));
    assert_eq!(
        install(&engine, &NoopModuleLoader, &mut table, "./clock.wasm", decode),
        Err(Error::ModuleLoadingDisabled)
    );
    assert_eq!(table.ids(), vec!["clock@1.2.3".to_string()]);
}

#[test]
fn finish_install_follows_the_verdict() {
    let mut table = ExtTable::new();
    let m = Metadata::new("m".to_string(), String::new(), Version::new(0, 1, 0), None);
    assert_eq!(
        finish_install(&mut table, &m, &[1, 2], Err("bad magic".to_string())),
        Err(Error::Validation("bad magic".to_string()))
    );
    assert!(!table.is_installed("m@0.1.0"));
    assert_eq!(finish_install(&mut table, &m, &[1, 2], Ok(())), Ok("m@0.1.0".to_string()));
    assert_eq!(table.get("m@0.1.0"), Ok(vec![1, 2]));
}

#[test]
fn metadata_of_an_installed_extension() {
    let mut table = ExtTable::new();
    table.install("clock@1.2.3", &with_metadata(header(), RECORD)).unwrap();
    table.install("plain", &header()).unwrap();
    assert_eq!(metadata(&table, "clock@1.2.3", decode).unwrap().name(), "clock");
    assert_eq!(metadata(&table, "plain", decode), Ok(Metadata::default()));
    assert_eq!(metadata(&table, "missing", decode), Err(Error::NotFound));
}

#[test]
fn ids_lists_what_is_installed() {
    let mut table = ExtTable::new();
    assert_eq!(ids(&table), Ok(Vec::new()));
    table.install("a", &[1]).unwrap();
    assert_eq!(ids(&table), Ok(vec!["a".to_string()]));
}

#[test]
fn terminate_stops_the_worker_and_forgets_it() {
    let mut workers = WorkerTable::new();
    let (handle, _registration) = AbortHandle::new_pair();
    instantiate(&mut workers, "clock@1.2.3".to_string(), Worker::new(handle.clone()));
    assert!(workers.is_running("clock@1.2.3"));
    assert_eq!(workers.len(), 1);
    assert!(!handle.is_aborted());

    assert_eq!(terminate(&mut workers, "clock@1.2.3"), Ok(()));
    assert!(handle.is_aborted());
    assert!(!workers.is_running("clock@1.2.3"));
    assert_eq!(workers.len(), 0);
    assert_eq!(terminate(&mut workers, "clock@1.2.3"), Err(Error::NotFound));
}

#[test]
fn terminate_of_an_unknown_id_is_not_found() {
    let mut workers = WorkerTable::new();
    let (handle, _registration) = AbortHandle::new_pair();
    instantiate(&mut workers, "a".to_string(), Worker::new(handle.clone()));
    assert_eq!(terminate(&mut workers, "b"), Err(Error::NotFound));
    assert!(workers.is_running("a"));
    assert!(!handle.is_aborted());
}

#[test]
fn a_worker_that_ends_by_itself_is_forgotten_without_abort() {
    let mut workers = WorkerTable::new();
    let (handle, _registration) = AbortHandle::new_pair();
    instantiate(&mut workers, "a".to_string(), Worker::new(handle.clone()));
    finished(&mut workers, "a");
    assert!(!workers.is_running("a"));
    assert!(!handle.is_aborted());
    finished(&mut workers, "a");
}

#[test]
fn uninstall_of_an_unknown_id_is_not_found() {
    let mut table = ExtTable::new();
    let mut workers = WorkerTable::new();
    let mut host = Host::new(NoopModuleLoader).unwrap();
    let (handle, _registration) = AbortHandle::new_pair();
    instantiate(&mut workers, "ghost".to_string(), Worker::new(handle.clone()));
    table.install("kept@1.0.0", &[1]).unwrap();
    assert_eq!(uninstall(&mut table, &mut workers, &mut host, "ghost"), Err(Error::NotFound));
    assert_eq!(table.ids(), vec!["kept@1.0.0".to_string()]);
    // the invocation is stopped before the store is asked
    assert!(!workers.is_running("ghost"));
    assert!(handle.is_aborted());
}

#[test]
fn uninstall_removes_stops_and_unloads() {
    let engine = engine();
    let mut table = ExtTable::new();
    let module = with_metadata(module_with_exports(&["menu"]), RECORD);
    let id = install_bytes(&engine, &mut table, &module, decode).unwrap();
    table.install("other@1.0.0", &module_with_exports(&["menu"])).unwrap();

    let mut host = Host::new(table).unwrap();
    host.load_extension(&id).unwrap();
    host.load_extension("other@1.0.0").unwrap();
    assert_eq!(host.lookup(Hook::Menu).len(), 2);

    let mut table = ExtTable::new();
    table.install(&id, &module).unwrap();
    let mut workers = WorkerTable::new();
    let (handle, _registration) = AbortHandle::new_pair();
    instantiate(&mut workers, id.clone(), Worker::new(handle.clone()));

    assert_eq!(uninstall(&mut table, &mut workers, &mut host, &id), Ok(()));
    assert!(!installed(&table, &id));
    assert!(!workers.is_running(&id));
    assert!(handle.is_aborted());
    let left: Vec<String> = host.lookup(Hook::Menu).iter().map(|e| e.id().clone()).collect();
    assert_eq!(left, vec!["other@1.0.0".to_string()]);
    assert_eq!(uninstall(&mut table, &mut workers, &mut host, &id), Err(Error::NotFound));
}

#[test]
fn uninstall_of_an_extension_that_does_not_run() {
    let mut table = ExtTable::new();
    table.install("idle@1.0.0", &header()).unwrap();
    let mut workers = WorkerTable::new();
    let mut host = Host::new(NoopModuleLoader).unwrap();
    assert_eq!(uninstall(&mut table, &mut workers, &mut host, "idle@1.0.0"), Ok(()));
    assert!(!installed(&table, "idle@1.0.0"));
}

#[test]
fn ticker_moves_on_until_it_is_stopped() {
    let engine = engine();
    let mut ticker = Ticker::start();
    assert!(ticker.running);
    assert_eq!(ticker.tick(&engine), TickStep::Sleep(25));
    assert_eq!(ticker.tick(&engine), TickStep::Sleep(TICK_MILLIS));
    assert_eq!(ticker.ticks, 2);
    ticker.stop();
    assert_eq!(ticker.tick(&engine), TickStep::Stop);
    assert_eq!(ticker.ticks, 2);
    assert_eq!(YIELD_AFTER_TICKS, 1);
}

#[test]
fn ticker_counts_round() {
    let engine = engine();
    let mut ticker = Ticker { running: true, ticks: u64::MAX };
    assert_eq!(ticker.tick(&engine), TickStep::Sleep(25));
    assert_eq!(ticker.ticks, 0);
}

#[test]
fn id_map_holds_each_id_once() {
    let mut map: extension_host::id_map::IdMap<u32> = extension_host::id_map::IdMap::new();
    assert_eq!(map.len(), 0);
    assert_eq!(map.insert("a".to_string(), 1), None);
    assert_eq!(map.insert("b".to_string(), 2), None);
    assert_eq!(map.insert("a".to_string(), 3), Some(1));
    assert_eq!(map.len(), 2);
    assert_eq!(map.get("a"), Some(&3));
    assert_eq!(map.peek("b"), Some(&2));
    assert_eq!(map.get("c"), None);
    assert!(map.contains("a"));
    assert!(!map.contains("c"));
    let mut ids = map.ids();
    ids.sort();
    assert_eq!(ids, vec!["a".to_string(), "b".to_string()]);
}

#[test]
fn id_map_remove_and_clear() {
    let mut map: extension_host::id_map::IdMap<u32> = extension_host::id_map::IdMap::new();
    map.insert("a".to_string(), 1);
    map.insert("b".to_string(), 2);
    map.insert("c".to_string(), 3);
    assert_eq!(map.remove("b"), Some(2));
    assert_eq!(map.remove("b"), None);
    assert_eq!(map.len(), 2);
    assert_eq!(map.get("a"), Some(&1));
    assert_eq!(map.get("c"), Some(&3));
    map.clear();
    assert_eq!(map.len(), 0);
    assert!(!map.contains("a"));
}

#[test]
fn ids_are_told_apart_exactly() {
    let mut table = ExtTable::new();
    table.install("clock@1.2.3", &[1]).unwrap();
    for near in ["clock@1.2.30", "clock@1.2.", "Clock@1.2.3", "clock@1.2.3 ", "", "clock@1.2.4"] {
        assert!(!table.is_installed(near), "{:?}", near);
        assert_eq!(table.get(near), Err(Error::NotFound));
    }
    assert!(table.is_installed("clock@1.2.3"));
}

#[test]
fn an_empty_specifier_is_invalid() {
    use_check();
    let engine = engine();
    let mut source = ExtTable::new();
    source.install("", &with_metadata(module_with_exports(&["menu"]), RECORD)).unwrap();
    let mut table = ExtTable::new();
    // the loader holds something under the empty name, and still it is not asked
    assert_eq!(install(&engine, &source, &mut table, "", decode), Err(Error::InvalidSpecifier));
    assert_eq!(install(&engine, &NoopModuleLoader, &mut table, "", decode), Err(Error::InvalidSpecifier));
    assert_eq!(table.ids(), Vec::<String>::new());
}

fn use_check() {
    assert_eq!(extension_host::module_loader::check_specifier(""), Err(Error::InvalidSpecifier));
    assert_eq!(extension_host::module_loader::check_specifier("a"), Ok(()));
    assert_eq!(extension_host::module_loader::check_specifier(" "), Ok(()));
    assert_eq!(extension_host::module_loader::check_specifier("./clock.wasm"), Ok(()));
}
