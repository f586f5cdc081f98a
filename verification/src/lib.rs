//! A host for sandboxed extensions.
//!
//! An extension is a WebAssembly module that is installed into a store
//! (`ext_table`, `exts`), described by a record in one of its custom
//! sections (`metadata`), loaded into the registry of a host under the
//! hooks that it exports (`extension`, `registry`, `host`), and called
//! through those hooks, each hook with its own way to make one answer of
//! many (`dispatch`, `hooks`). While it runs it works on a context of its own:
//! a table of its resources and a set of permissions that it can give up
//! and never regain (`wasi_mtt`).
//!
//! Everything here is verified but what `wasm` takes on trust from the
//! crates that do the work on the binaries themselves.

pub mod common;
pub mod dispatch;
pub mod error;
pub mod ext_table;
pub mod extension;
pub mod exts;
pub mod hooks;
pub mod host;
pub mod id_map;
pub mod metadata;
pub mod module_loader;
pub mod registry;
pub mod text;
pub mod wasi_mtt;
pub mod wasm;

pub use error::Error;
pub use extension::Extension;
pub use hooks::Hook;
pub use host::Host;
pub use module_loader::{ModuleLoader, NoopModuleLoader};
