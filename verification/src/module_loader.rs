use crate::error::Error;
use vstd::prelude::*;

verus! {

/// A way to turn the name of a module into its bytes. The host knows
/// nothing of where the bytes come from.
pub trait ModuleLoader {
    /// Whether `outcome` is what this loader can give for `specifier`: the
    /// bytes that it found under that name, or the error that it fails
    /// with. Each loader says for itself what it gives; one that says
    /// nothing can give anything.
    open spec fn loads(&self, specifier: Seq<char>, outcome: Result<Vec<u8>, Error>) -> bool {
        true
    }

    /// The bytes of the module that `specifier` names.
    fn load(&self, specifier: &str) -> (r: Result<Vec<u8>, Error>)
        ensures
            self.loads(specifier@, r),
    ;
}

/// Whether `specifier` can name a module at all: whether it is not empty.
pub open spec fn well_formed(specifier: Seq<char>) -> bool {
    specifier.len() > 0
}

/// Passes a specifier that can name a module, and fails with
/// `InvalidSpecifier` on one that cannot: the empty one.
pub fn check_specifier(specifier: &str) -> (r: Result<(), Error>)
    ensures
        r.is_ok() <==> well_formed(specifier@),
        r matches Err(e) ==> e == Error::InvalidSpecifier,
{
    if specifier.is_empty() {
        Err(Error::InvalidSpecifier)
    } else {
        Ok(())
    }
}

/// The loader of a host that loads no modules: every load fails.
#[derive(Debug, Clone, Copy, PartialEq, Eq, Structural, Default)]
pub struct NoopModuleLoader;

impl ModuleLoader for NoopModuleLoader {
    /// Every load fails with `ModuleLoadingDisabled`.
    open spec fn loads(&self, specifier: Seq<char>, outcome: Result<Vec<u8>, Error>) -> bool {
        outcome == Err::<Vec<u8>, Error>(Error::ModuleLoadingDisabled)
    }

    fn load(&self, _specifier: &str) -> (r: Result<Vec<u8>, Error>) {
        Err(Error::ModuleLoadingDisabled)
    }
}

} // verus!
