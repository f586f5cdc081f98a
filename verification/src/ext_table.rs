use crate::error::Error;
use crate::id_map::IdMap;
use crate::module_loader::ModuleLoader;
use vstd::prelude::*;
use vstd::slice::slice_to_vec;
use vstd::string::StringExecFns;

verus! {

/// The store of installed binaries, by id. A binary that is stored under an
/// id that is taken replaces what was there.
pub struct ExtTable {
    blobs: IdMap<Vec<u8>>,
}

impl View for ExtTable {
    type V = Map<Seq<char>, Seq<u8>>;

    closed spec fn view(&self) -> Map<Seq<char>, Seq<u8>> {
        self.blobs@.map_values(|bytes: Vec<u8>| bytes@)
    }
}

impl ExtTable {
    /// Whether the store is in order. Every store that this library hands
    /// out is.
    pub closed spec fn wf(&self) -> bool {
        self.blobs.wf()
    }

    /// A store holds finitely many binaries.
    pub proof fn lemma_finite(&self)
        ensures
            self@.dom().finite(),
    {
        self.blobs.lemma_finite();
        assert(self@.dom() =~= self.blobs@.dom());
    }

    /// An empty store.
    pub fn new() -> (table: ExtTable)
        ensures
            table.wf(),
            table@ == Map::<Seq<char>, Seq<u8>>::empty(),
    {
        let table = ExtTable { blobs: IdMap::new() };
        assert(table@ =~= Map::<Seq<char>, Seq<u8>>::empty());
        table
    }

    /// The bytes stored under `id`. Fails with `NotFound` where there are
    /// none.
    pub fn get(&self, id: &str) -> (r: Result<Vec<u8>, Error>)
        requires
            self.wf(),
        ensures
            match r {
                Ok(bytes) => self@.contains_key(id@) && bytes@ == self@[id@],
                Err(e) => !self@.contains_key(id@) && e == Error::NotFound,
            },
    {
        match self.blobs.get(id) {
            Some(bytes) => Ok(bytes.clone()),
            None => Err(Error::NotFound),
        }
    }

    /// Stores `bytes` under `id`, in place of what was stored there.
    pub fn install(&mut self, id: &str, bytes: &[u8]) -> (r: Result<(), Error>)
        requires
            old(self).wf(),
        ensures
            r.is_ok(),
            final(self).wf(),
            final(self)@ == old(self)@.insert(id@, bytes@),
    {
        self.blobs.insert(String::from_str(id), slice_to_vec(bytes));
        assert(self@ =~= old(self)@.insert(id@, bytes@));
        Ok(())
    }

    /// Takes what is stored under `id` out of the store. Fails with
    /// `NotFound`, and changes nothing, where nothing is stored there.
    pub fn uninstall(&mut self, id: &str) -> (r: Result<(), Error>)
        requires
            old(self).wf(),
        ensures
            final(self).wf(),
            !final(self)@.contains_key(id@),
            match r {
                Ok(()) => old(self)@.contains_key(id@) && final(self)@ == old(self)@.remove(id@),
                Err(e) => !old(self)@.contains_key(id@) && final(self)@ == old(self)@ && e
                    == Error::NotFound,
            },
    {
        let removed = self.blobs.remove(id);
        assert(self@ =~= old(self)@.remove(id@));
        match removed {
            Some(_) => Ok(()),
            None => {
                assert(old(self)@.remove(id@) =~= old(self)@);
                Err(Error::NotFound)
            },
        }
    }

    /// Takes everything out of the store.
    pub fn clear(&mut self) -> (r: Result<(), Error>)
        ensures
            r.is_ok(),
            final(self).wf(),
            final(self)@ == Map::<Seq<char>, Seq<u8>>::empty(),
    {
        self.blobs.clear();
        assert(self@ =~= Map::<Seq<char>, Seq<u8>>::empty());
        Ok(())
    }

    /// Whether something is stored under `id`.
    pub fn is_installed(&self, id: &str) -> (r: bool)
        ensures
            r == self@.contains_key(id@),
    {
        self.blobs.contains(id)
    }

    /// The ids of everything that is stored, each once.
    pub fn ids(&self) -> (out: Vec<String>)
        requires
            self.wf(),
        ensures
            out@.map_values(|s: String| s@).no_duplicates(),
            out@.map_values(|s: String| s@).to_set() == self@.dom(),
    {
        let out = self.blobs.ids();
        assert(self@.dom() =~= self.blobs@.dom());
        out
    }
}

impl ModuleLoader for ExtTable {
    /// A store that is in order gives the bytes that it holds under the id
    /// `specifier`, and fails with `NotFound` where it holds none.
    open spec fn loads(&self, specifier: Seq<char>, outcome: Result<Vec<u8>, Error>) -> bool {
        self.wf() ==> match outcome {
            Ok(bytes) => self@.contains_key(specifier) && bytes@ == self@[specifier],
            Err(e) => !self@.contains_key(specifier) && e == Error::NotFound,
        }
    }

    /// The bytes stored under the id `specifier`.
    fn load(&self, specifier: &str) -> (r: Result<Vec<u8>, Error>) {
        match self.blobs.peek(specifier) {
            Some(bytes) => Ok(bytes.clone()),
            None => Err(Error::NotFound),
        }
    }
}

} // verus!
