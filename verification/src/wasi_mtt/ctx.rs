use crate::wasi_mtt::error::{Cause, Error, ErrorExt, ErrorKind};
use crate::wasi_mtt::pledge::{contains, permits, Promises};
use std::collections::hash_map::Entry;
use std::collections::HashMap;
use vstd::prelude::*;
use vstd::string::StringExecFns;

verus! {

broadcast use vstd::std_specs::hash::group_hash_axioms;

/// The state of one running extension. Every host function works on it.
pub struct Context {
    /// All resources owned by the extension.
    pub resource_table: Table,
    /// All the permissions the running extension has. `pledge` can narrow
    /// them, and every gated host function checks them before it does
    /// anything.
    pub promises: Promises,
}

impl Context {
    /// A fresh context with an empty resource table and every permission.
    pub fn new() -> (cx: Context)
        ensures
            cx.resource_table@ == Map::<u32, Resource>::empty(),
            cx.resource_table.next_key() == FIRST_KEY,
            cx.promises == Promises::spec_all(),
    {
        Context { resource_table: Table::new(), promises: Promises::all() }
    }

    /// A fresh context with an empty resource table and the permissions that
    /// the host's policy grants.
    pub fn with_promises(promises: Promises) -> (cx: Context)
        ensures
            cx.resource_table@ == Map::<u32, Resource>::empty(),
            cx.resource_table.next_key() == FIRST_KEY,
            cx.promises == promises,
    {
        Context { resource_table: Table::new(), promises }
    }

    /// Passes if the extension holds every permission of `required`, and
    /// fails with permission denied otherwise.
    pub fn require(&self, required: Promises) -> (r: Result<(), Error>)
        ensures
            r.is_ok() <==> permits(self.promises, required),
            r matches Err(e) ==> e.cause == Cause::Kind(ErrorKind::Perm) && e.message@
                == Seq::<char>::empty(),
    {
        if contains(self.promises, required) {
            Ok(())
        } else {
            Err(Error::perm())
        }
    }
}

/// One of the three standard streams.
#[derive(Debug, Clone, Copy, PartialEq, Eq, Structural)]
pub enum Stdio {
    Stdin,
    Stdout,
    Stderr,
}

/// The answer to a network request, as the accessor functions read it.
#[derive(Debug, Clone, PartialEq, Eq)]
pub struct Response {
    /// The status code.
    pub status: u16,
    /// The status code followed by its reason phrase.
    pub status_text: String,
    /// Names and values, in the order the answer gave them. A value that is
    /// not visible ASCII has no text.
    pub headers: Vec<(String, Option<String>)>,
    pub body: Vec<u8>,
}

/// What the host keeps for an extension behind a handle.
#[derive(Debug, Clone, PartialEq, Eq)]
pub enum Resource {
    Stdio(Stdio),
    Response(Response),
}

/// The kinds of resource.
#[derive(Debug, Clone, Copy, PartialEq, Eq, Structural)]
pub enum ResourceKind {
    Stdio,
    Response,
}

impl Resource {
    /// The kind of the resource.
    pub open spec fn spec_kind(&self) -> ResourceKind {
        match self {
            Resource::Stdio(_) => ResourceKind::Stdio,
            Resource::Response(_) => ResourceKind::Response,
        }
    }

    /// The kind of the resource.
    #[verifier::when_used_as_spec(spec_kind)]
    pub fn kind(&self) -> (k: ResourceKind)
        ensures
            k == self.spec_kind(),
    {
        match self {
            Resource::Stdio(_) => ResourceKind::Stdio,
            Resource::Response(_) => ResourceKind::Response,
        }
    }
}

/// The first handle that `push` hands out: 0, 1 and 2 are reserved for the
/// standard streams.
pub const FIRST_KEY: u32 = 3;

/// The key that lies `n` steps after `start`, counting round from the
/// largest key to 0.
pub open spec fn key_after(start: u32, n: nat) -> u32 {
    ((start as nat + n) % 0x1_0000_0000) as u32
}

/// Whether the key `n` steps after `start` is the first one, from `start`
/// on, that `m` does not hold.
pub open spec fn first_free_at(m: Map<u32, Resource>, start: u32, n: nat) -> bool {
    &&& n < 0x1_0000_0000
    &&& !m.contains_key(key_after(start, n))
    &&& forall|j: nat| j < n ==> m.contains_key(#[trigger] key_after(start, j))
}

/// The first key, from `start` on and counting round, that `m` does not
/// hold. It is the key that `push` hands out.
pub open spec fn next_free(m: Map<u32, Resource>, start: u32) -> u32 {
    key_after(start, choose|n: nat| first_free_at(m, start, n))
}

/// Where the key `n` steps after `start` is the first free one, it is the
/// one that `next_free` names.
pub proof fn lemma_next_free(m: Map<u32, Resource>, start: u32, n: nat)
    requires
        first_free_at(m, start, n),
    ensures
        next_free(m, start) == key_after(start, n),
        !m.contains_key(next_free(m, start)),
{
    let c = choose|c: nat| first_free_at(m, start, c);
    if c < n {
        assert(m.contains_key(key_after(start, c)));
    } else if n < c {
        assert(m.contains_key(key_after(start, n)));
    }
}

/// The keys up to `n` steps after `start`, `n` itself left out.
pub closed spec fn keys_from(start: u32, n: nat) -> Set<u32> {
    Set::new(|k: u32| exists|j: nat| j < n && k == key_after(start, j))
}

proof fn lemma_keys_from_len(start: u32, n: nat)
    requires
        n <= 0x1_0000_0000,
    ensures
        keys_from(start, n).finite(),
        keys_from(start, n).len() == n,
    decreases n,
{
    if n == 0 {
        assert(keys_from(start, 0) =~= Set::<u32>::empty());
    } else {
        let m = (n - 1) as nat;
        lemma_keys_from_len(start, m);
        let k = key_after(start, m);
        assert(!keys_from(start, m).contains(k)) by {
            if keys_from(start, m).contains(k) {
                let j = choose|j: nat| j < m && k == key_after(start, j);
                assert((start as nat + j) % 0x1_0000_0000 == (start as nat + m) % 0x1_0000_0000);
            }
        }
        assert(keys_from(start, n) =~= keys_from(start, m).insert(k)) by {
            assert forall|x: u32| keys_from(start, n).contains(x) implies keys_from(
                start,
                m,
            ).insert(k).contains(x) by {
                let j = choose|j: nat| j < n && x == key_after(start, j);
                if j < m {
                    assert(keys_from(start, m).contains(x));
                }
            }
            assert forall|x: u32| keys_from(start, m).insert(k).contains(x) implies keys_from(
                start,
                n,
            ).contains(x) by {
                if x == k {
                    assert(m < n && x == key_after(start, m));
                } else {
                    let j = choose|j: nat| j < m && x == key_after(start, j);
                    assert(j < n && x == key_after(start, j));
                }
            }
        }
    }
}

/// The resources of one invocation, each behind a small integer handle.
pub struct Table {
    map: HashMap<u32, Resource>,
    next_key: u32,
}

impl Default for Table {
    /// An empty table. New insertions begin at 3, above the standard streams.
    fn default() -> (t: Table)
        ensures
            t@ == Map::<u32, Resource>::empty(),
            t.next_key() == FIRST_KEY,
    {
        Table { map: HashMap::new(), next_key: FIRST_KEY }
    }
}

impl View for Table {
    type V = Map<u32, Resource>;

    closed spec fn view(&self) -> Map<u32, Resource> {
        self.map@
    }
}

impl Table {
    /// The key at which `push` starts to look for a free one.
    pub closed spec fn next_key(&self) -> u32 {
        self.next_key
    }

    /// Every table holds finitely many resources.
    pub proof fn lemma_finite(&self)
        ensures
            self@.dom().finite(),
    {
    }

    /// An empty table. New insertions begin at 3, above the standard streams.
    pub fn new() -> (t: Table)
        ensures
            t@ == Map::<u32, Resource>::empty(),
            t.next_key() == FIRST_KEY,
    {
        Table::default()
    }

    /// Inserts a resource at a certain index. What was there is replaced.
    pub fn insert_at(&mut self, key: u32, a: Resource)
        ensures
            final(self)@ == old(self)@.insert(key, a),
            final(self).next_key() == old(self).next_key(),
    {
        self.map.insert(key, a);
    }

    /// Inserts a resource at the next free index and returns that index.
    /// Fails when no key is left to hand out.
    pub fn push(&mut self, a: Resource) -> (r: Result<u32, Error>)
        ensures
            r.is_ok() <==> old(self)@.dom().len() < u32::MAX,
            match r {
                Ok(key) => {
                    &&& key == next_free(old(self)@, old(self).next_key())
                    &&& !old(self)@.contains_key(key)
                    &&& final(self)@ == old(self)@.insert(key, a)
                    &&& final(self).next_key() == key_after(key, 1)
                },
                Err(e) => {
                    &&& final(self)@ == old(self)@
                    &&& final(self).next_key() == old(self).next_key()
                    &&& e.cause == Cause::Trap
                    &&& e.message@ == "table has no free keys"@
                },
            },
    {
        if self.map.len() >= u32::MAX as usize {
            return Err(Error::trap(String::from_str("table has no free keys")));
        }
        let ghost start = self.next_key;
        let ghost before = self.map@;
        let ghost mut n: nat = 0;
        loop
            invariant
                self.map@ == before,
                before == old(self)@,
                start == old(self).next_key(),
                before.dom().finite(),
                before.dom().len() < u32::MAX,
                n < 0x1_0000_0000,
                self.next_key == key_after(start, n),
                forall|j: nat| j < n ==> before.contains_key(#[trigger] key_after(start, j)),
            decreases 0x1_0000_0000 - n,
        {
            let key = self.next_key;
            self.next_key = self.next_key.wrapping_add(1);
            assert(self.next_key == key_after(start, n + 1)) by {
                assert(key == ((start as nat + n) % 0x1_0000_0000) as u32);
                if key == u32::MAX {
                    assert(self.next_key == 0);
                } else {
                    assert(self.next_key == key + 1);
                }
            }
            assert(key_after(key, 1) == self.next_key);
            if self.map.contains_key(&key) {
                proof {
                    assert forall|j: nat| j < n + 1 implies before.contains_key(
                        #[trigger] key_after(start, j),
                    ) by {
                        if j == n {
                        }
                    }
                    lemma_keys_from_len(start, n + 1);
                    assert(keys_from(start, n + 1).subset_of(before.dom())) by {
                        assert forall|k: u32| keys_from(start, n + 1).contains(
                            k,
                        ) implies before.dom().contains(k) by {
                            let j = choose|j: nat| j < n + 1 && k == key_after(start, j);
                            assert(before.contains_key(key_after(start, j)));
                        }
                    }
                    vstd::set_lib::lemma_len_subset(keys_from(start, n + 1), before.dom());
                    n = n + 1;
                }
                continue ;
            }
            proof {
                lemma_next_free(before, start, n);
            }
            self.map.insert(key, a);
            return Ok(key);
        }
    }

    /// Whether the table has a resource at the given index.
    pub fn contains_key(&self, key: u32) -> (r: bool)
        ensures
            r == self@.contains_key(key),
    {
        self.map.contains_key(&key)
    }

    /// Whether the resource at a given index is of a given kind. False where
    /// the index holds nothing.
    pub fn is(&self, key: u32, kind: ResourceKind) -> (r: bool)
        ensures
            r == (self@.contains_key(key) && self@[key].kind() == kind),
    {
        if let Some(r) = self.map.get(&key) {
            r.kind() == kind
        } else {
            false
        }
    }

    /// The resource of a given kind at a given index. Fails with a bad file
    /// descriptor where the index holds nothing or a resource of another kind.
    pub fn get(&self, key: u32, kind: ResourceKind) -> (r: Result<&Resource, Error>)
        ensures
            match r {
                Ok(res) => self@.contains_key(key) && *res == self@[key] && res.kind() == kind,
                Err(e) => {
                    &&& e.cause == Cause::Kind(ErrorKind::Badf)
                    &&& if self@.contains_key(key) {
                        self@[key].kind() != kind && e.message@ == "element is a different type"@
                    } else {
                        e.message@ == "key not in table"@
                    }
                },
            },
    {
        if let Some(r) = self.map.get(&key) {
            if r.kind() == kind {
                Ok(r)
            } else {
                Err(Error::badf().context("element is a different type"))
            }
        } else {
            Err(Error::badf().context("key not in table"))
        }
    }

    /// The resource of a given kind at a given index, to be changed in place.
    /// Fails as `get` does, and then leaves the table as it was.
    pub fn get_mut(&mut self, key: u32, kind: ResourceKind) -> (r: Result<&mut Resource, Error>)
        ensures
            final(self).next_key() == old(self).next_key(),
            match r {
                Ok(res) => {
                    &&& old(self)@.contains_key(key)
                    &&& *res == old(self)@[key]
                    &&& res.kind() == kind
                    &&& final(self)@ == old(self)@.insert(key, *final(res))
                },
                Err(e) => {
                    &&& final(self)@ == old(self)@
                    &&& e.cause == Cause::Kind(ErrorKind::Badf)
                    &&& if old(self)@.contains_key(key) {
                        old(self)@[key].kind() != kind && e.message@
                            == "element is a different type"@
                    } else {
                        e.message@ == "key not in table"@
                    }
                },
            },
    {
        match self.map.entry(key) {
            Entry::Occupied(occupied) => {
                if occupied.get().kind() == kind {
                    Ok(occupied.into_mut())
                } else {
                    Err(Error::badf().context("element is a different type"))
                }
            },
            Entry::Vacant(_) => Err(Error::badf().context("key not in table")),
        }
    }

    /// Removes the resource at a given index from the table and returns it,
    /// if there was one.
    pub fn delete(&mut self, key: u32) -> (r: Option<Resource>)
        ensures
            final(self)@ == old(self)@.remove(key),
            final(self).next_key() == old(self).next_key(),
            match r {
                Some(res) => old(self)@.contains_key(key) && res == old(self)@[key],
                None => !old(self)@.contains_key(key),
            },
    {
        self.map.remove(&key)
    }
}

} // verus!
