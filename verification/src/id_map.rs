use crate::text::same;
use vstd::prelude::*;

verus! {

/// One entry of an `IdMap`.
pub struct Slot<V> {
    id: String,
    value: V,
}

/// Whether `slots` hold something under `id`.
spec fn holds<V>(slots: Seq<Slot<V>>, id: Seq<char>) -> bool {
    exists|i: int| 0 <= i < slots.len() && (#[trigger] slots[i]).id@ == id
}

/// What `slots` hold under `id`.
spec fn value_of<V>(slots: Seq<Slot<V>>, id: Seq<char>) -> V {
    let i = choose|i: int| 0 <= i < slots.len() && (#[trigger] slots[i]).id@ == id;
    slots[i].value
}

/// Whether no id occurs twice among `slots`.
spec fn distinct<V>(slots: Seq<Slot<V>>) -> bool {
    forall|i: int, j: int|
        0 <= i < j < slots.len() ==> (#[trigger] slots[i]).id@ != (#[trigger] slots[j]).id@
}

/// What `slots` hold, as a map.
spec fn contents<V>(slots: Seq<Slot<V>>) -> Map<Seq<char>, V> {
    Map::new(|id: Seq<char>| holds(slots, id), |id: Seq<char>| value_of(slots, id))
}

proof fn lemma_at<V>(slots: Seq<Slot<V>>, i: int)
    requires
        distinct(slots),
        0 <= i < slots.len(),
    ensures
        holds(slots, slots[i].id@),
        value_of(slots, slots[i].id@) == slots[i].value,
{
    let id = slots[i].id@;
    let j = choose|j: int| 0 <= j < slots.len() && (#[trigger] slots[j]).id@ == id;
    if j < i {
        assert(slots[j].id@ != slots[i].id@);
    } else if i < j {
        assert(slots[i].id@ != slots[j].id@);
    }
}

proof fn lemma_push<V>(before: Seq<Slot<V>>, slot: Slot<V>)
    requires
        distinct(before),
        !holds(before, slot.id@),
    ensures
        distinct(before.push(slot)),
        contents(before.push(slot)) == contents(before).insert(slot.id@, slot.value),
{
    let after = before.push(slot);
    let n = before.len() as int;
    assert(distinct(after)) by {
        assert forall|a: int, b: int| 0 <= a < b < after.len() implies (#[trigger] after[a]).id@ != (
        #[trigger] after[b]).id@ by {
            assert(after[a] == before[a]);
            if b < n {
                assert(after[b] == before[b]);
            }
        }
    }
    assert forall|k: Seq<char>| holds(after, k) <==> (k == slot.id@ || holds(before, k)) by {
        if holds(after, k) {
            let j = choose|j: int| 0 <= j < after.len() && (#[trigger] after[j]).id@ == k;
            if j < n {
                assert(before[j].id@ == k);
            }
        }
        if holds(before, k) {
            let j = choose|j: int| 0 <= j < before.len() && (#[trigger] before[j]).id@ == k;
            assert(after[j].id@ == k);
        }
        assert(after[n].id@ == slot.id@);
    }
    assert forall|k: Seq<char>| holds(after, k) implies value_of(after, k) == if k == slot.id@ {
        slot.value
    } else {
        value_of(before, k)
    } by {
        let j = choose|j: int| 0 <= j < after.len() && (#[trigger] after[j]).id@ == k;
        lemma_at(after, j);
        if k != slot.id@ {
            assert(before[j] == after[j]);
            lemma_at(before, j);
        } else {
            lemma_at(after, n);
        }
    }
    assert(contents(after) =~= contents(before).insert(slot.id@, slot.value));
}

proof fn lemma_remove<V>(before: Seq<Slot<V>>, p: int)
    requires
        distinct(before),
        0 <= p < before.len(),
    ensures
        distinct(before.remove(p)),
        contents(before).contains_key(before[p].id@),
        contents(before)[before[p].id@] == before[p].value,
        contents(before.remove(p)) == contents(before).remove(before[p].id@),
        !holds(before.remove(p), before[p].id@),
{
    let after = before.remove(p);
    let id = before[p].id@;
    lemma_at(before, p);
    assert(distinct(after)) by {
        assert forall|a: int, b: int| 0 <= a < b < after.len() implies (#[trigger] after[a]).id@ != (
        #[trigger] after[b]).id@ by {
            let x = if a < p {
                a
            } else {
                a + 1
            };
            let y = if b < p {
                b
            } else {
                b + 1
            };
            assert(after[a] == before[x] && after[b] == before[y]);
        }
    }
    assert forall|k: Seq<char>| holds(after, k) <==> (k != id && holds(before, k)) by {
        if holds(after, k) {
            let j = choose|j: int| 0 <= j < after.len() && (#[trigger] after[j]).id@ == k;
            let x = if j < p {
                j
            } else {
                j + 1
            };
            assert(before[x] == after[j]);
            if x < p {
                assert(before[x].id@ != before[p].id@);
            } else {
                assert(before[p].id@ != before[x].id@);
            }
        }
        if k != id && holds(before, k) {
            let j = choose|j: int| 0 <= j < before.len() && (#[trigger] before[j]).id@ == k;
            if j < p {
                assert(after[j].id@ == k);
            } else {
                assert(after[j - 1].id@ == k);
            }
        }
    }
    assert forall|k: Seq<char>| holds(after, k) implies value_of(after, k) == value_of(
        before,
        k,
    ) by {
        let j = choose|j: int| 0 <= j < after.len() && (#[trigger] after[j]).id@ == k;
        lemma_at(after, j);
        let x = if j < p {
            j
        } else {
            j + 1
        };
        assert(before[x] == after[j]);
        lemma_at(before, x);
    }
    assert(contents(after) =~= contents(before).remove(id));
}

proof fn lemma_contents_finite<V>(slots: Seq<Slot<V>>)
    ensures
        contents(slots).dom().finite(),
    decreases slots.len(),
{
    if slots.len() == 0 {
        assert(contents(slots).dom() =~= Set::<Seq<char>>::empty());
    } else {
        let rest = slots.drop_last();
        lemma_contents_finite(rest);
        let id = slots.last().id@;
        assert(contents(slots).dom() =~= contents(rest).dom().insert(id)) by {
            assert forall|k: Seq<char>| contents(slots).dom().contains(k) <==> contents(
                rest,
            ).dom().insert(id).contains(k) by {
                if holds(slots, k) {
                    let j = choose|j: int| 0 <= j < slots.len() && (#[trigger] slots[j]).id@ == k;
                    if j < rest.len() {
                        assert(rest[j].id@ == k);
                    }
                }
                if holds(rest, k) {
                    let j = choose|j: int| 0 <= j < rest.len() && (#[trigger] rest[j]).id@ == k;
                    assert(slots[j].id@ == k);
                }
                assert(slots[slots.len() - 1].id@ == id);
            }
        }
    }
}

/// A map from ids to values. It holds each id once.
///
/// This is how the store of binaries is held in memory: a list of what a
/// directory holds, which can be read out id by id. That no id occurs twice
/// is the invariant `wf`, which every function here is proved to keep.
pub struct IdMap<V> {
    slots: Vec<Slot<V>>,
}

impl<V> View for IdMap<V> {
    type V = Map<Seq<char>, V>;

    closed spec fn view(&self) -> Map<Seq<char>, V> {
        contents(self.slots@)
    }
}

impl<V> IdMap<V> {
    /// Whether the map is in order: it holds no id twice. Every map that
    /// this library hands out is.
    pub closed spec fn wf(&self) -> bool {
        distinct(self.slots@)
    }

    /// A map holds finitely many ids.
    pub proof fn lemma_finite(&self)
        ensures
            self@.dom().finite(),
    {
        lemma_contents_finite(self.slots@);
    }

    /// An empty map.
    pub fn new() -> (map: IdMap<V>)
        ensures
            map.wf(),
            map@ == Map::<Seq<char>, V>::empty(),
    {
        let map = IdMap { slots: Vec::new() };
        assert(map@ =~= Map::<Seq<char>, V>::empty());
        map
    }

    fn find(&self, id: &str) -> (r: Option<usize>)
        ensures
            match r {
                Some(i) => i < self.slots@.len() && self.slots@[i as int].id@ == id@,
                None => !holds(self.slots@, id@),
            },
    {
        let mut i: usize = 0;
        while i < self.slots.len()
            invariant
                i <= self.slots.len(),
                forall|j: int| 0 <= j < i ==> (#[trigger] self.slots@[j]).id@ != id@,
            decreases self.slots.len() - i,
        {
            if same(self.slots[i].id.as_str(), id) {
                return Some(i);
            }
            i += 1;
        }
        None
    }

    /// What the map holds under `id`, if it holds something there.
    pub fn get(&self, id: &str) -> (r: Option<&V>)
        requires
            self.wf(),
        ensures
            match r {
                Some(value) => self@.contains_key(id@) && *value == self@[id@],
                None => !self@.contains_key(id@),
            },
    {
        match self.find(id) {
            Some(i) => {
                proof {
                    lemma_at(self.slots@, i as int);
                }
                Some(&self.slots[i].value)
            },
            None => None,
        }
    }

    /// What the map holds under `id`, if it holds something there. This
    /// asks nothing of the map, and says what it returns only of a map
    /// that is in order.
    pub fn peek(&self, id: &str) -> (r: Option<&V>)
        ensures
            self.wf() ==> match r {
                Some(value) => self@.contains_key(id@) && *value == self@[id@],
                None => !self@.contains_key(id@),
            },
    {
        match self.find(id) {
            Some(i) => {
                proof {
                    if self.wf() {
                        lemma_at(self.slots@, i as int);
                    }
                }
                Some(&self.slots[i].value)
            },
            None => None,
        }
    }

    /// Whether the map holds something under `id`.
    pub fn contains(&self, id: &str) -> (r: bool)
        ensures
            r == self@.contains_key(id@),
    {
        self.find(id).is_some()
    }

    /// Puts `value` under `id`, and returns what was there before.
    pub fn insert(&mut self, id: String, value: V) -> (r: Option<V>)
        requires
            old(self).wf(),
        ensures
            final(self).wf(),
            final(self)@ == old(self)@.insert(id@, value),
            match r {
                Some(before) => old(self)@.contains_key(id@) && before == old(self)@[id@],
                None => !old(self)@.contains_key(id@),
            },
    {
        let before = self.remove(id.as_str());
        let slot = Slot { id, value };
        proof {
            assert(!self@.contains_key(id@));
            assert(!holds(self.slots@, id@));
            lemma_push(self.slots@, slot);
            assert(old(self)@.remove(id@).insert(id@, value) =~= old(self)@.insert(id@, value));
        }
        self.slots.push(slot);
        before
    }

    /// Takes what is under `id` out of the map and returns it. Where
    /// nothing is there the map stays as it is.
    pub fn remove(&mut self, id: &str) -> (r: Option<V>)
        requires
            old(self).wf(),
        ensures
            final(self).wf(),
            final(self)@ == old(self)@.remove(id@),
            match r {
                Some(before) => old(self)@.contains_key(id@) && before == old(self)@[id@],
                None => !old(self)@.contains_key(id@),
            },
    {
        match self.find(id) {
            Some(i) => {
                proof {
                    lemma_remove(self.slots@, i as int);
                }
                let slot = self.slots.remove(i);
                Some(slot.value)
            },
            None => {
                assert(self@.remove(id@) =~= self@);
                None
            },
        }
    }

    /// Takes everything out of the map.
    pub fn clear(&mut self)
        ensures
            final(self).wf(),
            final(self)@ == Map::<Seq<char>, V>::empty(),
    {
        self.slots.clear();
        assert(self@ =~= Map::<Seq<char>, V>::empty());
    }

    /// The number of ids that the map holds.
    pub fn len(&self) -> (n: usize)
        requires
            self.wf(),
        ensures
            n == self@.dom().len(),
    {
        proof {
            lemma_len(self.slots@);
        }
        self.slots.len()
    }

    /// The ids that the map holds, each once.
    pub fn ids(&self) -> (out: Vec<String>)
        requires
            self.wf(),
        ensures
            out@.map_values(|s: String| s@).no_duplicates(),
            out@.map_values(|s: String| s@).to_set() == self@.dom(),
    {
        let mut out: Vec<String> = Vec::new();
        let mut i: usize = 0;
        while i < self.slots.len()
            invariant
                i <= self.slots.len(),
                out@.len() == i,
                forall|j: int| 0 <= j < i ==> (#[trigger] out@[j])@ == self.slots@[j].id@,
            decreases self.slots.len() - i,
        {
            out.push(self.slots[i].id.clone());
            i += 1;
        }
        proof {
            let names = out@.map_values(|s: String| s@);
            assert forall|a: int, b: int| 0 <= a < names.len() && 0 <= b < names.len() && a
                != b implies names[a] != names[b] by {
                if a < b {
                    assert(self.slots@[a].id@ != self.slots@[b].id@);
                } else {
                    assert(self.slots@[b].id@ != self.slots@[a].id@);
                }
            }
            assert forall|k: Seq<char>| names.to_set().contains(k) <==> self@.dom().contains(
                k,
            ) by {
                if names.to_set().contains(k) {
                    let j = choose|j: int| 0 <= j < names.len() && names[j] == k;
                    assert(self.slots@[j].id@ == k);
                }
                if self@.dom().contains(k) {
                    let j = choose|j: int|
                        0 <= j < self.slots@.len() && (#[trigger] self.slots@[j]).id@ == k;
                    assert(names[j] == k);
                }
            }
            assert(names.to_set() =~= self@.dom());
        }
        out
    }
}

proof fn lemma_len<V>(slots: Seq<Slot<V>>)
    requires
        distinct(slots),
    ensures
        contents(slots).dom().finite(),
        contents(slots).dom().len() == slots.len(),
    decreases slots.len(),
{
    lemma_contents_finite(slots);
    if slots.len() == 0 {
        assert(contents(slots).dom() =~= Set::<Seq<char>>::empty());
    } else {
        let p = slots.len() - 1;
        lemma_remove(slots, p);
        assert(slots.remove(p) =~= slots.drop_last());
        lemma_len(slots.drop_last());
        lemma_contents_finite(slots.drop_last());
        assert(contents(slots).dom().remove(slots[p].id@) =~= contents(slots.drop_last()).dom());
    }
}

} // verus!
