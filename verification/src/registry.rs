use crate::extension::{Extension, ExtensionView};
use crate::hooks::Hook;
use crate::text::{compare, lemma_text_lt_total, lemma_text_lt_transitive, text_lt, Order};
use vstd::prelude::*;
use vstd::string::StringExecFns;

verus! {

/// The key of the registry: a hook and the id of an extension that
/// provides it. Keys are ordered by hook first and by id second.
#[derive(Debug, Clone, PartialEq, Eq, PartialOrd, Ord)]
pub struct HookKey {
    pub hook: Hook,
    pub extension: String,
}

/// A `HookKey` in specifications.
pub struct HookKeyView {
    pub hook: Hook,
    pub extension: Seq<char>,
}

impl View for HookKey {
    type V = HookKeyView;

    open spec fn view(&self) -> HookKeyView {
        HookKeyView { hook: self.hook, extension: self.extension@ }
    }
}

/// Whether the key `a` comes before the key `b`.
pub open spec fn key_lt(a: HookKeyView, b: HookKeyView) -> bool {
    a.hook.rank() < b.hook.rank() || (a.hook == b.hook && text_lt(a.extension, b.extension))
}

/// The order of keys is transitive.
pub proof fn lemma_key_lt_transitive(a: HookKeyView, b: HookKeyView, c: HookKeyView)
    requires
        key_lt(a, b),
        key_lt(b, c),
    ensures
        key_lt(a, c),
{
    if a.hook == b.hook && b.hook == c.hook {
        lemma_text_lt_transitive(a.extension, b.extension, c.extension);
    }
}

/// No key comes before itself, and of two different keys exactly one comes
/// before the other.
pub proof fn lemma_key_lt_total(a: HookKeyView, b: HookKeyView)
    ensures
        !key_lt(a, a),
        a != b ==> (key_lt(a, b) <==> !key_lt(b, a)),
{
    lemma_text_lt_total(a.extension, b.extension);
    lemma_text_lt_total(a.extension, a.extension);
}

/// The keys from `lower` on that come before `upper`, or all of them from
/// `lower` on where there is no `upper`.
#[derive(Debug, Clone, PartialEq, Eq)]
pub struct HookRange {
    pub lower: HookKey,
    pub upper: Option<HookKey>,
}

impl HookRange {
    /// Whether `key` lies in the range.
    pub open spec fn spec_contains(&self, key: HookKeyView) -> bool {
        &&& !key_lt(key, self.lower@)
        &&& match self.upper {
            Some(upper) => key_lt(key, upper@),
            None => true,
        }
    }

    /// Whether `key` lies in the range.
    pub fn contains(&self, key: &HookKey) -> (r: bool)
        ensures
            r == self.spec_contains(key@),
    {
        match key.compare(&self.lower) {
            Order::Less => false,
            _ => match &self.upper {
                Some(upper) => match key.compare(upper) {
                    Order::Less => true,
                    _ => false,
                },
                None => true,
            },
        }
    }
}

impl HookKey {
    /// How `self` stands to `other` in the order of keys.
    pub fn compare(&self, other: &HookKey) -> (o: Order)
        ensures
            o == Order::Less <==> key_lt(self@, other@),
            o == Order::Equal <==> self@ == other@,
            o == Order::Greater <==> key_lt(other@, self@),
    {
        proof {
            lemma_key_lt_total(self@, other@);
            lemma_key_lt_total(other@, self@);
        }
        let a = self.hook.rank();
        let b = other.hook.rank();
        if a < b {
            Order::Less
        } else if b < a {
            Order::Greater
        } else {
            compare(self.extension.as_str(), other.extension.as_str())
        }
    }

    /// The range that holds the keys of `hook`, and no others.
    pub fn hook_range(hook: Hook) -> (range: HookRange)
        ensures
            forall|key: HookKeyView| range.spec_contains(key) <==> key.hook == hook,
    {
        let lower = HookKey { hook, extension: String::from_str("") };
        let upper = match hook {
            Hook::Metadata => Some(HookKey { hook: Hook::Menu, extension: String::from_str("") }),
            Hook::Menu => Some(
                HookKey { hook: Hook::RenderElement, extension: String::from_str("") },
            ),
            Hook::RenderElement => Some(
                HookKey { hook: Hook::RenderLeaf, extension: String::from_str("") },
            ),
            Hook::RenderLeaf => None,
        };
        let range = HookRange { lower, upper };
        proof {
            reveal_strlit("");
            assert(""@ =~= Seq::<char>::empty());
            assert(vstd::utf8::encode_utf8(Seq::<char>::empty()).len() == 0);
            assert forall|key: HookKeyView| range.spec_contains(key) <==> key.hook == hook by {
                assert(!text_lt(key.extension, ""@));
            }
        }
        range
    }
}

/// One line of the registry: a key and the extension registered under it.
pub struct Entry {
    key: HookKey,
    ext: Extension,
}

/// An `Entry` in specifications.
pub struct EntryView {
    pub key: HookKeyView,
    pub ext: ExtensionView,
}

impl View for Entry {
    type V = EntryView;

    closed spec fn view(&self) -> EntryView {
        EntryView { key: self.key@, ext: self.ext@ }
    }
}

/// Whether `entries` are in the strict order of their keys, and each is
/// the entry of an extension that provides the hook in its key.
pub open spec fn ordered(entries: Seq<EntryView>) -> bool {
    &&& forall|i: int, j: int|
        0 <= i < j < entries.len() ==> key_lt(
            (#[trigger] entries[i]).key,
            (#[trigger] entries[j]).key,
        )
    &&& forall|i: int|
        0 <= i < entries.len() ==> (#[trigger] entries[i]).key.extension == entries[i].ext.id
            && entries[i].ext.provides(entries[i].key.hook)
}

/// The extensions among `entries` that are registered for `hook`, in the
/// order of the entries.
pub open spec fn providers_of(entries: Seq<EntryView>, hook: Hook) -> Seq<ExtensionView> {
    entries.filter_map(
        |e: EntryView|
            if e.key.hook == hook {
                Some(e.ext)
            } else {
                None
            },
    )
}

/// Whether `entries` hold the key `key`.
pub open spec fn has_key(entries: Seq<EntryView>, key: HookKeyView) -> bool {
    exists|i: int| 0 <= i < entries.len() && (#[trigger] entries[i]).key == key
}

/// The extension that `entries` hold under `key`.
pub open spec fn value_of(entries: Seq<EntryView>, key: HookKeyView) -> ExtensionView {
    let i = choose|i: int| 0 <= i < entries.len() && (#[trigger] entries[i]).key == key;
    entries[i].ext
}

/// Whether `after` is the registry `before` with `ext` registered: `ext`
/// stands under each hook that it provides and under no other, in place of
/// whatever had its id, and the other extensions stand as before.
pub open spec fn registered(
    before: Seq<EntryView>,
    after: Seq<EntryView>,
    ext: ExtensionView,
) -> bool {
    &&& forall|k: HookKeyView|
        #![trigger has_key(after, k)]
        has_key(after, k) <==> if k.extension == ext.id {
            ext.provides(k.hook)
        } else {
            has_key(before, k)
        }
    &&& forall|k: HookKeyView|
        #![trigger value_of(after, k)]
        has_key(after, k) ==> value_of(after, k) == if k.extension == ext.id {
            ext
        } else {
            value_of(before, k)
        }
}

/// Whether `after` is the registry `before` without the extension `id`.
pub open spec fn unloaded(before: Seq<EntryView>, after: Seq<EntryView>, id: Seq<char>) -> bool {
    &&& forall|k: HookKeyView|
        #![trigger has_key(after, k)]
        has_key(after, k) <==> k.extension != id && has_key(before, k)
    &&& forall|k: HookKeyView|
        #![trigger value_of(after, k)]
        has_key(after, k) ==> value_of(after, k) == value_of(before, k)
}

/// To register an extension a second time changes nothing: the registry
/// holds the same keys, with the same extensions, as after the first time.
pub proof fn lemma_register_again(
    first: Seq<EntryView>,
    second: Seq<EntryView>,
    third: Seq<EntryView>,
    ext: ExtensionView,
)
    requires
        registered(first, second, ext),
        registered(second, third, ext),
    ensures
        registered(first, third, ext),
        forall|k: HookKeyView| has_key(third, k) <==> has_key(second, k),
        forall|k: HookKeyView| has_key(third, k) ==> value_of(third, k) == value_of(second, k),
{
    assert forall|k: HookKeyView| has_key(third, k) <==> has_key(second, k) by {
        assert(has_key(third, k) <==> if k.extension == ext.id {
            ext.provides(k.hook)
        } else {
            has_key(second, k)
        });
        assert(has_key(second, k) <==> if k.extension == ext.id {
            ext.provides(k.hook)
        } else {
            has_key(first, k)
        });
    }
    assert forall|k: HookKeyView| has_key(third, k) implies value_of(third, k) == value_of(
        second,
        k,
    ) by {
        assert(has_key(second, k));
        assert(value_of(third, k) == if k.extension == ext.id {
            ext
        } else {
            value_of(second, k)
        });
        assert(value_of(second, k) == if k.extension == ext.id {
            ext
        } else {
            value_of(first, k)
        });
    }
    assert forall|k: HookKeyView| has_key(third, k) implies value_of(third, k) == if k.extension
        == ext.id {
        ext
    } else {
        value_of(first, k)
    } by {
        assert(has_key(second, k));
        assert(value_of(second, k) == if k.extension == ext.id {
            ext
        } else {
            value_of(first, k)
        });
    }
}

/// An extension that was unloaded is registered for no hook, whatever was
/// registered before.
pub proof fn lemma_unloaded_provides_nothing(
    before: Seq<EntryView>,
    after: Seq<EntryView>,
    id: Seq<char>,
    hook: Hook,
)
    requires
        unloaded(before, after, id),
    ensures
        !has_key(after, HookKeyView { hook, extension: id }),
{
}

/// In an ordered registry a key stands at one place only.
pub proof fn lemma_value_at(entries: Seq<EntryView>, i: int)
    requires
        ordered(entries),
        0 <= i < entries.len(),
    ensures
        has_key(entries, entries[i].key),
        value_of(entries, entries[i].key) == entries[i].ext,
{
    let key = entries[i].key;
    let j = choose|j: int| 0 <= j < entries.len() && (#[trigger] entries[j]).key == key;
    lemma_key_lt_total(key, key);
    if j < i {
        assert(key_lt(entries[j].key, entries[i].key));
    } else if i < j {
        assert(key_lt(entries[i].key, entries[j].key));
    }
}

/// What the registry holds after a new entry was put in at its place.
proof fn lemma_insert(old_entries: Seq<EntryView>, p: int, e: EntryView)
    requires
        ordered(old_entries),
        0 <= p <= old_entries.len(),
        forall|i: int| 0 <= i < p ==> key_lt((#[trigger] old_entries[i]).key, e.key),
        forall|i: int|
            p <= i < old_entries.len() ==> key_lt(e.key, (#[trigger] old_entries[i]).key),
        e.key.extension == e.ext.id,
        e.ext.provides(e.key.hook),
    ensures
        ordered(old_entries.insert(p, e)),
        forall|k: HookKeyView|
            has_key(old_entries.insert(p, e), k) <==> (k == e.key || has_key(old_entries, k)),
        forall|k: HookKeyView|
            has_key(old_entries, k) ==> value_of(old_entries.insert(p, e), k) == value_of(
                old_entries,
                k,
            ),
        value_of(old_entries.insert(p, e), e.key) == e.ext,
{
    let new_entries = old_entries.insert(p, e);
    assert forall|i: int, j: int| 0 <= i < j < new_entries.len() implies key_lt(
        (#[trigger] new_entries[i]).key,
        (#[trigger] new_entries[j]).key,
    ) by {
        let a = if i < p {
            i
        } else {
            i - 1
        };
        let b = if j < p {
            j
        } else {
            j - 1
        };
        if i != p && j != p {
            assert(key_lt(old_entries[a].key, old_entries[b].key));
        } else if i == p {
            assert(key_lt(e.key, old_entries[b].key));
        } else {
            assert(key_lt(old_entries[a].key, e.key));
        }
    }
    assert forall|i: int| 0 <= i < new_entries.len() implies (#[trigger] new_entries[i]).key.extension
        == new_entries[i].ext.id && new_entries[i].ext.provides(new_entries[i].key.hook) by {
        if i < p {
            assert(new_entries[i] == old_entries[i]);
        } else if i > p {
            assert(new_entries[i] == old_entries[i - 1]);
        }
    }
    assert(new_entries[p] == e);
    lemma_value_at(new_entries, p);
    assert forall|k: HookKeyView| has_key(new_entries, k) <==> (k == e.key || has_key(
        old_entries,
        k,
    )) by {
        if has_key(new_entries, k) {
            let i = choose|i: int| 0 <= i < new_entries.len() && (#[trigger] new_entries[i]).key == k;
            if i < p {
                assert(old_entries[i].key == k);
            } else if i > p {
                assert(old_entries[i - 1].key == k);
            }
        }
        if has_key(old_entries, k) {
            let i = choose|i: int| 0 <= i < old_entries.len() && (#[trigger] old_entries[i]).key == k;
            if i < p {
                assert(new_entries[i].key == k);
            } else {
                assert(new_entries[i + 1].key == k);
            }
        }
    }
    assert forall|k: HookKeyView| has_key(old_entries, k) implies value_of(new_entries, k)
        == value_of(old_entries, k) by {
        let i = choose|i: int| 0 <= i < old_entries.len() && (#[trigger] old_entries[i]).key == k;
        lemma_value_at(old_entries, i);
        if i < p {
            assert(new_entries[i] == old_entries[i]);
            lemma_value_at(new_entries, i);
        } else {
            assert(new_entries[i + 1] == old_entries[i]);
            lemma_value_at(new_entries, i + 1);
        }
    }
}

/// What the registry holds after the entry at place `p` was taken out.
proof fn lemma_remove(old_entries: Seq<EntryView>, p: int)
    requires
        ordered(old_entries),
        0 <= p < old_entries.len(),
    ensures
        ordered(old_entries.remove(p)),
        forall|k: HookKeyView|
            has_key(old_entries.remove(p), k) <==> (k != old_entries[p].key && has_key(
                old_entries,
                k,
            )),
        forall|k: HookKeyView|
            has_key(old_entries.remove(p), k) ==> value_of(old_entries.remove(p), k) == value_of(
                old_entries,
                k,
            ),
{
    let new_entries = old_entries.remove(p);
    assert forall|i: int, j: int| 0 <= i < j < new_entries.len() implies key_lt(
        (#[trigger] new_entries[i]).key,
        (#[trigger] new_entries[j]).key,
    ) by {
        let a = if i < p {
            i
        } else {
            i + 1
        };
        let b = if j < p {
            j
        } else {
            j + 1
        };
        assert(key_lt(old_entries[a].key, old_entries[b].key));
    }
    assert forall|i: int| 0 <= i < new_entries.len() implies (#[trigger] new_entries[i]).key.extension
        == new_entries[i].ext.id && new_entries[i].ext.provides(new_entries[i].key.hook) by {
        if i < p {
            assert(new_entries[i] == old_entries[i]);
        } else {
            assert(new_entries[i] == old_entries[i + 1]);
        }
    }
    assert forall|k: HookKeyView| has_key(new_entries, k) <==> (k != old_entries[p].key
        && has_key(old_entries, k)) by {
        if has_key(new_entries, k) {
            let i = choose|i: int| 0 <= i < new_entries.len() && (#[trigger] new_entries[i]).key == k;
            let a = if i < p {
                i
            } else {
                i + 1
            };
            assert(old_entries[a].key == k);
            lemma_key_lt_total(k, k);
            if a < p {
                assert(key_lt(old_entries[a].key, old_entries[p].key));
            } else {
                assert(key_lt(old_entries[p].key, old_entries[a].key));
            }
        }
        if k != old_entries[p].key && has_key(old_entries, k) {
            let i = choose|i: int| 0 <= i < old_entries.len() && (#[trigger] old_entries[i]).key == k;
            if i < p {
                assert(new_entries[i].key == k);
            } else {
                assert(new_entries[i - 1].key == k);
            }
        }
    }
    assert forall|k: HookKeyView| has_key(new_entries, k) implies value_of(new_entries, k)
        == value_of(old_entries, k) by {
        let i = choose|i: int| 0 <= i < new_entries.len() && (#[trigger] new_entries[i]).key == k;
        lemma_value_at(new_entries, i);
        let a = if i < p {
            i
        } else {
            i + 1
        };
        assert(old_entries[a] == new_entries[i]);
        lemma_value_at(old_entries, a);
    }
}

/// The extensions registered for a hook come in the strict order of
/// their ids, and they are the extensions whose keys the registry holds for
/// that hook, no more and no fewer.
pub proof fn lemma_providers_in_order(entries: Seq<EntryView>, hook: Hook)
    requires
        ordered(entries),
    ensures
        forall|a: int, b: int|
            0 <= a < b < providers_of(entries, hook).len() ==> text_lt(
                (#[trigger] providers_of(entries, hook)[a]).id,
                (#[trigger] providers_of(entries, hook)[b]).id,
            ),
        forall|a: int|
            0 <= a < providers_of(entries, hook).len() ==> {
                let p = #[trigger] providers_of(entries, hook)[a];
                let k = HookKeyView { hook, extension: p.id };
                has_key(entries, k) && value_of(entries, k) == p
            },
        forall|x: Seq<char>|
            has_key(entries, HookKeyView { hook, extension: x }) ==> exists|a: int|
                0 <= a < providers_of(entries, hook).len() && (#[trigger] providers_of(
                    entries,
                    hook,
                )[a]).id == x,
    decreases entries.len(),
{
    let f = |e: EntryView|
        if e.key.hook == hook {
            Some(e.ext)
        } else {
            None
        };
    let all = providers_of(entries, hook);
    if entries.len() == 0 {
        assert(all.len() == 0);
    } else {
        let rest = entries.drop_last();
        let last = entries.last();
        let n = rest.len() as int;
        assert(ordered(rest)) by {
            assert forall|i: int, j: int| 0 <= i < j < rest.len() implies key_lt(
                (#[trigger] rest[i]).key,
                (#[trigger] rest[j]).key,
            ) by {
                assert(rest[i] == entries[i] && rest[j] == entries[j]);
            }
            assert forall|i: int| 0 <= i < rest.len() implies (#[trigger] rest[i]).key.extension
                == rest[i].ext.id && rest[i].ext.provides(rest[i].key.hook) by {
                assert(rest[i] == entries[i]);
            }
        }
        lemma_providers_in_order(rest, hook);
        let before = providers_of(rest, hook);
        assert(all == if last.key.hook == hook {
            before + seq![last.ext]
        } else {
            before
        });
        assert forall|a: int| 0 <= a < all.len() implies {
            let p = #[trigger] all[a];
            let k = HookKeyView { hook, extension: p.id };
            has_key(entries, k) && value_of(entries, k) == p
        } by {
            let p = all[a];
            let k = HookKeyView { hook, extension: p.id };
            if a < before.len() {
                assert(before[a] == p);
                assert(has_key(rest, k));
                let i = choose|i: int| 0 <= i < rest.len() && (#[trigger] rest[i]).key == k;
                lemma_value_at(rest, i);
                assert(entries[i] == rest[i]);
                lemma_value_at(entries, i);
            } else {
                assert(p == last.ext);
                assert(entries[n] == last);
                lemma_value_at(entries, n);
            }
        }
        assert forall|a: int, b: int| 0 <= a < b < all.len() implies text_lt(
            (#[trigger] all[a]).id,
            (#[trigger] all[b]).id,
        ) by {
            if b < before.len() {
                assert(all[a] == before[a] && all[b] == before[b]);
            } else {
                assert(all[b] == last.ext);
                assert(all[a] == before[a]);
                let k = HookKeyView { hook, extension: before[a].id };
                assert(has_key(rest, k));
                let i = choose|i: int| 0 <= i < rest.len() && (#[trigger] rest[i]).key == k;
                assert(entries[i] == rest[i]);
                assert(entries[n] == last);
                assert(key_lt(entries[i].key, entries[n].key));
            }
        }
        assert forall|x: Seq<char>| has_key(entries, HookKeyView { hook, extension: x }) implies exists|
            a: int,
        |
            0 <= a < all.len() && (#[trigger] all[a]).id == x by {
            let k = HookKeyView { hook, extension: x };
            let i = choose|i: int| 0 <= i < entries.len() && (#[trigger] entries[i]).key == k;
            if i < n {
                assert(rest[i] == entries[i]);
                assert(has_key(rest, k));
                let a = choose|a: int| 0 <= a < before.len() && (#[trigger] before[a]).id == x;
                assert(all[a] == before[a]);
            } else {
                assert(entries[i] == last);
                assert(all[all.len() - 1] == last.ext);
            }
        }
    }
}

/// Where `f` picks the items of `s` from `start` up to `end` and no
/// others, what it picks from `s` is what it makes of that run.
proof fn lemma_filter_map_run<A, B>(s: Seq<A>, f: spec_fn(A) -> Option<B>, start: int, end: int)
    requires
        0 <= start <= end <= s.len(),
        forall|j: int| 0 <= j < start ==> f(#[trigger] s[j]).is_none(),
        forall|j: int| start <= j < end ==> f(#[trigger] s[j]).is_some(),
        forall|j: int| end <= j < s.len() ==> f(#[trigger] s[j]).is_none(),
    ensures
        s.filter_map(f).len() == end - start,
        forall|a: int|
            0 <= a < end - start ==> #[trigger] s.filter_map(f)[a] == f(s[start + a]).unwrap(),
    decreases s.len(),
{
    if s.len() > 0 {
        let rest = s.drop_last();
        let n = rest.len() as int;
        assert forall|j: int| 0 <= j < n implies rest[j] == s[j] by {}
        assert(s.last() == s[n]);
        if end == s.len() && start < end {
            lemma_filter_map_run(rest, f, start, end - 1);
            assert(s.filter_map(f) == rest.filter_map(f) + seq![f(s.last()).unwrap()]);
        } else {
            let a = if start < n {
                start
            } else {
                n
            };
            let b = if end < n {
                end
            } else {
                n
            };
            assert(f(s.last()).is_none());
            lemma_filter_map_run(rest, f, a, b);
            assert(s.filter_map(f) == rest.filter_map(f));
        }
    }
}

proof fn lemma_records_of(map: Seq<Entry>, hook: Hook)
    ensures
        map.filter_map(
            |e: Entry|
                if e.key.hook == hook {
                    Some(e.ext)
                } else {
                    None
                },
        ).map_values(|e: Extension| e@) == providers_of(map.map_values(|e: Entry| e@), hook),
    decreases map.len(),
{
    let pick = |e: Entry|
        if e.key.hook == hook {
            Some(e.ext)
        } else {
            None
        };
    let views = map.map_values(|e: Entry| e@);
    if map.len() == 0 {
        assert(map.filter_map(pick).map_values(|e: Extension| e@) =~= providers_of(views, hook));
    } else {
        let rest = map.drop_last();
        lemma_records_of(rest, hook);
        assert(views.drop_last() =~= rest.map_values(|e: Entry| e@));
        assert(views.last() == map.last()@);
        assert(map.filter_map(pick).map_values(|e: Extension| e@) =~= providers_of(views, hook));
    }
}

/// The registry of a host: the extensions that were loaded, by hook and
/// id, in the order of their keys.
///
/// The entries are kept in a vector that is sorted by key. That the keys
/// are in order and that none occurs twice is the invariant `ordered`,
/// which every function here is proved to keep: a lookup then gives the
/// providers of a hook in the order of their ids by proof. A tree map from
/// the standard library would take the order from the `Ord` of the key, a
/// struct with a string in it, and of such an order nothing can be proved.
pub struct Registry {
    map: Vec<Entry>,
}

impl Registry {
    /// The registry: its entries in their order.
    pub closed spec fn entries(&self) -> Seq<EntryView> {
        self.map@.map_values(|e: Entry| e@)
    }

    /// Whether the registry is in order. Every registry that this
    /// library hands out is.
    pub open spec fn wf(&self) -> bool {
        ordered(self.entries())
    }

    /// Whether the extension `id` is registered for `hook`.
    pub open spec fn provides(&self, hook: Hook, id: Seq<char>) -> bool {
        has_key(self.entries(), HookKeyView { hook, extension: id })
    }

    /// The extension that is registered for `hook` under `id`.
    pub open spec fn provider(&self, hook: Hook, id: Seq<char>) -> ExtensionView {
        value_of(self.entries(), HookKeyView { hook, extension: id })
    }

    /// The extensions that are registered for `hook`, in the order of
    /// their ids.
    pub open spec fn providers(&self, hook: Hook) -> Seq<ExtensionView> {
        providers_of(self.entries(), hook)
    }

    /// The records of the extensions that are registered for `hook`, in the
    /// order of their ids.
    pub closed spec fn records(&self, hook: Hook) -> Seq<Extension> {
        self.map@.filter_map(
            |e: Entry|
                if e.key.hook == hook {
                    Some(e.ext)
                } else {
                    None
                },
        )
    }

    /// The records for a hook are the records of its providers.
    pub proof fn lemma_records(&self, hook: Hook)
        ensures
            self.records(hook).map_values(|e: Extension| e@) == self.providers(hook),
    {
        lemma_records_of(self.map@, hook);
    }

    /// An empty registry.
    pub fn new() -> (registry: Registry)
        ensures
            registry.wf(),
            registry.entries().len() == 0,
    {
        Registry { map: Vec::new() }
    }

    /// The place of the first entry whose key does not come before `key`:
    /// the place where `key` stands, or where it belongs.
    fn lower_bound(&self, key: &HookKey) -> (p: usize)
        requires
            self.wf(),
        ensures
            p <= self.entries().len(),
            forall|i: int| 0 <= i < p ==> key_lt((#[trigger] self.entries()[i]).key, key@),
            forall|i: int|
                p <= i < self.entries().len() ==> !key_lt((#[trigger] self.entries()[i]).key, key@),
    {
        let mut lo: usize = 0;
        let mut hi: usize = self.map.len();
        while lo < hi
            invariant
                self.wf(),
                lo <= hi <= self.map.len(),
                forall|i: int| 0 <= i < lo ==> key_lt((#[trigger] self.entries()[i]).key, key@),
                forall|i: int|
                    hi <= i < self.entries().len() ==> !key_lt(
                        (#[trigger] self.entries()[i]).key,
                        key@,
                    ),
            decreases hi - lo,
        {
            let mid = lo + (hi - lo) / 2;
            let ghost entries = self.entries();
            match self.map[mid].key.compare(key) {
                Order::Less => {
                    proof {
                        assert forall|i: int| 0 <= i < mid + 1 implies key_lt(
                            (#[trigger] entries[i]).key,
                            key@,
                        ) by {
                            if i < mid {
                                assert(key_lt(entries[i].key, entries[mid as int].key));
                                lemma_key_lt_transitive(
                                    entries[i].key,
                                    entries[mid as int].key,
                                    key@,
                                );
                            }
                        }
                    }
                    lo = mid + 1;
                },
                _ => {
                    proof {
                        assert forall|i: int| mid <= i < entries.len() implies !key_lt(
                            (#[trigger] entries[i]).key,
                            key@,
                        ) by {
                            if i > mid && key_lt(entries[i].key, key@) {
                                assert(key_lt(entries[mid as int].key, entries[i].key));
                                lemma_key_lt_transitive(
                                    entries[mid as int].key,
                                    entries[i].key,
                                    key@,
                                );
                            }
                        }
                    }
                    hi = mid;
                },
            }
        }
        lo
    }

    /// Puts the entry of `ext` for `hook` into the registry, if `ext`
    /// provides `hook`.
    fn add(&mut self, hook: Hook, ext: &Extension)
        requires
            old(self).wf(),
            !old(self).provides(hook, ext@.id),
        ensures
            final(self).wf(),
            forall|k: HookKeyView|
                has_key(final(self).entries(), k) <==> (has_key(old(self).entries(), k) || (k
                    == (HookKeyView { hook, extension: ext@.id }) && ext@.provides(hook))),
            forall|k: HookKeyView|
                has_key(old(self).entries(), k) ==> value_of(final(self).entries(), k)
                    == value_of(old(self).entries(), k),
            ext@.provides(hook) ==> value_of(
                final(self).entries(),
                HookKeyView { hook, extension: ext@.id },
            ) == ext@,
    {
        if !ext.provides(hook) {
            return ;
        }
        let key = HookKey { hook, extension: ext.id().clone() };
        let p = self.lower_bound(&key);
        proof {
            let entries = self.entries();
            assert forall|i: int| p <= i < entries.len() implies key_lt(
                key@,
                (#[trigger] entries[i]).key,
            ) by {
                lemma_key_lt_total(entries[i].key, key@);
            }
        }
        let entry = Entry { key, ext: ext.duplicate() };
        proof {
            lemma_insert(self.entries(), p as int, entry@);
            assert(self.map@.insert(p as int, entry).map_values(|e: Entry| e@)
                =~= self.entries().insert(p as int, entry@));
        }
        self.map.insert(p, entry);
    }

    /// Takes the extension `id` out of the registry: it is registered for
    /// no hook afterwards, and the other extensions are as before.
    pub fn unload(&mut self, id: &str)
        requires
            old(self).wf(),
        ensures
            final(self).wf(),
            unloaded(old(self).entries(), final(self).entries(), id@),
    {
        let mut i: usize = 0;
        while i < self.map.len()
            invariant
                self.wf(),
                i <= self.map.len(),
                forall|j: int| 0 <= j < i ==> (#[trigger] self.entries()[j]).key.extension != id@,
                forall|k: HookKeyView|
                    has_key(self.entries(), k) ==> has_key(old(self).entries(), k) && value_of(
                        self.entries(),
                        k,
                    ) == value_of(old(self).entries(), k),
                forall|k: HookKeyView|
                    k.extension != id@ && has_key(old(self).entries(), k) ==> has_key(
                        self.entries(),
                        k,
                    ),
            decreases self.map.len() - i,
        {
            if crate::text::same(self.map[i].key.extension.as_str(), id) {
                proof {
                    lemma_remove(self.entries(), i as int);
                    assert(self.map@.remove(i as int).map_values(|e: Entry| e@)
                        =~= self.entries().remove(i as int));
                }
                let ghost before = self.entries();
                self.map.remove(i);
                proof {
                    assert forall|j: int| 0 <= j < i implies (#[trigger] self.entries()[j]).key.extension
                        != id@ by {
                        assert(self.entries()[j] == before[j]);
                    }
                }
            } else {
                i += 1;
            }
        }
        proof {
            assert forall|k: HookKeyView| has_key(self.entries(), k) implies k.extension
                != id@ by {
                let j = choose|j: int|
                    0 <= j < self.entries().len() && (#[trigger] self.entries()[j]).key == k;
            }
        }
    }

    /// Puts `ext` into the registry: under each hook that it provides, and
    /// under no other. An extension with the same id that was registered
    /// before is replaced.
    pub fn register(&mut self, ext: Extension)
        requires
            old(self).wf(),
        ensures
            final(self).wf(),
            registered(old(self).entries(), final(self).entries(), ext@),
    {
        self.unload(ext.id().as_str());
        let ghost cleared = self.entries();
        proof {
            lemma_unloaded_provides_nothing(old(self).entries(), cleared, ext@.id, Hook::Metadata);
            lemma_unloaded_provides_nothing(old(self).entries(), cleared, ext@.id, Hook::Menu);
            lemma_unloaded_provides_nothing(
                old(self).entries(),
                cleared,
                ext@.id,
                Hook::RenderElement,
            );
            lemma_unloaded_provides_nothing(old(self).entries(), cleared, ext@.id, Hook::RenderLeaf);
        }
        self.add(Hook::Metadata, &ext);
        let ghost first = self.entries();
        assert(!has_key(first, HookKeyView { hook: Hook::Menu, extension: ext@.id }));
        self.add(Hook::Menu, &ext);
        let ghost second = self.entries();
        assert(!has_key(second, HookKeyView { hook: Hook::RenderElement, extension: ext@.id }));
        self.add(Hook::RenderElement, &ext);
        let ghost third = self.entries();
        assert(!has_key(third, HookKeyView { hook: Hook::RenderLeaf, extension: ext@.id }));
        self.add(Hook::RenderLeaf, &ext);
        proof {
            let before = old(self).entries();
            let last = self.entries();
            let id = ext@.id;
            assert forall|k: HookKeyView|
                #![trigger has_key(last, k)]
                has_key(last, k) <==> if k.extension == id {
                    ext@.provides(k.hook)
                } else {
                    has_key(before, k)
                } by {
                assert(has_key(last, k) <==> has_key(third, k) || (k == (HookKeyView {
                    hook: Hook::RenderLeaf,
                    extension: id,
                }) && ext@.provides(Hook::RenderLeaf)));
                assert(has_key(third, k) <==> has_key(second, k) || (k == (HookKeyView {
                    hook: Hook::RenderElement,
                    extension: id,
                }) && ext@.provides(Hook::RenderElement)));
                assert(has_key(second, k) <==> has_key(first, k) || (k == (HookKeyView {
                    hook: Hook::Menu,
                    extension: id,
                }) && ext@.provides(Hook::Menu)));
                assert(has_key(first, k) <==> has_key(cleared, k) || (k == (HookKeyView {
                    hook: Hook::Metadata,
                    extension: id,
                }) && ext@.provides(Hook::Metadata)));
                assert(has_key(cleared, k) <==> (k.extension != id && has_key(before, k)));
            }
            assert forall|k: HookKeyView|
                #![trigger value_of(last, k)]
                has_key(last, k) implies value_of(last, k) == if k.extension == id {
                    ext@
                } else {
                    value_of(before, k)
                } by {
                assert(has_key(cleared, k) <==> (k.extension != id && has_key(before, k)));
                assert(has_key(cleared, k) ==> value_of(cleared, k) == value_of(before, k));
                assert(has_key(cleared, k) ==> has_key(first, k) && has_key(second, k) && has_key(
                    third,
                    k,
                ));
            }
        }
    }

    /// The extensions that are registered for `hook`, in the strict order
    /// of their ids.
    pub fn lookup(&self, hook: Hook) -> (out: Vec<&Extension>)
        requires
            self.wf(),
        ensures
            out@.map_values(|e: &Extension| *e) == self.records(hook),
            out@.map_values(|e: &Extension| e@) == self.providers(hook),
            forall|a: int, b: int|
                0 <= a < b < out@.len() ==> text_lt(
                    (#[trigger] out@[a])@.id,
                    (#[trigger] out@[b])@.id,
                ),
            forall|a: int|
                0 <= a < out@.len() ==> self.provides(hook, (#[trigger] out@[a])@.id)
                    && self.provider(hook, out@[a]@.id) == out@[a]@,
            forall|x: Seq<char>|
                self.provides(hook, x) ==> exists|a: int|
                    0 <= a < out@.len() && (#[trigger] out@[a])@.id == x,
    {
        let range = HookKey::hook_range(hook);
        let start = self.lower_bound(&range.lower);
        let ghost entries = self.entries();
        let mut out: Vec<&Extension> = Vec::new();
        let mut i: usize = start;
        while i < self.map.len() && range.contains(&self.map[i].key)
            invariant
                start <= i <= self.map.len(),
                entries == self.entries(),
                forall|key: HookKeyView| range.spec_contains(key) <==> key.hook == hook,
                out@.len() == i - start,
                forall|j: int| start <= j < i ==> (#[trigger] entries[j]).key.hook == hook,
                forall|a: int| 0 <= a < out@.len() ==> *(#[trigger] out@[a]) == self.map@[start + a].ext,
            decreases self.map.len() - i,
        {
            out.push(&self.map[i].ext);
            i += 1;
        }
        proof {
            let end = i as int;
            assert forall|j: int| 0 <= j < start implies (#[trigger] entries[j]).key.hook != hook by {
                assert(!range.spec_contains(entries[j].key));
            }
            assert forall|j: int| end <= j < entries.len() implies (#[trigger] entries[j]).key.hook
                != hook by {
                assert(!range.spec_contains(entries[end].key));
                if j > end && entries[j].key.hook == hook {
                    assert(range.spec_contains(entries[j].key));
                    assert(key_lt(entries[end].key, entries[j].key));
                    lemma_key_lt_transitive(
                        entries[end].key,
                        entries[j].key,
                        range.upper.unwrap()@,
                    );
                }
            }
            let pick = |e: Entry|
                if e.key.hook == hook {
                    Some(e.ext)
                } else {
                    None
                };
            let pick_view = |e: EntryView|
                if e.key.hook == hook {
                    Some(e.ext)
                } else {
                    None
                };
            assert forall|j: int| 0 <= j < self.map@.len() implies (#[trigger] self.map@[j]).key.hook
                == entries[j].key.hook by {}
            lemma_filter_map_run(self.map@, pick, start as int, end);
            lemma_filter_map_run(entries, pick_view, start as int, end);
            let records = self.map@.filter_map(pick);
            let views = entries.filter_map(pick_view);
            assert forall|a: int| 0 <= a < out@.len() implies *(#[trigger] out@[a]) == records[a]
                && out@[a]@ == views[a] by {
                assert(self.map@[start + a].key.hook == entries[start + a].key.hook);
                assert(entries[start + a].ext == self.map@[start + a].ext@);
                assert(records[a] == pick(self.map@[start + a]).unwrap());
                assert(views[a] == pick_view(entries[start + a]).unwrap());
            }
            assert(out@.map_values(|e: &Extension| *e) =~= records);
            assert(out@.map_values(|e: &Extension| e@) =~= views);
            lemma_providers_in_order(self.entries(), hook);
            let views = out@.map_values(|e: &Extension| e@);
            assert forall|a: int, b: int| 0 <= a < b < out@.len() implies text_lt(
                (#[trigger] out@[a])@.id,
                (#[trigger] out@[b])@.id,
            ) by {
                assert(views[a] == out@[a]@ && views[b] == out@[b]@);
            }
            assert forall|a: int| 0 <= a < out@.len() implies self.provides(
                hook,
                (#[trigger] out@[a])@.id,
            ) && self.provider(hook, out@[a]@.id) == out@[a]@ by {
                assert(views[a] == out@[a]@);
            }
            assert forall|x: Seq<char>| self.provides(hook, x) implies exists|a: int|
                0 <= a < out@.len() && (#[trigger] out@[a])@.id == x by {
                let a = choose|a: int| 0 <= a < views.len() && (#[trigger] views[a]).id == x;
                assert(views[a] == out@[a]@);
            }
        }
        out
    }
}

} // verus!
