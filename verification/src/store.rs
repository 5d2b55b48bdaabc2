//! The ordered byte maps of stable memory, as the rest of the library sees
//! them: what a map holds is a mathematical map from byte strings to byte
//! strings, and each operation is described by what it does to that map.
//! Nothing in this file is proved; the typed tables built on it are.

use vstd::prelude::*;
use ic_stable_structures::memory_manager::{MemoryId, MemoryManager, VirtualMemory};
use ic_stable_structures::{DefaultMemoryImpl, StableBTreeMap};

verus! {

/// One ordered map from byte keys to byte values, living in its own region
/// of stable memory: a `StableBTreeMap` of the `ic-stable-structures`
/// crate. What it holds is known only as [`table_contents`], and only
/// through the functions below. Each region is opened once, so that no two
/// of these maps are one.
#[verifier::external_body]
pub struct ByteTable {
    inner: StableBTreeMap<Vec<u8>, Vec<u8>, VirtualMemory<DefaultMemoryImpl>>,
}

/// The regions of stable memory, from which each table takes its own: a
/// `MemoryManager` of the `ic-stable-structures` crate. Nothing is known
/// of it but that it hands out regions.
#[verifier::external_body]
pub struct Regions {
    manager: MemoryManager<DefaultMemoryImpl>,
}

/// What a byte map holds: each key with its value.
pub uninterp spec fn table_contents(t: ByteTable) -> Map<Seq<u8>, Seq<u8>>;

/// The map that holds nothing.
pub open spec fn no_entries() -> Map<Seq<u8>, Seq<u8>> {
    Map::empty()
}

/// The order in which a byte map keeps its keys: byte by byte, a proper
/// prefix before what it is a prefix of.
pub open spec fn bytes_lt(a: Seq<u8>, b: Seq<u8>) -> bool
    decreases a.len(),
{
    if b.len() == 0 {
        false
    } else if a.len() == 0 {
        true
    } else if a[0] != b[0] {
        a[0] < b[0]
    } else {
        bytes_lt(a.drop_first(), b.drop_first())
    }
}

/// The byte strings that a list of keys holds, in order.
pub open spec fn key_list(keys: Seq<Vec<u8>>) -> Seq<Seq<u8>> {
    Seq::new(keys.len(), |i: int| keys[i]@)
}

/// That each key of the list comes before the next in key order.
pub open spec fn ascending(keys: Seq<Seq<u8>>) -> bool {
    forall|i: int, j: int| 0 <= i < j < keys.len() ==> bytes_lt(#[trigger] keys[i], #[trigger] keys[j])
}

/// The order of keys is transitive.
pub proof fn lemma_bytes_lt_transitive(a: Seq<u8>, b: Seq<u8>, c: Seq<u8>)
    requires
        bytes_lt(a, b),
        bytes_lt(b, c),
    ensures
        bytes_lt(a, c),
    decreases a.len(),
{
    if a.len() > 0 && b.len() > 0 && c.len() > 0 && a[0] == b[0] && b[0] == c[0] {
        lemma_bytes_lt_transitive(a.drop_first(), b.drop_first(), c.drop_first());
    }
}

/// No key comes before itself.
pub proof fn lemma_bytes_lt_irreflexive(a: Seq<u8>)
    ensures
        !bytes_lt(a, a),
    decreases a.len(),
{
    if a.len() > 0 {
        lemma_bytes_lt_irreflexive(a.drop_first());
    }
}

/// An ascending list holds no key twice.
pub proof fn lemma_ascending_is_distinct(keys: Seq<Seq<u8>>)
    requires
        ascending(keys),
    ensures
        keys.no_duplicates(),
{
    assert forall|i: int, j: int| 0 <= i < keys.len() && 0 <= j < keys.len() && i != j implies keys[i]
        != keys[j] by {
        if i < j {
            assert(bytes_lt(keys[i], keys[j]));
        } else {
            assert(bytes_lt(keys[j], keys[i]));
        }
        lemma_bytes_lt_irreflexive(keys[i]);
    }
}

/// There is one ascending list of the keys of a set, and no other: the
/// order in which a map hands out its keys is settled by the keys.
pub proof fn law_ascending_is_unique(a: Seq<Seq<u8>>, b: Seq<Seq<u8>>)
    requires
        ascending(a),
        ascending(b),
        a.to_set() == b.to_set(),
    ensures
        a == b,
    decreases a.len(),
{
    if a.len() == 0 {
        if b.len() > 0 {
            assert(b.to_set().contains(b[0]));
            assert(a.to_set().contains(b[0]));
        }
        assert(a =~= b);
    } else {
        assert(a.to_set().contains(a[0]));
        assert(b.to_set().contains(a[0]));
        let j = choose|j: int| 0 <= j < b.len() && b[j] == a[0];
        assert(b.to_set().contains(b[0]));
        assert(a.to_set().contains(b[0]));
        let i = choose|i: int| 0 <= i < a.len() && a[i] == b[0];
        if i > 0 {
            assert(bytes_lt(a[0], a[i]));
            if j > 0 {
                assert(bytes_lt(b[0], b[j]));
                lemma_bytes_lt_transitive(a[0], b[0], a[0]);
            }
            lemma_bytes_lt_irreflexive(a[0]);
        }
        assert(a[0] == b[0]);
        let at = a.drop_first();
        let bt = b.drop_first();
        assert(ascending(at)) by {
            assert forall|x: int, y: int| 0 <= x < y < at.len() implies bytes_lt(
                #[trigger] at[x],
                #[trigger] at[y],
            ) by {
                assert(bytes_lt(a[x + 1], a[y + 1]));
            }
        }
        assert(ascending(bt)) by {
            assert forall|x: int, y: int| 0 <= x < y < bt.len() implies bytes_lt(
                #[trigger] bt[x],
                #[trigger] bt[y],
            ) by {
                assert(bytes_lt(b[x + 1], b[y + 1]));
            }
        }
        assert(at.to_set() =~= bt.to_set()) by {
            assert forall|k: Seq<u8>| at.to_set().contains(k) implies bt.to_set().contains(k) by {
                let x = choose|x: int| 0 <= x < at.len() && at[x] == k;
                assert(a[x + 1] == k);
                assert(bytes_lt(a[0], a[x + 1]));
                lemma_bytes_lt_irreflexive(k);
                assert(a.to_set().contains(k));
                assert(b.to_set().contains(k));
                let y = choose|y: int| 0 <= y < b.len() && b[y] == k;
                assert(y > 0);
                assert(bt[y - 1] == k);
            }
            assert forall|k: Seq<u8>| bt.to_set().contains(k) implies at.to_set().contains(k) by {
                let x = choose|x: int| 0 <= x < bt.len() && bt[x] == k;
                assert(b[x + 1] == k);
                assert(bytes_lt(b[0], b[x + 1]));
                lemma_bytes_lt_irreflexive(k);
                assert(b.to_set().contains(k));
                assert(a.to_set().contains(k));
                let y = choose|y: int| 0 <= y < a.len() && a[y] == k;
                assert(y > 0);
                assert(at[y - 1] == k);
            }
        }
        law_ascending_is_unique(at, bt);
        assert(a =~= seq![a[0]] + at);
        assert(b =~= seq![b[0]] + bt);
    }
}

/// `MemoryManager::init` on the default memory: the regions of this
/// canister's stable memory, or of a fresh memory outside a canister.
#[verifier::external_body]
pub(crate) fn open_regions() -> Regions {
    Regions { manager: MemoryManager::init(DefaultMemoryImpl::default()) }
}

/// `MemoryManager::get` and `StableBTreeMap::init`: the map kept in region
/// `id`, with whatever that region already holds.
#[verifier::external_body]
pub(crate) fn region_table(regions: &Regions, id: u8) -> ByteTable
    requires
        id != 255,
{
    ByteTable { inner: StableBTreeMap::init(regions.manager.get(MemoryId::new(id))) }
}

/// `StableBTreeMap::into_memory` and `StableBTreeMap::init`: the map read
/// again from the memory in which it lives holds what it held.
#[verifier::external_body]
pub(crate) fn table_reload(t: ByteTable) -> (r: ByteTable)
    ensures
        table_contents(r) == table_contents(t),
{
    ByteTable { inner: StableBTreeMap::init(t.inner.into_memory()) }
}

/// `StableBTreeMap::clear_new`: afterwards the map holds nothing.
#[verifier::external_body]
pub(crate) fn table_clear(t: &mut ByteTable)
    ensures
        table_contents(*final(t)) == no_entries(),
{
    t.inner.clear_new();
}

/// `StableBTreeMap::get`: the value stored under the key, if the key is there.
#[verifier::external_body]
pub(crate) fn table_get(t: &ByteTable, key: &Vec<u8>) -> (r: Option<Vec<u8>>)
    ensures
        r is Some == table_contents(*t).contains_key(key@),
        r is Some ==> r->0@ == table_contents(*t)[key@],
{
    t.inner.get(key)
}

/// `StableBTreeMap::contains_key`: whether the key is there.
#[verifier::external_body]
pub(crate) fn table_contains(t: &ByteTable, key: &Vec<u8>) -> (r: bool)
    ensures
        r == table_contents(*t).contains_key(key@),
{
    t.inner.contains_key(key)
}

/// `StableBTreeMap::insert`: afterwards the key holds the value, and every
/// other key what it held. The map stores the length of a key and of a value
/// in 32 bits, so neither may be longer than that.
#[verifier::external_body]
pub(crate) fn table_insert(t: &mut ByteTable, key: Vec<u8>, value: Vec<u8>)
    requires
        key@.len() <= u32::MAX,
        value@.len() <= u32::MAX,
    ensures
        table_contents(*final(t)) == table_contents(*old(t)).insert(key@, value@),
{
    t.inner.insert(key, value);
}

/// `StableBTreeMap::remove`: afterwards the key is gone, and every other key
/// holds what it held.
#[verifier::external_body]
pub(crate) fn table_remove(t: &mut ByteTable, key: &Vec<u8>)
    ensures
        table_contents(*final(t)) == table_contents(*old(t)).remove(key@),
{
    t.inner.remove(key);
}

/// `StableBTreeMap::is_empty`: whether the map holds no key.
#[verifier::external_body]
pub(crate) fn table_is_empty(t: &ByteTable) -> (r: bool)
    ensures
        r <==> forall|k: Seq<u8>| !table_contents(*t).contains_key(k),
{
    t.inner.is_empty()
}

/// `StableBTreeMap::first_key_value`: the least key of the map, if it holds
/// any.
#[verifier::external_body]
pub(crate) fn table_first_key(t: &ByteTable) -> (r: Option<Vec<u8>>)
    ensures
        r is None <==> forall|k: Seq<u8>| !table_contents(*t).contains_key(k),
        r is Some ==> table_contents(*t).contains_key(r->0@),
        r is Some ==> forall|k: Seq<u8>| #[trigger]
            table_contents(*t).contains_key(k) && k != r->0@ ==> bytes_lt(r->0@, k),
{
    t.inner.first_key_value().map(|entry| entry.0)
}

/// `StableBTreeMap::keys`: every key of the map, once, in ascending order.
#[verifier::external_body]
pub(crate) fn table_keys(t: &ByteTable) -> (r: Vec<Vec<u8>>)
    ensures
        key_list(r@).to_set() == table_contents(*t).dom(),
        ascending(key_list(r@)),
{
    t.inner.keys().collect()
}

} // verus!
