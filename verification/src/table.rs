//! Typed tables: a byte map of stable memory seen as a map from keys to
//! records. A table only ever holds bytes that are the encoding of a key
//! and of a record, so reading a stored record cannot fail.

use vstd::prelude::*;
use core::marker::PhantomData;
use crate::codec::{decode, decode_spec, encode, law_decode_inverts_encode, models, Persist};
use crate::principal::bytes_eq;
use crate::store::{
    ascending, bytes_lt, key_list, law_ascending_is_unique, lemma_ascending_is_distinct,
    region_table, table_clear, table_contains, table_contents, table_first_key, table_get,
    table_insert, table_is_empty, table_keys, table_reload, table_remove, ByteTable, Regions,
};

verus! {

/// That `b` is the encoding of some valid model of `T`.
pub open spec fn is_record<T: Persist>(b: Seq<u8>) -> bool {
    exists|m: T::Model| T::valid(m) && #[trigger] T::enc(m) == b
}

/// That every key of the byte map encodes a `K`, and its value a `V`.
pub open spec fn all_records<K: Persist, V: Persist>(c: Map<Seq<u8>, Seq<u8>>) -> bool {
    forall|b: Seq<u8>| #[trigger]
        c.contains_key(b) ==> is_record::<K>(b) && is_record::<V>(c[b])
}

/// Whether a key and a record are short enough for a table to hold.
pub open spec fn fits<K: Persist, V: Persist>(k: K::Model, v: V::Model) -> bool {
    K::enc(k).len() <= u32::MAX && V::enc(v).len() <= u32::MAX
}

/// The encodings of a list of keys, in order.
pub open spec fn encodings<K: Persist>(keys: Seq<K::Model>) -> Seq<Seq<u8>> {
    Seq::new(keys.len(), |i: int| K::enc(keys[i]))
}

/// The bytes of a record decode to the model that they encode.
pub proof fn lemma_record<T: Persist>(b: Seq<u8>)
    requires
        is_record::<T>(b),
    ensures
        decode_spec::<T>(b) is Some,
        T::valid(decode_spec::<T>(b)->0),
        T::enc(decode_spec::<T>(b)->0) == b,
{
    let m = choose|m: T::Model| T::valid(m) && #[trigger] T::enc(m) == b;
    law_decode_inverts_encode::<T>(m);
}

/// Two valid models with the same encoding are the same model.
pub proof fn lemma_enc_injective<T: Persist>(a: T::Model, b: T::Model)
    requires
        T::valid(a),
        T::valid(b),
        T::enc(a) == T::enc(b),
    ensures
        a == b,
{
    law_decode_inverts_encode::<T>(a);
    law_decode_inverts_encode::<T>(b);
}

/// That `order` lists the keys of a set as a table keeps them: every key
/// once, in ascending order of the keys' bytes.
pub open spec fn is_key_order<K: Persist>(order: Seq<K::Model>, keys: Set<K::Model>) -> bool {
    &&& order.to_set() == keys
    &&& order.no_duplicates()
    &&& ascending(encodings::<K>(order))
}

/// The keys of a set in the order in which a table keeps them.
pub open spec fn key_order<K: Persist>(keys: Set<K::Model>) -> Seq<K::Model> {
    choose|order: Seq<K::Model>| is_key_order::<K>(order, keys)
}

/// There is one order of the keys of a table, and no other.
pub proof fn law_key_order_is_unique<K: Persist>(
    a: Seq<K::Model>,
    b: Seq<K::Model>,
    keys: Set<K::Model>,
)
    requires
        is_key_order::<K>(a, keys),
        is_key_order::<K>(b, keys),
        forall|k: K::Model| keys.contains(k) ==> K::valid(k),
    ensures
        a == b,
{
    let ea = encodings::<K>(a);
    let eb = encodings::<K>(b);
    assert(ea.to_set() =~= eb.to_set()) by {
        assert forall|e: Seq<u8>| ea.to_set().contains(e) implies eb.to_set().contains(e) by {
            let i = choose|i: int| 0 <= i < ea.len() && ea[i] == e;
            assert(a.to_set().contains(a[i]));
            assert(b.to_set().contains(a[i]));
            let j = choose|j: int| 0 <= j < b.len() && b[j] == a[i];
            assert(eb[j] == e);
        }
        assert forall|e: Seq<u8>| eb.to_set().contains(e) implies ea.to_set().contains(e) by {
            let i = choose|i: int| 0 <= i < eb.len() && eb[i] == e;
            assert(b.to_set().contains(b[i]));
            assert(a.to_set().contains(b[i]));
            let j = choose|j: int| 0 <= j < a.len() && a[j] == b[i];
            assert(ea[j] == e);
        }
    }
    law_ascending_is_unique(ea, eb);
    assert(a =~= b) by {
        assert(a.len() == ea.len() && b.len() == eb.len());
        assert forall|i: int| 0 <= i < a.len() implies a[i] == b[i] by {
            assert(ea[i] == eb[i]);
            assert(a.to_set().contains(a[i]));
            assert(b.to_set().contains(b[i]));
            lemma_enc_injective::<K>(a[i], b[i]);
        }
    }
}

/// A map from keys to records, kept in one region of stable memory.
pub struct Table<K: Persist, V: Persist> {
    inner: ByteTable,
    types: PhantomData<(K, V)>,
}

/// The map from keys to records that a byte map stands for: each valid key
/// whose bytes are in it, with the record that the bytes under it decode
/// to.
pub open spec fn records_of<K: Persist, V: Persist>(c: Map<Seq<u8>, Seq<u8>>) -> Map<
    K::Model,
    V::Model,
> {
    Map::new(
        |k: K::Model| K::valid(k) && c.contains_key(K::enc(k)),
        |k: K::Model| decode_spec::<V>(c[K::enc(k)])->0,
    )
}

impl<K: Persist, V: Persist> View for Table<K, V> {
    type V = Map<K::Model, V::Model>;

    closed spec fn view(&self) -> Map<K::Model, V::Model> {
        records_of::<K, V>(table_contents(self.inner))
    }
}

impl<K: Persist, V: Persist> Table<K, V> {
    /// That the table holds nothing but keys and records.
    pub closed spec fn wf(&self) -> bool {
        all_records::<K, V>(table_contents(self.inner))
    }

    /// The table of region `id`, emptied.
    pub fn fresh(regions: &Regions, id: u8) -> (t: Self)
        requires
            id != 255,
        ensures
            t.wf(),
            t@ == Map::<K::Model, V::Model>::empty(),
    {
        let mut inner = region_table(regions, id);
        table_clear(&mut inner);
        let t = Table { inner, types: PhantomData };
        assert(t@ =~= Map::<K::Model, V::Model>::empty());
        t
    }

    /// The table of region `id` with what the region holds, or `None` where
    /// the region holds bytes that are no key or no record.
    pub fn open(regions: &Regions, id: u8) -> (t: Option<Self>)
        requires
            id != 255,
        ensures
            t is Some ==> t->0.wf(),
    {
        Self::checked(region_table(regions, id))
    }

    /// The table read again from the memory in which it lives, as a
    /// service reads it that starts again: it holds what it held.
    pub fn reopen(self) -> (t: Option<Self>)
        requires
            self.wf(),
        ensures
            t is Some,
            t->0.wf(),
            t->0@ == self@,
    {
        Self::checked(table_reload(self.inner))
    }

    /// The byte map as a table, where it holds nothing but keys and
    /// records: every key and every value is read and written again, and
    /// must come out as it was. This is what opening a table does with
    /// whatever its region holds.
    pub fn checked(inner: ByteTable) -> (t: Option<Self>)
        ensures
            t is Some <==> all_records::<K, V>(table_contents(inner)),
            t is Some ==> t->0.wf(),
            t is Some ==> t->0@ == records_of::<K, V>(table_contents(inner)),
    {
        let keys = table_keys(&inner);
        let ghost c = table_contents(inner);
        let mut i: usize = 0;
        while i < keys.len()
            invariant
                i <= keys@.len(),
                c == table_contents(inner),
                key_list(keys@).to_set() == c.dom(),
                forall|j: int|
                    0 <= j < i ==> is_record::<K>(#[trigger] key_list(keys@)[j]) && is_record::<V>(
                        c[key_list(keys@)[j]],
                    ),
            decreases keys@.len() - i,
        {
            let kb = &keys[i];
            assert(key_list(keys@)[i as int] == kb@);
            assert(key_list(keys@).to_set().contains(kb@));
            assert(c.dom().contains(kb@));
            proof {
                if is_record::<K>(kb@) {
                    lemma_record::<K>(kb@);
                }
                if is_record::<V>(c[kb@]) {
                    lemma_record::<V>(c[kb@]);
                }
            }
            let key = match decode::<K>(kb.as_slice()) {
                Some(key) => key,
                None => { return None; },
            };
            if !bytes_eq(encode(&key).as_slice(), kb.as_slice()) {
                return None;
            }
            let vb = match table_get(&inner, kb) {
                Some(vb) => vb,
                None => { return None; },
            };
            let value = match decode::<V>(vb.as_slice()) {
                Some(value) => value,
                None => { return None; },
            };
            if !bytes_eq(encode(&value).as_slice(), vb.as_slice()) {
                return None;
            }
            i += 1;
        }
        proof {
            assert forall|b: Seq<u8>| #[trigger] c.contains_key(b) implies is_record::<K>(b)
                && is_record::<V>(c[b]) by {
                assert(key_list(keys@).to_set().contains(b));
                let j = choose|j: int| 0 <= j < key_list(keys@).len() && key_list(keys@)[j] == b;
                assert(is_record::<K>(key_list(keys@)[j]));
            }
        }
        Some(Table { inner, types: PhantomData })
    }

    /// The record stored under the key, if there is one.
    pub fn get(&self, key: &K) -> (r: Option<V>)
        requires
            self.wf(),
        ensures
            K::valid(key.model()),
            r is Some == self@.contains_key(key.model()),
            r is Some ==> r->0.model() == self@[key.model()],
            r is Some ==> V::valid(r->0.model()),
    {
        let kb = encode(key);
        match table_get(&self.inner, &kb) {
            Some(vb) => {
                proof {
                    lemma_record::<V>(vb@);
                }
                decode::<V>(vb.as_slice())
            },
            None => None,
        }
    }

    /// Whether a record is stored under the key.
    pub fn contains_key(&self, key: &K) -> (r: bool)
        ensures
            K::valid(key.model()),
            r == self@.contains_key(key.model()),
    {
        let kb = encode(key);
        table_contains(&self.inner, &kb)
    }

    /// Stores the record under the key, in place of what the key held, where
    /// both are short enough; says whether it did.
    pub fn insert(&mut self, key: &K, value: &V) -> (stored: bool)
        requires
            old(self).wf(),
        ensures
            final(self).wf(),
            K::valid(key.model()),
            V::valid(value.model()),
            stored == fits::<K, V>(key.model(), value.model()),
            stored ==> final(self)@ == old(self)@.insert(key.model(), value.model()),
            !stored ==> final(self)@ == old(self)@,
    {
        let kb = encode(key);
        let vb = encode(value);
        if kb.len() > u32::MAX as usize || vb.len() > u32::MAX as usize {
            return false;
        }
        let ghost before = table_contents(self.inner);
        let ghost k = key.model();
        let ghost v = value.model();
        table_insert(&mut self.inner, kb, vb);
        proof {
            let now = table_contents(self.inner);
            assert(now == before.insert(K::enc(k), V::enc(v)));
            law_decode_inverts_encode::<V>(v);
            assert(all_records::<K, V>(now)) by {
                assert forall|b: Seq<u8>| #[trigger] now.contains_key(b) implies is_record::<K>(b)
                    && is_record::<V>(now[b]) by {
                    if b == K::enc(k) {
                    } else {
                        assert(before.contains_key(b));
                    }
                }
            }
            assert(self@ =~= old(self)@.insert(k, v)) by {
                assert forall|k2: K::Model| #[trigger]
                    self@.contains_key(k2) <==> old(self)@.insert(k, v).contains_key(k2) by {
                    if K::valid(k2) && K::enc(k2) == K::enc(k) {
                        lemma_enc_injective::<K>(k2, k);
                    }
                }
                assert forall|k2: K::Model| #[trigger] self@.contains_key(k2) implies self@[k2]
                    == old(self)@.insert(k, v)[k2] by {
                    if K::valid(k2) && K::enc(k2) == K::enc(k) {
                        lemma_enc_injective::<K>(k2, k);
                    }
                }
            }
        }
        true
    }

    /// Takes the key and its record out of the table, if it is there.
    pub fn remove(&mut self, key: &K)
        requires
            old(self).wf(),
        ensures
            final(self).wf(),
            final(self)@ == old(self)@.remove(key.model()),
    {
        let kb = encode(key);
        let ghost before = table_contents(self.inner);
        let ghost k = key.model();
        table_remove(&mut self.inner, &kb);
        proof {
            let now = table_contents(self.inner);
            assert(all_records::<K, V>(now)) by {
                assert forall|b: Seq<u8>| #[trigger] now.contains_key(b) implies is_record::<K>(b)
                    && is_record::<V>(now[b]) by {
                    assert(before.contains_key(b));
                }
            }
            assert(self@ =~= old(self)@.remove(k)) by {
                assert forall|k2: K::Model| #[trigger]
                    self@.contains_key(k2) <==> old(self)@.remove(k).contains_key(k2) by {
                    if K::valid(k2) && K::enc(k2) == K::enc(k) {
                        lemma_enc_injective::<K>(k2, k);
                    }
                }
            }
        }
    }

    /// Whether the table holds nothing.
    pub fn is_empty(&self) -> (r: bool)
        requires
            self.wf(),
        ensures
            r <==> forall|k: K::Model| !self@.contains_key(k),
    {
        let r = table_is_empty(&self.inner);
        proof {
            let c = table_contents(self.inner);
            if !r {
                let b = choose|b: Seq<u8>| c.contains_key(b);
                lemma_record::<K>(b);
                assert(self@.contains_key(decode_spec::<K>(b)->0));
            }
        }
        r
    }

    /// The key that comes first in the table's order, if the table holds any.
    pub fn first_key(&self) -> (r: Option<K>)
        requires
            self.wf(),
        ensures
            r is None <==> forall|k: K::Model| !self@.contains_key(k),
            r is Some ==> self@.contains_key(r->0.model()),
            r is Some ==> forall|k: K::Model| #[trigger]
                self@.contains_key(k) && k != r->0.model() ==> bytes_lt(
                    K::enc(r->0.model()),
                    K::enc(k),
                ),
    {
        let ghost c = table_contents(self.inner);
        match table_first_key(&self.inner) {
            Some(kb) => {
                proof {
                    lemma_record::<K>(kb@);
                }
                let r = decode::<K>(kb.as_slice());
                proof {
                    let first = decode_spec::<K>(kb@)->0;
                    assert(self@.contains_key(first));
                    assert forall|k: K::Model| #[trigger]
                        self@.contains_key(k) && k != first implies bytes_lt(
                        K::enc(first),
                        K::enc(k),
                    ) by {
                        assert(c.contains_key(K::enc(k)));
                        if K::enc(k) == K::enc(first) {
                            lemma_enc_injective::<K>(k, first);
                        }
                    }
                }
                r
            },
            None => None,
        }
    }

    /// Every key of a table is a valid key.
    pub proof fn lemma_keys_valid(&self)
        ensures
            forall|k: K::Model| self@.dom().contains(k) ==> K::valid(k),
    {
    }

    /// Every key of the table, once, in the table's order.
    pub fn keys(&self) -> (r: Vec<K>)
        requires
            self.wf(),
        ensures
            is_key_order::<K>(models::<K>(r@), self@.dom()),
            models::<K>(r@) == key_order::<K>(self@.dom()),
    {
        let raw = table_keys(&self.inner);
        let ghost c = table_contents(self.inner);
        let ghost raw_keys = key_list(raw@);
        let mut out: Vec<K> = Vec::new();
        let mut i: usize = 0;
        while i < raw.len()
            invariant
                i <= raw@.len(),
                raw_keys == key_list(raw@),
                raw_keys.to_set() == c.dom(),
                all_records::<K, V>(c),
                out@.len() == i,
                forall|j: int|
                    0 <= j < i ==> K::valid(#[trigger] out@[j].model()) && K::enc(out@[j].model())
                        == raw_keys[j],
            decreases raw@.len() - i,
        {
            let kb = &raw[i];
            proof {
                assert(raw_keys[i as int] == kb@);
                assert(raw_keys.to_set().contains(kb@));
                assert(c.contains_key(kb@));
                lemma_record::<K>(kb@);
            }
            match decode::<K>(kb.as_slice()) {
                Some(key) => {
                    out.push(key);
                },
                None => {},
            }
            i += 1;
        }
        proof {
            let ms = models::<K>(out@);
            assert(encodings::<K>(ms) =~= raw_keys);
            assert(ms.to_set() =~= self@.dom()) by {
                assert forall|k: K::Model| ms.to_set().contains(k) implies self@.dom().contains(
                    k,
                ) by {
                    let j = choose|j: int| 0 <= j < ms.len() && ms[j] == k;
                    assert(raw_keys.to_set().contains(raw_keys[j]));
                    assert(c.dom().contains(raw_keys[j]));
                }
                assert forall|k: K::Model| self@.dom().contains(k) implies ms.to_set().contains(
                    k,
                ) by {
                    assert(c.dom().contains(K::enc(k)));
                    assert(raw_keys.to_set().contains(K::enc(k)));
                    let j = choose|j: int| 0 <= j < raw_keys.len() && raw_keys[j] == K::enc(k);
                    lemma_enc_injective::<K>(ms[j], k);
                }
            }
            assert(ms.no_duplicates()) by {
                assert forall|a: int, b: int| 0 <= a < ms.len() && 0 <= b < ms.len() && a
                    != b implies ms[a] != ms[b] by {
                    lemma_ascending_is_distinct(raw_keys);
                    assert(raw_keys[a] != raw_keys[b]);
                }
            }
            assert(is_key_order::<K>(ms, self@.dom()));
            self.lemma_keys_valid();
            law_key_order_is_unique::<K>(ms, key_order::<K>(self@.dom()), self@.dom());
        }
        out
    }
}

/// The number of an agreement or of an invoice, as a key: its sixteen
/// bytes with the most significant first, so that the order of the keys is
/// the order of the numbers.
#[derive(Clone, Copy, Debug)]
pub struct Id(pub u128);

/// 256 to the power `n`.
pub open spec fn pow256(n: nat) -> nat
    decreases n,
{
    if n == 0 {
        1
    } else {
        256 * pow256((n - 1) as nat)
    }
}

/// The last `n` digits of a number to the base 256, most significant
/// first.
pub open spec fn digits_of(x: nat, n: nat) -> Seq<u8>
    decreases n,
{
    if n == 0 {
        Seq::empty()
    } else {
        digits_of(x / 256, (n - 1) as nat).push((x % 256) as u8)
    }
}

/// The number that digits to the base 256 spell, most significant first.
pub open spec fn number_of(digits: Seq<u8>) -> nat
    decreases digits.len(),
{
    if digits.len() == 0 {
        0
    } else {
        number_of(digits.drop_last()) * 256 + digits.last() as nat
    }
}

/// The sixteen bytes of a number, most significant first.
pub open spec fn id_bytes(id: u128) -> Seq<u8> {
    digits_of(id as nat, 16)
}

/// The number 2^128, as a power of 256.
pub proof fn lemma_pow256_sixteen()
    ensures
        pow256(15) == 0x1_0000_0000_0000_0000_0000_0000_0000_00,
        pow256(16) == 0x1_0000_0000_0000_0000_0000_0000_0000_0000,
{
    assert(pow256(0) == 1);
    assert(pow256(1) == 0x100);
    assert(pow256(2) == 0x1_0000);
    assert(pow256(3) == 0x100_0000);
    assert(pow256(4) == 0x1_0000_0000);
    assert(pow256(5) == 0x100_0000_0000);
    assert(pow256(6) == 0x1_0000_0000_0000);
    assert(pow256(7) == 0x100_0000_0000_0000);
    assert(pow256(8) == 0x1_0000_0000_0000_0000);
    assert(pow256(9) == 0x100_0000_0000_0000_0000);
    assert(pow256(10) == 0x1_0000_0000_0000_0000_0000);
    assert(pow256(11) == 0x100_0000_0000_0000_0000_0000);
    assert(pow256(12) == 0x1_0000_0000_0000_0000_0000_0000);
    assert(pow256(13) == 0x100_0000_0000_0000_0000_0000_0000);
    assert(pow256(14) == 0x1_0000_0000_0000_0000_0000_0000_0000);
    assert(pow256(15) == 0x100_0000_0000_0000_0000_0000_0000_0000);
}

/// A number has as many digits as were asked for.
pub proof fn lemma_digits_len(x: nat, n: nat)
    ensures
        digits_of(x, n).len() == n,
    decreases n,
{
    if n > 0 {
        lemma_digits_len(x / 256, (n - 1) as nat);
    }
}

/// The digits of a number that has no more than `n` of them spell the
/// number.
pub proof fn lemma_digits_spell(x: nat, n: nat)
    requires
        x < pow256(n),
    ensures
        number_of(digits_of(x, n)) == x,
    decreases n,
{
    if n > 0 {
        let front = digits_of(x / 256, (n - 1) as nat);
        lemma_digits_spell(x / 256, (n - 1) as nat);
        assert(front.push((x % 256) as u8).drop_last() =~= front);
    }
}

/// Digits spell a number below the power of their count.
pub proof fn lemma_number_bound(digits: Seq<u8>)
    ensures
        number_of(digits) < pow256(digits.len()),
    decreases digits.len(),
{
    if digits.len() > 0 {
        lemma_number_bound(digits.drop_last());
    }
}

/// The number that digits spell, counted from the first digit.
pub proof fn lemma_number_from_front(digits: Seq<u8>)
    requires
        digits.len() > 0,
    ensures
        number_of(digits) == digits[0] * pow256((digits.len() - 1) as nat) + number_of(
            digits.drop_first(),
        ),
    decreases digits.len(),
{
    if digits.len() == 1 {
        assert(digits.drop_last() =~= Seq::<u8>::empty());
        assert(digits.drop_first() =~= Seq::<u8>::empty());
        assert(number_of(digits.drop_last()) == 0);
        assert(number_of(digits.drop_first()) == 0);
        assert(pow256(0) == 1);
        assert(digits.last() == digits[0]);
        assert(number_of(digits) == digits[0] as nat);
        assert(digits[0] * pow256((digits.len() - 1) as nat) == digits[0] as nat);
    } else {
        let front = digits.drop_last();
        let tail = digits.drop_first();
        lemma_number_from_front(front);
        assert(front.drop_first() =~= tail.drop_last());
        assert(front[0] == digits[0]);
        assert(tail.last() == digits.last());
        let p = pow256((digits.len() - 2) as nat);
        let c = digits[0] as nat;
        let t = number_of(front.drop_first());
        assert(pow256((digits.len() - 1) as nat) == 256 * p);
        assert(number_of(front) == c * p + t);
        assert(number_of(tail) == t * 256 + digits.last());
        assert(number_of(digits) == (c * p + t) * 256 + digits.last());
        assert((c * p + t) * 256 == c * (256 * p) + t * 256) by (nonlinear_arith);
        assert(digits[0] * pow256((digits.len() - 1) as nat) == c * (256 * p));
    }
}

/// Of two runs of digits of one length, the one that comes first in the
/// order of keys spells the smaller number.
pub proof fn lemma_digit_order(a: Seq<u8>, b: Seq<u8>)
    requires
        a.len() == b.len(),
    ensures
        bytes_lt(a, b) <==> number_of(a) < number_of(b),
    decreases a.len(),
{
    if a.len() > 0 {
        lemma_number_from_front(a);
        lemma_number_from_front(b);
        lemma_number_bound(a.drop_first());
        lemma_number_bound(b.drop_first());
        let p = pow256((a.len() - 1) as nat);
        let x = a[0] as nat;
        let y = b[0] as nat;
        if a[0] == b[0] {
            lemma_digit_order(a.drop_first(), b.drop_first());
        } else if a[0] < b[0] {
            assert((x + 1) * p <= y * p) by (nonlinear_arith)
                requires
                    x + 1 <= y,
            ;
            assert((x + 1) * p == x * p + p) by (nonlinear_arith);
        } else {
            assert((y + 1) * p <= x * p) by (nonlinear_arith)
                requires
                    y + 1 <= x,
            ;
            assert((y + 1) * p == y * p + p) by (nonlinear_arith);
        }
    }
}

/// The keys of two numbers are in the order of the numbers.
pub proof fn law_id_order_is_number_order(a: u128, b: u128)
    ensures
        bytes_lt(id_bytes(a), id_bytes(b)) <==> a < b,
{
    lemma_pow256_sixteen();
    lemma_digits_len(a as nat, 16);
    lemma_digits_len(b as nat, 16);
    lemma_digits_spell(a as nat, 16);
    lemma_digits_spell(b as nat, 16);
    lemma_digit_order(id_bytes(a), id_bytes(b));
}

/// That each number of the list is below the next.
pub open spec fn increasing(ids: Seq<u128>) -> bool {
    forall|i: int, j: int| 0 <= i < j < ids.len() ==> ids[i] < ids[j]
}

/// A table keyed by numbers keeps them in increasing order.
pub proof fn law_id_key_order_is_increasing(ids: Seq<u128>, keys: Set<u128>)
    requires
        is_key_order::<Id>(ids, keys),
    ensures
        increasing(ids),
{
    assert forall|i: int, j: int| 0 <= i < j < ids.len() implies ids[i] < ids[j] by {
        assert(bytes_lt(encodings::<Id>(ids)[i], encodings::<Id>(ids)[j]));
        law_id_order_is_number_order(ids[i], ids[j]);
    }
}

/// Appends the last `n` digits of a number, most significant first.
fn put_digits(x: u128, n: u8, out: &mut Vec<u8>)
    ensures
        final(out)@ == old(out)@ + digits_of(x as nat, n as nat),
    decreases n,
{
    if n == 0 {
        assert(out@ =~= old(out)@ + digits_of(x as nat, 0));
    } else {
        put_digits(x / 256, n - 1, out);
        out.push((x % 256) as u8);
        assert(out@ =~= old(out)@ + digits_of(x as nat, n as nat));
    }
}

/// The number that the sixteen bytes at `pos` spell.
fn get_digits(data: &[u8], pos: usize) -> (r: u128)
    requires
        pos + 16 <= data@.len(),
    ensures
        r == number_of(data@.subrange(pos as int, pos + 16)),
{
    let total = data.len();
    let ghost digits = data@.subrange(pos as int, pos + 16);
    let mut value: u128 = 0;
    let mut i: usize = 0;
    assert(digits.take(0) =~= Seq::<u8>::empty());
    while i < 16
        invariant
            i <= 16,
            total == data@.len(),
            pos + 16 <= total,
            digits == data@.subrange(pos as int, pos + 16),
            value == number_of(digits.take(i as int)),
        decreases 16 - i,
    {
        proof {
            lemma_pow256_sixteen();
            lemma_number_bound(digits.take(i as int));
            lemma_pow256_grows(i as nat, 15);
            assert(digits.take(i + 1).drop_last() =~= digits.take(i as int));
            assert(digits.take(i + 1).last() == data@[pos + i]);
        }
        value = value * 256 + data[pos + i] as u128;
        i += 1;
    }
    assert(digits.take(16) =~= digits);
    value
}

/// A power of 256 is no larger than a later one.
pub proof fn lemma_pow256_grows(a: nat, b: nat)
    requires
        a <= b,
    ensures
        pow256(a) <= pow256(b),
    decreases b,
{
    if a < b {
        lemma_pow256_grows(a, (b - 1) as nat);
    }
}

impl Persist for Id {
    type Model = u128;

    open spec fn model(&self) -> u128 {
        self.0
    }

    open spec fn valid(m: u128) -> bool {
        true
    }

    open spec fn enc(m: u128) -> Seq<u8> {
        id_bytes(m)
    }

    open spec fn dec(b: Seq<u8>) -> Option<(u128, Seq<u8>)> {
        if b.len() >= 16 {
            Some((number_of(b.subrange(0, 16)) as u128, b.skip(16)))
        } else {
            None
        }
    }

    proof fn lemma_round_trip(m: u128, rest: Seq<u8>) {
        lemma_pow256_sixteen();
        lemma_digits_len(m as nat, 16);
        lemma_digits_spell(m as nat, 16);
        let e = id_bytes(m);
        assert((e + rest).subrange(0, 16) =~= e);
        assert((e + rest).skip(16) =~= rest);
    }

    fn write(&self, out: &mut Vec<u8>) {
        put_digits(self.0, 16, out);
    }

    fn read(data: &[u8], pos: usize) -> (r: Option<(Id, usize)>) {
        if data.len() - pos < 16 {
            return None;
        }
        let value = get_digits(data, pos);
        proof {
            assert(data@.skip(pos as int).subrange(0, 16) =~= data@.subrange(
                pos as int,
                pos + 16,
            ));
            assert(data@.skip(pos as int).skip(16) =~= data@.skip(pos + 16));
            lemma_pow256_sixteen();
            lemma_number_bound(data@.subrange(pos as int, pos + 16));
        }
        Some((Id(value), pos + 16))
    }
}

/// The record of a table that is a set: it says nothing but that its key
/// is there.
#[derive(Clone, Copy, Debug)]
pub struct Present;

impl Persist for Present {
    type Model = ();

    open spec fn model(&self) -> () {
        ()
    }

    open spec fn valid(m: ()) -> bool {
        true
    }

    open spec fn enc(m: ()) -> Seq<u8> {
        Seq::empty()
    }

    open spec fn dec(b: Seq<u8>) -> Option<((), Seq<u8>)> {
        Some(((), b))
    }

    proof fn lemma_round_trip(m: (), rest: Seq<u8>) {
        assert(Seq::<u8>::empty() + rest =~= rest);
    }

    fn write(&self, out: &mut Vec<u8>) {
        assert(out@ + Seq::<u8>::empty() =~= out@);
    }

    fn read(data: &[u8], pos: usize) -> (r: Option<(Present, usize)>) {
        Some((Present, pos))
    }
}

} // verus!
