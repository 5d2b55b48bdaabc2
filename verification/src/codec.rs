//! How a record becomes the bytes that a table stores, and how the bytes
//! become the record again.
//!
//! Every stored type says what it stands for (`Model`), which bytes a model
//! is written as (`enc`) and which model a run of bytes is read as (`dec`).
//! Reading what was written gives the model back; the lemma of each type
//! proves it, and [`law_decode_inverts_encode`] states it for whole blobs.

use vstd::prelude::*;
use vstd::bytes::*;
use vstd::slice::slice_subrange;
use vstd::utf8::*;

verus! {

/// A type that a table can store.
pub trait Persist: Sized {
    /// The mathematical value that an object of the type stands for.
    type Model;

    /// The value that this object stands for.
    spec fn model(&self) -> Self::Model;

    /// The models that some object can stand for.
    spec fn valid(m: Self::Model) -> bool;

    /// The bytes that the model is written as.
    spec fn enc(m: Self::Model) -> Seq<u8>;

    /// The model at the front of `b` and the bytes behind it, or `None`
    /// where `b` does not start with one.
    spec fn dec(b: Seq<u8>) -> Option<(Self::Model, Seq<u8>)>;

    /// Reading the bytes of a model, whatever follows them, gives the model
    /// and what follows.
    proof fn lemma_round_trip(m: Self::Model, rest: Seq<u8>)
        requires
            Self::valid(m),
        ensures
            Self::dec(Self::enc(m) + rest) == Some((m, rest)),
    ;

    /// Appends the bytes of this object to `out`.
    fn write(&self, out: &mut Vec<u8>)
        ensures
            final(out)@ == old(out)@ + Self::enc(self.model()),
            Self::valid(self.model()),
    ;

    /// Reads one object at `pos`; gives it with the position behind it.
    fn read(data: &[u8], pos: usize) -> (r: Option<(Self, usize)>)
        requires
            pos <= data@.len(),
        ensures
            match Self::dec(data@.skip(pos as int)) {
                Some((m, rest)) => match r {
                    Some((value, end)) => {
                        &&& value.model() == m
                        &&& Self::valid(m)
                        &&& pos <= end <= data@.len()
                        &&& data@.skip(end as int) == rest
                    },
                    None => false,
                },
                None => r is None,
            },
    ;
}

/// The bytes of a whole blob that holds exactly one object.
pub open spec fn encode_spec<T: Persist>(m: T::Model) -> Seq<u8> {
    T::enc(m)
}

/// The model that a whole blob holds, or `None` where the blob is not
/// exactly one object.
pub open spec fn decode_spec<T: Persist>(b: Seq<u8>) -> Option<T::Model> {
    match T::dec(b) {
        Some((m, rest)) => if rest.len() == 0 {
            Some(m)
        } else {
            None
        },
        None => None,
    }
}

/// Decoding the encoding of any valid model gives that model.
pub proof fn law_decode_inverts_encode<T: Persist>(m: T::Model)
    requires
        T::valid(m),
    ensures
        decode_spec::<T>(encode_spec::<T>(m)) == Some(m),
{
    T::lemma_round_trip(m, Seq::empty());
    assert(T::enc(m) + Seq::<u8>::empty() =~= T::enc(m));
}

/// The blob of one object.
pub fn encode<T: Persist>(value: &T) -> (out: Vec<u8>)
    ensures
        out@ == encode_spec::<T>(value.model()),
        T::valid(value.model()),
{
    let mut out: Vec<u8> = Vec::new();
    value.write(&mut out);
    assert(Seq::<u8>::empty() + T::enc(value.model()) =~= T::enc(value.model()));
    out
}

/// The object that a blob holds, if it holds exactly one.
pub fn decode<T: Persist>(data: &[u8]) -> (r: Option<T>)
    ensures
        match decode_spec::<T>(data@) {
            Some(m) => r is Some && r->0.model() == m && T::valid(m),
            None => r is None,
        },
{
    assert(data@.skip(0) =~= data@);
    match T::read(data, 0) {
        Some((value, end)) => {
            if end == data.len() {
                Some(value)
            } else {
                None
            }
        },
        None => None,
    }
}

impl Persist for u8 {
    type Model = u8;

    open spec fn model(&self) -> u8 {
        *self
    }

    open spec fn valid(m: u8) -> bool {
        true
    }

    open spec fn enc(m: u8) -> Seq<u8> {
        seq![m]
    }

    open spec fn dec(b: Seq<u8>) -> Option<(u8, Seq<u8>)> {
        if b.len() >= 1 {
            Some((b[0], b.skip(1)))
        } else {
            None
        }
    }

    proof fn lemma_round_trip(m: u8, rest: Seq<u8>) {
        assert((seq![m] + rest).skip(1) =~= rest);
    }

    fn write(&self, out: &mut Vec<u8>) {
        out.push(*self);
        assert(out@ =~= old(out)@ + seq![*self]);
    }

    fn read(data: &[u8], pos: usize) -> (r: Option<(u8, usize)>) {
        if pos < data.len() {
            assert(data@.skip(pos as int).skip(1) =~= data@.skip(pos + 1));
            Some((data[pos], pos + 1))
        } else {
            None
        }
    }
}

impl Persist for bool {
    type Model = bool;

    open spec fn model(&self) -> bool {
        *self
    }

    open spec fn valid(m: bool) -> bool {
        true
    }

    open spec fn enc(m: bool) -> Seq<u8> {
        seq![if m { 1u8 } else { 0u8 }]
    }

    open spec fn dec(b: Seq<u8>) -> Option<(bool, Seq<u8>)> {
        if b.len() >= 1 && b[0] <= 1 {
            Some((b[0] == 1, b.skip(1)))
        } else {
            None
        }
    }

    proof fn lemma_round_trip(m: bool, rest: Seq<u8>) {
        assert((Self::enc(m) + rest).skip(1) =~= rest);
    }

    fn write(&self, out: &mut Vec<u8>) {
        let byte: u8 = if *self { 1 } else { 0 };
        out.push(byte);
        assert(out@ =~= old(out)@ + Self::enc(*self));
    }

    fn read(data: &[u8], pos: usize) -> (r: Option<(bool, usize)>) {
        if pos < data.len() && data[pos] <= 1 {
            assert(data@.skip(pos as int).skip(1) =~= data@.skip(pos + 1));
            Some((data[pos] == 1, pos + 1))
        } else {
            None
        }
    }
}

impl Persist for u128 {
    type Model = u128;

    open spec fn model(&self) -> u128 {
        *self
    }

    open spec fn valid(m: u128) -> bool {
        true
    }

    open spec fn enc(m: u128) -> Seq<u8> {
        spec_u128_to_le_bytes(m)
    }

    open spec fn dec(b: Seq<u8>) -> Option<(u128, Seq<u8>)> {
        if b.len() >= 16 {
            Some((spec_u128_from_le_bytes(b.subrange(0, 16)), b.skip(16)))
        } else {
            None
        }
    }

    proof fn lemma_round_trip(m: u128, rest: Seq<u8>) {
        lemma_auto_spec_u128_to_from_le_bytes();
        let e = spec_u128_to_le_bytes(m);
        assert((e + rest).subrange(0, 16) =~= e);
        assert((e + rest).skip(16) =~= rest);
    }

    fn write(&self, out: &mut Vec<u8>) {
        let mut bytes = u128_to_le_bytes(*self);
        out.append(&mut bytes);
    }

    fn read(data: &[u8], pos: usize) -> (r: Option<(u128, usize)>) {
        if data.len() - pos < 16 {
            return None;
        }
        let value = u128_from_le_bytes(slice_subrange(data, pos, pos + 16));
        proof {
            assert(data@.skip(pos as int).subrange(0, 16) =~= data@.subrange(
                pos as int,
                pos + 16,
            ));
            assert(data@.skip(pos as int).skip(16) =~= data@.skip(pos + 16));
        }
        Some((value, pos + 16))
    }
}

impl Persist for usize {
    type Model = usize;

    open spec fn model(&self) -> usize {
        *self
    }

    open spec fn valid(m: usize) -> bool {
        true
    }

    open spec fn enc(m: usize) -> Seq<u8> {
        spec_u64_to_le_bytes(m as u64)
    }

    open spec fn dec(b: Seq<u8>) -> Option<(usize, Seq<u8>)> {
        if b.len() >= 8 && spec_u64_from_le_bytes(b.subrange(0, 8)) <= usize::MAX {
            Some((spec_u64_from_le_bytes(b.subrange(0, 8)) as usize, b.skip(8)))
        } else {
            None
        }
    }

    proof fn lemma_round_trip(m: usize, rest: Seq<u8>) {
        lemma_auto_spec_u64_to_from_le_bytes();
        let e = spec_u64_to_le_bytes(m as u64);
        assert((e + rest).subrange(0, 8) =~= e);
        assert((e + rest).skip(8) =~= rest);
    }

    fn write(&self, out: &mut Vec<u8>) {
        let mut bytes = u64_to_le_bytes(*self as u64);
        out.append(&mut bytes);
    }

    fn read(data: &[u8], pos: usize) -> (r: Option<(usize, usize)>) {
        if data.len() - pos < 8 {
            return None;
        }
        let value = u64_from_le_bytes(slice_subrange(data, pos, pos + 8));
        proof {
            assert(data@.skip(pos as int).subrange(0, 8) =~= data@.subrange(pos as int, pos + 8));
            assert(data@.skip(pos as int).skip(8) =~= data@.skip(pos + 8));
        }
        if value > usize::MAX as u64 {
            return None;
        }
        Some((value as usize, pos + 8))
    }
}

/// The unsigned number that a year is stored as: the year moved up by 2^31.
pub open spec fn year_offset(y: i32) -> u32 {
    (y + 0x8000_0000) as u32
}

impl Persist for i32 {
    type Model = i32;

    open spec fn model(&self) -> i32 {
        *self
    }

    open spec fn valid(m: i32) -> bool {
        true
    }

    open spec fn enc(m: i32) -> Seq<u8> {
        spec_u32_to_le_bytes(year_offset(m))
    }

    open spec fn dec(b: Seq<u8>) -> Option<(i32, Seq<u8>)> {
        if b.len() >= 4 {
            Some(((spec_u32_from_le_bytes(b.subrange(0, 4)) - 0x8000_0000) as i32, b.skip(4)))
        } else {
            None
        }
    }

    proof fn lemma_round_trip(m: i32, rest: Seq<u8>) {
        lemma_auto_spec_u32_to_from_le_bytes();
        let e = spec_u32_to_le_bytes(year_offset(m));
        assert((e + rest).subrange(0, 4) =~= e);
        assert((e + rest).skip(4) =~= rest);
    }

    fn write(&self, out: &mut Vec<u8>) {
        let shifted: i64 = *self as i64 + 0x8000_0000;
        let mut bytes = u32_to_le_bytes(shifted as u32);
        out.append(&mut bytes);
    }

    fn read(data: &[u8], pos: usize) -> (r: Option<(i32, usize)>) {
        if data.len() - pos < 4 {
            return None;
        }
        let raw = u32_from_le_bytes(slice_subrange(data, pos, pos + 4));
        proof {
            assert(data@.skip(pos as int).subrange(0, 4) =~= data@.subrange(pos as int, pos + 4));
            assert(data@.skip(pos as int).skip(4) =~= data@.skip(pos + 4));
        }
        let value: i64 = raw as i64 - 0x8000_0000;
        Some((value as i32, pos + 4))
    }
}

/// The models of a run of objects, in order.
pub open spec fn models<T: Persist>(s: Seq<T>) -> Seq<T::Model> {
    Seq::new(s.len(), |i: int| s[i].model())
}

/// The bytes of a run of models, one behind the other.
pub open spec fn enc_items<T: Persist>(s: Seq<T::Model>) -> Seq<u8>
    decreases s.len(),
{
    if s.len() == 0 {
        Seq::empty()
    } else {
        T::enc(s[0]) + enc_items::<T>(s.drop_first())
    }
}

/// The `n` models at the front of `b` and the bytes behind them.
pub open spec fn dec_items<T: Persist>(b: Seq<u8>, n: nat) -> Option<(Seq<T::Model>, Seq<u8>)>
    decreases n,
{
    if n == 0 {
        Some((Seq::empty(), b))
    } else {
        match T::dec(b) {
            Some((x, rest)) => match dec_items::<T>(rest, (n - 1) as nat) {
                Some((xs, end)) => Some((seq![x] + xs, end)),
                None => None,
            },
            None => None,
        }
    }
}

/// The result of reading a run, with `front` put before its models.
pub open spec fn after<M>(front: Seq<M>, r: Option<(Seq<M>, Seq<u8>)>) -> Option<(Seq<M>, Seq<u8>)> {
    match r {
        Some((xs, end)) => Some((front + xs, end)),
        None => None,
    }
}

/// Writing one more model behind a run appends its bytes.
pub proof fn lemma_enc_items_push<T: Persist>(s: Seq<T::Model>, x: T::Model)
    ensures
        enc_items::<T>(s.push(x)) == enc_items::<T>(s) + T::enc(x),
    decreases s.len(),
{
    if s.len() == 0 {
        assert(s.push(x).drop_first() =~= Seq::<T::Model>::empty());
        assert(enc_items::<T>(s.push(x).drop_first()) =~= Seq::<u8>::empty());
        assert(s.push(x)[0] == x);
        assert(enc_items::<T>(s.push(x)) =~= T::enc(x) + Seq::<u8>::empty());
        assert(enc_items::<T>(s) + T::enc(x) =~= T::enc(x));
    } else {
        lemma_enc_items_push::<T>(s.drop_first(), x);
        assert(s.push(x).drop_first() =~= s.drop_first().push(x));
        assert(s.push(x)[0] == s[0]);
        assert(T::enc(s[0]) + (enc_items::<T>(s.drop_first()) + T::enc(x)) =~= (T::enc(s[0])
            + enc_items::<T>(s.drop_first())) + T::enc(x));
    }
}

/// Reading the bytes of a run of valid models gives the run back.
pub proof fn lemma_items_round_trip<T: Persist>(s: Seq<T::Model>, rest: Seq<u8>)
    requires
        forall|i: int| 0 <= i < s.len() ==> T::valid(#[trigger] s[i]),
    ensures
        dec_items::<T>(enc_items::<T>(s) + rest, s.len()) == Some((s, rest)),
    decreases s.len(),
{
    if s.len() == 0 {
        assert(enc_items::<T>(s) + rest =~= rest);
        assert(s =~= Seq::<T::Model>::empty());
    } else {
        let tail = s.drop_first();
        let tail_bytes = enc_items::<T>(tail);
        assert(enc_items::<T>(s) + rest =~= T::enc(s[0]) + (tail_bytes + rest));
        T::lemma_round_trip(s[0], tail_bytes + rest);
        assert forall|i: int| 0 <= i < tail.len() implies T::valid(#[trigger] tail[i]) by {
            assert(tail[i] == s[i + 1]);
        }
        lemma_items_round_trip::<T>(tail, rest);
        assert(seq![s[0]] + tail =~= s);
    }
}

/// A run of bytes is written in as many bytes as it has.
pub proof fn lemma_byte_items_len(s: Seq<u8>)
    ensures
        enc_items::<u8>(s).len() == s.len(),
    decreases s.len(),
{
    if s.len() > 0 {
        lemma_byte_items_len(s.drop_first());
    }
}

/// A list of bytes is written as its length, in eight bytes, and the bytes.
pub proof fn lemma_bytes_enc_len(s: Seq<u8>)
    ensures
        <Vec<u8>>::enc(s).len() == 8 + s.len(),
{
    lemma_auto_spec_u64_to_from_le_bytes();
    lemma_byte_items_len(s);
}

impl<T: Persist> Persist for Vec<T> {
    type Model = Seq<T::Model>;

    open spec fn model(&self) -> Seq<T::Model> {
        models::<T>(self@)
    }

    open spec fn valid(m: Seq<T::Model>) -> bool {
        &&& m.len() <= usize::MAX
        &&& forall|i: int| 0 <= i < m.len() ==> T::valid(#[trigger] m[i])
    }

    open spec fn enc(m: Seq<T::Model>) -> Seq<u8> {
        usize::enc(m.len() as usize) + enc_items::<T>(m)
    }

    open spec fn dec(b: Seq<u8>) -> Option<(Seq<T::Model>, Seq<u8>)> {
        match usize::dec(b) {
            Some((n, rest)) => dec_items::<T>(rest, n as nat),
            None => None,
        }
    }

    proof fn lemma_round_trip(m: Seq<T::Model>, rest: Seq<u8>) {
        let n = m.len() as usize;
        assert(Self::enc(m) + rest =~= usize::enc(n) + (enc_items::<T>(m) + rest));
        usize::lemma_round_trip(n, enc_items::<T>(m) + rest);
        lemma_items_round_trip::<T>(m, rest);
    }

    fn write(&self, out: &mut Vec<u8>) {
        let n = self.len();
        n.write(out);
        let ghost all = self.model();
        let ghost start = out@;
        assert(enc_items::<T>(all.take(0)) =~= Seq::<u8>::empty());
        assert(start + Seq::<u8>::empty() =~= start);
        let mut i: usize = 0;
        while i < n
            invariant
                i <= n,
                n == self@.len(),
                all == self.model(),
                out@ == start + enc_items::<T>(all.take(i as int)),
                forall|j: int| 0 <= j < i ==> T::valid(#[trigger] all[j]),
            decreases n - i,
        {
            let ghost before = out@;
            self[i].write(out);
            proof {
                lemma_enc_items_push::<T>(all.take(i as int), all[i as int]);
                assert(all.take(i + 1) =~= all.take(i as int).push(all[i as int]));
                assert(start + (enc_items::<T>(all.take(i as int)) + T::enc(all[i as int]))
                    =~= before + T::enc(all[i as int]));
            }
            i += 1;
        }
        proof {
            assert(all.take(n as int) =~= all);
            assert(old(out)@ + (usize::enc(n) + enc_items::<T>(all)) =~= start + enc_items::<T>(
                all,
            ));
        }
    }

    fn read(data: &[u8], pos: usize) -> (r: Option<(Vec<T>, usize)>) {
        let (n, first) = match usize::read(data, pos) {
            Some(pair) => pair,
            None => { return None; },
        };
        let ghost whole = dec_items::<T>(data@.skip(first as int), n as nat);
        let mut items: Vec<T> = Vec::new();
        let mut at: usize = first;
        let mut i: usize = 0;
        assert(models::<T>(items@) =~= Seq::<T::Model>::empty());
        proof {
            match whole {
                Some((xs, end)) => { assert(Seq::<T::Model>::empty() + xs =~= xs); },
                None => {},
            }
        }
        while i < n
            invariant
                i <= n,
                first <= at <= data@.len(),
                pos <= first,
                items@.len() == i,
                forall|j: int| 0 <= j < i ==> T::valid(#[trigger] items@[j].model()),
                usize::dec(data@.skip(pos as int)) == Some((n, data@.skip(first as int))),
                whole == dec_items::<T>(data@.skip(first as int), n as nat),
                whole == after(
                    models::<T>(items@),
                    dec_items::<T>(data@.skip(at as int), (n - i) as nat),
                ),
            decreases n - i,
        {
            let ghost front = models::<T>(items@);
            let ghost tail = dec_items::<T>(data@.skip(at as int), (n - i) as nat);
            match T::read(data, at) {
                Some((item, next)) => {
                    let ghost m = item.model();
                    items.push(item);
                    proof {
                        let later = dec_items::<T>(data@.skip(next as int), (n - i - 1) as nat);
                        assert(models::<T>(items@) =~= front.push(m));
                        match later {
                            Some((xs, end)) => {
                                assert(front + (seq![m] + xs) =~= front.push(m) + xs);
                            },
                            None => {},
                        }
                    }
                    at = next;
                    i += 1;
                },
                None => {
                    return None;
                },
            }
        }
        proof {
            assert(models::<T>(items@) + Seq::<T::Model>::empty() =~= models::<T>(items@));
            assert forall|j: int| 0 <= j < items@.len() implies T::valid(
                #[trigger] models::<T>(items@)[j],
            ) by {
                assert(models::<T>(items@)[j] == items@[j].model());
            }
        }
        Some((items, at))
    }
}

impl<T: Persist> Persist for Option<T> {
    type Model = Option<T::Model>;

    open spec fn model(&self) -> Option<T::Model> {
        match *self {
            Some(x) => Some(x.model()),
            None => None,
        }
    }

    open spec fn valid(m: Option<T::Model>) -> bool {
        m is Some ==> T::valid(m->0)
    }

    open spec fn enc(m: Option<T::Model>) -> Seq<u8> {
        match m {
            Some(x) => seq![1u8] + T::enc(x),
            None => seq![0u8],
        }
    }

    open spec fn dec(b: Seq<u8>) -> Option<(Option<T::Model>, Seq<u8>)> {
        if b.len() >= 1 && b[0] == 0 {
            Some((None, b.skip(1)))
        } else if b.len() >= 1 && b[0] == 1 {
            match T::dec(b.skip(1)) {
                Some((x, rest)) => Some((Some(x), rest)),
                None => None,
            }
        } else {
            None
        }
    }

    proof fn lemma_round_trip(m: Option<T::Model>, rest: Seq<u8>) {
        match m {
            Some(x) => {
                assert((Self::enc(m) + rest).skip(1) =~= T::enc(x) + rest);
                T::lemma_round_trip(x, rest);
            },
            None => {
                assert((Self::enc(m) + rest).skip(1) =~= rest);
            },
        }
    }

    fn write(&self, out: &mut Vec<u8>) {
        match self {
            Some(x) => {
                out.push(1u8);
                x.write(out);
                assert(out@ =~= old(out)@ + (seq![1u8] + T::enc(x.model())));
            },
            None => {
                out.push(0u8);
                assert(out@ =~= old(out)@ + seq![0u8]);
            },
        }
    }

    fn read(data: &[u8], pos: usize) -> (r: Option<(Option<T>, usize)>) {
        if pos >= data.len() {
            return None;
        }
        let tag = data[pos];
        assert(data@.skip(pos as int).skip(1) =~= data@.skip(pos + 1));
        if tag == 0 {
            Some((None, pos + 1))
        } else if tag == 1 {
            match T::read(data, pos + 1) {
                Some((x, next)) => Some((Some(x), next)),
                None => None,
            }
        } else {
            None
        }
    }
}

/// `String::from_utf8`: the text that the bytes spell, where they are
/// well-formed UTF-8, and nothing where they are not.
#[verifier::external_body]
fn text_from_utf8(bytes: Vec<u8>) -> (r: Option<String>)
    ensures
        r is Some == valid_utf8(bytes@),
        r is Some ==> r->0@ == decode_utf8(bytes@),
{
    String::from_utf8(bytes).ok()
}

impl Persist for String {
    type Model = Seq<char>;

    open spec fn model(&self) -> Seq<char> {
        self@
    }

    open spec fn valid(m: Seq<char>) -> bool {
        encode_utf8(m).len() <= usize::MAX
    }

    open spec fn enc(m: Seq<char>) -> Seq<u8> {
        <Vec<u8>>::enc(encode_utf8(m))
    }

    open spec fn dec(b: Seq<u8>) -> Option<(Seq<char>, Seq<u8>)> {
        match <Vec<u8>>::dec(b) {
            Some((bytes, rest)) => if valid_utf8(bytes) {
                Some((decode_utf8(bytes), rest))
            } else {
                None
            },
            None => None,
        }
    }

    proof fn lemma_round_trip(m: Seq<char>, rest: Seq<u8>) {
        <Vec<u8>>::lemma_round_trip(encode_utf8(m), rest);
        encode_utf8_valid_utf8(m);
        encode_utf8_decode_utf8(m);
    }

    fn write(&self, out: &mut Vec<u8>) {
        let bytes = self.as_str().as_bytes();
        write_bytes(bytes, out);
    }

    fn read(data: &[u8], pos: usize) -> (r: Option<(String, usize)>) {
        match <Vec<u8>>::read(data, pos) {
            Some((bytes, next)) => {
                assert(bytes.model() =~= bytes@);
                match text_from_utf8(bytes) {
                    Some(text) => {
                        proof {
                            decode_utf8_encode_utf8(bytes@);
                        }
                        Some((text, next))
                    },
                    None => None,
                }
            },
            None => None,
        }
    }
}

/// Appends a run of bytes to `out` as a list of bytes is written.
pub fn write_bytes(bytes: &[u8], out: &mut Vec<u8>)
    ensures
        final(out)@ == old(out)@ + <Vec<u8>>::enc(bytes@),
        <Vec<u8>>::valid(bytes@),
{
    let n = bytes.len();
    n.write(out);
    let ghost all = bytes@;
    let ghost start = out@;
    assert(enc_items::<u8>(all.take(0)) =~= Seq::<u8>::empty());
    assert(start + Seq::<u8>::empty() =~= start);
    let mut i: usize = 0;
    while i < n
        invariant
            i <= n,
            n == bytes@.len(),
            all == bytes@,
            out@ == start + enc_items::<u8>(all.take(i as int)),
        decreases n - i,
    {
        let ghost before = out@;
        out.push(bytes[i]);
        proof {
            lemma_enc_items_push::<u8>(all.take(i as int), all[i as int]);
            assert(all.take(i + 1) =~= all.take(i as int).push(all[i as int]));
            assert(out@ =~= before + seq![all[i as int]]);
            assert(start + (enc_items::<u8>(all.take(i as int)) + seq![all[i as int]]) =~= before
                + seq![all[i as int]]);
        }
        i += 1;
    }
    proof {
        assert(all.take(n as int) =~= all);
        assert(old(out)@ + (usize::enc(n) + enc_items::<u8>(all)) =~= start + enc_items::<u8>(all));
    }
}

} // verus!
