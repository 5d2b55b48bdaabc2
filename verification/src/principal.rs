//! Identities: callers, users, providers and vehicles are all named by a
//! principal, a byte string of at most 29 bytes.

use vstd::prelude::*;
use vstd::std_specs::cmp::PartialEqSpecImpl;
use crate::codec::Persist;

verus! {

/// The longest principal, in bytes.
pub const MAX_PRINCIPAL_LENGTH: usize = 29;

/// An identity.
#[derive(Debug)]
pub struct Principal {
    bytes: Vec<u8>,
}

/// The identity that a public key names: a hash of the key's DER encoding,
/// closed by a tag byte.
pub uninterp spec fn self_authenticating_id(public_key: Seq<u8>) -> Seq<u8>;

/// `candid::Principal::self_authenticating`: the identity of a public key
/// is 29 bytes long, ends in the tag 2, and depends on the key alone.
#[verifier::external_body]
fn self_authenticating_bytes(public_key: &[u8]) -> (r: Vec<u8>)
    ensures
        r@ == self_authenticating_id(public_key@),
        r@.len() == 29,
        r@[28] == 2,
{
    candid::Principal::self_authenticating(public_key).as_slice().to_vec()
}

/// Whether two runs of bytes are the same.
pub fn bytes_eq(a: &[u8], b: &[u8]) -> (r: bool)
    ensures
        r == (a@ == b@),
{
    if a.len() != b.len() {
        return false;
    }
    let mut i: usize = 0;
    while i < a.len()
        invariant
            i <= a@.len(),
            a@.len() == b@.len(),
            forall|j: int| 0 <= j < i ==> a@[j] == b@[j],
        decreases a@.len() - i,
    {
        if a[i] != b[i] {
            return false;
        }
        i += 1;
    }
    assert(a@ =~= b@);
    true
}

/// A copy of a run of bytes.
pub fn bytes_copy(a: &[u8]) -> (r: Vec<u8>)
    ensures
        r@ == a@,
{
    let mut out: Vec<u8> = Vec::new();
    let mut i: usize = 0;
    while i < a.len()
        invariant
            i <= a@.len(),
            out@ == a@.take(i as int),
        decreases a@.len() - i,
    {
        out.push(a[i]);
        assert(a@.take(i + 1) =~= a@.take(i as int).push(a@[i as int]));
        i += 1;
    }
    assert(a@.take(a@.len() as int) =~= a@);
    out
}

impl View for Principal {
    type V = Seq<u8>;

    closed spec fn view(&self) -> Seq<u8> {
        self.bytes@
    }
}

impl Principal {
    #[verifier::type_invariant]
    spec fn well_formed(&self) -> bool {
        self.bytes@.len() <= MAX_PRINCIPAL_LENGTH
    }

    /// The principal with these bytes, if they are at most 29.
    pub fn from_slice(bytes: &[u8]) -> (r: Option<Principal>)
        ensures
            r is Some == (bytes@.len() <= MAX_PRINCIPAL_LENGTH),
            r is Some ==> r->0@ == bytes@,
    {
        if bytes.len() <= MAX_PRINCIPAL_LENGTH {
            Some(Principal { bytes: bytes_copy(bytes) })
        } else {
            None
        }
    }

    /// The identity of a caller that has none: the single byte 4.
    pub fn anonymous() -> (r: Principal)
        ensures
            r@ == seq![4u8],
    {
        let mut bytes: Vec<u8> = Vec::new();
        bytes.push(4u8);
        assert(bytes@ =~= seq![4u8]);
        Principal { bytes }
    }

    /// The identity that a DER-encoded public key names.
    pub fn self_authenticating(public_key: &[u8]) -> (r: Principal)
        ensures
            r@ == self_authenticating_id(public_key@),
            r@.len() == 29,
            r@[28] == 2,
    {
        Principal { bytes: self_authenticating_bytes(public_key) }
    }

    /// The bytes of the principal.
    pub fn as_slice(&self) -> (r: &[u8])
        ensures
            r@ == self@,
            r@.len() <= MAX_PRINCIPAL_LENGTH,
    {
        proof {
            use_type_invariant(self);
        }
        self.bytes.as_slice()
    }

    /// Whether two principals are the same identity.
    pub fn equals(&self, other: &Principal) -> (r: bool)
        ensures
            r == (self@ == other@),
    {
        bytes_eq(self.bytes.as_slice(), other.bytes.as_slice())
    }
}

impl PartialEq for Principal {
    fn eq(&self, other: &Principal) -> (r: bool) {
        bytes_eq(self.bytes.as_slice(), other.bytes.as_slice())
    }
}

impl Eq for Principal {}

impl PartialEqSpecImpl for Principal {
    open spec fn obeys_eq_spec() -> bool {
        true
    }

    open spec fn eq_spec(&self, other: &Principal) -> bool {
        self@ == other@
    }
}

impl Clone for Principal {
    fn clone(&self) -> (r: Principal)
        ensures
            r@ == self@,
    {
        proof {
            use_type_invariant(self);
        }
        Principal { bytes: bytes_copy(self.bytes.as_slice()) }
    }
}

impl Persist for Principal {
    type Model = Seq<u8>;

    open spec fn model(&self) -> Seq<u8> {
        self@
    }

    open spec fn valid(m: Seq<u8>) -> bool {
        m.len() <= MAX_PRINCIPAL_LENGTH
    }

    open spec fn enc(m: Seq<u8>) -> Seq<u8> {
        <Vec<u8>>::enc(m)
    }

    open spec fn dec(b: Seq<u8>) -> Option<(Seq<u8>, Seq<u8>)> {
        match <Vec<u8>>::dec(b) {
            Some((m, rest)) => if m.len() <= MAX_PRINCIPAL_LENGTH {
                Some((m, rest))
            } else {
                None
            },
            None => None,
        }
    }

    proof fn lemma_round_trip(m: Seq<u8>, rest: Seq<u8>) {
        <Vec<u8>>::lemma_round_trip(m, rest);
    }

    fn write(&self, out: &mut Vec<u8>) {
        proof {
            use_type_invariant(self);
        }
        crate::codec::write_bytes(self.bytes.as_slice(), out);
    }

    fn read(data: &[u8], pos: usize) -> (r: Option<(Principal, usize)>) {
        match <Vec<u8>>::read(data, pos) {
            Some((bytes, next)) => {
                assert(bytes.model() =~= bytes@);
                if bytes.len() <= MAX_PRINCIPAL_LENGTH {
                    Some((Principal { bytes }, next))
                } else {
                    None
                }
            },
            None => None,
        }
    }
}

} // verus!
