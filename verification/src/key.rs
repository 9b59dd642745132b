use std::collections::hash_map::DefaultHasher;
use std::hash::Hasher;
use vstd::bytes::*;
use vstd::prelude::*;
use vstd::std_specs::hash::DefaultHasherAdditionalSpecFns;
use vstd::string::StringSliceAdditionalSpecFns;
use vstd::utf8::encode_utf8;

verus! {

/// What the table asks of a key: an identity, a hash that is a function of
/// the identity alone, and an equality test that tells whether two keys have
/// one identity.
///
/// The identity is what the table is a map of. For an integer it is the
/// integer; for a string it is the sequence of its characters, so that two
/// strings with the same characters are one key.
pub trait Key: Sized {
    /// What makes a key the key it is.
    type Id;

    /// The identity of the key.
    spec fn id(&self) -> Self::Id;

    /// The hash of the keys with identity `id`.
    spec fn hash_of(id: Self::Id) -> u64;

    /// Computes the hash of the key.
    fn hash(&self) -> (h: u64)
        ensures
            h == Self::hash_of(self.id()),
    ;

    /// Tells whether two keys are the same key.
    fn same(&self, other: &Self) -> (eq: bool)
        ensures
            eq <==> self.id() == other.id(),
    ;
}

/// The digest that the standard hasher gives for one write of `bytes`.
pub open spec fn digest(bytes: Seq<u8>) -> u64 {
    DefaultHasher::spec_finish(seq![bytes])
}

/// Feeds `bytes` to a fresh standard hasher and returns its digest.
pub fn digest_of(bytes: &[u8]) -> (h: u64)
    ensures
        h == digest(bytes@),
{
    let mut hasher = DefaultHasher::new();
    hasher.write(bytes);
    proof {
        assert(hasher@ =~= seq![bytes@]);
    }
    hasher.finish()
}

impl Key for u8 {
    type Id = u8;

    open spec fn id(&self) -> u8 {
        *self
    }

    open spec fn hash_of(id: u8) -> u64 {
        digest(seq![id])
    }

    fn hash(&self) -> (h: u64) {
        let mut bytes: Vec<u8> = Vec::new();
        bytes.push(*self);
        proof {
            assert(bytes@ =~= seq![*self]);
        }
        digest_of(bytes.as_slice())
    }

    fn same(&self, other: &Self) -> (eq: bool) {
        *self == *other
    }
}

impl Key for u16 {
    type Id = u16;

    open spec fn id(&self) -> u16 {
        *self
    }

    open spec fn hash_of(id: u16) -> u64 {
        digest(spec_u16_to_le_bytes(id))
    }

    fn hash(&self) -> (h: u64) {
        let bytes = u16_to_le_bytes(*self);
        digest_of(bytes.as_slice())
    }

    fn same(&self, other: &Self) -> (eq: bool) {
        *self == *other
    }
}

impl Key for u32 {
    type Id = u32;

    open spec fn id(&self) -> u32 {
        *self
    }

    open spec fn hash_of(id: u32) -> u64 {
        digest(spec_u32_to_le_bytes(id))
    }

    fn hash(&self) -> (h: u64) {
        let bytes = u32_to_le_bytes(*self);
        digest_of(bytes.as_slice())
    }

    fn same(&self, other: &Self) -> (eq: bool) {
        *self == *other
    }
}

impl Key for u64 {
    type Id = u64;

    open spec fn id(&self) -> u64 {
        *self
    }

    open spec fn hash_of(id: u64) -> u64 {
        digest(spec_u64_to_le_bytes(id))
    }

    fn hash(&self) -> (h: u64) {
        let bytes = u64_to_le_bytes(*self);
        digest_of(bytes.as_slice())
    }

    fn same(&self, other: &Self) -> (eq: bool) {
        *self == *other
    }
}

impl Key for usize {
    type Id = usize;

    open spec fn id(&self) -> usize {
        *self
    }

    open spec fn hash_of(id: usize) -> u64 {
        digest(spec_u64_to_le_bytes(id as u64))
    }

    fn hash(&self) -> (h: u64) {
        let bytes = u64_to_le_bytes(*self as u64);
        digest_of(bytes.as_slice())
    }

    fn same(&self, other: &Self) -> (eq: bool) {
        *self == *other
    }
}

impl Key for i8 {
    type Id = i8;

    open spec fn id(&self) -> i8 {
        *self
    }

    open spec fn hash_of(id: i8) -> u64 {
        digest(seq![id as u8])
    }

    fn hash(&self) -> (h: u64) {
        let mut bytes: Vec<u8> = Vec::new();
        bytes.push(#[verifier::truncate] (*self as u8));
        proof {
            assert(bytes@ =~= seq![*self as u8]);
        }
        digest_of(bytes.as_slice())
    }

    fn same(&self, other: &Self) -> (eq: bool) {
        *self == *other
    }
}

impl Key for i16 {
    type Id = i16;

    open spec fn id(&self) -> i16 {
        *self
    }

    open spec fn hash_of(id: i16) -> u64 {
        digest(spec_u16_to_le_bytes(id as u16))
    }

    fn hash(&self) -> (h: u64) {
        let bytes = u16_to_le_bytes(#[verifier::truncate] (*self as u16));
        digest_of(bytes.as_slice())
    }

    fn same(&self, other: &Self) -> (eq: bool) {
        *self == *other
    }
}

impl Key for i32 {
    type Id = i32;

    open spec fn id(&self) -> i32 {
        *self
    }

    open spec fn hash_of(id: i32) -> u64 {
        digest(spec_u32_to_le_bytes(id as u32))
    }

    fn hash(&self) -> (h: u64) {
        let bytes = u32_to_le_bytes(#[verifier::truncate] (*self as u32));
        digest_of(bytes.as_slice())
    }

    fn same(&self, other: &Self) -> (eq: bool) {
        *self == *other
    }
}

impl Key for i64 {
    type Id = i64;

    open spec fn id(&self) -> i64 {
        *self
    }

    open spec fn hash_of(id: i64) -> u64 {
        digest(spec_u64_to_le_bytes(id as u64))
    }

    fn hash(&self) -> (h: u64) {
        let bytes = u64_to_le_bytes(#[verifier::truncate] (*self as u64));
        digest_of(bytes.as_slice())
    }

    fn same(&self, other: &Self) -> (eq: bool) {
        *self == *other
    }
}

impl Key for isize {
    type Id = isize;

    open spec fn id(&self) -> isize {
        *self
    }

    open spec fn hash_of(id: isize) -> u64 {
        digest(spec_u64_to_le_bytes(id as u64))
    }

    fn hash(&self) -> (h: u64) {
        let bytes = u64_to_le_bytes(#[verifier::truncate] (*self as u64));
        digest_of(bytes.as_slice())
    }

    fn same(&self, other: &Self) -> (eq: bool) {
        *self == *other
    }
}

impl Key for String {
    type Id = Seq<char>;

    open spec fn id(&self) -> Seq<char> {
        self@
    }

    open spec fn hash_of(id: Seq<char>) -> u64 {
        digest(encode_utf8(id))
    }

    fn hash(&self) -> (h: u64) {
        digest_of(self.as_str().as_bytes())
    }

    fn same(&self, other: &Self) -> (eq: bool) {
        *self == *other
    }
}

/// The index at which the search for a key with hash `hash` starts in a table
/// of `capacity` slots: the hash reduced modulo the capacity.
pub open spec fn ideal_index(hash: u64, capacity: int) -> int {
    hash as int % capacity
}

/// The index at which the search for `k` starts in a table of `capacity`
/// slots.
pub fn get_initial_index<K: Key>(k: &K, capacity: usize) -> (index: usize)
    requires
        capacity > 0,
    ensures
        index == ideal_index(K::hash_of(k.id()), capacity as int),
        index < capacity,
{
    let hash = k.hash();
    (hash % (capacity as u64)) as usize
}

} // verus!
