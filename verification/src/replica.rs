//! Replica identity: the 128-bit name that a peer keeps for life.
//!
//! An identifier is a `Uuid`. The clocks read it in two ways: as its sixteen
//! bytes, which is how it travels, and as the number those bytes spell when the
//! first byte is the most significant, which is how identifiers are ordered and
//! how a vector clock finds a replica's coordinate.

use crate::serialization;
use crate::serialization::{bytes_from_u64, le_bytes, replica_id_of_bytes, u64_from_bytes};
use uuid::Uuid;
use vstd::prelude::*;

verus! {

/// Every peer holds a permanent 128-bit identifier, assigned once at startup.
pub type ReplicaId = Uuid;

/// `uuid::Uuid`, held as an opaque value: all that is known of one is what
/// the specifications below say of its bytes.
#[verifier::external_type_specification]
#[verifier::external_body]
pub struct ExUuid(Uuid);

/// The sixteen bytes that an identifier holds, in the order in which it stores
/// them.
pub uninterp spec fn uuid_bytes(id: Uuid) -> [u8; 16];

/// `Uuid::as_bytes` lends out the identifier's own sixteen bytes.
pub assume_specification[ Uuid::as_bytes ](id: &Uuid) -> (bytes: &[u8; 16])
    ensures
        *bytes == uuid_bytes(*id),
;

/// `Uuid::from_bytes` makes the identifier that holds exactly the given bytes.
pub assume_specification[ Uuid::from_bytes ](bytes: [u8; 16]) -> (id: Uuid)
    ensures
        uuid_bytes(id) == bytes,
;

/// `==` on two identifiers compares their bytes, and nothing else.
pub assume_specification[ <Uuid as PartialEq>::eq ](a: &Uuid, b: &Uuid) -> (same: bool)
    ensures
        same == (uuid_bytes(*a) == uuid_bytes(*b)),
;

/// The number that sixteen bytes spell, most significant byte first.
pub open spec fn be_u128(b: Seq<u8>) -> u128 {
    (b[0] as u128) << 120 | (b[1] as u128) << 112 | (b[2] as u128) << 104 | (b[3] as u128) << 96 | (
    b[4] as u128) << 88 | (b[5] as u128) << 80 | (b[6] as u128) << 72 | (b[7] as u128) << 64 | (
    b[8] as u128) << 56 | (b[9] as u128) << 48 | (b[10] as u128) << 40 | (b[11] as u128) << 32 | (
    b[12] as u128) << 24 | (b[13] as u128) << 16 | (b[14] as u128) << 8 | (b[15] as u128)
}

/// The byte of `key` at position `i`, counted from the most significant one.
pub open spec fn be_byte(key: u128, i: int) -> u8 {
    (key >> (8 * (15 - i)) as u128) as u8
}

/// The sixteen bytes of `key`, most significant byte first.
pub open spec fn be_bytes(key: u128) -> Seq<u8> {
    Seq::new(16, |i: int| be_byte(key, i))
}

/// The number by which a replica is ordered and looked up: its bytes read as one
/// big-endian integer.
pub open spec fn replica_key(id: ReplicaId) -> u128 {
    be_u128(uuid_bytes(id)@)
}

/// Spelling a key as bytes and reading the bytes back gives the key.
pub proof fn lemma_key_of_bytes(key: u128)
    ensures
        be_u128(be_bytes(key)) == key,
{
    let b = be_bytes(key);
    assert(b[0] == (key >> 120) as u8 && b[1] == (key >> 112) as u8 && b[2] == (key >> 104) as u8
        && b[3] == (key >> 96) as u8 && b[4] == (key >> 88) as u8 && b[5] == (key >> 80) as u8
        && b[6] == (key >> 72) as u8 && b[7] == (key >> 64) as u8 && b[8] == (key >> 56) as u8
        && b[9] == (key >> 48) as u8 && b[10] == (key >> 40) as u8 && b[11] == (key >> 32) as u8
        && b[12] == (key >> 24) as u8 && b[13] == (key >> 16) as u8 && b[14] == (key >> 8) as u8
        && b[15] == (key >> 0) as u8);
    assert(((key >> 120) as u8 as u128) << 120 | ((key >> 112) as u8 as u128) << 112 | ((key >> 104) as u8
        as u128) << 104 | ((key >> 96) as u8 as u128) << 96 | ((key >> 88) as u8 as u128) << 88 | ((
    key >> 80) as u8 as u128) << 80 | ((key >> 72) as u8 as u128) << 72 | ((key >> 64) as u8 as u128)
        << 64 | ((key >> 56) as u8 as u128) << 56 | ((key >> 48) as u8 as u128) << 48 | ((key >> 40) as u8
        as u128) << 40 | ((key >> 32) as u8 as u128) << 32 | ((key >> 24) as u8 as u128) << 24 | ((
    key >> 16) as u8 as u128) << 16 | ((key >> 8) as u8 as u128) << 8 | ((key >> 0) as u8 as u128)
        == key) by (bit_vector);
}

/// Reading sixteen bytes as a key and spelling the key gives the bytes: no two
/// identifiers share a key.
pub proof fn lemma_bytes_of_key(b: Seq<u8>)
    requires
        b.len() == 16,
    ensures
        be_bytes(be_u128(b)) == b,
{
    let key = be_u128(b);
    let (b0, b1, b2, b3) = (b[0], b[1], b[2], b[3]);
    let (b4, b5, b6, b7) = (b[4], b[5], b[6], b[7]);
    let (b8, b9, b10, b11) = (b[8], b[9], b[10], b[11]);
    let (b12, b13, b14, b15) = (b[12], b[13], b[14], b[15]);
    assert({
        &&& (key >> 120) as u8 == b0
        &&& (key >> 112) as u8 == b1
        &&& (key >> 104) as u8 == b2
        &&& (key >> 96) as u8 == b3
        &&& (key >> 88) as u8 == b4
        &&& (key >> 80) as u8 == b5
        &&& (key >> 72) as u8 == b6
        &&& (key >> 64) as u8 == b7
        &&& (key >> 56) as u8 == b8
        &&& (key >> 48) as u8 == b9
        &&& (key >> 40) as u8 == b10
        &&& (key >> 32) as u8 == b11
        &&& (key >> 24) as u8 == b12
        &&& (key >> 16) as u8 == b13
        &&& (key >> 8) as u8 == b14
        &&& (key >> 0) as u8 == b15
    }) by (bit_vector)
        requires
            key == (b0 as u128) << 120 | (b1 as u128) << 112 | (b2 as u128) << 104 | (b3 as u128)
                << 96 | (b4 as u128) << 88 | (b5 as u128) << 80 | (b6 as u128) << 72 | (b7 as u128)
                << 64 | (b8 as u128) << 56 | (b9 as u128) << 48 | (b10 as u128) << 40 | (
            b11 as u128) << 32 | (b12 as u128) << 24 | (b13 as u128) << 16 | (b14 as u128) << 8 | (
            b15 as u128),
    ;
    assert(be_bytes(key) =~= b);
}

/// Two identifiers with one key hold the same bytes.
pub proof fn lemma_same_key_same_bytes(a: ReplicaId, b: ReplicaId)
    ensures
        replica_key(a) == replica_key(b) <==> uuid_bytes(a) == uuid_bytes(b),
{
    broadcast use vstd::array::group_array_axioms;

    if replica_key(a) == replica_key(b) {
        lemma_bytes_of_key(uuid_bytes(a)@);
        lemma_bytes_of_key(uuid_bytes(b)@);
        assert(uuid_bytes(a)@ == uuid_bytes(b)@);
        assert(uuid_bytes(a) =~= uuid_bytes(b));
    }
}

/// The key of a replica.
pub fn key_of(id: &ReplicaId) -> (key: u128)
    ensures
        key == replica_key(*id),
{
    let b = id.as_bytes();
    (b[0] as u128) << 120 | (b[1] as u128) << 112 | (b[2] as u128) << 104 | (b[3] as u128) << 96 | (
    b[4] as u128) << 88 | (b[5] as u128) << 80 | (b[6] as u128) << 72 | (b[7] as u128) << 64 | (
    b[8] as u128) << 56 | (b[9] as u128) << 48 | (b[10] as u128) << 40 | (b[11] as u128) << 32 | (
    b[12] as u128) << 24 | (b[13] as u128) << 16 | (b[14] as u128) << 8 | (b[15] as u128)
}

/// The replica that has the given key.
pub fn replica_of(key: u128) -> (id: ReplicaId)
    ensures
        replica_key(id) == key,
        uuid_bytes(id)@ == be_bytes(key),
{
    let bytes: [u8; 16] = [
        (key >> 120) as u8,
        (key >> 112) as u8,
        (key >> 104) as u8,
        (key >> 96) as u8,
        (key >> 88) as u8,
        (key >> 80) as u8,
        (key >> 72) as u8,
        (key >> 64) as u8,
        (key >> 56) as u8,
        (key >> 48) as u8,
        (key >> 40) as u8,
        (key >> 32) as u8,
        (key >> 24) as u8,
        (key >> 16) as u8,
        (key >> 8) as u8,
        (key >> 0) as u8,
    ];
    proof {
        assert(bytes@ =~= be_bytes(key));
        lemma_key_of_bytes(key);
    }
    Uuid::from_bytes(bytes)
}

/// How a replica id goes onto the wire and comes back.
pub trait ReplicaIdExt: Sized {
    /// The sixteen bytes that stand for this value on the wire.
    spec fn wire_bytes(&self) -> Seq<u8>;

    /// Packs the sixteen bytes into the two words of the wire record.
    fn to_flatbuf(&self) -> (message: serialization::ReplicaId)
        ensures
            message == replica_id_of_bytes(self.wire_bytes()),
    ;

    /// Unpacks the two words of a wire record into the sixteen bytes they
    /// spell. Every record is the record of some replica.
    fn from_flatbuf(message: &serialization::ReplicaId) -> (id: Self)
        ensures
            id.wire_bytes() == message.bytes(),
    ;
}

impl ReplicaIdExt for ReplicaId {
    open spec fn wire_bytes(&self) -> Seq<u8> {
        uuid_bytes(*self)@
    }

    fn to_flatbuf(&self) -> (message: serialization::ReplicaId) {
        let bytes = self.as_bytes();
        serialization::ReplicaId::new(u64_from_bytes(bytes, 0), u64_from_bytes(bytes, 8))
    }

    fn from_flatbuf(message: &serialization::ReplicaId) -> (id: Self) {
        let first = bytes_from_u64(message.first_8_bytes());
        let last = bytes_from_u64(message.last_8_bytes());
        let mut bytes: [u8; 16] = [0;16];
        let mut i: usize = 0;
        while i < 8
            invariant
                i <= 8,
                first@ == le_bytes(message.first_8_bytes),
                last@ == le_bytes(message.last_8_bytes),
                forall|j: int| 0 <= j < i ==> bytes@[j] == first@[j],
                forall|j: int| 0 <= j < i ==> bytes@[8 + j] == last@[j],
            decreases 8 - i,
        {
            bytes[i] = first[i];
            bytes[8 + i] = last[i];
            i += 1;
        }
        assert(bytes@ =~= message.bytes());
        Uuid::from_bytes(bytes)
    }
}

} // verus!
