//! The fixed-layout records that clocks and timestamps take on the wire.
//!
//! Every integer is little-endian. A replica id travels as two 64-bit words, a
//! timestamp as its counter followed by the replica id, and a vector clock as a
//! list of timestamps.

use vstd::prelude::*;

verus! {

/// The number spelled by the first `count` bytes of `bytes`, least significant
/// byte first.
pub open spec fn le_value(bytes: Seq<u8>, count: nat) -> u64
    decreases count,
{
    if count == 0 {
        0
    } else {
        le_value(bytes, (count - 1) as nat) | (bytes[count - 1] as u64) << (8 * (count - 1)) as u64
    }
}

/// The byte of `n` at position `i`, counted from the least significant one.
pub open spec fn le_byte(n: u64, i: int) -> u8 {
    (n >> (8 * i) as u64) as u8
}

/// The eight bytes of `n`, least significant byte first.
pub open spec fn le_bytes(n: u64) -> Seq<u8> {
    Seq::new(8, |i: int| le_byte(n, i))
}

/// Reading a word back from the eight bytes it was written to gives the word.
pub proof fn lemma_le_value_of_bytes(n: u64)
    ensures
        le_value(le_bytes(n), 8) == n,
{
    reveal_with_fuel(le_value, 9);
    let b = le_bytes(n);
    assert(b[0] == (n >> 0) as u8 && b[1] == (n >> 8) as u8 && b[2] == (n >> 16) as u8 && b[3] == (
    n >> 24) as u8 && b[4] == (n >> 32) as u8 && b[5] == (n >> 40) as u8 && b[6] == (n >> 48) as u8
        && b[7] == (n >> 56) as u8);
    assert((((((((0u64 | ((n >> 0) as u8 as u64) << 0) | ((n >> 8) as u8 as u64) << 8) | ((n >> 16) as u8
        as u64) << 16) | ((n >> 24) as u8 as u64) << 24) | ((n >> 32) as u8 as u64) << 32) | ((n
        >> 40) as u8 as u64) << 40) | ((n >> 48) as u8 as u64) << 48) | ((n >> 56) as u8 as u64)
        << 56 == n) by (bit_vector);
}

/// Writing out the word that eight bytes spell gives those bytes again.
pub proof fn lemma_le_bytes_of_value(bytes: Seq<u8>)
    requires
        bytes.len() == 8,
    ensures
        le_bytes(le_value(bytes, 8)) == bytes,
{
    reveal_with_fuel(le_value, 9);
    let (b0, b1, b2, b3) = (bytes[0], bytes[1], bytes[2], bytes[3]);
    let (b4, b5, b6, b7) = (bytes[4], bytes[5], bytes[6], bytes[7]);
    let n = le_value(bytes, 8);
    assert(n == (((((((0u64 | (b0 as u64) << 0) | (b1 as u64) << 8) | (b2 as u64) << 16) | (b3 as u64)
        << 24) | (b4 as u64) << 32) | (b5 as u64) << 40) | (b6 as u64) << 48) | (b7 as u64) << 56);
    assert({
        &&& (n >> 0) as u8 == b0
        &&& (n >> 8) as u8 == b1
        &&& (n >> 16) as u8 == b2
        &&& (n >> 24) as u8 == b3
        &&& (n >> 32) as u8 == b4
        &&& (n >> 40) as u8 == b5
        &&& (n >> 48) as u8 == b6
        &&& (n >> 56) as u8 == b7
    }) by (bit_vector)
        requires
            n == (((((((0u64 | (b0 as u64) << 0) | (b1 as u64) << 8) | (b2 as u64) << 16) | (
            b3 as u64) << 24) | (b4 as u64) << 32) | (b5 as u64) << 40) | (b6 as u64) << 48) | (
            b7 as u64) << 56,
    ;
    assert(le_bytes(n) =~= bytes);
}

/// Reads the little-endian word that starts at `start`.
pub fn u64_from_bytes(bytes: &[u8], start: usize) -> (n: u64)
    requires
        start + 8 <= bytes.len(),
    ensures
        n == le_value(bytes@.subrange(start as int, start + 8), 8),
{
    let ghost window = bytes@.subrange(start as int, start + 8);
    let mut n: u64 = 0;
    let mut i: usize = 0;
    while i < 8
        invariant
            i <= 8,
            start + 8 <= bytes.len(),
            window == bytes@.subrange(start as int, start + 8),
            n == le_value(window, i as nat),
        decreases 8 - i,
    {
        assert(window[i as int] == bytes@[start + i]);
        n |= (bytes[start + i] as u64) << ((i * 8) as u64);
        i += 1;
    }
    n
}

/// Spells `n` as eight bytes, least significant byte first.
pub fn bytes_from_u64(n: u64) -> (bytes: [u8; 8])
    ensures
        bytes@ == le_bytes(n),
{
    let mut bytes: [u8; 8] = [0;8];
    let mut i: usize = 0;
    while i < 8
        invariant
            i <= 8,
            forall|j: int| 0 <= j < i ==> bytes@[j] == le_byte(n, j),
        decreases 8 - i,
    {
        bytes[i] = (n >> ((i * 8) as u64)) as u8;
        i += 1;
    }
    assert(bytes@ =~= le_bytes(n));
    bytes
}

/// A replica id as the wire holds it: its sixteen bytes as two words.
#[derive(Clone, Copy, Debug, PartialEq, Eq, Structural)]
pub struct ReplicaId {
    pub first_8_bytes: u64,
    pub last_8_bytes: u64,
}

impl ReplicaId {
    pub fn new(first_8_bytes: u64, last_8_bytes: u64) -> (id: Self)
        ensures
            id == (ReplicaId { first_8_bytes, last_8_bytes }),
    {
        ReplicaId { first_8_bytes, last_8_bytes }
    }

    pub fn first_8_bytes(&self) -> (word: u64)
        ensures
            word == self.first_8_bytes,
    {
        self.first_8_bytes
    }

    pub fn last_8_bytes(&self) -> (word: u64)
        ensures
            word == self.last_8_bytes,
    {
        self.last_8_bytes
    }

    /// The sixteen bytes that the two words spell.
    pub open spec fn bytes(&self) -> Seq<u8> {
        le_bytes(self.first_8_bytes) + le_bytes(self.last_8_bytes)
    }
}

/// The wire record whose two words spell the sixteen bytes `bytes`.
pub open spec fn replica_id_of_bytes(bytes: Seq<u8>) -> ReplicaId {
    ReplicaId {
        first_8_bytes: le_value(bytes.subrange(0, 8), 8),
        last_8_bytes: le_value(bytes.subrange(8, 16), 8),
    }
}

/// A counter value together with the replica it belongs to, as the wire holds
/// it. Local timestamps and Lamport stamps share this record.
#[derive(Clone, Copy, Debug, PartialEq, Eq, Structural)]
pub struct Timestamp {
    pub value: u64,
    pub replica_id: ReplicaId,
}

impl Timestamp {
    pub fn new(value: u64, replica_id: &ReplicaId) -> (timestamp: Self)
        ensures
            timestamp == (Timestamp { value, replica_id: *replica_id }),
    {
        Timestamp { value, replica_id: *replica_id }
    }

    pub fn value(&self) -> (value: u64)
        ensures
            value == self.value,
    {
        self.value
    }

    pub fn replica_id(&self) -> (replica_id: &ReplicaId)
        ensures
            *replica_id == self.replica_id,
    {
        &self.replica_id
    }

    /// The twenty-four bytes of the record: the counter, then the replica id.
    pub open spec fn layout(&self) -> Seq<u8> {
        le_bytes(self.value) + self.replica_id.bytes()
    }

    /// The record that twenty-four bytes hold.
    pub open spec fn parse(bytes: Seq<u8>) -> Timestamp {
        Timestamp {
            value: le_value(bytes.subrange(0, 8), 8),
            replica_id: replica_id_of_bytes(bytes.subrange(8, 24)),
        }
    }

    /// Lays the record out as it stands on the wire.
    pub fn to_bytes(&self) -> (bytes: [u8; 24])
        ensures
            bytes@ == self.layout(),
    {
        let value = bytes_from_u64(self.value);
        let first = bytes_from_u64(self.replica_id.first_8_bytes);
        let last = bytes_from_u64(self.replica_id.last_8_bytes);
        let mut bytes: [u8; 24] = [0;24];
        let mut i: usize = 0;
        while i < 8
            invariant
                i <= 8,
                value@ == le_bytes(self.value),
                first@ == le_bytes(self.replica_id.first_8_bytes),
                last@ == le_bytes(self.replica_id.last_8_bytes),
                forall|j: int| 0 <= j < i ==> bytes@[j] == value@[j],
                forall|j: int| 0 <= j < i ==> bytes@[8 + j] == first@[j],
                forall|j: int| 0 <= j < i ==> bytes@[16 + j] == last@[j],
            decreases 8 - i,
        {
            bytes[i] = value[i];
            bytes[8 + i] = first[i];
            bytes[16 + i] = last[i];
            i += 1;
        }
        assert(bytes@ =~= self.layout());
        bytes
    }

    /// Reads a record from its twenty-four bytes. Every such array is a record.
    pub fn from_bytes(bytes: &[u8; 24]) -> (timestamp: Self)
        ensures
            timestamp == Self::parse(bytes@),
    {
        let value = u64_from_bytes(bytes, 0);
        let first = u64_from_bytes(bytes, 8);
        let last = u64_from_bytes(bytes, 16);
        assert(bytes@.subrange(8, 24).subrange(0, 8) =~= bytes@.subrange(8, 16));
        assert(bytes@.subrange(8, 24).subrange(8, 16) =~= bytes@.subrange(16, 24));
        Timestamp { value, replica_id: ReplicaId { first_8_bytes: first, last_8_bytes: last } }
    }
}

/// The record of counter `value` of the replica whose bytes are `id`.
pub open spec fn record_of(value: u64, id: Seq<u8>) -> Timestamp {
    Timestamp { value, replica_id: replica_id_of_bytes(id) }
}

/// A vector clock as the wire holds it: a list of timestamps, one for each
/// replica, or nothing where the sender left the field out.
#[derive(Clone, Debug)]
pub struct GlobalTimestamp {
    pub timestamps: Option<Vec<Timestamp>>,
}

impl GlobalTimestamp {
    pub fn create(timestamps: Option<Vec<Timestamp>>) -> (message: Self)
        ensures
            message.timestamps == timestamps,
    {
        GlobalTimestamp { timestamps }
    }

    pub fn timestamps(&self) -> (timestamps: Option<&Vec<Timestamp>>)
        ensures
            timestamps is Some <==> self.timestamps is Some,
            timestamps matches Some(list) ==> *list == self.timestamps->0,
    {
        self.timestamps.as_ref()
    }
}

/// Sixteen bytes that are packed into a record and unpacked again come back
/// unchanged, and so does a record that is unpacked and packed again.
pub proof fn lemma_replica_id_round_trip(bytes: Seq<u8>, id: ReplicaId)
    requires
        bytes.len() == 16,
    ensures
        replica_id_of_bytes(bytes).bytes() == bytes,
        replica_id_of_bytes(id.bytes()) == id,
{
    lemma_le_bytes_of_value(bytes.subrange(0, 8));
    lemma_le_bytes_of_value(bytes.subrange(8, 16));
    assert(replica_id_of_bytes(bytes).bytes() =~= bytes);
    lemma_le_value_of_bytes(id.first_8_bytes);
    lemma_le_value_of_bytes(id.last_8_bytes);
    assert(id.bytes().subrange(0, 8) =~= le_bytes(id.first_8_bytes));
    assert(id.bytes().subrange(8, 16) =~= le_bytes(id.last_8_bytes));
}

/// A timestamp record that is laid out and read again comes back unchanged,
/// and so do twenty-four bytes that are read and laid out again.
pub proof fn lemma_timestamp_round_trip(timestamp: Timestamp, bytes: Seq<u8>)
    requires
        bytes.len() == 24,
    ensures
        Timestamp::parse(timestamp.layout()) == timestamp,
        Timestamp::parse(bytes).layout() == bytes,
{
    let layout = timestamp.layout();
    lemma_le_value_of_bytes(timestamp.value);
    assert(layout.subrange(0, 8) =~= le_bytes(timestamp.value));
    assert(layout.subrange(8, 24) =~= timestamp.replica_id.bytes());
    lemma_replica_id_round_trip(bytes.subrange(8, 24), timestamp.replica_id);
    lemma_le_bytes_of_value(bytes.subrange(0, 8));
    assert(Timestamp::parse(bytes).layout() =~= bytes);
}

} // verus!
