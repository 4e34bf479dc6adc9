//! Logical clocks: the per-replica counter, the Lamport stamp and the vector
//! clock that together timestamp every operation and say which operations
//! happened before which.

mod global;

pub use crate::time::global::{
    clock_at, clock_of_timestamps, join, later, lemma_clock_is_finite, lemma_clock_round_trip,
    lemma_clocks_converge,
    lemma_dependencies_seen, lemma_join_is_least_upper_bound, lemma_join_laws,
    lemma_raised_by_all, lemma_raised_is_join, lemma_raised_laws, lemma_wire_key_of_record,
    lemma_within_is_an_order, raised, raised_by_all, read_back, spells, wire_key, within, Global,
};

use crate::replica::{
    key_of, lemma_same_key_same_bytes, replica_key, uuid_bytes, ReplicaId, ReplicaIdExt,
};
use crate::serialization;
use crate::serialization::{lemma_replica_id_round_trip, record_of};
use std::cmp::Ordering;
use uuid::Uuid;
use vstd::prelude::*;
use vstd::std_specs::cmp::{PartialEqSpecImpl, PartialOrdSpecImpl};
use vstd::std_specs::ops::AddSpecImpl;

verus! {

/// The counter that follows `value`; the last counter follows itself, so that
/// no counter seen from a peer can push a clock over the edge.
pub open spec fn past(value: u64) -> u64 {
    if value < u64::MAX {
        (value + 1) as u64
    } else {
        u64::MAX
    }
}

/// A local timestamp: the `value`-th event of replica `replica_id`.
///
/// Timestamps are ordered by replica first and by counter second.
#[derive(Clone, Copy, Debug, Eq, Hash, Ord)]
pub struct Local {
    pub replica_id: ReplicaId,
    pub value: u64,
}

/// A Lamport stamp: a counter value and the replica that drew it.
///
/// Stamps are ordered by counter first and by replica second, which makes
/// them a total order over every operation in the system.
#[derive(Clone, Copy, Debug, Eq, Hash, Ord)]
pub struct Lamport {
    pub value: u64,
    pub replica_id: ReplicaId,
}

impl View for Local {
    type V = (u128, u64);

    /// The replica's key and the counter.
    open spec fn view(&self) -> (u128, u64) {
        (replica_key(self.replica_id), self.value)
    }
}

impl View for Lamport {
    type V = (u64, u128);

    /// The counter and the replica's key.
    open spec fn view(&self) -> (u64, u128) {
        (self.value, replica_key(self.replica_id))
    }
}

impl PartialEq for Local {
    fn eq(&self, other: &Self) -> (same: bool) {
        proof {
            lemma_same_key_same_bytes(self.replica_id, other.replica_id);
        }
        self.replica_id == other.replica_id && self.value == other.value
    }
}

impl PartialEqSpecImpl for Local {
    open spec fn obeys_eq_spec() -> bool {
        true
    }

    open spec fn eq_spec(&self, other: &Self) -> bool {
        self@ == other@
    }
}

impl PartialOrd for Local {
    fn partial_cmp(&self, other: &Self) -> (order: Option<Ordering>) {
        let mine = key_of(&self.replica_id);
        let theirs = key_of(&other.replica_id);
        if mine < theirs {
            Some(Ordering::Less)
        } else if mine > theirs {
            Some(Ordering::Greater)
        } else if self.value < other.value {
            Some(Ordering::Less)
        } else if self.value > other.value {
            Some(Ordering::Greater)
        } else {
            Some(Ordering::Equal)
        }
    }
}

impl PartialOrdSpecImpl for Local {
    open spec fn obeys_partial_cmp_spec() -> bool {
        true
    }

    open spec fn partial_cmp_spec(&self, other: &Self) -> Option<Ordering> {
        Some(self.order(*other))
    }
}

impl Default for Local {
    fn default() -> (timestamp: Self)
        ensures
            timestamp@ == (0u128, 0u64),
    {
        let zero: [u8; 16] = [0;16];
        let timestamp = Local { replica_id: Uuid::from_bytes(zero), value: 0 };
        assert(timestamp@.0 == 0) by {
            let b = uuid_bytes(timestamp.replica_id)@;
            assert(b[0] == 0 && b[1] == 0 && b[2] == 0 && b[3] == 0 && b[4] == 0 && b[5] == 0
                && b[6] == 0 && b[7] == 0 && b[8] == 0 && b[9] == 0 && b[10] == 0 && b[11] == 0
                && b[12] == 0 && b[13] == 0 && b[14] == 0 && b[15] == 0);
            assert((0u8 as u128) << 120 | (0u8 as u128) << 112 | (0u8 as u128) << 104 | (0u8 as u128)
                << 96 | (0u8 as u128) << 88 | (0u8 as u128) << 80 | (0u8 as u128) << 72 | (
            0u8 as u128) << 64 | (0u8 as u128) << 56 | (0u8 as u128) << 48 | (0u8 as u128) << 40 | (
            0u8 as u128) << 32 | (0u8 as u128) << 24 | (0u8 as u128) << 16 | (0u8 as u128) << 8 | (
            0u8 as u128) == 0) by (bit_vector);
        }
        timestamp
    }
}

impl Local {
    /// Whether this timestamp comes before `other`: by replica first, by
    /// counter second.
    pub open spec fn precedes(self, other: Self) -> bool {
        self@.0 < other@.0 || (self@.0 == other@.0 && self@.1 < other@.1)
    }

    /// How this timestamp stands to `other`.
    pub open spec fn order(self, other: Self) -> Ordering {
        if self.precedes(other) {
            Ordering::Less
        } else if other.precedes(self) {
            Ordering::Greater
        } else {
            Ordering::Equal
        }
    }

    /// The first timestamp of a replica. Counters start at one, so that zero
    /// can stand for "nothing seen yet" in a vector clock.
    pub fn new(replica_id: ReplicaId) -> (timestamp: Self)
        ensures
            timestamp.replica_id == replica_id,
            timestamp.value == 1,
    {
        Self { replica_id, value: 1 }
    }

    /// Hands out the current timestamp and steps the counter past it.
    pub fn tick(&mut self) -> (timestamp: Self)
        requires
            old(self).value < u64::MAX,
        ensures
            timestamp == *old(self),
            final(self).replica_id == old(self).replica_id,
            final(self).value == old(self).value + 1,
    {
        let timestamp = *self;
        self.value += 1;
        timestamp
    }

    /// Takes note of a timestamp seen elsewhere. One of this replica's own
    /// moves the counter past it, unless the counter is past it already; one
    /// of another replica changes nothing. The counter never moves back, and
    /// it stops at the last counter there is.
    pub fn observe(&mut self, timestamp: Self)
        ensures
            final(self).replica_id == old(self).replica_id,
            final(self).value == if timestamp@.0 == old(self)@.0 {
                later(old(self).value, past(timestamp.value))
            } else {
                old(self).value
            },
    {
        proof {
            lemma_same_key_same_bytes(timestamp.replica_id, self.replica_id);
        }
        if timestamp.replica_id == self.replica_id {
            let next = if timestamp.value < u64::MAX {
                timestamp.value + 1
            } else {
                u64::MAX
            };
            if next > self.value {
                self.value = next;
            }
        }
    }

    /// The wire record of this timestamp.
    pub fn to_flatbuf(&self) -> (message: serialization::Timestamp)
        ensures
            message == record_of(self.value, uuid_bytes(self.replica_id)@),
    {
        serialization::Timestamp::new(self.value, &self.replica_id.to_flatbuf())
    }

    /// The timestamp that a wire record holds.
    pub fn from_flatbuf(message: &serialization::Timestamp) -> (timestamp: Self)
        ensures
            timestamp.value == message.value,
            uuid_bytes(timestamp.replica_id)@ == message.replica_id.bytes(),
    {
        Self { value: message.value(), replica_id: ReplicaId::from_flatbuf(message.replica_id()) }
    }
}

impl<'a> core::ops::Add<&'a Local> for Local {
    type Output = Local;

    /// The later of two timestamps; `other` where neither is later.
    fn add(self, other: &'a Local) -> (later: Local) {
        if self > *other {
            self
        } else {
            *other
        }
    }
}

impl<'a> core::ops::AddAssign<&'a Local> for Local {
    /// Moves this timestamp up to `other` where `other` is later.
    fn add_assign(&mut self, other: &'a Local)
        ensures
            *final(self) == if old(self).precedes(*other) {
                *other
            } else {
                *old(self)
            },
    {
        if *self < *other {
            *self = *other;
        }
    }
}

impl<'a> AddSpecImpl<&'a Local> for Local {
    open spec fn obeys_add_spec() -> bool {
        true
    }

    open spec fn add_req(self, other: &'a Local) -> bool {
        true
    }

    open spec fn add_spec(self, other: &'a Local) -> Local {
        if self.order(*other) == Ordering::Greater {
            self
        } else {
            *other
        }
    }
}

impl PartialEq for Lamport {
    fn eq(&self, other: &Self) -> (same: bool) {
        proof {
            lemma_same_key_same_bytes(self.replica_id, other.replica_id);
        }
        self.value == other.value && self.replica_id == other.replica_id
    }
}

impl PartialEqSpecImpl for Lamport {
    open spec fn obeys_eq_spec() -> bool {
        true
    }

    open spec fn eq_spec(&self, other: &Self) -> bool {
        self@ == other@
    }
}

impl PartialOrd for Lamport {
    fn partial_cmp(&self, other: &Self) -> (order: Option<Ordering>) {
        if self.value < other.value {
            Some(Ordering::Less)
        } else if self.value > other.value {
            Some(Ordering::Greater)
        } else {
            let mine = key_of(&self.replica_id);
            let theirs = key_of(&other.replica_id);
            if mine < theirs {
                Some(Ordering::Less)
            } else if mine > theirs {
                Some(Ordering::Greater)
            } else {
                Some(Ordering::Equal)
            }
        }
    }
}

impl PartialOrdSpecImpl for Lamport {
    open spec fn obeys_partial_cmp_spec() -> bool {
        true
    }

    open spec fn partial_cmp_spec(&self, other: &Self) -> Option<Ordering> {
        Some(self.order(*other))
    }
}

impl Default for Lamport {
    fn default() -> (stamp: Self)
        ensures
            stamp@ == (0u64, 0u128),
    {
        let zero = Local::default();
        Lamport { value: 0, replica_id: zero.replica_id }
    }
}

/// The byte of `n` at position `i`, counted from the most significant one.
pub open spec fn be_byte_of_u64(n: u64, i: int) -> u8 {
    (n >> (8 * (7 - i)) as u64) as u8
}

impl Lamport {
    /// Whether this stamp comes before `other`: by counter first, by replica
    /// second.
    pub open spec fn precedes(self, other: Self) -> bool {
        self@.0 < other@.0 || (self@.0 == other@.0 && self@.1 < other@.1)
    }

    /// How this stamp stands to `other`.
    pub open spec fn order(self, other: Self) -> Ordering {
        if self.precedes(other) {
            Ordering::Less
        } else if other.precedes(self) {
            Ordering::Greater
        } else {
            Ordering::Equal
        }
    }

    /// The twenty-four bytes of the stamp's sort key: the counter, most
    /// significant byte first, then the replica's sixteen bytes.
    pub open spec fn sort_key(self) -> Seq<u8> {
        Seq::new(8, |i: int| be_byte_of_u64(self.value, i)) + uuid_bytes(self.replica_id)@
    }

    /// The first stamp of a replica.
    pub fn new(replica_id: ReplicaId) -> (stamp: Self)
        ensures
            stamp.replica_id == replica_id,
            stamp.value == 1,
    {
        Self { value: 1, replica_id }
    }

    /// Hands out the current stamp and steps the counter past it.
    pub fn tick(&mut self) -> (stamp: Self)
        requires
            old(self).value < u64::MAX,
        ensures
            stamp == *old(self),
            final(self).replica_id == old(self).replica_id,
            final(self).value == old(self).value + 1,
    {
        let stamp = *self;
        self.value += 1;
        stamp
    }

    /// Takes note of a stamp seen elsewhere: the counter moves past both its
    /// own value and the one seen, so that every stamp drawn from now on is
    /// later than `timestamp`. The counter never moves back, and it stops at
    /// the last counter there is.
    pub fn observe(&mut self, timestamp: Self)
        ensures
            final(self).replica_id == old(self).replica_id,
            final(self).value == past(later(old(self).value, timestamp.value)),
    {
        let seen = if self.value >= timestamp.value {
            self.value
        } else {
            timestamp.value
        };
        self.value = if seen < u64::MAX {
            seen + 1
        } else {
            u64::MAX
        };
    }

    /// The wire record of this stamp.
    pub fn to_flatbuf(&self) -> (message: serialization::Timestamp)
        ensures
            message == record_of(self.value, uuid_bytes(self.replica_id)@),
    {
        serialization::Timestamp::new(self.value, &self.replica_id.to_flatbuf())
    }

    /// The stamp that a wire record holds.
    pub fn from_flatbuf(message: &serialization::Timestamp) -> (stamp: Self)
        ensures
            stamp.value == message.value,
            uuid_bytes(stamp.replica_id)@ == message.replica_id.bytes(),
    {
        Self { value: message.value(), replica_id: ReplicaId::from_flatbuf(message.replica_id()) }
    }

    /// The stamp as a sort key: bytes whose order, read left to right, is the
    /// order of the stamps.
    pub fn to_bytes(&self) -> (bytes: [u8; 24])
        ensures
            bytes@ == self.sort_key(),
    {
        let id = self.replica_id.as_bytes();
        let mut bytes: [u8; 24] = [0;24];
        let mut i: usize = 0;
        while i < 8
            invariant
                i <= 8,
                forall|j: int| 0 <= j < i ==> bytes@[j] == be_byte_of_u64(self.value, j),
            decreases 8 - i,
        {
            bytes[i] = (self.value >> (((7 - i) * 8) as u64)) as u8;
            i += 1;
        }
        let mut k: usize = 0;
        while k < 16
            invariant
                k <= 16,
                forall|j: int| 0 <= j < 8 ==> bytes@[j] == be_byte_of_u64(self.value, j),
                forall|j: int| 0 <= j < k ==> bytes@[8 + j] == id@[j],
            decreases 16 - k,
        {
            bytes[8 + k] = id[k];
            k += 1;
        }
        assert(bytes@ =~= self.sort_key());
        bytes
    }
}

/// The order of local timestamps is a strict total order: no timestamp comes
/// before itself, the order carries over from timestamp to timestamp, and of
/// two timestamps one comes before the other unless they are the same counter
/// of the same replica.
pub proof fn lemma_local_order(a: Local, b: Local, c: Local)
    ensures
        !a.precedes(a),
        a.precedes(b) ==> !b.precedes(a),
        a.precedes(b) && b.precedes(c) ==> a.precedes(c),
        a.precedes(b) || b.precedes(a) || a@ == b@,
        a@ == b@ <==> a.value == b.value && uuid_bytes(a.replica_id) == uuid_bytes(b.replica_id),
{
    lemma_same_key_same_bytes(a.replica_id, b.replica_id);
}

/// The order of Lamport stamps is a strict total order: no stamp comes before
/// itself, the order carries over from stamp to stamp, and of two stamps one
/// comes before the other unless they are the same counter of the same
/// replica. Two operations never tie.
pub proof fn lemma_lamport_order(a: Lamport, b: Lamport, c: Lamport)
    ensures
        !a.precedes(a),
        a.precedes(b) ==> !b.precedes(a),
        a.precedes(b) && b.precedes(c) ==> a.precedes(c),
        a.precedes(b) || b.precedes(a) || a@ == b@,
        a@ == b@ <==> a.value == b.value && uuid_bytes(a.replica_id) == uuid_bytes(b.replica_id),
{
    lemma_same_key_same_bytes(a.replica_id, b.replica_id);
}

/// A timestamp or stamp that goes onto the wire and is read again names the
/// same replica: the bytes read from the record of an id are the id's bytes.
pub proof fn lemma_record_round_trip(value: u64, id: ReplicaId, back: ReplicaId)
    requires
        uuid_bytes(back)@ == record_of(value, uuid_bytes(id)@).replica_id.bytes(),
    ensures
        uuid_bytes(back) == uuid_bytes(id),
        replica_key(back) == replica_key(id),
        record_of(value, uuid_bytes(back)@) == record_of(value, uuid_bytes(id)@),
{
    broadcast use vstd::array::group_array_axioms;

    lemma_replica_id_round_trip(uuid_bytes(id)@, record_of(value, uuid_bytes(id)@).replica_id);
    assert(uuid_bytes(back) =~= uuid_bytes(id));
}

/// The number that the first `count` bytes of `bytes` spell, most significant
/// byte first.
pub open spec fn be_number(bytes: Seq<u8>, count: nat) -> nat
    decreases count,
{
    if count == 0 {
        0
    } else {
        be_number(bytes, (count - 1) as nat) * 256 + bytes[count - 1] as nat
    }
}

/// Whether `a` and `b` agree on their first `i` bytes and `a` has the smaller
/// byte at position `i`.
pub open spec fn differ_at(a: Seq<u8>, b: Seq<u8>, i: int) -> bool {
    0 <= i < a.len() && i < b.len() && a.take(i) == b.take(i) && a[i] < b[i]
}

/// Whether `a` comes before `b` when the two are read byte by byte from the
/// left.
pub open spec fn bytes_precede(a: Seq<u8>, b: Seq<u8>) -> bool {
    exists|i: int| differ_at(a, b, i)
}

/// Byte strings of one length are ordered as the numbers that they spell.
pub proof fn lemma_bytes_ordered_as_numbers(a: Seq<u8>, b: Seq<u8>, count: nat)
    requires
        count <= a.len(),
        count <= b.len(),
    ensures
        be_number(a, count) < be_number(b, count) <==> bytes_precede(
            a.take(count as int),
            b.take(count as int),
        ),
        be_number(a, count) == be_number(b, count) <==> a.take(count as int) == b.take(
            count as int,
        ),
    decreases count,
{
    let n = count as int;
    let (s, t) = (a.take(n), b.take(n));
    if count == 0 {
        assert(s =~= t);
        assert forall|i: int| !differ_at(s, t, i) by {}
    } else {
        let m = n - 1;
        let (front_s, front_t) = (a.take(m), b.take(m));
        lemma_bytes_ordered_as_numbers(a, b, (count - 1) as nat);
        assert(s.take(m) =~= front_s && t.take(m) =~= front_t);
        assert(s[m] == a[m] && t[m] == b[m]);
        if bytes_precede(front_s, front_t) {
            let i = choose|i: int| differ_at(front_s, front_t, i);
            assert(s.take(i) =~= front_s.take(i) && t.take(i) =~= front_t.take(i));
            assert(differ_at(s, t, i));
        }
        if front_s == front_t && a[m] < b[m] {
            assert(differ_at(s, t, m));
        }
        if bytes_precede(s, t) {
            let i = choose|i: int| differ_at(s, t, i);
            if i < m {
                assert(s.take(i) =~= front_s.take(i) && t.take(i) =~= front_t.take(i));
                assert(differ_at(front_s, front_t, i));
            }
        }
        if front_s == front_t && a[m] == b[m] {
            assert(s =~= t);
        }
        if s == t {
            assert(front_s =~= front_t);
        }
    }
}

/// The number that a stamp's sort key spells: the counter in the high bits,
/// the replica's key in the low ones.
pub proof fn lemma_sort_key_number(stamp: Lamport)
    ensures
        be_number(stamp.sort_key(), 24) == stamp.value * 0x1_0000_0000_0000_0000_0000_0000_0000_0000
            + replica_key(stamp.replica_id),
{
    broadcast use vstd::array::group_array_axioms;

    let key = stamp.sort_key();
    let v = stamp.value;
    let id = uuid_bytes(stamp.replica_id)@;
    assert(key[0] == (v >> 56) as u8 && key[1] == (v >> 48) as u8 && key[2] == (v >> 40) as u8
        && key[3] == (v >> 32) as u8 && key[4] == (v >> 24) as u8 && key[5] == (v >> 16) as u8
        && key[6] == (v >> 8) as u8 && key[7] == (v >> 0) as u8);
    assert(be_number(key, 8) == v) by {
        reveal_with_fuel(be_number, 9);
        assert(v == ((v >> 56) as u8) * 0x100_0000_0000_0000 + ((v >> 48) as u8) * 0x1_0000_0000_0000
            + ((v >> 40) as u8) * 0x100_0000_0000 + ((v >> 32) as u8) * 0x1_0000_0000 + ((v
            >> 24) as u8) * 0x100_0000 + ((v >> 16) as u8) * 0x1_0000 + ((v >> 8) as u8) * 0x100 + ((v
            >> 0) as u8)) by (bit_vector);
    }
    let (c0, c1, c2, c3) = (id[0], id[1], id[2], id[3]);
    let (c4, c5, c6, c7) = (id[4], id[5], id[6], id[7]);
    let (c8, c9, c10, c11) = (id[8], id[9], id[10], id[11]);
    let (c12, c13, c14, c15) = (id[12], id[13], id[14], id[15]);
    assert(key[8] == c0 && key[9] == c1 && key[10] == c2 && key[11] == c3 && key[12] == c4
        && key[13] == c5 && key[14] == c6 && key[15] == c7 && key[16] == c8 && key[17] == c9
        && key[18] == c10 && key[19] == c11 && key[20] == c12 && key[21] == c13 && key[22] == c14
        && key[23] == c15);
    let low = replica_key(stamp.replica_id);
    assert(low == c0 * 0x100_0000_0000_0000_0000_0000_0000_0000 + c1
        * 0x1_0000_0000_0000_0000_0000_0000_0000 + c2 * 0x100_0000_0000_0000_0000_0000_0000 + c3
        * 0x1_0000_0000_0000_0000_0000_0000 + c4 * 0x100_0000_0000_0000_0000_0000 + c5
        * 0x1_0000_0000_0000_0000_0000 + c6 * 0x100_0000_0000_0000_0000 + c7
        * 0x1_0000_0000_0000_0000 + c8 * 0x100_0000_0000_0000 + c9 * 0x1_0000_0000_0000 + c10
        * 0x100_0000_0000 + c11 * 0x1_0000_0000 + c12 * 0x100_0000 + c13 * 0x1_0000 + c14 * 0x100
        + c15) by (bit_vector)
        requires
            low == (c0 as u128) << 120 | (c1 as u128) << 112 | (c2 as u128) << 104 | (c3 as u128)
                << 96 | (c4 as u128) << 88 | (c5 as u128) << 80 | (c6 as u128) << 72 | (c7 as u128)
                << 64 | (c8 as u128) << 56 | (c9 as u128) << 48 | (c10 as u128) << 40 | (
            c11 as u128) << 32 | (c12 as u128) << 24 | (c13 as u128) << 16 | (c14 as u128) << 8 | (
            c15 as u128),
    ;
    assert(be_number(key, 24) == be_number(key, 8) * 0x1_0000_0000_0000_0000_0000_0000_0000_0000
        + low) by {
        reveal_with_fuel(be_number, 17);
    }
}

/// A stamp's sort key sorts as the stamp does: of two stamps the one that
/// comes first has the key that comes first byte by byte, and only stamps with
/// the same counter and replica share a key.
pub proof fn lemma_sort_key_order(a: Lamport, b: Lamport)
    ensures
        bytes_precede(a.sort_key(), b.sort_key()) <==> a.precedes(b),
        a.sort_key() == b.sort_key() <==> a@ == b@,
{
    broadcast use vstd::array::group_array_axioms;

    let (s, t) = (a.sort_key(), b.sort_key());
    lemma_sort_key_number(a);
    lemma_sort_key_number(b);
    lemma_bytes_ordered_as_numbers(s, t, 24);
    assert(s.take(24) =~= s && t.take(24) =~= t);
}

} // verus!
