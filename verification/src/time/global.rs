//! The vector clock: for every replica, the highest counter seen from it.

use crate::error::Error;
use crate::replica::{
    be_bytes, be_u128, key_of, lemma_key_of_bytes, replica_key, replica_of, uuid_bytes, ReplicaId,
    ReplicaIdExt,
};
use crate::serialization;
use crate::serialization::{lemma_le_bytes_of_value, replica_id_of_bytes};
use crate::time::Local;
use std::cmp::Ordering;
use std::collections::HashMap;
use std::sync::Arc;
use vstd::prelude::*;
use vstd::std_specs::cmp::{PartialEqSpecImpl, PartialOrdSpecImpl};
use vstd::std_specs::hash::*;
use vstd::std_specs::iter::IteratorSpec;

verus! {

/// The coordinate of `key` in `clock`. A replica that the clock does not list
/// reads as zero.
pub open spec fn clock_at(clock: Map<u128, u64>, key: u128) -> u64 {
    if clock.contains_key(key) {
        clock[key]
    } else {
        0
    }
}

/// The later of two counters.
pub open spec fn later(a: u64, b: u64) -> u64 {
    if a >= b {
        a
    } else {
        b
    }
}

/// The clock that lists every replica of `a` and of `b`, each with the later
/// of its two coordinates.
pub open spec fn join(a: Map<u128, u64>, b: Map<u128, u64>) -> Map<u128, u64> {
    Map::new(
        |key: u128| a.contains_key(key) || b.contains_key(key),
        |key: u128| later(clock_at(a, key), clock_at(b, key)),
    )
}

/// The clock `a` after it has taken in the coordinates that `b` holds for the
/// replicas in `done`.
pub open spec fn join_over(a: Map<u128, u64>, b: Map<u128, u64>, done: Set<u128>) -> Map<
    u128,
    u64,
> {
    Map::new(
        |key: u128| a.contains_key(key) || done.contains(key),
        |key: u128|
            if done.contains(key) {
                later(clock_at(a, key), clock_at(b, key))
            } else {
                clock_at(a, key)
            },
    )
}

/// Whether `a` has seen nothing that `b` has not: every coordinate of `a` is at
/// most that of `b`.
pub open spec fn within(a: Map<u128, u64>, b: Map<u128, u64>) -> bool {
    forall|key: u128|
        #![trigger clock_at(a, key)]
        #![trigger clock_at(b, key)]
        clock_at(a, key) <= clock_at(b, key)
}

/// The clock `clock` after it has taken note of counter `value` of the replica
/// with key `key`.
pub open spec fn raised(clock: Map<u128, u64>, key: u128, value: u64) -> Map<u128, u64> {
    clock.insert(key, later(clock_at(clock, key), value))
}

/// The clock `clock` after it has taken note of each of `stamps` in turn, a
/// stamp being a replica's key and a counter.
pub open spec fn raised_by_all(clock: Map<u128, u64>, stamps: Seq<(u128, u64)>) -> Map<u128, u64>
    decreases stamps.len(),
{
    if stamps.len() == 0 {
        clock
    } else {
        raised(raised_by_all(clock, stamps.drop_last()), stamps.last().0, stamps.last().1)
    }
}

/// The key of the replica that a wire record names.
pub open spec fn wire_key(id: serialization::ReplicaId) -> u128 {
    be_u128(id.bytes())
}

/// The clock that a list of wire timestamps spells: each entry sets the
/// coordinate of its replica, a later entry for the same replica overriding an
/// earlier one.
pub open spec fn clock_of_timestamps(list: Seq<serialization::Timestamp>) -> Map<u128, u64>
    decreases list.len(),
{
    if list.len() == 0 {
        Map::empty()
    } else {
        clock_of_timestamps(list.drop_last()).insert(
            wire_key(list.last().replica_id),
            list.last().value,
        )
    }
}

/// Whether `message` spells `clock`: it lists each replica of the clock once,
/// with the clock's coordinate, and no other.
pub open spec fn spells(message: serialization::GlobalTimestamp, clock: Map<u128, u64>) -> bool {
    message.timestamps matches Some(list) && list@.len() == clock.dom().len()
        && clock_of_timestamps(list@) == clock
}

/// The clock that `message` holds, where it holds one.
pub open spec fn read_back(message: serialization::GlobalTimestamp) -> Option<Map<u128, u64>> {
    match message.timestamps {
        Some(list) => Some(clock_of_timestamps(list@)),
        None => None,
    }
}

/// The wire record of the replica with key `key` names that replica.
pub proof fn lemma_wire_key_of_record(key: u128)
    ensures
        wire_key(replica_id_of_bytes(be_bytes(key))) == key,
{
    let bytes = be_bytes(key);
    let record = replica_id_of_bytes(bytes);
    lemma_le_bytes_of_value(bytes.subrange(0, 8));
    lemma_le_bytes_of_value(bytes.subrange(8, 16));
    assert(record.bytes() =~= bytes);
    lemma_key_of_bytes(key);
}

/// A vector clock. Cloning one is cheap: the copies share their entries until
/// one of them changes.
#[derive(Debug, Eq)]
pub struct Global(Arc<HashMap<u128, u64>>);

impl View for Global {
    type V = Map<u128, u64>;

    /// The replicas that the clock lists, by key, each with its coordinate.
    closed spec fn view(&self) -> Map<u128, u64> {
        self.0@
    }
}

/// `Arc::make_mut` lends out the one writable copy of the shared map: the map
/// itself where nobody else holds it, else a fresh copy with the same entries
/// that takes its place. Whatever is written through the loan is what the
/// handle holds afterwards.
#[verifier::external_body]
fn make_mut(shared: &mut Arc<HashMap<u128, u64>>) -> (map: &mut HashMap<u128, u64>)
    ensures
        map@ == old(shared)@,
        final(shared)@ == final(map)@,
{
    Arc::make_mut(shared)
}

/// `Arc::clone` hands out another handle to the same map, so the new handle
/// holds the same entries.
#[verifier::external_body]
fn share(shared: &Arc<HashMap<u128, u64>>) -> (handle: Arc<HashMap<u128, u64>>)
    ensures
        handle@ == shared@,
{
    Arc::clone(shared)
}

/// What walking a map yields: each of its entries, and nothing else.
proof fn lemma_walk(map: &HashMap<u128, u64>)
    ensures
        ({
            let walk = spec_hash_map_iter(map).remaining();
            &&& walk.len() == map@.dom().len()
            &&& forall|i: int|
                0 <= i < walk.len() ==> map@.contains_key(*(#[trigger] walk[i]).0) && map@[*walk[i].0]
                    == *walk[i].1
            &&& forall|key: u128| #[trigger]
                map@.contains_key(key) ==> exists|i: int|
                    0 <= i < walk.len() && *(#[trigger] walk[i]).0 == key
        }),
{
    broadcast use group_hash_axioms;

    let walk = spec_hash_map_iter(map).remaining();
    assert forall|key: u128| #[trigger] map@.contains_key(key) implies exists|i: int|
        0 <= i < walk.len() && *(#[trigger] walk[i]).0 == key by {
        assert(walk.contains((&key, &map@[key])));
        let i = choose|i: int| 0 <= i < walk.len() && walk[i] == (&key, &map@[key]);
        assert(*walk[i].0 == key);
    }
}

/// A set that holds the key of every entry that walking a map yields holds
/// every key of the map.
proof fn lemma_walked_all(map: &HashMap<u128, u64>, done: Set<u128>)
    requires
        forall|j: int|
            0 <= j < spec_hash_map_iter(map).remaining().len() ==> done.contains(
                *(#[trigger] spec_hash_map_iter(map).remaining()[j]).0,
            ),
    ensures
        map@.dom().subset_of(done),
{
    let walk = spec_hash_map_iter(map).remaining();
    lemma_walk(map);
    assert forall|key: u128| map@.contains_key(key) implies done.contains(key) by {
        let i = choose|i: int| 0 <= i < walk.len() && *(#[trigger] walk[i]).0 == key;
    }
}

impl Clone for Global {
    fn clone(&self) -> (copy: Self)
        ensures
            copy@ == self@,
    {
        Global(share(&self.0))
    }
}

impl Global {
    /// The coordinate of the replica with key `key`.
    pub open spec fn at(&self, key: u128) -> u64 {
        clock_at(self@, key)
    }

    /// The clock of a replica that has seen nothing.
    pub fn new() -> (clock: Self)
        ensures
            clock@ == Map::<u128, u64>::empty(),
    {
        Global(Arc::new(HashMap::new()))
    }

    /// The coordinate of the replica with key `key`.
    fn coordinate(&self, key: u128) -> (value: u64)
        ensures
            value == self.at(key),
    {
        broadcast use group_hash_axioms;

        match self.0.get(&key) {
            Some(count) => *count,
            None => 0,
        }
    }

    /// Raises the coordinate of the replica with key `key` to `value`, unless
    /// it is there already.
    fn raise(&mut self, key: u128, value: u64)
        ensures
            final(self)@ == raised(old(self)@, key, value),
    {
        broadcast use group_hash_axioms;

        let current = self.coordinate(key);
        let raised = if current >= value {
            current
        } else {
            value
        };
        let map = make_mut(&mut self.0);
        map.insert(key, raised);
    }

    /// The highest counter seen from `replica_id`; zero where none was.
    pub fn get(&self, replica_id: ReplicaId) -> (value: u64)
        ensures
            value == self.at(replica_key(replica_id)),
    {
        self.coordinate(key_of(&replica_id))
    }

    /// Takes note of one timestamp: its replica's coordinate becomes the later
    /// of what it was and the timestamp's counter.
    pub fn observe(&mut self, timestamp: Local)
        ensures
            final(self)@ == raised(old(self)@, timestamp@.0, timestamp.value),
    {
        self.raise(key_of(&timestamp.replica_id), timestamp.value)
    }

    /// Takes note of everything that `other` has seen.
    pub fn observe_all(&mut self, other: &Self)
        ensures
            final(self)@ == join(old(self)@, other@),
    {
        let map: &HashMap<u128, u64> = &other.0;
        let ghost mut done: Set<u128> = Set::empty();
        proof {
            lemma_walk(map);
            assert(self@ =~= join_over(old(self)@, other@, done));
        }
        for pair in it: map.iter()
            invariant
                it.seq() == spec_hash_map_iter(map).remaining(),
                map@ == other@,
                forall|j: int| 0 <= j < it.index() ==> done.contains(*(#[trigger] it.seq()[j]).0),
                done.subset_of(map@.dom()),
                self@ == join_over(old(self)@, other@, done),
        {
            let (replica, count) = pair;
            proof {
                lemma_walk(map);
                done = done.insert(*replica);
            }
            self.raise(*replica, *count);
            proof {
                assert(self@ =~= join_over(old(self)@, other@, done));
            }
        }
        proof {
            lemma_walked_all(map, done);
            assert(self@ =~= join(old(self)@, other@));
        }
    }

    /// Whether the clock has seen `timestamp`.
    pub fn observed(&self, timestamp: Local) -> (seen: bool)
        ensures
            seen == (self.at(timestamp@.0) >= timestamp.value),
    {
        self.get(timestamp.replica_id) >= timestamp.value
    }

    /// Whether the clock has seen anything that `other` has not.
    pub fn changed_since(&self, other: &Self) -> (changed: bool)
        ensures
            changed == !within(self@, other@),
    {
        let map: &HashMap<u128, u64> = &self.0;
        proof {
            lemma_walk(map);
        }
        for pair in it: map.iter()
            invariant
                it.seq() == spec_hash_map_iter(map).remaining(),
                map@ == self@,
                forall|j: int|
                    0 <= j < it.index() ==> *(#[trigger] it.seq()[j]).1 <= other.at(*it.seq()[j].0),
        {
            let (replica, count) = pair;
            if *count > other.coordinate(*replica) {
                proof {
                    lemma_walk(map);
                    assert(clock_at(self@, *replica) > clock_at(other@, *replica));
                }
                return true;
            }
        }
        proof {
            let done = Set::new(|key: u128| clock_at(self@, key) <= clock_at(other@, key));
            lemma_walk(map);
            lemma_walked_all(map, done);
            assert forall|key: u128| clock_at(self@, key) <= clock_at(other@, key) by {
                if self@.contains_key(key) {
                    assert(done.contains(key));
                }
            }
        }
        false
    }
}

impl Global {
    /// The clock as a wire message: one timestamp for each replica that the
    /// clock lists, in no particular order.
    pub fn to_flatbuf(&self) -> (message: serialization::GlobalTimestamp)
        ensures
            spells(message, self@),
    {
        let map: &HashMap<u128, u64> = &self.0;
        let mut list: Vec<serialization::Timestamp> = Vec::new();
        let ghost mut done: Set<u128> = Set::empty();
        proof {
            lemma_walk(map);
            assert(clock_of_timestamps(list@) =~= map@.restrict(done));
        }
        for pair in it: map.iter()
            invariant
                it.seq() == spec_hash_map_iter(map).remaining(),
                map@ == self@,
                list@.len() == it.index(),
                forall|j: int| 0 <= j < it.index() ==> done.contains(*(#[trigger] it.seq()[j]).0),
                clock_of_timestamps(list@) == map@.restrict(done),
        {
            let (replica, count) = pair;
            let replica_id = replica_of(*replica);
            let record = serialization::Timestamp::new(*count, &replica_id.to_flatbuf());
            proof {
                lemma_walk(map);
                lemma_wire_key_of_record(*replica);
                assert(list@.push(record).drop_last() =~= list@);
                done = done.insert(*replica);
                assert(clock_of_timestamps(list@.push(record)) =~= map@.restrict(done));
            }
            list.push(record);
        }
        proof {
            lemma_walk(map);
            lemma_walked_all(map, done);
            assert(clock_of_timestamps(list@) =~= self@);
        }
        serialization::GlobalTimestamp::create(Some(list))
    }

    /// The clock that a wire message holds. A message without its list of
    /// timestamps is refused; where the list names a replica twice, the later
    /// entry counts.
    pub fn from_flatbuf(message: serialization::GlobalTimestamp) -> (result: Result<Self, Error>)
        ensures
            match read_back(message) {
                Some(entries) => result matches Ok(clock) && clock@ == entries,
                None => result matches Err(Error::DeserializeError),
            },
    {
        broadcast use group_hash_axioms;

        match message.timestamps {
            None => Err(Error::DeserializeError),
            Some(list) => {
                let mut local_timestamps: HashMap<u128, u64> = HashMap::new();
                let mut i: usize = 0;
                while i < list.len()
                    invariant
                        i <= list.len(),
                        local_timestamps@ == clock_of_timestamps(list@.take(i as int)),
                    decreases list.len() - i,
                {
                    let local_timestamp = &list[i];
                    let replica_id = ReplicaId::from_flatbuf(local_timestamp.replica_id());
                    let value = local_timestamp.value();
                    local_timestamps.insert(key_of(&replica_id), value);
                    proof {
                        assert(list@.take(i + 1).drop_last() =~= list@.take(i as int));
                    }
                    i += 1;
                }
                proof {
                    assert(list@.take(list.len() as int) =~= list@);
                }
                Ok(Global(Arc::new(local_timestamps)))
            },
        }
    }
}

impl PartialEq for Global {
    /// Two clocks are equal where they agree on every coordinate: neither has
    /// seen anything that the other has not. A replica listed at zero counts
    /// as one that is not listed, since both read as zero.
    fn eq(&self, other: &Self) -> (same: bool) {
        !self.changed_since(other) && !other.changed_since(self)
    }
}

impl PartialEqSpecImpl for Global {
    open spec fn obeys_eq_spec() -> bool {
        true
    }

    open spec fn eq_spec(&self, other: &Self) -> bool {
        within(self@, other@) && within(other@, self@)
    }
}

impl PartialOrd for Global {
    /// `Less` where `other` has seen all that this clock has and more,
    /// `Greater` the other way round, `Equal` where neither has seen more,
    /// and nothing where each has seen something that the other has not.
    fn partial_cmp(&self, other: &Self) -> (order: Option<Ordering>) {
        let ahead = self.changed_since(other);
        let behind = other.changed_since(self);
        if ahead && behind {
            None
        } else if ahead {
            Some(Ordering::Greater)
        } else if behind {
            Some(Ordering::Less)
        } else {
            Some(Ordering::Equal)
        }
    }
}

impl PartialOrdSpecImpl for Global {
    open spec fn obeys_partial_cmp_spec() -> bool {
        true
    }

    open spec fn partial_cmp_spec(&self, other: &Self) -> Option<Ordering> {
        if within(self@, other@) && within(other@, self@) {
            Some(Ordering::Equal)
        } else if within(self@, other@) {
            Some(Ordering::Less)
        } else if within(other@, self@) {
            Some(Ordering::Greater)
        } else {
            None
        }
    }
}

/// A clock lists finitely many replicas.
pub proof fn lemma_clock_is_finite(clock: &Global)
    ensures
        clock@.dom().finite(),
{
    broadcast use group_hash_axioms;

    assert(clock.0@.dom().finite());
}

/// Joining two clocks gives their least upper bound: the join has seen all
/// that either has, and any clock that has seen all that both have has seen
/// all that the join has.
pub proof fn lemma_join_is_least_upper_bound(
    a: Map<u128, u64>,
    b: Map<u128, u64>,
    c: Map<u128, u64>,
)
    ensures
        within(a, join(a, b)),
        within(b, join(a, b)),
        within(a, c) && within(b, c) ==> within(join(a, b), c),
{
    assert forall|key: u128| clock_at(join(a, b), key) == later(
        clock_at(a, key),
        clock_at(b, key),
    ) by {}
    if within(a, c) && within(b, c) {
        assert forall|key: u128| clock_at(join(a, b), key) <= clock_at(c, key) by {
            assert(clock_at(a, key) <= clock_at(c, key));
            assert(clock_at(b, key) <= clock_at(c, key));
        }
    }
}

/// Joining does not depend on the order or the grouping of the clocks, and
/// joining a clock with itself changes nothing: whatever way the same clocks
/// reach a replica, it ends with the same clock.
pub proof fn lemma_join_laws(a: Map<u128, u64>, b: Map<u128, u64>, c: Map<u128, u64>)
    ensures
        join(a, b) == join(b, a),
        join(join(a, b), c) == join(a, join(b, c)),
        join(a, a) == a,
        join(join(a, b), b) == join(a, b),
{
    assert(join(a, b) =~= join(b, a));
    assert(join(join(a, b), c) =~= join(a, join(b, c)));
    assert(join(a, a) =~= a);
    assert(join(join(a, b), b) =~= join(a, b));
}

/// Taking note of one timestamp is joining with the clock that holds only
/// that timestamp.
pub proof fn lemma_raised_is_join(clock: Map<u128, u64>, key: u128, value: u64)
    ensures
        raised(clock, key, value) == join(clock, Map::<u128, u64>::empty().insert(key, value)),
{
    assert(raised(clock, key, value) =~= join(
        clock,
        Map::<u128, u64>::empty().insert(key, value),
    ));
}

/// Two timestamps can be taken note of in either order, and taking note of
/// one a second time changes nothing.
pub proof fn lemma_raised_laws(clock: Map<u128, u64>, s: (u128, u64), t: (u128, u64))
    ensures
        raised(raised(clock, s.0, s.1), t.0, t.1) == raised(raised(clock, t.0, t.1), s.0, s.1),
        raised(raised(clock, s.0, s.1), s.0, s.1) == raised(clock, s.0, s.1),
        within(clock, raised(clock, s.0, s.1)),
{
    assert(raised(raised(clock, s.0, s.1), t.0, t.1) =~= raised(
        raised(clock, t.0, t.1),
        s.0,
        s.1,
    ));
    assert(raised(raised(clock, s.0, s.1), s.0, s.1) =~= raised(clock, s.0, s.1));
    assert forall|key: u128| clock_at(clock, key) <= clock_at(raised(clock, s.0, s.1), key) by {}
}

/// What a clock holds after a run of timestamps: it lists the replicas that it
/// listed before and those that the run names, and each coordinate is the
/// highest counter among the old coordinate and the run's counters for that
/// replica.
pub proof fn lemma_raised_by_all(clock: Map<u128, u64>, stamps: Seq<(u128, u64)>, key: u128)
    ensures
        raised_by_all(clock, stamps).contains_key(key) <==> clock.contains_key(key) || exists|
            i: int,
        |
            0 <= i < stamps.len() && (#[trigger] stamps[i]).0 == key,
        clock_at(clock, key) <= clock_at(raised_by_all(clock, stamps), key),
        forall|i: int|
            0 <= i < stamps.len() && (#[trigger] stamps[i]).0 == key ==> stamps[i].1 <= clock_at(
                raised_by_all(clock, stamps),
                key,
            ),
        clock_at(raised_by_all(clock, stamps), key) == clock_at(clock, key) || exists|i: int|
            0 <= i < stamps.len() && (#[trigger] stamps[i]).0 == key && stamps[i].1 == clock_at(
                raised_by_all(clock, stamps),
                key,
            ),
    decreases stamps.len(),
{
    if stamps.len() > 0 {
        let front = stamps.drop_last();
        let last = stamps.last();
        let n = stamps.len() - 1;
        lemma_raised_by_all(clock, front, key);
        assert(forall|i: int| 0 <= i < front.len() ==> front[i] == stamps[i]);
        assert(stamps[n] == last);
        let before = raised_by_all(clock, front);
        let after = raised_by_all(clock, stamps);
        assert(after == raised(before, last.0, last.1));
        if last.0 == key {
            assert(clock_at(after, key) == later(clock_at(before, key), last.1));
            if clock_at(after, key) != clock_at(clock, key) {
                if clock_at(after, key) == last.1 {
                    assert(stamps[n].0 == key && stamps[n].1 == clock_at(after, key));
                } else {
                    let i = choose|i: int|
                        0 <= i < front.len() && (#[trigger] front[i]).0 == key && front[i].1
                            == clock_at(before, key);
                    assert(stamps[i].0 == key && stamps[i].1 == clock_at(after, key));
                }
            }
        } else {
            assert(clock_at(after, key) == clock_at(before, key));
            if after.contains_key(key) && !clock.contains_key(key) {
                let i = choose|i: int| 0 <= i < front.len() && (#[trigger] front[i]).0 == key;
                assert(stamps[i].0 == key);
            }
            if clock_at(after, key) != clock_at(clock, key) {
                let i = choose|i: int|
                    0 <= i < front.len() && (#[trigger] front[i]).0 == key && front[i].1
                        == clock_at(before, key);
                assert(stamps[i].0 == key && stamps[i].1 == clock_at(after, key));
            }
        }
        if exists|i: int| 0 <= i < stamps.len() && (#[trigger] stamps[i]).0 == key {
            let i = choose|i: int| 0 <= i < stamps.len() && (#[trigger] stamps[i]).0 == key;
            if i < n {
                assert(front[i].0 == key);
            }
        }
    }
}

/// Two replicas that start from the same clock and take note of the same
/// timestamps end with the same clock, in whatever order the timestamps
/// reach each of them and however often one is repeated.
pub proof fn lemma_clocks_converge(
    clock: Map<u128, u64>,
    one: Seq<(u128, u64)>,
    other: Seq<(u128, u64)>,
)
    requires
        forall|stamp: (u128, u64)| one.contains(stamp) <==> other.contains(stamp),
    ensures
        raised_by_all(clock, one) == raised_by_all(clock, other),
{
    let a = raised_by_all(clock, one);
    let b = raised_by_all(clock, other);
    assert forall|key: u128| #[trigger] a.contains_key(key) == b.contains_key(key) && clock_at(a, key)
        == clock_at(b, key) by {
        lemma_raised_by_all(clock, one, key);
        lemma_raised_by_all(clock, other, key);
        lemma_same_stamps_same_key(one, other, key);
        lemma_same_stamps_same_key(other, one, key);
    }
    assert(a =~= b) by {
        assert forall|key: u128| #[trigger] a.contains_key(key) implies a[key] == b[key] by {
            assert(b.contains_key(key));
            assert(clock_at(a, key) == clock_at(b, key));
        }
    }
}

/// Each stamp of `one` for a replica stands in `other` too.
proof fn lemma_same_stamps_same_key(one: Seq<(u128, u64)>, other: Seq<(u128, u64)>, key: u128)
    requires
        forall|stamp: (u128, u64)| one.contains(stamp) <==> other.contains(stamp),
    ensures
        forall|i: int|
            0 <= i < one.len() && (#[trigger] one[i]).0 == key ==> exists|j: int|
                0 <= j < other.len() && #[trigger] other[j] == one[i],
{
    assert forall|i: int| 0 <= i < one.len() && (#[trigger] one[i]).0 == key implies exists|j: int|
        0 <= j < other.len() && #[trigger] other[j] == one[i] by {
        assert(one.contains(one[i]));
        assert(other.contains(one[i]));
    }
}

/// "Has seen nothing more than" orders the clocks: every clock stands in it to
/// itself, and it carries over from clock to clock. Two clocks stand in it
/// both ways exactly when they agree on every coordinate.
pub proof fn lemma_within_is_an_order(a: Map<u128, u64>, b: Map<u128, u64>, c: Map<u128, u64>)
    ensures
        within(a, a),
        within(a, b) && within(b, c) ==> within(a, c),
        within(a, b) && within(b, a) <==> forall|key: u128|
            #![trigger clock_at(a, key)]
            clock_at(a, key) == clock_at(b, key),
{
    if within(a, b) && within(b, c) {
        assert forall|key: u128| clock_at(a, key) <= clock_at(c, key) by {
            assert(clock_at(a, key) <= clock_at(b, key));
            assert(clock_at(b, key) <= clock_at(c, key));
        }
    }
    if within(a, b) && within(b, a) {
        assert forall|key: u128| clock_at(a, key) == clock_at(b, key) by {
            assert(clock_at(a, key) <= clock_at(b, key));
            assert(clock_at(b, key) <= clock_at(a, key));
        }
    }
}

/// A clock that has seen all that an operation depends on has seen each
/// timestamp that the operation's dependencies had seen.
pub proof fn lemma_dependencies_seen(
    dependencies: Map<u128, u64>,
    clock: Map<u128, u64>,
    key: u128,
    value: u64,
)
    requires
        within(dependencies, clock),
        clock_at(dependencies, key) >= value,
    ensures
        clock_at(clock, key) >= value,
{
    assert(clock_at(dependencies, key) <= clock_at(clock, key));
}

/// A wire message that spells a clock is read back as that clock.
pub proof fn lemma_clock_round_trip(clock: Map<u128, u64>, message: serialization::GlobalTimestamp)
    requires
        spells(message, clock),
    ensures
        read_back(message) == Some(clock),
{
}

} // verus!
