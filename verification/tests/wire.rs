use memo_core::replica::{key_of, replica_of, ReplicaIdExt};
use memo_core::serialization::{
    bytes_from_u64, u64_from_bytes, GlobalTimestamp, ReplicaId, Timestamp,
};
use memo_core::time::{Global, Lamport, Local};
use memo_core::Error;
use uuid::Uuid;

fn counting_id() -> Uuid {
    Uuid::from_bytes([
        0x00, 0x01, 0x02, 0x03, 0x04, 0x05, 0x06, 0x07, 0x08, 0x09, 0x0a, 0x0b, 0x0c, 0x0d, 0x0e,
        0x0f,
    ])
}

#[test]
fn u64_from_bytes_reads_least_significant_byte_first() {
    let bytes = [0xff, 0x01, 0x02, 0x03, 0x04, 0x05, 0x06, 0x07, 0x08, 0xff];
    assert_eq!(u64_from_bytes(&bytes, 1), 0x0807060504030201);
    assert_eq!(u64_from_bytes(&bytes, 0), 0x07060504030201ff);
    assert_eq!(u64_from_bytes(&[0; 8], 0), 0);
    assert_eq!(u64_from_bytes(&[0xff; 8], 0), u64::MAX);
}

#[test]
fn bytes_from_u64_writes_least_significant_byte_first() {
    assert_eq!(
        bytes_from_u64(0x0807060504030201),
        [0x01, 0x02, 0x03, 0x04, 0x05, 0x06, 0x07, 0x08]
    );
    assert_eq!(bytes_from_u64(0), [0; 8]);
    assert_eq!(bytes_from_u64(u64::MAX), [0xff; 8]);
    assert_eq!(bytes_from_u64(0x1234).to_vec(), 0x1234u64.to_le_bytes().to_vec());
}

#[test]
fn a_word_survives_the_trip_through_its_bytes() {
    for n in [0u64, 1, 255, 256, 0xdead_beef, u64::MAX, 1 << 63] {
        assert_eq!(u64_from_bytes(&bytes_from_u64(n), 0), n);
    }
}

#[test]
fn the_key_of_a_replica_reads_its_bytes_most_significant_first() {
    assert_eq!(key_of(&counting_id()), 0x000102030405060708090a0b0c0d0e0f);
    assert_eq!(key_of(&Uuid::nil()), 0);
    assert_eq!(key_of(&Uuid::from_u128(u128::MAX)), u128::MAX);
    assert_eq!(key_of(&Uuid::from_u128(77)), Uuid::from_u128(77).as_u128());
}

#[test]
fn the_replica_of_a_key_has_that_key() {
    assert_eq!(replica_of(0x000102030405060708090a0b0c0d0e0f), counting_id());
    assert_eq!(replica_of(0), Uuid::nil());
    for key in [1u128, 255, 1 << 64, 1 << 127, u128::MAX] {
        assert_eq!(key_of(&replica_of(key)), key);
        assert_eq!(replica_of(key), Uuid::from_u128(key));
    }
}

#[test]
fn a_replica_id_packs_into_two_little_endian_words() {
    let message = counting_id().to_flatbuf();
    assert_eq!(message.first_8_bytes(), 0x0706050403020100);
    assert_eq!(message.last_8_bytes(), 0x0f0e0d0c0b0a0908);
    assert_eq!(message, ReplicaId::new(0x0706050403020100, 0x0f0e0d0c0b0a0908));
}

#[test]
fn a_replica_id_unpacks_from_two_little_endian_words() {
    let message = ReplicaId::new(0x0706050403020100, 0x0f0e0d0c0b0a0908);
    let id: Uuid = ReplicaIdExt::from_flatbuf(&message);
    assert_eq!(id, counting_id());
}

#[test]
fn a_replica_id_survives_the_trip_through_its_record() {
    for n in [0u128, 1, 0xffff, 1 << 64, 1 << 100, u128::MAX] {
        let id = Uuid::from_u128(n);
        let back: Uuid = ReplicaIdExt::from_flatbuf(&id.to_flatbuf());
        assert_eq!(back, id);
    }
}

#[test]
fn a_timestamp_record_lays_out_value_then_replica() {
    let record = Timestamp::new(0x1817161514131211, &counting_id().to_flatbuf());
    assert_eq!(
        record.to_bytes(),
        [
            0x11, 0x12, 0x13, 0x14, 0x15, 0x16, 0x17, 0x18, 0x00, 0x01, 0x02, 0x03, 0x04, 0x05,
            0x06, 0x07, 0x08, 0x09, 0x0a, 0x0b, 0x0c, 0x0d, 0x0e, 0x0f,
        ]
    );
    assert_eq!(record.value(), 0x1817161514131211);
    assert_eq!(*record.replica_id(), counting_id().to_flatbuf());
}

#[test]
fn a_timestamp_record_is_read_from_its_bytes() {
    let bytes = [
        0x11, 0x12, 0x13, 0x14, 0x15, 0x16, 0x17, 0x18, 0x00, 0x01, 0x02, 0x03, 0x04, 0x05, 0x06,
        0x07, 0x08, 0x09, 0x0a, 0x0b, 0x0c, 0x0d, 0x0e, 0x0f,
    ];
    let record = Timestamp::from_bytes(&bytes);
    assert_eq!(record, Timestamp::new(0x1817161514131211, &counting_id().to_flatbuf()));
    assert_eq!(record.to_bytes(), bytes);
}

#[test]
fn a_local_timestamp_survives_the_trip_through_its_record() {
    let stamp = Local { replica_id: counting_id(), value: 42 };
    let record = stamp.to_flatbuf();
    assert_eq!(record.value(), 42);
    assert_eq!(*record.replica_id(), counting_id().to_flatbuf());
    assert_eq!(Local::from_flatbuf(&record), stamp);
}

#[test]
fn a_lamport_stamp_survives_the_trip_through_its_record() {
    let stamp = Lamport { value: u64::MAX, replica_id: counting_id() };
    let record = stamp.to_flatbuf();
    assert_eq!(record.value(), u64::MAX);
    assert_eq!(Lamport::from_flatbuf(&record), stamp);
    assert_eq!(Lamport::from_flatbuf(&Timestamp::from_bytes(&record.to_bytes())), stamp);
}

#[test]
fn a_clock_goes_onto_the_wire_as_one_timestamp_for_each_replica() {
    let mut clock = Global::new();
    clock.observe(Local { replica_id: Uuid::from_u128(1), value: 5 });
    clock.observe(Local { replica_id: Uuid::from_u128(2), value: 7 });
    clock.observe(Local { replica_id: Uuid::from_u128(1), value: 6 });
    let message = clock.to_flatbuf();
    let mut list: Vec<Timestamp> = message.timestamps().unwrap().clone();
    list.sort_by_key(|record| record.value());
    assert_eq!(
        list,
        vec![
            Local { replica_id: Uuid::from_u128(1), value: 6 }.to_flatbuf(),
            Local { replica_id: Uuid::from_u128(2), value: 7 }.to_flatbuf(),
        ]
    );
}

#[test]
fn an_empty_clock_goes_onto_the_wire_as_an_empty_list() {
    let message = Global::new().to_flatbuf();
    assert_eq!(message.timestamps().map(|list| list.len()), Some(0));
    assert_eq!(Global::from_flatbuf(message), Ok(Global::new()));
}

#[test]
fn a_clock_survives_the_trip_through_its_message() {
    let mut clock = Global::new();
    for n in 0..20u128 {
        clock.observe(Local { replica_id: Uuid::from_u128(n << 60), value: (n as u64) * 3 });
    }
    assert_eq!(Global::from_flatbuf(clock.to_flatbuf()), Ok(clock));
}

#[test]
fn a_message_without_its_list_is_refused() {
    assert_eq!(Global::from_flatbuf(GlobalTimestamp::create(None)), Err(Error::DeserializeError));
}

#[test]
fn the_later_of_two_entries_for_one_replica_counts() {
    let a = Uuid::from_u128(1).to_flatbuf();
    let b = Uuid::from_u128(2).to_flatbuf();
    let message = GlobalTimestamp::create(Some(vec![
        Timestamp::new(9, &a),
        Timestamp::new(4, &b),
        Timestamp::new(3, &a),
    ]));
    let clock = Global::from_flatbuf(message).unwrap();
    assert_eq!(clock.get(Uuid::from_u128(1)), 3);
    assert_eq!(clock.get(Uuid::from_u128(2)), 4);
    assert_eq!(clock.get(Uuid::from_u128(3)), 0);
}
