use memo_core::time::Lamport;
use memo_core::Error;
use std::io;
use uuid::Uuid;

fn one_of_each() -> Vec<Error> {
    vec![
        Error::from(io::Error::new(io::ErrorKind::NotFound, "missing")),
        Error::DeserializeError,
        Error::InvalidPath("a/b".to_string()),
        Error::InvalidOperations,
        Error::InvalidFileId("file".to_string()),
        Error::InvalidBufferId,
        Error::InvalidDirEntry,
        Error::InvalidOperation,
        Error::InvalidSelectionSet(Lamport::new(Uuid::from_u128(1))),
        Error::InvalidLocalSelectionSet(3),
        Error::InvalidAnchor("anchor".to_string()),
        Error::OffsetOutOfRange,
        Error::CursorExhausted,
    ]
}

#[test]
fn an_error_equals_only_its_own_variant() {
    let left = one_of_each();
    let right = one_of_each();
    for (i, a) in left.iter().enumerate() {
        for (j, b) in right.iter().enumerate() {
            assert_eq!(a == b, i == j);
        }
    }
}

#[test]
fn errors_with_text_are_compared_by_their_text() {
    assert_eq!(Error::InvalidPath("a".to_string()), Error::InvalidPath("a".to_string()));
    assert_ne!(Error::InvalidPath("a".to_string()), Error::InvalidPath("b".to_string()));
    assert_ne!(Error::InvalidPath("a".to_string()), Error::InvalidFileId("a".to_string()));
    assert_ne!(Error::InvalidAnchor("a".to_string()), Error::InvalidAnchor("".to_string()));
    assert_ne!(Error::InvalidFileId("a".to_string()), Error::InvalidFileId("A".to_string()));
}

#[test]
fn errors_with_ids_are_compared_by_their_ids() {
    let one = Lamport { value: 4, replica_id: Uuid::from_u128(1) };
    let other_value = Lamport { value: 5, replica_id: Uuid::from_u128(1) };
    let other_replica = Lamport { value: 4, replica_id: Uuid::from_u128(2) };
    assert_eq!(Error::InvalidSelectionSet(one), Error::InvalidSelectionSet(one));
    assert_ne!(Error::InvalidSelectionSet(one), Error::InvalidSelectionSet(other_value));
    assert_ne!(Error::InvalidSelectionSet(one), Error::InvalidSelectionSet(other_replica));
    assert_eq!(Error::InvalidLocalSelectionSet(2), Error::InvalidLocalSelectionSet(2));
    assert_ne!(Error::InvalidLocalSelectionSet(2), Error::InvalidLocalSelectionSet(3));
}

#[test]
fn io_errors_are_compared_by_kind_and_message() {
    let not_found = || Error::from(io::Error::new(io::ErrorKind::NotFound, "missing"));
    assert_eq!(not_found(), not_found());
    assert_ne!(not_found(), Error::from(io::Error::new(io::ErrorKind::NotFound, "gone")));
    assert_ne!(not_found(), Error::from(io::Error::new(io::ErrorKind::PermissionDenied, "missing")));
    assert!(matches!(not_found(), Error::IoError(io::ErrorKind::NotFound, _)));
}

#[test]
fn an_io_error_keeps_its_message() {
    match Error::from(io::Error::new(io::ErrorKind::Other, "disk on fire")) {
        Error::IoError(kind, message) => {
            assert_eq!(kind, io::ErrorKind::Other);
            assert_eq!(message, "disk on fire");
        }
        other => panic!("{:?}", other),
    }
}

#[test]
fn an_error_can_be_carried_as_text() {
    assert_eq!(String::from(Error::DeserializeError), "DeserializeError");
    assert_eq!(Error::CursorExhausted.to_string(), "CursorExhausted");
    assert_eq!(Error::InvalidPath("a/b".to_string()).to_string(), "InvalidPath(\"a/b\")");
    assert_eq!(String::from(Error::InvalidLocalSelectionSet(3)), "InvalidLocalSelectionSet(3)");
    for error in one_of_each() {
        assert_eq!(error.to_string(), format!("{:?}", error));
    }
}

#[test]
fn errors_that_hold_the_same_have_the_same_text() {
    let left = one_of_each();
    let right = one_of_each();
    for (a, b) in left.iter().zip(right.iter()) {
        assert_eq!(a, b);
        assert_eq!(a.to_string(), b.to_string());
    }
    assert_eq!(
        Error::InvalidSelectionSet(Lamport { value: 4, replica_id: Uuid::from_u128(1) }).to_string(),
        "InvalidSelectionSet(Lamport { value: 4, replica_id: 00000000-0000-0000-0000-000000000001 })"
    );
}
