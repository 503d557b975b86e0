use randkit::error::{Error, ErrorKind};

#[test]
fn retry_and_wait_by_kind() {
    assert!(!ErrorKind::Unavailable.should_retry());
    assert!(ErrorKind::Transient.should_retry());
    assert!(ErrorKind::NotReady.should_retry());
    assert!(!ErrorKind::Other.should_retry());
    assert!(!ErrorKind::Unavailable.should_wait());
    assert!(!ErrorKind::Transient.should_wait());
    assert!(ErrorKind::NotReady.should_wait());
    assert!(!ErrorKind::Other.should_wait());
}

#[test]
fn descriptions_by_kind() {
    assert_eq!(ErrorKind::Unavailable.description(), "permanent failure or unavailable");
    assert_eq!(ErrorKind::Transient.description(), "transient failure");
    assert_eq!(ErrorKind::NotReady.description(), "not ready yet");
    assert_eq!(ErrorKind::Other.description(), "uncategorised");
}

#[test]
fn error_keeps_kind_message_and_cause() {
    let plain = Error::new(ErrorKind::Transient, "try again");
    assert_eq!(plain.kind, ErrorKind::Transient);
    assert_eq!(plain.kind(), ErrorKind::Transient);
    assert_eq!(plain.msg(), "try again");
    assert!(plain.cause().is_none());
    let chained = Error::new_with_cause(ErrorKind::Unavailable, "gave up", plain);
    assert_eq!(chained.kind(), ErrorKind::Unavailable);
    assert_eq!(chained.msg(), "gave up");
    let cause = chained.cause().unwrap();
    assert_eq!(cause.kind(), ErrorKind::Transient);
    assert_eq!(cause.msg(), "try again");
    assert!(cause.cause().is_none());
}

#[test]
fn error_text() {
    let e = Error::new(ErrorKind::NotReady, "entropy pool is empty");
    assert_eq!(e.to_string(), "RNG error [not ready yet]: entropy pool is empty");
}
