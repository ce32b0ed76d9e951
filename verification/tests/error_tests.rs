use archivur::error::{
    ErrorKind, STATUS_BAD_REQUEST, STATUS_INTERNAL_ERROR, STATUS_NOT_FOUND, STATUS_OK,
};
use archivur::fetch::{classify, clone_keys, FetchLedger, StoreFault};

#[test]
fn status_of_each_class() {
    assert_eq!(ErrorKind::NotFound.status(), 404);
    assert_eq!(ErrorKind::ServiceError.status(), 500);
    assert_eq!(ErrorKind::TransportError.status(), 500);
    assert_eq!(ErrorKind::InternalError.status(), 500);
    assert_eq!(STATUS_OK, 200);
    assert_eq!(STATUS_BAD_REQUEST, 400);
    assert_eq!(STATUS_NOT_FOUND, 404);
    assert_eq!(STATUS_INTERNAL_ERROR, 500);
}

#[test]
fn only_a_missing_key_is_the_callers_error() {
    assert!(ErrorKind::NotFound.is_client_error());
    assert!(!ErrorKind::ServiceError.is_client_error());
    assert!(!ErrorKind::TransportError.is_client_error());
    assert!(!ErrorKind::InternalError.is_client_error());
}

#[test]
fn a_write_never_fails_as_not_found() {
    assert_eq!(ErrorKind::NotFound.on_write(), ErrorKind::ServiceError);
    assert_eq!(ErrorKind::ServiceError.on_write(), ErrorKind::ServiceError);
    assert_eq!(ErrorKind::TransportError.on_write(), ErrorKind::TransportError);
    assert_eq!(ErrorKind::InternalError.on_write(), ErrorKind::InternalError);
}

#[test]
fn faults_are_classified() {
    assert_eq!(classify(StoreFault::Service { no_such_key: true }), ErrorKind::NotFound);
    assert_eq!(classify(StoreFault::Service { no_such_key: false }), ErrorKind::ServiceError);
    assert_eq!(classify(StoreFault::Dispatch), ErrorKind::TransportError);
    assert_eq!(classify(StoreFault::Timeout), ErrorKind::TransportError);
    assert_eq!(classify(StoreFault::Response), ErrorKind::TransportError);
    assert_eq!(classify(StoreFault::Body), ErrorKind::TransportError);
    assert_eq!(classify(StoreFault::Construction), ErrorKind::InternalError);
}

#[test]
fn ledger_settles_each_key_as_often_as_requested() {
    let keys = vec!["a".to_string(), "b".to_string(), "a".to_string()];
    let mut ledger = FetchLedger::new(keys);
    assert_eq!(ledger.outstanding(), 3);
    assert!(!ledger.is_settled());
    assert!(!ledger.settle(&"c".to_string()));
    assert_eq!(ledger.outstanding(), 3);
    assert!(ledger.settle(&"a".to_string()));
    assert!(ledger.settle(&"b".to_string()));
    assert!(!ledger.settle(&"b".to_string()));
    assert!(ledger.settle(&"a".to_string()));
    assert!(!ledger.settle(&"a".to_string()));
    assert_eq!(ledger.outstanding(), 0);
    assert!(ledger.is_settled());
}

#[test]
fn ledger_of_no_keys_is_settled() {
    let ledger = FetchLedger::new(Vec::new());
    assert!(ledger.is_settled());
    assert_eq!(ledger.outstanding(), 0);
}

#[test]
fn cloned_keys_are_the_keys() {
    let keys = vec!["a.txt".to_string(), "".to_string(), "b/c.txt".to_string()];
    assert_eq!(clone_keys(&keys), keys);
}
