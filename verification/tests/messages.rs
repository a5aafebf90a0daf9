//! What each failure is reported with.

use io_replica::coroutine::ReplicaArgError;
use io_replica::mutate::ReplicaMutateError;
use io_replica::rekey::ReplicaRekeyError;

#[test]
fn an_argument_failure_names_what_the_driver_did() {
    assert_eq!(
        ReplicaArgError::UnexpectedArg.message(),
        "unexpected coroutine arg"
    );
    assert_eq!(
        ReplicaArgError::MissingArg.message(),
        "missing coroutine arg"
    );
}

#[test]
fn a_mutation_failure_names_what_was_refused() {
    assert_eq!(
        ReplicaMutateError::UnknownHandle("7".into()).message(),
        "Replica MUTATE failed: unknown handle 7"
    );
    assert_eq!(
        ReplicaMutateError::LinkExists("m1".into()).message(),
        "Replica MUTATE failed: link id already present: m1"
    );
    assert_eq!(
        ReplicaMutateError::from(ReplicaArgError::MissingArg).message(),
        ReplicaArgError::MissingArg.message()
    );
}

#[test]
fn a_rekey_failure_names_what_the_driver_did() {
    assert_eq!(
        ReplicaRekeyError::UnexpectedArg.message(),
        "Replica REKEY failed: unexpected coroutine arg"
    );
    assert_eq!(
        ReplicaRekeyError::MissingArg.message(),
        "Replica REKEY failed: missing coroutine arg"
    );
}
