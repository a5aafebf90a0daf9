//! Collection identifiers.

use io_replica::collection::ReplicaCollectionId;

#[test]
fn id_converts_from_owned_and_borrowed_strings() {
    let owned = ReplicaCollectionId::from(String::from("inbox"));
    let borrowed = ReplicaCollectionId::from("inbox");
    assert_eq!(owned, borrowed);
    assert_eq!(owned.as_str(), "inbox");
}
