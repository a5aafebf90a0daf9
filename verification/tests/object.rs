//! Object hashes.

use io_replica::object::ReplicaHash;

#[test]
fn hash_converts_from_owned_and_borrowed_strings() {
    let owned = ReplicaHash::from(String::from("abc"));
    let borrowed = ReplicaHash::from("abc");
    assert_eq!(owned, borrowed);
    assert_eq!(owned.as_str(), "abc");
}
