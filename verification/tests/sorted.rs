//! The ordered collections the engine keeps its state in.

use io_replica::order::{compare, Side};
use io_replica::placement::ReplicaHandle;
use io_replica::sorted::{ReplicaMap, ReplicaSet};

fn handle(text: &str) -> ReplicaHandle {
    ReplicaHandle::from(text)
}

#[test]
fn texts_order_by_their_bytes() {
    assert_eq!(compare("a", "b"), Side::Before);
    assert_eq!(compare("b", "a"), Side::After);
    assert_eq!(compare("a", "a"), Side::Same);
    assert_eq!(compare("", "a"), Side::Before);
    assert_eq!(compare("a", "aa"), Side::Before);
    assert_eq!(compare("10", "9"), Side::Before);
    assert_eq!(compare("é", "z"), Side::After);
    assert_eq!(compare("Z", "a"), Side::Before);
}

#[test]
fn a_map_keeps_its_identifiers_ascending() {
    let mut map = ReplicaMap::new();
    for text in ["b", "a", "c"] {
        assert!(map.insert(handle(text), text.to_string()).is_none());
    }
    assert_eq!(map.len(), 3);
    assert_eq!(map.key_at(0), &handle("a"));
    assert_eq!(map.key_at(2), &handle("c"));
    assert_eq!(map.value_at(1), "b");
}

#[test]
fn a_map_replaces_and_returns_what_it_held() {
    let mut map = ReplicaMap::new();
    map.insert(handle("a"), "one".to_string());
    assert_eq!(map.insert(handle("a"), "two".to_string()), Some("one".to_string()));
    assert_eq!(map.len(), 1);
    assert_eq!(map.get(&handle("a")), Some(&"two".to_string()));
    *map.get_mut(&handle("a")).unwrap() = "three".to_string();
    assert_eq!(map.value_at(0), "three");
    assert!(map.get_mut(&handle("b")).is_none());
}

#[test]
fn a_map_gives_out_what_is_removed() {
    let mut map = ReplicaMap::new();
    map.insert(handle("a"), "one".to_string());
    map.insert(handle("b"), "two".to_string());
    assert_eq!(map.remove(&handle("c")), None);
    assert_eq!(map.take_at(0), (handle("a"), "one".to_string()));
    assert!(!map.contains_key(&handle("a")));
    assert_eq!(map.remove(&handle("b")), Some("two".to_string()));
    assert!(map.is_empty());
}

#[test]
fn a_set_holds_each_identifier_once() {
    let mut set = ReplicaSet::new();
    assert!(set.insert(handle("b")));
    assert!(set.insert(handle("a")));
    assert!(!set.insert(handle("b")));
    assert_eq!(set.len(), 2);
    assert_eq!(set.at(0), &handle("a"));
    assert!(set.contains_text("b"));
    assert!(set.remove(&handle("b")));
    assert!(!set.remove(&handle("b")));
    assert!(!set.contains(&handle("b")));
}

#[test]
fn sets_are_the_same_whatever_order_they_were_filled_in() {
    let (mut a, mut b) = (ReplicaSet::new(), ReplicaSet::new());
    for text in ["x", "y", "z"] {
        a.insert(handle(text));
    }
    for text in ["z", "x", "y"] {
        b.insert(handle(text));
    }
    assert!(a.same(&b));
    assert_eq!(a, b.clone());
    b.remove(&handle("z"));
    assert!(!a.same(&b));
}
