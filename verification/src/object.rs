//! The logical item content, content-addressed and stored once.
//!
//! An object is one of the two identity axes (see [`crate::placement`] for
//! the other). Where an item's content is immutable the object never
//! changes; where it is mutable an edit is simply a new object (new hash)
//! and the old one is dereferenced. Many placements may point at one
//! object: this is the dedup and unified-view mechanism.

use vstd::prelude::*;

use crate::order::Text;
use crate::sorted::ReplicaId;
use crate::value::{ReplicaSame, ReplicaValue};

verus! {

/// The byte-exact identity of an object, naming it in the object store.
///
/// A collision-resistant content hash (for example truncated SHA-256).
/// Size is a valid cheap pre-check only: identical bytes have identical
/// size, but equal size does not imply equal bytes.
#[derive(Debug, Eq, Hash, Ord, PartialEq, PartialOrd)]
pub struct ReplicaHash(pub String);

impl View for ReplicaHash {
    type V = Text;

    open spec fn view(&self) -> Text {
        self.0@
    }
}

impl DeepView for ReplicaHash {
    type V = Text;

    open spec fn deep_view(&self) -> Text {
        self.0@
    }
}

impl ReplicaHash {
    /// Borrows the hash as a string slice.
    pub fn as_str(&self) -> (r: &str)
        ensures
            r@ == self@,
    {
        self.0.as_str()
    }
}

impl Clone for ReplicaHash {
    fn clone(&self) -> (r: Self)
        ensures
            r@ == self@,
    {
        ReplicaHash(self.0.clone())
    }
}

impl From<&str> for ReplicaHash {
    fn from(value: &str) -> (r: Self)
        ensures
            r@ == value@,
    {
        ReplicaHash(value.to_owned())
    }
}

impl vstd::std_specs::convert::FromSpecImpl<&str> for ReplicaHash {
    open spec fn obeys_from_spec() -> bool {
        false
    }

    open spec fn from_spec(value: &str) -> Self {
        arbitrary()
    }
}

impl From<String> for ReplicaHash {
    fn from(value: String) -> (r: Self)
        ensures
            r@ == value@,
    {
        ReplicaHash(value)
    }
}

impl vstd::std_specs::convert::FromSpecImpl<String> for ReplicaHash {
    open spec fn obeys_from_spec() -> bool {
        true
    }

    open spec fn from_spec(value: String) -> Self {
        ReplicaHash(value)
    }
}

impl ReplicaId for ReplicaHash {
    fn text(&self) -> (r: &str) {
        self.0.as_str()
    }

    fn again(&self) -> (r: Self) {
        self.clone()
    }
}

impl ReplicaValue for ReplicaHash {
    fn copied(&self) -> (r: Self) {
        self.clone()
    }
}

impl ReplicaSame for ReplicaHash {
    fn same(&self, other: &Self) -> (r: bool) {
        self.0 == other.0
    }
}

/// A stored object: its content hash and byte size.
///
/// The bytes live out of band at `blobdir/<hash>`; the store keeps a
/// refcount so copy, move and undelete are reference edits.
#[derive(Debug, Eq, PartialEq)]
pub struct ReplicaObject {
    /// The content hash naming the bytes.
    pub hash: ReplicaHash,
    /// The byte size of the content.
    pub size: usize,
}

/// What a [`ReplicaObject`] stands for.
#[verifier::ext_equal]
pub struct ObjectView {
    pub hash: Text,
    pub size: usize,
}

impl View for ReplicaObject {
    type V = ObjectView;

    open spec fn view(&self) -> ObjectView {
        ObjectView { hash: self.hash@, size: self.size }
    }
}

impl Clone for ReplicaObject {
    fn clone(&self) -> (r: Self)
        ensures
            r@ == self@,
    {
        ReplicaObject { hash: self.hash.clone(), size: self.size }
    }
}

} // verus!
