//! A mailbox, address book or calendar: the id the engine scopes every
//! verb to, and the opaque token it round-trips between the two seams.

use vstd::prelude::*;

use crate::order::Text;
use crate::sorted::ReplicaId;
use crate::value::{ReplicaSame, ReplicaValue};

verus! {

/// The account-scoped identity of a collection.
#[derive(Debug, Eq, Hash, Ord, PartialEq, PartialOrd)]
pub struct ReplicaCollectionId(pub String);

impl View for ReplicaCollectionId {
    type V = Text;

    open spec fn view(&self) -> Text {
        self.0@
    }
}

impl DeepView for ReplicaCollectionId {
    type V = Text;

    open spec fn deep_view(&self) -> Text {
        self.0@
    }
}

impl ReplicaCollectionId {
    /// Borrows the id as a string slice.
    pub fn as_str(&self) -> (r: &str)
        ensures
            r@ == self@,
    {
        self.0.as_str()
    }
}

impl Clone for ReplicaCollectionId {
    fn clone(&self) -> (r: Self)
        ensures
            r@ == self@,
    {
        ReplicaCollectionId(self.0.clone())
    }
}

impl From<&str> for ReplicaCollectionId {
    fn from(value: &str) -> (r: Self)
        ensures
            r@ == value@,
    {
        ReplicaCollectionId(value.to_owned())
    }
}

impl vstd::std_specs::convert::FromSpecImpl<&str> for ReplicaCollectionId {
    open spec fn obeys_from_spec() -> bool {
        false
    }

    open spec fn from_spec(value: &str) -> Self {
        arbitrary()
    }
}

impl From<String> for ReplicaCollectionId {
    fn from(value: String) -> (r: Self)
        ensures
            r@ == value@,
    {
        ReplicaCollectionId(value)
    }
}

impl vstd::std_specs::convert::FromSpecImpl<String> for ReplicaCollectionId {
    open spec fn obeys_from_spec() -> bool {
        true
    }

    open spec fn from_spec(value: String) -> Self {
        ReplicaCollectionId(value)
    }
}

impl ReplicaId for ReplicaCollectionId {
    fn text(&self) -> (r: &str) {
        self.0.as_str()
    }

    fn again(&self) -> (r: Self) {
        self.clone()
    }
}

impl ReplicaValue for ReplicaCollectionId {
    fn copied(&self) -> (r: Self) {
        self.clone()
    }
}

impl ReplicaSame for ReplicaCollectionId {
    fn same(&self, other: &Self) -> (r: bool) {
        self.0 == other.0
    }
}

/// An opaque per-collection sync token.
///
/// A QRESYNC pack, a JMAP state string or a WebDAV sync-token, never
/// inspected by the engine, only round-tripped between the two seams.
#[derive(Debug, Eq, PartialEq)]
pub struct ReplicaCheckpoint(pub Vec<u8>);

impl View for ReplicaCheckpoint {
    type V = Seq<u8>;

    open spec fn view(&self) -> Seq<u8> {
        self.0@
    }
}

impl DeepView for ReplicaCheckpoint {
    type V = Seq<u8>;

    open spec fn deep_view(&self) -> Seq<u8> {
        self.0@
    }
}

impl Clone for ReplicaCheckpoint {
    fn clone(&self) -> (r: Self)
        ensures
            r@ == self@,
    {
        let bytes = self.0.copied();
        assert(bytes@ =~= bytes.deep_view());
        assert(self.0@ =~= self.0.deep_view());
        ReplicaCheckpoint(bytes)
    }
}

impl Default for ReplicaCheckpoint {
    fn default() -> (r: Self)
        ensures
            r@ == Seq::<u8>::empty(),
    {
        ReplicaCheckpoint(Vec::new())
    }
}

impl ReplicaValue for ReplicaCheckpoint {
    fn copied(&self) -> (r: Self) {
        self.clone()
    }
}

} // verus!
