//! Payloads exchanged with the storage seam.
//!
//! Symmetric to [`crate::remote`]: the consumer satisfies storage by
//! reading and writing its index plus blob store (sqlite plus a blob dir
//! in the reference store). These types are what the read capabilities
//! return; writes travel as [`crate::change::ReplicaWriteOp`].

use vstd::prelude::*;

use crate::collection::ReplicaCheckpoint;
use crate::order::Text;
use crate::placement::{PlacementView, ReplicaHandle, ReplicaLinkId, ReplicaPlacement};
use crate::value::ReplicaValue;

verus! {

/// Which of a collection's placements a load has to return.
///
/// Most verbs read a handful of rows and merge nothing: a mutation reads
/// the one placement it edits, an upgrade the ones it raises. Only the
/// merge and the rebuild need the whole collection, because only they
/// reason about what is *missing* from it.
///
/// A scope is a floor, not a ceiling: a storage SHALL return at least the
/// placements named here and MAY return more, so returning the whole
/// collection is always correct, just as expensive as it sounds. Under-
/// delivering is not: a mutation that cannot see a colliding link id
/// creates a duplicate.
#[derive(Debug, Eq, PartialEq)]
pub enum ReplicaLoadScope {
    /// Every placement of the collection.
    All,
    /// The placements holding these handles.
    Handles(Vec<ReplicaHandle>),
    /// Every placement holding one of these link ids, however many rows that
    /// is: the reads that ask about an identity rather than about a location,
    /// and so have to see every row that claims it.
    Links(Vec<ReplicaLinkId>),
}

/// What a [`ReplicaLoadScope`] stands for.
#[verifier::ext_equal]
pub enum LoadScopeView {
    All,
    Handles(Seq<Text>),
    Links(Seq<Text>),
}

impl View for ReplicaLoadScope {
    type V = LoadScopeView;

    open spec fn view(&self) -> LoadScopeView {
        match self {
            ReplicaLoadScope::All => LoadScopeView::All,
            ReplicaLoadScope::Handles(handles) => LoadScopeView::Handles(handles.deep_view()),
            ReplicaLoadScope::Links(links) => LoadScopeView::Links(links.deep_view()),
        }
    }
}

impl Clone for ReplicaLoadScope {
    fn clone(&self) -> (r: Self)
        ensures
            r@ == self@,
    {
        match self {
            ReplicaLoadScope::All => ReplicaLoadScope::All,
            ReplicaLoadScope::Handles(handles) => ReplicaLoadScope::Handles(handles.copied()),
            ReplicaLoadScope::Links(links) => ReplicaLoadScope::Links(links.copied()),
        }
    }
}

/// A loaded collection: its placements and its last checkpoint.
///
/// The reply to a load; handed straight to the UI for a fully offline
/// open.
#[derive(Debug, Eq, PartialEq)]
pub struct ReplicaLoaded {
    /// Every placement currently stored for the collection.
    pub placements: Vec<ReplicaPlacement>,
    /// The last sync checkpoint, if ever synced.
    pub checkpoint: Option<ReplicaCheckpoint>,
}

/// What a [`ReplicaLoaded`] stands for.
#[verifier::ext_equal]
pub struct LoadedView {
    pub placements: Seq<PlacementView>,
    pub checkpoint: Option<Seq<u8>>,
}

impl View for ReplicaLoaded {
    type V = LoadedView;

    open spec fn view(&self) -> LoadedView {
        LoadedView {
            placements: self.placements.deep_view(),
            checkpoint: self.checkpoint.deep_view(),
        }
    }
}

impl DeepView for ReplicaLoaded {
    type V = LoadedView;

    open spec fn deep_view(&self) -> LoadedView {
        self.view()
    }
}

impl Clone for ReplicaLoaded {
    fn clone(&self) -> (r: Self)
        ensures
            r@ == self@,
    {
        ReplicaLoaded {
            placements: self.placements.copied(),
            checkpoint: self.checkpoint.copied(),
        }
    }
}

impl ReplicaValue for ReplicaLoaded {
    fn copied(&self) -> (r: Self) {
        self.clone()
    }
}

impl Default for ReplicaLoaded {
    fn default() -> (r: Self)
        ensures
            r@ == (LoadedView { placements: Seq::empty(), checkpoint: None }),
    {
        let r = ReplicaLoaded { placements: Vec::new(), checkpoint: None };
        assert(r@.placements =~= Seq::<PlacementView>::empty());
        r
    }
}

} // verus!
