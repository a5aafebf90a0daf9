//! # io-replica
//!
//! I/O-free offline-first replica engine. It maintains a local replica of
//! remote collections of items (mail first, contacts and calendar next),
//! usable fully offline, and reconciles that replica with the remote
//! through a three-way merge against a stored base. Sync is a consequence
//! of offline editing, not the primary goal.
//!
//! The engine owns no wire protocol and no on-disk format: it speaks two
//! seams, [`remote`] and [`storage`], both expressed as coroutine yields,
//! so a consumer wires it to whatever it likes. It comes in two layers:
//! the coroutine core, and a blocking driver in [`client`].
//!
//! ## Two identity axes, never collapsed
//!
//! The engine separates what an item is from where it sits, and never
//! folds the two together; this split is what makes dedup, the unified
//! across-collections view and a safe partial cache fall out for free.
//! An [`object::ReplicaObject`] is the content-addressed body, stored
//! once. A [`placement::ReplicaPlacement`] is one item's presence in one
//! collection, pinned through a protocol [`placement::ReplicaHandle`] (an
//! IMAP UID, a WebDAV href, a JMAP id, always a string). Many placements
//! may point at one object, keyed across collections by a stable
//! [`placement::ReplicaLinkId`] (a Message-ID header, a vCard or
//! iCalendar UID), so a copied or shared item is fetched and stored once.
//!
//! Each placement sits at one rung of a strict level ladder
//! ([`placement::ReplicaLevel`]), each rung including the one below:
//! probed (the handle is known, and the spine is kept complete per
//! collection), meta (a minimal summary cached), and full (linked to a
//! stored object body). The completeness of the probed spine plus the
//! per-placement [`placement::ReplicaBase`], not the presence of a cached
//! body, is what tells deleted from not-cached, and keeps a partial body
//! cache safe to sync.
//!
//! ## The five verbs
//!
//! Every verb is a state machine implementing the contract in
//! [`coroutine`]. [`open`] loads a collection with no network,
//! [`upgrade`] pulls a higher level (deduping against the object store
//! before fetching a body), [`mutate`] writes flags, content or
//! membership locally and marks the placement dirty, [`sync`] reconciles
//! a collection against its remote, and [`rekey`] rebuilds a collection
//! after a handle-space change (an IMAP UIDVALIDITY bump) carrying the
//! cache and pending state over by link id. [`hub`] shares one item
//! between several sources, each with a base of its own.
//!
//! ## The three-way merge
//!
//! [`sync`] loads local state, enumerates the remote (full or
//! incremental), then merges local, base and remote per placement, keyed
//! on the handle, comparing per-placement identities (the flag set, and
//! for mutable-content backends a content revision) rather than raw
//! bytes. Flags merge element-wise and never conflict: the side that
//! changed a flag wins for that flag. An edit beats a delete in both
//! directions: a remote update resurrects a local tombstone, and a local
//! staged edit survives a remote delete as a pending create. Diverging
//! content is marked conflicted, carrying the observed remote revision,
//! for the consumer to merge and resolve with an edit.
//!
//! A push is always confirmed before local state is rewritten: the merge
//! holds the derived change and waits for the remote outcome, rebasing on
//! accept and retrying on reject. Holding a delete until the server
//! confirms is what keeps an incremental replica from permanently
//! desyncing.
//!
//! ## What is proved
//!
//! Each verb has a view and a step function from view and reply to view
//! and step, and `resume` is proved to take exactly that step; the driver
//! is proved to follow the steps and never to break the coroutine
//! contract. [`laws`] states what the engine keeps as a whole, over those
//! same functions. [`order`], [`sorted`], [`value`] and [`digest`] are
//! what the rest is built on.

use vstd::prelude::*;

pub mod change;
pub mod client;
pub mod collection;
pub mod coroutine;
pub mod digest;
pub mod hub;
pub mod laws;
pub mod mutate;
pub mod object;
pub mod open;
pub mod order;
pub mod placement;
pub mod rekey;
pub mod remote;
pub mod sorted;
pub mod storage;
pub mod sync;
pub mod upgrade;
pub mod value;

verus! {

} // verus!
