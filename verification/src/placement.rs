//! An item's presence in one collection: handle, link id, level, flags
//! and sync base.
//!
//! A placement is one of the two identity axes (see [`crate::object`] for
//! the other). It pins a logical item to a single collection through the
//! protocol [`ReplicaHandle`], carries the per-location mutable state (flags,
//! membership), records the detail [`ReplicaLevel`], and holds the
//! [`ReplicaBase`] the three-way merge reconciles against.

use vstd::prelude::*;

use crate::collection::ReplicaCollectionId;
use crate::object::ReplicaHash;
use crate::order::{ascending, lemma_ascending, lemma_take_more, Text};
use crate::sorted::{ReplicaId, ReplicaSet};
use crate::value::{ReplicaSame, ReplicaValue};

verus! {

/// The protocol's per-collection location of an item.
///
/// IMAP uidvalidity plus uid, WebDAV href, JMAP id; always a string so
/// non-integer ids are a non-issue. Identifies a placement within its
/// collection.
#[derive(Debug, Eq, Hash, Ord, PartialEq, PartialOrd)]
pub struct ReplicaHandle(pub String);

impl View for ReplicaHandle {
    type V = Text;

    open spec fn view(&self) -> Text {
        self.0@
    }
}

impl DeepView for ReplicaHandle {
    type V = Text;

    open spec fn deep_view(&self) -> Text {
        self.0@
    }
}

impl ReplicaHandle {
    /// Borrows the handle as a string slice.
    pub fn as_str(&self) -> (r: &str)
        ensures
            r@ == self@,
    {
        self.0.as_str()
    }
}

impl Clone for ReplicaHandle {
    fn clone(&self) -> (r: Self)
        ensures
            r@ == self@,
    {
        ReplicaHandle(self.0.clone())
    }
}

impl From<&str> for ReplicaHandle {
    fn from(value: &str) -> (r: Self)
        ensures
            r@ == value@,
    {
        ReplicaHandle(value.to_owned())
    }
}

impl vstd::std_specs::convert::FromSpecImpl<&str> for ReplicaHandle {
    open spec fn obeys_from_spec() -> bool {
        false
    }

    open spec fn from_spec(value: &str) -> Self {
        arbitrary()
    }
}

impl From<String> for ReplicaHandle {
    fn from(value: String) -> (r: Self)
        ensures
            r@ == value@,
    {
        ReplicaHandle(value)
    }
}

impl vstd::std_specs::convert::FromSpecImpl<String> for ReplicaHandle {
    open spec fn obeys_from_spec() -> bool {
        true
    }

    open spec fn from_spec(value: String) -> Self {
        ReplicaHandle(value)
    }
}

impl ReplicaId for ReplicaHandle {
    fn text(&self) -> (r: &str) {
        self.0.as_str()
    }

    fn again(&self) -> (r: Self) {
        self.clone()
    }
}

impl ReplicaValue for ReplicaHandle {
    fn copied(&self) -> (r: Self) {
        self.clone()
    }
}

impl ReplicaSame for ReplicaHandle {
    fn same(&self, other: &Self) -> (r: bool) {
        self.0 == other.0
    }
}

/// The logical-item identity used to group copies and map across
/// protocols.
///
/// A source global id (a provider message id, a JMAP id), else a stable
/// content id (the Message-ID header, the vCard or iCalendar UID). Never
/// derived from a size or other per-copy value a provider may rewrite.
#[derive(Debug, Eq, Hash, Ord, PartialEq, PartialOrd)]
pub struct ReplicaLinkId(pub String);

impl View for ReplicaLinkId {
    type V = Text;

    open spec fn view(&self) -> Text {
        self.0@
    }
}

impl DeepView for ReplicaLinkId {
    type V = Text;

    open spec fn deep_view(&self) -> Text {
        self.0@
    }
}

impl ReplicaLinkId {
    /// Borrows the link id as a string slice.
    pub fn as_str(&self) -> (r: &str)
        ensures
            r@ == self@,
    {
        self.0.as_str()
    }
}

impl Clone for ReplicaLinkId {
    fn clone(&self) -> (r: Self)
        ensures
            r@ == self@,
    {
        ReplicaLinkId(self.0.clone())
    }
}

impl From<&str> for ReplicaLinkId {
    fn from(value: &str) -> (r: Self)
        ensures
            r@ == value@,
    {
        ReplicaLinkId(value.to_owned())
    }
}

impl vstd::std_specs::convert::FromSpecImpl<&str> for ReplicaLinkId {
    open spec fn obeys_from_spec() -> bool {
        false
    }

    open spec fn from_spec(value: &str) -> Self {
        arbitrary()
    }
}

impl From<String> for ReplicaLinkId {
    fn from(value: String) -> (r: Self)
        ensures
            r@ == value@,
    {
        ReplicaLinkId(value)
    }
}

impl vstd::std_specs::convert::FromSpecImpl<String> for ReplicaLinkId {
    open spec fn obeys_from_spec() -> bool {
        true
    }

    open spec fn from_spec(value: String) -> Self {
        ReplicaLinkId(value)
    }
}

impl ReplicaId for ReplicaLinkId {
    fn text(&self) -> (r: &str) {
        self.0.as_str()
    }

    fn again(&self) -> (r: Self) {
        self.clone()
    }
}

impl ReplicaValue for ReplicaLinkId {
    fn copied(&self) -> (r: Self) {
        self.clone()
    }
}

impl ReplicaSame for ReplicaLinkId {
    fn same(&self, other: &Self) -> (r: bool) {
        self.0 == other.0
    }
}

/// Where an item sorts among its siblings: a projection of its content,
/// compared as a string.
///
/// Empty where nothing has derived one yet.
#[derive(Debug, Eq, Hash, Ord, PartialEq, PartialOrd)]
pub struct ReplicaSortKey(pub String);

impl View for ReplicaSortKey {
    type V = Text;

    open spec fn view(&self) -> Text {
        self.0@
    }
}

impl DeepView for ReplicaSortKey {
    type V = Text;

    open spec fn deep_view(&self) -> Text {
        self.0@
    }
}

impl ReplicaSortKey {
    /// Borrows the key as a string slice.
    pub fn as_str(&self) -> (r: &str)
        ensures
            r@ == self@,
    {
        self.0.as_str()
    }
}

impl Clone for ReplicaSortKey {
    fn clone(&self) -> (r: Self)
        ensures
            r@ == self@,
    {
        ReplicaSortKey(self.0.clone())
    }
}

impl From<&str> for ReplicaSortKey {
    fn from(value: &str) -> (r: Self)
        ensures
            r@ == value@,
    {
        ReplicaSortKey(value.to_owned())
    }
}

impl vstd::std_specs::convert::FromSpecImpl<&str> for ReplicaSortKey {
    open spec fn obeys_from_spec() -> bool {
        false
    }

    open spec fn from_spec(value: &str) -> Self {
        arbitrary()
    }
}

impl From<String> for ReplicaSortKey {
    fn from(value: String) -> (r: Self)
        ensures
            r@ == value@,
    {
        ReplicaSortKey(value)
    }
}

impl vstd::std_specs::convert::FromSpecImpl<String> for ReplicaSortKey {
    open spec fn obeys_from_spec() -> bool {
        true
    }

    open spec fn from_spec(value: String) -> Self {
        ReplicaSortKey(value)
    }
}

impl ReplicaId for ReplicaSortKey {
    fn text(&self) -> (r: &str) {
        self.0.as_str()
    }

    fn again(&self) -> (r: Self) {
        self.clone()
    }
}

impl ReplicaValue for ReplicaSortKey {
    fn copied(&self) -> (r: Self) {
        self.clone()
    }
}

impl ReplicaSame for ReplicaSortKey {
    fn same(&self, other: &Self) -> (r: bool) {
        self.0 == other.0
    }
}

impl ReplicaSortKey {
    /// Reports whether nothing has derived the key yet.
    pub fn is_unknown(&self) -> (r: bool)
        ensures
            r == (self@.len() == 0),
    {
        let empty = String::new();
        let same = self.0 == empty;
        assert(same == (self@ =~= empty@));
        same
    }
}

impl Default for ReplicaSortKey {
    fn default() -> (r: Self)
        ensures
            r@ == Seq::<char>::empty(),
    {
        ReplicaSortKey(String::new())
    }
}

/// A minimal cached summary: enough for a list row and to resolve the
/// link id without a body.
///
/// Opaque to the engine (json in the reference store: sender, title, date
/// and the like; projected from the body where the backend has no cheap
/// summary tier).
#[derive(Debug, Eq, PartialEq)]
pub struct ReplicaMeta(pub String);

impl View for ReplicaMeta {
    type V = Text;

    open spec fn view(&self) -> Text {
        self.0@
    }
}

impl DeepView for ReplicaMeta {
    type V = Text;

    open spec fn deep_view(&self) -> Text {
        self.0@
    }
}

impl Clone for ReplicaMeta {
    fn clone(&self) -> (r: Self)
        ensures
            r@ == self@,
    {
        ReplicaMeta(self.0.clone())
    }
}

impl Default for ReplicaMeta {
    fn default() -> (r: Self)
        ensures
            r@ == Seq::<char>::empty(),
    {
        ReplicaMeta(String::new())
    }
}

impl ReplicaValue for ReplicaMeta {
    fn copied(&self) -> (r: Self) {
        self.clone()
    }
}

/// An item's set of state markers, normalized by the consumer.
///
/// A plain string set so the engine stays protocol-agnostic; the consumer
/// folds equivalent spellings (for example `\Seen`, `$seen`, `seen`)
/// before they reach here. A source that has not reported the markers
/// leaves them unknown, which is not the same as reporting none.
#[derive(Debug, Eq, PartialEq)]
pub enum ReplicaFlags {
    /// The markers have not been reported.
    Unknown,
    /// The markers reported, possibly none.
    Known(ReplicaSet<String>),
}

/// What a [`ReplicaFlags`] stands for.
#[verifier::ext_equal]
pub enum FlagsView {
    Unknown,
    Known(Set<Text>),
}

impl View for ReplicaFlags {
    type V = FlagsView;

    open spec fn view(&self) -> FlagsView {
        match self {
            ReplicaFlags::Unknown => FlagsView::Unknown,
            ReplicaFlags::Known(flags) => FlagsView::Known(flags@),
        }
    }
}

impl DeepView for ReplicaFlags {
    type V = FlagsView;

    open spec fn deep_view(&self) -> FlagsView {
        self.view()
    }
}

/// The markers of a set, none where they are unknown.
pub open spec fn markers(flags: FlagsView) -> Set<Text> {
    match flags {
        FlagsView::Unknown => Set::empty(),
        FlagsView::Known(flags) => flags,
    }
}

/// The element-wise three-way merge of two marker sets: what both kept,
/// plus what either added to the base.
pub open spec fn merged_markers(base: Set<Text>, local: Set<Text>, remote: Set<Text>) -> Set<Text> {
    Set::new(
        |f: Text|
            (local.contains(f) && remote.contains(f)) || (local.contains(f) && !base.contains(f))
                || (remote.contains(f) && !base.contains(f)),
    )
}

/// The three-way merge of two flag sets. A side that has not reported its
/// markers says nothing, so the other one stands.
pub open spec fn merged_flags(base: FlagsView, local: FlagsView, remote: FlagsView) -> FlagsView {
    match (local, remote) {
        (FlagsView::Unknown, _) => remote,
        (_, FlagsView::Unknown) => local,
        (FlagsView::Known(l), FlagsView::Known(r)) => FlagsView::Known(
            merged_markers(markers(base), l, r),
        ),
    }
}

/// The set of the names listed.
pub open spec fn named(names: Seq<&str>) -> Set<Text> {
    Set::new(|t: Text| exists|i: int| 0 <= i < names.len() && (#[trigger] names[i])@ == t)
}

impl ReplicaFlags {
    /// The set of the markers listed.
    pub fn from_names(names: &[&str]) -> (r: Self)
        ensures
            r@ == FlagsView::Known(named(names@)),
    {
        let mut flags: ReplicaSet<String> = ReplicaSet::new();
        let n = names.len();
        let mut i: usize = 0;
        while i < n
            invariant
                n == names@.len(),
                i <= n,
                flags@ == named(names@.take(i as int)),
            decreases n - i,
        {
            let name = names[i];
            flags.insert(name.to_owned());
            proof {
                let (before, after) = (names@.take(i as int), names@.take(i + 1));
                assert(after[i as int] == name);
                assert forall|t: Text| #[trigger] named(after).contains(t) <==> named(
                    before,
                ).insert(name@).contains(t) by {
                    if named(before).contains(t) {
                        let j = choose|j: int| 0 <= j < before.len() && (#[trigger] before[j])@ == t;
                        assert(after[j]@ == t);
                    }
                    if named(after).contains(t) {
                        let j = choose|j: int| 0 <= j < after.len() && (#[trigger] after[j])@ == t;
                        if j < i {
                            assert(before[j]@ == t);
                        }
                    }
                }
                assert(named(after) =~= named(before).insert(name@));
            }
            i += 1;
        }
        assert(names@.take(n as int) =~= names@);
        ReplicaFlags::Known(flags)
    }

    /// Borrows the markers, `None` while they are unknown.
    pub fn known(&self) -> (r: Option<&ReplicaSet<String>>)
        ensures
            match r {
                Some(flags) => self@ == FlagsView::Known(flags@),
                None => self@ == FlagsView::Unknown,
            },
    {
        match self {
            ReplicaFlags::Unknown => None,
            ReplicaFlags::Known(flags) => Some(flags),
        }
    }

    /// Reports whether the markers have not been reported.
    pub fn is_unknown(&self) -> (r: bool)
        ensures
            r == (self@ is Unknown),
    {
        self.known().is_none()
    }

    /// Reports whether `flag` is present.
    pub fn contains(&self, flag: &str) -> (r: bool)
        ensures
            r == markers(self@).contains(flag@),
    {
        match self {
            ReplicaFlags::Unknown => false,
            ReplicaFlags::Known(flags) => flags.contains_text(flag),
        }
    }

    /// Three-way merges two flag sets element-wise against their base.
    ///
    /// Each flag is independent: the side that changed a flag's presence
    /// from the base wins for that flag, and both sides changing always
    /// agree (a presence flip from the base has only one direction), so
    /// an element-wise merge can never conflict. As set algebra the
    /// result is (local AND remote) OR (local MINUS base) OR (remote
    /// MINUS base). A side whose markers are unknown says nothing, so the
    /// other one stands.
    pub fn merge(base: &ReplicaFlags, local: &ReplicaFlags, remote: &ReplicaFlags) -> (r:
        ReplicaFlags)
        ensures
            r@ == merged_flags(base@, local@, remote@),
    {
        let locals = match local {
            ReplicaFlags::Unknown => {
                return remote.clone();
            },
            ReplicaFlags::Known(flags) => flags,
        };
        let remotes = match remote {
            ReplicaFlags::Unknown => {
                return local.clone();
            },
            ReplicaFlags::Known(flags) => flags,
        };
        let mut merged: ReplicaSet<String> = ReplicaSet::new();
        let n = locals.len();
        let ghost all = ascending(locals@);
        proof {
            lemma_ascending(locals@);
        }
        let mut i: usize = 0;
        while i < n
            invariant
                n == all.len(),
                n == locals@.len(),
                i <= n,
                all == ascending(locals@),
                forall|f: Text| #[trigger]
                    merged@.contains(f) <==> all.take(i as int).contains(f) && (remotes@.contains(f)
                        || !markers(base@).contains(f)),
            decreases n - i,
        {
            let flag = locals.at(i);
            if remotes.contains(flag) || !base.contains(flag.as_str()) {
                merged.insert(flag.clone());
            }
            proof {
                lemma_take_more(all, i as int);
            }
            i += 1;
        }
        assert(all.take(n as int) =~= all);
        let ghost kept = merged@;
        let m = remotes.len();
        let ghost others = ascending(remotes@);
        proof {
            lemma_ascending(remotes@);
        }
        i = 0;
        while i < m
            invariant
                m == others.len(),
                m == remotes@.len(),
                i <= m,
                others == ascending(remotes@),
                forall|f: Text| #[trigger]
                    merged@.contains(f) <==> kept.contains(f) || (others.take(i as int).contains(f)
                        && !markers(base@).contains(f)),
            decreases m - i,
        {
            let flag = remotes.at(i);
            if !base.contains(flag.as_str()) {
                merged.insert(flag.clone());
            }
            proof {
                lemma_take_more(others, i as int);
            }
            i += 1;
        }
        proof {
            assert(others.take(m as int) =~= others);
            assert(merged@ =~= merged_markers(markers(base@), locals@, remotes@));
        }
        ReplicaFlags::Known(merged)
    }
}

impl Clone for ReplicaFlags {
    fn clone(&self) -> (r: Self)
        ensures
            r@ == self@,
    {
        match self {
            ReplicaFlags::Unknown => ReplicaFlags::Unknown,
            ReplicaFlags::Known(flags) => ReplicaFlags::Known(flags.clone()),
        }
    }
}

impl Default for ReplicaFlags {
    fn default() -> (r: Self)
        ensures
            r@ == FlagsView::Known(Set::empty()),
    {
        ReplicaFlags::Known(ReplicaSet::new())
    }
}

impl ReplicaValue for ReplicaFlags {
    fn copied(&self) -> (r: Self) {
        self.clone()
    }
}

impl ReplicaSame for ReplicaFlags {
    fn same(&self, other: &Self) -> (r: bool) {
        match (self, other) {
            (ReplicaFlags::Unknown, ReplicaFlags::Unknown) => true,
            (ReplicaFlags::Known(a), ReplicaFlags::Known(b)) => a.same(b),
            (_, _) => false,
        }
    }
}

/// The detail level of a placement, a strict ladder where each rung
/// includes the one below.
#[derive(Clone, Copy, Debug, Eq, Ord, PartialEq, PartialOrd, Structural)]
pub enum ReplicaLevel {
    /// Handle known, nothing else; kept complete per collection.
    Probed,
    /// Minimal summary cached.
    Meta,
    /// Linked to a stored object body.
    Full,
}

/// How high a level stands on the ladder.
pub open spec fn rung(level: ReplicaLevel) -> int {
    match level {
        ReplicaLevel::Probed => 0,
        ReplicaLevel::Meta => 1,
        ReplicaLevel::Full => 2,
    }
}

/// The higher of two levels.
pub open spec fn higher(a: ReplicaLevel, b: ReplicaLevel) -> ReplicaLevel {
    if rung(a) < rung(b) {
        b
    } else {
        a
    }
}

impl ReplicaLevel {
    /// Reports whether this level stands below `other` on the ladder.
    pub fn is_below(self, other: ReplicaLevel) -> (r: bool)
        ensures
            r == (rung(self) < rung(other)),
    {
        match (self, other) {
            (ReplicaLevel::Probed, ReplicaLevel::Meta) => true,
            (ReplicaLevel::Probed, ReplicaLevel::Full) => true,
            (ReplicaLevel::Meta, ReplicaLevel::Full) => true,
            (_, _) => false,
        }
    }
}

/// How a placement relates to its sync base.
#[derive(Clone, Copy, Debug, Eq, PartialEq, Structural)]
pub enum ReplicaStatus {
    /// In sync with the base; no pending push.
    Clean,
    /// Locally changed since the base; a push is pending.
    Dirty,
    /// Locally deleted since the base; a remove is pending.
    Tombstone,
    /// Content diverged on both sides; awaiting resolution by an edit.
    /// Flags never conflict (they merge element-wise), so this is a
    /// mutable-content state only.
    Conflict,
    /// Locally created (a copy, move or append) with no remote handle yet;
    /// a create is pending. Its [`ReplicaPlacement::handle`] is a provisional
    /// placeholder until the push reconciles it to the server-assigned one.
    Created,
    /// Holds an identity its source reports under other handles too (see
    /// [`ReplicaPlacement::ambiguous_handles`]): which copy a change refers
    /// to cannot be decided, so the engine derives nothing for it.
    Ambiguous,
}

/// Where a pending create's content already lives, so the push can reuse a
/// server-side copy or move instead of re-uploading the body.
///
/// `None` on the placement means a genuine append (new content the server
/// has never seen); `Some` means the body is already a member of `collection`
/// under `handle`, so the push issues a copy or move from there.
#[derive(Debug, Eq, PartialEq)]
pub struct ReplicaOrigin {
    /// The collection the source member lives in.
    pub collection: ReplicaCollectionId,
    /// The source member's handle.
    pub handle: ReplicaHandle,
}

/// What a [`ReplicaOrigin`] stands for.
#[verifier::ext_equal]
pub struct OriginView {
    pub collection: Text,
    pub handle: Text,
}

impl View for ReplicaOrigin {
    type V = OriginView;

    open spec fn view(&self) -> OriginView {
        OriginView { collection: self.collection@, handle: self.handle@ }
    }
}

impl DeepView for ReplicaOrigin {
    type V = OriginView;

    open spec fn deep_view(&self) -> OriginView {
        self.view()
    }
}

impl Clone for ReplicaOrigin {
    fn clone(&self) -> (r: Self)
        ensures
            r@ == self@,
    {
        ReplicaOrigin { collection: self.collection.clone(), handle: self.handle.clone() }
    }
}

impl ReplicaValue for ReplicaOrigin {
    fn copied(&self) -> (r: Self) {
        self.clone()
    }
}

/// The last-synced state a placement reconciles against.
///
/// Its existence is the membership base: a based placement was a member
/// of the collection as of the last sync (`ReplicaPlacement::base` is `None`
/// until first reconciled). Where content is immutable only flags and
/// membership mutate; where it is mutable, `revision` holds the
/// last-synced content revision so an in-place edit is detected.
#[derive(Debug, Eq, PartialEq)]
pub struct ReplicaBase {
    /// Last-synced flag set.
    pub flags: ReplicaFlags,
    /// Last-synced content revision for mutable-content backends (a WebDAV
    /// etag, an MS Graph changeKey); `None` where content is immutable.
    pub revision: Option<String>,
    /// Last-synced body, kept pinned in the object store (the consumer
    /// counts it as a reference) so a content three-way merge has its base
    /// bytes even after a local edit points the placement at a new object.
    /// `None` where content is immutable (the current object is always the
    /// synced one) or while no body has been synced.
    pub object: Option<ReplicaHash>,
}

/// What a [`ReplicaBase`] stands for.
#[verifier::ext_equal]
pub struct BaseView {
    pub flags: FlagsView,
    pub revision: Option<Text>,
    pub object: Option<Text>,
}

impl View for ReplicaBase {
    type V = BaseView;

    open spec fn view(&self) -> BaseView {
        BaseView {
            flags: self.flags@,
            revision: self.revision.deep_view(),
            object: self.object.deep_view(),
        }
    }
}

impl DeepView for ReplicaBase {
    type V = BaseView;

    open spec fn deep_view(&self) -> BaseView {
        self.view()
    }
}

impl Clone for ReplicaBase {
    fn clone(&self) -> (r: Self)
        ensures
            r@ == self@,
    {
        ReplicaBase {
            flags: self.flags.clone(),
            revision: self.revision.copied(),
            object: self.object.copied(),
        }
    }
}

impl ReplicaValue for ReplicaBase {
    fn copied(&self) -> (r: Self) {
        self.clone()
    }
}

/// One item's presence in one collection.
#[derive(Debug, Eq, PartialEq)]
pub struct ReplicaPlacement {
    /// The collection this placement belongs to.
    pub collection: ReplicaCollectionId,
    /// The protocol handle within that collection.
    pub handle: ReplicaHandle,
    /// The cross-collection link id; `None` until [`ReplicaLevel::Meta`].
    pub link_id: Option<ReplicaLinkId>,
    /// The stored object body; `None` until [`ReplicaLevel::Full`].
    pub object: Option<ReplicaHash>,
    /// The current detail level.
    pub level: ReplicaLevel,
    /// The cached summary; `None` until fetched. After a remote content
    /// change the sync drops the level back to [`ReplicaLevel::Probed`] but
    /// keeps the stale summary as a display fallback until the next
    /// [`ReplicaLevel::Meta`] upgrade refetches it.
    pub meta: Option<ReplicaMeta>,
    /// Where the item sorts among its siblings.
    pub sort_key: ReplicaSortKey,
    /// The current flag set.
    pub flags: ReplicaFlags,
    /// How this placement relates to its base.
    pub status: ReplicaStatus,
    /// The remote content revision observed when the placement was marked
    /// [`ReplicaStatus::Conflict`]: what the consumer resolves against (fetch
    /// that revision's body, merge, then edit). `None` otherwise.
    pub conflict_revision: Option<String>,
    /// The body of that revision, once it has been stored; `None` while it
    /// is still wanted, and where there is no conflict.
    pub conflict_object: Option<ReplicaHash>,
    /// The last-synced base; `None` until first reconciled.
    pub base: Option<ReplicaBase>,
    /// For a [`ReplicaStatus::Created`] placement, where its body already
    /// lives so the push can copy or move it; for a tombstone, where a move
    /// takes the member. `None` otherwise (and for an append).
    pub origin: Option<ReplicaOrigin>,
    /// The other handles its source reports this identity under; empty
    /// unless the placement is [`ReplicaStatus::Ambiguous`].
    pub ambiguous_handles: Vec<ReplicaHandle>,
}

/// What a [`ReplicaPlacement`] stands for.
#[verifier::ext_equal]
pub struct PlacementView {
    pub collection: Text,
    pub handle: Text,
    pub link_id: Option<Text>,
    pub object: Option<Text>,
    pub level: ReplicaLevel,
    pub meta: Option<Text>,
    pub sort_key: Text,
    pub flags: FlagsView,
    pub status: ReplicaStatus,
    pub conflict_revision: Option<Text>,
    pub conflict_object: Option<Text>,
    pub base: Option<BaseView>,
    pub origin: Option<OriginView>,
    pub ambiguous_handles: Seq<Text>,
}

impl View for ReplicaPlacement {
    type V = PlacementView;

    open spec fn view(&self) -> PlacementView {
        PlacementView {
            collection: self.collection@,
            handle: self.handle@,
            link_id: self.link_id.deep_view(),
            object: self.object.deep_view(),
            level: self.level,
            meta: self.meta.deep_view(),
            sort_key: self.sort_key@,
            flags: self.flags@,
            status: self.status,
            conflict_revision: self.conflict_revision.deep_view(),
            conflict_object: self.conflict_object.deep_view(),
            base: self.base.deep_view(),
            origin: self.origin.deep_view(),
            ambiguous_handles: self.ambiguous_handles.deep_view(),
        }
    }
}

impl DeepView for ReplicaPlacement {
    type V = PlacementView;

    open spec fn deep_view(&self) -> PlacementView {
        self.view()
    }
}

/// The body staged over the one last synced, if any.
pub open spec fn staged_edit(p: PlacementView) -> Option<Text> {
    if p.object is Some && (p.base is None || p.base->0.object != p.object) {
        p.object
    } else {
        None
    }
}

impl ReplicaPlacement {
    /// Borrows the locally staged body: the one the placement points at,
    /// where the base does not hold it.
    pub fn staged_edit(&self) -> (r: Option<&ReplicaHash>)
        ensures
            match r {
                Some(hash) => staged_edit(self@) == Some(hash@),
                None => staged_edit(self@) is None,
            },
    {
        let staged = match &self.base {
            Some(base) => !base.object.same(&self.object),
            None => true,
        };
        match &self.object {
            Some(hash) => {
                if staged {
                    Some(hash)
                } else {
                    None
                }
            },
            None => None,
        }
    }
}

impl Clone for ReplicaPlacement {
    fn clone(&self) -> (r: Self)
        ensures
            r@ == self@,
    {
        ReplicaPlacement {
            collection: self.collection.clone(),
            handle: self.handle.clone(),
            link_id: self.link_id.copied(),
            object: self.object.copied(),
            level: self.level,
            meta: self.meta.copied(),
            sort_key: self.sort_key.clone(),
            flags: self.flags.clone(),
            status: self.status,
            conflict_revision: self.conflict_revision.copied(),
            conflict_object: self.conflict_object.copied(),
            base: self.base.copied(),
            origin: self.origin.copied(),
            ambiguous_handles: self.ambiguous_handles.copied(),
        }
    }
}

impl ReplicaValue for ReplicaPlacement {
    fn copied(&self) -> (r: Self) {
        self.clone()
    }
}

} // verus!
