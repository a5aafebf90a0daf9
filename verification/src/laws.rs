//! What holds of the engine as a whole, proved from what its functions
//! state of themselves.
//!
//! [`flags`] is the element-wise merge, [`keys`] the idempotency keys,
//! [`merging`] the decision on one handle, [`thawing`] the release of a
//! frozen one, [`joining`] the handles a run decides, [`running`] a sync
//! step by step, [`spanning`] all its steps together, [`accounting`] what
//! they do about one row and [`leaving`] what they leave alone, and
//! [`mutating`], [`upgrading`], [`fetching`], [`rekeying`] and [`sharing`]
//! the other verbs and the hub.
//! [`storing`] is what a batch leaves in a storage that applies it in order,
//! [`driving`] what each verb asks of the two seams.
//!
//! A second group tells each verb from outside, from the rows and replies it
//! is given to the writes, changes and counts it hands back: [`gathering`]
//! what a sync decides on, [`deciding`] what it decides, [`flowing`] that all
//! of it is stored, pushed and reported, [`confirming`] what an accepted
//! push leaves, [`staging`] what a mutation stores, [`raising`] what an
//! upgrade does and [`claiming`] who gets an identity it reports,
//! [`carrying`] what a rekey carries over, [`projecting`] what the hub shows
//! a source and takes back, and [`serving`] what the seams are asked for.
//! [`ordering`] is the order handles are taken in, and [`viewing`] that
//! nothing is left out of what the laws speak of.

pub mod accounting;
pub mod carrying;
pub mod claiming;
pub mod confirming;
pub mod deciding;
pub mod driving;
pub mod fetching;
pub mod flags;
pub mod flowing;
pub mod gathering;
pub mod joining;
pub mod keys;
pub mod leaving;
pub mod merging;
pub mod mutating;
pub mod ordering;
pub mod projecting;
pub mod raising;
pub mod rekeying;
pub mod running;
pub mod serving;
pub mod sharing;
pub mod spanning;
pub mod staging;
pub mod storing;
pub mod thawing;
pub mod upgrading;
pub mod viewing;
