//! Core of a collaborative retrospective-board service.
//!
//! A board holds categorized notes ("items") that move through a small
//! lifecycle: created, highlighted, completed, archived.  The interesting
//! logic — and what this crate verifies — is the status transition engine
//! together with the board store it runs against: at most one active item
//! per board may be highlighted at any time, toggling is an atomic
//! conditional transition, completion of a whole board is detected, and
//! archival cascades over a board's items.
//!
//! The store keeps plain records and a monotone allocation counter; the
//! counter doubles as a logical creation clock, so creation order and
//! creation-time order coincide.  HTTP handling and HTML rendering sit
//! outside this crate and only call into it with plain values.

pub mod lemmas;
pub mod models;
pub mod store;
