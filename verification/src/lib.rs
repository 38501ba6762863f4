//! Verified core of an asset-gated scene pipeline.
//!
//! The crate models the machinery that stands between "a bundle of resources
//! was requested" and "the scene may be patched and rendered":
//!
//! * [`handle`] — opaque slot/generation handles and per-resource load states;
//! * [`bundle`] — an immutable, named bundle of handles declared once;
//! * [`tracker`] — a load-state tracker that aggregates a bundle's transitive
//!   dependency closure by worst-case ordering;
//! * [`barrier`] — a polling readiness barrier that fires its completion
//!   signal exactly once;
//! * [`descriptor`] — a fixed-shape, slot-indexed bindless descriptor table
//!   with a packed payload blob;
//! * [`scene`] — a scene-node patcher that rebinds materials on nodes whose
//!   names match a predicate.
//!
//! Asset decoding, GPU submission and scheduling are collaborators outside
//! this crate: they hand plain values in and take plain values out.

pub mod barrier;
pub mod bundle;
pub mod descriptor;
pub mod handle;
pub mod scene;
pub mod tracker;
