//! Sandboxed script execution with deterministic replay of network capability
//! calls.
//!
//! A submitted script runs twice: a first pass discovers which network calls
//! the script wants to make, the host performs all of them, and a second pass
//! replays the script with the capability function answering from a cache
//! keyed by a canonical, order-independent serialization of each call's
//! arguments. This crate holds the verified core of that design: the JSON
//! data model, the canonical key encoder, the fetch-outcome normalization,
//! the replay cache, and the orchestrator's state machine. The surrounding
//! interpreter embedding and network I/O live outside the verified core.

pub mod boundary;
pub mod cache;
pub mod canon;
pub mod descriptor;
pub mod fetch;
pub mod json;
pub mod orchestrator;
pub mod ser;
