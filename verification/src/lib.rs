//! Core of a minimal paste-storage service: identifier generation and
//! textual encoding, the entry lifecycle (creation, lazy expiry,
//! burn-after-reading, password gating), and a bounded least-recently-used
//! cache for rendered output.
pub mod cache;
pub mod errors;
pub mod id;
pub mod password;
pub mod render;
pub mod service;
pub mod store;
