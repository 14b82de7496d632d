//! dmrlet: a single-node orchestrator core that places inference workers onto
//! a bounded pool of GPUs and ports, and keeps each deployment's workers
//! reconciled with its desired replica count.
//!
//! Every executable function here carries a contract that Verus proves. The
//! few calls into other crates and into std that Verus has no specification
//! for (identifiers, the clock, number and identifier formatting, lower-casing,
//! Unicode classes, hashing) sit behind small trusted functions whose
//! contracts state what those functions document.

mod stamp;
pub mod text;
pub mod api;
pub mod balancer;
pub mod cache;
pub mod config;
pub mod discovery;
pub mod error;
pub mod gpu;
pub mod gpu_allocator;
pub mod model;
pub mod oci;
pub mod placement;
pub mod pool;
pub mod runtime;
pub mod scheduler;

pub use error::{DmrletError, DmrletResult};
pub use text::{decimal, uuid_text};
