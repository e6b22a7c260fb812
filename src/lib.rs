//! Verified core of a test-container toolkit: deciding when an image must be
//! rebuilt, assembling build contexts, polling with backoff and turning what
//! the container engine reports into decisions.

pub mod backoff;
pub mod context;
pub mod direction;
pub mod engine;
pub mod error;
pub mod hex;
pub mod options;
pub mod registry;
pub mod string_map;
pub mod text;
