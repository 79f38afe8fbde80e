//! Discovery and ranking of system audio capture endpoints, and the state
//! machine that supervises the external streaming process built for them.
//!
//! The library parses the block-structured endpoint listing of the host
//! audio subsystem, classifies and ranks the endpoints by a deterministic
//! priority policy, builds the argument vectors for the external
//! encode/transport process, and decides every lifecycle transition of the
//! supervised child; the surrounding runtime performs the actual queries,
//! launches and signals, and reports what it observed.

pub mod audio;
pub mod config;
pub mod supervisor;
pub mod text;
