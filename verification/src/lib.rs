//! Core of a small service-registry agent: a hybrid logical clock that issues
//! causally ordered timestamps, the monotonic sampler it reads physical time
//! from, and a reconciler that applies last-writer-wins merging of stamped
//! service records.
pub mod discovery;
pub mod hlc;
pub mod syncer;
pub mod timer;
