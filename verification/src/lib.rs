//! A verified model of the shader/program/uniform lifecycle of a small
//! rendering pipeline.
//!
//! The driver itself (shader compilation, program linking, uniform uploads)
//! lives outside this crate: callers perform the driver calls and hand the
//! reported outcomes back as plain values. This crate makes every decision in
//! that lifecycle — whether a compile or link succeeded, how names resolve to
//! locations, which program is bound, and what each uniform currently holds —
//! and proves those decisions correct against an explicit model of the
//! driver-side state.

pub mod context;
pub mod frame;
pub mod geometry;
pub mod program;
pub mod shader;
pub mod stage;
pub mod uniform;
