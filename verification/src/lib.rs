//! Bounded, validated bridging of secret terminal input.
//!
//! The platform's echo-disabled line reader fills a caller-sized byte buffer
//! and reports how many bytes it wrote. This crate owns everything around that
//! call that can be reasoned about: allocating the zeroed transfer buffer,
//! clamping the reported count to the caller's byte bound, and turning the
//! resulting byte run into text, rejecting runs that truncation has cut inside
//! a multi-byte character instead of returning lossy output.

pub mod encoding;
pub mod secret;
