//! A stateless, payload-steered UDP packet router: the frame rewriter of the
//! data plane and the decisions of its control plane.
pub mod attach;
pub mod checksum;
pub mod classify;
pub mod cli;
pub mod control;
pub mod fields;
pub mod rewriter;
pub mod wire;
