//! Verified integral logic of adaptive multiscale particle training: buffer
//! plans and gradient-reduction shapes, snapshot schedules, seed derivations,
//! material layouts, merge selection and the validation of batches and
//! configurations.

pub mod closure_audit;
pub mod deployment_on_policy;
pub mod dual_mlp;
pub mod error;
pub mod mixing;
pub mod mlp;
pub mod multiscale_dataset;
pub mod multiscale_on_policy;
pub mod recurrent_replay;
pub mod restriction_dataset;
pub mod rule_dataset;
pub mod schedule;
pub mod target2d;
pub mod text;
pub mod training;
