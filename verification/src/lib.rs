//! Bridge logic between an external OSC control surface and a SuperCollider
//! server process: a tagged-envelope dispatch protocol, a node-identity
//! registry with pattern search, translation of the accepted command kinds
//! into the server's wire protocol, and an offline (NRT) timeline compiler
//! that renders a batch of timed commands as a deterministic score.
//!
//! Everything that decides or computes lives here and is verified; sockets,
//! files and the supervised server process are driven by a thin unverified
//! shell that only performs the actions this library hands it.
pub mod config;
pub mod dec;
pub mod dispatch;
pub mod envelope;
pub mod internal_osc_conversion;
pub mod model;
pub mod node_lookup;
pub mod nrt_record;
pub mod osc;
pub mod osc_daemon;
pub mod osc_model;
pub mod sample_sorting;
pub mod samples;
pub mod sampling;
pub mod scd_templating;
pub mod strutil;
