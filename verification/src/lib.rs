//! Resonant membership: a deterministic, sans-IO kernel for converging
//! scoped belief about cluster membership, with its merge calculus,
//! residue ledger, trust standing, and transcript.

pub mod collections;
pub mod id;
pub mod order;
pub mod encode;
pub mod epoch;
pub mod hash;
pub mod scope;
pub mod text;
pub mod util;
pub mod trust;
pub mod belief;
pub mod evidence;
pub mod policy;
pub mod residue;
pub mod operator;
pub mod merge;
pub mod rank;
pub mod digest;
pub mod transcript;
pub mod kernel;
pub mod witnessing;
pub mod lab;
pub mod net;
