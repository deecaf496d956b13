//! Turn-based best-of-nine duels between two ticketed participants: the
//! pairing rules, the per-match turn arbiter and the values that travel on
//! the wire, each function with a machine-checked contract.

pub mod arbiter;
pub mod commit;
pub mod dict;
pub mod fairness;
pub mod laws;
pub mod match_id;
pub mod moves;
pub mod pairing;
pub mod registry;
pub mod session;
pub mod simulator;
pub mod text;
pub mod ticket;
pub mod wire;
