//! Partial-view membership: a small active view of warm links, a larger passive
//! view of backup addresses, and beside them the full member set on which every
//! node converges by SWIM gossip.

pub mod census;
pub mod conduct;
pub mod convergence;
pub mod exchange;
pub mod gossip;
pub mod handler;
pub mod lifecycle;
pub mod liveness;
pub mod member;
pub mod node;
pub mod outreach;
pub mod overlay;
pub mod round;
pub mod snapshot;
pub mod soundness;
pub mod upkeep;
