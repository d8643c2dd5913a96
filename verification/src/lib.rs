//! Verified core of a ZephCraft storage node.
//!
//! The crate holds the decisions of the node: who is alive, who writes which
//! registry shard, which chain to adopt, which record to trust. Sockets, disks,
//! clocks and key material stay with the caller, which hands plain values in and
//! carries out the actions that come back.

pub mod account;
pub mod anchor;
pub mod appreg;
pub mod attest;
pub mod board;
pub mod bytes;
pub mod chain;
pub mod cheque;
pub mod cli;
pub mod committee;
pub mod config;
pub mod content;
pub mod control;
pub mod digest;
pub mod econ_store;
pub mod econ_tables;
pub mod economy_egress;
pub mod epoch;
pub mod epoch_committee;
pub mod genesis;
pub mod governance;
pub mod headreg;
pub mod idset;
pub mod ledger;
pub mod manifest;
pub mod membership;
pub mod order;
pub mod parse;
pub mod peers;
mod random;
pub mod ranking;
pub mod resources;
pub mod scan;
pub mod sql;
pub mod table;
pub mod text;
