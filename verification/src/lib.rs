//! A Multi-Paxos group member (pre-vote, vote, accept, leases, commit) written as a
//! verified state machine, with its write-ahead log and its supporting clocks.

pub mod time;
pub mod context;
pub mod count_down;
pub mod event;
pub mod id_map;
pub mod member_id;
pub mod messages;
pub mod models;
pub mod roles;
pub mod slot_log;
pub mod sort;
pub mod state_machine;
pub mod text;
pub mod wal;
pub mod worker_runner;
pub mod states;
pub mod payloads;
pub mod processors;
pub mod responses;
pub mod members;
