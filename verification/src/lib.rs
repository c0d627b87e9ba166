//! Verified core of an etcd-compatible key-value store.
//!
//! Every module holds executable code together with the contract it is
//! proved against. Input and output (files, sockets, the consensus
//! runtime) are left to the program around the library, which hands in
//! plain values and carries out what the library decides.

pub mod lex;
pub mod text;
pub mod parse;
pub mod utf8;
pub mod names;
pub mod keymap;
pub mod idmap;
pub mod codec;
pub mod crypto;
pub mod status;
pub mod keyrange;
pub mod model;
pub mod types;
pub mod conv;
pub mod batch;
pub mod log_store;
pub mod kv_log_store;
pub mod membership;
pub mod stored;
pub mod snapshot_store;
pub mod snapshot_data;
pub mod state_machine;
pub mod network;
pub mod space;
pub mod auth;
pub mod authz;
pub mod state;
pub mod kv;
pub mod watch;
pub mod lease;
pub mod compaction;
pub mod cluster;
pub mod maintenance;
pub mod metrics;
pub mod cluster_id;
pub mod sizing;
pub mod config;
pub mod admin;
pub mod fsck;
pub mod migrate;
pub mod ctl;
