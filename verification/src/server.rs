//! The state of a server: opens, leases, oplocks, durable handles, locks, watches, and
//! what is stored beside the files.

pub mod answering;
pub mod belonging;
pub mod breaking;
pub mod changes;
pub mod claims;
pub mod cleanup;
pub mod clearing;
pub mod closing;
pub mod completions;
pub mod configuring;
pub mod connections;
pub mod compounds;
pub mod departing;
pub mod detaching;
pub mod distinct;
pub mod durable;
pub mod endings;
pub mod events;
pub mod files;
pub mod forcing;
pub mod hearing;
pub mod judging;
pub mod keeping;
pub mod lease_acks;
pub mod lasting;
pub mod leases;
pub mod lists;
pub mod locking;
pub mod locks;
pub mod moves;
pub mod notify;
pub mod opens;
pub mod oplocks;
pub mod parting;
pub mod pending;
pub mod proceeding;
pub mod reclaims;
pub mod reporting;
pub mod resuming;
pub mod returning;
pub mod rules;
pub mod ruling;
pub mod selecting;
pub mod settling;
pub mod shares;
pub mod soundness;
pub mod state;
pub mod streaming;
pub mod streams;
pub mod table;
pub mod tasks;
pub mod telling;
pub mod timeouts;
pub mod trees;
pub mod types;
pub mod waiting;
pub mod writes;
pub mod yielding;
