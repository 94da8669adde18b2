//! The relay coordination core of a client for a relay-based social protocol:
//! the planner that assigns followed identities to relays, the bookkeeping of
//! a supervisor that owns one worker per connected relay, and the decisions
//! of such a worker. Everything here is plain computation on plain values;
//! sockets, storage and timers belong to the program around it.

pub mod comms;
pub mod error;
pub mod job_id;
pub mod keys;
pub mod lex;
pub mod minion;
pub mod overlord;
pub mod relay;
pub mod relay_sort;
pub mod relay_ui;
pub mod tag_index;
pub mod text;
pub mod relays;
pub mod url;
pub mod work;
