//! Breach detection and response engine of a Lightning watchtower.
//!
//! A user hands the tower an appointment: a penalty transaction, encrypted
//! under the id of the transaction that it punishes, filed under the first
//! half of that id. The tower matches the transactions of every new block
//! against its appointments, decrypts the penalty transactions of those that
//! appear, has them submitted and follows them until they are buried deep
//! enough, through reorganizations of the chain, while it accounts for the
//! slots that each subscriber uses.
//!
//! The tower is three parts that take every block event in turn:
//! [`watcher`], [`responder`] and [`gatekeeper`], held together by
//! [`tower`]. [`chain_monitor`] says which events follow from a new best
//! block. None of them reads the chain or submits a transaction itself: they
//! say what is to be done and are told what came of it.
//!
//! The other modules hold what a tower and its clients share
//! ([`appointment`], [`ids`], [`cryptography`], [`encoding`]) and what a
//! client makes of a node's commands and of a tower's answers ([`convert`],
//! [`tower_info`], [`net`]).

pub mod appointment;
pub mod chain_monitor;
pub mod convert;
pub mod cryptography;
pub mod encoding;
pub mod gatekeeper;
pub mod ids;
pub mod model;
pub mod net;
pub mod responder;
pub mod text;
pub mod tower;
pub mod tower_info;
pub mod watcher;
