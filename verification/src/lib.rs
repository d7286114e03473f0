//! roxy: the decision logic of a small TCP/UDP forwarding proxy.
//!
//! The library parses forwarding rules from command-line tokens, matches
//! incoming connections against those rules, and decides, step by step, what
//! a forwarding worker does with the traffic it sees.  Sockets, threads, DNS
//! and the clock stay with the caller, which hands the library plain values.

pub mod text;
pub mod addr;
pub mod rules;
pub mod cli;
pub mod forwarding;
pub mod pool;
