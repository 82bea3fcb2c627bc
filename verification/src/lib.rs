//! Verified core of a small system-monitor server.
//!
//! The heart of the crate is the remote-terminal bridge: the message codec
//! for the duplex channel (`codec`), the marker-line scanner that lifts
//! structured state probes out of interpreter output (`marker`), the
//! session registry (`registry`), and the pure decision steps of the
//! per-session pumps (`bridge`).  Around it stand the verified parsing and
//! formatting parts of the collectors: kernel-log lines (`dmesg`), disk
//! statistics (`diskstats`), thread info formatting (`procinfo`), and the
//! server identifier (`util`).
//!
//! All I/O, process spawning and task scheduling live outside this crate;
//! the functions here are pure values-to-values logic with contracts.

pub mod bridge;
pub mod chars;
pub mod codec;
pub mod diskstats;
pub mod dmesg;
pub mod marker;
pub mod numfmt;
pub mod procinfo;
pub mod registry;
pub mod util;
