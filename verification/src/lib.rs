//! PicoCap: the verified core of a PCAP/PCAPNG capture intake checker.
//!
//! The library takes the bytes of one capture, walks its packets, tallies what
//! they carry, and judges the file against the collection criteria: container
//! integrity, full frames, size, endpoint diversity, duration and completeness
//! of the TCP sessions. It only checks a capture; it never rewrites one.

pub mod about;
pub mod accuracy;
pub mod api;
pub mod auth;
pub mod binary64;
pub mod bytes;
pub mod capture;
pub mod checks;
pub mod config;
pub mod decimals;
pub mod digest;
pub mod figures;
pub mod frame;
pub mod markdown;
pub mod moments;
pub mod notices;
pub mod packet;
pub mod pieces;
pub mod ranking;
pub mod reader;
pub mod report;
pub mod session;
pub mod stats;
pub mod summary;
pub mod text;
pub mod time;
pub mod words;
