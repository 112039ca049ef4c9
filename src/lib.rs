//! Concurrent, resumable download engine.
//!
//! The library holds the decisions of the downloader, each with a contract
//! that Verus proves:
//!
//! - `prescan`: sizes from metadata probes, the size map, warning throttling
//!   and the planning of each transfer;
//! - `transfer`: the resume decisions of one transfer and its final check;
//! - `scheduler`: bounded, order-preserving start of transfers;
//! - `progress`: monotone progress counters;
//! - `series`, `order`, `selection`: grouping of multi-part model files into
//!   series, the sorted selection menu, and the reading of the user's answer;
//! - `naming`: sanitised and generated file names;
//! - `hf`, `cli`, `config`, `search`, `updater`: repository URLs, the choice
//!   of source, the alias registry, search result lines and update decisions;
//! - `text`: the string and numeral helpers the others build on.
//!
//! Network, disk, terminal and clock access are left to the caller, which
//! hands the library plain values and performs the actions it returns.

pub mod cli;
pub mod config;
pub mod hf;
pub mod naming;
pub mod order;
pub mod prescan;
pub mod progress;
pub mod scheduler;
pub mod search;
pub mod selection;
pub mod series;
pub mod text;
pub mod transfer;
pub mod updater;
