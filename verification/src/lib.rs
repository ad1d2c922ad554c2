//! The platform-independent brain of a host firewall.
//!
//! The detection core judges network events: [`detect`] finds floods and port
//! scans, [`metrics`] and [`pipeline`] turn what happened into what a dashboard
//! shows. [`guard`] puts it to work against a packet filter. [`programs`] decides
//! which applications may connect, on the rules that [`settings`] keeps, and
//! [`service`] turns the same rules into filters that hold from boot on. The
//! packet filter itself is described by plain values in [`wfp`].

pub mod active_connections;
pub mod apps;
pub mod book;
pub mod config;
pub mod detect;
pub mod event;
pub mod feed;
pub mod guard;
pub mod history;
pub mod ip;
pub mod ipmap;
pub mod laws;
pub mod metrics;
pub mod parse;
pub mod pipeline;
pub mod programs;
pub mod rank;
pub mod roundtrip;
pub mod service;
pub mod settings;
pub mod text;
pub mod wfp;
pub mod window;

pub use config::{Config, DdosConfig, ScanConfig};
pub use detect::{BlockReason, Engine, Verdict};
pub use event::{Action, Direction, NetEvent, Proto};
pub use ip::{IpAddr, Ipv4Addr, Ipv6Addr};
pub use metrics::{BucketOut, Metrics};
pub use pipeline::{build_tick, BlockOut, TalkerOut, Talkers, TickPayload};
