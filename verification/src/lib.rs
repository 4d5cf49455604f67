//! Driver logic for a UART-attached WiFi co-processor speaking textual AT
//! commands, together with a GSM 07.10 basic-mode frame multiplexer that
//! shares the same serial link.

pub mod atcmds;
pub mod bytes;
pub mod commands;
pub mod ingress;
pub mod muxer;
pub mod proto;
pub mod responses;
pub mod types;
pub mod wifi;
