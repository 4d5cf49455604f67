//! Typed replies of the AT command set, one per command.

use vstd::prelude::*;
use crate::types::DNSMode;

verus! {

/// Reply carrying nothing beyond completion.
#[derive(Clone, Debug, PartialEq, Eq, Structural)]
pub struct EmptyResponse {}

/// Reply to the WiFi join command.
#[derive(Clone, Copy, Debug, PartialEq, Eq, Structural)]
pub struct WifiConnectResponse {
    pub connected: bool,
    pub got_ip: bool,
}

/// Reply to the DNS query command.
#[derive(Clone, Debug, PartialEq, Eq)]
pub struct DNSResponse {
    pub dns_mode: DNSMode,
    pub dns_1: Option<Vec<u8>>,
    pub dns_2: Option<Vec<u8>>,
    pub dns_3: Option<Vec<u8>>,
}

/// Reply to the station IP query command.
#[derive(Clone, Debug, PartialEq, Eq)]
pub struct IPResponse {
    pub stat_ip: Vec<u8>,
    pub stat_mac: Vec<u8>,
}

/// Reply to the HTTP client command.
#[derive(Clone, Debug, PartialEq, Eq)]
pub struct HTTPResponse {
    pub size: u32,
    pub data: Vec<u8>,
}

} // verus!
