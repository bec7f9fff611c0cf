//! Message type tags of the Stratum V2 mining protocol.

use vstd::prelude::*;

verus! {

pub const SETUP_CONNECTION: u16 = 0x00;
pub const SETUP_CONNECTION_SUCCESS: u16 = 0x01;
pub const SETUP_CONNECTION_ERROR: u16 = 0x02;
pub const OPEN_MINING_CHANNEL: u16 = 0x10;
pub const OPEN_MINING_CHANNEL_SUCCESS: u16 = 0x11;
pub const OPEN_MINING_CHANNEL_ERROR: u16 = 0x12;
pub const NEW_MINING_JOB: u16 = 0x15;
pub const SUBMIT_SHARES: u16 = 0x1a;
pub const SUBMIT_SHARES_SUCCESS: u16 = 0x1c;
pub const SUBMIT_SHARES_ERROR: u16 = 0x1d;
pub const SET_NEW_PREV_HASH: u16 = 0x20;

} // verus!
