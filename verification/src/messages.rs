//! Stratum V2 messages exchanged with miners.

use vstd::prelude::*;

use crate::decimal::{decimal, decimal_string};
use crate::error::StratumV2Error;
use crate::hash::Hash256;
use crate::message_types;
pub use crate::pool::ShareData;

verus! {

/// Client → server: opens a connection.
#[derive(Clone, Debug)]
pub struct SetupConnectionMessage {
    pub protocol_version: u16,
    pub endpoint: String,
    pub capabilities: Vec<String>,
}

/// Server → client: the connection is set up.
#[derive(Clone, Debug)]
pub struct SetupConnectionSuccessMessage {
    pub supported_versions: Vec<u16>,
    pub capabilities: Vec<String>,
}

/// Server → client: the connection was refused.
#[derive(Clone, Debug)]
pub struct SetupConnectionErrorMessage {
    pub error_code: u32,
    pub error_message: String,
}

/// Client → server: opens a mining channel.
#[derive(Clone, Copy, Debug, PartialEq, Eq)]
pub struct OpenMiningChannelMessage {
    pub channel_id: u32,
    pub request_id: u32,
    pub min_difficulty: u32,
}

/// Server → client: the channel is open, with its target.
#[derive(Clone, Copy, Debug, PartialEq, Eq)]
pub struct OpenMiningChannelSuccessMessage {
    pub channel_id: u32,
    pub request_id: u32,
    pub target: Hash256,
    pub max_jobs: u32,
}

/// Server → client: the channel was not opened.
#[derive(Clone, Debug)]
pub struct OpenMiningChannelErrorMessage {
    pub channel_id: u32,
    pub request_id: u32,
    pub error_code: u32,
    pub error_message: String,
}

/// Client → server: shares found on a channel.
#[derive(Clone, Debug)]
pub struct SubmitSharesMessage {
    pub channel_id: u32,
    pub shares: Vec<ShareData>,
}

/// Server → client: the shares were processed.
#[derive(Clone, Copy, Debug, PartialEq, Eq)]
pub struct SubmitSharesSuccessMessage {
    pub channel_id: u32,
    pub last_job_id: u32,
}

/// Server → client: the shares could not be processed.
#[derive(Clone, Debug)]
pub struct SubmitSharesErrorMessage {
    pub channel_id: u32,
    pub job_id: u32,
    pub error_code: u32,
    pub error_message: String,
}

/// Server → client: a new job for a channel.
#[derive(Clone, Debug)]
pub struct NewMiningJobMessage {
    pub channel_id: u32,
    pub job_id: u32,
    pub prev_hash: Hash256,
    pub coinbase_prefix: Vec<u8>,
    pub coinbase_suffix: Vec<u8>,
    pub merkle_path: Vec<Hash256>,
}

/// Server → client: the chain tip moved.
#[derive(Clone, Copy, Debug, PartialEq, Eq)]
pub struct SetNewPrevHashMessage {
    pub channel_id: u32,
    pub job_id: u32,
    pub prev_hash: Hash256,
    pub min_ntime: u64,
}

pub struct NewMiningJobView {
    pub channel_id: u32,
    pub job_id: u32,
    pub prev_hash: Seq<u8>,
    pub coinbase_prefix: Seq<u8>,
    pub coinbase_suffix: Seq<u8>,
    pub merkle_path: Seq<Seq<u8>>,
}

impl View for NewMiningJobMessage {
    type V = NewMiningJobView;

    open spec fn view(&self) -> NewMiningJobView {
        NewMiningJobView {
            channel_id: self.channel_id,
            job_id: self.job_id,
            prev_hash: self.prev_hash@,
            coinbase_prefix: self.coinbase_prefix@,
            coinbase_suffix: self.coinbase_suffix@,
            merkle_path: self.merkle_path@.map_values(|h: Hash256| h@),
        }
    }
}

/// A request from a miner.
#[derive(Clone, Debug)]
pub enum StratumRequest {
    SetupConnection(SetupConnectionMessage),
    OpenMiningChannel(OpenMiningChannelMessage),
    SubmitShares(SubmitSharesMessage),
}

/// The server's answer to a request.
#[derive(Clone, Debug)]
pub enum StratumResponse {
    SetupConnectionSuccess(SetupConnectionSuccessMessage),
    SetupConnectionError(SetupConnectionErrorMessage),
    OpenMiningChannelSuccess(OpenMiningChannelSuccessMessage),
    OpenMiningChannelError(OpenMiningChannelErrorMessage),
    SubmitSharesSuccess(SubmitSharesSuccessMessage),
    SubmitSharesError(SubmitSharesErrorMessage),
}

/// What a request's tag says it is.
#[derive(Clone, Copy, Debug, PartialEq, Eq)]
pub enum RequestKind {
    SetupConnection,
    OpenMiningChannel,
    SubmitShares,
}

/// The request kind a message tag names, if it names one.
pub open spec fn request_kind_of(tag: u16) -> Option<RequestKind> {
    if tag == message_types::SETUP_CONNECTION {
        Some(RequestKind::SetupConnection)
    } else if tag == message_types::OPEN_MINING_CHANNEL {
        Some(RequestKind::OpenMiningChannel)
    } else if tag == message_types::SUBMIT_SHARES {
        Some(RequestKind::SubmitShares)
    } else {
        None
    }
}

impl RequestKind {
    /// The request kind `tag` names; `None` for a tag that is no request.
    pub fn from_tag(tag: u16) -> (res: Option<RequestKind>)
        ensures
            res == request_kind_of(tag),
    {
        if tag == message_types::SETUP_CONNECTION {
            Some(RequestKind::SetupConnection)
        } else if tag == message_types::OPEN_MINING_CHANNEL {
            Some(RequestKind::OpenMiningChannel)
        } else if tag == message_types::SUBMIT_SHARES {
            Some(RequestKind::SubmitShares)
        } else {
            None
        }
    }

    /// The request kind `tag` names, or the protocol error
    /// `Unknown message type: <tag>` for a tag that is no request.
    pub fn of_tag(tag: u16) -> (res: Result<RequestKind, StratumV2Error>)
        ensures
            match request_kind_of(tag) {
                Some(k) => res == Ok::<RequestKind, StratumV2Error>(k),
                None => res matches Err(StratumV2Error::ProtocolError(m)) && m@
                    == "Unknown message type: "@ + decimal(tag as nat),
            },
    {
        match RequestKind::from_tag(tag) {
            Some(k) => Ok(k),
            None => {
                let mut m = "Unknown message type: ".to_owned();
                m.append(decimal_string(tag as u64).as_str());
                Err(StratumV2Error::ProtocolError(m))
            },
        }
    }
}

/// The tag of each response variant.
pub open spec fn response_tag(r: StratumResponse) -> u16 {
    match r {
        StratumResponse::SetupConnectionSuccess(_) => message_types::SETUP_CONNECTION_SUCCESS,
        StratumResponse::SetupConnectionError(_) => message_types::SETUP_CONNECTION_ERROR,
        StratumResponse::OpenMiningChannelSuccess(_) => message_types::OPEN_MINING_CHANNEL_SUCCESS,
        StratumResponse::OpenMiningChannelError(_) => message_types::OPEN_MINING_CHANNEL_ERROR,
        StratumResponse::SubmitSharesSuccess(_) => message_types::SUBMIT_SHARES_SUCCESS,
        StratumResponse::SubmitSharesError(_) => message_types::SUBMIT_SHARES_ERROR,
    }
}

impl StratumResponse {
    /// The message type tag of the response.
    pub fn message_type(&self) -> (res: u16)
        ensures
            res == response_tag(*self),
    {
        match self {
            StratumResponse::SetupConnectionSuccess(m) => m.message_type(),
            StratumResponse::SetupConnectionError(m) => m.message_type(),
            StratumResponse::OpenMiningChannelSuccess(m) => m.message_type(),
            StratumResponse::OpenMiningChannelError(m) => m.message_type(),
            StratumResponse::SubmitSharesSuccess(m) => m.message_type(),
            StratumResponse::SubmitSharesError(m) => m.message_type(),
        }
    }
}

impl SetupConnectionMessage {
    pub fn message_type(&self) -> (res: u16)
        ensures
            res == message_types::SETUP_CONNECTION,
    {
        message_types::SETUP_CONNECTION
    }
}

impl SetupConnectionSuccessMessage {
    pub fn message_type(&self) -> (res: u16)
        ensures
            res == message_types::SETUP_CONNECTION_SUCCESS,
    {
        message_types::SETUP_CONNECTION_SUCCESS
    }
}

impl SetupConnectionErrorMessage {
    pub fn message_type(&self) -> (res: u16)
        ensures
            res == message_types::SETUP_CONNECTION_ERROR,
    {
        message_types::SETUP_CONNECTION_ERROR
    }
}

impl OpenMiningChannelMessage {
    pub fn message_type(&self) -> (res: u16)
        ensures
            res == message_types::OPEN_MINING_CHANNEL,
    {
        message_types::OPEN_MINING_CHANNEL
    }
}

impl OpenMiningChannelSuccessMessage {
    pub fn message_type(&self) -> (res: u16)
        ensures
            res == message_types::OPEN_MINING_CHANNEL_SUCCESS,
    {
        message_types::OPEN_MINING_CHANNEL_SUCCESS
    }
}

impl OpenMiningChannelErrorMessage {
    pub fn message_type(&self) -> (res: u16)
        ensures
            res == message_types::OPEN_MINING_CHANNEL_ERROR,
    {
        message_types::OPEN_MINING_CHANNEL_ERROR
    }
}

impl SubmitSharesMessage {
    pub fn message_type(&self) -> (res: u16)
        ensures
            res == message_types::SUBMIT_SHARES,
    {
        message_types::SUBMIT_SHARES
    }
}

impl SubmitSharesSuccessMessage {
    pub fn message_type(&self) -> (res: u16)
        ensures
            res == message_types::SUBMIT_SHARES_SUCCESS,
    {
        message_types::SUBMIT_SHARES_SUCCESS
    }
}

impl SubmitSharesErrorMessage {
    pub fn message_type(&self) -> (res: u16)
        ensures
            res == message_types::SUBMIT_SHARES_ERROR,
    {
        message_types::SUBMIT_SHARES_ERROR
    }
}

impl NewMiningJobMessage {
    pub fn message_type(&self) -> (res: u16)
        ensures
            res == message_types::NEW_MINING_JOB,
    {
        message_types::NEW_MINING_JOB
    }
}

impl SetNewPrevHashMessage {
    pub fn message_type(&self) -> (res: u16)
        ensures
            res == message_types::SET_NEW_PREV_HASH,
    {
        message_types::SET_NEW_PREV_HASH
    }
}

} // verus!
