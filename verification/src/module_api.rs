//! Methods this module offers to other modules.

use vstd::prelude::*;

use crate::pool::{sum_accepted, sum_rejected, sum_total, StratumV2Pool};
use crate::server::PoolStats;
use crate::types::BlockView;

verus! {

pub const API_METHOD_REGISTER_MERGE_MINING_CHANNEL: &'static str = "register_merge_mining_channel";
pub const API_METHOD_GET_MERGE_MINING_TEMPLATE: &'static str = "get_merge_mining_template";
pub const API_METHOD_SUBMIT_MERGE_MINING_SHARE: &'static str = "submit_merge_mining_share";
pub const API_METHOD_GET_BLOCK_MERGE_MINING_REWARDS: &'static str = "get_block_merge_mining_rewards";
pub const API_METHOD_GET_TEMPLATE: &'static str = "get_template";
pub const API_METHOD_GET_CONNECTED_MINERS: &'static str = "get_connected_miners";
pub const API_METHOD_GET_POOL_STATS: &'static str = "get_pool_stats";

/// The version of the module API.
pub const API_VERSION: u32 = 1;

/// The names of the methods offered, merge-mining methods first.
pub open spec fn api_method_names() -> Seq<Seq<char>> {
    seq![
        "register_merge_mining_channel"@,
        "get_merge_mining_template"@,
        "submit_merge_mining_share"@,
        "get_block_merge_mining_rewards"@,
        "get_template"@,
        "get_connected_miners"@,
        "get_pool_stats"@,
    ]
}

/// The names of the methods offered, for registering the API.
pub fn method_names() -> (res: Vec<String>)
    ensures
        res@.map_values(|s: String| s@) == api_method_names(),
{
    let mut v: Vec<String> = Vec::new();
    v.push(API_METHOD_REGISTER_MERGE_MINING_CHANNEL.to_owned());
    v.push(API_METHOD_GET_MERGE_MINING_TEMPLATE.to_owned());
    v.push(API_METHOD_SUBMIT_MERGE_MINING_SHARE.to_owned());
    v.push(API_METHOD_GET_BLOCK_MERGE_MINING_REWARDS.to_owned());
    v.push(API_METHOD_GET_TEMPLATE.to_owned());
    v.push(API_METHOD_GET_CONNECTED_MINERS.to_owned());
    v.push(API_METHOD_GET_POOL_STATS.to_owned());
    assert(v@.map_values(|s: String| s@) =~= api_method_names());
    v
}

/// The lowercase hex digit for `d < 16`.
pub open spec fn hex_digit(d: int) -> char {
    if d < 10 {
        (48 + d) as char
    } else {
        (87 + d) as char
    }
}

/// `bytes` as lowercase hex text, two digits per byte, high digit first.
pub open spec fn hex_text(bytes: Seq<u8>) -> Seq<char> {
    Seq::new(
        2 * bytes.len(),
        |i: int|
            if i % 2 == 0 {
                hex_digit(bytes[i / 2] as int / 16)
            } else {
                hex_digit(bytes[i / 2] as int % 16)
            },
    )
}

/// `hex::encode`: the bytes as lowercase hex text, two digits per byte,
/// high digit first.
#[verifier::external_body]
fn hex_encode(bytes: &[u8]) -> (res: String)
    ensures
        res@ == hex_text(bytes@),
{
    hex::encode(bytes)
}

/// What a caller's JSON parameters hold, as far as the methods read them.
#[derive(Clone, Debug)]
pub struct ApiParams {
    /// The parser's error text, when the parameters are no valid JSON.
    pub parse_error: Option<String>,
    /// The `chain_id` field, when it is a string.
    pub chain_id: Option<String>,
    /// The `min_difficulty` field, when it is an unsigned integer.
    pub min_difficulty: Option<u64>,
}

/// The fields of the current template that `get_template` reports.
#[derive(Clone, Debug, PartialEq, Eq)]
pub struct TemplateSummary {
    pub prev_hash: String,
    pub merkle_root: String,
    pub timestamp: u64,
    pub bits: u64,
    pub tx_count: usize,
}

/// The answer to a module API request, before it is written as JSON.
#[derive(Clone, Debug, PartialEq, Eq)]
pub enum ApiReply {
    /// `{"ok": true, "chain_id": .., "min_difficulty": ..}`
    ChannelRegistered { chain_id: String, min_difficulty: u32 },
    /// `{"template": null}`
    MergeMiningTemplate,
    /// `{"ok": true}`
    ShareSubmitted,
    /// `{"rewards": []}`
    MergeMiningRewards,
    /// `{"template": ..}`, null when there is no template.
    Template(Option<TemplateSummary>),
    /// `{"miners": [..]}`
    ConnectedMiners(Vec<String>),
    /// `{"miner_count": .., "total_shares": .., ..}`
    PoolStats(PoolStats),
}

/// Whether `t` summarises block `b`.
pub open spec fn summarises(t: TemplateSummary, b: BlockView) -> bool {
    &&& t.prev_hash@ == hex_text(b.header.prev_block_hash@)
    &&& t.merkle_root@ == hex_text(b.header.merkle_root@)
    &&& t.timestamp == b.header.timestamp
    &&& t.bits == b.header.bits
    &&& t.tx_count == b.transactions.len()
}

fn summarise(b: &crate::types::Block) -> (res: TemplateSummary)
    ensures
        summarises(res, b@),
{
    TemplateSummary {
        prev_hash: hex_encode(b.header.prev_block_hash.as_slice()),
        merkle_root: hex_encode(b.header.merkle_root.as_slice()),
        timestamp: b.header.timestamp,
        bits: b.header.bits,
        tx_count: b.transactions.len(),
    }
}

/// Why a module API request failed.
#[derive(Clone, Debug, PartialEq, Eq)]
pub enum ApiError {
    /// No method of that name is offered.
    UnknownMethod(String),
    /// The parameters are no JSON; the parser's error text.
    InvalidParams(String),
    /// `register_merge_mining_channel` got no string `chain_id`.
    MissingChainId,
}

/// The text an API error is reported with.
pub open spec fn api_error_text(e: ApiError) -> Seq<char> {
    match e {
        ApiError::UnknownMethod(m) => "Unknown method: "@ + m@,
        ApiError::InvalidParams(t) => t@,
        ApiError::MissingChainId => "missing chain_id"@,
    }
}

impl ApiError {
    /// The text the error is reported with.
    pub fn message(&self) -> (res: String)
        ensures
            res@ == api_error_text(*self),
    {
        match self {
            ApiError::UnknownMethod(m) => {
                let mut t = "Unknown method: ".to_owned();
                t.append(m.as_str());
                t
            },
            ApiError::InvalidParams(t) => t.clone(),
            ApiError::MissingChainId => "missing chain_id".to_owned(),
        }
    }
}

/// The parameters as values: parser error, `chain_id`, `min_difficulty`.
pub open spec fn params_view(p: ApiParams) -> (Option<Seq<char>>, Option<Seq<char>>, Option<u64>) {
    (
        match p.parse_error {
            Some(e) => Some(e@),
            None => None,
        },
        match p.chain_id {
            Some(c) => Some(c@),
            None => None,
        },
        p.min_difficulty,
    )
}

/// What the JSON reading of raw parameters gives: the parser's error text
/// when they are no JSON (bytes that are no UTF-8 read as empty text), else
/// the `chain_id` field when it is a string and the `min_difficulty` field
/// when it is an unsigned integer.
pub uninterp spec fn api_params_json(params: Seq<u8>) -> (Option<Seq<char>>, Option<Seq<char>>, Option<u64>);

/// `std::str::from_utf8` of the raw parameters (empty text when they are no
/// UTF-8), `serde_json::from_str` into a JSON value, and its `chain_id` as a
/// string and `min_difficulty` as an unsigned integer.  The answer depends
/// on the bytes alone and is named `api_params_json`.
#[verifier::external_body]
fn parse_api_params(params: &[u8]) -> (res: ApiParams)
    ensures
        params_view(res) == api_params_json(params@),
{
    let text = std::str::from_utf8(params).unwrap_or("");
    match serde_json::from_str::<serde_json::Value>(text) {
        Err(e) => ApiParams { parse_error: Some(e.to_string()), chain_id: None, min_difficulty: None },
        Ok(v) => ApiParams {
            parse_error: None,
            chain_id: v.get("chain_id").and_then(|c| c.as_str()).map(|c| c.to_owned()),
            min_difficulty: v.get("min_difficulty").and_then(|d| d.as_u64()),
        },
    }
}

/// Whether the stats sums of the pool fit in `u64`, as `get_pool_stats`
/// needs.
pub open spec fn stats_fit(pool: StratumV2Pool) -> bool {
    sum_total(pool.miners_view()) <= u64::MAX && sum_accepted(pool.miners_view()) <= u64::MAX
        && sum_rejected(pool.miners_view()) <= u64::MAX
}

/// Whether `res` answers `method` with parameters `p` (parser error,
/// `chain_id`, `min_difficulty`) from the state of `pool`.
pub open spec fn request_answered(
    pool: StratumV2Pool,
    method: Seq<char>,
    p: (Option<Seq<char>>, Option<Seq<char>>, Option<u64>),
    res: Result<ApiReply, ApiError>,
) -> bool {
    &&& method == API_METHOD_REGISTER_MERGE_MINING_CHANNEL@ ==> match p.0 {
        Some(e) => res matches Err(ApiError::InvalidParams(r)) && r@ == e,
        None => match p.1 {
            Some(c) => res matches Ok(ApiReply::ChannelRegistered { chain_id, min_difficulty })
                && chain_id@ == c && min_difficulty == (match p.2 {
                Some(d) => d,
                None => 1,
            }) as u32,
            None => res == Err::<ApiReply, ApiError>(ApiError::MissingChainId),
        },
    }
    &&& method == API_METHOD_GET_MERGE_MINING_TEMPLATE@ ==> res == Ok::<ApiReply, ApiError>(
        ApiReply::MergeMiningTemplate,
    )
    &&& method == API_METHOD_SUBMIT_MERGE_MINING_SHARE@ ==> match p.0 {
        Some(e) => res matches Err(ApiError::InvalidParams(r)) && r@ == e,
        None => res == Ok::<ApiReply, ApiError>(ApiReply::ShareSubmitted),
    }
    &&& method == API_METHOD_GET_BLOCK_MERGE_MINING_REWARDS@ ==> res == Ok::<ApiReply, ApiError>(
        ApiReply::MergeMiningRewards,
    )
    &&& method == API_METHOD_GET_TEMPLATE@ ==> match pool.template_view() {
        Some(b) => res matches Ok(ApiReply::Template(Some(t))) && summarises(t, b),
        None => res matches Ok(ApiReply::Template(None)),
    }
    &&& method == API_METHOD_GET_CONNECTED_MINERS@ ==> (res matches Ok(ApiReply::ConnectedMiners(v))
        && v@.map_values(|s: String| s@) == pool.miners_view().map_values(
        |m: crate::pool::MinerView| m.endpoint,
    ))
    &&& method == API_METHOD_GET_POOL_STATS@ ==> res == Ok::<ApiReply, ApiError>(
        ApiReply::PoolStats(
            PoolStats {
                miner_count: pool.miners_view().len() as usize,
                total_shares: sum_total(pool.miners_view()) as u64,
                accepted_shares: sum_accepted(pool.miners_view()) as u64,
                rejected_shares: sum_rejected(pool.miners_view()) as u64,
            },
        ),
    )
    &&& !api_method_names().contains(method) ==> (res matches Err(ApiError::UnknownMethod(m))
        && m@ == method)
    &&& api_method_names().contains(method) ==> !(res matches Err(ApiError::UnknownMethod(_)))
}

/// Answers a request of another module for `method`, with the raw
/// parameter bytes it sent, from the state of `pool`: the parameters are
/// read as JSON, then answered as `handle_request` does.
pub fn handle_raw_request(pool: &StratumV2Pool, method: &str, params: &[u8]) -> (res: Result<
    ApiReply,
    ApiError,
>)
    requires
        method@ == API_METHOD_GET_POOL_STATS@ ==> stats_fit(*pool),
    ensures
        request_answered(*pool, method@, api_params_json(params@), res),
{
    let p = parse_api_params(params);
    handle_request(pool, method, &p)
}

/// Answers a request of another module for `method`, with the parameters
/// it sent read into `params`, from the state of `pool`; an unknown method,
/// and parameters that a method needs but cannot read, give an error.
pub fn handle_request(pool: &StratumV2Pool, method: &str, params: &ApiParams) -> (res: Result<
    ApiReply,
    ApiError,
>)
    requires
        method@ == API_METHOD_GET_POOL_STATS@ ==> stats_fit(*pool),
    ensures
        request_answered(*pool, method@, params_view(*params), res),
{
    proof {
        reveal_strlit("register_merge_mining_channel");
        reveal_strlit("get_merge_mining_template");
        reveal_strlit("submit_merge_mining_share");
        reveal_strlit("get_block_merge_mining_rewards");
        reveal_strlit("get_template");
        reveal_strlit("get_connected_miners");
        reveal_strlit("get_pool_stats");
        // The names differ at their first or fifth character.
        assert(API_METHOD_REGISTER_MERGE_MINING_CHANNEL@[0] == 'r');
        assert(API_METHOD_SUBMIT_MERGE_MINING_SHARE@[0] == 's');
        assert(API_METHOD_GET_MERGE_MINING_TEMPLATE@[0] == 'g');
        assert(API_METHOD_GET_MERGE_MINING_TEMPLATE@[4] == 'm');
        assert(API_METHOD_GET_BLOCK_MERGE_MINING_REWARDS@[0] == 'g');
        assert(API_METHOD_GET_BLOCK_MERGE_MINING_REWARDS@[4] == 'b');
        assert(API_METHOD_GET_TEMPLATE@[0] == 'g');
        assert(API_METHOD_GET_TEMPLATE@[4] == 't');
        assert(API_METHOD_GET_CONNECTED_MINERS@[0] == 'g');
        assert(API_METHOD_GET_CONNECTED_MINERS@[4] == 'c');
        assert(API_METHOD_GET_POOL_STATS@[0] == 'g');
        assert(API_METHOD_GET_POOL_STATS@[4] == 'p');
    }
    let m = method.to_owned();
    if m == API_METHOD_REGISTER_MERGE_MINING_CHANNEL.to_owned() {
        if let Some(e) = &params.parse_error {
            return Err(ApiError::InvalidParams(e.clone()));
        }
        match &params.chain_id {
            None => Err(ApiError::MissingChainId),
            Some(c) => {
                let d: u64 = match params.min_difficulty {
                    Some(d) => d,
                    None => 1,
                };
                Ok(ApiReply::ChannelRegistered { chain_id: c.clone(), min_difficulty: d as u32 })
            },
        }
    } else if m == API_METHOD_GET_MERGE_MINING_TEMPLATE.to_owned() {
        Ok(ApiReply::MergeMiningTemplate)
    } else if m == API_METHOD_SUBMIT_MERGE_MINING_SHARE.to_owned() {
        match &params.parse_error {
            Some(e) => Err(ApiError::InvalidParams(e.clone())),
            None => Ok(ApiReply::ShareSubmitted),
        }
    } else if m == API_METHOD_GET_BLOCK_MERGE_MINING_REWARDS.to_owned() {
        Ok(ApiReply::MergeMiningRewards)
    } else if m == API_METHOD_GET_TEMPLATE.to_owned() {
        match pool.current_template() {
            Some(b) => Ok(ApiReply::Template(Some(summarise(b)))),
            None => Ok(ApiReply::Template(None)),
        }
    } else if m == API_METHOD_GET_CONNECTED_MINERS.to_owned() {
        let summaries = pool.miner_summaries();
        let ghost ms = pool.miners_view();
        let ghost sv = summaries@.map_values(
            |p: (String, usize, crate::pool::MinerStats)| (p.0@, p.1 as nat, p.2),
        );
        assert(sv.len() == ms.len());
        let mut names: Vec<String> = Vec::new();
        let mut i: usize = 0;
        while i < summaries.len()
            invariant
                ms == pool.miners_view(),
                summaries@.len() == ms.len(),
                sv == summaries@.map_values(
                    |p: (String, usize, crate::pool::MinerStats)| (p.0@, p.1 as nat, p.2),
                ),
                sv == ms.map_values(
                    |m: crate::pool::MinerView| (m.endpoint, m.channels.len(), m.stats),
                ),
                i <= summaries@.len(),
                names@.len() == i,
                forall|j: int| 0 <= j < i ==> (#[trigger] names@[j])@ == ms[j].endpoint,
            decreases summaries@.len() - i,
        {
            assert(sv[i as int].0 == ms[i as int].endpoint);
            assert(summaries@[i as int].0@ == sv[i as int].0);
            names.push(summaries[i].0.clone());
            i = i + 1;
        }
        assert(names@.map_values(|s: String| s@) =~= ms.map_values(
            |m: crate::pool::MinerView| m.endpoint,
        ));
        Ok(ApiReply::ConnectedMiners(names))
    } else if m == API_METHOD_GET_POOL_STATS.to_owned() {
        let (miner_count, total_shares, accepted_shares, rejected_shares) = pool.share_totals();
        Ok(ApiReply::PoolStats(PoolStats { miner_count, total_shares, accepted_shares, rejected_shares }))
    } else {
        proof {
            assert(!api_method_names().contains(method@)) by {
                let names = api_method_names();
                assert(names[0] == API_METHOD_REGISTER_MERGE_MINING_CHANNEL@);
                assert(names[1] == API_METHOD_GET_MERGE_MINING_TEMPLATE@);
                assert(names[2] == API_METHOD_SUBMIT_MERGE_MINING_SHARE@);
                assert(names[3] == API_METHOD_GET_BLOCK_MERGE_MINING_REWARDS@);
                assert(names[4] == API_METHOD_GET_TEMPLATE@);
                assert(names[5] == API_METHOD_GET_CONNECTED_MINERS@);
                assert(names[6] == API_METHOD_GET_POOL_STATS@);
            }
        }
        Err(ApiError::UnknownMethod(method.to_owned()))
    }
}

} // verus!
