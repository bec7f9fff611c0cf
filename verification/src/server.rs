//! The Stratum V2 server: its state, the wire encodings of jobs, and the
//! handling of miner requests and node events.

use vstd::prelude::*;

use crate::encoding::{le_decode, le_value, push_all, push_le_bytes, varint_bytes, varint_read};
use crate::error::StratumV2Error;
use crate::hash::{double_sha256, Hash256};
use crate::merkle::{coinbase_split, merkle_branch, next_level, template_parts, txid};
use crate::decimal::{decimal, decimal_string};
use crate::error::error_prefix;
use crate::messages::{
    NewMiningJobView, StratumRequest, StratumResponse, NewMiningJobMessage, OpenMiningChannelErrorMessage, OpenMiningChannelMessage,
    OpenMiningChannelSuccessMessage, SetNewPrevHashMessage, SetupConnectionErrorMessage,
    SetupConnectionMessage, SetupConnectionSuccessMessage, SubmitSharesErrorMessage,
    SubmitSharesMessage, SubmitSharesSuccessMessage,
};
use crate::pool::{
    channel_target_value, cleanup_jobs, miner_has_room, fresh_channel, fresh_miner,
    miner_index, share_outcome, upsert_miner, with_channel, MinerView,
    ShareData, StratumV2Pool, DEFAULT_MAX_JOBS, sum_accepted, sum_rejected, sum_total,
    all_channels, assign_job, job_for, share_header, header_meets_network_target,
};
use crate::hash::be_value;
use crate::types::{
    lemma_tx_bytes_ends, header_bytes, BlockHeader, BlockView, copy_transactions,
    input_bytes, inputs_bytes, output_bytes, outputs_bytes, tx_bytes, Block, Transaction,
    TransactionInput, TransactionOutput, TransactionView,
};

verus! {

/// The values of a list of hashes.
pub open spec fn hashes_view(hs: Seq<Hash256>) -> Seq<Seq<u8>> {
    hs.map_values(|h: Hash256| h@)
}

/// The next level of a Merkle tree over `level`.
fn merkle_level_up(level: &Vec<Hash256>) -> (res: Vec<Hash256>)
    ensures
        hashes_view(res@) == next_level(hashes_view(level@)),
{
    let ghost lv = hashes_view(level@);
    let mut next: Vec<Hash256> = Vec::new();
    let len = level.len();
    let half = len / 2 + len % 2;
    let mut p: usize = 0;
    while p < half
        invariant
            len == level@.len(),
            lv == hashes_view(level@),
            half == (level@.len() + 1) / 2,
            p <= half,
            next@.len() == p,
            forall|j: int| 0 <= j < next@.len() ==> (#[trigger] next@[j])@ == next_level(lv)[j],
        decreases half - p,
    {
        let k = 2 * p;
        let left = level[k];
        let right = if k + 1 < level.len() {
            level[k + 1]
        } else {
            level[k]
        };
        let mut combined: Vec<u8> = Vec::new();
        push_all(&mut combined, left.as_slice());
        push_all(&mut combined, right.as_slice());
        let parent = double_sha256(combined.as_slice());
        proof {
            let j = (k / 2) as int;
            assert(2 * j == k);
            assert(combined@ =~= lv[2 * j] + (if 2 * j + 1 < lv.len() {
                lv[2 * j + 1]
            } else {
                lv[2 * j]
            }));
            assert(parent@ == next_level(lv)[j]);
        }
        next.push(parent);
        p = p + 1;
    }
    assert(hashes_view(next@) =~= next_level(lv));
    next
}

/// What handling `shares` one after another does: the miners after it,
/// for each share handled without failure whether it was a block, and the
/// detail of the protocol error of the first share that failed, if one
/// did; that share ends the handling (it was still counted).
pub open spec fn shares_outcome(ms: Seq<MinerView>, ep: Seq<char>, shares: Seq<ShareData>, now: u64) -> (
    Seq<MinerView>,
    Seq<bool>,
    Option<Seq<char>>,
)
    decreases shares.len(),
{
    if shares.len() == 0 {
        (ms, Seq::empty(), None)
    } else {
        let prev = shares_outcome(ms, ep, shares.drop_last(), now);
        if prev.2 is Some {
            prev
        } else {
            let step = share_outcome(prev.0, ep, shares.last(), now);
            match step.1 {
                Err(d) => (step.0, prev.1, Some(d)),
                Ok(p) => (step.0, prev.1.push(p.1), None),
            }
        }
    }
}

/// The block a share completes: the template with the share's version,
/// merkle root and nonce.
pub open spec fn block_from_share_view(t: BlockView, share: ShareData) -> BlockView {
    BlockView {
        header: BlockHeader {
            version: share.version,
            merkle_root: share.merkle_root,
            nonce: share.nonce as u64,
            ..t.header
        },
        transactions: t.transactions,
    }
}

/// The block a share completes carries exactly the header the share was
/// judged by on the template's job: the share's version, merkle root and
/// nonce over the template's previous hash, timestamp and bits.  So a share
/// flagged as a block yields a block that meets the network target.
pub proof fn lemma_found_block_has_share_header(t: BlockView, share: ShareData, job_id: u32)
    requires
        t.header.bits <= u32::MAX,
    ensures
        block_from_share_view(t, share).header == share_header(share, job_for(job_id, t)),
        block_from_share_view(t, share).header.version == share.version,
        block_from_share_view(t, share).header.merkle_root == share.merkle_root,
        block_from_share_view(t, share).header.nonce == share.nonce as u64,
        block_from_share_view(t, share).transactions == t.transactions,
        header_meets_network_target(share_header(share, job_for(job_id, t)))
            ==> header_meets_network_target(block_from_share_view(t, share).header),
{
}

/// The blocks to submit: for each share flagged as a block, in order, the
/// template completed by it; none without a template.
pub open spec fn found_blocks(t: Option<BlockView>, shares: Seq<ShareData>, flags: Seq<bool>) -> Seq<
    BlockView,
>
    decreases shares.len(),
{
    if shares.len() == 0 || flags.len() != shares.len() {
        Seq::empty()
    } else {
        let prev = found_blocks(t, shares.drop_last(), flags.drop_last());
        match t {
            Some(b) => if flags.last() {
                prev.push(block_from_share_view(b, shares.last()))
            } else {
                prev
            },
            None => prev,
        }
    }
}

/// Mining pool statistics.
#[derive(Clone, Copy, Debug, PartialEq, Eq)]
pub struct PoolStats {
    pub miner_count: usize,
    pub total_shares: u64,
    pub accepted_shares: u64,
    pub rejected_shares: u64,
}

/// The job messages for the channels `dists`: job `job_id` on the template
/// with previous hash `prev_hash` and job parts `parts`.
pub open spec fn job_messages(
    dists: Seq<(Seq<char>, u32)>,
    job_id: u32,
    prev_hash: Seq<u8>,
    parts: (Seq<u8>, Seq<u8>, Seq<Seq<u8>>),
) -> Seq<(Seq<char>, NewMiningJobView)> {
    dists.map_values(
        |d: (Seq<char>, u32)|
            (
                d.0,
                NewMiningJobView {
                    channel_id: d.1,
                    job_id,
                    prev_hash,
                    coinbase_prefix: parts.0,
                    coinbase_suffix: parts.1,
                    merkle_path: parts.2,
                },
            ),
    )
}

/// The new-tip notices for the channels `dists`.
pub open spec fn prev_hash_notices(dists: Seq<(Seq<char>, u32)>, prev_hash: Hash256, min_ntime: u64) -> Seq<
    (Seq<char>, SetNewPrevHashMessage),
> {
    dists.map_values(
        |d: (Seq<char>, u32)|
            (d.0, SetNewPrevHashMessage { channel_id: d.1, job_id: 0, prev_hash, min_ntime }),
    )
}

/// A copy of a list of hashes.
fn copy_hashes(v: &Vec<Hash256>) -> (res: Vec<Hash256>)
    ensures
        res@ == v@,
{
    let mut out: Vec<Hash256> = Vec::new();
    let mut i: usize = 0;
    while i < v.len()
        invariant
            i <= v@.len(),
            out@ == v@.subrange(0, i as int),
        decreases v@.len() - i,
    {
        out.push(v[i]);
        i = i + 1;
        assert(out@ =~= v@.subrange(0, i as int));
    }
    assert(v@.subrange(0, v@.len() as int) =~= v@);
    out
}

/// A failure text: `prefix`, then the display text of a protocol error
/// with `detail`.
pub open spec fn failure_text(prefix: Seq<char>, detail: Seq<char>) -> Seq<char> {
    prefix + "Stratum V2 protocol error: "@ + detail
}

/// The detail of the error for an unsupported protocol version `v`.
pub open spec fn version_refusal(v: u16) -> Seq<char> {
    "Unsupported protocol version: "@ + decimal(v as nat) + ". Only version 2 is supported."@
}

/// The job id a Submit Shares reports: its last share's (0 for none).
pub open spec fn last_job_id_of(shares: Seq<ShareData>) -> u32 {
    if shares.len() == 0 {
        0
    } else {
        shares.last().job_id
    }
}

/// What answering Submit Shares `msg` from `ep` at `now` leaves: on the
/// first share that fails, a protocol error and the miners as the failing
/// share left them; otherwise the success message, the completed blocks,
/// and the miners after job cleanup.
pub open spec fn submit_shares_done(
    before: StratumV2Pool,
    after: StratumV2Pool,
    ep: Seq<char>,
    msg: SubmitSharesMessage,
    now: u64,
    res: (Result<SubmitSharesSuccessMessage, StratumV2Error>, Vec<Block>),
) -> bool {
    let (ms, flags, failure) = shares_outcome(before.miners_view(), ep, msg.shares@, now);
    &&& blocks_view(res.1@) == found_blocks(
        before.template_view(),
        msg.shares@.subrange(0, flags.len() as int),
        flags,
    )
    &&& match failure {
        None => (res.0 matches Ok(r) && r.channel_id == msg.channel_id && r.last_job_id
            == last_job_id_of(msg.shares@)) && after.miners_view() == cleanup_jobs(ms),
        Some(d) => (res.0 matches Err(StratumV2Error::ProtocolError(m)) && m@ == d)
            && after.miners_view() == ms,
    }
}

/// `prefix` followed by the display text of `e`.
fn failure_message(prefix: &str, e: &StratumV2Error) -> (res: String)
    ensures
        res@ == prefix@ + error_prefix(*e) + e.detail(),
        e matches StratumV2Error::ProtocolError(d) ==> res@ == failure_text(prefix@, d@),
{
    let mut text = prefix.to_owned();
    let m = e.message();
    text.append(m.as_str());
    proof {
        if e is ProtocolError {
            assert(text@ =~= failure_text(prefix@, e.detail()));
        }
    }
    text
}


/// Once a share fails, later shares change nothing.
proof fn lemma_shares_outcome_stops(ms: Seq<MinerView>, ep: Seq<char>, shares: Seq<ShareData>, k: int, now: u64)
    requires
        0 <= k <= shares.len(),
        shares_outcome(ms, ep, shares.subrange(0, k), now).2 is Some,
    ensures
        shares_outcome(ms, ep, shares, now) == shares_outcome(ms, ep, shares.subrange(0, k), now),
    decreases shares.len(),
{
    if shares.len() == k {
        assert(shares.subrange(0, k) =~= shares);
    } else {
        let d = shares.drop_last();
        assert(d.subrange(0, k) =~= shares.subrange(0, k));
        lemma_shares_outcome_stops(ms, ep, d, k, now);
    }
}

/// The blocks' values.
pub open spec fn blocks_view(bs: Seq<Block>) -> Seq<BlockView> {
    bs.map_values(|b: Block| b@)
}

proof fn lemma_share_outcome_room(ms: Seq<MinerView>, ep: Seq<char>, share: ShareData, now: u64, n: nat)
    requires
        miner_has_room(ms, ep, n + 1),
    ensures
        miner_has_room(share_outcome(ms, ep, share, now).0, ep, n),
        share_outcome(ms, ep, share, now).0.len() == ms.len(),
{
    let r = share_outcome(ms, ep, share, now).0;
    assert forall|i: int| 0 <= i < r.len() && (#[trigger] r[i]).endpoint == ep implies {
        &&& r[i].stats.total_shares + n <= u64::MAX
        &&& r[i].stats.accepted_shares + n <= u64::MAX
        &&& r[i].stats.rejected_shares + n <= u64::MAX
    } by {
        assert(ms[i].endpoint == ep);
        assert(ms[i].stats.total_shares + n + 1 <= u64::MAX);
    }
}

proof fn lemma_shares_outcome_room(ms: Seq<MinerView>, ep: Seq<char>, shares: Seq<ShareData>, now: u64, n: nat)
    requires
        miner_has_room(ms, ep, shares.len() + n),
    ensures
        miner_has_room(shares_outcome(ms, ep, shares, now).0, ep, n),
        shares_outcome(ms, ep, shares, now).1.len() <= shares.len(),
        shares_outcome(ms, ep, shares, now).2 is None ==> shares_outcome(ms, ep, shares, now).1.len()
            == shares.len(),
    decreases shares.len(),
{
    if shares.len() > 0 {
        lemma_shares_outcome_room(ms, ep, shares.drop_last(), now, n + 1);
        let prev = shares_outcome(ms, ep, shares.drop_last(), now);
        if prev.2 is None {
            lemma_share_outcome_room(prev.0, ep, shares.last(), now, n);
        } else {
            assert(miner_has_room(prev.0, ep, n)) by {
                assert forall|i: int| 0 <= i < prev.0.len() && (#[trigger] prev.0[i]).endpoint == ep implies {
                    &&& prev.0[i].stats.total_shares + n <= u64::MAX
                    &&& prev.0[i].stats.accepted_shares + n <= u64::MAX
                    &&& prev.0[i].stats.rejected_shares + n <= u64::MAX
                } by {
                    assert(prev.0[i].stats.total_shares + n + 1 <= u64::MAX);
                }
            }
        }
    }
}

/// The Stratum protocol version the server speaks.
pub const PROTOCOL_VERSION: u16 = 2;

/// The server: where it listens, its pool, and whether it runs.
pub struct StratumV2Server {
    listen_addr: String,
    pool: StratumV2Pool,
    running: bool,
}

/// The strings' values.
pub open spec fn strings_view(v: Seq<String>) -> Seq<Seq<char>> {
    v.map_values(|s: String| s@)
}

impl StratumV2Server {
    pub closed spec fn listen_addr_view(&self) -> Seq<char> {
        self.listen_addr@
    }

    pub closed spec fn running(&self) -> bool {
        self.running
    }

    pub closed spec fn pool_state(&self) -> StratumV2Pool {
        self.pool
    }

    /// A stopped server for `listen_addr`, with an empty pool.
    pub fn new(listen_addr: String) -> (res: Self)
        ensures
            res.listen_addr_view() == listen_addr@,
            !res.running(),
            res.pool_state().wf(),
            res.pool_state().miners_view() == Seq::<MinerView>::empty(),
            res.pool_state().template_view() is None,
            res.pool_state().next_job_id() == 1,
    {
        StratumV2Server { listen_addr, pool: StratumV2Pool::new(), running: false }
    }

    /// Where the server listens.
    pub fn listen_addr(&self) -> (res: &String)
        ensures
            res@ == self.listen_addr_view(),
    {
        &self.listen_addr
    }

    /// Whether the server runs.
    pub fn is_running(&self) -> (res: bool)
        ensures
            res == self.running(),
    {
        self.running
    }

    /// Starts the server; fails when it already runs.
    pub fn start(&mut self) -> (res: Result<(), StratumV2Error>)
        ensures
            old(self).running() ==> (res matches Err(StratumV2Error::ConfigError(m)) && m@
                == "Server already running"@),
            !old(self).running() ==> res is Ok,
            final(self).running(),
            final(self).pool_state() == old(self).pool_state(),
            final(self).listen_addr_view() == old(self).listen_addr_view(),
    {
        if self.running {
            return Err(StratumV2Error::ConfigError("Server already running".to_owned()));
        }
        self.running = true;
        Ok(())
    }

    /// Stops the server; stopping a stopped server does nothing.
    pub fn stop(&mut self) -> (res: Result<(), StratumV2Error>)
        ensures
            res is Ok,
            !final(self).running(),
            final(self).pool_state() == old(self).pool_state(),
            final(self).listen_addr_view() == old(self).listen_addr_view(),
    {
        self.running = false;
        Ok(())
    }

    /// The mining pool.
    pub fn get_pool(&self) -> (res: &StratumV2Pool)
        ensures
            *res == self.pool_state(),
    {
        &self.pool
    }

    /// The mining pool, for changes.
    pub fn get_pool_mut(&mut self) -> (res: &mut StratumV2Pool)
        ensures
            *res == old(self).pool_state(),
            final(self).pool_state() == *final(res),
            final(self).running() == old(self).running(),
            final(self).listen_addr_view() == old(self).listen_addr_view(),
    {
        &mut self.pool
    }

    /// Answers a Setup Connection: only protocol version 2 is accepted, and
    /// then the miner is registered under `endpoint`.
    pub fn handle_setup_connection(&mut self, msg: SetupConnectionMessage, endpoint: &str) -> (res:
        Result<SetupConnectionSuccessMessage, StratumV2Error>)
        requires
            old(self).pool_state().wf(),
        ensures
            final(self).pool_state().wf(),
            final(self).pool_state().same_jobs_state(&old(self).pool_state()),
            final(self).running() == old(self).running(),
            msg.protocol_version != PROTOCOL_VERSION ==> (res matches Err(
                StratumV2Error::ProtocolError(e),
            ) && e@ == version_refusal(msg.protocol_version)) && final(self).pool_state().miners_view()
                == old(self).pool_state().miners_view(),
            msg.protocol_version == PROTOCOL_VERSION ==> (res matches Ok(m) && m.supported_versions@
                == seq![PROTOCOL_VERSION] && strings_view(m.capabilities@) == seq!["mining"@])
                && final(self).pool_state().miners_view() == upsert_miner(
                old(self).pool_state().miners_view(),
                fresh_miner(endpoint@),
            ),
    {
        if msg.protocol_version != PROTOCOL_VERSION {
            let mut text = "Unsupported protocol version: ".to_owned();
            let v = decimal_string(msg.protocol_version as u64);
            text.append(v.as_str());
            text.append(". Only version 2 is supported.");
            return Err(StratumV2Error::ProtocolError(text));
        }
        self.pool.register_miner(endpoint.to_owned());
        let mut supported_versions: Vec<u16> = Vec::new();
        supported_versions.push(PROTOCOL_VERSION);
        let mut capabilities: Vec<String> = Vec::new();
        capabilities.push("mining".to_owned());
        assert(supported_versions@ =~= seq![PROTOCOL_VERSION]);
        assert(strings_view(capabilities@) =~= seq!["mining"@]);
        Ok(SetupConnectionSuccessMessage { supported_versions, capabilities })
    }

    /// Answers an Open Mining Channel: opens the channel in the pool and
    /// reports its target and job capacity.
    pub fn handle_open_channel(&mut self, endpoint: &str, msg: OpenMiningChannelMessage) -> (res:
        Result<OpenMiningChannelSuccessMessage, StratumV2Error>)
        requires
            old(self).pool_state().wf(),
        ensures
            final(self).pool_state().wf(),
            final(self).pool_state().same_jobs_state(&old(self).pool_state()),
            final(self).running() == old(self).running(),
            !old(self).pool_state().has_miner(endpoint@) ==> (res matches Err(
                StratumV2Error::ProtocolError(e),
            ) && e@ == "Miner not registered: "@ + endpoint@) && final(self).pool_state().miners_view()
                == old(self).pool_state().miners_view(),
            old(self).pool_state().has_miner(endpoint@) ==> match res {
                Ok(m) => m.channel_id == msg.channel_id && m.request_id == msg.request_id
                    && m.max_jobs == DEFAULT_MAX_JOBS && be_value(m.target@)
                    == channel_target_value(msg.min_difficulty) && final(self).pool_state().miners_view()
                    == with_channel(
                    old(self).pool_state().miners_view(),
                    miner_index(old(self).pool_state().miners_view(), endpoint@),
                    fresh_channel(msg.channel_id, m.target@, msg.min_difficulty),
                ),
                Err(_) => false,
            },
    {
        let target = match self.pool.open_channel(endpoint, msg.channel_id, msg.min_difficulty) {
            Ok(t) => t,
            Err(e) => {
                return Err(e);
            },
        };
        Ok(OpenMiningChannelSuccessMessage {
            channel_id: msg.channel_id,
            request_id: msg.request_id,
            target,
            max_jobs: DEFAULT_MAX_JOBS,
        })
    }

    /// Answers a Submit Shares at the current time: what
    /// `handle_submit_shares_at` does at the clock reading taken by the
    /// call.
    pub fn handle_submit_shares(&mut self, endpoint: &str, msg: SubmitSharesMessage) -> (res: (
        Result<SubmitSharesSuccessMessage, StratumV2Error>,
        Vec<Block>,
    ))
        requires
            old(self).pool_state().wf(),
            miner_has_room(old(self).pool_state().miners_view(), endpoint@, msg.shares@.len()),
        ensures
            final(self).pool_state().wf(),
            final(self).pool_state().same_jobs_state(&old(self).pool_state()),
            final(self).running() == old(self).running(),
            exists|now: u64|
                #[trigger] crate::consensus::clock_reading(now) && submit_shares_done(
                    old(self).pool_state(),
                    final(self).pool_state(),
                    endpoint@,
                    msg,
                    now,
                    res,
                ),
    {
        let now = crate::consensus::unix_time_now();
        self.handle_submit_shares_at(endpoint, msg, now)
    }

    /// Answers a miner's request received at `now`: the response to send
    /// back (an error response with code 1, 2 or 3 when the request failed)
    /// and the blocks its shares completed.
    pub fn handle_request(&mut self, endpoint: &str, request: StratumRequest, now: u64) -> (res: (
        StratumResponse,
        Vec<Block>,
    ))
        requires
            old(self).pool_state().wf(),
            request matches StratumRequest::SubmitShares(m) ==> miner_has_room(
                old(self).pool_state().miners_view(),
                endpoint@,
                m.shares@.len(),
            ),
        ensures
            final(self).pool_state().wf(),
            final(self).pool_state().same_jobs_state(&old(self).pool_state()),
            final(self).running() == old(self).running(),
            match request {
                StratumRequest::SetupConnection(m) => res.1@.len() == 0 && if m.protocol_version
                    == PROTOCOL_VERSION {
                    (res.0 matches StratumResponse::SetupConnectionSuccess(r)
                        && r.supported_versions@ == seq![PROTOCOL_VERSION] && strings_view(
                        r.capabilities@,
                    ) == seq!["mining"@]) && final(self).pool_state().miners_view() == upsert_miner(
                        old(self).pool_state().miners_view(),
                        fresh_miner(endpoint@),
                    )
                } else {
                    (res.0 matches StratumResponse::SetupConnectionError(r) && r.error_code == 1
                        && r.error_message@ == failure_text(
                        "Setup connection failed: "@,
                        version_refusal(m.protocol_version),
                    )) && final(self).pool_state().miners_view() == old(self).pool_state().miners_view()
                },
                StratumRequest::OpenMiningChannel(m) => res.1@.len() == 0 && if old(self).pool_state().has_miner(endpoint@) {
                    res.0 matches StratumResponse::OpenMiningChannelSuccess(r) && r.channel_id
                        == m.channel_id && r.request_id == m.request_id && r.max_jobs
                        == DEFAULT_MAX_JOBS && be_value(r.target@) == channel_target_value(
                        m.min_difficulty,
                    ) && final(self).pool_state().miners_view() == with_channel(
                        old(self).pool_state().miners_view(),
                        miner_index(old(self).pool_state().miners_view(), endpoint@),
                        fresh_channel(m.channel_id, r.target@, m.min_difficulty),
                    )
                } else {
                    (res.0 matches StratumResponse::OpenMiningChannelError(r) && r.channel_id
                        == m.channel_id && r.request_id == m.request_id && r.error_code == 2
                        && r.error_message@ == failure_text(
                        "Failed to open channel: "@,
                        "Miner not registered: "@ + endpoint@,
                    )) && final(self).pool_state().miners_view() == old(self).pool_state().miners_view()
                },
                StratumRequest::SubmitShares(m) => {
                    let (ms, flags, failure) = shares_outcome(
                        old(self).pool_state().miners_view(),
                        endpoint@,
                        m.shares@,
                        now,
                    );
                    &&& blocks_view(res.1@) == found_blocks(
                        old(self).pool_state().template_view(),
                        m.shares@.subrange(0, flags.len() as int),
                        flags,
                    )
                    &&& match failure {
                        None => res.0 == StratumResponse::SubmitSharesSuccess(
                            SubmitSharesSuccessMessage {
                                channel_id: m.channel_id,
                                last_job_id: last_job_id_of(m.shares@),
                            },
                        ) && final(self).pool_state().miners_view() == cleanup_jobs(ms),
                        Some(d) => (res.0 matches StratumResponse::SubmitSharesError(r)
                            && r.channel_id == m.channel_id && r.job_id == (if m.shares@.len()
                            == 0 {
                            0
                        } else {
                            m.shares@[0].job_id
                        }) && r.error_code == 3 && r.error_message@ == failure_text(
                            "Failed to process shares: "@,
                            d,
                        )) && final(self).pool_state().miners_view() == ms,
                    }
                },
            },
    {
        match request {
            StratumRequest::SetupConnection(m) => {
                match self.handle_setup_connection(m, endpoint) {
                    Ok(r) => (StratumResponse::SetupConnectionSuccess(r), Vec::new()),
                    Err(e) => {
                        let text = failure_message("Setup connection failed: ", &e);
                        (
                            StratumResponse::SetupConnectionError(
                                SetupConnectionErrorMessage { error_code: 1, error_message: text },
                            ),
                            Vec::new(),
                        )
                    },
                }
            },
            StratumRequest::OpenMiningChannel(m) => {
                match self.handle_open_channel(endpoint, m) {
                    Ok(r) => (StratumResponse::OpenMiningChannelSuccess(r), Vec::new()),
                    Err(e) => {
                        let text = failure_message("Failed to open channel: ", &e);
                        (
                            StratumResponse::OpenMiningChannelError(
                                OpenMiningChannelErrorMessage {
                                    channel_id: m.channel_id,
                                    request_id: m.request_id,
                                    error_code: 2,
                                    error_message: text,
                                },
                            ),
                            Vec::new(),
                        )
                    },
                }
            },
            StratumRequest::SubmitShares(m) => {
                let channel_id = m.channel_id;
                let first_job = if m.shares.len() > 0 {
                    m.shares[0].job_id
                } else {
                    0
                };
                let (outcome, blocks) = self.handle_submit_shares_at(endpoint, m, now);
                match outcome {
                    Ok(r) => (StratumResponse::SubmitSharesSuccess(r), blocks),
                    Err(e) => {
                        let text = failure_message("Failed to process shares: ", &e);
                        (
                            StratumResponse::SubmitSharesError(
                                SubmitSharesErrorMessage {
                                    channel_id,
                                    job_id: first_job,
                                    error_code: 3,
                                    error_message: text,
                                },
                            ),
                            blocks,
                        )
                    },
                }
            },
        }
    }

    /// Totals over all miners: their number and their share counters.
    pub fn get_pool_stats(&self) -> (res: PoolStats)
        requires
            sum_total(self.pool_state().miners_view()) <= u64::MAX,
            sum_accepted(self.pool_state().miners_view()) <= u64::MAX,
            sum_rejected(self.pool_state().miners_view()) <= u64::MAX,
        ensures
            res.miner_count == self.pool_state().miners_view().len(),
            res.total_shares == sum_total(self.pool_state().miners_view()),
            res.accepted_shares == sum_accepted(self.pool_state().miners_view()),
            res.rejected_shares == sum_rejected(self.pool_state().miners_view()),
    {
        let (miner_count, total_shares, accepted_shares, rejected_shares) = self.pool.share_totals();
        PoolStats { miner_count, total_shares, accepted_shares, rejected_shares }
    }

    /// Makes `template` the pool's template and prepares the New Mining Job
    /// message, with the coinbase parts and Merkle branch of the template,
    /// for every channel, paired with the channel's miner endpoint.
    pub fn update_block_template(&mut self, template: Block) -> (res: Vec<(String, NewMiningJobMessage)>)
        requires
            old(self).pool_state().wf(),
        ensures
            final(self).pool_state().wf(),
            final(self).pool_state().miners_view() == assign_job(
                old(self).pool_state().miners_view(),
                job_for(old(self).pool_state().next_job_id(), template@),
            ),
            final(self).pool_state().next_job_id() == (if old(self).pool_state().next_job_id()
                == u32::MAX {
                0
            } else {
                (old(self).pool_state().next_job_id() + 1) as u32
            }),
            final(self).pool_state().template_view() == Some(template@),
            final(self).pool_state().default_difficulty() == old(self).pool_state().default_difficulty(),
            final(self).running() == old(self).running(),
            res@.map_values(|p: (String, NewMiningJobMessage)| (p.0@, p.1@)) == job_messages(
                all_channels(old(self).pool_state().miners_view()),
                old(self).pool_state().next_job_id(),
                template.header.prev_block_hash@,
                template_parts(template@),
            ),
    {
        let (coinbase_prefix, coinbase_suffix, merkle_path) = self.extract_template_parts(&template);
        let prev_hash = template.header.prev_block_hash;
        let ghost parts = template_parts(template@);
        let (job_id, distributions) = self.pool.set_template(template);
        let ghost dists = distributions@.map_values(|p: (String, u32)| (p.0@, p.1));
        let ghost want = job_messages(dists, job_id, prev_hash@, parts);
        let mut out: Vec<(String, NewMiningJobMessage)> = Vec::new();
        let mut k: usize = 0;
        while k < distributions.len()
            invariant
                k <= distributions@.len(),
                dists == distributions@.map_values(|p: (String, u32)| (p.0@, p.1)),
                want == job_messages(dists, job_id, prev_hash@, parts),
                coinbase_prefix@ == parts.0,
                coinbase_suffix@ == parts.1,
                hashes_view(merkle_path@) == parts.2,
                out@.len() == k,
                forall|j: int| 0 <= j < k ==> (#[trigger] out@[j]).0@ == want[j].0 && out@[j].1@ == want[j].1,
            decreases distributions@.len() - k,
        {
            let endpoint = distributions[k].0.clone();
            let channel_id = distributions[k].1;
            let msg = NewMiningJobMessage {
                channel_id,
                job_id,
                prev_hash,
                coinbase_prefix: crate::types::copy_bytes(&coinbase_prefix),
                coinbase_suffix: crate::types::copy_bytes(&coinbase_suffix),
                merkle_path: copy_hashes(&merkle_path),
            };
            assert(dists[k as int] == (distributions@[k as int].0@, distributions@[k as int].1));
            assert(msg@ == want[k as int].1);
            out.push((endpoint, msg));
            k = k + 1;
        }
        assert(out@.map_values(|p: (String, NewMiningJobMessage)| (p.0@, p.1@)) =~= want);
        out
    }

    /// Makes a newly mined `block` the pool's template and prepares, for
    /// every channel, a Set New Prev Hash notice for `block_hash`, with the
    /// block's timestamp as the earliest time.
    pub fn block_mined(&mut self, block: Block, block_hash: Hash256) -> (res: Vec<(String, SetNewPrevHashMessage)>)
        requires
            old(self).pool_state().wf(),
        ensures
            final(self).pool_state().wf(),
            final(self).pool_state().miners_view() == assign_job(
                old(self).pool_state().miners_view(),
                job_for(old(self).pool_state().next_job_id(), block@),
            ),
            final(self).pool_state().next_job_id() == (if old(self).pool_state().next_job_id()
                == u32::MAX {
                0
            } else {
                (old(self).pool_state().next_job_id() + 1) as u32
            }),
            final(self).pool_state().template_view() == Some(block@),
            final(self).pool_state().default_difficulty() == old(self).pool_state().default_difficulty(),
            final(self).running() == old(self).running(),
            res@.map_values(|p: (String, SetNewPrevHashMessage)| (p.0@, p.1)) == prev_hash_notices(
                all_channels(old(self).pool_state().miners_view()),
                block_hash,
                block.header.timestamp,
            ),
    {
        let min_ntime = block.header.timestamp;
        let (_job_id, distributions) = self.pool.set_template(block);
        let ghost dists = distributions@.map_values(|p: (String, u32)| (p.0@, p.1));
        let ghost want = prev_hash_notices(dists, block_hash, min_ntime);
        let mut out: Vec<(String, SetNewPrevHashMessage)> = Vec::new();
        let mut k: usize = 0;
        while k < distributions.len()
            invariant
                k <= distributions@.len(),
                dists == distributions@.map_values(|p: (String, u32)| (p.0@, p.1)),
                want == prev_hash_notices(dists, block_hash, min_ntime),
                out@.len() == k,
                forall|j: int| 0 <= j < k ==> (#[trigger] out@[j]).0@ == want[j].0 && out@[j].1 == want[j].1,
            decreases distributions@.len() - k,
        {
            let endpoint = distributions[k].0.clone();
            let notice = SetNewPrevHashMessage {
                channel_id: distributions[k].1,
                job_id: 0,
                prev_hash: block_hash,
                min_ntime,
            };
            assert(dists[k as int] == (distributions@[k as int].0@, distributions@[k as int].1));
            out.push((endpoint, notice));
            k = k + 1;
        }
        assert(out@.map_values(|p: (String, SetNewPrevHashMessage)| (p.0@, p.1)) =~= want);
        out
    }

    /// Answers a mined-block event once the node was asked for the block
    /// `block_hash`: a failed lookup, with the node's error text `e`, is the
    /// server error `Failed to get block: e` and changes nothing; an unknown
    /// block changes nothing and sends nothing; a found block is handled as
    /// `block_mined` does.
    pub fn block_fetched(&mut self, fetched: Result<Option<Block>, String>, block_hash: Hash256) -> (res:
        Result<Vec<(String, SetNewPrevHashMessage)>, StratumV2Error>)
        requires
            old(self).pool_state().wf(),
        ensures
            final(self).pool_state().wf(),
            final(self).running() == old(self).running(),
            match fetched {
                Err(e) => (res matches Err(StratumV2Error::ServerError(m)) && m@
                    == "Failed to get block: "@ + e@) && final(self).pool_state()
                    == old(self).pool_state(),
                Ok(None) => (res matches Ok(v) && v@.len() == 0) && final(self).pool_state()
                    == old(self).pool_state(),
                Ok(Some(block)) => (res matches Ok(v) && v@.map_values(
                    |p: (String, SetNewPrevHashMessage)| (p.0@, p.1),
                ) == prev_hash_notices(
                    all_channels(old(self).pool_state().miners_view()),
                    block_hash,
                    block.header.timestamp,
                )) && final(self).pool_state().miners_view() == assign_job(
                    old(self).pool_state().miners_view(),
                    job_for(old(self).pool_state().next_job_id(), block@),
                ) && final(self).pool_state().next_job_id() == (if old(self).pool_state().next_job_id()
                    == u32::MAX {
                    0
                } else {
                    (old(self).pool_state().next_job_id() + 1) as u32
                }) && final(self).pool_state().template_view() == Some(block@)
                    && final(self).pool_state().default_difficulty()
                    == old(self).pool_state().default_difficulty(),
            },
    {
        match fetched {
            Err(e) => {
                let mut msg = "Failed to get block: ".to_owned();
                msg.append(e.as_str());
                Err(StratumV2Error::ServerError(msg))
            },
            Ok(None) => Ok(Vec::new()),
            Ok(Some(block)) => Ok(self.block_mined(block, block_hash)),
        }
    }

    /// The module call that hands a found block's proof of work to the
    /// DATUM pool: the method `submit_pow` with the block's 80-byte header.
    pub fn submit_pow_request(&self, block: &Block) -> (res: (String, Vec<u8>))
        ensures
            res.0@ == "submit_pow"@,
            res.1@ == header_bytes(block.header),
    {
        let h = &block.header;
        let mut data: Vec<u8> = Vec::new();
        push_le_bytes(&mut data, h.version as u64, 4);
        push_all(&mut data, h.prev_block_hash.as_slice());
        push_all(&mut data, h.merkle_root.as_slice());
        push_le_bytes(&mut data, h.timestamp, 4);
        push_le_bytes(&mut data, h.bits, 4);
        push_le_bytes(&mut data, h.nonce, 4);
        assert(data@ =~= header_bytes(block.header));
        ("submit_pow".to_owned(), data)
    }

    /// The block that `share` completes from `template`.
    pub fn block_from_share(&self, template: &Block, share: &ShareData) -> (res: Block)
        ensures
            res@ == block_from_share_view(template@, *share),
            res.header.version == share.version,
            res.header.merkle_root == share.merkle_root,
            res.header.nonce == share.nonce as u64,
            res.header.prev_block_hash == template.header.prev_block_hash,
            res.header.timestamp == template.header.timestamp,
            res.header.bits == template.header.bits,
            res@.transactions == template@.transactions,
    {
        let header = BlockHeader {
            version: share.version,
            merkle_root: share.merkle_root,
            nonce: share.nonce as u64,
            ..template.header
        };
        let res = Block { header, transactions: copy_transactions(&template.transactions) };
        assert(res@ =~= block_from_share_view(template@, *share));
        res
    }

    /// Answers a Submit Shares received at `now`: handles each share in turn
    /// (stopping at the first that fails), collects the blocks that valid
    /// shares complete, then cleans up old jobs.  Reports the job id of the
    /// last share (0 when there is none).
    pub fn handle_submit_shares_at(&mut self, endpoint: &str, msg: SubmitSharesMessage, now: u64) -> (res:
        (Result<SubmitSharesSuccessMessage, StratumV2Error>, Vec<Block>))
        requires
            old(self).pool_state().wf(),
            miner_has_room(old(self).pool_state().miners_view(), endpoint@, msg.shares@.len()),
        ensures
            final(self).pool_state().wf(),
            final(self).pool_state().same_jobs_state(&old(self).pool_state()),
            final(self).running() == old(self).running(),
            submit_shares_done(
                old(self).pool_state(),
                final(self).pool_state(),
                endpoint@,
                msg,
                now,
                res,
            ),
    {
        let ghost old_ms = self.pool.miners_view();
        let ghost shares = msg.shares@;
        let ghost template = self.pool.template_view();
        proof {
            lemma_shares_outcome_room(old_ms, endpoint@, shares, now, 0);
        }
        let mut last_job_id: u32 = 0;
        let mut blocks: Vec<Block> = Vec::new();
        let mut k: usize = 0;
        while k < msg.shares.len()
            invariant
                shares == msg.shares@,
                old_ms == old(self).pool.miners_view(),
                template == old(self).pool.template_view(),
                miner_has_room(old_ms, endpoint@, shares.len()),
                k <= shares.len(),
                self.pool.wf(),
                self.pool.same_jobs_state(&old(self).pool),
                self.running == old(self).running,
                self.pool.template_view() == template,
                shares_outcome(old_ms, endpoint@, shares.subrange(0, k as int), now).2 is None,
                shares_outcome(old_ms, endpoint@, shares.subrange(0, k as int), now).1.len() == k,
                self.pool.miners_view() == shares_outcome(
                    old_ms,
                    endpoint@,
                    shares.subrange(0, k as int),
                    now,
                ).0,
                miner_has_room(self.pool.miners_view(), endpoint@, (shares.len() - k) as nat),
                blocks_view(blocks@) == found_blocks(
                    template,
                    shares.subrange(0, k as int),
                    shares_outcome(old_ms, endpoint@, shares.subrange(0, k as int), now).1,
                ),
                last_job_id == (if k == 0 {
                    0
                } else {
                    shares[k - 1].job_id
                }),
            decreases shares.len() - k,
        {
            let share = msg.shares[k];
            let ghost pre = shares.subrange(0, k as int);
            let ghost post = shares.subrange(0, k + 1);
            let ghost prev_ms = self.pool.miners_view();
            let ghost flags = shares_outcome(old_ms, endpoint@, pre, now).1;
            proof {
                assert(post.drop_last() =~= pre);
                assert(post.last() == share);
                assert(miner_has_room(prev_ms, endpoint@, 1)) by {
                    assert forall|i: int| 0 <= i < prev_ms.len() && (#[trigger] prev_ms[i]).endpoint
                        == endpoint@ implies {
                        &&& prev_ms[i].stats.total_shares + 1 <= u64::MAX
                        &&& prev_ms[i].stats.accepted_shares + 1 <= u64::MAX
                        &&& prev_ms[i].stats.rejected_shares + 1 <= u64::MAX
                    } by {
                        assert(prev_ms[i].stats.total_shares + (shares.len() - k) <= u64::MAX);
                    }
                }
            }
            let (_valid_share, valid_block) = match self.pool.handle_share_at(endpoint, share, now) {
                Ok(p) => p,
                Err(e) => {
                    proof {
                        let step = share_outcome(prev_ms, endpoint@, share, now);
                        assert(step.1 is Err);
                        assert(shares_outcome(old_ms, endpoint@, post, now) == (
                            step.0,
                            flags,
                            Some(step.1->Err_0),
                        ));
                        lemma_shares_outcome_stops(old_ms, endpoint@, shares, (k + 1) as int, now);
                        assert(shares.subrange(0, flags.len() as int) =~= pre);
                    }
                    return (Err(e), blocks);
                },
            };
            proof {
                lemma_share_outcome_room(prev_ms, endpoint@, share, now, (shares.len() - k - 1) as nat);
                assert(flags.len() == pre.len()) by {
                    lemma_shares_outcome_room(old_ms, endpoint@, pre, now, (shares.len() - k) as nat);
                }
            }
            if valid_block {
                match self.pool.current_template() {
                    Some(t) => {
                        let b = self.block_from_share(t, &share);
                        blocks.push(b);
                    },
                    None => {},
                }
            }
            proof {
                let new_flags = flags.push(valid_block);
                assert(new_flags.drop_last() =~= flags);
                assert(blocks_view(blocks@) =~= found_blocks(template, post, new_flags));
            }
            last_job_id = share.job_id;
            k = k + 1;
        }
        proof {
            assert(shares.subrange(0, shares.len() as int) =~= shares);
        }
        self.pool.cleanup_old_jobs();
        (Ok(SubmitSharesSuccessMessage { channel_id: msg.channel_id, last_job_id }), blocks)
    }

    /// Bitcoin compact-size encoding of `value`.
    pub fn encode_varint(&self, value: u64) -> (res: Vec<u8>)
        ensures
            res@ == varint_bytes(value),
    {
        let mut result: Vec<u8> = Vec::new();
        if value < 0xfd {
            result.push(value as u8);
        } else if value <= 0xffff {
            result.push(0xfd);
            push_le_bytes(&mut result, value, 2);
        } else if value <= 0xffff_ffff {
            result.push(0xfe);
            push_le_bytes(&mut result, value, 4);
        } else {
            result.push(0xff);
            push_le_bytes(&mut result, value, 8);
        }
        assert(result@ =~= varint_bytes(value));
        result
    }

    /// Reads a compact-size integer at the start of `data`: the value and
    /// the number of bytes it took, or `(0, 0)` when `data` is empty or too
    /// short for the announced form.
    pub fn read_varint(&self, data: &[u8]) -> (res: (u64, usize))
        ensures
            res.0 == varint_read(data@).0,
            res.1 == varint_read(data@).1,
    {
        if data.len() == 0 {
            return (0, 0);
        }
        let first = data[0];
        if first < 0xfd {
            (first as u64, 1)
        } else if first == 0xfd {
            if data.len() < 3 {
                (0, 0)
            } else {
                (le_decode(data, 1, 2), 3)
            }
        } else if first == 0xfe {
            if data.len() < 5 {
                (0, 0)
            } else {
                (le_decode(data, 1, 4), 5)
            }
        } else {
            if data.len() < 9 {
                (0, 0)
            } else {
                (le_decode(data, 1, 8), 9)
            }
        }
    }

    fn serialize_input(&self, out: &mut Vec<u8>, input: &TransactionInput)
        ensures
            final(out)@ == old(out)@ + input_bytes(input@),
    {
        push_all(out, input.prevout.hash.as_slice());
        push_le_bytes(out, input.prevout.index as u64, 4);
        let len_bytes = self.encode_varint(input.script_sig.len() as u64);
        push_all(out, len_bytes.as_slice());
        push_all(out, input.script_sig.as_slice());
        push_le_bytes(out, input.sequence, 4);
        assert(final(out)@ =~= old(out)@ + input_bytes(input@));
    }

    fn serialize_output(&self, out: &mut Vec<u8>, output: &TransactionOutput)
        ensures
            final(out)@ == old(out)@ + output_bytes(output@),
    {
        push_le_bytes(out, output.value as u64, 8);
        let len_bytes = self.encode_varint(output.script_pubkey.len() as u64);
        push_all(out, len_bytes.as_slice());
        push_all(out, output.script_pubkey.as_slice());
        assert(final(out)@ =~= old(out)@ + output_bytes(output@));
    }

    /// The coinbase of `template` split for miners, and the Merkle branch
    /// from the coinbase up to the root.
    pub fn extract_template_parts(&self, template: &Block) -> (res: (Vec<u8>, Vec<u8>, Vec<Hash256>))
        ensures
            res.0@ == template_parts(template@).0,
            res.1@ == template_parts(template@).1,
            hashes_view(res.2@) == template_parts(template@).2,
    {
        if template.transactions.len() == 0 {
            let empty: Vec<Hash256> = Vec::new();
            assert(hashes_view(empty@) =~= Seq::<Seq<u8>>::empty());
            return (Vec::new(), Vec::new(), empty);
        }
        let coinbase_bytes = self.serialize_transaction(&template.transactions[0]);
        assert(template@.transactions[0] == template.transactions@[0]@);
        let len = coinbase_bytes.len();
        let mut split_point: usize = 4;
        if len > split_point {
            split_point = split_point + 1;
        }
        if len > split_point + 36 {
            split_point = split_point + 36;
        }
        if len > split_point {
            let rest = vstd::slice::slice_subrange(coinbase_bytes.as_slice(), split_point, len);
            let (_value, used) = self.read_varint(rest);
            split_point = split_point + used;
        }
        if split_point >= len {
            split_point = len / 2;
        }
        assert(split_point == coinbase_split(coinbase_bytes@));
        let prefix = vstd::slice::slice_to_vec(
            vstd::slice::slice_subrange(coinbase_bytes.as_slice(), 0, split_point),
        );
        let suffix = vstd::slice::slice_to_vec(
            vstd::slice::slice_subrange(coinbase_bytes.as_slice(), split_point, len),
        );
        let mut merkle_path: Vec<Hash256> = Vec::new();
        if template.transactions.len() > 1 {
            let ghost txs = template@.transactions;
            let ghost leaves = txs.map_values(|t: TransactionView| txid(t));
            let mut level: Vec<Hash256> = Vec::new();
            let mut i: usize = 0;
            while i < template.transactions.len()
                invariant
                    txs == template@.transactions,
                    leaves == txs.map_values(|t: TransactionView| txid(t)),
                    i <= txs.len(),
                    hashes_view(level@) == leaves.subrange(0, i as int),
                decreases txs.len() - i,
            {
                let tx_data = self.serialize_transaction(&template.transactions[i]);
                let id = double_sha256(tx_data.as_slice());
                assert(txs[i as int] == template.transactions@[i as int]@);
                assert(leaves[i as int] == txid(txs[i as int]));
                assert(id@ == leaves[i as int]);
                let ghost prev = level@;
                level.push(id);
                assert(hashes_view(level@) =~= hashes_view(prev).push(id@));
                assert(hashes_view(level@) =~= leaves.subrange(0, i + 1));
                i = i + 1;
            }
            assert(leaves.subrange(0, leaves.len() as int) =~= leaves);
            while level.len() > 1
                invariant
                    hashes_view(merkle_path@) + merkle_branch(hashes_view(level@)) == merkle_branch(
                        leaves,
                    ),
                decreases level@.len(),
            {
                let ghost lv = hashes_view(level@);
                let ghost prev_path = hashes_view(merkle_path@);
                let sibling = level[1];
                merkle_path.push(sibling);
                let next = merkle_level_up(&level);
                proof {
                    assert(merkle_branch(lv) == seq![lv[1]] + merkle_branch(next_level(lv)));
                    assert(hashes_view(merkle_path@) =~= prev_path.push(lv[1]));
                    assert(prev_path.push(lv[1]) + merkle_branch(next_level(lv)) =~= prev_path
                        + merkle_branch(lv));
                }
                level = next;
            }
            assert(merkle_branch(hashes_view(level@)) =~= Seq::<Seq<u8>>::empty());
            assert(hashes_view(merkle_path@) =~= merkle_branch(leaves));
        } else {
            assert(hashes_view(merkle_path@) =~= Seq::<Seq<u8>>::empty());
        }
        (prefix, suffix, merkle_path)
    }

    /// Legacy serialization of `tx`, as the consensus layer hashes it.
    pub fn serialize_transaction(&self, tx: &Transaction) -> (res: Vec<u8>)
        ensures
            res@ == tx_bytes(tx@),
            res@.len() >= 8,
            le_value(res@.subrange(0, 4)) == tx.version % 0x1_0000_0000,
            le_value(res@.subrange(res@.len() - 4, res@.len() as int)) == tx.lock_time
                % 0x1_0000_0000,
    {
        proof {
            lemma_tx_bytes_ends(tx@);
        }
        let mut data: Vec<u8> = Vec::new();
        push_le_bytes(&mut data, tx.version, 4);
        let n_in = self.encode_varint(tx.inputs.len() as u64);
        push_all(&mut data, n_in.as_slice());
        let ghost head = data@;
        let ghost ins = tx@.inputs;
        let mut i: usize = 0;
        while i < tx.inputs.len()
            invariant
                ins == tx@.inputs,
                i <= tx.inputs@.len(),
                data@ == head + inputs_bytes(ins.subrange(0, i as int)),
            decreases tx.inputs@.len() - i,
        {
            self.serialize_input(&mut data, &tx.inputs[i]);
            proof {
                assert(ins.subrange(0, i + 1).drop_last() =~= ins.subrange(0, i as int));
                assert(ins.subrange(0, i + 1).last() == tx.inputs@[i as int]@);
            }
            i = i + 1;
        }
        assert(ins.subrange(0, ins.len() as int) =~= ins);
        let n_out = self.encode_varint(tx.outputs.len() as u64);
        push_all(&mut data, n_out.as_slice());
        let ghost mid = data@;
        let ghost outs = tx@.outputs;
        let mut j: usize = 0;
        while j < tx.outputs.len()
            invariant
                outs == tx@.outputs,
                j <= tx.outputs@.len(),
                data@ == mid + outputs_bytes(outs.subrange(0, j as int)),
            decreases tx.outputs@.len() - j,
        {
            self.serialize_output(&mut data, &tx.outputs[j]);
            proof {
                assert(outs.subrange(0, j + 1).drop_last() =~= outs.subrange(0, j as int));
                assert(outs.subrange(0, j + 1).last() == tx.outputs@[j as int]@);
            }
            j = j + 1;
        }
        assert(outs.subrange(0, outs.len() as int) =~= outs);
        push_le_bytes(&mut data, tx.lock_time, 4);
        assert(data@ =~= tx_bytes(tx@));
        data
    }
}

} // verus!
