//! Mining pool state: miners, their channels, the jobs of each channel, and
//! share accounting.

use vstd::prelude::*;

use crate::encoding::pow256;
use crate::error::StratumV2Error;
use crate::hash::{
    be_bytes, be_value, lemma_be_value_concat, lemma_be_value_of_be_bytes, lemma_be_value_zero_bytes,
    lemma_lex_le_is_numeric, lex_le, zero_bytes, Hash256,
};
use crate::decimal::{decimal, decimal_string};
use crate::consensus::{check_proof_of_work, clock_reading, consensus_pow, unix_time_now};
use crate::encoding::{push_all, push_le_bytes};
use crate::hash::{double_sha256, hash_number, sha256d};
use crate::types::{header_bytes, Block, BlockHeader, BlockView};

verus! {

/// A mining job as a channel keeps it.
#[derive(Clone, Copy, Debug, PartialEq, Eq)]
pub struct JobInfo {
    pub job_id: u32,
    pub prev_hash: Hash256,
    pub bits: u32,
    pub timestamp: u64,
}

/// Share counters of a miner.
#[derive(Clone, Copy, Debug, PartialEq, Eq)]
pub struct MinerStats {
    pub total_shares: u64,
    pub accepted_shares: u64,
    pub rejected_shares: u64,
    pub last_share_time: Option<u64>,
}

/// A share submitted by a miner.
#[derive(Clone, Copy, Debug, PartialEq, Eq)]
pub struct ShareData {
    pub channel_id: u32,
    pub job_id: u32,
    pub nonce: u32,
    pub version: i64,
    pub merkle_root: Hash256,
}

/// A mining channel of a miner.
#[derive(Clone, Debug)]
pub struct ChannelInfo {
    pub channel_id: u32,
    pub target: Hash256,
    pub current_job_id: Option<u32>,
    pub min_difficulty: u32,
    pub max_jobs: u32,
    pub jobs: Vec<JobInfo>,
}

/// A connected miner.
#[derive(Clone, Debug)]
pub struct MinerConnection {
    pub endpoint: String,
    pub channels: Vec<ChannelInfo>,
    pub stats: MinerStats,
}

#[verifier::ext_equal]
pub struct ChannelView {
    pub channel_id: u32,
    pub target: Seq<u8>,
    pub current_job_id: Option<u32>,
    pub min_difficulty: u32,
    pub max_jobs: u32,
    pub jobs: Seq<JobInfo>,
}

#[verifier::ext_equal]
pub struct MinerView {
    pub endpoint: Seq<char>,
    pub channels: Seq<ChannelView>,
    pub stats: MinerStats,
}

impl View for ChannelInfo {
    type V = ChannelView;

    open spec fn view(&self) -> ChannelView {
        ChannelView {
            channel_id: self.channel_id,
            target: self.target@,
            current_job_id: self.current_job_id,
            min_difficulty: self.min_difficulty,
            max_jobs: self.max_jobs,
            jobs: self.jobs@,
        }
    }
}

impl View for MinerConnection {
    type V = MinerView;

    open spec fn view(&self) -> MinerView {
        MinerView {
            endpoint: self.endpoint@,
            channels: self.channels@.map_values(|c: ChannelInfo| c@),
            stats: self.stats,
        }
    }
}

/// Counters of a newly registered miner.
pub open spec fn fresh_stats() -> MinerStats {
    MinerStats { total_shares: 0, accepted_shares: 0, rejected_shares: 0, last_share_time: None }
}

impl Default for MinerStats {
    fn default() -> (res: Self)
        ensures
            res == fresh_stats(),
    {
        MinerStats { total_shares: 0, accepted_shares: 0, rejected_shares: 0, last_share_time: None }
    }
}

/// No two jobs share an id.
pub open spec fn distinct_jobs(jobs: Seq<JobInfo>) -> bool {
    forall|a: int, b: int|
        0 <= a < jobs.len() && 0 <= b < jobs.len() && a != b ==> jobs[a].job_id != jobs[b].job_id
}

/// No two channels share an id, and each channel's jobs are distinct.
pub open spec fn channels_wf(chs: Seq<ChannelView>) -> bool {
    &&& forall|a: int, b: int|
        0 <= a < chs.len() && 0 <= b < chs.len() && a != b ==> chs[a].channel_id
            != chs[b].channel_id
    &&& forall|a: int| 0 <= a < chs.len() ==> distinct_jobs(#[trigger] chs[a].jobs)
}

/// No two miners share an endpoint, and each miner's channels are well formed.
pub open spec fn miners_wf(ms: Seq<MinerView>) -> bool {
    &&& forall|a: int, b: int|
        0 <= a < ms.len() && 0 <= b < ms.len() && a != b ==> ms[a].endpoint != ms[b].endpoint
    &&& forall|a: int| 0 <= a < ms.len() ==> channels_wf(#[trigger] ms[a].channels)
}

/// Position of the miner with endpoint `ep`, or `-1`.
pub open spec fn miner_index(ms: Seq<MinerView>, ep: Seq<char>) -> int {
    if exists|i: int| 0 <= i < ms.len() && ms[i].endpoint == ep {
        choose|i: int| 0 <= i < ms.len() && ms[i].endpoint == ep
    } else {
        -1
    }
}

/// Position of the channel with id `id`, or `-1`.
pub open spec fn channel_index(chs: Seq<ChannelView>, id: u32) -> int {
    if exists|i: int| 0 <= i < chs.len() && chs[i].channel_id == id {
        choose|i: int| 0 <= i < chs.len() && chs[i].channel_id == id
    } else {
        -1
    }
}

/// Position of the job with id `id`, or `-1`.
pub open spec fn job_index(jobs: Seq<JobInfo>, id: u32) -> int {
    if exists|i: int| 0 <= i < jobs.len() && jobs[i].job_id == id {
        choose|i: int| 0 <= i < jobs.len() && jobs[i].job_id == id
    } else {
        -1
    }
}

/// Inserts a miner, replacing one with the same endpoint.
pub open spec fn upsert_miner(ms: Seq<MinerView>, m: MinerView) -> Seq<MinerView> {
    let i = miner_index(ms, m.endpoint);
    if i >= 0 {
        ms.update(i, m)
    } else {
        ms.push(m)
    }
}

/// Inserts a channel, replacing one with the same id.
pub open spec fn upsert_channel(chs: Seq<ChannelView>, c: ChannelView) -> Seq<ChannelView> {
    let i = channel_index(chs, c.channel_id);
    if i >= 0 {
        chs.update(i, c)
    } else {
        chs.push(c)
    }
}

/// Inserts a job, replacing one with the same id.
pub open spec fn upsert_job(jobs: Seq<JobInfo>, j: JobInfo) -> Seq<JobInfo> {
    let i = job_index(jobs, j.job_id);
    if i >= 0 {
        jobs.update(i, j)
    } else {
        jobs.push(j)
    }
}

/// A miner as registration creates it.
pub open spec fn fresh_miner(ep: Seq<char>) -> MinerView {
    MinerView { endpoint: ep, channels: Seq::empty(), stats: fresh_stats() }
}

/// How many jobs a newly opened channel keeps.
pub const DEFAULT_MAX_JOBS: u32 = 10;

/// The expanded genesis target, compact form `0x1d00ffff`: `0xffff` shifted
/// left by `8 * (0x1d - 3)` bits.
pub open spec fn genesis_target() -> nat {
    0xffff * pow256(26)
}

/// How much easier than the genesis target a channel target is.
pub open spec fn difficulty_multiplier(min_difficulty: u32) -> nat {
    if min_difficulty == 0 {
        1000
    } else if min_difficulty * 100 <= 10000 {
        (min_difficulty * 100) as nat
    } else {
        10000
    }
}

/// The numeric value of a channel's target.
pub open spec fn channel_target_value(min_difficulty: u32) -> nat {
    genesis_target() * difficulty_multiplier(min_difficulty)
}

/// The channel as `open_channel` creates it.
pub open spec fn fresh_channel(channel_id: u32, target: Seq<u8>, min_difficulty: u32) -> ChannelView {
    ChannelView {
        channel_id,
        target,
        current_job_id: None,
        min_difficulty,
        max_jobs: DEFAULT_MAX_JOBS,
        jobs: Seq::empty(),
    }
}

/// `ms` with channel `c` inserted into (or replacing one of) the channels
/// of the miner at position `i`.
pub open spec fn with_channel(ms: Seq<MinerView>, i: int, c: ChannelView) -> Seq<MinerView> {
    ms.update(
        i,
        MinerView {
            endpoint: ms[i].endpoint,
            channels: upsert_channel(ms[i].channels, c),
            stats: ms[i].stats,
        },
    )
}

/// Position of the channel with id `channel_id`.
fn find_channel(channels: &Vec<ChannelInfo>, channel_id: u32) -> (res: Option<usize>)
    requires
        channels_wf(channels@.map_values(|c: ChannelInfo| c@)),
    ensures
        match res {
            Some(j) => j == channel_index(channels@.map_values(|c: ChannelInfo| c@), channel_id)
                && j < channels@.len(),
            None => channel_index(channels@.map_values(|c: ChannelInfo| c@), channel_id) == -1,
        },
{
    let ghost cs = channels@.map_values(|c: ChannelInfo| c@);
    let mut j: usize = 0;
    while j < channels.len()
        invariant
            cs == channels@.map_values(|c: ChannelInfo| c@),
            channels_wf(cs),
            j <= channels@.len(),
            forall|k: int| 0 <= k < j ==> channels@[k].channel_id != channel_id,
        decreases channels@.len() - j,
    {
        if channels[j].channel_id == channel_id {
            proof {
                assert(cs[j as int].channel_id == channel_id);
                let x = channel_index(cs, channel_id);
                assert(0 <= x < cs.len() && cs[x].channel_id == channel_id);
                if x != j as int {
                    assert(cs[x].channel_id != cs[j as int].channel_id);
                }
            }
            return Some(j);
        }
        j = j + 1;
    }
    assert forall|k: int| 0 <= k < cs.len() implies cs[k].channel_id != channel_id by {
        assert(cs[k] == channels@[k]@);
    }
    None
}

/// Position of the job with id `job_id`.
fn find_job(jobs: &Vec<JobInfo>, job_id: u32) -> (res: Option<usize>)
    requires
        distinct_jobs(jobs@),
    ensures
        match res {
            Some(j) => j == job_index(jobs@, job_id) && j < jobs@.len(),
            None => job_index(jobs@, job_id) == -1,
        },
{
    let mut j: usize = 0;
    while j < jobs.len()
        invariant
            distinct_jobs(jobs@),
            j <= jobs@.len(),
            forall|k: int| 0 <= k < j ==> jobs@[k].job_id != job_id,
        decreases jobs@.len() - j,
    {
        if jobs[j].job_id == job_id {
            proof {
                let x = job_index(jobs@, job_id);
                assert(0 <= x < jobs@.len() && jobs@[x].job_id == job_id);
                if x != j as int {
                    assert(jobs@[x].job_id != jobs@[j as int].job_id);
                }
            }
            return Some(j);
        }
        j = j + 1;
    }
    None
}

/// The job that a template with header `h` becomes under id `job_id`.
pub open spec fn job_for(job_id: u32, template: BlockView) -> JobInfo {
    JobInfo {
        job_id,
        prev_hash: template.header.prev_block_hash,
        bits: template.header.bits as u32,
        timestamp: template.header.timestamp,
    }
}

/// A channel after job `job` was handed to it: it is the channel's current
/// job, and is kept among its jobs (replacing one with the same id).
pub open spec fn assign_job_to_channel(c: ChannelView, job: JobInfo) -> ChannelView {
    ChannelView { current_job_id: Some(job.job_id), jobs: upsert_job(c.jobs, job), ..c }
}

pub open spec fn assign_job_to_channels(cs: Seq<ChannelView>, job: JobInfo) -> Seq<ChannelView> {
    Seq::new(cs.len(), |k: int| assign_job_to_channel(cs[k], job))
}

/// Every channel of every miner after job `job` was handed out.
pub open spec fn assign_job(ms: Seq<MinerView>, job: JobInfo) -> Seq<MinerView> {
    Seq::new(
        ms.len(),
        |i: int|
            MinerView {
                endpoint: ms[i].endpoint,
                channels: assign_job_to_channels(ms[i].channels, job),
                stats: ms[i].stats,
            },
    )
}

/// The `(endpoint, channel id)` pairs of all open channels, miner by miner.
pub open spec fn all_channels(ms: Seq<MinerView>) -> Seq<(Seq<char>, u32)>
    decreases ms.len(),
{
    if ms.len() == 0 {
        Seq::empty()
    } else {
        all_channels(ms.drop_last()) + ms.last().channels.map_values(
            |c: ChannelView| (ms.last().endpoint, c.channel_id),
        )
    }
}

proof fn lemma_upsert_job_distinct(jobs: Seq<JobInfo>, j: JobInfo)
    requires
        distinct_jobs(jobs),
    ensures
        distinct_jobs(upsert_job(jobs, j)),
        upsert_job(jobs, j).len() >= 1,
{
    let i = job_index(jobs, j.job_id);
    if i >= 0 {
        assert(0 <= i < jobs.len() && jobs[i].job_id == j.job_id);
    }
}

/// Inserts `job` into `jobs`, replacing the job with the same id.
fn upsert_job_into(jobs: &mut Vec<JobInfo>, job: JobInfo)
    requires
        distinct_jobs(old(jobs)@),
    ensures
        final(jobs)@ == upsert_job(old(jobs)@, job),
        distinct_jobs(final(jobs)@),
{
    proof {
        lemma_upsert_job_distinct(old(jobs)@, job);
    }
    match find_job(jobs, job.job_id) {
        Some(k) => {
            jobs.set(k, job);
        },
        None => {
            jobs.push(job);
        },
    }
}

/// The header a share claims: the job's previous hash, timestamp and bits
/// with the share's version, merkle root and nonce.
pub open spec fn share_header(share: ShareData, job: JobInfo) -> BlockHeader {
    BlockHeader {
        version: share.version,
        prev_block_hash: job.prev_hash,
        merkle_root: share.merkle_root,
        timestamp: job.timestamp,
        bits: job.bits as u64,
        nonce: share.nonce as u64,
    }
}

/// The consensus layer's proof-of-work answer for `h`.
pub open spec fn header_pow(h: BlockHeader) -> Option<bool> {
    consensus_pow(h.version, h.prev_block_hash@, h.merkle_root@, h.timestamp, h.bits, h.nonce)
}

/// Whether the consensus layer accepts the proof of work of `h`.
pub open spec fn header_meets_network_target(h: BlockHeader) -> bool {
    header_pow(h) == Some(true)
}

/// Whether a job timestamp lies within two hours (7200 s) of `now`, both
/// read as signed 64-bit seconds.
pub open spec fn timestamp_close(timestamp: u64, now: u64) -> bool {
    let d = (timestamp as i64) as int - (now as i64) as int;
    -7200 <= d <= 7200
}

/// Whether `share` is a valid share of `job` for a channel with `target` at
/// time `now`: it names the job, the job's timestamp is within two hours of
/// `now`, and the double SHA-256 of its header, as a number, is at most the
/// target read big-endian.  Meeting the network target is what makes a
/// valid share a block; it is no condition for the share itself.
pub open spec fn share_valid(share: ShareData, job: JobInfo, target: Seq<u8>, now: u64) -> bool {
    &&& share.job_id == job.job_id
    &&& timestamp_close(job.timestamp, now)
    &&& hash_number(sha256d(header_bytes(share_header(share, job)))) <= be_value(target)
}

/// Whether `timestamp` lies within two hours of `now`.
fn timestamp_ok(timestamp: u64, now: u64) -> (res: bool)
    ensures
        res == timestamp_close(timestamp, now),
{
    let t: i128 = timestamp as i64 as i128;
    let current: i128 = now as i64 as i128;
    let diff: i128 = t - current;
    !(diff > 7200 || diff < -7200)
}

/// `h` with its bytes in reverse order.
fn reversed(h: &Hash256) -> (res: Hash256)
    ensures
        res@ == h@.reverse(),
{
    let mut r: Hash256 = [0u8; 32];
    let mut i: usize = 0;
    while i < 32
        invariant
            i <= 32,
            r@.len() == 32,
            forall|j: int| 0 <= j < i ==> r@[j] == h@[31 - j],
        decreases 32 - i,
    {
        r[i] = h[31 - i];
        i = i + 1;
    }
    assert(r@ =~= h@.reverse());
    r
}

/// Counters after a share was received at `now`.
pub open spec fn count_share(st: MinerStats, now: u64) -> MinerStats {
    MinerStats { total_shares: (st.total_shares + 1) as u64, last_share_time: Some(now), ..st }
}

/// Counters after a share was judged.
pub open spec fn record_verdict(st: MinerStats, accepted: bool) -> MinerStats {
    if accepted {
        MinerStats { accepted_shares: (st.accepted_shares + 1) as u64, ..st }
    } else {
        MinerStats { rejected_shares: (st.rejected_shares + 1) as u64, ..st }
    }
}

/// `ms` with the counters of the miner at `i` replaced.
pub open spec fn with_stats(ms: Seq<MinerView>, i: int, st: MinerStats) -> Seq<MinerView> {
    ms.update(i, MinerView { stats: st, ..ms[i] })
}

/// What handling `share` from `ep` at time `now` does: the miners after it,
/// and `Ok((valid share, valid block))`, or `Err` with the detail of the
/// protocol error for an unknown miner, channel or job.  Counting the share
/// (and its time) happens before the channel and the job are looked up.
pub open spec fn share_outcome(ms: Seq<MinerView>, ep: Seq<char>, share: ShareData, now: u64) -> (
    Seq<MinerView>,
    Result<(bool, bool), Seq<char>>,
) {
    let i = miner_index(ms, ep);
    if i < 0 {
        (ms, Err("Miner not registered: "@ + ep))
    } else {
        let counted = count_share(ms[i].stats, now);
        let c = channel_index(ms[i].channels, share.channel_id);
        if c < 0 {
            (with_stats(ms, i, counted), Err("Channel not found: "@ + decimal(share.channel_id as nat)))
        } else {
            let ch = ms[i].channels[c];
            let j = job_index(ch.jobs, share.job_id);
            if j < 0 {
                (with_stats(ms, i, counted), Err("Job not found: "@ + decimal(share.job_id as nat)))
            } else {
                let job = ch.jobs[j];
                let valid_share = share_valid(share, job, ch.target, now);
                let valid_block = valid_share && header_meets_network_target(share_header(share, job));
                (with_stats(ms, i, record_verdict(counted, valid_share)), Ok((valid_share, valid_block)))
            }
        }
    }
}

/// `res` is what `expect` describes: the pair, or a protocol error with
/// that detail.
pub open spec fn share_result_is(res: Result<(bool, bool), StratumV2Error>, expect: Result<(bool, bool), Seq<char>>) -> bool {
    match expect {
        Ok(p) => res == Ok::<(bool, bool), StratumV2Error>(p),
        Err(d) => res matches Err(StratumV2Error::ProtocolError(m)) && m@ == d,
    }
}

/// Each share counter of the miner registered at `ep`, if there is one,
/// can count `n` more shares.
pub open spec fn miner_has_room(ms: Seq<MinerView>, ep: Seq<char>, n: nat) -> bool {
    forall|i: int|
        0 <= i < ms.len() && (#[trigger] ms[i]).endpoint == ep ==> {
            &&& ms[i].stats.total_shares + n <= u64::MAX
            &&& ms[i].stats.accepted_shares + n <= u64::MAX
            &&& ms[i].stats.rejected_shares + n <= u64::MAX
        }
}

/// How many of `jobs` have an id above `id`.
pub open spec fn count_newer(jobs: Seq<JobInfo>, id: u32) -> nat
    decreases jobs.len(),
{
    if jobs.len() == 0 {
        0
    } else {
        count_newer(jobs.drop_last(), id) + if jobs.last().job_id > id {
            1nat
        } else {
            0nat
        }
    }
}

/// The jobs of `s`, in order, that have fewer than `max` jobs of `all` with
/// a higher id.
pub open spec fn newest_of(s: Seq<JobInfo>, all: Seq<JobInfo>, max: u32) -> Seq<JobInfo>
    decreases s.len(),
{
    if s.len() == 0 {
        Seq::empty()
    } else if count_newer(all, s.last().job_id) < max {
        newest_of(s.drop_last(), all, max).push(s.last())
    } else {
        newest_of(s.drop_last(), all, max)
    }
}

/// A channel's jobs after cleanup: when it holds more than `max` jobs, only
/// the `max` with the highest ids stay, in their order.
pub open spec fn keep_recent(jobs: Seq<JobInfo>, max: u32) -> Seq<JobInfo> {
    if jobs.len() > max {
        newest_of(jobs, jobs, max)
    } else {
        jobs
    }
}

pub open spec fn cleanup_channel(c: ChannelView) -> ChannelView {
    ChannelView { jobs: keep_recent(c.jobs, c.max_jobs), ..c }
}

pub open spec fn cleanup_channels(cs: Seq<ChannelView>) -> Seq<ChannelView> {
    Seq::new(cs.len(), |k: int| cleanup_channel(cs[k]))
}

/// Every channel of every miner after job cleanup.
pub open spec fn cleanup_jobs(ms: Seq<MinerView>) -> Seq<MinerView> {
    Seq::new(
        ms.len(),
        |i: int|
            MinerView {
                endpoint: ms[i].endpoint,
                channels: cleanup_channels(ms[i].channels),
                stats: ms[i].stats,
            },
    )
}

pub proof fn lemma_newest_of_from(s: Seq<JobInfo>, all: Seq<JobInfo>, max: u32)
    ensures
        forall|a: int|
            0 <= a < newest_of(s, all, max).len() ==> exists|b: int|
                0 <= b < s.len() && #[trigger] newest_of(s, all, max)[a] == s[b],
        newest_of(s, all, max).len() <= s.len(),
    decreases s.len(),
{
    if s.len() > 0 {
        lemma_newest_of_from(s.drop_last(), all, max);
        let r = newest_of(s, all, max);
        let r0 = newest_of(s.drop_last(), all, max);
        assert forall|a: int| 0 <= a < r.len() implies exists|b: int|
            0 <= b < s.len() && #[trigger] r[a] == s[b] by {
            if a < r0.len() {
                assert(r[a] == r0[a]);
                let b = choose|b: int| 0 <= b < s.drop_last().len() && r0[a] == s.drop_last()[b];
                assert(r[a] == s[b]);
            } else {
                assert(r[a] == s[s.len() - 1]);
            }
        }
    }
}

pub proof fn lemma_newest_of_distinct(s: Seq<JobInfo>, all: Seq<JobInfo>, max: u32)
    requires
        distinct_jobs(s),
    ensures
        distinct_jobs(newest_of(s, all, max)),
    decreases s.len(),
{
    if s.len() > 0 {
        let s0 = s.drop_last();
        assert(distinct_jobs(s0));
        lemma_newest_of_distinct(s0, all, max);
        lemma_newest_of_from(s0, all, max);
        let r0 = newest_of(s0, all, max);
        if count_newer(all, s.last().job_id) < max {
            let r = r0.push(s.last());
            assert forall|a: int, b: int|
                0 <= a < r.len() && 0 <= b < r.len() && a != b implies r[a].job_id != r[b].job_id by {
                if a < r0.len() && b < r0.len() {
                } else if a < r0.len() {
                    let x = choose|x: int| 0 <= x < s0.len() && r0[a] == s0[x];
                    assert(s[x] == r0[a]);
                } else if b < r0.len() {
                    let x = choose|x: int| 0 <= x < s0.len() && r0[b] == s0[x];
                    assert(s[x] == r0[b]);
                }
            }
        }
    }
}

/// Whether a miner survives cleanup at `now`: it sent a share at most
/// `timeout` seconds ago, or it never sent one but has a channel open.
pub open spec fn miner_active(m: MinerView, timeout: u64, now: u64) -> bool {
    match m.stats.last_share_time {
        Some(t) => (if now >= t { now - t } else { 0 }) <= timeout,
        None => m.channels.len() > 0,
    }
}

/// The miners of `ms` that survive cleanup, in order.
pub open spec fn active_miners(ms: Seq<MinerView>, timeout: u64, now: u64) -> Seq<MinerView>
    decreases ms.len(),
{
    if ms.len() == 0 {
        Seq::empty()
    } else if miner_active(ms.last(), timeout, now) {
        active_miners(ms.drop_last(), timeout, now).push(ms.last())
    } else {
        active_miners(ms.drop_last(), timeout, now)
    }
}

fn count_newer_jobs(jobs: &Vec<JobInfo>, id: u32) -> (res: usize)
    ensures
        res == count_newer(jobs@, id),
        res <= jobs@.len(),
{
    let mut n: usize = 0;
    let mut k: usize = 0;
    while k < jobs.len()
        invariant
            k <= jobs@.len(),
            n <= k,
            n == count_newer(jobs@.subrange(0, k as int), id),
        decreases jobs@.len() - k,
    {
        assert(jobs@.subrange(0, k + 1).drop_last() =~= jobs@.subrange(0, k as int));
        if jobs[k].job_id > id {
            n = n + 1;
        }
        k = k + 1;
    }
    assert(jobs@.subrange(0, jobs@.len() as int) =~= jobs@);
    n
}

/// The jobs of `jobs` with fewer than `max` jobs newer than themselves.
fn newest_jobs(jobs: &Vec<JobInfo>, max: u32) -> (res: Vec<JobInfo>)
    ensures
        res@ == newest_of(jobs@, jobs@, max),
{
    let mut out: Vec<JobInfo> = Vec::new();
    let mut k: usize = 0;
    while k < jobs.len()
        invariant
            k <= jobs@.len(),
            out@ == newest_of(jobs@.subrange(0, k as int), jobs@, max),
        decreases jobs@.len() - k,
    {
        let newer = count_newer_jobs(jobs, jobs[k].job_id);
        assert(jobs@.subrange(0, k + 1).drop_last() =~= jobs@.subrange(0, k as int));
        assert(jobs@.subrange(0, k + 1).last() == jobs@[k as int]);
        if newer < max as usize {
            out.push(jobs[k]);
        }
        k = k + 1;
    }
    assert(jobs@.subrange(0, jobs@.len() as int) =~= jobs@);
    out
}

pub proof fn lemma_active_miners_from(ms: Seq<MinerView>, timeout: u64, now: u64)
    ensures
        forall|a: int|
            0 <= a < active_miners(ms, timeout, now).len() ==> exists|b: int|
                0 <= b < ms.len() && #[trigger] active_miners(ms, timeout, now)[a] == ms[b],
    decreases ms.len(),
{
    if ms.len() > 0 {
        lemma_active_miners_from(ms.drop_last(), timeout, now);
        let r = active_miners(ms, timeout, now);
        let r0 = active_miners(ms.drop_last(), timeout, now);
        assert forall|a: int| 0 <= a < r.len() implies exists|b: int|
            0 <= b < ms.len() && #[trigger] r[a] == ms[b] by {
            if a < r0.len() {
                assert(r[a] == r0[a]);
                let b = choose|b: int| 0 <= b < ms.drop_last().len() && r0[a] == ms.drop_last()[b];
                assert(r[a] == ms[b]);
            } else {
                assert(r[a] == ms[ms.len() - 1]);
            }
        }
    }
}

pub proof fn lemma_active_miners_distinct(ms: Seq<MinerView>, timeout: u64, now: u64)
    requires
        miners_wf(ms),
    ensures
        miners_wf(active_miners(ms, timeout, now)),
    decreases ms.len(),
{
    if ms.len() > 0 {
        let s0 = ms.drop_last();
        assert(miners_wf(s0));
        lemma_active_miners_distinct(s0, timeout, now);
        lemma_active_miners_from(s0, timeout, now);
        lemma_active_miners_from(ms, timeout, now);
        let r0 = active_miners(s0, timeout, now);
        let r = active_miners(ms, timeout, now);
        if miner_active(ms.last(), timeout, now) {
            assert forall|a: int, b: int|
                0 <= a < r.len() && 0 <= b < r.len() && a != b implies r[a].endpoint != r[b].endpoint by {
                if a < r0.len() && b < r0.len() {
                } else if a < r0.len() {
                    let x = choose|x: int| 0 <= x < s0.len() && #[trigger] r0[a] == s0[x];
                    assert(ms[x] == r0[a]);
                } else if b < r0.len() {
                    let x = choose|x: int| 0 <= x < s0.len() && #[trigger] r0[b] == s0[x];
                    assert(ms[x] == r0[b]);
                }
            }
        }
        assert forall|a: int| 0 <= a < r.len() implies channels_wf(#[trigger] r[a].channels) by {
            let x = choose|x: int| 0 <= x < ms.len() && #[trigger] r[a] == ms[x];
        }
    }
}

/// Sum over miners of their total shares.
pub open spec fn sum_total(ms: Seq<MinerView>) -> nat
    decreases ms.len(),
{
    if ms.len() == 0 { 0 } else { sum_total(ms.drop_last()) + ms.last().stats.total_shares as nat }
}

/// Sum over miners of their accepted shares.
pub open spec fn sum_accepted(ms: Seq<MinerView>) -> nat
    decreases ms.len(),
{
    if ms.len() == 0 { 0 } else { sum_accepted(ms.drop_last()) + ms.last().stats.accepted_shares as nat }
}

/// Sum over miners of their rejected shares.
pub open spec fn sum_rejected(ms: Seq<MinerView>) -> nat
    decreases ms.len(),
{
    if ms.len() == 0 { 0 } else { sum_rejected(ms.drop_last()) + ms.last().stats.rejected_shares as nat }
}

proof fn lemma_sums_monotone(ms: Seq<MinerView>, k: int)
    requires
        0 <= k <= ms.len(),
    ensures
        sum_total(ms.subrange(0, k)) <= sum_total(ms),
        sum_accepted(ms.subrange(0, k)) <= sum_accepted(ms),
        sum_rejected(ms.subrange(0, k)) <= sum_rejected(ms),
    decreases ms.len() - k,
{
    if k < ms.len() {
        lemma_sums_monotone(ms, k + 1);
        assert(ms.subrange(0, k + 1).drop_last() =~= ms.subrange(0, k));
    } else {
        assert(ms.subrange(0, k) =~= ms);
    }
}

/// Stratum V2 pool: the connected miners and the job state.
pub struct StratumV2Pool {
    pub miners: Vec<MinerConnection>,
    current_template: Option<Block>,
    job_id_counter: u32,
    default_min_difficulty: u32,
}

impl StratumV2Pool {
    /// The miners as values.
    pub closed spec fn miners_view(&self) -> Seq<MinerView> {
        self.miners@.map_values(|m: MinerConnection| m@)
    }

    /// The pool's structural invariant.
    pub open spec fn wf(&self) -> bool {
        miners_wf(self.miners_view())
    }

    pub closed spec fn template_view(&self) -> Option<BlockView> {
        match self.current_template {
            Some(b) => Some(b@),
            None => None,
        }
    }

    pub closed spec fn next_job_id(&self) -> u32 {
        self.job_id_counter
    }

    pub closed spec fn default_difficulty(&self) -> u32 {
        self.default_min_difficulty
    }

    /// The job counter, the template and the default difficulty are those of `other`.
    pub open spec fn same_jobs_state(&self, other: &Self) -> bool {
        &&& self.template_view() == other.template_view()
        &&& self.next_job_id() == other.next_job_id()
        &&& self.default_difficulty() == other.default_difficulty()
    }

    /// A pool with no miners, no template, and job ids starting at 1.
    pub fn new() -> (res: Self)
        ensures
            res.wf(),
            res.miners_view() == Seq::<MinerView>::empty(),
            res.template_view() == None::<BlockView>,
            res.next_job_id() == 1,
            res.default_difficulty() == 1,
    {
        let res = StratumV2Pool {
            miners: Vec::new(),
            current_template: None,
            job_id_counter: 1,
            default_min_difficulty: 1,
        };
        assert(res.miners_view() =~= Seq::<MinerView>::empty());
        res
    }

    /// Position of the miner with endpoint `endpoint`.
    fn find_miner(&self, endpoint: &String) -> (res: Option<usize>)
        requires
            self.wf(),
        ensures
            match res {
                Some(i) => i == miner_index(self.miners_view(), endpoint@) && i
                    < self.miners@.len(),
                None => miner_index(self.miners_view(), endpoint@) == -1,
            },
    {
        let mut i: usize = 0;
        while i < self.miners.len()
            invariant
                self.wf(),
                i <= self.miners@.len(),
                forall|k: int| 0 <= k < i ==> self.miners@[k].endpoint@ != endpoint@,
            decreases self.miners@.len() - i,
        {
            if self.miners[i].endpoint == *endpoint {
                proof {
                    let ms = self.miners_view();
                    assert(ms[i as int].endpoint == endpoint@);
                    let j = miner_index(ms, endpoint@);
                    assert(0 <= j < ms.len() && ms[j].endpoint == endpoint@);
                    if j != i as int {
                        assert(ms[j].endpoint != ms[i as int].endpoint);
                    }
                }
                return Some(i);
            }
            i = i + 1;
        }
        assert forall|k: int| 0 <= k < self.miners_view().len() implies self.miners_view()[k].endpoint
            != endpoint@ by {
            assert(self.miners_view()[k] == self.miners@[k]@);
        }
        None
    }

    /// Whether a miner with this endpoint is registered.
    pub open spec fn has_miner(&self, ep: Seq<char>) -> bool {
        miner_index(self.miners_view(), ep) >= 0
    }

    /// Whether `hash1 <= hash2`, both read as 256-bit big-endian numbers.
    pub fn hash_less_than_or_equal(&self, hash1: &Hash256, hash2: &Hash256) -> (res: bool)
        ensures
            res == (be_value(hash1@) <= be_value(hash2@)),
    {
        let mut i: usize = 0;
        assert(hash1@.subrange(0, 32) =~= hash1@);
        assert(hash2@.subrange(0, 32) =~= hash2@);
        while i < 32
            invariant
                i <= 32,
                lex_le(hash1@, hash2@) == lex_le(
                    hash1@.subrange(i as int, 32),
                    hash2@.subrange(i as int, 32),
                ),
            decreases 32 - i,
        {
            let ghost a = hash1@.subrange(i as int, 32);
            let ghost b = hash2@.subrange(i as int, 32);
            assert(a[0] == hash1@[i as int] && b[0] == hash2@[i as int]);
            if hash1[i] < hash2[i] {
                proof {
                    lemma_lex_le_is_numeric(hash1@, hash2@);
                }
                return true;
            } else if hash1[i] > hash2[i] {
                proof {
                    lemma_lex_le_is_numeric(hash1@, hash2@);
                }
                return false;
            }
            assert(a.subrange(1, a.len() as int) =~= hash1@.subrange(i + 1, 32));
            assert(b.subrange(1, b.len() as int) =~= hash2@.subrange(i + 1, 32));
            i = i + 1;
        }
        proof {
            lemma_lex_le_is_numeric(hash1@, hash2@);
        }
        true
    }

    /// The target of a channel opened with `min_difficulty`: the genesis
    /// target times 1000 for difficulty 0, else times
    /// `min(100 * min_difficulty, 10000)`, as a 32-byte big-endian number.
    /// The product stays far below 2^256, so it is never clamped.
    pub fn calculate_channel_target(&self, min_difficulty: u32) -> (res: Result<Hash256, StratumV2Error>)
        ensures
            match res {
                Ok(t) => be_value(t@) == channel_target_value(min_difficulty),
                Err(_) => false,
            },
    {
        let multiplier: u64 = if min_difficulty == 0 {
            1000
        } else {
            let m: u64 = min_difficulty as u64 * 100;
            if m <= 10000 {
                m
            } else {
                10000
            }
        };
        let v: u64 = 0xffff * multiplier;
        let b2: u8 = (v / 0x100_0000) as u8;
        let b3: u8 = ((v / 0x1_0000) % 256) as u8;
        let b4: u8 = ((v / 0x100) % 256) as u8;
        let b5: u8 = (v % 256) as u8;
        let t: Hash256 = [
            0, 0, b2, b3, b4, b5, 0, 0, 0, 0, 0, 0, 0, 0, 0, 0,
            0, 0, 0, 0, 0, 0, 0, 0, 0, 0, 0, 0, 0, 0, 0, 0,
        ];
        proof {
            let head = be_bytes(v as int, 6);
            assert(v < 0x1_0000_0000);
            assert(pow256(6) == 0x1_0000_0000_0000) by {
                reveal_with_fuel(pow256, 7);
            }
            lemma_be_value_of_be_bytes(v as nat, 6);
            assert(head =~= seq![0u8, 0u8, b2, b3, b4, b5]) by {
                reveal_with_fuel(be_bytes, 7);
                assert(v / 256 / 256 / 256 / 256 / 256 == 0);
                assert(v / 256 / 256 / 256 / 256 == 0);
                assert(v / 256 / 256 / 256 == v / 0x100_0000);
                assert(v / 256 / 256 == v / 0x1_0000);
            }
            assert(t@ =~= head + zero_bytes(26));
            lemma_be_value_concat(head, zero_bytes(26));
            lemma_be_value_zero_bytes(26);
            assert(be_value(t@) == v * pow256(26));
            assert(multiplier == difficulty_multiplier(min_difficulty));
            let p = pow256(26) as int;
            let mm = multiplier as int;
            assert((0xffff * mm) * p == (0xffff * p) * mm) by (nonlinear_arith);
        }
        Ok(t)
    }

    /// Opens channel `channel_id` for the miner at `endpoint`, with the target
    /// that `min_difficulty` gives and room for `DEFAULT_MAX_JOBS` jobs; a
    /// channel with that id is replaced.  Fails, changing nothing, when no
    /// miner is registered there.
    pub fn open_channel(&mut self, endpoint: &str, channel_id: u32, min_difficulty: u32) -> (res:
        Result<Hash256, StratumV2Error>)
        requires
            old(self).wf(),
        ensures
            final(self).wf(),
            final(self).same_jobs_state(old(self)),
            !old(self).has_miner(endpoint@) ==> (res matches Err(StratumV2Error::ProtocolError(m))
                && m@ == "Miner not registered: "@ + endpoint@) && final(self).miners_view()
                == old(self).miners_view(),
            old(self).has_miner(endpoint@) ==> match res {
                Ok(t) => be_value(t@) == channel_target_value(min_difficulty)
                    && final(self).miners_view() == with_channel(
                    old(self).miners_view(),
                    miner_index(old(self).miners_view(), endpoint@),
                    fresh_channel(channel_id, t@, min_difficulty),
                ),
                Err(_) => false,
            },
    {
        let ep = endpoint.to_owned();
        let ghost old_ms = self.miners_view();
        match self.find_miner(&ep) {
            None => {
                let mut msg = "Miner not registered: ".to_owned();
                msg.append(endpoint);
                Err(StratumV2Error::ProtocolError(msg))
            },
            Some(i) => {
                let target = match self.calculate_channel_target(min_difficulty) {
                    Ok(t) => t,
                    Err(e) => return Err(e),
                };
                let ch = ChannelInfo {
                    channel_id,
                    target,
                    current_job_id: None,
                    min_difficulty,
                    max_jobs: DEFAULT_MAX_JOBS,
                    jobs: Vec::new(),
                };
                assert(ch@ == fresh_channel(channel_id, target@, min_difficulty)) by {
                    assert(ch.jobs@ =~= Seq::<JobInfo>::empty());
                }
                let ghost old_cs = self.miners@[i as int].channels@.map_values(|c: ChannelInfo| c@);
                assert(old_cs == old_ms[i as int].channels);
                assert(channels_wf(old_cs));
                let found = find_channel(&self.miners[i].channels, channel_id);
                match found {
                    Some(j) => {
                        self.miners[i].channels.set(j, ch);
                    },
                    None => {
                        self.miners[i].channels.push(ch);
                    },
                }
                proof {
                    let new_cs = self.miners@[i as int].channels@.map_values(|c: ChannelInfo| c@);
                    let c = fresh_channel(channel_id, target@, min_difficulty);
                    assert(new_cs =~= upsert_channel(old_cs, c));
                    assert(self.miners_view() =~= with_channel(old_ms, i as int, c));
                    let ms = self.miners_view();
                    assert(channels_wf(new_cs)) by {
                        assert forall|a: int| 0 <= a < new_cs.len() implies distinct_jobs(
                            #[trigger] new_cs[a].jobs,
                        ) by {
                            if new_cs[a].channel_id != channel_id {
                                assert(new_cs[a] == old_cs[a]);
                            } else {
                                assert(new_cs[a].jobs =~= Seq::<JobInfo>::empty());
                            }
                        }
                    }
                    assert forall|a: int| 0 <= a < ms.len() implies channels_wf(
                        #[trigger] ms[a].channels,
                    ) by {
                        if a != i as int {
                            assert(ms[a] == old_ms[a]);
                        }
                    }
                }
                Ok(target)
            },
        }
    }

    /// Makes `template` the current template and hands a new job made from
    /// it to every open channel.  The job takes the next job id; the counter
    /// then advances, wrapping around.  Returns the job id and the
    /// `(endpoint, channel id)` of every channel that got it.
    pub fn set_template(&mut self, template: Block) -> (res: (u32, Vec<(String, u32)>))
        requires
            old(self).wf(),
        ensures
            final(self).wf(),
            res.0 == old(self).next_job_id(),
            final(self).miners_view() == assign_job(
                old(self).miners_view(),
                job_for(res.0, template@),
            ),
            res.1@.map_values(|p: (String, u32)| (p.0@, p.1)) == all_channels(
                old(self).miners_view(),
            ),
            final(self).next_job_id() == (if old(self).next_job_id() == u32::MAX {
                0
            } else {
                (old(self).next_job_id() + 1) as u32
            }),
            final(self).template_view() == Some(template@),
            final(self).default_difficulty() == old(self).default_difficulty(),
    {
        let job_id = self.job_id_counter;
        self.job_id_counter = self.job_id_counter.wrapping_add(1);
        let job = JobInfo {
            job_id,
            prev_hash: template.header.prev_block_hash,
            bits: template.header.bits as u32,
            timestamp: template.header.timestamp,
        };
        let ghost old_ms = self.miners_view();
        let ghost target_ms = assign_job(old_ms, job);
        let ghost counter = self.job_id_counter;
        let ghost default_d = self.default_min_difficulty;
        let mut distributions: Vec<(String, u32)> = Vec::new();
        let mut i: usize = 0;
        while i < self.miners.len()
            invariant
                self.job_id_counter == counter,
                self.default_min_difficulty == default_d,
                target_ms == assign_job(old_ms, job),
                i <= self.miners@.len(),
                self.miners@.len() == old_ms.len(),
                miners_wf(old_ms),
                job == job_for(job_id, template@),
                forall|k: int| 0 <= k < i ==> #[trigger] self.miners@[k]@ == target_ms[k],
                forall|k: int| i <= k < old_ms.len() ==> #[trigger] self.miners@[k]@ == old_ms[k],
                distributions@.map_values(|p: (String, u32)| (p.0@, p.1)) == all_channels(
                    old_ms.subrange(0, i as int),
                ),
            decreases old_ms.len() - i,
        {
            let ghost old_m = old_ms[i as int];
            let ghost old_cs = old_m.channels;
            let ghost d0 = distributions@.map_values(|p: (String, u32)| (p.0@, p.1));
            assert(channels_wf(old_cs));
            assert(self.miners@[i as int]@ == old_ms[i as int]);
            assert forall|k: int| 0 <= k < old_cs.len() implies #[trigger] self.miners@[i as int].channels@[k]@
                == old_cs[k] by {
                assert(self.miners@[i as int]@.channels[k] == self.miners@[i as int].channels@[k]@);
            }
            let mut j: usize = 0;
            while j < self.miners[i].channels.len()
                invariant
                    self.job_id_counter == counter,
                    self.default_min_difficulty == default_d,
                    target_ms == assign_job(old_ms, job),
                    job.job_id == job_id,
                    i < self.miners@.len(),
                    self.miners@.len() == old_ms.len(),
                    self.miners@[i as int].endpoint@ == old_m.endpoint,
                    self.miners@[i as int].stats == old_m.stats,
                    self.miners@[i as int].channels@.len() == old_cs.len(),
                    channels_wf(old_cs),
                    j <= old_cs.len(),
                    forall|k: int| 0 <= k < i ==> #[trigger] self.miners@[k]@ == target_ms[k],
                    forall|k: int| i < k < old_ms.len() ==> #[trigger] self.miners@[k]@ == old_ms[k],
                    forall|k: int| 0 <= k < j ==> #[trigger] self.miners@[i as int].channels@[k]@
                        == assign_job_to_channel(old_cs[k], job),
                    forall|k: int| j <= k < old_cs.len() ==> #[trigger] self.miners@[i as int].channels@[k]@
                        == old_cs[k],
                    distributions@.map_values(|p: (String, u32)| (p.0@, p.1)) == d0
                        + old_cs.subrange(0, j as int).map_values(
                        |c: ChannelView| (old_m.endpoint, c.channel_id),
                    ),
                decreases old_cs.len() - j,
            {
                assert(self.miners@[i as int].channels@[j as int]@ == old_cs[j as int]);
                assert(distinct_jobs(old_cs[j as int].jobs));
                let ghost c0 = self.miners@[i as int].channels@[j as int]@;
                let cid = self.miners[i].channels[j].channel_id;
                self.miners[i].channels[j].current_job_id = Some(job_id);
                assert(self.miners@[i as int].channels@[j as int]@ == ChannelView {
                    current_job_id: Some(job_id),
                    ..c0
                });
                upsert_job_into(&mut self.miners[i].channels[j].jobs, job);
                assert(self.miners@[i as int].channels@[j as int].jobs@ == upsert_job(c0.jobs, job));
                assert(self.miners@[i as int].channels@[j as int].channel_id == c0.channel_id);
                assert(self.miners@[i as int].channels@[j as int].target@ == c0.target);
                assert(self.miners@[i as int].channels@[j as int].min_difficulty == c0.min_difficulty);
                assert(self.miners@[i as int].channels@[j as int].max_jobs == c0.max_jobs);
                assert(self.miners@[i as int].channels@[j as int].current_job_id == Some(job_id));
                proof {
                    let a = self.miners@[i as int].channels@[j as int]@;
                    let b = assign_job_to_channel(old_cs[j as int], job);
                    assert(c0 == old_cs[j as int]);
                    assert(a.jobs =~= b.jobs);
                    assert(a.target =~= b.target);
                    assert(a.channel_id == b.channel_id);
                    assert(a.current_job_id == b.current_job_id);
                    assert(a.min_difficulty == b.min_difficulty);
                    assert(a.max_jobs == b.max_jobs);
                    assert(a =~= b);
                }
                let ep = self.miners[i].endpoint.clone();
                let ghost before = distributions@;
                distributions.push((ep, cid));
                proof {
                    assert(distributions@.map_values(|p: (String, u32)| (p.0@, p.1))
                        =~= before.map_values(|p: (String, u32)| (p.0@, p.1)).push(
                        (old_m.endpoint, cid),
                    ));
                    assert(old_cs.subrange(0, j + 1).map_values(
                        |c: ChannelView| (old_m.endpoint, c.channel_id),
                    ) =~= old_cs.subrange(0, j as int).map_values(
                        |c: ChannelView| (old_m.endpoint, c.channel_id),
                    ).push((old_m.endpoint, cid)));
                }
                j = j + 1;
                assert(distributions@.map_values(|p: (String, u32)| (p.0@, p.1)) =~= d0
                    + old_cs.subrange(0, j as int).map_values(
                    |c: ChannelView| (old_m.endpoint, c.channel_id),
                ));
            }
            proof {
                assert(self.miners@[i as int].channels@.map_values(|c: ChannelInfo| c@)
                    =~= assign_job_to_channels(old_cs, job));
                assert(self.miners@[i as int]@.channels == assign_job_to_channels(old_cs, job));
                assert(self.miners@[i as int]@.endpoint == old_m.endpoint);
                assert(self.miners@[i as int]@.stats == old_m.stats);
                assert(target_ms[i as int] == MinerView {
                    endpoint: old_m.endpoint,
                    channels: assign_job_to_channels(old_cs, job),
                    stats: old_m.stats,
                });
                assert(self.miners@[i as int]@ =~= target_ms[i as int]);
                let pre = old_ms.subrange(0, i as int);
                let pre1 = old_ms.subrange(0, i + 1);
                assert(pre1.drop_last() =~= pre);
                assert(old_cs.subrange(0, old_cs.len() as int) =~= old_cs);
            }
            i = i + 1;
        }
        proof {
            assert(old_ms.subrange(0, old_ms.len() as int) =~= old_ms);
            assert(self.miners_view() =~= target_ms);
            assert forall|a: int| 0 <= a < target_ms.len() implies channels_wf(
                #[trigger] target_ms[a].channels,
            ) by {
                let cs = old_ms[a].channels;
                assert(channels_wf(cs));
                let ncs = target_ms[a].channels;
                assert forall|b: int| 0 <= b < ncs.len() implies distinct_jobs(
                    #[trigger] ncs[b].jobs,
                ) by {
                    lemma_upsert_job_distinct(cs[b].jobs, job);
                }
            }
        }
        self.current_template = Some(template);
        (job_id, distributions)
    }

    /// Double SHA-256 of the 80-byte serialized header (version, previous
    /// hash, merkle root, timestamp, bits, nonce; integers as their low 4
    /// bytes, little-endian), as the consensus layer serializes it.
    pub fn calculate_block_hash(&self, header: &BlockHeader) -> (res: Hash256)
        ensures
            res@ == sha256d(header_bytes(*header)),
    {
        let mut data: Vec<u8> = Vec::new();
        push_le_bytes(&mut data, header.version as u64, 4);
        push_all(&mut data, header.prev_block_hash.as_slice());
        push_all(&mut data, header.merkle_root.as_slice());
        push_le_bytes(&mut data, header.timestamp, 4);
        push_le_bytes(&mut data, header.bits, 4);
        push_le_bytes(&mut data, header.nonce, 4);
        proof {
            assert(data@ =~= header_bytes(*header));
        }
        double_sha256(data.as_slice())
    }

    /// Whether the share's header meets the network target (a block).
    fn validate_block(&self, share: &ShareData, job_info: &JobInfo) -> (res: bool)
        ensures
            res == header_meets_network_target(share_header(*share, *job_info)),
    {
        match check_proof_of_work(
            share.version,
            &job_info.prev_hash,
            &share.merkle_root,
            job_info.timestamp,
            job_info.bits as u64,
            share.nonce as u64,
        ) {
            Some(valid) => valid,
            None => false,
        }
    }

    /// Validates `share` against `job_info` and the channel `target` at time
    /// `now`: the share names the job, the job is within two hours of `now`,
    /// and its header hash, as a number, is at most the target.
    pub fn validate_share_at(&self, share: &ShareData, job_info: &JobInfo, target: &Hash256, now: u64) -> (res: bool)
        ensures
            res == share_valid(*share, *job_info, target@, now),
    {
        if share.job_id != job_info.job_id || !timestamp_ok(job_info.timestamp, now) {
            return false;
        }
        let header = BlockHeader {
            version: share.version,
            prev_block_hash: job_info.prev_hash,
            merkle_root: share.merkle_root,
            timestamp: job_info.timestamp,
            bits: job_info.bits as u64,
            nonce: share.nonce as u64,
        };
        let block_hash = self.calculate_block_hash(&header);
        let number = reversed(&block_hash);
        self.hash_less_than_or_equal(&number, target)
    }

    /// Validates `share` against `job_info` and the channel `target` at the
    /// current time: the result is `share_valid` at the clock reading taken
    /// by the call.
    pub fn validate_share(&self, share: &ShareData, job_info: &JobInfo, target: &Hash256) -> (res: bool)
        ensures
            exists|now: u64|
                #[trigger] clock_reading(now) && res == share_valid(*share, *job_info, target@, now),
    {
        let now = unix_time_now();
        self.validate_share_at(share, job_info, target, now)
    }

    /// Handles a share from `endpoint` received at `now`: counts it, looks up
    /// its channel and job, validates it, and records whether it was
    /// accepted.  Returns `(valid share, valid block)`.
    pub fn handle_share_at(&mut self, endpoint: &str, share: ShareData, now: u64) -> (res: Result<
        (bool, bool),
        StratumV2Error,
    >)
        requires
            old(self).wf(),
            miner_has_room(old(self).miners_view(), endpoint@, 1),
        ensures
            final(self).wf(),
            final(self).same_jobs_state(old(self)),
            final(self).miners_view() == share_outcome(old(self).miners_view(), endpoint@, share, now).0,
            share_result_is(res, share_outcome(old(self).miners_view(), endpoint@, share, now).1),
    {
        let ghost old_ms = self.miners_view();
        let ep = endpoint.to_owned();
        let i = match self.find_miner(&ep) {
            None => {
                let mut msg = "Miner not registered: ".to_owned();
                msg.append(endpoint);
                return Err(StratumV2Error::ProtocolError(msg));
            },
            Some(i) => i,
        };
        let ghost m0 = old_ms[i as int];
        assert(self.miners@[i as int]@ == m0);
        assert(m0.endpoint == endpoint@);
        assert(m0.stats.total_shares < u64::MAX);
        self.miners[i].stats.total_shares = self.miners[i].stats.total_shares + 1;
        self.miners[i].stats.last_share_time = Some(now);
        let ghost counted = count_share(m0.stats, now);
        assert(self.miners@[i as int].stats == counted);
        assert(self.miners_view() =~= with_stats(old_ms, i as int, counted)) by {
            assert(self.miners@[i as int]@ =~= MinerView { stats: counted, ..m0 });
        }
        assert(channels_wf(m0.channels));
        let c = match find_channel(&self.miners[i].channels, share.channel_id) {
            None => {
                let mut msg = "Channel not found: ".to_owned();
                let id = decimal_string(share.channel_id as u64);
                msg.append(id.as_str());
                proof { self.lemma_stats_keep_wf(old_ms, i as int, counted); }
                return Err(StratumV2Error::ProtocolError(msg));
            },
            Some(c) => c,
        };
        let ghost ch = m0.channels[c as int];
        assert(self.miners@[i as int].channels@[c as int]@ == ch);
        assert(distinct_jobs(ch.jobs));
        let j = match find_job(&self.miners[i].channels[c].jobs, share.job_id) {
            None => {
                let mut msg = "Job not found: ".to_owned();
                let id = decimal_string(share.job_id as u64);
                msg.append(id.as_str());
                proof { self.lemma_stats_keep_wf(old_ms, i as int, counted); }
                return Err(StratumV2Error::ProtocolError(msg));
            },
            Some(j) => j,
        };
        let job_info = self.miners[i].channels[c].jobs[j];
        let target = self.miners[i].channels[c].target;
        assert(job_info == ch.jobs[j as int]);
        assert(target@ == ch.target);
        let is_valid_share = self.validate_share_at(&share, &job_info, &target, now);
        let is_valid_block = if is_valid_share {
            self.validate_block(&share, &job_info)
        } else {
            false
        };
        if is_valid_share {
            self.miners[i].stats.accepted_shares = self.miners[i].stats.accepted_shares + 1;
        } else {
            self.miners[i].stats.rejected_shares = self.miners[i].stats.rejected_shares + 1;
        }
        let ghost verdict = record_verdict(counted, is_valid_share);
        assert(self.miners@[i as int].stats == verdict);
        assert(self.miners_view() =~= with_stats(old_ms, i as int, verdict)) by {
            assert(self.miners@[i as int]@ =~= MinerView { stats: verdict, ..m0 });
        }
        proof { self.lemma_stats_keep_wf(old_ms, i as int, verdict); }
        Ok((is_valid_share, is_valid_block))
    }

    proof fn lemma_stats_keep_wf(&self, old_ms: Seq<MinerView>, i: int, st: MinerStats)
        requires
            miners_wf(old_ms),
            0 <= i < old_ms.len(),
            self.miners_view() == with_stats(old_ms, i, st),
        ensures
            self.wf(),
    {
        let ms = self.miners_view();
        assert forall|a: int| 0 <= a < ms.len() implies channels_wf(#[trigger] ms[a].channels) by {
            assert(ms[a].channels == old_ms[a].channels);
        }
    }

    /// Handles a share from `endpoint` at the current time: what
    /// `handle_share_at` does at the clock reading taken by the call.
    pub fn handle_share(&mut self, endpoint: &str, share: ShareData) -> (res: Result<
        (bool, bool),
        StratumV2Error,
    >)
        requires
            old(self).wf(),
            miner_has_room(old(self).miners_view(), endpoint@, 1),
        ensures
            final(self).wf(),
            final(self).same_jobs_state(old(self)),
            exists|now: u64|
                #[trigger] clock_reading(now) && final(self).miners_view() == share_outcome(
                    old(self).miners_view(),
                    endpoint@,
                    share,
                    now,
                ).0 && share_result_is(
                    res,
                    share_outcome(old(self).miners_view(), endpoint@, share, now).1,
                ),
    {
        let now = unix_time_now();
        self.handle_share_at(endpoint, share, now)
    }

    /// In every channel holding more than `max_jobs` jobs, keeps only the
    /// `max_jobs` jobs with the highest ids.
    pub fn cleanup_old_jobs(&mut self)
        requires
            old(self).wf(),
        ensures
            final(self).wf(),
            final(self).same_jobs_state(old(self)),
            final(self).miners_view() == cleanup_jobs(old(self).miners_view()),
    {
        let ghost old_ms = self.miners_view();
        let ghost target_ms = cleanup_jobs(old_ms);
        let mut i: usize = 0;
        while i < self.miners.len()
            invariant
                self.same_jobs_state(old(self)),
                target_ms == cleanup_jobs(old_ms),
                i <= self.miners@.len(),
                self.miners@.len() == old_ms.len(),
                miners_wf(old_ms),
                forall|k: int| 0 <= k < i ==> #[trigger] self.miners@[k]@ == target_ms[k],
                forall|k: int| i <= k < old_ms.len() ==> #[trigger] self.miners@[k]@ == old_ms[k],
            decreases old_ms.len() - i,
        {
            let ghost old_m = old_ms[i as int];
            let ghost old_cs = old_m.channels;
            assert(self.miners@[i as int]@ == old_m);
            assert forall|k: int| 0 <= k < old_cs.len() implies #[trigger] self.miners@[i as int].channels@[k]@
                == old_cs[k] by {
                assert(self.miners@[i as int]@.channels[k] == self.miners@[i as int].channels@[k]@);
            }
            let mut j: usize = 0;
            while j < self.miners[i].channels.len()
                invariant
                    self.same_jobs_state(old(self)),
                    target_ms == cleanup_jobs(old_ms),
                    i < self.miners@.len(),
                    self.miners@.len() == old_ms.len(),
                    self.miners@[i as int].endpoint@ == old_m.endpoint,
                    self.miners@[i as int].stats == old_m.stats,
                    self.miners@[i as int].channels@.len() == old_cs.len(),
                    j <= old_cs.len(),
                    forall|k: int| 0 <= k < i ==> #[trigger] self.miners@[k]@ == target_ms[k],
                    forall|k: int| i < k < old_ms.len() ==> #[trigger] self.miners@[k]@ == old_ms[k],
                    forall|k: int| 0 <= k < j ==> #[trigger] self.miners@[i as int].channels@[k]@
                        == cleanup_channel(old_cs[k]),
                    forall|k: int| j <= k < old_cs.len() ==> #[trigger] self.miners@[i as int].channels@[k]@
                        == old_cs[k],
                decreases old_cs.len() - j,
            {
                assert(self.miners@[i as int].channels@[j as int]@ == old_cs[j as int]);
                let max_jobs = self.miners[i].channels[j].max_jobs;
                if self.miners[i].channels[j].jobs.len() > max_jobs as usize {
                    let kept = newest_jobs(&self.miners[i].channels[j].jobs, max_jobs);
                    self.miners[i].channels[j].jobs = kept;
                }
                assert(self.miners@[i as int].channels@[j as int]@ =~= cleanup_channel(
                    old_cs[j as int],
                ));
                j = j + 1;
            }
            proof {
                assert(self.miners@[i as int].channels@.map_values(|c: ChannelInfo| c@)
                    =~= cleanup_channels(old_cs));
                assert(target_ms[i as int] == MinerView {
                    endpoint: old_m.endpoint,
                    channels: cleanup_channels(old_cs),
                    stats: old_m.stats,
                });
                assert(self.miners@[i as int]@ =~= target_ms[i as int]);
            }
            i = i + 1;
        }
        proof {
            assert(self.miners_view() =~= target_ms);
            assert forall|a: int| 0 <= a < target_ms.len() implies channels_wf(
                #[trigger] target_ms[a].channels,
            ) by {
                let cs = old_ms[a].channels;
                assert(channels_wf(cs));
                let ncs = target_ms[a].channels;
                assert forall|b: int| 0 <= b < ncs.len() implies distinct_jobs(
                    #[trigger] ncs[b].jobs,
                ) by {
                    lemma_newest_of_distinct(cs[b].jobs, cs[b].jobs, cs[b].max_jobs);
                }
            }
        }
    }

    /// Removes the miners that are not active at `now` (see `miner_active`).
    pub fn cleanup_disconnected_miners_at(&mut self, timeout_seconds: u64, now: u64)
        requires
            old(self).wf(),
        ensures
            final(self).wf(),
            final(self).same_jobs_state(old(self)),
            final(self).miners_view() == active_miners(old(self).miners_view(), timeout_seconds, now),
    {
        let ghost old_ms = self.miners_view();
        let ghost mut done: int = 0;
        let mut i: usize = 0;
        while i < self.miners.len()
            invariant
                self.same_jobs_state(old(self)),
                0 <= i <= done <= old_ms.len(),
                self.miners_view() == active_miners(old_ms.subrange(0, done), timeout_seconds, now)
                    + old_ms.subrange(done, old_ms.len() as int),
                i == active_miners(old_ms.subrange(0, done), timeout_seconds, now).len(),
            decreases old_ms.len() - done,
        {
            let ghost before = self.miners_view();
            let ghost pre = active_miners(old_ms.subrange(0, done), timeout_seconds, now);
            assert(before[i as int] == old_ms[done]);
            assert(self.miners@[i as int]@ == old_ms[done]);
            let active = match self.miners[i].stats.last_share_time {
                Some(t) => now.saturating_sub(t) <= timeout_seconds,
                None => self.miners[i].channels.len() > 0,
            };
            assert(self.miners@[i as int].channels@.len() == old_ms[done].channels.len());
            assert(old_ms.subrange(0, done + 1).drop_last() =~= old_ms.subrange(0, done));
            if active {
                i = i + 1;
                proof {
                    assert(active_miners(old_ms.subrange(0, done + 1), timeout_seconds, now)
                        == pre.push(old_ms[done]));
                    assert(self.miners_view() =~= pre.push(old_ms[done]) + old_ms.subrange(
                        done + 1,
                        old_ms.len() as int,
                    ));
                }
            } else {
                self.miners.remove(i);
                proof {
                    assert(active_miners(old_ms.subrange(0, done + 1), timeout_seconds, now) == pre);
                    assert(self.miners_view() =~= before.remove(i as int));
                    assert(before.remove(i as int) =~= pre + old_ms.subrange(done + 1, old_ms.len() as int));
                }
            }
            proof {
                done = done + 1;
            }
        }
        proof {
            assert(old_ms.subrange(0, old_ms.len() as int) =~= old_ms);
            assert(old_ms.subrange(old_ms.len() as int, old_ms.len() as int) =~= Seq::<MinerView>::empty());
            assert(self.miners_view() =~= active_miners(old_ms, timeout_seconds, now));
            lemma_active_miners_from(old_ms, timeout_seconds, now);
            let ms = self.miners_view();
            assert forall|a: int, b: int|
                0 <= a < ms.len() && 0 <= b < ms.len() && a != b implies ms[a].endpoint
                != ms[b].endpoint by {
                lemma_active_miners_distinct(old_ms, timeout_seconds, now);
            }
        }
    }

    /// Removes the miners that are not active at the current time: what
    /// `cleanup_disconnected_miners_at` does at the clock reading taken by
    /// the call.
    pub fn cleanup_disconnected_miners(&mut self, timeout_seconds: u64)
        requires
            old(self).wf(),
        ensures
            final(self).wf(),
            final(self).same_jobs_state(old(self)),
            exists|now: u64|
                #[trigger] clock_reading(now) && final(self).miners_view() == active_miners(
                    old(self).miners_view(),
                    timeout_seconds,
                    now,
                ),
    {
        let now = unix_time_now();
        self.cleanup_disconnected_miners_at(timeout_seconds, now);
    }

    /// The current block template, if one was set.
    pub fn current_template(&self) -> (res: Option<&Block>)
        ensures
            match res {
                Some(b) => self.template_view() == Some(b@),
                None => self.template_view() is None,
            },
    {
        match &self.current_template {
            Some(b) => Some(b),
            None => None,
        }
    }

    /// The difficulty that new channels default to.
    pub fn default_min_difficulty(&self) -> (res: u32)
        ensures
            res == self.default_difficulty(),
    {
        self.default_min_difficulty
    }

    /// Sets the difficulty that new channels default to.
    pub fn set_default_difficulty(&mut self, difficulty: u32)
        ensures
            final(self).default_difficulty() == difficulty,
            final(self).miners_view() == old(self).miners_view(),
            final(self).template_view() == old(self).template_view(),
            final(self).next_job_id() == old(self).next_job_id(),
    {
        self.default_min_difficulty = difficulty;
    }

    /// The number of miners and the sums of their total, accepted and
    /// rejected share counters.
    pub fn share_totals(&self) -> (res: (usize, u64, u64, u64))
        requires
            sum_total(self.miners_view()) <= u64::MAX,
            sum_accepted(self.miners_view()) <= u64::MAX,
            sum_rejected(self.miners_view()) <= u64::MAX,
        ensures
            res.0 == self.miners_view().len(),
            res.1 == sum_total(self.miners_view()),
            res.2 == sum_accepted(self.miners_view()),
            res.3 == sum_rejected(self.miners_view()),
    {
        let ghost ms = self.miners_view();
        let mut total: u64 = 0;
        let mut accepted: u64 = 0;
        let mut rejected: u64 = 0;
        let mut i: usize = 0;
        while i < self.miners.len()
            invariant
                ms == self.miners_view(),
                sum_total(ms) <= u64::MAX,
                sum_accepted(ms) <= u64::MAX,
                sum_rejected(ms) <= u64::MAX,
                i <= ms.len(),
                ms.len() == self.miners@.len(),
                total == sum_total(ms.subrange(0, i as int)),
                accepted == sum_accepted(ms.subrange(0, i as int)),
                rejected == sum_rejected(ms.subrange(0, i as int)),
            decreases ms.len() - i,
        {
            proof {
                lemma_sums_monotone(ms, i + 1);
                assert(ms.subrange(0, i + 1).drop_last() =~= ms.subrange(0, i as int));
                assert(ms[i as int] == self.miners@[i as int]@);
            }
            let st = self.miners[i].stats;
            total = total + st.total_shares;
            accepted = accepted + st.accepted_shares;
            rejected = rejected + st.rejected_shares;
            i = i + 1;
        }
        assert(ms.subrange(0, ms.len() as int) =~= ms);
        (self.miners.len(), total, accepted, rejected)
    }

    /// Each miner's endpoint, number of channels and share counters, in the
    /// pool's order.
    pub fn miner_summaries(&self) -> (res: Vec<(String, usize, MinerStats)>)
        ensures
            res@.map_values(|p: (String, usize, MinerStats)| (p.0@, p.1 as nat, p.2))
                == self.miners_view().map_values(
                |m: MinerView| (m.endpoint, m.channels.len(), m.stats),
            ),
    {
        let ghost ms = self.miners_view();
        let ghost want = ms.map_values(|m: MinerView| (m.endpoint, m.channels.len(), m.stats));
        let mut out: Vec<(String, usize, MinerStats)> = Vec::new();
        let mut i: usize = 0;
        while i < self.miners.len()
            invariant
                ms == self.miners_view(),
                want == ms.map_values(|m: MinerView| (m.endpoint, m.channels.len(), m.stats)),
                i <= self.miners@.len(),
                out@.len() == i,
                forall|j: int|
                    0 <= j < i ==> ((#[trigger] out@[j]).0@, out@[j].1 as nat, out@[j].2) == want[j],
            decreases self.miners@.len() - i,
        {
            assert(ms[i as int] == self.miners@[i as int]@);
            let m = &self.miners[i];
            out.push((m.endpoint.clone(), m.channels.len(), m.stats));
            i = i + 1;
        }
        assert(out@.map_values(|p: (String, usize, MinerStats)| (p.0@, p.1 as nat, p.2)) =~= want);
        out
    }

    /// Registers a miner under `endpoint`, with no channels and zeroed
    /// counters; a miner already registered there is replaced.
    pub fn register_miner(&mut self, endpoint: String)
        requires
            old(self).wf(),
        ensures
            final(self).wf(),
            final(self).miners_view() == upsert_miner(old(self).miners_view(), fresh_miner(endpoint@)),
            final(self).same_jobs_state(old(self)),
    {
        let conn = MinerConnection {
            endpoint: endpoint.clone(),
            channels: Vec::new(),
            stats: MinerStats::default(),
        };
        assert(conn@ == fresh_miner(endpoint@)) by {
            assert(conn.channels@.map_values(|c: ChannelInfo| c@) =~= Seq::<ChannelView>::empty());
        }
        let ghost old_ms = self.miners_view();
        match self.find_miner(&endpoint) {
            Some(i) => {
                self.miners.set(i, conn);
                assert(self.miners_view() =~= old_ms.update(i as int, fresh_miner(endpoint@)));
            },
            None => {
                self.miners.push(conn);
                assert(self.miners_view() =~= old_ms.push(fresh_miner(endpoint@)));
            },
        }
        proof {
            let ms = self.miners_view();
            assert forall|a: int| 0 <= a < ms.len() implies channels_wf(#[trigger] ms[a].channels) by {
                if ms[a].endpoint != endpoint@ {
                    assert(ms[a] == old_ms[a]);
                } else {
                    assert(ms[a].channels =~= Seq::<ChannelView>::empty());
                }
            }
        }
    }
}

impl Default for StratumV2Pool {
    fn default() -> (res: Self)
        ensures
            res.wf(),
            res.miners_view() == Seq::<MinerView>::empty(),
            res.template_view() == None::<BlockView>,
            res.next_job_id() == 1,
            res.default_difficulty() == 1,
    {
        StratumV2Pool::new()
    }
}

} // verus!
