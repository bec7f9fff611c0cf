//! Properties of the pool that hold across its operations.

use vstd::prelude::*;

use crate::pool::{
    active_miners, assign_job, channel_target_value, channels_wf, cleanup_channels, cleanup_jobs,
    count_newer, miner_has_room,
    difficulty_multiplier, distinct_jobs, fresh_miner, genesis_target, job_index, keep_recent,
    lemma_newest_of_distinct, miner_active, miner_index, miners_wf, newest_of, share_outcome,
    upsert_job, upsert_miner, JobInfo, MinerView, ShareData,
    channel_index, header_meets_network_target, share_header, share_valid, timestamp_close,
};
use crate::hash::{be_value, hash_number, sha256d};
use crate::types::header_bytes;

verus! {

/// Counting newer jobs is monotone in the threshold, and strictly so past
/// a job that lies between the two thresholds.
proof fn lemma_count_newer_step(s: Seq<JobInfo>, x: u32, y: u32)
    requires
        x < y,
    ensures
        count_newer(s, x) >= count_newer(s, y),
        (exists|i: int| 0 <= i < s.len() && s[i].job_id == y) ==> count_newer(s, x) >= count_newer(s, y) + 1,
    decreases s.len(),
{
    if s.len() > 0 {
        lemma_count_newer_step(s.drop_last(), x, y);
        if exists|i: int| 0 <= i < s.len() && s[i].job_id == y {
            let i = choose|i: int| 0 <= i < s.len() && s[i].job_id == y;
            if i < s.len() - 1 {
                assert(s.drop_last()[i].job_id == y);
            }
        }
    }
}

/// After cleanup, every job kept has a higher id than every job dropped.
pub proof fn lemma_cleanup_keeps_newest(jobs: Seq<JobInfo>, max: u32, a: int, b: int)
    requires
        jobs.len() > max,
        0 <= a < jobs.len(),
        0 <= b < jobs.len(),
        kept_by_cleanup(jobs, max, jobs[a]),
        !kept_by_cleanup(jobs, max, jobs[b]),
    ensures
        jobs[a].job_id > jobs[b].job_id,
{
    if jobs[a].job_id < jobs[b].job_id {
        lemma_count_newer_step(jobs, jobs[a].job_id, jobs[b].job_id);
    }
}

/// Whether `job` is among the jobs kept by cleanup.
pub open spec fn kept_by_cleanup(jobs: Seq<JobInfo>, max: u32, job: JobInfo) -> bool {
    count_newer(jobs, job.job_id) < max
}

proof fn lemma_newest_of_members(s: Seq<JobInfo>, all: Seq<JobInfo>, max: u32)
    ensures
        forall|a: int|
            0 <= a < newest_of(s, all, max).len() ==> kept_by_cleanup(
                all,
                max,
                #[trigger] newest_of(s, all, max)[a],
            ),
    decreases s.len(),
{
    if s.len() > 0 {
        lemma_newest_of_members(s.drop_last(), all, max);
        let r = newest_of(s, all, max);
        let r0 = newest_of(s.drop_last(), all, max);
        assert forall|a: int| 0 <= a < r.len() implies kept_by_cleanup(all, max, #[trigger] r[a]) by {
            if a < r0.len() {
                assert(r[a] == r0[a]);
            }
        }
    }
}

/// Counting over the jobs cleanup keeps never exceeds counting over all.
proof fn lemma_count_newer_filter(s: Seq<JobInfo>, all: Seq<JobInfo>, max: u32, x: u32)
    ensures
        count_newer(newest_of(s, all, max), x) <= count_newer(s, x),
    decreases s.len(),
{
    if s.len() > 0 {
        lemma_count_newer_filter(s.drop_last(), all, max, x);
        let r0 = newest_of(s.drop_last(), all, max);
        if count_newer(all, s.last().job_id) < max {
            assert(r0.push(s.last()).drop_last() =~= r0);
        }
    }
}

/// In a list of distinct jobs with one of least id, all others are newer.
proof fn lemma_count_newer_all_but_min(s: Seq<JobInfo>, p: int)
    requires
        distinct_jobs(s),
        0 <= p < s.len(),
        forall|i: int| 0 <= i < s.len() ==> s[p].job_id <= #[trigger] s[i].job_id,
    ensures
        count_newer(s, s[p].job_id) == s.len() - 1,
    decreases s.len(),
{
    let x = s[p].job_id;
    if p == s.len() - 1 {
        lemma_count_newer_all_above(s.drop_last(), x);
    } else {
        let d = s.drop_last();
        assert(distinct_jobs(d));
        assert forall|i: int| 0 <= i < d.len() implies d[p].job_id <= #[trigger] d[i].job_id by {
            assert(d[i] == s[i]);
        }
        lemma_count_newer_all_but_min(d, p);
        assert(s.last().job_id != x);
    }
}

proof fn lemma_count_newer_all_above(s: Seq<JobInfo>, x: u32)
    requires
        forall|i: int| 0 <= i < s.len() ==> (#[trigger] s[i]).job_id > x,
    ensures
        count_newer(s, x) == s.len(),
    decreases s.len(),
{
    if s.len() > 0 {
        lemma_count_newer_all_above(s.drop_last(), x);
    }
}

proof fn lemma_min_job(s: Seq<JobInfo>) -> (p: int)
    requires
        s.len() > 0,
    ensures
        0 <= p < s.len(),
        forall|i: int| 0 <= i < s.len() ==> s[p].job_id <= #[trigger] s[i].job_id,
    decreases s.len(),
{
    if s.len() == 1 {
        0
    } else {
        let q = lemma_min_job(s.drop_last());
        if s[q].job_id <= s.last().job_id {
            assert forall|i: int| 0 <= i < s.len() implies s[q].job_id <= #[trigger] s[i].job_id by {
                if i < s.len() - 1 {
                    assert(s.drop_last()[i] == s[i]);
                }
            }
            q
        } else {
            let p = s.len() - 1;
            assert forall|i: int| 0 <= i < s.len() implies s[p].job_id <= #[trigger] s[i].job_id by {
                if i < s.len() - 1 {
                    assert(s.drop_last()[i] == s[i]);
                }
            }
            p
        }
    }
}

/// A channel whose job ids are distinct holds at most `max_jobs` jobs after
/// cleanup.
pub proof fn lemma_cleanup_bounds_jobs(jobs: Seq<JobInfo>, max: u32)
    requires
        distinct_jobs(jobs),
    ensures
        keep_recent(jobs, max).len() <= max,
{
    if jobs.len() > max {
        let k = newest_of(jobs, jobs, max);
        if k.len() > max {
            lemma_newest_of_distinct(jobs, jobs, max);
            lemma_newest_of_members(jobs, jobs, max);
            let p = lemma_min_job(k);
            lemma_count_newer_all_but_min(k, p);
            lemma_count_newer_filter(jobs, jobs, max, k[p].job_id);
            assert(kept_by_cleanup(jobs, max, k[p]));
        }
    }
}

/// After a template is set, every channel's current job is the new job and
/// the channel keeps it.
pub proof fn lemma_set_template_assigns_job(ms: Seq<MinerView>, job: JobInfo, i: int, k: int)
    requires
        0 <= i < ms.len(),
        0 <= k < ms[i].channels.len(),
    ensures
        assign_job(ms, job)[i].channels[k].current_job_id == Some(job.job_id),
        assign_job(ms, job)[i].channels[k].jobs.contains(job),
        assign_job(ms, job)[i].endpoint == ms[i].endpoint,
        assign_job(ms, job)[i].channels[k].channel_id == ms[i].channels[k].channel_id,
{
    let jobs = ms[i].channels[k].jobs;
    let x = job_index(jobs, job.job_id);
    let u = upsert_job(jobs, job);
    if x >= 0 {
        assert(u[x] == job);
    } else {
        assert(u[jobs.len() as int] == job);
    }
}

/// Cleanup of disconnected miners keeps exactly the active ones: every
/// miner left is active, and every active miner is left.
pub proof fn lemma_cleanup_keeps_exactly_active(ms: Seq<MinerView>, timeout: u64, now: u64)
    ensures
        forall|a: int|
            0 <= a < active_miners(ms, timeout, now).len() ==> miner_active(
                #[trigger] active_miners(ms, timeout, now)[a],
                timeout,
                now,
            ),
        forall|b: int|
            0 <= b < ms.len() && miner_active(#[trigger] ms[b], timeout, now)
                ==> active_miners(ms, timeout, now).contains(ms[b]),
    decreases ms.len(),
{
    if ms.len() > 0 {
        let d = ms.drop_last();
        lemma_cleanup_keeps_exactly_active(d, timeout, now);
        let r = active_miners(ms, timeout, now);
        let r0 = active_miners(d, timeout, now);
        assert forall|b: int| 0 <= b < ms.len() && miner_active(#[trigger] ms[b], timeout, now)
            implies r.contains(ms[b]) by {
            if b < ms.len() - 1 {
                assert(d[b] == ms[b]);
                assert(r0.contains(ms[b]));
                let w = choose|w: int| 0 <= w < r0.len() && r0[w] == ms[b];
                assert(r[w] == ms[b]);
            } else {
                assert(r[r.len() - 1] == ms[b]);
            }
        }
    }
}

/// A miner's accepted and rejected shares add up to at most its total.
pub open spec fn counts_consistent(ms: Seq<MinerView>) -> bool {
    forall|i: int|
        0 <= i < ms.len() ==> (#[trigger] ms[i]).stats.accepted_shares + ms[i].stats.rejected_shares
            <= ms[i].stats.total_shares
}

/// Handling a share keeps every miner's accepted plus rejected shares at
/// most its total, when the submitting miner's counters have room for it.
pub proof fn lemma_share_keeps_counts(ms: Seq<MinerView>, ep: Seq<char>, share: ShareData, now: u64)
    requires
        counts_consistent(ms),
        miner_has_room(ms, ep, 1),
    ensures
        counts_consistent(share_outcome(ms, ep, share, now).0),
{
    let r = share_outcome(ms, ep, share, now).0;
    assert forall|i: int| 0 <= i < r.len() implies (#[trigger] r[i]).stats.accepted_shares
        + r[i].stats.rejected_shares <= r[i].stats.total_shares by {
        assert(ms[i].stats.accepted_shares + ms[i].stats.rejected_shares <= ms[i].stats.total_shares);
    }
}

/// A share is reported as a block only when it is a valid share.
pub proof fn lemma_block_only_if_share(ms: Seq<MinerView>, ep: Seq<char>, share: ShareData, now: u64)
    ensures
        share_outcome(ms, ep, share, now).1 matches Ok(p) ==> (p.1 ==> p.0),
{
}

/// A registered miner can be found under its endpoint, with no channels and
/// zeroed counters.
pub proof fn lemma_register_then_found(ms: Seq<MinerView>, ep: Seq<char>)
    requires
        miners_wf(ms),
    ensures
        miner_index(upsert_miner(ms, fresh_miner(ep)), ep) >= 0,
        upsert_miner(ms, fresh_miner(ep))[miner_index(upsert_miner(ms, fresh_miner(ep)), ep)]
            == fresh_miner(ep),
{
    let u = upsert_miner(ms, fresh_miner(ep));
    let i = miner_index(ms, ep);
    let w = if i >= 0 { i } else { ms.len() as int };
    assert(u[w].endpoint == ep);
    let j = miner_index(u, ep);
    assert(0 <= j < u.len() && u[j].endpoint == ep);
    if j != w {
        if i >= 0 {
            assert(u[j] == ms[j]);
        } else {
            assert(u[j] == ms[j]);
            assert(ms[j].endpoint == ep);
        }
    }
}

/// Channel targets grow with the requested difficulty from 1 up, and every
/// target is positive.
pub proof fn lemma_channel_target_monotone(d1: u32, d2: u32)
    requires
        1 <= d1 <= d2,
    ensures
        channel_target_value(d1) <= channel_target_value(d2),
        channel_target_value(d1) > 0,
{
    let g = genesis_target() as int;
    assert(g > 0) by {
        crate::encoding::lemma_pow256_pos(26);
    }
    let m1 = difficulty_multiplier(d1) as int;
    let m2 = difficulty_multiplier(d2) as int;
    assert(1 <= m1 <= m2);
    assert(g * m1 <= g * m2 && g * m1 > 0) by (nonlinear_arith)
        requires g > 0, 1 <= m1 <= m2;
}

/// Cleaning up old jobs a second time changes nothing: once every channel
/// holds at most its limit, cleanup leaves it as it is.
pub proof fn lemma_cleanup_idempotent(ms: Seq<MinerView>)
    requires
        miners_wf(ms),
    ensures
        cleanup_jobs(cleanup_jobs(ms)) == cleanup_jobs(ms),
{
    let once = cleanup_jobs(ms);
    let twice = cleanup_jobs(once);
    assert forall|i: int| 0 <= i < ms.len() implies #[trigger] twice[i] == once[i] by {
        let cs = ms[i].channels;
        assert(channels_wf(cs));
        assert forall|k: int| 0 <= k < cs.len() implies #[trigger] cleanup_channels(once[i].channels)[k]
            == once[i].channels[k] by {
            assert(distinct_jobs(cs[k].jobs));
            lemma_cleanup_bounds_jobs(cs[k].jobs, cs[k].max_jobs);
        }
        assert(cleanup_channels(once[i].channels) =~= once[i].channels);
    }
    assert(twice =~= once);
}

/// Cleanup counts newer jobs as before wherever every job newer than `x`
/// is kept.
proof fn lemma_count_newer_kept(s: Seq<JobInfo>, all: Seq<JobInfo>, max: u32, x: u32)
    requires
        forall|i: int|
            0 <= i < s.len() && s[i].job_id > x ==> kept_by_cleanup(all, max, #[trigger] s[i]),
    ensures
        count_newer(newest_of(s, all, max), x) == count_newer(s, x),
    decreases s.len(),
{
    if s.len() > 0 {
        let d = s.drop_last();
        assert forall|i: int| 0 <= i < d.len() && d[i].job_id > x implies kept_by_cleanup(
            all,
            max,
            #[trigger] d[i],
        ) by {
            assert(d[i] == s[i]);
        }
        lemma_count_newer_kept(d, all, max, x);
        let r0 = newest_of(d, all, max);
        if count_newer(all, s.last().job_id) < max {
            assert(r0.push(s.last()).drop_last() =~= r0);
        } else {
            assert(s[s.len() - 1] == s.last());
        }
    }
}

/// Cleanup keeps every job when each is kept.
proof fn lemma_all_kept_len(s: Seq<JobInfo>, all: Seq<JobInfo>, max: u32)
    requires
        forall|i: int| 0 <= i < s.len() ==> kept_by_cleanup(all, max, #[trigger] s[i]),
    ensures
        newest_of(s, all, max).len() == s.len(),
    decreases s.len(),
{
    if s.len() > 0 {
        let d = s.drop_last();
        assert forall|i: int| 0 <= i < d.len() implies kept_by_cleanup(all, max, #[trigger] d[i]) by {
            assert(d[i] == s[i]);
        }
        lemma_all_kept_len(d, all, max);
        assert(s[s.len() - 1] == s.last());
    }
}

proof fn lemma_count_newer_le_len(s: Seq<JobInfo>, x: u32)
    ensures
        count_newer(s, x) <= s.len(),
    decreases s.len(),
{
    if s.len() > 0 {
        lemma_count_newer_le_len(s.drop_last(), x);
    }
}

/// Among the jobs cleanup drops, one of highest id.
proof fn lemma_max_dropped(s: Seq<JobInfo>, all: Seq<JobInfo>, max: u32) -> (q: int)
    requires
        exists|i: int| 0 <= i < s.len() && !kept_by_cleanup(all, max, #[trigger] s[i]),
    ensures
        0 <= q < s.len(),
        !kept_by_cleanup(all, max, s[q]),
        forall|i: int|
            0 <= i < s.len() && !kept_by_cleanup(all, max, #[trigger] s[i]) ==> s[i].job_id
                <= s[q].job_id,
    decreases s.len(),
{
    let d = s.drop_last();
    let n = s.len() - 1;
    if exists|i: int| 0 <= i < d.len() && !kept_by_cleanup(all, max, #[trigger] d[i]) {
        let q0 = lemma_max_dropped(d, all, max);
        if !kept_by_cleanup(all, max, s[n]) && s[n].job_id > d[q0].job_id {
            assert forall|i: int| 0 <= i < s.len() && !kept_by_cleanup(all, max, #[trigger] s[i])
                implies s[i].job_id <= s[n].job_id by {
                if i < n {
                    assert(d[i] == s[i]);
                }
            }
            n
        } else {
            assert forall|i: int| 0 <= i < s.len() && !kept_by_cleanup(all, max, #[trigger] s[i])
                implies s[i].job_id <= s[q0].job_id by {
                if i < n {
                    assert(d[i] == s[i]);
                }
            }
            q0
        }
    } else {
        assert forall|i: int| 0 <= i < s.len() && !kept_by_cleanup(all, max, #[trigger] s[i])
            implies s[i].job_id <= s[n].job_id by {
            if i < n {
                assert(d[i] == s[i]);
                assert(!kept_by_cleanup(all, max, d[i]));
            }
        }
        let w = choose|i: int| 0 <= i < s.len() && !kept_by_cleanup(all, max, #[trigger] s[i]);
        if w < n {
            assert(d[w] == s[w]);
        }
        n
    }
}

/// A channel whose job ids are distinct and that holds more than `max`
/// jobs holds exactly `max` after cleanup.
pub proof fn lemma_cleanup_keeps_exactly_max(jobs: Seq<JobInfo>, max: u32)
    requires
        distinct_jobs(jobs),
        jobs.len() > max,
    ensures
        keep_recent(jobs, max).len() == max,
{
    lemma_cleanup_bounds_jobs(jobs, max);
    let k = newest_of(jobs, jobs, max);
    if forall|i: int| 0 <= i < jobs.len() ==> kept_by_cleanup(jobs, max, #[trigger] jobs[i]) {
        lemma_all_kept_len(jobs, jobs, max);
    } else {
        let q = lemma_max_dropped(jobs, jobs, max);
        let x = jobs[q].job_id;
        assert forall|i: int| 0 <= i < jobs.len() && jobs[i].job_id > x implies kept_by_cleanup(
            jobs,
            max,
            #[trigger] jobs[i],
        ) by {}
        lemma_count_newer_kept(jobs, jobs, max, x);
        lemma_count_newer_le_len(k, x);
    }
}

/// Whether the double SHA-256 of the header that `share` claims for `job`,
/// read as a number, is at most `target` read big-endian.
pub open spec fn share_hash_within(share: ShareData, job: JobInfo, target: Seq<u8>) -> bool {
    hash_number(sha256d(header_bytes(share_header(share, job)))) <= be_value(target)
}

/// How old a job is allowed to be: a share naming its job, with a header
/// hash at most the target, is valid exactly when the job's timestamp lies
/// no more than 7200 seconds before or after the time it is judged at.  In
/// particular it is valid when judged at the job's own timestamp.  A share
/// that names another job, or whose hash exceeds the target, is invalid
/// whatever the time.
pub proof fn lemma_share_valid_by_job_age(share: ShareData, job: JobInfo, target: Seq<u8>, now: u64)
    requires
        job.timestamp <= i64::MAX,
        now <= i64::MAX,
    ensures
        share.job_id == job.job_id && share_hash_within(share, job, target) ==> {
            &&& share_valid(share, job, target, now) <==> (job.timestamp <= now + 7200 && now
                <= job.timestamp + 7200)
            &&& share_valid(share, job, target, job.timestamp)
        },
        share.job_id != job.job_id || !share_hash_within(share, job, target) ==> !share_valid(
            share,
            job,
            target,
            now,
        ),
{
    assert((job.timestamp as i64) as int == job.timestamp as int);
    assert((now as i64) as int == now as int);
}

/// The miner, channel and job that a share from `ep` on channel `c` for job
/// `j` of the miner at `i` is looked up under are those.
proof fn lemma_share_lookup(ms: Seq<MinerView>, ep: Seq<char>, share: ShareData, i: int, c: int, j: int)
    requires
        miners_wf(ms),
        0 <= i < ms.len(),
        ms[i].endpoint == ep,
        0 <= c < ms[i].channels.len(),
        ms[i].channels[c].channel_id == share.channel_id,
        0 <= j < ms[i].channels[c].jobs.len(),
        ms[i].channels[c].jobs[j].job_id == share.job_id,
    ensures
        miner_index(ms, ep) == i,
        channel_index(ms[i].channels, share.channel_id) == c,
        job_index(ms[i].channels[c].jobs, share.job_id) == j,
{
    let k = miner_index(ms, ep);
    assert(0 <= k < ms.len() && ms[k].endpoint == ep);
    let chs = ms[i].channels;
    assert(channels_wf(chs));
    let d = channel_index(chs, share.channel_id);
    assert(0 <= d < chs.len() && chs[d].channel_id == share.channel_id);
    let jobs = chs[c].jobs;
    assert(distinct_jobs(jobs));
    let e = job_index(jobs, share.job_id);
    assert(0 <= e < jobs.len() && jobs[e].job_id == share.job_id);
}

/// What handling a share does to the miners and what it answers, for a
/// share that a registered miner sends on one of its channels for one of
/// that channel's jobs, handled at `now`.  When its header hash is at most
/// the channel target and the job lies within two hours of `now`, it is
/// accepted: the answer is `Ok((true, it meets the network target))`, and
/// the miner's total and accepted counts go up by one.  When the job lies
/// more than two hours before `now`, it is rejected: the answer is
/// `Ok((false, false))`, and the total and rejected counts go up by one.
/// Either way the miner's last share time becomes `now`, the other count
/// stays, its channels stay, and no other miner changes.
pub proof fn lemma_share_judged_at_handling_time(
    ms: Seq<MinerView>,
    ep: Seq<char>,
    share: ShareData,
    now: u64,
    i: int,
    c: int,
    j: int,
)
    requires
        miners_wf(ms),
        miner_has_room(ms, ep, 1),
        0 <= i < ms.len(),
        ms[i].endpoint == ep,
        0 <= c < ms[i].channels.len(),
        ms[i].channels[c].channel_id == share.channel_id,
        0 <= j < ms[i].channels[c].jobs.len(),
        ms[i].channels[c].jobs[j].job_id == share.job_id,
        ms[i].channels[c].jobs[j].timestamp <= i64::MAX,
        now <= i64::MAX,
    ensures
        ({
            let job = ms[i].channels[c].jobs[j];
            let out = share_outcome(ms, ep, share, now);
            let accepted = share_hash_within(share, job, ms[i].channels[c].target)
                && job.timestamp <= now + 7200 && now <= job.timestamp + 7200;
            &&& out.0.len() == ms.len()
            &&& out.0[i].endpoint == ep
            &&& out.0[i].channels == ms[i].channels
            &&& out.0[i].stats.total_shares == ms[i].stats.total_shares + 1
            &&& out.0[i].stats.last_share_time == Some(now)
            &&& forall|k: int| 0 <= k < ms.len() && k != i ==> out.0[k] == ms[k]
            &&& accepted ==> {
                &&& out.1 == Ok::<(bool, bool), Seq<char>>(
                    (true, header_meets_network_target(share_header(share, job))),
                )
                &&& out.0[i].stats.accepted_shares == ms[i].stats.accepted_shares + 1
                &&& out.0[i].stats.rejected_shares == ms[i].stats.rejected_shares
            }
            &&& job.timestamp + 7200 < now ==> {
                &&& out.1 == Ok::<(bool, bool), Seq<char>>((false, false))
                &&& out.0[i].stats.accepted_shares == ms[i].stats.accepted_shares
                &&& out.0[i].stats.rejected_shares == ms[i].stats.rejected_shares + 1
            }
        }),
{
    lemma_share_lookup(ms, ep, share, i, c, j);
    let job = ms[i].channels[c].jobs[j];
    lemma_share_valid_by_job_age(share, job, ms[i].channels[c].target, now);
    assert(ms[i].stats.total_shares + 1 <= u64::MAX);
}

/// Cleanup at `now` with `timeout` keeps a miner whose last share came at
/// most `timeout` seconds before `now` (or after `now`) and removes one whose
/// last share came more than `timeout` seconds before `now`; a miner that
/// never sent a share is kept exactly when it has a channel open.
pub proof fn lemma_cleanup_by_last_share(ms: Seq<MinerView>, timeout: u64, now: u64, b: int)
    requires
        0 <= b < ms.len(),
    ensures
        match ms[b].stats.last_share_time {
            Some(t) => active_miners(ms, timeout, now).contains(ms[b]) <==> now <= t + timeout,
            None => active_miners(ms, timeout, now).contains(ms[b]) <==> ms[b].channels.len() > 0,
        },
{
    lemma_cleanup_keeps_exactly_active(ms, timeout, now);
    let r = active_miners(ms, timeout, now);
    if r.contains(ms[b]) {
        let w = choose|w: int| 0 <= w < r.len() && r[w] == ms[b];
        assert(miner_active(r[w], timeout, now));
    }
}

} // verus!
