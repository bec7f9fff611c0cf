//! The module's operator commands: the reports they print and the
//! difficulty setting.

use vstd::prelude::*;

use crate::decimal::{decimal, decimal_string};
use crate::pool::{MinerStats, MinerView, StratumV2Pool};
use crate::server::PoolStats;

verus! {

/// `lines` joined by newlines.
pub open spec fn join_lines(lines: Seq<Seq<char>>) -> Seq<char>
    decreases lines.len(),
{
    if lines.len() == 0 {
        Seq::empty()
    } else if lines.len() == 1 {
        lines[0]
    } else {
        join_lines(lines.drop_last()) + "\n"@ + lines.last()
    }
}

/// The body of a listing: its lines, or `  (none)` when there are none.
pub open spec fn listing(lines: Seq<Seq<char>>) -> Seq<char> {
    if lines.len() == 0 {
        "  (none)"@
    } else {
        join_lines(lines)
    }
}

/// The line of a miner in the miner listing.
pub open spec fn miner_line(endpoint: Seq<char>, channels: nat, stats: MinerStats) -> Seq<char> {
    "  "@ + endpoint + ": channels="@ + decimal(channels) + " shares="@ + decimal(
        stats.total_shares as nat,
    ) + " accepted="@ + decimal(stats.accepted_shares as nat) + " rejected="@ + decimal(
        stats.rejected_shares as nat,
    )
}

/// The text of the `list-miners` command.
pub open spec fn miners_report(ms: Seq<MinerView>) -> Seq<char> {
    "Connected miners ("@ + decimal(ms.len()) + "):\n"@ + listing(
        Seq::new(ms.len(), |i: int| miner_line(ms[i].endpoint, ms[i].channels.len(), ms[i].stats)),
    )
}

/// The text of the `list-pools` command.
pub open spec fn pools_report(listen_addr: Seq<char>, ms: Seq<MinerView>) -> Seq<char> {
    "Pool: "@ + listen_addr + "\nConnected miners ("@ + decimal(ms.len()) + "):\n"@ + listing(
        Seq::new(ms.len(), |i: int| "  "@ + decimal((i + 1) as nat) + ". "@ + ms[i].endpoint),
    )
}

/// The text of the `status` command.
pub open spec fn status_report(listen_addr: Seq<char>, default_difficulty: u32, stats: PoolStats) -> Seq<
    char,
> {
    "Stratum V2 server\nListen: "@ + listen_addr + "\nDefault difficulty: "@ + decimal(
        default_difficulty as nat,
    ) + "\nMiners: "@ + decimal(stats.miner_count as nat) + "\nTotal shares: "@ + decimal(
        stats.total_shares as nat,
    ) + "\nAccepted: "@ + decimal(stats.accepted_shares as nat) + "\nRejected: "@ + decimal(
        stats.rejected_shares as nat,
    )
}

/// Joins `lines` by newlines, or gives `  (none)` when there are none.
fn listing_string(lines: &Vec<String>) -> (res: String)
    ensures
        res@ == listing(lines@.map_values(|s: String| s@)),
{
    let ghost lv = lines@.map_values(|s: String| s@);
    if lines.len() == 0 {
        return "  (none)".to_owned();
    }
    let mut out = lines[0].clone();
    assert(lv.subrange(0, 1) =~= seq![lv[0]]);
    let mut k: usize = 1;
    while k < lines.len()
        invariant
            lv == lines@.map_values(|s: String| s@),
            1 <= k <= lines@.len(),
            out@ == join_lines(lv.subrange(0, k as int)),
        decreases lines@.len() - k,
    {
        let ghost before = out@;
        out.append("\n");
        out.append(lines[k].as_str());
        proof {
            let sub = lv.subrange(0, k + 1);
            assert(sub.drop_last() =~= lv.subrange(0, k as int));
            assert(sub.last() == lines@[k as int]@);
        }
        k = k + 1;
    }
    assert(lv.subrange(0, lv.len() as int) =~= lv);
    out
}

/// The report of the `status` command: listen address, default difficulty
/// and the pool's totals.
pub fn status(listen_addr: &str, default_difficulty: u32, stats: &PoolStats) -> (res: String)
    ensures
        res@ == status_report(listen_addr@, default_difficulty, *stats),
{
    let mut out = "Stratum V2 server\nListen: ".to_owned();
    out.append(listen_addr);
    out.append("\nDefault difficulty: ");
    out.append(decimal_string(default_difficulty as u64).as_str());
    out.append("\nMiners: ");
    out.append(decimal_string(stats.miner_count as u64).as_str());
    out.append("\nTotal shares: ");
    out.append(decimal_string(stats.total_shares).as_str());
    out.append("\nAccepted: ");
    out.append(decimal_string(stats.accepted_shares).as_str());
    out.append("\nRejected: ");
    out.append(decimal_string(stats.rejected_shares).as_str());
    out
}

/// The report of the `list-pools` command: the listen address and the
/// connected miners, numbered from 1.
pub fn list_pools(listen_addr: &str, pool: &StratumV2Pool) -> (res: String)
    ensures
        res@ == pools_report(listen_addr@, pool.miners_view()),
{
    let summaries = pool.miner_summaries();
    let ghost ms = pool.miners_view();
    let ghost sv = summaries@.map_values(|p: (String, usize, MinerStats)| (p.0@, p.1 as nat, p.2));
    let ghost want = Seq::new(ms.len(), |i: int| "  "@ + decimal((i + 1) as nat) + ". "@ + ms[i].endpoint);
    assert(sv.len() == ms.len());
    let mut lines: Vec<String> = Vec::new();
    let mut i: usize = 0;
    while i < summaries.len()
        invariant
            sv == summaries@.map_values(|p: (String, usize, MinerStats)| (p.0@, p.1 as nat, p.2)),
            sv == ms.map_values(|m: MinerView| (m.endpoint, m.channels.len(), m.stats)),
            want == Seq::new(ms.len(), |i: int| "  "@ + decimal((i + 1) as nat) + ". "@ + ms[i].endpoint),
            i <= summaries@.len(),
            summaries@.len() == ms.len(),
            lines@.len() == i,
            forall|j: int| 0 <= j < i ==> (#[trigger] lines@[j])@ == want[j],
        decreases summaries@.len() - i,
    {
        assert(sv[i as int].0 == ms[i as int].endpoint);
        assert(summaries@[i as int].0@ == sv[i as int].0);
        let mut line = "  ".to_owned();
        line.append(decimal_string(i as u64 + 1).as_str());
        line.append(". ");
        line.append(summaries[i].0.as_str());
        lines.push(line);
        i = i + 1;
    }
    assert(lines@.map_values(|s: String| s@) =~= want);
    let body = listing_string(&lines);
    let mut out = "Pool: ".to_owned();
    out.append(listen_addr);
    out.append("\nConnected miners (");
    out.append(decimal_string(summaries.len() as u64).as_str());
    out.append("):\n");
    out.append(body.as_str());
    out
}

/// The report of the `list-miners` command: each miner with its channel
/// count and share counters.
pub fn list_miners(pool: &StratumV2Pool) -> (res: String)
    ensures
        res@ == miners_report(pool.miners_view()),
{
    let summaries = pool.miner_summaries();
    let ghost ms = pool.miners_view();
    let ghost sv = summaries@.map_values(|p: (String, usize, MinerStats)| (p.0@, p.1 as nat, p.2));
    let ghost want = Seq::new(
        ms.len(),
        |i: int| miner_line(ms[i].endpoint, ms[i].channels.len(), ms[i].stats),
    );
    assert(sv.len() == ms.len());
    let mut lines: Vec<String> = Vec::new();
    let mut i: usize = 0;
    while i < summaries.len()
        invariant
            sv == summaries@.map_values(|p: (String, usize, MinerStats)| (p.0@, p.1 as nat, p.2)),
            sv == ms.map_values(|m: MinerView| (m.endpoint, m.channels.len(), m.stats)),
            want == Seq::new(
                ms.len(),
                |i: int| miner_line(ms[i].endpoint, ms[i].channels.len(), ms[i].stats),
            ),
            i <= summaries@.len(),
            summaries@.len() == ms.len(),
            lines@.len() == i,
            forall|j: int| 0 <= j < i ==> (#[trigger] lines@[j])@ == want[j],
        decreases summaries@.len() - i,
    {
        assert(sv[i as int] == (ms[i as int].endpoint, ms[i as int].channels.len(), ms[i as int].stats));
        assert(summaries@[i as int].0@ == sv[i as int].0);
        let (endpoint, channels, stats) = (&summaries[i].0, summaries[i].1, summaries[i].2);
        let mut line = "  ".to_owned();
        line.append(endpoint.as_str());
        line.append(": channels=");
        line.append(decimal_string(channels as u64).as_str());
        line.append(" shares=");
        line.append(decimal_string(stats.total_shares).as_str());
        line.append(" accepted=");
        line.append(decimal_string(stats.accepted_shares).as_str());
        line.append(" rejected=");
        line.append(decimal_string(stats.rejected_shares).as_str());
        lines.push(line);
        i = i + 1;
    }
    assert(lines@.map_values(|s: String| s@) =~= want);
    let body = listing_string(&lines);
    let mut out = "Connected miners (".to_owned();
    out.append(decimal_string(summaries.len() as u64).as_str());
    out.append("):\n");
    out.append(body.as_str());
    out
}

/// The `set-difficulty` command: refuses zero with a usage message;
/// otherwise sets the pool's default difficulty for new channels and says so.
pub fn set_difficulty(pool: &mut StratumV2Pool, difficulty: u32) -> (res: Result<String, String>)
    ensures
        difficulty == 0 ==> (res matches Err(e) && e@
            == "Usage: set-difficulty <value> (positive integer)"@) && *final(pool) == *old(pool),
        difficulty != 0 ==> (res matches Ok(m) && m@ == "Default difficulty set to "@ + decimal(
            difficulty as nat,
        ) + " for new channels"@) && final(pool).default_difficulty() == difficulty
            && final(pool).miners_view() == old(pool).miners_view() && final(pool).template_view()
            == old(pool).template_view() && final(pool).next_job_id() == old(pool).next_job_id(),
{
    if difficulty == 0 {
        return Err("Usage: set-difficulty <value> (positive integer)".to_owned());
    }
    pool.set_default_difficulty(difficulty);
    let mut msg = "Default difficulty set to ".to_owned();
    msg.append(decimal_string(difficulty as u64).as_str());
    msg.append(" for new channels");
    Ok(msg)
}

} // verus!
