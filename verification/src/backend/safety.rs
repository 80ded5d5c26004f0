//! What keeps the host safe: commands begin by reconciling, mutations are
//! journaled ahead, and what was interrupted is rolled back.
use vstd::prelude::*;

use super::laws::{switching, took_down};
use super::lifecycle::{any_other, declaring_dns};
use super::measure::transient_lease;
use super::recovery::{left_over, orphans, torn_down};
use super::trace::{
    lemma_activating, lemma_adopting, lemma_checking_journal, lemma_confirming,
    lemma_declaring_dns, lemma_dumping, lemma_finding_live, lemma_mopping_up, lemma_naming_active,
    lemma_reading_clock, lemma_reconciling_from, lemma_recording_active, lemma_recovering_journal,
    lemma_restoring_journal, lemma_tearing_down, lemma_tearing_down_from,
};
use super::trace_commands::{
    lemma_activating_exec, lemma_diffing_from, lemma_fetching_from, lemma_probing_from, lemma_running_child,
    lemma_selecting,
};
use super::{BackendView, RecoveredView};
use crate::config;
use crate::config::TunnelView;
use crate::diff::HeadView;
use crate::dns;
use crate::dns::GuardOutcomeView;
use crate::error::ErrorView;
use crate::order;
use crate::session::{ActionView, SessionView, Step};
use crate::state;
use crate::state::{JournalView, Phase, Reconciliation, Snapshot};
use crate::status::DumpPeerView;
use crate::text;
use crate::trace::{
    extends, lemma_guarding, lemma_reading_all, lemma_reapply_from, lemma_resolving, lemma_same,
    lemma_writing, Rule,
};

verus! {

/// The rule of the operations that may do everything.
pub open spec fn anything(b: BackendView) -> Rule {
    Rule { b, reading: false, running: true, tunnels: true }
}

/// Whether an operation that ends with `end` goes on from its first part only
/// where that came to a good end.
pub open spec fn goes_on<T>(
    b: BackendView,
    first: Step<Result<T, ErrorView>>,
    end: SessionView,
) -> bool {
    match first.1 {
        Some(Ok(_)) => extends(anything(b), first.0, end),
        _ => end == first.0,
    }
}

// ---------------------------------------------------------------------------
// Reconciling first
// ---------------------------------------------------------------------------

/// Approaching a tunnel goes on from reconciling.
proof fn lemma_approaching_goes_on(b: BackendView, s: SessionView, name: Seq<char>)
    ensures
        goes_on(b, b.reconciling(s), b.approaching(s, name).0),
{
    let r = anything(b);
    let (s1, reconciled) = b.reconciling(s);
    if let Some(Ok(_)) = reconciled {
        lemma_same(s1);
        lemma_resolving(r, s1, s1, b.config_dir, name);
        let (s2, resolved) = config::resolving(s1, b.config_dir, name);
        if let Some(Ok(tunnel)) = resolved {
            lemma_same(s2);
            lemma_dumping(r, s2, s2);
            let (s3, dumped) = b.dumping(s2);
            if let Some(Ok(dump)) = dumped {
                lemma_same(s3);
                lemma_finding_live(r, s3, s3, tunnel, dump);
            }
        }
        reveal(extends);
    }
}

/// `up` reconciles first: it asks for nothing before that, and for nothing after
/// it where that fails.
pub proof fn law_up_reconciles_first(
    b: BackendView,
    s: SessionView,
    name: Seq<char>,
    lease: Option<u64>,
)
    ensures
        goes_on(b, b.reconciling(s), b.upping(s, name, lease).0),
{
    let r = anything(b);
    lemma_approaching_goes_on(b, s, name);
    let (s1, approached) = b.approaching(s, name);
    if let Some(Ok((tunnel, _, live))) = approached {
        lemma_same(s1);
        if let Some(hit) = live {
            lemma_adopting(r, s1, s1, tunnel, hit.interface, lease);
        } else {
            lemma_activating(r, s1, s1, tunnel, lease);
        }
    }
    reveal(extends);
}

/// So does `down`.
pub proof fn law_down_reconciles_first(b: BackendView, s: SessionView, name: Seq<char>)
    ensures
        goes_on(b, b.reconciling(s), b.downing(s, name).0),
{
    lemma_approaching_goes_on(b, s, name);
    let (s1, approached) = b.approaching(s, name);
    if let Some(Ok((tunnel, _, live))) = approached {
        lemma_same(s1);
        lemma_tearing_down(anything(b), s1, s1, tunnel, live is Some);
    }
    reveal(extends);
}

/// So does `exec`.
pub proof fn law_exec_reconciles_first(
    b: BackendView,
    s: SessionView,
    name: Seq<char>,
    command: Seq<Seq<char>>,
)
    ensures
        goes_on(b, b.reconciling(s), b.executing(s, name, command).0),
{
    let r = anything(b);
    lemma_approaching_goes_on(b, s, name);
    let (s1, approached) = b.approaching(s, name);
    if let Some(Ok((tunnel, _, live))) = approached {
        lemma_same(s1);
        if live is Some {
            lemma_running_child(r, s1, s1, tunnel, name, false, command);
        } else {
            lemma_activating_exec(r, s1, s1, tunnel);
            let (s2, activated) = b.activating_exec(s1, tunnel);
            if let Some(Ok(_)) = activated {
                lemma_same(s2);
                lemma_running_child(r, s2, s2, tunnel, name, true, command);
            }
        }
    }
    reveal(extends);
}

/// Selecting the tunnels to work on goes on from reconciling.
proof fn lemma_selecting_goes_on(b: BackendView, s: SessionView, name: Option<Seq<char>>)
    ensures
        goes_on(b, b.reconciling(s), b.reconciling_and_selecting(s, name).0),
{
    let (s1, reconciled) = b.reconciling(s);
    if let Some(Ok(_)) = reconciled {
        lemma_same(s1);
        lemma_selecting(anything(b), s1, s1, name);
    }
}

/// So does `probe`.
pub proof fn law_probe_reconciles_first(
    b: BackendView,
    s: SessionView,
    name: Option<Seq<char>>,
    url: Seq<char>,
    max_time: u64,
    count: u32,
)
    ensures
        goes_on(b, b.reconciling(s), b.probing(s, name, url, max_time, count).0),
{
    lemma_selecting_goes_on(b, s, name);
    let (s1, selected) = b.reconciling_and_selecting(s, name);
    if let Some(Ok(tunnels)) = selected {
        lemma_same(s1);
        lemma_probing_from(
            anything(b),
            s1,
            s1,
            tunnels,
            url,
            max_time,
            count,
            0,
            Seq::empty(),
        );
    }
    reveal(extends);
}

/// So does `diff`.
pub proof fn law_diff_reconciles_first(
    b: BackendView,
    s: SessionView,
    name: Option<Seq<char>>,
    url: Seq<char>,
    max_time: u64,
)
    ensures
        goes_on(b, b.reconciling(s), b.diffing(s, name, url, max_time).0),
{
    lemma_selecting_goes_on(b, s, name);
    let (s1, selected) = b.reconciling_and_selecting(s, name);
    if let Some(Ok(tunnels)) = selected {
        lemma_same(s1);
        lemma_diffing_from(anything(b), s1, s1, tunnels, url, max_time, 0, Seq::empty());
    }
    reveal(extends);
}

/// So does `recover`.
pub proof fn law_recover_reconciles_first(b: BackendView, s: SessionView)
    ensures
        goes_on(b, b.reconciling(s), b.recovering(s).0),
{
    let r = anything(b);
    let (s1, reconciled) = b.reconciling(s);
    if let Some(Ok(first)) = reconciled {
        lemma_same(s1);
        lemma_dumping(r, s1, s1);
        let (s2, dumped) = b.dumping(s1);
        if let Some(Ok(dump)) = dumped {
            lemma_same(s2);
            lemma_reading_all(r, s2, s2, b.config_dir);
            let (s3, read) = state::reading_all(s2, b.config_dir);
            if let Some(journals) = read {
                let list = orphans(dump, journals);
                lemma_same(s3);
                lemma_tearing_down_from(r, s3, s3, list, dump, 0, first);
                let (s4, torn) = b.tearing_down_from(s3, list, dump, 0, first);
                if let Some(so_far) = torn {
                    lemma_same(s4);
                    lemma_mopping_up(r, s4, s4, so_far);
                }
            }
        }
        reveal(extends);
    }
}

// ---------------------------------------------------------------------------
// Journaling ahead
// ---------------------------------------------------------------------------

/// Whether what comes after `pending` is to bring the tunnel up.
pub open spec fn brings_up_after(
    b: BackendView,
    tunnel: TunnelView,
    pending: SessionView,
    end: SessionView,
) -> bool {
    let n = pending.asked.len() as int;
    &&& end.asked.len() > n
    &&& forall|i: int| 0 <= i < n ==> #[trigger] end.asked[i] == pending.asked[i]
    &&& end.asked[n] == switching(b, "up"@, tunnel.path)
}

/// Recording a tunnel as active after it was brought up.
proof fn lemma_recording_after(
    b: BackendView,
    s: SessionView,
    tunnel: TunnelView,
    lease: Option<u64>,
    snapshot: Snapshot,
)
    ensures
        extends(
            anything(b),
            s,
            b.recording_active(s, tunnel, None, lease, snapshot).0,
        ),
        b.recording_active(s, tunnel, None, lease, snapshot).1 matches Some(j) ==> extends(
            anything(b),
            s,
            state::writing(
                b.recording_active(s, tunnel, None, lease, snapshot).0,
                b.config_dir,
                j,
            ).0,
        ),
{
    let r = anything(b);
    lemma_same(s);
    lemma_recording_active(r, s, s, tunnel, None, lease, snapshot);
    let (s1, journal) = b.recording_active(s, tunnel, None, lease, snapshot);
    if let Some(j) = journal {
        lemma_same(s1);
        lemma_writing(r, s1, s1, b.config_dir, j);
    }
    reveal(extends);
}

/// `exec` brings a tunnel up only once the journal records it as pending; where
/// that fails, nothing more is asked for. What that record is, see
/// [`law_write_ahead`](super::laws::law_write_ahead).
pub proof fn law_exec_write_ahead(b: BackendView, s: SessionView, tunnel: TunnelView)
    ensures
        ({
            let (pending, recorded) = b.recording_pending(s, tunnel);
            let end = b.activating_exec(s, tunnel).0;
            match recorded {
                Some(Ok(_)) => brings_up_after(b, tunnel, pending, end),
                _ => end == pending,
            }
        }),
{
    let (pending, recorded) = b.recording_pending(s, tunnel);
    if let Some(Ok(snapshot)) = recorded {
        let (s1, upped) = b.quick(pending, "up"@, tunnel.path);
        assert(s1.asked == pending.asked.push(switching(b, "up"@, tunnel.path)));
        if let Some(Ok(_)) = upped {
            lemma_recording_after(b, s1, tunnel, None, snapshot);
        }
        reveal(extends);
    }
}

/// `probe` brings a tunnel up only once recording it as pending has come to an
/// end; that the record cannot be written does not stop a probe.
pub proof fn law_probe_write_ahead(
    b: BackendView,
    s: SessionView,
    tunnel: TunnelView,
    max_time: u64,
    count: u32,
)
    ensures
        ({
            let (pending, recorded) = b.recording_pending(s, tunnel);
            let end = b.activating_probe(s, tunnel, max_time, count).0;
            match recorded {
                Some(_) => brings_up_after(b, tunnel, pending, end),
                None => end == pending,
            }
        }),
{
    let (pending, recorded) = b.recording_pending(s, tunnel);
    if let Some(outcome) = recorded {
        let snapshot = match outcome {
            Ok(taken) => taken,
            Err(_) => Seq::empty(),
        };
        let (s1, ran) = b.running(pending, b.wg_quick, seq!["up"@, tunnel.path]);
        assert(s1.asked == pending.asked.push(switching(b, "up"@, tunnel.path)));
        if let Some(Ok(out)) = ran {
            let lease = Some(transient_lease(max_time, count as nat));
            lemma_recording_after(b, s1, tunnel, lease, snapshot);
        }
        reveal(extends);
    }
}

/// `diff` brings a tunnel up only once the journal records it as pending; where
/// that fails, nothing more is asked for.
pub proof fn law_diff_write_ahead(
    b: BackendView,
    s: SessionView,
    tunnel: TunnelView,
    url: Seq<char>,
    max_time: u64,
)
    ensures
        ({
            let (pending, recorded) = b.recording_pending(s, tunnel);
            let end = b.diffing_transient(s, tunnel, url, max_time).0;
            match recorded {
                Some(Ok(_)) => brings_up_after(b, tunnel, pending, end),
                _ => end == pending,
            }
        }),
{
    let r = anything(b);
    let (pending, recorded) = b.recording_pending(s, tunnel);
    if let Some(Ok(snapshot)) = recorded {
        let (s1, upped) = b.quick(pending, "up"@, tunnel.path);
        assert(s1.asked == pending.asked.push(switching(b, "up"@, tunnel.path)));
        if let Some(Ok(_)) = upped {
            let lease = Some(transient_lease(max_time, b.diff_retries.len()));
            lemma_same(s1);
            lemma_confirming(r, s1, s1, tunnel, lease, snapshot);
            let (s2, confirmed) = b.confirming(s1, tunnel, lease, snapshot);
            lemma_same(s2);
            lemma_tearing_down(r, s2, s2, tunnel, true);
            if let Some(Ok(_)) = confirmed {
                let timeout = text::number(max_time as nat);
                let none: Result<HeadView, Seq<char>> = Err("no attempt made"@);
                lemma_fetching_from(r, s2, s2, url, timeout, b.diff_retries, 0, none);
                let (s3, _) = b.fetching_from(s2, url, timeout, b.diff_retries, 0, none);
                lemma_same(s3);
                lemma_tearing_down(r, s3, s3, tunnel, true);
            }
        }
        reveal(extends);
    }
}

/// `wg-quick down` too is written ahead: where the tunnel has a journal, writing
/// it as pending teardown has come to an end before `wg-quick down` is asked
/// for, and is all that was asked for since the journal was read.
pub proof fn law_down_write_ahead(
    b: BackendView,
    s: SessionView,
    tunnel: TunnelView,
    journal: JournalView,
)
    requires
        state::reading(s, b.config_dir, tunnel.name).1 == Some(Some(journal)),
    ensures
        ({
            let (read, _) = state::reading(s, b.config_dir, tunnel.name);
            let (marked, written) = state::writing(
                read,
                b.config_dir,
                JournalView { phase: Phase::DownPending, ..journal },
            );
            let end = b.tearing_down(s, tunnel, true).0;
            match written {
                Some(_) => {
                    let n = marked.asked.len() as int;
                    &&& end.asked.len() > n
                    &&& forall|i: int| 0 <= i < n ==> #[trigger] end.asked[i] == marked.asked[i]
                    &&& end.asked[n] == switching(b, "down"@, tunnel.path)
                },
                None => end == marked,
            }
        }),
{
    let r = anything(b);
    let (read, _) = state::reading(s, b.config_dir, tunnel.name);
    let (marked, written) = state::writing(
        read,
        b.config_dir,
        JournalView { phase: Phase::DownPending, ..journal },
    );
    if written is Some {
        let (s1, downed) = b.quick(marked, "down"@, tunnel.path);
        assert(s1.asked == marked.asked.push(switching(b, "down"@, tunnel.path)));
        if let Some(Ok(_)) = downed {
            lemma_same(s1);
            super::trace::lemma_cleaning_up(r, s1, s1, tunnel, Some(journal), true);
        }
        reveal(extends);
    }
}

// ---------------------------------------------------------------------------
// Rolling back
// ---------------------------------------------------------------------------

/// What recovering from a journal takes down: its config, or its interface when
/// the config is gone.
pub open spec fn teardown_target(b: BackendView, s: SessionView, journal: JournalView) -> Option<
    Seq<char>,
> {
    match config::resolving(s, b.config_dir, journal.tunnel).1 {
        Some(Ok(tunnel)) => Some(tunnel.path),
        Some(Err(_)) => journal.interface,
        None => None,
    }
}

/// Whether, from `s` to `end`, DNS was set back as the journal says, and `done`
/// reports what came of it: every service to what the snapshot holds, custom
/// servers included, right after it was found out which tunnels are up. A tunnel
/// without DNS servers has nothing to set back, and while another tunnel is up
/// its DNS is left alone.
pub open spec fn dns_set_back(
    b: BackendView,
    s: SessionView,
    end: SessionView,
    journal: JournalView,
    done: RecoveredView,
) -> bool {
    let (s1, active) = b.naming_active(s);
    if journal.tunnel_dns.len() == 0 || (active matches Some(Ok(names)) && any_other(
        names,
        journal.tunnel,
    )) {
        done.dns_cleared.len() == 0 && done.dns_warning is None
    } else {
        let (_, restored) = dns::restoring(
            s1,
            journal.dns_snapshot,
            journal.tunnel_dns,
            b.dns_sweeps,
        );
        &&& restored == Some(
            GuardOutcomeView { cleared: done.dns_cleared, warning: done.dns_warning },
        )
        &&& s1.asked.len() + journal.dns_snapshot.len() <= end.asked.len()
        &&& forall|k: int|
            0 <= k < journal.dns_snapshot.len() ==> end.asked[s1.asked.len() + k] == setting_back(
                (#[trigger] journal.dns_snapshot[k]).0,
                journal.dns_snapshot[k].1,
            )
    }
}

/// Whether, from `s` to `end`, the host was rolled back to what it was before the
/// tunnel of the journal, and `done` reports it: first the tunnel was taken down,
/// where it is `live` and there is something to take down, then DNS was set back,
/// and last of all the journal was asked to be removed.
pub open spec fn rolled_back(
    b: BackendView,
    s: SessionView,
    end: SessionView,
    journal: JournalView,
    live: bool,
    done: RecoveredView,
) -> bool {
    let (s1, _) = if live {
        b.downing_journal(s, journal)
    } else {
        (s, Some(()))
    };
    &&& done.tunnel == journal.tunnel
    &&& live ==> (teardown_target(b, s, journal) matches Some(target) ==> took_down(
        b,
        target,
        s,
        s1,
    ))
    &&& dns_set_back(b, s1, end, journal, done)
    &&& end.asked.len() > s1.asked.len()
    &&& end.asked.last() == ActionView::RemoveFile(
        state::journal_path(b.config_dir, journal.tunnel),
    )
}

/// Recovering from a journal that comes to an end has rolled the host back, and
/// reports the tunnel and the reason.
pub proof fn law_recovery_of_a_journal(
    b: BackendView,
    s: SessionView,
    journal: JournalView,
    tear_down: bool,
    reason: Seq<char>,
)
    ensures
        b.recovering_journal(s, journal, tear_down, reason).1 matches Some(done) ==> {
            let end = b.recovering_journal(s, journal, tear_down, reason).0;
            &&& done.reason == reason
            &&& rolled_back(b, s, end, journal, tear_down, done)
        },
{
    let (end, report) = b.recovering_journal(s, journal, tear_down, reason);
    if let Some(done) = report {
        let (s1, _) = if tear_down {
            b.downing_journal(s, journal)
        } else {
            (s, Some(()))
        };
        if tear_down {
            if let Some(target) = teardown_target(b, s, journal) {
                let r = anything(b);
                lemma_same(s);
                lemma_resolving(r, s, s, b.config_dir, journal.tunnel);
                let t = config::resolving(s, b.config_dir, journal.tunnel).0;
                assert(s1.asked == t.asked.push(switching(b, "down"@, target)));
                reveal(extends);
                assert(s1.asked[t.asked.len() as int] == switching(b, "down"@, target));
            }
        }
        lemma_sets_back(b, s1, journal, done);
        let (s2, _) = b.restoring_journal(s1, journal);
        lemma_same(s1);
        lemma_restoring_journal(anything(b), s1, s1, journal);
        reveal(extends);
        assert(end.asked == s2.asked.push(
            ActionView::RemoveFile(state::journal_path(b.config_dir, journal.tunnel)),
        ));
        assert(dns_set_back(b, s1, end, journal, done));
    }
}

/// Restoring DNS from a journal sets it back.
proof fn lemma_sets_back(b: BackendView, s: SessionView, journal: JournalView, done: RecoveredView)
    requires
        b.restoring_journal(s, journal).1 == Some(
            GuardOutcomeView { cleared: done.dns_cleared, warning: done.dns_warning },
        ),
    ensures
        dns_set_back(b, s, b.restoring_journal(s, journal).0, journal, done),
{
    let (s1, active) = b.naming_active(s);
    let left_alone = journal.tunnel_dns.len() == 0 || (active matches Some(Ok(names)) && any_other(
        names,
        journal.tunnel,
    ));
    if !left_alone {
        let snapshot = journal.dns_snapshot;
        let (end, _) = dns::restoring(s1, snapshot, journal.tunnel_dns, b.dns_sweeps);
        assert forall|k: int| 0 <= k < snapshot.len() implies end.asked[s1.asked.len() + k]
            == setting_back((#[trigger] snapshot[k]).0, snapshot[k].1) by {
            law_restore_reapplies(s1, snapshot, journal.tunnel_dns, b.dns_sweeps, k);
        }
        if snapshot.len() > 0 {
            let last = snapshot.len() - 1;
            law_restore_reapplies(s1, snapshot, journal.tunnel_dns, b.dns_sweeps, last);
        } else {
            let r = anything(b);
            lemma_same(s1);
            lemma_guarding(r, s1, s1, journal.tunnel_dns, b.dns_sweeps);
            reveal(extends);
        }
    }
}

/// Whether, from `s` to `t`, the journal was dealt with from `u` on. Whether its
/// tunnel is live was found out, by its interface or by its config as it was read.
/// Then either the tunnel is active, live and within its lease; or the host was
/// rolled back, taking the tunnel down exactly where it is live, and the report of
/// that is among those of the recovered.
pub open spec fn dealt_with(
    b: BackendView,
    s: SessionView,
    t: SessionView,
    u: SessionView,
    live: bool,
    journal: JournalView,
    dump: Seq<DumpPeerView>,
    now: u64,
    recovered: Seq<RecoveredView>,
) -> bool {
    let (v, found) = b.checking_journal(u, journal, dump);
    &&& extends(anything(b), s, u)
    &&& found == Some(live)
    &&& match state::decision(journal, live, now) {
        Reconciliation::Healthy => {
            &&& journal.phase is Active
            &&& live
            &&& !journal.lease_expired(now)
            &&& extends(anything(b), v, t)
        },
        Reconciliation::Recover { tear_down, reason } => {
            let (w, report) = b.recovering_journal(v, journal, tear_down, reason.description());
            &&& tear_down == live
            &&& report matches Some(done)
            &&& done.reason == reason.description()
            &&& rolled_back(b, v, w, journal, live, done)
            &&& recovered.contains(done)
            &&& extends(anything(b), w, t)
        },
    }
}

/// Whether reconciling, from `s` to `t`, has dealt with a journal.
pub open spec fn settled(
    b: BackendView,
    s: SessionView,
    t: SessionView,
    journal: JournalView,
    dump: Seq<DumpPeerView>,
    now: u64,
    recovered: Seq<RecoveredView>,
) -> bool {
    exists|u: SessionView, live: bool| #[trigger]
        dealt_with(b, s, t, u, live, journal, dump, now, recovered)
}

/// Reconciling leaves no journal unsettled: whatever had been interrupted, a
/// journal is left alone only where its tunnel is active, live and within its
/// lease; from every other one the host is rolled back: the tunnel taken down
/// where it is live, DNS set back to the journal's snapshot, the journal asked to
/// be removed, and all of it reported.
pub proof fn law_reconciling_settles(b: BackendView, s: SessionView, k: int)
    ensures
        ({
            let (s1, read) = state::reading_all(s, b.config_dir);
            let (s2, dumped) = b.dumping(s1);
            let (s3, now) = b.reading_clock(s2);
            let (end, done) = b.reconciling(s);
            done matches Some(Ok(all)) ==> {
                &&& read is Some
                &&& 0 <= k < read->0.len() ==> {
                    &&& dumped matches Some(Ok(_))
                    &&& now is Some
                    &&& settled(b, s, end, read->0[k], dumped->0->Ok_0, now->0, all)
                }
            }
        }),
{
    let r = anything(b);
    let (s1, read) = state::reading_all(s, b.config_dir);
    if let Some(journals) = read {
        if 0 <= k < journals.len() {
            let (s2, dumped) = b.dumping(s1);
            if let Some(Ok(dump)) = dumped {
                let (s3, now) = b.reading_clock(s2);
                if let Some(at) = now {
                    lemma_same(s);
                    lemma_reading_all(r, s, s, b.config_dir);
                    lemma_same(s1);
                    lemma_dumping(r, s1, s1);
                    lemma_same(s2);
                    lemma_reading_clock(r, s2, s2);
                    assert(extends(r, s, s3)) by {
                        reveal(extends);
                    }
                    lemma_settles_from(b, s3, journals, dump, at, 0, Seq::empty(), k);
                    let whole = b.reconciling_from(s3, journals, dump, at, 0, Seq::empty());
                    lemma_settled_earlier(b, s, s3, whole, journals[k], dump, at);
                }
            }
        }
    }
}

/// An operation that was interrupted is rolled back by reconciling, whatever is
/// live: of a journal that records a tunnel as pending, reconciling that comes to
/// a good end has taken the tunnel down, where it is live, and set DNS back, and
/// reports it.
pub proof fn law_interrupted_is_rolled_back(b: BackendView, s: SessionView, k: int)
    requires
        state::reading_all(s, b.config_dir).1 matches Some(journals) && 0 <= k < journals.len()
            && journals[k].phase !is Active,
    ensures
        b.reconciling(s).1 matches Some(Ok(all)) ==> {
            let journal = state::reading_all(s, b.config_dir).1->0[k];
            exists|v: SessionView, w: SessionView, live: bool, n: int|
                #![trigger rolled_back(b, v, w, journal, live, all[n])]
                {
                    &&& 0 <= n < all.len()
                    &&& rolled_back(b, v, w, journal, live, all[n])
                    &&& extends(anything(b), s, v)
                    &&& extends(anything(b), w, b.reconciling(s).0)
                }
        },
{
    law_reconciling_settles(b, s, k);
    let (s1, read) = state::reading_all(s, b.config_dir);
    let (s2, dumped) = b.dumping(s1);
    let (s3, now) = b.reading_clock(s2);
    let (end, done) = b.reconciling(s);
    if let Some(Ok(all)) = done {
        let journal = read->0[k];
        let dump = dumped->0->Ok_0;
        let at = now->0;
        let (u, live) = choose|u: SessionView, live: bool| #[trigger]
            dealt_with(b, s, end, u, live, journal, dump, at, all);
        let (v, _) = b.checking_journal(u, journal, dump);
        if let Reconciliation::Recover { tear_down, reason } = state::decision(journal, live, at) {
            let (w, report) = b.recovering_journal(v, journal, tear_down, reason.description());
            let n = choose|n: int| 0 <= n < all.len() && all[n] == report->0;
            let r = anything(b);
            lemma_same(u);
            lemma_checking_journal(r, u, u, journal, dump);
            assert(extends(r, s, v)) by {
                reveal(extends);
            }
            assert(rolled_back(b, v, w, journal, live, all[n]));
        }
    }
}

/// Reconciling from a journal on settles the ones from there on.
proof fn lemma_settles_from(
    b: BackendView,
    s: SessionView,
    journals: Seq<JournalView>,
    dump: Seq<DumpPeerView>,
    now: u64,
    i: int,
    recovered: Seq<RecoveredView>,
    k: int,
)
    requires
        0 <= i <= k < journals.len(),
    ensures
        b.reconciling_from(s, journals, dump, now, i, recovered).1 matches Some(Ok(all))
            ==> settled(
            b,
            s,
            b.reconciling_from(s, journals, dump, now, i, recovered).0,
            journals[k],
            dump,
            now,
            all,
        ),
    decreases journals.len() - i,
{
    let r = anything(b);
    let whole = b.reconciling_from(s, journals, dump, now, i, recovered);
    lemma_same(s);
    lemma_checking_journal(r, s, s, journals[i], dump);
    assert(extends(r, s, s)) by {
        reveal(extends);
    }
    let (s1, live) = b.checking_journal(s, journals[i], dump);
    if let Some(up) = live {
        lemma_same(s1);
        match state::decision(journals[i], up, now) {
            Reconciliation::Healthy => {
                lemma_reconciling_from(r, s1, s1, journals, dump, now, i + 1, recovered);
                if i < k {
                    lemma_settles_from(b, s1, journals, dump, now, i + 1, recovered, k);
                    lemma_settled_earlier(b, s, s1, whole, journals[k], dump, now);
                } else if let Some(Ok(all)) = whole.1 {
                    assert(dealt_with(b, s, whole.0, s, up, journals[k], dump, now, all));
                }
            },
            Reconciliation::Recover { tear_down, reason } => {
                let why = reason.description();
                law_recovery_of_a_journal(b, s1, journals[i], tear_down, why);
                lemma_recovering_journal(r, s1, s1, journals[i], tear_down, why);
                let (s2, done) = b.recovering_journal(s1, journals[i], tear_down, why);
                if let Some(one) = done {
                    let next = recovered.push(one);
                    lemma_same(s2);
                    lemma_reconciling_from(r, s2, s2, journals, dump, now, i + 1, next);
                    assert(extends(r, s, s2)) by {
                        reveal(extends);
                    }
                    if i < k {
                        lemma_settles_from(b, s2, journals, dump, now, i + 1, next, k);
                        lemma_settled_earlier(b, s, s2, whole, journals[k], dump, now);
                    } else if let Some(Ok(all)) = whole.1 {
                        let n = recovered.len() as int;
                        lemma_reports_kept(b, s2, journals, dump, now, i + 1, next, n);
                        assert(all[n] == one);
                        assert(dealt_with(b, s, whole.0, s, up, journals[k], dump, now, all));
                    }
                }
            },
        }
    }
}

/// What was settled from a later point on was settled from an earlier one on.
proof fn lemma_settled_earlier(
    b: BackendView,
    s: SessionView,
    s1: SessionView,
    whole: Step<Result<Seq<RecoveredView>, ErrorView>>,
    journal: JournalView,
    dump: Seq<DumpPeerView>,
    now: u64,
)
    requires
        extends(anything(b), s, s1),
        whole.1 matches Some(Ok(all)) ==> settled(b, s1, whole.0, journal, dump, now, all),
    ensures
        whole.1 matches Some(Ok(all)) ==> settled(b, s, whole.0, journal, dump, now, all),
{
    if let Some(Ok(all)) = whole.1 {
        let (u, live) = choose|u: SessionView, live: bool| #[trigger]
            dealt_with(b, s1, whole.0, u, live, journal, dump, now, all);
        assert(extends(anything(b), s, u)) by {
            reveal(extends);
        }
        assert(dealt_with(b, s, whole.0, u, live, journal, dump, now, all));
    }
}

/// What has been reported stays reported.
proof fn lemma_reports_kept(
    b: BackendView,
    s: SessionView,
    journals: Seq<JournalView>,
    dump: Seq<DumpPeerView>,
    now: u64,
    i: int,
    recovered: Seq<RecoveredView>,
    k: int,
)
    requires
        0 <= k < recovered.len(),
        0 <= i,
    ensures
        b.reconciling_from(s, journals, dump, now, i, recovered).1 matches Some(Ok(all))
            ==> all.len() >= recovered.len() && all[k] == recovered[k],
    decreases journals.len() - i,
{
    if i < journals.len() {
        let (s1, live) = b.checking_journal(s, journals[i], dump);
        if let Some(up) = live {
            match state::decision(journals[i], up, now) {
                Reconciliation::Healthy => {
                    lemma_reports_kept(b, s1, journals, dump, now, i + 1, recovered, k);
                },
                Reconciliation::Recover { tear_down, reason } => {
                    let (s2, done) = b.recovering_journal(
                        s1,
                        journals[i],
                        tear_down,
                        reason.description(),
                    );
                    if let Some(one) = done {
                        lemma_reports_kept(
                            b,
                            s2,
                            journals,
                            dump,
                            now,
                            i + 1,
                            recovered.push(one),
                            k,
                        );
                    }
                },
            }
        }
    }
}

/// Whether a report is about an orphaned interface: it was torn down by the
/// config of a tunnel, or that failed, or no config was found for it.
pub open spec fn about_orphan(report: RecoveredView, iface: Seq<char>) -> bool {
    ||| report == left_over(iface)
    ||| exists|name: Seq<char>, torn: bool| report == #[trigger] torn_down(name, iface, torn)
}

/// `recover` accounts for every orphaned interface: after what reconciling
/// recovered, it reports on each, in order.
#[verifier::spinoff_prover]
pub proof fn law_orphans_accounted_for(b: BackendView, s: SessionView, k: int)
    ensures
        ({
            let (s1, reconciled) = b.reconciling(s);
            let (s2, dumped) = b.dumping(s1);
            let (s3, read) = state::reading_all(s2, b.config_dir);
            b.recovering(s).1 matches Some(Ok(all)) ==> {
                &&& reconciled matches Some(Ok(_))
                &&& dumped matches Some(Ok(_))
                &&& read is Some
                &&& {
                    let first = reconciled->0->Ok_0;
                    let list = orphans(dumped->0->Ok_0, read->0);
                    0 <= k < list.len() ==> {
                        &&& first.len() + k < all.len()
                        &&& about_orphan(all[first.len() + k], list[k])
                    }
                }
            }
        }),
{
    let (s1, reconciled) = b.reconciling(s);
    if let Some(Ok(first)) = reconciled {
        let (s2, dumped) = b.dumping(s1);
        if let Some(Ok(dump)) = dumped {
            let (s3, read) = state::reading_all(s2, b.config_dir);
            if let Some(journals) = read {
                let list = orphans(dump, journals);
                if 0 <= k < list.len() {
                    lemma_orphans_from(b, s3, list, dump, 0, first, k);
                    let (s4, torn) = b.tearing_down_from(s3, list, dump, 0, first);
                    if let Some(so_far) = torn {
                        lemma_mopping_keeps(b, s4, so_far, first.len() + k);
                    }
                }
            }
        }
    }
}

/// Mopping up keeps the reports made before.
proof fn lemma_mopping_keeps(b: BackendView, s: SessionView, so_far: Seq<RecoveredView>, k: int)
    requires
        0 <= k < so_far.len(),
    ensures
        b.mopping_up(s, so_far).1 matches Some(all) ==> k < all.len() && all[k] == so_far[k],
{
}

/// Each of the orphaned interfaces from `i` on gets a report, after those made
/// before.
proof fn lemma_orphans_from(
    b: BackendView,
    s: SessionView,
    list: Seq<Seq<char>>,
    dump: Seq<DumpPeerView>,
    i: int,
    recovered: Seq<RecoveredView>,
    k: int,
)
    requires
        0 <= i <= list.len(),
        i <= k < list.len(),
    ensures
        b.tearing_down_from(s, list, dump, i, recovered).1 matches Some(all) ==> {
            &&& recovered.len() + k - i < all.len()
            &&& about_orphan(all[recovered.len() + k - i], list[k])
        },
    decreases list.len() - i,
{
    let (s1, one) = b.tearing_down_orphan(s, list[i], dump);
    if let Some(r) = one {
        if i < k {
            lemma_orphans_from(b, s1, list, dump, i + 1, recovered.push(r), k);
        } else {
            lemma_torn_kept(b, s1, list, dump, i + 1, recovered.push(r), recovered.len() as int);
            let (s2, found) = b.finding_config(s, list[i], dump);
            if let Some(Some(tunnel)) = found {
                let (_, downed) = b.quick(s2, "down"@, tunnel.path);
                assert(r == torn_down(tunnel.name, list[i], downed->0 is Ok));
            }
        }
    }
}

/// What has been reported of orphans stays reported.
proof fn lemma_torn_kept(
    b: BackendView,
    s: SessionView,
    list: Seq<Seq<char>>,
    dump: Seq<DumpPeerView>,
    i: int,
    recovered: Seq<RecoveredView>,
    k: int,
)
    requires
        0 <= k < recovered.len(),
        0 <= i,
    ensures
        b.tearing_down_from(s, list, dump, i, recovered).1 matches Some(all) ==> all.len()
            >= recovered.len() && all[k] == recovered[k],
    decreases list.len() - i,
{
    if i < list.len() {
        let (s1, one) = b.tearing_down_orphan(s, list[i], dump);
        if let Some(r) = one {
            lemma_torn_kept(b, s1, list, dump, i + 1, recovered.push(r), k);
        }
    }
}

// ---------------------------------------------------------------------------
// Restoring DNS
// ---------------------------------------------------------------------------

/// Setting a service back to what a snapshot says.
pub open spec fn setting_back(service: Seq<char>, servers: Seq<Seq<char>>) -> ActionView {
    ActionView::Run { program: dns::NETWORKSETUP@, args: dns::set_dns_args(service, servers) }
}

/// Restoring DNS sets every service back to exactly what the snapshot says,
/// custom servers included, before anything else is asked for.
pub proof fn law_restore_reapplies(
    s: SessionView,
    snapshot: Snapshot,
    tunnel_dns: Seq<Seq<char>>,
    delays: Seq<u64>,
    k: int,
)
    requires
        0 <= k < snapshot.len(),
    ensures
        dns::restoring(s, snapshot, tunnel_dns, delays).1 is Some ==> {
            let end = dns::restoring(s, snapshot, tunnel_dns, delays).0;
            &&& s.asked.len() + k < end.asked.len()
            &&& end.asked[s.asked.len() + k] == setting_back(snapshot[k].0, snapshot[k].1)
        },
{
    let r = anything(BackendView::new(Seq::empty(), false));
    lemma_reapplies_from(s, snapshot, 0, Seq::empty(), None, k);
    let (s1, reapplied) = dns::reapply_from(s, snapshot, 0, Seq::empty(), None);
    if reapplied is Some {
        lemma_same(s1);
        lemma_guarding(r, s1, s1, tunnel_dns, delays);
        reveal(extends);
    }
}

/// The journal of a pending tunnel holds the snapshot that will be restored, and
/// no service of it is recorded with one of the tunnel's own servers, which the
/// journal holds too.
pub proof fn law_pending_snapshot(b: BackendView, s: SessionView, tunnel: TunnelView)
    requires
        b.recording_pending(s, tunnel).1 matches Some(Ok(_)),
    ensures
        ({
            let (t, recorded) = b.recording_pending(s, tunnel);
            let snapshot = recorded->0->Ok_0;
            let n = t.asked.len() as int;
            &&& n >= 4
            &&& t.asked[n - 4] matches ActionView::EncodeJournal(j)
            &&& j.dns_snapshot == snapshot
            &&& declaring_dns(s, tunnel.path).1 == Some(j.tunnel_dns)
            &&& dns::sanitized(snapshot, j.tunnel_dns)
        }),
{
    let (s1, declared) = declaring_dns(s, tunnel.path);
    dns::law_capture_sanitized(s1, declared->0);
}

/// A tunnel that is up keeps its DNS while another is taken down: where one of
/// another name is found up, nothing is set.
pub proof fn law_other_tunnel_keeps_dns(
    b: BackendView,
    s: SessionView,
    tunnel: TunnelView,
    journal: Option<JournalView>,
)
    requires
        ({
            let (s1, _) = if journal matches Some(j) && j.tunnel_dns.len() > 0 {
                (s, Some(Seq::empty()))
            } else {
                declaring_dns(s, tunnel.path)
            };
            b.naming_active(s1).1 matches Some(Ok(names)) && any_other(names, tunnel.name)
        }),
    ensures
        extends(
            Rule { b, reading: true, running: true, tunnels: false },
            s,
            b.restoring_dns(s, tunnel, journal).0,
        ),
        b.restoring_dns(s, tunnel, journal).1 matches Some(outcome) ==> outcome
            == GuardOutcomeView::nothing(),
{
    let r = Rule { b, reading: true, running: true, tunnels: false };
    let from_journal = journal matches Some(j) && j.tunnel_dns.len() > 0;
    let (s1, _) = if from_journal {
        (s, Some(Seq::empty()))
    } else {
        declaring_dns(s, tunnel.path)
    };
    lemma_same(s);
    lemma_declaring_dns(r, s, s, tunnel.path);
    lemma_same(s1);
    lemma_naming_active(r, s1, s1);
    reveal(extends);
}

/// Setting the services from `i` on sets each of them, in order.
proof fn lemma_reapplies_from(
    s: SessionView,
    snapshot: Snapshot,
    i: int,
    restored: Seq<Seq<char>>,
    warning: Option<Seq<char>>,
    k: int,
)
    requires
        0 <= i <= k < snapshot.len(),
    ensures
        dns::reapply_from(s, snapshot, i, restored, warning).1 is Some ==> {
            let end = dns::reapply_from(s, snapshot, i, restored, warning).0;
            &&& s.asked.len() + k - i < end.asked.len()
            &&& end.asked[s.asked.len() + k - i] == setting_back(snapshot[k].0, snapshot[k].1)
        },
    decreases snapshot.len() - i,
{
    let r = anything(BackendView::new(Seq::empty(), false));
    let (service, servers) = snapshot[i];
    let (s1, ok) = dns::setting_dns(s, service, servers);
    assert(s1.asked == s.asked.push(setting_back(service, servers)));
    if let Some(worked) = ok {
        let kept = if worked {
            order::with_text(restored, service)
        } else {
            restored
        };
        let warned = if worked {
            warning
        } else {
            Some(dns::restore_warning(service, servers))
        };
        if i < k {
            lemma_reapplies_from(s1, snapshot, i + 1, kept, warned, k);
        } else {
            lemma_same(s1);
            lemma_reapply_from(r, s1, s1, snapshot, i + 1, kept, warned);
            reveal(extends);
        }
    }
}

} // verus!
