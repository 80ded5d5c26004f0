//! What holds of the operations on tunnels.
use vstd::prelude::*;

use super::lifecycle::{deadline, declaring_dns};
use super::live::{finding_live, serves, SurveyView};
use super::measure::transient_lease;
use super::trace::{
    lemma_adopting, lemma_cleaning_up, lemma_confirming, lemma_declaring_dns, lemma_dumping,
    lemma_finding_live, lemma_recording_active, lemma_tearing_down,
};
use super::trace_commands::{
    lemma_activating_probe, lemma_fetching_from, lemma_measuring, lemma_naming_interface,
    lemma_sampling_times,
};
use super::{full_command, BackendView};
use crate::config;
use crate::config::{PeerIdentityView, TunnelView};
use crate::diff::HeadView;
use crate::dns;
use crate::order;
use crate::probe::{ProbeResult, ProbeResultView};
use crate::session::{ActionView, ReplyView, SessionView};
use crate::state;
use crate::state::{JournalView, Phase};
use crate::status::{DumpPeerView, ListEntryView};
use crate::text;
use crate::trace::{extends, lemma_capturing, lemma_reading, lemma_same, lemma_writing, Rule};

verus! {

// ---------------------------------------------------------------------------
// Idempotence
// ---------------------------------------------------------------------------

/// Whether, from `s` to `t`, no tunnel was brought up or down.
pub open spec fn no_switching(b: BackendView, s: SessionView, t: SessionView) -> bool {
    extends(Rule { b, reading: false, running: true, tunnels: false }, s, t)
}

/// Whether, from `s` to `t`, no program was run.
pub open spec fn no_running(b: BackendView, s: SessionView, t: SessionView) -> bool {
    extends(Rule { b, reading: false, running: false, tunnels: false }, s, t)
}

/// `up` on a tunnel that is found up leaves it so: it runs no further program and
/// reports the status with `changed: false`.
pub proof fn law_up_again(b: BackendView, s: SessionView, name: Seq<char>, lease: Option<u64>)
    requires
        b.approaching(s, name).1 matches Some(Ok(found)) && found.2 is Some,
    ensures
        no_running(b, b.approaching(s, name).0, b.upping(s, name, lease).0),
        b.upping(s, name, lease).1 matches Some(done) ==> done matches Ok(up) && !up.0
            && up.1.up,
{
    let (s1, approached) = b.approaching(s, name);
    let (tunnel, _, live) = approached->0->Ok_0;
    let r = Rule { b, reading: false, running: false, tunnels: false };
    lemma_same(s1);
    lemma_adopting(r, s1, s1, tunnel, live->0.interface, lease);
}

/// `down` on a tunnel that is found down takes nothing down and reports
/// `changed: false`; on one that is found up it reports `changed: true`.
pub proof fn law_down_again(b: BackendView, s: SessionView, name: Seq<char>)
    requires
        b.approaching(s, name).1 matches Some(Ok(_)),
    ensures
        b.approaching(s, name).1->0->Ok_0.2 is None ==> no_switching(
            b,
            b.approaching(s, name).0,
            b.downing(s, name).0,
        ),
        b.downing(s, name).1 matches Some(Ok(down)) ==> down.changed == (b.approaching(
            s,
            name,
        ).1->0->Ok_0.2 is Some),
{
    let (s1, approached) = b.approaching(s, name);
    let (tunnel, _, live) = approached->0->Ok_0;
    if live is None {
        let r = Rule { b, reading: false, running: true, tunnels: false };
        lemma_same(s1);
        lemma_tearing_down(r, s1, s1, tunnel, false);
    }
}

// ---------------------------------------------------------------------------
// Crash safety
// ---------------------------------------------------------------------------

/// The action that brings a tunnel up or down.
pub open spec fn switching(b: BackendView, verb: Seq<char>, target: Seq<char>) -> ActionView {
    let (program, args) = full_command(b.sudo, b.wg_quick, seq![verb, target]);
    ActionView::Run { program, args }
}

/// Whether, from `s` to `t`, `wg-quick down` was run on the config at `path`.
pub open spec fn took_down(b: BackendView, path: Seq<char>, s: SessionView, t: SessionView) -> bool {
    exists|i: int|
        s.asked.len() <= i < t.asked.len() && #[trigger] t.asked[i] == switching(
            b,
            "down"@,
            path,
        )
}

/// Whether what was asked for last is `wg-quick up` on the config at `path`, and
/// it exited with 0.
pub open spec fn upped(b: BackendView, path: Seq<char>, t: SessionView) -> bool {
    let n = t.asked.len() as int;
    &&& 0 < n <= t.replies.len()
    &&& t.asked[n - 1] == switching(b, "up"@, path)
    &&& t.replies[n - 1] matches ReplyView::Ran(Ok(out)) && out.success()
}

/// Journals are written ahead: `wg-quick up` is asked for only after a journal
/// that records the tunnel as pending has replaced the old one. Where that
/// failed, nothing more is asked for.
pub proof fn law_write_ahead(
    b: BackendView,
    s: SessionView,
    tunnel: TunnelView,
    lease: Option<u64>,
)
    ensures
        ({
            let (pending, recorded) = b.recording_pending(s, tunnel);
            let x = b.activating(s, tunnel, lease);
            match recorded {
                Some(Ok(_)) => {
                    let n = pending.asked.len() as int;
                    &&& n > s.asked.len()
                    &&& pending.asked[n - 1] == ActionView::Rename {
                        from: state::draft_path(b.config_dir, tunnel.name),
                        to: state::journal_path(b.config_dir, tunnel.name),
                    }
                    &&& n <= pending.replies.len()
                    &&& pending.replies[n - 1] matches ReplyView::Finished(Ok(_))
                    &&& n >= 4
                    &&& pending.asked[n - 4] matches ActionView::EncodeJournal(j) && j.phase
                        == Phase::UpPending && j.tunnel == tunnel.name
                    &&& x.0.asked.len() > n
                    &&& x.0.asked[n] == switching(b, "up"@, tunnel.path)
                },
                _ => x.0 == pending,
            }
        }),
{
    let (pending, recorded) = b.recording_pending(s, tunnel);
    match recorded {
        Some(Ok(snapshot)) => {
            let n = pending.asked.len() as int;
            let upped = b.quick(pending, "up"@, tunnel.path);
            assert(upped.0.asked == pending.asked.push(switching(b, "up"@, tunnel.path)));
            let r = Rule { b, reading: false, running: true, tunnels: true };
            lemma_same(upped.0);
            lemma_confirming(r, upped.0, upped.0, tunnel, lease, snapshot);
            lemma_same(s);
            lemma_pending_extends(b, s, tunnel);
            reveal(extends);
        },
        _ => {},
    }
}

/// Recording a pending tunnel only adds to what was asked for, and ends with the
/// replacement of the journal.
proof fn lemma_pending_extends(b: BackendView, s: SessionView, tunnel: TunnelView)
    ensures
        ({
            let (t, recorded) = b.recording_pending(s, tunnel);
            recorded matches Some(Ok(_)) ==> {
                let n = t.asked.len() as int;
                &&& n >= s.asked.len() + 4
                &&& t.asked[n - 1] == ActionView::Rename {
                    from: state::draft_path(b.config_dir, tunnel.name),
                    to: state::journal_path(b.config_dir, tunnel.name),
                }
                &&& n <= t.replies.len()
                &&& t.replies[n - 1] matches ReplyView::Finished(Ok(_))
                &&& t.asked[n - 4] matches ActionView::EncodeJournal(j) && j.phase
                    == Phase::UpPending && j.tunnel == tunnel.name
            }
        }),
{
    let r = Rule { b, reading: false, running: true, tunnels: true };
    lemma_same(s);
    lemma_declaring_dns(r, s, s, tunnel.path);
    let (s1, declared) = declaring_dns(s, tunnel.path);
    match declared {
        Some(tunnel_dns) => {
            let (s2, captured) = if tunnel_dns.len() == 0 {
                (s1, Some(None))
            } else {
                dns::capturing(s1, tunnel_dns)
            };
            lemma_same(s1);
            lemma_capturing(r, s1, s1, tunnel_dns);
            reveal(extends);
            match captured {
                Some(taken) => {
                    let dns_snapshot = match taken {
                        Some(snapshot) => snapshot,
                        None => Seq::empty(),
                    };
                    lemma_written(
                        s2,
                        b.config_dir,
                        JournalView {
                            tunnel: tunnel.name,
                            phase: Phase::UpPending,
                            interface: None,
                            lease_deadline: None,
                            dns_snapshot,
                            tunnel_dns,
                        },
                    );
                },
                None => {},
            }
        },
        None => {},
    }
}

/// A journal that was written: what was asked for last, and before.
proof fn lemma_written(s: SessionView, config_dir: Seq<char>, journal: JournalView)
    ensures
        ({
            let (t, written) = state::writing(s, config_dir, journal);
            written matches Some(Ok(_)) ==> {
                let n = t.asked.len() as int;
                &&& n == s.asked.len() + 6
                &&& t.asked[n - 1] == ActionView::Rename {
                    from: state::draft_path(config_dir, journal.tunnel),
                    to: state::journal_path(config_dir, journal.tunnel),
                }
                &&& n <= t.replies.len()
                &&& t.replies[n - 1] matches ReplyView::Finished(Ok(_))
                &&& t.asked[n - 4] == ActionView::EncodeJournal(journal)
            }
        }),
{
}

/// A teardown of a live tunnel that comes to a result has run `wg-quick down`.
proof fn lemma_takes_down(b: BackendView, s: SessionView, tunnel: TunnelView)
    ensures
        b.tearing_down(s, tunnel, true).1 is Some ==> took_down(
            b,
            tunnel.path,
            s,
            b.tearing_down(s, tunnel, true).0,
        ),
{
    let r = Rule { b, reading: false, running: true, tunnels: true };
    let x = b.tearing_down(s, tunnel, true);
    lemma_same(s);
    lemma_reading(r, s, s, b.config_dir, tunnel.name);
    let (s1, read) = state::reading(s, b.config_dir, tunnel.name);
    match read {
        Some(journal) => {
            let (s2, _) = match journal {
                Some(j) => state::writing(
                    s1,
                    b.config_dir,
                    JournalView { phase: Phase::DownPending, ..j },
                ),
                None => (s1, Some(Ok(()))),
            };
            lemma_same(s1);
            match journal {
                Some(j) => {
                    let after = JournalView { phase: Phase::DownPending, ..j };
                    lemma_writing(r, s1, s1, b.config_dir, after);
                },
                None => {},
            }
            let (s3, downed) = b.quick(s2, "down"@, tunnel.path);
            assert(s3.asked == s2.asked.push(switching(b, "down"@, tunnel.path)));
            match downed {
                Some(Ok(_)) => {
                    lemma_same(s3);
                    lemma_cleaning_up(r, s3, s3, tunnel, journal, true);
                },
                _ => {},
            }
            reveal(extends);
            if x.1 is Some {
                let i = s2.asked.len() as int;
                assert(x.0.asked[i] == switching(b, "down"@, tunnel.path));
            }
        },
        None => {},
    }
}

/// A probe leaves no state behind: on a tunnel that was up no tunnel is brought
/// up or down; one that was down is taken down again, unless `wg-quick up` is the
/// last that was run and did not exit with 0.
pub proof fn law_probe_restores(
    b: BackendView,
    s: SessionView,
    tunnel: TunnelView,
    url: Seq<char>,
    max_time: u64,
    count: u32,
)
    ensures
        b.probing_one(s, tunnel, url, max_time, count).1 matches Some(Ok(r)) ==> if r.activated {
            let end = b.probing_one(s, tunnel, url, max_time, count).0;
            ||| took_down(b, tunnel.path, s, end)
            ||| end.asked.last() == switching(b, "up"@, tunnel.path) && !upped(b, tunnel.path, end)
        } else {
            no_switching(b, s, b.probing_one(s, tunnel, url, max_time, count).0)
        },
{
    let quiet = Rule { b, reading: false, running: true, tunnels: false };
    let r = Rule { b, reading: false, running: true, tunnels: true };
    lemma_same(s);
    lemma_dumping(quiet, s, s);
    let (s1, dumped) = b.dumping(s);
    match dumped {
        Some(Ok(dump)) => {
            lemma_same(s1);
            lemma_finding_live(quiet, s1, s1, tunnel, dump);
            let (s2, live) = finding_live(s1, tunnel, dump);
            match live {
                Some(Ok(row)) => {
                    let base = ProbeResultView::new(tunnel.name, url, row is None);
                    lemma_same(s2);
                    if row is Some {
                        lemma_measuring(quiet, s2, s2, tunnel, base, max_time, count);
                    } else {
                        lemma_activating_probe(r, s2, s2, tunnel, max_time, count);
                        let (s3, activated) = b.activating_probe(s2, tunnel, max_time, count);
                        if activated matches Some(Ok(None)) {
                            lemma_measured_takes_down(b, s3, tunnel, base, max_time, count);
                        }
                    }
                    reveal(extends);
                },
                _ => {},
            }
        },
        _ => {},
    }
}

/// Measuring through a tunnel that was brought up for it takes it down.
proof fn lemma_measured_takes_down(
    b: BackendView,
    s: SessionView,
    tunnel: TunnelView,
    base: ProbeResultView,
    max_time: u64,
    count: u32,
)
    requires
        base.activated,
    ensures
        b.measuring(s, tunnel, base, max_time, count).1 is Some ==> took_down(
            b,
            tunnel.path,
            s,
            b.measuring(s, tunnel, base, max_time, count).0,
        ),
{
    let r = Rule { b, reading: false, running: true, tunnels: true };
    lemma_same(s);
    lemma_naming_interface(r, s, s, tunnel);
    let (s1, named) = b.naming_interface(s, tunnel);
    match named {
        Some(_) => {
            let n: u32 = if count == 0 {
                1
            } else {
                count
            };
            let timeout = text::number(max_time as nat);
            lemma_same(s1);
            lemma_sampling_times(r, s1, s1, base.url, timeout, n as nat, Seq::empty(), None);
            let (s2, sampled) = b.sampling_times(
                s1,
                base.url,
                timeout,
                n as nat,
                Seq::empty(),
                None,
            );
            match sampled {
                Some(_) => {
                    lemma_takes_down(b, s2, tunnel);
                    reveal(extends);
                },
                None => {},
            }
        },
        None => {},
    }
}

/// A comparison leaves no state behind: once `wg-quick up` on the tunnel's config
/// has exited with 0, the tunnel is taken down again, also where it is then not
/// found up, cannot be recorded or does not answer.
pub proof fn law_diff_restores(
    b: BackendView,
    s: SessionView,
    tunnel: TunnelView,
    url: Seq<char>,
    max_time: u64,
)
    ensures
        ({
            let (t, started) = b.starting(s, tunnel);
            let end = b.diffing_transient(s, tunnel, url, max_time);
            &&& started matches Some(done) ==> (done is Ok <==> upped(b, tunnel.path, t))
            &&& upped(b, tunnel.path, t) && end.1 is Some ==> took_down(
                b,
                tunnel.path,
                t,
                end.0,
            )
        }),
{
    let r = Rule { b, reading: false, running: true, tunnels: true };
    let lease = Some(transient_lease(max_time, b.diff_retries.len()));
    let (s1, started) = b.starting(s, tunnel);
    let end = b.diffing_transient(s, tunnel, url, max_time);
    match started {
        Some(Ok(snapshot)) => {
            lemma_same(s1);
            lemma_confirming(r, s1, s1, tunnel, lease, snapshot);
            let (s2, confirmed) = b.confirming(s1, tunnel, lease, snapshot);
            match confirmed {
                Some(Ok(_)) => {
                    let timeout = text::number(max_time as nat);
                    let none: Result<HeadView, Seq<char>> = Err("no attempt made"@);
                    lemma_same(s2);
                    lemma_fetching_from(r, s2, s2, url, timeout, b.diff_retries, 0, none);
                    let (s3, fetched) = b.fetching_from(
                        s2,
                        url,
                        timeout,
                        b.diff_retries,
                        0,
                        none,
                    );
                    if fetched is Some {
                        lemma_takes_down(b, s3, tunnel);
                    }
                    reveal(extends);
                },
                Some(Err(_)) => {
                    lemma_takes_down(b, s2, tunnel);
                    reveal(extends);
                },
                None => {},
            }
        },
        Some(Err(_)) => {
            lemma_not_started(b, s, tunnel);
        },
        None => {},
    }
}

/// A comparison through a tunnel that is up brings no tunnel up or down.
pub proof fn law_diff_leaves_up(
    b: BackendView,
    s: SessionView,
    tunnel: TunnelView,
    url: Seq<char>,
    max_time: u64,
)
    requires
        b.dumping(s).1 matches Some(Ok(dump)) && (finding_live(
            b.dumping(s).0,
            tunnel,
            dump,
        ).1 matches Some(Ok(Some(_)))),
    ensures
        no_switching(b, s, b.diffing_one(s, tunnel, url, max_time).0),
{
    let quiet = Rule { b, reading: false, running: true, tunnels: false };
    lemma_same(s);
    lemma_dumping(quiet, s, s);
    let (s1, dumped) = b.dumping(s);
    let dump = dumped->0->Ok_0;
    lemma_same(s1);
    lemma_finding_live(quiet, s1, s1, tunnel, dump);
    let (s2, _) = finding_live(s1, tunnel, dump);
    let timeout = text::number(max_time as nat);
    let none: Result<HeadView, Seq<char>> = Err("no attempt made"@);
    lemma_same(s2);
    lemma_fetching_from(quiet, s2, s2, url, timeout, seq![0u64], 0, none);
    reveal(extends);
}

/// Where a tunnel was not started, `wg-quick up` did not exit with 0.
proof fn lemma_not_started(b: BackendView, s: SessionView, tunnel: TunnelView)
    requires
        b.starting(s, tunnel).1 matches Some(Err(_)),
    ensures
        !upped(b, tunnel.path, b.starting(s, tunnel).0),
{
    let (s1, pending) = b.recording_pending(s, tunnel);
    match pending {
        Some(Err(_)) => {
            assert(s1.asked.last() !is Run);
        },
        _ => {},
    }
}

/// A command runs unprivileged, and its tunnel is restored whatever becomes of
/// it: the child is asked for first, as given; a tunnel that was brought up for
/// it is taken down after it; and on a tunnel that was up nothing else is asked
/// for.
pub proof fn law_exec_restores(
    b: BackendView,
    s: SessionView,
    tunnel: TunnelView,
    name: Seq<char>,
    activated: bool,
    command: Seq<Seq<char>>,
)
    requires
        command.len() > 0,
    ensures
        ({
            let x = b.running_child(s, tunnel, name, activated, command);
            let child = ActionView::RunPassthrough { program: command[0], args: command.skip(1) };
            &&& x.0.asked.len() > s.asked.len()
            &&& x.0.asked[s.asked.len() as int] == child
            &&& !activated ==> x.0.asked == s.asked.push(child)
            &&& activated && x.1 is Some ==> took_down(b, tunnel.path, s, x.0)
        }),
{
    let r = Rule { b, reading: false, running: true, tunnels: true };
    let (s1, child) = s.run_passthrough(command[0], command.skip(1));
    lemma_same(s1);
    lemma_tearing_down(r, s1, s1, tunnel, true);
    lemma_takes_down(b, s1, tunnel);
    reveal(extends);
}

/// So does `exec` as a whole: once `wg-quick up` on the tunnel's config has exited
/// with 0, the tunnel is taken down again.
pub proof fn law_exec_takes_down(
    b: BackendView,
    s: SessionView,
    name: Seq<char>,
    command: Seq<Seq<char>>,
)
    requires
        command.len() > 0,
        b.approaching(s, name).1 matches Some(Ok(found)) && found.2 is None,
    ensures
        ({
            let (s1, approached) = b.approaching(s, name);
            let tunnel = approached->0->Ok_0.0;
            let (t, started) = b.starting(s1, tunnel);
            let end = b.executing(s, name, command);
            &&& started matches Some(done) ==> (done is Ok <==> upped(b, tunnel.path, t))
            &&& upped(b, tunnel.path, t) && end.1 is Some ==> took_down(
                b,
                tunnel.path,
                t,
                end.0,
            )
        }),
{
    let r = Rule { b, reading: false, running: true, tunnels: true };
    let (s1, approached) = b.approaching(s, name);
    let tunnel = approached->0->Ok_0.0;
    let (s2, started) = b.starting(s1, tunnel);
    match started {
        Some(Ok(snapshot)) => {
            lemma_same(s2);
            lemma_recording_active(r, s2, s2, tunnel, None, None, snapshot);
            let (s3, made) = b.recording_active(s2, tunnel, None, None, snapshot);
            if let Some(j) = made {
                lemma_same(s3);
                lemma_writing(r, s3, s3, b.config_dir, j);
                let (s4, _) = state::writing(s3, b.config_dir, j);
                law_exec_restores(b, s4, tunnel, name, true, command);
                reveal(extends);
            }
        },
        Some(Err(_)) => {
            lemma_not_started(b, s1, tunnel);
        },
        None => {},
    }
}

/// On a host without journals, reconciling asks for nothing but the list of the
/// journals.
pub proof fn law_reconcile_idle(b: BackendView, s: SessionView)
    requires
        state::reading_all(s, b.config_dir).1 matches Some(journals) && journals.len() == 0,
    ensures
        b.reconciling(s).0 == state::reading_all(s, b.config_dir).0,
        b.reconciling(s).1 matches Some(Ok(recovered)) && recovered.len() == 0,
{
}

/// A lease of `secs` seconds taken at `t` has expired exactly from `t + secs`
/// on; a lease beyond the end of time ends there.
pub proof fn law_lease(journal: JournalView, t: u64, secs: u64, now: u64)
    requires
        journal.lease_deadline == Some(deadline(t, secs)),
    ensures
        t + secs <= u64::MAX ==> (journal.lease_expired(now) <==> now >= t + secs),
        t + secs > u64::MAX ==> (journal.lease_expired(now) <==> now == u64::MAX),
{
}

// ---------------------------------------------------------------------------
// Finding tunnels, measuring, health
// ---------------------------------------------------------------------------

/// Sibling configs, which target the same server with different allowed-IPs,
/// are told apart: no live peer serves both.
pub proof fn law_siblings_apart(row: DumpPeerView, a: PeerIdentityView, b: PeerIdentityView)
    requires
        a.allowed_ips.len() > 0,
        b.allowed_ips.len() > 0,
        a.allowed_ips != b.allowed_ips,
    ensures
        !(serves(row, a) && serves(row, b)),
{
}

/// The names of the entries that are up, in order.
pub open spec fn up_names(list: Seq<ListEntryView>) -> Seq<Seq<char>> {
    list.filter(|e: ListEntryView| e.up).map_values(|e: ListEntryView| e.name)
}

/// `list`, `status` and `current` agree: on the same replies they ask for the same
/// and fail alike, name the same tunnels in the same order, and take the same ones
/// to be up.
pub proof fn law_views_agree(b: BackendView, s: SessionView)
    ensures
        b.checking_all(s).0 == b.listing(s).0,
        b.naming_active(s).0 == b.listing(s).0,
        match b.listing(s).1 {
            Some(Ok(list)) => {
                &&& b.naming_active(s).1 matches Some(Ok(names))
                &&& names == up_names(list)
                &&& b.checking_all(s).1 matches Some(Ok(statuses))
                &&& statuses.len() == list.len()
                &&& forall|i: int|
                    0 <= i < list.len() ==> (#[trigger] statuses[i]).name == list[i].name
                        && statuses[i].up == list[i].up
            },
            Some(Err(e)) => {
                &&& b.naming_active(s).1 matches Some(Err(one)) && one == e
                &&& b.checking_all(s).1 matches Some(Err(other)) && other == e
            },
            None => b.naming_active(s).1 is None && b.checking_all(s).1 is None,
        },
{
    if let Some(Ok(v)) = b.surveying(s).1 {
        lemma_active_names(v, v.tunnels.len());
        assert(v.entries().take(v.tunnels.len() as int) =~= v.entries());
    }
}

/// The active tunnels are those of the entries that are up.
proof fn lemma_active_names(v: SurveyView, n: nat)
    requires
        n <= v.tunnels.len(),
    ensures
        v.active(n) == up_names(v.entries().take(n as int)),
    decreases n,
{
    reveal(Seq::filter);
    let list = v.entries().take(n as int);
    if n > 0 {
        lemma_active_names(v, (n - 1) as nat);
        assert(list.drop_last() =~= v.entries().take(n - 1));
        assert(v.active(n) =~= up_names(list));
    } else {
        assert(v.active(n) =~= up_names(list));
    }
}

/// The results of a probe are sorted: successes first, the fastest first.
pub proof fn law_probe_order(
    b: BackendView,
    s: SessionView,
    name: Option<Seq<char>>,
    url: Seq<char>,
    max_time: u64,
    count: u32,
)
    ensures
        b.probing(s, name, url, max_time, count).1 matches Some(Ok(results)) ==> order::in_order::<
            ProbeResult,
        >(results),
{
    let (s1, selected) = b.reconciling_and_selecting(s, name);
    match selected {
        Some(Ok(tunnels)) => {
            lemma_probes_ordered(b, s1, tunnels, url, max_time, count, 0, Seq::empty());
        },
        _ => {},
    }
}

/// The results of a probe are sorted.
proof fn lemma_probes_ordered(
    b: BackendView,
    s: SessionView,
    tunnels: Seq<TunnelView>,
    url: Seq<char>,
    max_time: u64,
    count: u32,
    i: int,
    results: Seq<ProbeResultView>,
)
    ensures
        b.probing_from(s, tunnels, url, max_time, count, i, results).1 matches Some(Ok(r))
            ==> order::in_order::<ProbeResult>(r),
    decreases tunnels.len() - i,
{
    if i >= tunnels.len() {
        order::lemma_sorted::<ProbeResult>(results);
    } else {
        let (s1, one) = b.probing_one(s, tunnels[i], url, max_time, count);
        match one {
            Some(Ok(r)) => {
                lemma_probes_ordered(
                    b,
                    s1,
                    tunnels,
                    url,
                    max_time,
                    count,
                    i + 1,
                    results.push(r),
                );
            },
            _ => {},
        }
    }
}

/// The host is reported healthy exactly where no issue is reported.
pub proof fn law_healthy_without_issues(b: BackendView, s: SessionView)
    ensures
        b.verifying(s).1 matches Some(Ok(health)) ==> health.healthy == (health.issues.len() == 0),
{
}

// ---------------------------------------------------------------------------
// Adding configs
// ---------------------------------------------------------------------------

/// No config with shell hooks is installed without `allow_hooks`, not even under
/// `force`: the attempt is refused, and nothing is asked for but the config.
pub proof fn law_add_refuses_hooks(
    b: BackendView,
    s: SessionView,
    source: Seq<char>,
    name: Option<Seq<char>>,
    force: bool,
)
    requires
        config::summarizing(s, source).1 matches Some(Ok(summary)) && summary.exec_hooks.len() > 0,
    ensures
        b.adding(s, source, name, force, false).1 matches Some(Err(_)),
        b.adding(s, source, name, force, false).0.asked.len() <= s.asked.len() + 1,
{
}

} // verus!
