//! What bringing a tunnel up and taking it down consist of, and what is recorded of it.
use vstd::prelude::*;

use super::lifecycle::{any_other, deadline, declaring_dns, on_interface};
use super::live::{finding_live, status_of};
use super::{failure, BackendView, Clock, RecoveredView};
use crate::config;
use crate::config::TunnelView;
use crate::dns;
use crate::dns::GuardOutcomeView;
use crate::error::ErrorView;
use crate::session::{ActionView, ReplyView, SessionView};
use crate::state;
use crate::state::{JournalView, Phase, Reconciliation, Snapshot};
use crate::status::DumpPeerView;

verus! {

// ---------------------------------------------------------------------------
// Small questions
// ---------------------------------------------------------------------------

/// A lease ends so many seconds from now, or at the end of time.
pub proof fn law_deadline(now: u64, secs: u64)
    ensures
        now + secs <= u64::MAX ==> deadline(now, secs) == now + secs,
        now + secs > u64::MAX ==> deadline(now, secs) == u64::MAX,
{
}

/// The clock is read, unless it is fixed.
pub proof fn law_clock(b: BackendView, s: SessionView, time: u64)
    ensures
        b.clock == Clock::Fixed(time) ==> b.reading_clock(s) == (s, Some(time)),
        b.clock is System && s.asked.len() < s.replies.len() && s.replies[s.asked.len() as int]
            == ReplyView::Time(time) ==> b.reading_clock(s) == (
            SessionView { asked: s.asked.push(ActionView::Now), ..s },
            Some(time),
        ),
{
}

/// Whether a list names anything but one tunnel, and whether an interface has a peer.
pub proof fn law_others(names: Seq<Seq<char>>, name: Seq<char>, dump: Seq<DumpPeerView>)
    ensures
        !any_other(names, name) <==> forall|i: int|
            0 <= i < names.len() ==> #[trigger] names[i] == name,
        !on_interface(dump, name) <==> forall|i: int|
            0 <= i < dump.len() ==> (#[trigger] dump[i]).interface != name,
{
}

/// The DNS servers of a tunnel are those of its config; one that cannot be read has
/// none.
pub proof fn law_declaring_dns(s: SessionView, path: Seq<char>)
    ensures
        declaring_dns(s, path).0 == config::summarizing(s, path).0,
        match config::summarizing(s, path).1 {
            None => declaring_dns(s, path).1 is None,
            Some(Ok(v)) => declaring_dns(s, path).1 == Some(v.dns_servers),
            Some(Err(_)) => declaring_dns(s, path).1 matches Some(none) && none.len() == 0,
        },
{
}

/// `wg-quick` is run with a verb and a target, and fails where it exits with another
/// code than 0.
pub proof fn law_quick(b: BackendView, s: SessionView, verb: Seq<char>, target: Seq<char>)
    ensures
        ({
            let n = s.asked.len() as int;
            let (t, done) = b.quick(s, verb, target);
            &&& t.replies == s.replies
            &&& t.asked == s.asked.push(
                if b.sudo {
                    ActionView::Run {
                        program: "sudo"@,
                        args: seq!["-n"@, b.wg_quick, verb, target],
                    }
                } else {
                    ActionView::Run { program: b.wg_quick, args: seq![verb, target] }
                },
            )
            &&& n < s.replies.len() ==> match s.replies[n] {
                ReplyView::Ran(Ok(out)) => if out.code == Some(0i32) {
                    done matches Some(Ok(_))
                } else {
                    done matches Some(Err(e)) && e == failure(b.wg_quick, out)
                },
                ReplyView::Ran(Err(source)) => done matches Some(Err(e)) && e == (
                ErrorView::Spawn {
                    program: if b.sudo {
                        "sudo"@
                    } else {
                        b.wg_quick
                    },
                    source,
                }),
                _ => done is None,
            }
        }),
{
    assert(seq!["-n"@, b.wg_quick] + seq![verb, target] =~= seq!["-n"@, b.wg_quick, verb, target]);
}

// ---------------------------------------------------------------------------
// Journals
// ---------------------------------------------------------------------------

/// The journal of a tunnel that is up: its name, its interface, what its config
/// declares, the snapshot, and the deadline where there is a lease.
pub proof fn law_recording_active(
    b: BackendView,
    s: SessionView,
    tunnel: TunnelView,
    interface: Option<Seq<char>>,
    lease: Option<u64>,
    snapshot: Snapshot,
    servers: Seq<Seq<char>>,
    time: u64,
)
    requires
        declaring_dns(s, tunnel.path).1 == Some(servers),
        lease is Some ==> b.reading_clock(declaring_dns(s, tunnel.path).0).1 == Some(time),
    ensures
        ({
            let (t, journal) = b.recording_active(s, tunnel, interface, lease, snapshot);
            &&& journal matches Some(j)
            &&& j.tunnel == tunnel.name && j.phase == Phase::Active && j.interface == interface
            &&& j.dns_snapshot == snapshot && j.tunnel_dns == servers
            &&& match lease {
                None => j.lease_deadline is None && t == declaring_dns(s, tunnel.path).0,
                Some(secs) => j.lease_deadline == Some(deadline(time, secs)) && t
                    == b.reading_clock(declaring_dns(s, tunnel.path).0).0,
            }
        }),
{
}

/// Before a tunnel is brought up its journal is written, with the snapshot of the DNS
/// settings where its config declares servers.
pub proof fn law_recording_pending(
    b: BackendView,
    s: SessionView,
    tunnel: TunnelView,
    servers: Seq<Seq<char>>,
    snapshot: Snapshot,
)
    requires
        declaring_dns(s, tunnel.path).1 == Some(servers),
        servers.len() > 0 ==> (dns::capturing(declaring_dns(s, tunnel.path).0, servers).1 matches Some(
            taken,
        ) && snapshot == match taken {
            Some(x) => x,
            None => Seq::empty(),
        }),
        servers.len() == 0 ==> snapshot.len() == 0,
    ensures
        ({
            let s1 = declaring_dns(s, tunnel.path).0;
            let s2 = if servers.len() > 0 {
                dns::capturing(s1, servers).0
            } else {
                s1
            };
            let (s3, written) = state::writing(
                s2,
                b.config_dir,
                JournalView {
                    tunnel: tunnel.name,
                    phase: Phase::UpPending,
                    interface: None,
                    lease_deadline: None,
                    dns_snapshot: snapshot,
                    tunnel_dns: servers,
                },
            );
            let (t, done) = b.recording_pending(s, tunnel);
            &&& t == s3
            &&& match written {
                Some(Ok(_)) => done matches Some(Ok(kept)) && kept == snapshot,
                Some(Err(e)) => done matches Some(Err(told)) && told == e,
                None => done is None,
            }
        }),
{
    if servers.len() == 0 {
        assert(snapshot =~= Seq::empty());
    }
}

// ---------------------------------------------------------------------------
// Up
// ---------------------------------------------------------------------------

/// A tunnel is brought up where its journal could be written, and only there.
pub proof fn law_starting(b: BackendView, s: SessionView, tunnel: TunnelView)
    ensures
        ({
            let (t, pending) = b.recording_pending(s, tunnel);
            let (u, upped) = b.quick(t, "up"@, tunnel.path);
            let (v, started) = b.starting(s, tunnel);
            match pending {
                Some(Ok(snapshot)) => v == u && match upped {
                    Some(Ok(_)) => started matches Some(Ok(kept)) && kept == snapshot,
                    Some(Err(e)) => started matches Some(Err(told)) && told == e,
                    None => started is None,
                },
                Some(Err(e)) => v == t && (started matches Some(Err(told)) && told == e),
                None => v == t && started is None,
            }
        }),
{
}

/// Once it is up, its live peer is looked for and the journal is written anew, with the
/// interface, the lease and the snapshot; its status is reported where that worked.
pub proof fn law_confirming(
    b: BackendView,
    s: SessionView,
    tunnel: TunnelView,
    lease: Option<u64>,
    snapshot: Snapshot,
    dump: Seq<DumpPeerView>,
    row: Option<DumpPeerView>,
    j: JournalView,
)
    requires
        b.dumping(s).1 == Some(Ok::<Seq<DumpPeerView>, ErrorView>(dump)),
        finding_live(b.dumping(s).0, tunnel, dump).1 == Some(
            Ok::<Option<DumpPeerView>, ErrorView>(row),
        ),
        b.recording_active(
            finding_live(b.dumping(s).0, tunnel, dump).0,
            tunnel,
            match row {
                Some(hit) => Some(hit.interface),
                None => None,
            },
            lease,
            snapshot,
        ).1 == Some(j),
    ensures
        ({
            let t = b.recording_active(
                finding_live(b.dumping(s).0, tunnel, dump).0,
                tunnel,
                match row {
                    Some(hit) => Some(hit.interface),
                    None => None,
                },
                lease,
                snapshot,
            ).0;
            let (u, written) = state::writing(t, b.config_dir, j);
            let (v, done) = b.confirming(s, tunnel, lease, snapshot);
            &&& v == u
            &&& match written {
                Some(Ok(_)) => done matches Some(Ok(st)) && st == status_of(tunnel.name, row, dump),
                Some(Err(e)) => done matches Some(Err(told)) && told == e,
                None => done is None,
            }
        }),
{
}

/// Bringing up is starting and confirming, with the snapshot that starting took.
pub proof fn law_activating(b: BackendView, s: SessionView, tunnel: TunnelView, lease: Option<u64>)
    ensures
        match b.starting(s, tunnel).1 {
            Some(Ok(snapshot)) => b.activating(s, tunnel, lease) == b.confirming(
                b.starting(s, tunnel).0,
                tunnel,
                lease,
                snapshot,
            ),
            Some(Err(e)) => b.activating(s, tunnel, lease).0 == b.starting(s, tunnel).0 && (
            b.activating(s, tunnel, lease).1 matches Some(Err(told)) && told == e),
            None => b.activating(s, tunnel, lease).1 is None,
        },
{
}

/// A tunnel is approached by reconciling, finding its config, and looking for its live
/// peer; the first of these that fails is the error.
pub proof fn law_approaching(b: BackendView, s: SessionView, name: Seq<char>)
    ensures
        ({
            let (s1, reconciled) = b.reconciling(s);
            let (s2, resolved) = config::resolving(s1, b.config_dir, name);
            let (s3, dumped) = b.dumping(s2);
            let (t, found) = b.approaching(s, name);
            match (reconciled, resolved, dumped) {
                (Some(Err(e)), _, _) => t == s1 && (found matches Some(Err(told)) && told == e),
                (Some(Ok(_)), Some(Err(e)), _) => t == s2 && (found matches Some(Err(told)) && told
                    == e),
                (Some(Ok(_)), Some(Ok(_)), Some(Err(e))) => t == s3 && (found matches Some(
                    Err(told),
                ) && told == e),
                (Some(Ok(_)), Some(Ok(tunnel)), Some(Ok(dump))) => {
                    let (s4, live) = finding_live(s3, tunnel, dump);
                    &&& t == s4
                    &&& match live {
                        Some(Ok(row)) => found matches Some(Ok(x)) && x == (tunnel, dump, row),
                        Some(Err(e)) => found matches Some(Err(told)) && told == e,
                        None => found is None,
                    }
                },
                _ => found is None,
            }
        }),
{
}

/// `up` on a tunnel that is live adopts it and reports it as it is; otherwise it brings
/// it up and reports a change.
pub proof fn law_upping(b: BackendView, s: SessionView, name: Seq<char>, lease: Option<u64>)
    ensures
        ({
            let (s1, found) = b.approaching(s, name);
            let (t, done) = b.upping(s, name, lease);
            match found {
                Some(Ok((tunnel, dump, Some(hit)))) => {
                    &&& t == b.adopting(s1, tunnel, hit.interface, lease).0
                    &&& done matches Some(r) ==> (r matches Ok(up) && up == (
                        false,
                        status_of(name, Some(hit), dump),
                    ))
                    &&& done is Some == b.adopting(s1, tunnel, hit.interface, lease).1 is Some
                },
                Some(Ok((tunnel, dump, None))) => {
                    let (s2, activated) = b.activating(s1, tunnel, lease);
                    &&& t == s2
                    &&& match activated {
                        Some(Ok(st)) => done matches Some(Ok(up)) && up == (true, st),
                        Some(Err(e)) => done matches Some(Err(told)) && told == e,
                        None => done is None,
                    }
                },
                Some(Err(e)) => t == s1 && (done matches Some(Err(told)) && told == e),
                None => done is None,
            }
        }),
{
}

/// A live tunnel is adopted: where it has a journal a lease is set in that, and nothing
/// else is changed; where it has none it gets one.
pub proof fn law_adopting(
    b: BackendView,
    s: SessionView,
    tunnel: TunnelView,
    interface: Seq<char>,
    lease: Option<u64>,
    secs: u64,
    time: u64,
)
    ensures
        ({
            let (s1, read) = state::reading(s, b.config_dir, tunnel.name);
            match read {
                Some(Some(j)) => {
                    &&& b.adopting(s, tunnel, interface, None) == (s1, Some(()))
                    &&& b.reading_clock(s1).1 == Some(time) ==> ({
                        let (s2, written) = state::writing(
                            b.reading_clock(s1).0,
                            b.config_dir,
                            JournalView {
                                tunnel: j.tunnel,
                                phase: j.phase,
                                interface: j.interface,
                                lease_deadline: Some(deadline(time, secs)),
                                dns_snapshot: j.dns_snapshot,
                                tunnel_dns: j.tunnel_dns,
                            },
                        );
                        let (t, done) = b.adopting(s, tunnel, interface, Some(secs));
                        t == s2 && (done is Some <==> written is Some)
                    })
                },
                Some(None) => {
                    let (s2, journal) = b.recording_active(
                        s1,
                        tunnel,
                        Some(interface),
                        lease,
                        Seq::empty(),
                    );
                    let (t, done) = b.adopting(s, tunnel, interface, lease);
                    match journal {
                        Some(j) => t == state::writing(s2, b.config_dir, j).0 && (done is Some
                            <==> state::writing(s2, b.config_dir, j).1 is Some),
                        None => t == s2 && done is None,
                    }
                },
                None => b.adopting(s, tunnel, interface, lease).1 is None,
            }
        }),
{
}

// ---------------------------------------------------------------------------
// Down
// ---------------------------------------------------------------------------

/// `down` tears the tunnel down and reports what that did.
pub proof fn law_downing(b: BackendView, s: SessionView, name: Seq<char>)
    ensures
        ({
            let (s1, found) = b.approaching(s, name);
            let (t, done) = b.downing(s, name);
            match found {
                Some(Ok((tunnel, _, live))) => {
                    let (s2, torn) = b.tearing_down(s1, tunnel, live is Some);
                    &&& t == s2
                    &&& match torn {
                        Some(Ok((changed, guard))) => done matches Some(Ok(down)) && down.changed
                            == changed && down.dns_cleared == guard.cleared && down.dns_warning
                            == guard.warning,
                        Some(Err(e)) => done matches Some(Err(told)) && told == e,
                        None => done is None,
                    }
                },
                Some(Err(e)) => t == s1 && (done matches Some(Err(told)) && told == e),
                None => done is None,
            }
        }),
{
}

/// Where a tunnel has a journal it is marked first, and a failure of that does not
/// matter; then the tunnel is taken down, if it is live; and where that did not fail,
/// its DNS is restored and its journal removed.
pub proof fn law_tearing_down(b: BackendView, s: SessionView, tunnel: TunnelView, live: bool)
    ensures
        ({
            let (s1, read) = state::reading(s, b.config_dir, tunnel.name);
            let (t, done) = b.tearing_down(s, tunnel, live);
            read matches Some(journal) ==> {
                let (s2, marked) = match journal {
                    Some(j) => state::writing(
                        s1,
                        b.config_dir,
                        JournalView {
                            tunnel: j.tunnel,
                            phase: Phase::DownPending,
                            interface: j.interface,
                            lease_deadline: j.lease_deadline,
                            dns_snapshot: j.dns_snapshot,
                            tunnel_dns: j.tunnel_dns,
                        },
                    ),
                    None => (s1, Some(Ok(()))),
                };
                let (s3, downed) = b.quick(s2, "down"@, tunnel.path);
                &&& marked is None ==> t == s2 && done is None
                &&& marked is Some && !live ==> b.tearing_down(s, tunnel, live) == b.cleaning_up(
                    s2,
                    tunnel,
                    journal,
                    false,
                )
                &&& marked is Some && live ==> match downed {
                    Some(Ok(_)) => b.tearing_down(s, tunnel, live) == b.cleaning_up(
                        s3,
                        tunnel,
                        journal,
                        true,
                    ),
                    Some(Err(e)) => t == s3 && (done matches Some(Err(told)) && told == e),
                    None => done is None,
                }
            }
        }),
{
}

/// The journal is removed behind the DNS, and that it could not be is an error.
pub proof fn law_cleaning_up(
    b: BackendView,
    s: SessionView,
    tunnel: TunnelView,
    journal: Option<JournalView>,
    changed: bool,
)
    ensures
        ({
            let (s1, restored) = b.restoring_dns(s, tunnel, journal);
            let (s2, removed) = state::removing(s1, b.config_dir, tunnel.name);
            let (t, done) = b.cleaning_up(s, tunnel, journal, changed);
            match restored {
                Some(guard) => t == s2 && match removed {
                    Some(Ok(_)) => done matches Some(Ok(x)) && x == (changed, guard),
                    Some(Err(e)) => done matches Some(Err(told)) && told == e,
                    None => done is None,
                },
                None => done is None,
            }
        }),
{
}

/// The DNS is restored from the journal where that knows the tunnel's servers, and
/// guarded by the config otherwise; it is left alone where there are no servers, where
/// another tunnel is up, and where that cannot be found out.
pub proof fn law_restoring_dns(
    b: BackendView,
    s: SessionView,
    tunnel: TunnelView,
    j: JournalView,
    journal: Option<JournalView>,
    servers: Seq<Seq<char>>,
)
    ensures
        j.tunnel_dns.len() > 0 ==> ({
            let (s1, active) = b.naming_active(s);
            match active {
                Some(Ok(names)) => b.restoring_dns(s, tunnel, Some(j)) == if exists|i: int|
                    0 <= i < names.len() && #[trigger] names[i] != tunnel.name {
                    (s1, Some(GuardOutcomeView::nothing()))
                } else {
                    dns::restoring(s1, j.dns_snapshot, j.tunnel_dns, b.dns_sweeps)
                },
                Some(Err(_)) => b.restoring_dns(s, tunnel, Some(j)) == (
                    s1,
                    Some(GuardOutcomeView::nothing()),
                ),
                None => b.restoring_dns(s, tunnel, Some(j)).1 is None,
            }
        }),
        (journal is None || journal->0.tunnel_dns.len() == 0) && declaring_dns(s, tunnel.path).1
            == Some(servers) ==> ({
            let s0 = declaring_dns(s, tunnel.path).0;
            let (s1, active) = b.naming_active(s0);
            if servers.len() == 0 {
                b.restoring_dns(s, tunnel, journal) == (s0, Some(GuardOutcomeView::nothing()))
            } else {
                match active {
                    Some(Ok(names)) => b.restoring_dns(s, tunnel, journal) == if exists|i: int|
                        0 <= i < names.len() && #[trigger] names[i] != tunnel.name {
                        (s1, Some(GuardOutcomeView::nothing()))
                    } else {
                        dns::guarding(s1, servers, b.dns_sweeps)
                    },
                    Some(Err(_)) => b.restoring_dns(s, tunnel, journal) == (
                        s1,
                        Some(GuardOutcomeView::nothing()),
                    ),
                    None => b.restoring_dns(s, tunnel, journal).1 is None,
                }
            }
        }),
{
}

// ---------------------------------------------------------------------------
// Reconciling
// ---------------------------------------------------------------------------

/// A journal is live where its interface is in the dump; otherwise where its config is
/// there and has a live peer.
pub proof fn law_checking_journal(
    b: BackendView,
    s: SessionView,
    j: JournalView,
    dump: Seq<DumpPeerView>,
)
    ensures
        ({
            let (t, live) = b.checking_journal(s, j, dump);
            let seen = j.interface is Some && exists|i: int|
                0 <= i < dump.len() && (#[trigger] dump[i]).interface == j.interface->0;
            let (s1, resolved) = config::resolving(s, b.config_dir, j.tunnel);
            if seen {
                t == s && live == Some(true)
            } else {
                match resolved {
                    Some(Ok(tunnel)) => {
                        let (s2, found) = finding_live(s1, tunnel, dump);
                        &&& t == s2
                        &&& match found {
                            Some(Ok(row)) => live == Some(row is Some),
                            Some(Err(_)) => live == Some(false),
                            None => live is None,
                        }
                    },
                    Some(Err(_)) => t == s1 && live == Some(false),
                    None => live is None,
                }
            }
        }),
{
}

/// A tunnel is taken down by its config, or by its interface where the config is gone;
/// with neither nothing is run, and whether it worked does not matter.
pub proof fn law_downing_journal(b: BackendView, s: SessionView, j: JournalView)
    ensures
        ({
            let (s1, resolved) = config::resolving(s, b.config_dir, j.tunnel);
            let (t, done) = b.downing_journal(s, j);
            match resolved {
                Some(Ok(tunnel)) => t == b.quick(s1, "down"@, tunnel.path).0 && (done is Some
                    <==> b.quick(s1, "down"@, tunnel.path).1 is Some),
                Some(Err(_)) => match j.interface {
                    Some(iface) => t == b.quick(s1, "down"@, iface).0 && (done is Some <==> b.quick(
                        s1,
                        "down"@,
                        iface,
                    ).1 is Some),
                    None => t == s1 && done is Some,
                },
                None => done is None,
            }
        }),
{
}

/// The DNS of a journal is restored from its snapshot, unless it has no servers or
/// another tunnel is up.
pub proof fn law_restoring_journal(b: BackendView, s: SessionView, j: JournalView)
    ensures
        j.tunnel_dns.len() == 0 ==> b.restoring_journal(s, j) == (
            s,
            Some(GuardOutcomeView::nothing()),
        ),
        j.tunnel_dns.len() > 0 ==> ({
            let (s1, active) = b.naming_active(s);
            let restored = dns::restoring(s1, j.dns_snapshot, j.tunnel_dns, b.dns_sweeps);
            match active {
                Some(Ok(names)) => b.restoring_journal(s, j) == if exists|i: int|
                    0 <= i < names.len() && #[trigger] names[i] != j.tunnel {
                    (s1, Some(GuardOutcomeView::nothing()))
                } else {
                    restored
                },
                Some(Err(_)) => b.restoring_journal(s, j) == restored,
                None => b.restoring_journal(s, j).1 is None,
            }
        }),
{
}

/// A journal is recovered by taking its tunnel down, where that is due, restoring the
/// DNS and removing the journal; it is reported with what the guard did.
pub proof fn law_recovering_journal(
    b: BackendView,
    s: SessionView,
    j: JournalView,
    tear_down: bool,
    reason: Seq<char>,
)
    ensures
        ({
            let (s1, downed) = b.downing_journal(s, j);
            let s2 = if tear_down {
                s1
            } else {
                s
            };
            let (s3, restored) = b.restoring_journal(s2, j);
            let (s4, removed) = state::removing(s3, b.config_dir, j.tunnel);
            let (t, done) = b.recovering_journal(s, j, tear_down, reason);
            if (!tear_down || downed is Some) && restored is Some && removed is Some {
                t == s4 && (done matches Some(r) && r.tunnel == j.tunnel && r.reason == reason
                    && r.dns_cleared == restored->0.cleared && r.dns_warning
                    == restored->0.warning)
            } else {
                done is None
            }
        }),
{
}

/// Reconciling goes through the journals one by one: one that is healthy is left alone,
/// every other is recovered and reported with its reason, in order.
pub proof fn law_reconciling_from(
    b: BackendView,
    s: SessionView,
    journals: Seq<JournalView>,
    dump: Seq<DumpPeerView>,
    now: u64,
    i: int,
    recovered: Seq<RecoveredView>,
)
    requires
        0 <= i <= journals.len(),
    ensures
        ({
            let from_here = b.reconciling_from(s, journals, dump, now, i, recovered);
            if i == journals.len() {
                from_here.0 == s && (from_here.1 matches Some(Ok(all)) && all == recovered)
            } else {
                let (t, live) = b.checking_journal(s, journals[i], dump);
                match live {
                    None => from_here.1 is None,
                    Some(up) => match state::decision(journals[i], up, now) {
                        Reconciliation::Healthy => from_here == b.reconciling_from(
                            t,
                            journals,
                            dump,
                            now,
                            i + 1,
                            recovered,
                        ),
                        Reconciliation::Recover { tear_down, reason } => {
                            let (u, done) = b.recovering_journal(
                                t,
                                journals[i],
                                tear_down,
                                reason.description(),
                            );
                            match done {
                                None => from_here.1 is None,
                                Some(one) => from_here == b.reconciling_from(
                                    u,
                                    journals,
                                    dump,
                                    now,
                                    i + 1,
                                    recovered.push(one),
                                ),
                            }
                        },
                    },
                }
            }
        }),
{
}

/// Where there are journals the dump and the clock are read, and every journal is gone
/// through; where there are none nothing is done.
pub proof fn law_reconciling(b: BackendView, s: SessionView)
    ensures
        ({
            let (s1, read) = state::reading_all(s, b.config_dir);
            read matches Some(journals) ==> if journals.len() == 0 {
                b.reconciling(s).0 == s1 && (b.reconciling(s).1 matches Some(Ok(none)) && none.len()
                    == 0)
            } else {
                let (s2, dumped) = b.dumping(s1);
                match dumped {
                    Some(Ok(dump)) => {
                        let (s3, now) = b.reading_clock(s2);
                        now matches Some(time) ==> b.reconciling(s) == b.reconciling_from(
                            s3,
                            journals,
                            dump,
                            time,
                            0,
                            Seq::empty(),
                        )
                    },
                    Some(Err(e)) => b.reconciling(s).0 == s2 && (b.reconciling(s).1 matches Some(
                        Err(told),
                    ) && told == e),
                    None => b.reconciling(s).1 is None,
                }
            }
        }),
{
}

} // verus!
