//! What the operations on tunnels ask for; see [`crate::trace`].
use vstd::prelude::*;

use super::lifecycle::{any_other, deadline, declaring_dns, on_interface};
use super::live::{finding_live, matching_from};
use super::recovery::{
    ROUTE, collecting_from, config_from, interfaces, orphan_issue, orphans, reading_route,
    with_new,
};
use super::{HealthIssueView, RecoveredView, full_command};
use crate::config::TunnelView;
use crate::session::SessionView;
use crate::state::{JournalView, Phase, Reconciliation, Snapshot};
use crate::status::DumpPeerView;
use crate::trace::{
    Rule, later, lemma_bind, lemma_capturing, lemma_discovering, lemma_finding_stale,
    lemma_finished, lemma_guarding, lemma_identifying, lemma_now, lemma_reading, lemma_reading_all,
    lemma_removing, lemma_resolving, lemma_restoring, lemma_resumed, lemma_run, lemma_summarizing,
    lemma_writing, quick_verb, resumed, steady,
};
use crate::config;
use crate::dns;
use crate::order;
use crate::state;

verus! {

// ---------------------------------------------------------------------------
// Live state
// ---------------------------------------------------------------------------

/// Running a privileged program.
pub proof fn lemma_running(
    r: Rule,
    s: SessionView,
    t: SessionView,
    program: Seq<char>,
    args: Seq<Seq<char>>,
)
    requires
        later(s, t),
        r.running,
        ({
            let (full, full_args) = full_command(r.b.sudo, program, args);
            r.runs(full, full_args)
        }),
    ensures
        steady(r, s, t, r.b.running(s, program, args), r.b.running(t, program, args)),
{
    let fx = r.b.running(s, program, args);
    let fy = r.b.running(t, program, args);
    let (full, full_args) = full_command(r.b.sudo, program, args);
    lemma_run(r, s, t, full, full_args);
    let x1 = s.run(full, full_args);
    let y1 = t.run(full, full_args);
    lemma_bind(r, s, t, x1, y1, fx, fy);
    lemma_finished(r, s, t, fx, fy);
}

/// Reading the clock.
pub proof fn lemma_reading_clock(r: Rule, s: SessionView, t: SessionView)
    requires
        later(s, t),
    ensures
        steady(r, s, t, r.b.reading_clock(s), r.b.reading_clock(t)),
{
    let fx = r.b.reading_clock(s);
    let fy = r.b.reading_clock(t);
    if r.b.clock is System {
        lemma_now(r, s, t);
        let x1 = s.now();
        let y1 = t.now();
        lemma_bind(r, s, t, x1, y1, fx, fy);
    }
    lemma_finished(r, s, t, fx, fy);
}

/// Reading the live peers.
pub proof fn lemma_dumping(r: Rule, s: SessionView, t: SessionView)
    requires
        later(s, t),
        r.running,
    ensures
        steady(r, s, t, r.b.dumping(s), r.b.dumping(t)),
{
    let fx = r.b.dumping(s);
    let fy = r.b.dumping(t);
    lemma_running(r, s, t, r.b.wg, seq!["show"@, "all"@, "dump"@]);
    let x1 = r.b.running(s, r.b.wg, seq!["show"@, "all"@, "dump"@]);
    let y1 = r.b.running(t, r.b.wg, seq!["show"@, "all"@, "dump"@]);
    lemma_bind(r, s, t, x1, y1, fx, fy);
    lemma_finished(r, s, t, fx, fy);
}

/// Finding the live peer of a tunnel.
pub proof fn lemma_finding_live(
    r: Rule,
    s: SessionView,
    t: SessionView,
    tunnel: TunnelView,
    dump: Seq<DumpPeerView>,
)
    requires
        later(s, t),
    ensures
        steady(r, s, t, finding_live(s, tunnel, dump), finding_live(t, tunnel, dump)),
{
    let fx = finding_live(s, tunnel, dump);
    let fy = finding_live(t, tunnel, dump);
    lemma_identifying(r, s, t, tunnel.path);
    let x1 = config::identifying(s, tunnel.path);
    let y1 = config::identifying(t, tunnel.path);
    lemma_bind(r, s, t, x1, y1, fx, fy);
    lemma_finished(r, s, t, fx, fy);
}

/// Finding the live peers of tunnels.
pub proof fn lemma_matching_from(
    r: Rule,
    s: SessionView,
    t: SessionView,
    tunnels: Seq<TunnelView>,
    dump: Seq<DumpPeerView>,
    i: int,
    found: Seq<Option<DumpPeerView>>,
)
    requires
        later(s, t),
    ensures
        steady(
            r,
            s,
            t,
            matching_from(s, tunnels, dump, i, found),
            matching_from(t, tunnels, dump, i, found),
        ),
    decreases tunnels.len() - i,
{
    let fx = matching_from(s, tunnels, dump, i, found);
    let fy = matching_from(t, tunnels, dump, i, found);
    if i < tunnels.len() {
        lemma_finding_live(r, s, t, tunnels[i], dump);
        let x1 = finding_live(s, tunnels[i], dump);
        let y1 = finding_live(t, tunnels[i], dump);
        let s1 = resumed(x1, y1);
        lemma_resumed(r, s, t, x1, y1);
        let f1 = if x1.1 is Some {
            fx
        } else {
            fy
        };
        match y1.1 {
            Some(Ok(row)) => {
                lemma_matching_from(r, s1, y1.0, tunnels, dump, i + 1, found.push(row));
                let x2 = matching_from(s1, tunnels, dump, i + 1, found.push(row));
                let y2 = matching_from(y1.0, tunnels, dump, i + 1, found.push(row));
                lemma_bind(r, s1, y1.0, x2, y2, f1, fy);
            },
            _ => {},
        }
        lemma_bind(r, s, t, x1, y1, fx, fy);
    }
    lemma_finished(r, s, t, fx, fy);
}

/// Finding out what is up.
pub proof fn lemma_surveying(r: Rule, s: SessionView, t: SessionView)
    requires
        later(s, t),
        r.running,
    ensures
        steady(r, s, t, r.b.surveying(s), r.b.surveying(t)),
{
    let fx = r.b.surveying(s);
    let fy = r.b.surveying(t);
    lemma_discovering(r, s, t, r.b.config_dir);
    let x1 = config::discovering(s, r.b.config_dir);
    let y1 = config::discovering(t, r.b.config_dir);
    let s1 = resumed(x1, y1);
    lemma_resumed(r, s, t, x1, y1);
    let f1 = if x1.1 is Some {
        fx
    } else {
        fy
    };
    match y1.1 {
        Some(Ok(tunnels)) => {
            lemma_dumping(r, s1, y1.0);
            let x2 = r.b.dumping(s1);
            let y2 = r.b.dumping(y1.0);
            let s2 = resumed(x2, y2);
            lemma_resumed(r, s1, y1.0, x2, y2);
            let f2 = if x2.1 is Some {
                f1
            } else {
                fy
            };
            match y2.1 {
                Some(Ok(dump)) => {
                    lemma_matching_from(r, s2, y2.0, tunnels, dump, 0, Seq::empty());
                    let x3 = matching_from(s2, tunnels, dump, 0, Seq::empty());
                    let y3 = matching_from(y2.0, tunnels, dump, 0, Seq::empty());
                    lemma_bind(r, s2, y2.0, x3, y3, f2, fy);
                },
                _ => {},
            }
            lemma_bind(r, s1, y1.0, x2, y2, f1, fy);
        },
        _ => {},
    }
    lemma_bind(r, s, t, x1, y1, fx, fy);
    lemma_finished(r, s, t, fx, fy);
}

/// The status of one tunnel.
pub proof fn lemma_checking_one(r: Rule, s: SessionView, t: SessionView, name: Seq<char>)
    requires
        later(s, t),
        r.running,
    ensures
        steady(r, s, t, r.b.checking_one(s, name), r.b.checking_one(t, name)),
{
    let fx = r.b.checking_one(s, name);
    let fy = r.b.checking_one(t, name);
    lemma_resolving(r, s, t, r.b.config_dir, name);
    let x1 = config::resolving(s, r.b.config_dir, name);
    let y1 = config::resolving(t, r.b.config_dir, name);
    let s1 = resumed(x1, y1);
    lemma_resumed(r, s, t, x1, y1);
    let f1 = if x1.1 is Some {
        fx
    } else {
        fy
    };
    match y1.1 {
        Some(Ok(tunnel)) => {
            lemma_dumping(r, s1, y1.0);
            let x2 = r.b.dumping(s1);
            let y2 = r.b.dumping(y1.0);
            let s2 = resumed(x2, y2);
            lemma_resumed(r, s1, y1.0, x2, y2);
            let f2 = if x2.1 is Some {
                f1
            } else {
                fy
            };
            match y2.1 {
                Some(Ok(dump)) => {
                    lemma_finding_live(r, s2, y2.0, tunnel, dump);
                    let x3 = finding_live(s2, tunnel, dump);
                    let y3 = finding_live(y2.0, tunnel, dump);
                    lemma_bind(r, s2, y2.0, x3, y3, f2, fy);
                },
                _ => {},
            }
            lemma_bind(r, s1, y1.0, x2, y2, f1, fy);
        },
        _ => {},
    }
    lemma_bind(r, s, t, x1, y1, fx, fy);
    lemma_finished(r, s, t, fx, fy);
}

/// The status of every tunnel.
pub proof fn lemma_checking_all(r: Rule, s: SessionView, t: SessionView)
    requires
        later(s, t),
        r.running,
    ensures
        steady(r, s, t, r.b.checking_all(s), r.b.checking_all(t)),
{
    let fx = r.b.checking_all(s);
    let fy = r.b.checking_all(t);
    lemma_surveying(r, s, t);
    let x1 = r.b.surveying(s);
    let y1 = r.b.surveying(t);
    lemma_bind(r, s, t, x1, y1, fx, fy);
    lemma_finished(r, s, t, fx, fy);
}

/// Listing the tunnels.
pub proof fn lemma_listing(r: Rule, s: SessionView, t: SessionView)
    requires
        later(s, t),
        r.running,
    ensures
        steady(r, s, t, r.b.listing(s), r.b.listing(t)),
{
    let fx = r.b.listing(s);
    let fy = r.b.listing(t);
    lemma_surveying(r, s, t);
    let x1 = r.b.surveying(s);
    let y1 = r.b.surveying(t);
    lemma_bind(r, s, t, x1, y1, fx, fy);
    lemma_finished(r, s, t, fx, fy);
}

/// Naming the active tunnels.
pub proof fn lemma_naming_active(r: Rule, s: SessionView, t: SessionView)
    requires
        later(s, t),
        r.running,
    ensures
        steady(r, s, t, r.b.naming_active(s), r.b.naming_active(t)),
{
    let fx = r.b.naming_active(s);
    let fy = r.b.naming_active(t);
    lemma_surveying(r, s, t);
    let x1 = r.b.surveying(s);
    let y1 = r.b.surveying(t);
    lemma_bind(r, s, t, x1, y1, fx, fy);
    lemma_finished(r, s, t, fx, fy);
}

// ---------------------------------------------------------------------------
// Lifecycle
// ---------------------------------------------------------------------------

/// Reading the DNS servers that a config declares.
pub proof fn lemma_declaring_dns(r: Rule, s: SessionView, t: SessionView, path: Seq<char>)
    requires
        later(s, t),
    ensures
        steady(r, s, t, declaring_dns(s, path), declaring_dns(t, path)),
{
    let fx = declaring_dns(s, path);
    let fy = declaring_dns(t, path);
    lemma_summarizing(r, s, t, path);
    let x1 = config::summarizing(s, path);
    let y1 = config::summarizing(t, path);
    lemma_bind(r, s, t, x1, y1, fx, fy);
    lemma_finished(r, s, t, fx, fy);
}

/// Making the journal of an active tunnel.
pub proof fn lemma_recording_active(
    r: Rule,
    s: SessionView,
    t: SessionView,
    tunnel: TunnelView,
    interface: Option<Seq<char>>,
    lease_secs: Option<u64>,
    snapshot: Snapshot,
)
    requires
        later(s, t),
    ensures
        steady(
            r,
            s,
            t,
            r.b.recording_active(s, tunnel, interface, lease_secs, snapshot),
            r.b.recording_active(t, tunnel, interface, lease_secs, snapshot),
        ),
{
    let fx = r.b.recording_active(s, tunnel, interface, lease_secs, snapshot);
    let fy = r.b.recording_active(t, tunnel, interface, lease_secs, snapshot);
    lemma_declaring_dns(r, s, t, tunnel.path);
    let x1 = declaring_dns(s, tunnel.path);
    let y1 = declaring_dns(t, tunnel.path);
    let s1 = resumed(x1, y1);
    lemma_resumed(r, s, t, x1, y1);
    let f1 = if x1.1 is Some {
        fx
    } else {
        fy
    };
    match y1.1 {
        Some(_) => {
            if lease_secs is Some {
                lemma_reading_clock(r, s1, y1.0);
                let x2 = r.b.reading_clock(s1);
                let y2 = r.b.reading_clock(y1.0);
                lemma_bind(r, s1, y1.0, x2, y2, f1, fy);
            }
        },
        None => {},
    }
    lemma_bind(r, s, t, x1, y1, fx, fy);
    lemma_finished(r, s, t, fx, fy);
}

/// The write-ahead step.
pub proof fn lemma_recording_pending(r: Rule, s: SessionView, t: SessionView, tunnel: TunnelView)
    requires
        later(s, t),
        !r.reading,
        r.running,
    ensures
        steady(r, s, t, r.b.recording_pending(s, tunnel), r.b.recording_pending(t, tunnel)),
{
    let fx = r.b.recording_pending(s, tunnel);
    let fy = r.b.recording_pending(t, tunnel);
    lemma_declaring_dns(r, s, t, tunnel.path);
    let x1 = declaring_dns(s, tunnel.path);
    let y1 = declaring_dns(t, tunnel.path);
    let s1 = resumed(x1, y1);
    lemma_resumed(r, s, t, x1, y1);
    let f1 = if x1.1 is Some {
        fx
    } else {
        fy
    };
    match y1.1 {
        Some(tunnel_dns) => {
            if tunnel_dns.len() == 0 {
                let taken: Option<Snapshot> = None;
                let dns_snapshot = match taken {
                    Some(snapshot) => snapshot,
                    None => Seq::empty(),
                };
                let journal = JournalView {
                    tunnel: tunnel.name,
                    phase: Phase::UpPending,
                    interface: None,
                    lease_deadline: None,
                    dns_snapshot,
                    tunnel_dns,
                };
                lemma_writing(r, s1, y1.0, r.b.config_dir, journal);
                let x2 = state::writing(s1, r.b.config_dir, journal);
                let y2 = state::writing(y1.0, r.b.config_dir, journal);
                lemma_bind(r, s1, y1.0, x2, y2, f1, fy);
            } else {
                lemma_capturing(r, s1, y1.0, tunnel_dns);
                let x2 = dns::capturing(s1, tunnel_dns);
                let y2 = dns::capturing(y1.0, tunnel_dns);
                let s2 = resumed(x2, y2);
                lemma_resumed(r, s1, y1.0, x2, y2);
                let f2 = if x2.1 is Some {
                    f1
                } else {
                    fy
                };
                match y2.1 {
                    Some(taken) => {
                        let dns_snapshot = match taken {
                            Some(snapshot) => snapshot,
                            None => Seq::empty(),
                        };
                        let journal = JournalView {
                            tunnel: tunnel.name,
                            phase: Phase::UpPending,
                            interface: None,
                            lease_deadline: None,
                            dns_snapshot,
                            tunnel_dns,
                        };
                        lemma_writing(r, s2, y2.0, r.b.config_dir, journal);
                        let x3 = state::writing(s2, r.b.config_dir, journal);
                        let y3 = state::writing(y2.0, r.b.config_dir, journal);
                        lemma_bind(r, s2, y2.0, x3, y3, f2, fy);
                    },
                    None => {},
                }
                lemma_bind(r, s1, y1.0, x2, y2, f1, fy);
            }
        },
        None => {},
    }
    lemma_bind(r, s, t, x1, y1, fx, fy);
    lemma_finished(r, s, t, fx, fy);
}

/// Running `wg-quick`.
pub proof fn lemma_quick(
    r: Rule,
    s: SessionView,
    t: SessionView,
    verb: Seq<char>,
    target: Seq<char>,
)
    requires
        later(s, t),
        !r.reading,
        r.running,
        r.tunnels,
        quick_verb(verb),
    ensures
        steady(r, s, t, r.b.quick(s, verb, target), r.b.quick(t, verb, target)),
{
    let fx = r.b.quick(s, verb, target);
    let fy = r.b.quick(t, verb, target);
    let args = seq![verb, target];
    let (_, full_args) = full_command(r.b.sudo, r.b.wg_quick, args);
    assert(full_args.skip(full_args.len() - 2) =~= args);
    lemma_running(r, s, t, r.b.wg_quick, args);
    let x1 = r.b.running(s, r.b.wg_quick, args);
    let y1 = r.b.running(t, r.b.wg_quick, args);
    lemma_bind(r, s, t, x1, y1, fx, fy);
    lemma_finished(r, s, t, fx, fy);
}

/// Recording that a tunnel is active.
pub proof fn lemma_confirming(
    r: Rule,
    s: SessionView,
    t: SessionView,
    tunnel: TunnelView,
    lease_secs: Option<u64>,
    snapshot: Snapshot,
)
    requires
        later(s, t),
        !r.reading,
        r.running,
    ensures
        steady(
            r,
            s,
            t,
            r.b.confirming(s, tunnel, lease_secs, snapshot),
            r.b.confirming(t, tunnel, lease_secs, snapshot),
        ),
{
    let fx = r.b.confirming(s, tunnel, lease_secs, snapshot);
    let fy = r.b.confirming(t, tunnel, lease_secs, snapshot);
    lemma_dumping(r, s, t);
    let x1 = r.b.dumping(s);
    let y1 = r.b.dumping(t);
    let s1 = resumed(x1, y1);
    lemma_resumed(r, s, t, x1, y1);
    let f1 = if x1.1 is Some {
        fx
    } else {
        fy
    };
    match y1.1 {
        Some(Ok(dump)) => {
            lemma_finding_live(r, s1, y1.0, tunnel, dump);
            let x2 = finding_live(s1, tunnel, dump);
            let y2 = finding_live(y1.0, tunnel, dump);
            let s2 = resumed(x2, y2);
            lemma_resumed(r, s1, y1.0, x2, y2);
            let f2 = if x2.1 is Some {
                f1
            } else {
                fy
            };
            match y2.1 {
                Some(Ok(row)) => {
                    let interface = match row {
                        Some(hit) => Some(hit.interface),
                        None => None,
                    };
                    lemma_recording_active(r, s2, y2.0, tunnel, interface, lease_secs, snapshot);
                    let x3 = r.b.recording_active(s2, tunnel, interface, lease_secs, snapshot);
                    let y3 = r.b.recording_active(y2.0, tunnel, interface, lease_secs, snapshot);
                    let s3 = resumed(x3, y3);
                    lemma_resumed(r, s2, y2.0, x3, y3);
                    let f3 = if x3.1 is Some {
                        f2
                    } else {
                        fy
                    };
                    match y3.1 {
                        Some(j) => {
                            lemma_writing(r, s3, y3.0, r.b.config_dir, j);
                            let x4 = state::writing(s3, r.b.config_dir, j);
                            let y4 = state::writing(y3.0, r.b.config_dir, j);
                            lemma_bind(r, s3, y3.0, x4, y4, f3, fy);
                        },
                        None => {},
                    }
                    lemma_bind(r, s2, y2.0, x3, y3, f2, fy);
                },
                _ => {},
            }
            lemma_bind(r, s1, y1.0, x2, y2, f1, fy);
        },
        _ => {},
    }
    lemma_bind(r, s, t, x1, y1, fx, fy);
    lemma_finished(r, s, t, fx, fy);
}

/// Bringing a tunnel up, as far as `wg-quick up`.
pub proof fn lemma_starting(r: Rule, s: SessionView, t: SessionView, tunnel: TunnelView)
    requires
        later(s, t),
        !r.reading,
        r.running,
        r.tunnels,
    ensures
        steady(r, s, t, r.b.starting(s, tunnel), r.b.starting(t, tunnel)),
{
    let fx = r.b.starting(s, tunnel);
    let fy = r.b.starting(t, tunnel);
    lemma_recording_pending(r, s, t, tunnel);
    let x1 = r.b.recording_pending(s, tunnel);
    let y1 = r.b.recording_pending(t, tunnel);
    let s1 = resumed(x1, y1);
    lemma_resumed(r, s, t, x1, y1);
    let f1 = if x1.1 is Some {
        fx
    } else {
        fy
    };
    match y1.1 {
        Some(Ok(_)) => {
            lemma_quick(r, s1, y1.0, "up"@, tunnel.path);
            let x2 = r.b.quick(s1, "up"@, tunnel.path);
            let y2 = r.b.quick(y1.0, "up"@, tunnel.path);
            lemma_bind(r, s1, y1.0, x2, y2, f1, fy);
        },
        _ => {},
    }
    lemma_bind(r, s, t, x1, y1, fx, fy);
    lemma_finished(r, s, t, fx, fy);
}

/// Bringing a tunnel up.
pub proof fn lemma_activating(
    r: Rule,
    s: SessionView,
    t: SessionView,
    tunnel: TunnelView,
    lease_secs: Option<u64>,
)
    requires
        later(s, t),
        !r.reading,
        r.running,
        r.tunnels,
    ensures
        steady(
            r,
            s,
            t,
            r.b.activating(s, tunnel, lease_secs),
            r.b.activating(t, tunnel, lease_secs),
        ),
{
    let fx = r.b.activating(s, tunnel, lease_secs);
    let fy = r.b.activating(t, tunnel, lease_secs);
    lemma_starting(r, s, t, tunnel);
    let x1 = r.b.starting(s, tunnel);
    let y1 = r.b.starting(t, tunnel);
    let s1 = resumed(x1, y1);
    lemma_resumed(r, s, t, x1, y1);
    let f1 = if x1.1 is Some {
        fx
    } else {
        fy
    };
    match y1.1 {
        Some(Ok(snapshot)) => {
            lemma_confirming(r, s1, y1.0, tunnel, lease_secs, snapshot);
            let x2 = r.b.confirming(s1, tunnel, lease_secs, snapshot);
            let y2 = r.b.confirming(y1.0, tunnel, lease_secs, snapshot);
            lemma_bind(r, s1, y1.0, x2, y2, f1, fy);
        },
        _ => {},
    }
    lemma_bind(r, s, t, x1, y1, fx, fy);
    lemma_finished(r, s, t, fx, fy);
}

/// Restoring DNS after a teardown.
pub proof fn lemma_restoring_dns(
    r: Rule,
    s: SessionView,
    t: SessionView,
    tunnel: TunnelView,
    journal: Option<JournalView>,
)
    requires
        later(s, t),
        !r.reading,
        r.running,
    ensures
        steady(
            r,
            s,
            t,
            r.b.restoring_dns(s, tunnel, journal),
            r.b.restoring_dns(t, tunnel, journal),
        ),
{
    let fx = r.b.restoring_dns(s, tunnel, journal);
    let fy = r.b.restoring_dns(t, tunnel, journal);
    if journal matches Some(j) && j.tunnel_dns.len() > 0 {
        lemma_naming_active(r, s, t);
        let x1 = r.b.naming_active(s);
        let y1 = r.b.naming_active(t);
        let s1 = resumed(x1, y1);
        lemma_resumed(r, s, t, x1, y1);
        let f1 = if x1.1 is Some {
            fx
        } else {
            fy
        };
        match y1.1 {
            Some(Ok(names)) => {
                if !any_other(names, tunnel.name) {
                    lemma_restoring(
                        r,
                        s1,
                        y1.0,
                        journal->0.dns_snapshot,
                        journal->0.tunnel_dns,
                        r.b.dns_sweeps,
                    );
                    let x2 = dns::restoring(
                        s1,
                        journal->0.dns_snapshot,
                        journal->0.tunnel_dns,
                        r.b.dns_sweeps,
                    );
                    let y2 = dns::restoring(
                        y1.0,
                        journal->0.dns_snapshot,
                        journal->0.tunnel_dns,
                        r.b.dns_sweeps,
                    );
                    lemma_bind(r, s1, y1.0, x2, y2, f1, fy);
                }
            },
            _ => {},
        }
        lemma_bind(r, s, t, x1, y1, fx, fy);
    } else {
        lemma_declaring_dns(r, s, t, tunnel.path);
        let x1 = declaring_dns(s, tunnel.path);
        let y1 = declaring_dns(t, tunnel.path);
        let s1 = resumed(x1, y1);
        lemma_resumed(r, s, t, x1, y1);
        let f1 = if x1.1 is Some {
            fx
        } else {
            fy
        };
        match y1.1 {
            Some(config_dns) => {
                if config_dns.len() > 0 {
                    lemma_naming_active(r, s1, y1.0);
                    let x2 = r.b.naming_active(s1);
                    let y2 = r.b.naming_active(y1.0);
                    let s2 = resumed(x2, y2);
                    lemma_resumed(r, s1, y1.0, x2, y2);
                    let f2 = if x2.1 is Some {
                        f1
                    } else {
                        fy
                    };
                    match y2.1 {
                        Some(Ok(names)) => {
                            if !any_other(names, tunnel.name) {
                                lemma_guarding(r, s2, y2.0, config_dns, r.b.dns_sweeps);
                                let x3 = dns::guarding(s2, config_dns, r.b.dns_sweeps);
                                let y3 = dns::guarding(y2.0, config_dns, r.b.dns_sweeps);
                                lemma_bind(r, s2, y2.0, x3, y3, f2, fy);
                            }
                        },
                        _ => {},
                    }
                    lemma_bind(r, s1, y1.0, x2, y2, f1, fy);
                }
            },
            None => {},
        }
        lemma_bind(r, s, t, x1, y1, fx, fy);
    }
    lemma_finished(r, s, t, fx, fy);
}

/// What follows a teardown.
pub proof fn lemma_cleaning_up(
    r: Rule,
    s: SessionView,
    t: SessionView,
    tunnel: TunnelView,
    journal: Option<JournalView>,
    changed: bool,
)
    requires
        later(s, t),
        !r.reading,
        r.running,
    ensures
        steady(
            r,
            s,
            t,
            r.b.cleaning_up(s, tunnel, journal, changed),
            r.b.cleaning_up(t, tunnel, journal, changed),
        ),
{
    let fx = r.b.cleaning_up(s, tunnel, journal, changed);
    let fy = r.b.cleaning_up(t, tunnel, journal, changed);
    lemma_restoring_dns(r, s, t, tunnel, journal);
    let x1 = r.b.restoring_dns(s, tunnel, journal);
    let y1 = r.b.restoring_dns(t, tunnel, journal);
    let s1 = resumed(x1, y1);
    lemma_resumed(r, s, t, x1, y1);
    let f1 = if x1.1 is Some {
        fx
    } else {
        fy
    };
    match y1.1 {
        Some(_) => {
            lemma_removing(r, s1, y1.0, r.b.config_dir, tunnel.name);
            let x2 = state::removing(s1, r.b.config_dir, tunnel.name);
            let y2 = state::removing(y1.0, r.b.config_dir, tunnel.name);
            lemma_bind(r, s1, y1.0, x2, y2, f1, fy);
        },
        None => {},
    }
    lemma_bind(r, s, t, x1, y1, fx, fy);
    lemma_finished(r, s, t, fx, fy);
}

/// Tearing a tunnel down.
pub proof fn lemma_tearing_down(
    r: Rule,
    s: SessionView,
    t: SessionView,
    tunnel: TunnelView,
    live: bool,
)
    requires
        later(s, t),
        !r.reading,
        r.running,
        live ==> r.tunnels,
    ensures
        steady(r, s, t, r.b.tearing_down(s, tunnel, live), r.b.tearing_down(t, tunnel, live)),
{
    let fx = r.b.tearing_down(s, tunnel, live);
    let fy = r.b.tearing_down(t, tunnel, live);
    lemma_reading(r, s, t, r.b.config_dir, tunnel.name);
    let x1 = state::reading(s, r.b.config_dir, tunnel.name);
    let y1 = state::reading(t, r.b.config_dir, tunnel.name);
    let s1 = resumed(x1, y1);
    lemma_resumed(r, s, t, x1, y1);
    let f1 = if x1.1 is Some {
        fx
    } else {
        fy
    };
    match y1.1 {
        Some(journal) => {
            match journal {
                Some(j) => {
                    let marked = JournalView { phase: Phase::DownPending, ..j };
                    lemma_writing(r, s1, y1.0, r.b.config_dir, marked);
                    let x2 = state::writing(s1, r.b.config_dir, marked);
                    let y2 = state::writing(y1.0, r.b.config_dir, marked);
                    let s2 = resumed(x2, y2);
                    lemma_resumed(r, s1, y1.0, x2, y2);
                    let f2 = if x2.1 is Some {
                        f1
                    } else {
                        fy
                    };
                    match y2.1 {
                        Some(_) => {
                            if live {
                                lemma_quick(r, s2, y2.0, "down"@, tunnel.path);
                                let x3 = r.b.quick(s2, "down"@, tunnel.path);
                                let y3 = r.b.quick(y2.0, "down"@, tunnel.path);
                                let s3 = resumed(x3, y3);
                                lemma_resumed(r, s2, y2.0, x3, y3);
                                let f3 = if x3.1 is Some {
                                    f2
                                } else {
                                    fy
                                };
                                match y3.1 {
                                    Some(Ok(_)) => {
                                        lemma_cleaning_up(r, s3, y3.0, tunnel, journal, live);
                                        let x4 = r.b.cleaning_up(s3, tunnel, journal, live);
                                        let y4 = r.b.cleaning_up(y3.0, tunnel, journal, live);
                                        lemma_bind(r, s3, y3.0, x4, y4, f3, fy);
                                    },
                                    _ => {},
                                }
                                lemma_bind(r, s2, y2.0, x3, y3, f2, fy);
                            } else {
                                lemma_cleaning_up(r, s2, y2.0, tunnel, journal, live);
                                let x3 = r.b.cleaning_up(s2, tunnel, journal, live);
                                let y3 = r.b.cleaning_up(y2.0, tunnel, journal, live);
                                lemma_bind(r, s2, y2.0, x3, y3, f2, fy);
                            }
                        },
                        None => {},
                    }
                    lemma_bind(r, s1, y1.0, x2, y2, f1, fy);
                },
                None => {
                    if live {
                        lemma_quick(r, s1, y1.0, "down"@, tunnel.path);
                        let x2 = r.b.quick(s1, "down"@, tunnel.path);
                        let y2 = r.b.quick(y1.0, "down"@, tunnel.path);
                        let s2 = resumed(x2, y2);
                        lemma_resumed(r, s1, y1.0, x2, y2);
                        let f2 = if x2.1 is Some {
                            f1
                        } else {
                            fy
                        };
                        match y2.1 {
                            Some(Ok(_)) => {
                                lemma_cleaning_up(r, s2, y2.0, tunnel, journal, live);
                                let x3 = r.b.cleaning_up(s2, tunnel, journal, live);
                                let y3 = r.b.cleaning_up(y2.0, tunnel, journal, live);
                                lemma_bind(r, s2, y2.0, x3, y3, f2, fy);
                            },
                            _ => {},
                        }
                        lemma_bind(r, s1, y1.0, x2, y2, f1, fy);
                    } else {
                        lemma_cleaning_up(r, s1, y1.0, tunnel, journal, live);
                        let x2 = r.b.cleaning_up(s1, tunnel, journal, live);
                        let y2 = r.b.cleaning_up(y1.0, tunnel, journal, live);
                        lemma_bind(r, s1, y1.0, x2, y2, f1, fy);
                    }
                },
            }
        },
        None => {},
    }
    lemma_bind(r, s, t, x1, y1, fx, fy);
    lemma_finished(r, s, t, fx, fy);
}

/// Finding out whether the tunnel of a journal is live.
pub proof fn lemma_checking_journal(
    r: Rule,
    s: SessionView,
    t: SessionView,
    journal: JournalView,
    dump: Seq<DumpPeerView>,
)
    requires
        later(s, t),
    ensures
        steady(
            r,
            s,
            t,
            r.b.checking_journal(s, journal, dump),
            r.b.checking_journal(t, journal, dump),
        ),
{
    let fx = r.b.checking_journal(s, journal, dump);
    let fy = r.b.checking_journal(t, journal, dump);
    if !(journal.interface matches Some(iface) && on_interface(dump, iface)) {
        lemma_resolving(r, s, t, r.b.config_dir, journal.tunnel);
        let x1 = config::resolving(s, r.b.config_dir, journal.tunnel);
        let y1 = config::resolving(t, r.b.config_dir, journal.tunnel);
        let s1 = resumed(x1, y1);
        lemma_resumed(r, s, t, x1, y1);
        let f1 = if x1.1 is Some {
            fx
        } else {
            fy
        };
        match y1.1 {
            Some(Ok(tunnel)) => {
                lemma_finding_live(r, s1, y1.0, tunnel, dump);
                let x2 = finding_live(s1, tunnel, dump);
                let y2 = finding_live(y1.0, tunnel, dump);
                lemma_bind(r, s1, y1.0, x2, y2, f1, fy);
            },
            _ => {},
        }
        lemma_bind(r, s, t, x1, y1, fx, fy);
    }
    lemma_finished(r, s, t, fx, fy);
}

/// Taking down the interface of a journal.
pub proof fn lemma_downing_journal(r: Rule, s: SessionView, t: SessionView, journal: JournalView)
    requires
        later(s, t),
        !r.reading,
        r.running,
        r.tunnels,
    ensures
        steady(r, s, t, r.b.downing_journal(s, journal), r.b.downing_journal(t, journal)),
{
    let fx = r.b.downing_journal(s, journal);
    let fy = r.b.downing_journal(t, journal);
    lemma_resolving(r, s, t, r.b.config_dir, journal.tunnel);
    let x1 = config::resolving(s, r.b.config_dir, journal.tunnel);
    let y1 = config::resolving(t, r.b.config_dir, journal.tunnel);
    let s1 = resumed(x1, y1);
    lemma_resumed(r, s, t, x1, y1);
    let f1 = if x1.1 is Some {
        fx
    } else {
        fy
    };
    match y1.1 {
        Some(found) => {
            let target = match found {
                Ok(tunnel) => Some(tunnel.path),
                Err(_) => journal.interface,
            };
            match target {
                Some(at) => {
                    lemma_quick(r, s1, y1.0, "down"@, at);
                    let x2 = r.b.quick(s1, "down"@, at);
                    let y2 = r.b.quick(y1.0, "down"@, at);
                    lemma_bind(r, s1, y1.0, x2, y2, f1, fy);
                },
                None => {},
            }
        },
        None => {},
    }
    lemma_bind(r, s, t, x1, y1, fx, fy);
    lemma_finished(r, s, t, fx, fy);
}

/// Restoring DNS from a journal.
pub proof fn lemma_restoring_journal(
    r: Rule,
    s: SessionView,
    t: SessionView,
    journal: JournalView,
)
    requires
        later(s, t),
        !r.reading,
        r.running,
    ensures
        steady(r, s, t, r.b.restoring_journal(s, journal), r.b.restoring_journal(t, journal)),
{
    let fx = r.b.restoring_journal(s, journal);
    let fy = r.b.restoring_journal(t, journal);
    if journal.tunnel_dns.len() > 0 {
        lemma_naming_active(r, s, t);
        let x1 = r.b.naming_active(s);
        let y1 = r.b.naming_active(t);
        let s1 = resumed(x1, y1);
        lemma_resumed(r, s, t, x1, y1);
        let f1 = if x1.1 is Some {
            fx
        } else {
            fy
        };
        match y1.1 {
            Some(found) => {
                if !(found matches Ok(names) && any_other(names, journal.tunnel)) {
                    lemma_restoring(
                        r,
                        s1,
                        y1.0,
                        journal.dns_snapshot,
                        journal.tunnel_dns,
                        r.b.dns_sweeps,
                    );
                    let x2 = dns::restoring(
                        s1,
                        journal.dns_snapshot,
                        journal.tunnel_dns,
                        r.b.dns_sweeps,
                    );
                    let y2 = dns::restoring(
                        y1.0,
                        journal.dns_snapshot,
                        journal.tunnel_dns,
                        r.b.dns_sweeps,
                    );
                    lemma_bind(r, s1, y1.0, x2, y2, f1, fy);
                }
            },
            None => {},
        }
        lemma_bind(r, s, t, x1, y1, fx, fy);
    }
    lemma_finished(r, s, t, fx, fy);
}

/// Recovering the host from a journal.
pub proof fn lemma_recovering_journal(
    r: Rule,
    s: SessionView,
    t: SessionView,
    journal: JournalView,
    tear_down: bool,
    reason: Seq<char>,
)
    requires
        later(s, t),
        !r.reading,
        r.running,
        tear_down ==> r.tunnels,
    ensures
        steady(
            r,
            s,
            t,
            r.b.recovering_journal(s, journal, tear_down, reason),
            r.b.recovering_journal(t, journal, tear_down, reason),
        ),
{
    let fx = r.b.recovering_journal(s, journal, tear_down, reason);
    let fy = r.b.recovering_journal(t, journal, tear_down, reason);
    if tear_down {
        lemma_downing_journal(r, s, t, journal);
        let x1 = r.b.downing_journal(s, journal);
        let y1 = r.b.downing_journal(t, journal);
        let s1 = resumed(x1, y1);
        lemma_resumed(r, s, t, x1, y1);
        let f1 = if x1.1 is Some {
            fx
        } else {
            fy
        };
        match y1.1 {
            Some(_) => {
                lemma_restoring_journal(r, s1, y1.0, journal);
                let x2 = r.b.restoring_journal(s1, journal);
                let y2 = r.b.restoring_journal(y1.0, journal);
                let s2 = resumed(x2, y2);
                lemma_resumed(r, s1, y1.0, x2, y2);
                let f2 = if x2.1 is Some {
                    f1
                } else {
                    fy
                };
                match y2.1 {
                    Some(_) => {
                        lemma_removing(r, s2, y2.0, r.b.config_dir, journal.tunnel);
                        let x3 = state::removing(s2, r.b.config_dir, journal.tunnel);
                        let y3 = state::removing(y2.0, r.b.config_dir, journal.tunnel);
                        lemma_bind(r, s2, y2.0, x3, y3, f2, fy);
                    },
                    None => {},
                }
                lemma_bind(r, s1, y1.0, x2, y2, f1, fy);
            },
            None => {},
        }
        lemma_bind(r, s, t, x1, y1, fx, fy);
    } else {
        lemma_restoring_journal(r, s, t, journal);
        let x1 = r.b.restoring_journal(s, journal);
        let y1 = r.b.restoring_journal(t, journal);
        let s1 = resumed(x1, y1);
        lemma_resumed(r, s, t, x1, y1);
        let f1 = if x1.1 is Some {
            fx
        } else {
            fy
        };
        match y1.1 {
            Some(_) => {
                lemma_removing(r, s1, y1.0, r.b.config_dir, journal.tunnel);
                let x2 = state::removing(s1, r.b.config_dir, journal.tunnel);
                let y2 = state::removing(y1.0, r.b.config_dir, journal.tunnel);
                lemma_bind(r, s1, y1.0, x2, y2, f1, fy);
            },
            None => {},
        }
        lemma_bind(r, s, t, x1, y1, fx, fy);
    }
    lemma_finished(r, s, t, fx, fy);
}

/// Reconciling journals.
pub proof fn lemma_reconciling_from(
    r: Rule,
    s: SessionView,
    t: SessionView,
    journals: Seq<JournalView>,
    dump: Seq<DumpPeerView>,
    now: u64,
    i: int,
    recovered: Seq<RecoveredView>,
)
    requires
        later(s, t),
        !r.reading,
        r.running,
        r.tunnels,
    ensures
        steady(
            r,
            s,
            t,
            r.b.reconciling_from(s, journals, dump, now, i, recovered),
            r.b.reconciling_from(t, journals, dump, now, i, recovered),
        ),
    decreases journals.len() - i,
{
    let fx = r.b.reconciling_from(s, journals, dump, now, i, recovered);
    let fy = r.b.reconciling_from(t, journals, dump, now, i, recovered);
    if i < journals.len() {
        lemma_checking_journal(r, s, t, journals[i], dump);
        let x1 = r.b.checking_journal(s, journals[i], dump);
        let y1 = r.b.checking_journal(t, journals[i], dump);
        let s1 = resumed(x1, y1);
        lemma_resumed(r, s, t, x1, y1);
        let f1 = if x1.1 is Some {
            fx
        } else {
            fy
        };
        match y1.1 {
            Some(up) => {
                match state::decision(journals[i], up, now) {
                    Reconciliation::Healthy => {
                        lemma_reconciling_from(r, s1, y1.0, journals, dump, now, i + 1, recovered);
                        let x2 = r.b.reconciling_from(s1, journals, dump, now, i + 1, recovered);
                        let y2 = r.b.reconciling_from(y1.0, journals, dump, now, i + 1, recovered);
                        lemma_bind(r, s1, y1.0, x2, y2, f1, fy);
                    },
                    Reconciliation::Recover { tear_down, reason } => {
                        let why = reason.description();
                        lemma_recovering_journal(r, s1, y1.0, journals[i], tear_down, why);
                        let x2 = r.b.recovering_journal(s1, journals[i], tear_down, why);
                        let y2 = r.b.recovering_journal(y1.0, journals[i], tear_down, why);
                        let s2 = resumed(x2, y2);
                        lemma_resumed(r, s1, y1.0, x2, y2);
                        let f2 = if x2.1 is Some {
                            f1
                        } else {
                            fy
                        };
                        match y2.1 {
                            Some(one) => {
                                lemma_reconciling_from(
                                    r,
                                    s2,
                                    y2.0,
                                    journals,
                                    dump,
                                    now,
                                    i + 1,
                                    recovered.push(one),
                                );
                                let x3 = r.b.reconciling_from(
                                    s2,
                                    journals,
                                    dump,
                                    now,
                                    i + 1,
                                    recovered.push(one),
                                );
                                let y3 = r.b.reconciling_from(
                                    y2.0,
                                    journals,
                                    dump,
                                    now,
                                    i + 1,
                                    recovered.push(one),
                                );
                                lemma_bind(r, s2, y2.0, x3, y3, f2, fy);
                            },
                            None => {},
                        }
                        lemma_bind(r, s1, y1.0, x2, y2, f1, fy);
                    },
                }
            },
            None => {},
        }
        lemma_bind(r, s, t, x1, y1, fx, fy);
    }
    lemma_finished(r, s, t, fx, fy);
}

/// Reconciling.
pub proof fn lemma_reconciling(r: Rule, s: SessionView, t: SessionView)
    requires
        later(s, t),
        !r.reading,
        r.running,
        r.tunnels,
    ensures
        steady(r, s, t, r.b.reconciling(s), r.b.reconciling(t)),
{
    let fx = r.b.reconciling(s);
    let fy = r.b.reconciling(t);
    lemma_reading_all(r, s, t, r.b.config_dir);
    let x1 = state::reading_all(s, r.b.config_dir);
    let y1 = state::reading_all(t, r.b.config_dir);
    let s1 = resumed(x1, y1);
    lemma_resumed(r, s, t, x1, y1);
    let f1 = if x1.1 is Some {
        fx
    } else {
        fy
    };
    match y1.1 {
        Some(journals) => {
            if journals.len() > 0 {
                lemma_dumping(r, s1, y1.0);
                let x2 = r.b.dumping(s1);
                let y2 = r.b.dumping(y1.0);
                let s2 = resumed(x2, y2);
                lemma_resumed(r, s1, y1.0, x2, y2);
                let f2 = if x2.1 is Some {
                    f1
                } else {
                    fy
                };
                match y2.1 {
                    Some(Ok(dump)) => {
                        lemma_reading_clock(r, s2, y2.0);
                        let x3 = r.b.reading_clock(s2);
                        let y3 = r.b.reading_clock(y2.0);
                        let s3 = resumed(x3, y3);
                        lemma_resumed(r, s2, y2.0, x3, y3);
                        let f3 = if x3.1 is Some {
                            f2
                        } else {
                            fy
                        };
                        match y3.1 {
                            Some(now) => {
                                lemma_reconciling_from(
                                    r,
                                    s3,
                                    y3.0,
                                    journals,
                                    dump,
                                    now,
                                    0,
                                    Seq::empty(),
                                );
                                let x4 = r.b.reconciling_from(
                                    s3,
                                    journals,
                                    dump,
                                    now,
                                    0,
                                    Seq::empty(),
                                );
                                let y4 = r.b.reconciling_from(
                                    y3.0,
                                    journals,
                                    dump,
                                    now,
                                    0,
                                    Seq::empty(),
                                );
                                lemma_bind(r, s3, y3.0, x4, y4, f3, fy);
                            },
                            None => {},
                        }
                        lemma_bind(r, s2, y2.0, x3, y3, f2, fy);
                    },
                    _ => {},
                }
                lemma_bind(r, s1, y1.0, x2, y2, f1, fy);
            }
        },
        None => {},
    }
    lemma_bind(r, s, t, x1, y1, fx, fy);
    lemma_finished(r, s, t, fx, fy);
}

/// What every operation on a named tunnel begins with.
pub proof fn lemma_approaching(r: Rule, s: SessionView, t: SessionView, name: Seq<char>)
    requires
        later(s, t),
        !r.reading,
        r.running,
        r.tunnels,
    ensures
        steady(r, s, t, r.b.approaching(s, name), r.b.approaching(t, name)),
{
    let fx = r.b.approaching(s, name);
    let fy = r.b.approaching(t, name);
    lemma_reconciling(r, s, t);
    let x1 = r.b.reconciling(s);
    let y1 = r.b.reconciling(t);
    let s1 = resumed(x1, y1);
    lemma_resumed(r, s, t, x1, y1);
    let f1 = if x1.1 is Some {
        fx
    } else {
        fy
    };
    match y1.1 {
        Some(Ok(_)) => {
            lemma_resolving(r, s1, y1.0, r.b.config_dir, name);
            let x2 = config::resolving(s1, r.b.config_dir, name);
            let y2 = config::resolving(y1.0, r.b.config_dir, name);
            let s2 = resumed(x2, y2);
            lemma_resumed(r, s1, y1.0, x2, y2);
            let f2 = if x2.1 is Some {
                f1
            } else {
                fy
            };
            match y2.1 {
                Some(Ok(tunnel)) => {
                    lemma_dumping(r, s2, y2.0);
                    let x3 = r.b.dumping(s2);
                    let y3 = r.b.dumping(y2.0);
                    let s3 = resumed(x3, y3);
                    lemma_resumed(r, s2, y2.0, x3, y3);
                    let f3 = if x3.1 is Some {
                        f2
                    } else {
                        fy
                    };
                    match y3.1 {
                        Some(Ok(dump)) => {
                            lemma_finding_live(r, s3, y3.0, tunnel, dump);
                            let x4 = finding_live(s3, tunnel, dump);
                            let y4 = finding_live(y3.0, tunnel, dump);
                            lemma_bind(r, s3, y3.0, x4, y4, f3, fy);
                        },
                        _ => {},
                    }
                    lemma_bind(r, s2, y2.0, x3, y3, f2, fy);
                },
                _ => {},
            }
            lemma_bind(r, s1, y1.0, x2, y2, f1, fy);
        },
        _ => {},
    }
    lemma_bind(r, s, t, x1, y1, fx, fy);
    lemma_finished(r, s, t, fx, fy);
}

/// Recording a tunnel that is up but not tracked.
pub proof fn lemma_adopting(
    r: Rule,
    s: SessionView,
    t: SessionView,
    tunnel: TunnelView,
    interface: Seq<char>,
    lease_secs: Option<u64>,
)
    requires
        later(s, t),
        !r.reading,
    ensures
        steady(
            r,
            s,
            t,
            r.b.adopting(s, tunnel, interface, lease_secs),
            r.b.adopting(t, tunnel, interface, lease_secs),
        ),
{
    let fx = r.b.adopting(s, tunnel, interface, lease_secs);
    let fy = r.b.adopting(t, tunnel, interface, lease_secs);
    lemma_reading(r, s, t, r.b.config_dir, tunnel.name);
    let x1 = state::reading(s, r.b.config_dir, tunnel.name);
    let y1 = state::reading(t, r.b.config_dir, tunnel.name);
    let s1 = resumed(x1, y1);
    lemma_resumed(r, s, t, x1, y1);
    let f1 = if x1.1 is Some {
        fx
    } else {
        fy
    };
    match y1.1 {
        Some(Some(known)) => match lease_secs {
            Some(secs) => {
                lemma_reading_clock(r, s1, y1.0);
                let x2 = r.b.reading_clock(s1);
                let y2 = r.b.reading_clock(y1.0);
                let s2 = resumed(x2, y2);
                lemma_resumed(r, s1, y1.0, x2, y2);
                let f2 = if x2.1 is Some {
                    f1
                } else {
                    fy
                };
                match y2.1 {
                    Some(now) => {
                        let j = JournalView { lease_deadline: Some(deadline(now, secs)), ..known };
                        lemma_writing(r, s2, y2.0, r.b.config_dir, j);
                        let x3 = state::writing(s2, r.b.config_dir, j);
                        let y3 = state::writing(y2.0, r.b.config_dir, j);
                        lemma_bind(r, s2, y2.0, x3, y3, f2, fy);
                    },
                    None => {},
                }
                lemma_bind(r, s1, y1.0, x2, y2, f1, fy);
            },
            None => {},
        },
        Some(None) => {
            lemma_recording_active(r, s1, y1.0, tunnel, Some(interface), lease_secs, Seq::empty());
            let x2 = r.b.recording_active(s1, tunnel, Some(interface), lease_secs, Seq::empty());
            let y2 = r.b.recording_active(y1.0, tunnel, Some(interface), lease_secs, Seq::empty());
            let s2 = resumed(x2, y2);
            lemma_resumed(r, s1, y1.0, x2, y2);
            let f2 = if x2.1 is Some {
                f1
            } else {
                fy
            };
            match y2.1 {
                Some(j) => {
                    lemma_writing(r, s2, y2.0, r.b.config_dir, j);
                    let x3 = state::writing(s2, r.b.config_dir, j);
                    let y3 = state::writing(y2.0, r.b.config_dir, j);
                    lemma_bind(r, s2, y2.0, x3, y3, f2, fy);
                },
                None => {},
            }
            lemma_bind(r, s1, y1.0, x2, y2, f1, fy);
        },
        _ => {},
    }
    lemma_bind(r, s, t, x1, y1, fx, fy);
    lemma_finished(r, s, t, fx, fy);
}

/// `vpn up`.
pub proof fn lemma_upping(
    r: Rule,
    s: SessionView,
    t: SessionView,
    name: Seq<char>,
    lease_secs: Option<u64>,
)
    requires
        later(s, t),
        !r.reading,
        r.running,
        r.tunnels,
    ensures
        steady(r, s, t, r.b.upping(s, name, lease_secs), r.b.upping(t, name, lease_secs)),
{
    let fx = r.b.upping(s, name, lease_secs);
    let fy = r.b.upping(t, name, lease_secs);
    lemma_approaching(r, s, t, name);
    let x1 = r.b.approaching(s, name);
    let y1 = r.b.approaching(t, name);
    let s1 = resumed(x1, y1);
    lemma_resumed(r, s, t, x1, y1);
    let f1 = if x1.1 is Some {
        fx
    } else {
        fy
    };
    match y1.1 {
        Some(Ok((tunnel, _, live))) => {
            match live {
                Some(hit) => {
                    lemma_adopting(r, s1, y1.0, tunnel, hit.interface, lease_secs);
                    let x2 = r.b.adopting(s1, tunnel, hit.interface, lease_secs);
                    let y2 = r.b.adopting(y1.0, tunnel, hit.interface, lease_secs);
                    lemma_bind(r, s1, y1.0, x2, y2, f1, fy);
                },
                None => {
                    lemma_activating(r, s1, y1.0, tunnel, lease_secs);
                    let x2 = r.b.activating(s1, tunnel, lease_secs);
                    let y2 = r.b.activating(y1.0, tunnel, lease_secs);
                    lemma_bind(r, s1, y1.0, x2, y2, f1, fy);
                },
            }
        },
        _ => {},
    }
    lemma_bind(r, s, t, x1, y1, fx, fy);
    lemma_finished(r, s, t, fx, fy);
}

/// `vpn down`.
pub proof fn lemma_downing(r: Rule, s: SessionView, t: SessionView, name: Seq<char>)
    requires
        later(s, t),
        !r.reading,
        r.running,
        r.tunnels,
    ensures
        steady(r, s, t, r.b.downing(s, name), r.b.downing(t, name)),
{
    let fx = r.b.downing(s, name);
    let fy = r.b.downing(t, name);
    lemma_approaching(r, s, t, name);
    let x1 = r.b.approaching(s, name);
    let y1 = r.b.approaching(t, name);
    let s1 = resumed(x1, y1);
    lemma_resumed(r, s, t, x1, y1);
    let f1 = if x1.1 is Some {
        fx
    } else {
        fy
    };
    match y1.1 {
        Some(Ok((tunnel, _, live))) => {
            lemma_tearing_down(r, s1, y1.0, tunnel, live is Some);
            let x2 = r.b.tearing_down(s1, tunnel, live is Some);
            let y2 = r.b.tearing_down(y1.0, tunnel, live is Some);
            lemma_bind(r, s1, y1.0, x2, y2, f1, fy);
        },
        _ => {},
    }
    lemma_bind(r, s, t, x1, y1, fx, fy);
    lemma_finished(r, s, t, fx, fy);
}

// ---------------------------------------------------------------------------
// Recovery and health
// ---------------------------------------------------------------------------

/// Listing the tunnels, if that is possible.
pub proof fn lemma_discovering_any(r: Rule, s: SessionView, t: SessionView)
    requires
        later(s, t),
    ensures
        steady(r, s, t, r.b.discovering_any(s), r.b.discovering_any(t)),
{
    let fx = r.b.discovering_any(s);
    let fy = r.b.discovering_any(t);
    lemma_discovering(r, s, t, r.b.config_dir);
    let x1 = config::discovering(s, r.b.config_dir);
    let y1 = config::discovering(t, r.b.config_dir);
    lemma_bind(r, s, t, x1, y1, fx, fy);
    lemma_finished(r, s, t, fx, fy);
}

/// Reading the DNS servers that configs declare.
pub proof fn lemma_collecting_from(
    r: Rule,
    s: SessionView,
    t: SessionView,
    tunnels: Seq<TunnelView>,
    i: int,
    declared: Seq<Seq<char>>,
)
    requires
        later(s, t),
    ensures
        steady(
            r,
            s,
            t,
            collecting_from(s, tunnels, i, declared),
            collecting_from(t, tunnels, i, declared),
        ),
    decreases tunnels.len() - i,
{
    let fx = collecting_from(s, tunnels, i, declared);
    let fy = collecting_from(t, tunnels, i, declared);
    if i < tunnels.len() {
        lemma_summarizing(r, s, t, tunnels[i].path);
        let x1 = config::summarizing(s, tunnels[i].path);
        let y1 = config::summarizing(t, tunnels[i].path);
        let s1 = resumed(x1, y1);
        lemma_resumed(r, s, t, x1, y1);
        let f1 = if x1.1 is Some {
            fx
        } else {
            fy
        };
        match y1.1 {
            Some(summary) => {
                match summary {
                    Err(_) => {
                        lemma_collecting_from(r, s1, y1.0, tunnels, i + 1, declared);
                        let x2 = collecting_from(s1, tunnels, i + 1, declared);
                        let y2 = collecting_from(y1.0, tunnels, i + 1, declared);
                        lemma_bind(r, s1, y1.0, x2, y2, f1, fy);
                    },
                    Ok(v) => {
                        let next = with_new(declared, v.dns_servers, v.dns_servers.len());
                        lemma_collecting_from(r, s1, y1.0, tunnels, i + 1, next);
                        let x2 = collecting_from(s1, tunnels, i + 1, next);
                        let y2 = collecting_from(y1.0, tunnels, i + 1, next);
                        lemma_bind(r, s1, y1.0, x2, y2, f1, fy);
                    },
                }
            },
            None => {},
        }
        lemma_bind(r, s, t, x1, y1, fx, fy);
    }
    lemma_finished(r, s, t, fx, fy);
}

/// Reading the DNS servers that all configs declare.
pub proof fn lemma_collecting_dns(r: Rule, s: SessionView, t: SessionView)
    requires
        later(s, t),
    ensures
        steady(r, s, t, r.b.collecting_dns(s), r.b.collecting_dns(t)),
{
    let fx = r.b.collecting_dns(s);
    let fy = r.b.collecting_dns(t);
    lemma_discovering_any(r, s, t);
    let x1 = r.b.discovering_any(s);
    let y1 = r.b.discovering_any(t);
    let s1 = resumed(x1, y1);
    lemma_resumed(r, s, t, x1, y1);
    let f1 = if x1.1 is Some {
        fx
    } else {
        fy
    };
    match y1.1 {
        Some(tunnels) => {
            lemma_collecting_from(r, s1, y1.0, tunnels, 0, Seq::empty());
            let x2 = collecting_from(s1, tunnels, 0, Seq::empty());
            let y2 = collecting_from(y1.0, tunnels, 0, Seq::empty());
            lemma_bind(r, s1, y1.0, x2, y2, f1, fy);
        },
        None => {},
    }
    lemma_bind(r, s, t, x1, y1, fx, fy);
    lemma_finished(r, s, t, fx, fy);
}

/// Looking for the tunnel of an interface.
pub proof fn lemma_config_from(
    r: Rule,
    s: SessionView,
    t: SessionView,
    tunnels: Seq<TunnelView>,
    dump: Seq<DumpPeerView>,
    iface: Seq<char>,
    i: int,
)
    requires
        later(s, t),
    ensures
        steady(
            r,
            s,
            t,
            config_from(s, tunnels, dump, iface, i),
            config_from(t, tunnels, dump, iface, i),
        ),
    decreases tunnels.len() - i,
{
    let fx = config_from(s, tunnels, dump, iface, i);
    let fy = config_from(t, tunnels, dump, iface, i);
    if i < tunnels.len() {
        lemma_finding_live(r, s, t, tunnels[i], dump);
        let x1 = finding_live(s, tunnels[i], dump);
        let y1 = finding_live(t, tunnels[i], dump);
        let s1 = resumed(x1, y1);
        lemma_resumed(r, s, t, x1, y1);
        let f1 = if x1.1 is Some {
            fx
        } else {
            fy
        };
        match y1.1 {
            Some(found) => {
                if !(found matches Ok(Some(hit)) && hit.interface == iface) {
                    lemma_config_from(r, s1, y1.0, tunnels, dump, iface, i + 1);
                    let x2 = config_from(s1, tunnels, dump, iface, i + 1);
                    let y2 = config_from(y1.0, tunnels, dump, iface, i + 1);
                    lemma_bind(r, s1, y1.0, x2, y2, f1, fy);
                }
            },
            None => {},
        }
        lemma_bind(r, s, t, x1, y1, fx, fy);
    }
    lemma_finished(r, s, t, fx, fy);
}

/// Looking for the tunnel of an interface.
pub proof fn lemma_finding_config(
    r: Rule,
    s: SessionView,
    t: SessionView,
    iface: Seq<char>,
    dump: Seq<DumpPeerView>,
)
    requires
        later(s, t),
    ensures
        steady(r, s, t, r.b.finding_config(s, iface, dump), r.b.finding_config(t, iface, dump)),
{
    let fx = r.b.finding_config(s, iface, dump);
    let fy = r.b.finding_config(t, iface, dump);
    lemma_discovering_any(r, s, t);
    let x1 = r.b.discovering_any(s);
    let y1 = r.b.discovering_any(t);
    let s1 = resumed(x1, y1);
    lemma_resumed(r, s, t, x1, y1);
    let f1 = if x1.1 is Some {
        fx
    } else {
        fy
    };
    match y1.1 {
        Some(tunnels) => {
            lemma_config_from(r, s1, y1.0, tunnels, dump, iface, 0);
            let x2 = config_from(s1, tunnels, dump, iface, 0);
            let y2 = config_from(y1.0, tunnels, dump, iface, 0);
            lemma_bind(r, s1, y1.0, x2, y2, f1, fy);
        },
        None => {},
    }
    lemma_bind(r, s, t, x1, y1, fx, fy);
    lemma_finished(r, s, t, fx, fy);
}

/// Tearing down an orphaned interface.
pub proof fn lemma_tearing_down_orphan(
    r: Rule,
    s: SessionView,
    t: SessionView,
    iface: Seq<char>,
    dump: Seq<DumpPeerView>,
)
    requires
        later(s, t),
        !r.reading,
        r.running,
        r.tunnels,
    ensures
        steady(
            r,
            s,
            t,
            r.b.tearing_down_orphan(s, iface, dump),
            r.b.tearing_down_orphan(t, iface, dump),
        ),
{
    let fx = r.b.tearing_down_orphan(s, iface, dump);
    let fy = r.b.tearing_down_orphan(t, iface, dump);
    lemma_finding_config(r, s, t, iface, dump);
    let x1 = r.b.finding_config(s, iface, dump);
    let y1 = r.b.finding_config(t, iface, dump);
    let s1 = resumed(x1, y1);
    lemma_resumed(r, s, t, x1, y1);
    let f1 = if x1.1 is Some {
        fx
    } else {
        fy
    };
    match y1.1 {
        Some(Some(tunnel)) => {
            lemma_quick(r, s1, y1.0, "down"@, tunnel.path);
            let x2 = r.b.quick(s1, "down"@, tunnel.path);
            let y2 = r.b.quick(y1.0, "down"@, tunnel.path);
            lemma_bind(r, s1, y1.0, x2, y2, f1, fy);
        },
        _ => {},
    }
    lemma_bind(r, s, t, x1, y1, fx, fy);
    lemma_finished(r, s, t, fx, fy);
}

/// Tearing down orphaned interfaces.
pub proof fn lemma_tearing_down_from(
    r: Rule,
    s: SessionView,
    t: SessionView,
    list: Seq<Seq<char>>,
    dump: Seq<DumpPeerView>,
    i: int,
    recovered: Seq<RecoveredView>,
)
    requires
        later(s, t),
        !r.reading,
        r.running,
        r.tunnels,
    ensures
        steady(
            r,
            s,
            t,
            r.b.tearing_down_from(s, list, dump, i, recovered),
            r.b.tearing_down_from(t, list, dump, i, recovered),
        ),
    decreases list.len() - i,
{
    let fx = r.b.tearing_down_from(s, list, dump, i, recovered);
    let fy = r.b.tearing_down_from(t, list, dump, i, recovered);
    if i < list.len() {
        lemma_tearing_down_orphan(r, s, t, list[i], dump);
        let x1 = r.b.tearing_down_orphan(s, list[i], dump);
        let y1 = r.b.tearing_down_orphan(t, list[i], dump);
        let s1 = resumed(x1, y1);
        lemma_resumed(r, s, t, x1, y1);
        let f1 = if x1.1 is Some {
            fx
        } else {
            fy
        };
        match y1.1 {
            Some(one) => {
                lemma_tearing_down_from(r, s1, y1.0, list, dump, i + 1, recovered.push(one));
                let x2 = r.b.tearing_down_from(s1, list, dump, i + 1, recovered.push(one));
                let y2 = r.b.tearing_down_from(y1.0, list, dump, i + 1, recovered.push(one));
                lemma_bind(r, s1, y1.0, x2, y2, f1, fy);
            },
            None => {},
        }
        lemma_bind(r, s, t, x1, y1, fx, fy);
    }
    lemma_finished(r, s, t, fx, fy);
}

/// Clearing residual DNS.
pub proof fn lemma_mopping_up(
    r: Rule,
    s: SessionView,
    t: SessionView,
    recovered: Seq<RecoveredView>,
)
    requires
        later(s, t),
        !r.reading,
        r.running,
    ensures
        steady(r, s, t, r.b.mopping_up(s, recovered), r.b.mopping_up(t, recovered)),
{
    let fx = r.b.mopping_up(s, recovered);
    let fy = r.b.mopping_up(t, recovered);
    lemma_collecting_dns(r, s, t);
    let x1 = r.b.collecting_dns(s);
    let y1 = r.b.collecting_dns(t);
    let s1 = resumed(x1, y1);
    lemma_resumed(r, s, t, x1, y1);
    let f1 = if x1.1 is Some {
        fx
    } else {
        fy
    };
    match y1.1 {
        Some(declared) => {
            if declared.len() > 0 {
                lemma_naming_active(r, s1, y1.0);
                let x2 = r.b.naming_active(s1);
                let y2 = r.b.naming_active(y1.0);
                let s2 = resumed(x2, y2);
                lemma_resumed(r, s1, y1.0, x2, y2);
                let f2 = if x2.1 is Some {
                    f1
                } else {
                    fy
                };
                match y2.1 {
                    Some(found) => {
                        if found matches Ok(names) && names.len() == 0 {
                            lemma_guarding(r, s2, y2.0, declared, r.b.dns_sweeps);
                            let x3 = dns::guarding(s2, declared, r.b.dns_sweeps);
                            let y3 = dns::guarding(y2.0, declared, r.b.dns_sweeps);
                            lemma_bind(r, s2, y2.0, x3, y3, f2, fy);
                        }
                    },
                    None => {},
                }
                lemma_bind(r, s1, y1.0, x2, y2, f1, fy);
            }
        },
        None => {},
    }
    lemma_bind(r, s, t, x1, y1, fx, fy);
    lemma_finished(r, s, t, fx, fy);
}

/// `vpn recover`, without the verification.
pub proof fn lemma_recovering(r: Rule, s: SessionView, t: SessionView)
    requires
        later(s, t),
        !r.reading,
        r.running,
        r.tunnels,
    ensures
        steady(r, s, t, r.b.recovering(s), r.b.recovering(t)),
{
    let fx = r.b.recovering(s);
    let fy = r.b.recovering(t);
    lemma_reconciling(r, s, t);
    let x1 = r.b.reconciling(s);
    let y1 = r.b.reconciling(t);
    let s1 = resumed(x1, y1);
    lemma_resumed(r, s, t, x1, y1);
    let f1 = if x1.1 is Some {
        fx
    } else {
        fy
    };
    match y1.1 {
        Some(Ok(first)) => {
            lemma_dumping(r, s1, y1.0);
            let x2 = r.b.dumping(s1);
            let y2 = r.b.dumping(y1.0);
            let s2 = resumed(x2, y2);
            lemma_resumed(r, s1, y1.0, x2, y2);
            let f2 = if x2.1 is Some {
                f1
            } else {
                fy
            };
            match y2.1 {
                Some(Ok(dump)) => {
                    lemma_reading_all(r, s2, y2.0, r.b.config_dir);
                    let x3 = state::reading_all(s2, r.b.config_dir);
                    let y3 = state::reading_all(y2.0, r.b.config_dir);
                    let s3 = resumed(x3, y3);
                    lemma_resumed(r, s2, y2.0, x3, y3);
                    let f3 = if x3.1 is Some {
                        f2
                    } else {
                        fy
                    };
                    match y3.1 {
                        Some(journals) => {
                            let list = orphans(dump, journals);
                            lemma_tearing_down_from(r, s3, y3.0, list, dump, 0, first);
                            let x4 = r.b.tearing_down_from(s3, list, dump, 0, first);
                            let y4 = r.b.tearing_down_from(y3.0, list, dump, 0, first);
                            let s4 = resumed(x4, y4);
                            lemma_resumed(r, s3, y3.0, x4, y4);
                            let f4 = if x4.1 is Some {
                                f3
                            } else {
                                fy
                            };
                            match y4.1 {
                                Some(torn) => {
                                    lemma_mopping_up(r, s4, y4.0, torn);
                                    let x5 = r.b.mopping_up(s4, torn);
                                    let y5 = r.b.mopping_up(y4.0, torn);
                                    lemma_bind(r, s4, y4.0, x5, y5, f4, fy);
                                },
                                None => {},
                            }
                            lemma_bind(r, s3, y3.0, x4, y4, f3, fy);
                        },
                        None => {},
                    }
                    lemma_bind(r, s2, y2.0, x3, y3, f2, fy);
                },
                _ => {},
            }
            lemma_bind(r, s1, y1.0, x2, y2, f1, fy);
        },
        _ => {},
    }
    lemma_bind(r, s, t, x1, y1, fx, fy);
    lemma_finished(r, s, t, fx, fy);
}

/// Reading the default route.
pub proof fn lemma_reading_route(r: Rule, s: SessionView, t: SessionView)
    requires
        later(s, t),
        r.running,
    ensures
        steady(r, s, t, reading_route(s), reading_route(t)),
{
    let fx = reading_route(s);
    let fy = reading_route(t);
    lemma_run(r, s, t, ROUTE@, seq!["-n"@, "get"@, "default"@]);
    let x1 = s.run(ROUTE@, seq!["-n"@, "get"@, "default"@]);
    let y1 = t.run(ROUTE@, seq!["-n"@, "get"@, "default"@]);
    lemma_bind(r, s, t, x1, y1, fx, fy);
    lemma_finished(r, s, t, fx, fy);
}

/// Looking for configs of interfaces.
pub proof fn lemma_checking_interfaces(
    r: Rule,
    s: SessionView,
    t: SessionView,
    list: Seq<Seq<char>>,
    dump: Seq<DumpPeerView>,
    route: Option<Seq<char>>,
    i: int,
    issues: Seq<HealthIssueView>,
)
    requires
        later(s, t),
        r.running,
    ensures
        steady(
            r,
            s,
            t,
            r.b.checking_interfaces(s, list, dump, route, i, issues),
            r.b.checking_interfaces(t, list, dump, route, i, issues),
        ),
    decreases list.len() - i,
{
    let fx = r.b.checking_interfaces(s, list, dump, route, i, issues);
    let fy = r.b.checking_interfaces(t, list, dump, route, i, issues);
    if i < list.len() {
        lemma_finding_config(r, s, t, list[i], dump);
        let x1 = r.b.finding_config(s, list[i], dump);
        let y1 = r.b.finding_config(t, list[i], dump);
        let s1 = resumed(x1, y1);
        lemma_resumed(r, s, t, x1, y1);
        let f1 = if x1.1 is Some {
            fx
        } else {
            fy
        };
        match y1.1 {
            Some(tunnel) => {
                let next = if tunnel is None {
                    issues.push(orphan_issue(list[i], route == Some(list[i])))
                } else {
                    issues
                };
                lemma_checking_interfaces(r, s1, y1.0, list, dump, route, i + 1, next);
                let x2 = r.b.checking_interfaces(s1, list, dump, route, i + 1, next);
                let y2 = r.b.checking_interfaces(y1.0, list, dump, route, i + 1, next);
                lemma_bind(r, s1, y1.0, x2, y2, f1, fy);
            },
            None => {},
        }
        lemma_bind(r, s, t, x1, y1, fx, fy);
    }
    lemma_finished(r, s, t, fx, fy);
}

/// Looking for stale DNS.
pub proof fn lemma_checking_stale(
    r: Rule,
    s: SessionView,
    t: SessionView,
    issues: Seq<HealthIssueView>,
)
    requires
        later(s, t),
        r.running,
    ensures
        steady(r, s, t, r.b.checking_stale(s, issues), r.b.checking_stale(t, issues)),
{
    let fx = r.b.checking_stale(s, issues);
    let fy = r.b.checking_stale(t, issues);
    lemma_naming_active(r, s, t);
    let x1 = r.b.naming_active(s);
    let y1 = r.b.naming_active(t);
    let s1 = resumed(x1, y1);
    lemma_resumed(r, s, t, x1, y1);
    let f1 = if x1.1 is Some {
        fx
    } else {
        fy
    };
    match y1.1 {
        Some(found) => {
            let none_up = match found {
                Ok(names) => names.len() == 0,
                Err(_) => true,
            };
            lemma_collecting_dns(r, s1, y1.0);
            let x2 = r.b.collecting_dns(s1);
            let y2 = r.b.collecting_dns(y1.0);
            let s2 = resumed(x2, y2);
            lemma_resumed(r, s1, y1.0, x2, y2);
            let f2 = if x2.1 is Some {
                f1
            } else {
                fy
            };
            match y2.1 {
                Some(declared) => {
                    if none_up && declared.len() > 0 {
                        lemma_finding_stale(r, s2, y2.0, declared);
                        let x3 = dns::finding_stale(s2, declared);
                        let y3 = dns::finding_stale(y2.0, declared);
                        lemma_bind(r, s2, y2.0, x3, y3, f2, fy);
                    }
                },
                None => {},
            }
            lemma_bind(r, s1, y1.0, x2, y2, f1, fy);
        },
        None => {},
    }
    lemma_bind(r, s, t, x1, y1, fx, fy);
    lemma_finished(r, s, t, fx, fy);
}

/// `vpn verify`.
pub proof fn lemma_verifying(r: Rule, s: SessionView, t: SessionView)
    requires
        later(s, t),
        r.running,
    ensures
        steady(r, s, t, r.b.verifying(s), r.b.verifying(t)),
{
    let fx = r.b.verifying(s);
    let fy = r.b.verifying(t);
    lemma_dumping(r, s, t);
    let x1 = r.b.dumping(s);
    let y1 = r.b.dumping(t);
    let s1 = resumed(x1, y1);
    lemma_resumed(r, s, t, x1, y1);
    let f1 = if x1.1 is Some {
        fx
    } else {
        fy
    };
    match y1.1 {
        Some(Ok(dump)) => {
            lemma_reading_route(r, s1, y1.0);
            let x2 = reading_route(s1);
            let y2 = reading_route(y1.0);
            let s2 = resumed(x2, y2);
            lemma_resumed(r, s1, y1.0, x2, y2);
            let f2 = if x2.1 is Some {
                f1
            } else {
                fy
            };
            match y2.1 {
                Some(route) => {
                    let list = order::text_set(interfaces(dump));
                    lemma_checking_interfaces(r, s2, y2.0, list, dump, route, 0, Seq::empty());
                    let x3 = r.b.checking_interfaces(s2, list, dump, route, 0, Seq::empty());
                    let y3 = r.b.checking_interfaces(y2.0, list, dump, route, 0, Seq::empty());
                    let s3 = resumed(x3, y3);
                    lemma_resumed(r, s2, y2.0, x3, y3);
                    let f3 = if x3.1 is Some {
                        f2
                    } else {
                        fy
                    };
                    match y3.1 {
                        Some(found) => {
                            lemma_checking_stale(r, s3, y3.0, found);
                            let x4 = r.b.checking_stale(s3, found);
                            let y4 = r.b.checking_stale(y3.0, found);
                            lemma_bind(r, s3, y3.0, x4, y4, f3, fy);
                        },
                        None => {},
                    }
                    lemma_bind(r, s2, y2.0, x3, y3, f2, fy);
                },
                None => {},
            }
            lemma_bind(r, s1, y1.0, x2, y2, f1, fy);
        },
        _ => {},
    }
    lemma_bind(r, s, t, x1, y1, fx, fy);
    lemma_finished(r, s, t, fx, fy);
}

} // verus!
