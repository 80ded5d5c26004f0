//! What the DNS settings are changed to, and what is reported of it.
use vstd::prelude::*;

use crate::backend::recovery::ROUTE;
use crate::backend::{full_command, BackendView};
use crate::dns;
use crate::dns::{
    finding_stale, guard_report, guarding, reapply_from, reset_from, restoring, sanitized,
    set_dns_args, setting_dns, sweep_from, GuardOutcomeView, NETWORKSETUP,
};
use crate::order;
use crate::session::{ActionView, ReplyView, SessionView};
use crate::state::Snapshot;
use crate::trace::{extends, lemma_finding_stale, lemma_same, looks, Rule};

verus! {

// ---------------------------------------------------------------------------
// What was asked for
// ---------------------------------------------------------------------------

/// Whether an action sets the DNS of a service.
pub open spec fn sets_dns(a: ActionView) -> bool {
    a matches ActionView::Run { program, args } && program == NETWORKSETUP@ && args.len() > 0
        && args[0] == "-setdnsservers"@
}

/// Whether an action sets the DNS of a service, none of the servers being one of
/// the tunnel's.
pub open spec fn sets_apart(a: ActionView, tunnel_dns: Seq<Seq<char>>) -> bool {
    exists|service: Seq<char>, servers: Seq<Seq<char>>|
        a == (ActionView::Run {
            program: NETWORKSETUP@,
            args: #[trigger] set_dns_args(service, servers),
        }) && forall|server: Seq<char>|
            tunnel_dns.contains(server) ==> !#[trigger] servers.contains(server)
}

/// Whether, from `s` to `t`, no service was set to one of the tunnel's servers.
#[verifier::opaque]
pub open spec fn never_pins(tunnel_dns: Seq<Seq<char>>, s: SessionView, t: SessionView) -> bool {
    &&& t.replies == s.replies
    &&& s.asked.len() <= t.asked.len()
    &&& forall|i: int| 0 <= i < s.asked.len() ==> #[trigger] t.asked[i] == s.asked[i]
    &&& forall|i: int|
        s.asked.len() <= i < t.asked.len() && sets_dns(#[trigger] t.asked[i]) ==> sets_apart(
            t.asked[i],
            tunnel_dns,
        )
}

/// Whether the `i`th action set the DNS of the service, and exited with 0.
pub open spec fn set_at(t: SessionView, i: int, service: Seq<char>) -> bool {
    &&& sets_dns(t.asked[i])
    &&& t.asked[i]->Run_args.len() > 1 && t.asked[i]->Run_args[1] == service
    &&& i < t.replies.len()
    &&& t.replies[i] matches ReplyView::Ran(Ok(out)) && out.success()
}

/// Whether the `i`th action was to set the DNS of a service, and failed.
pub open spec fn failed_at(t: SessionView, i: int) -> bool {
    &&& sets_dns(t.asked[i])
    &&& i < t.replies.len()
    &&& !(t.replies[i] matches ReplyView::Ran(Ok(out)) && out.success())
}

/// Whether, from `s` to `t`, the DNS of the service was set.
pub open spec fn was_set(s: SessionView, t: SessionView, service: Seq<char>) -> bool {
    exists|i: int| s.asked.len() <= i < t.asked.len() && #[trigger] set_at(t, i, service)
}

/// Whether, from `s` to `t`, setting the DNS of a service failed.
pub open spec fn some_failed(s: SessionView, t: SessionView) -> bool {
    exists|i: int| s.asked.len() <= i < t.asked.len() && #[trigger] failed_at(t, i)
}

/// Whether what was done from `s` to `t` takes one report to the other.
#[verifier::opaque]
pub open spec fn reports(
    s: SessionView,
    t: SessionView,
    before: GuardOutcomeView,
    after: GuardOutcomeView,
) -> bool {
    &&& order::strictly_ordered(before.cleared) ==> order::strictly_ordered(after.cleared)
    &&& order::strictly_ordered(before.cleared) ==> forall|service: Seq<char>| #[trigger]
        after.cleared.contains(service) <==> before.cleared.contains(service) || was_set(
            s,
            t,
            service,
        )
    &&& before.warning is Some || some_failed(s, t) ==> after.warning is Some
}

// ---------------------------------------------------------------------------
// One after the other
// ---------------------------------------------------------------------------

proof fn lemma_never_pins(
    tunnel_dns: Seq<Seq<char>>,
    s: SessionView,
    t: SessionView,
    u: SessionView,
)
    requires
        never_pins(tunnel_dns, s, t),
        never_pins(tunnel_dns, t, u),
    ensures
        never_pins(tunnel_dns, s, u),
{
    reveal(never_pins);
}

proof fn lemma_reports(
    tunnel_dns: Seq<Seq<char>>,
    s: SessionView,
    t: SessionView,
    u: SessionView,
    a: GuardOutcomeView,
    b: GuardOutcomeView,
    c: GuardOutcomeView,
)
    requires
        never_pins(tunnel_dns, s, t),
        never_pins(tunnel_dns, t, u),
        reports(s, t, a, b),
        reports(t, u, b, c),
    ensures
        reports(s, u, a, c),
{
    reveal(never_pins);
    reveal(reports);
    assert forall|service: Seq<char>| was_set(s, u, service) == (was_set(s, t, service) || was_set(
        t,
        u,
        service,
    )) by {
        if was_set(s, t, service) {
            let i = choose|i: int|
                s.asked.len() <= i < t.asked.len() && #[trigger] set_at(t, i, service);
            assert(set_at(u, i, service));
        }
        if was_set(t, u, service) {
            let i = choose|i: int|
                t.asked.len() <= i < u.asked.len() && #[trigger] set_at(u, i, service);
            assert(set_at(u, i, service));
        }
        if was_set(s, u, service) {
            let i = choose|i: int|
                s.asked.len() <= i < u.asked.len() && #[trigger] set_at(u, i, service);
            if i < t.asked.len() {
                assert(set_at(t, i, service));
            }
        }
    }
    if some_failed(s, u) {
        let i = choose|i: int| s.asked.len() <= i < u.asked.len() && #[trigger] failed_at(u, i);
        if i < t.asked.len() {
            assert(failed_at(t, i));
        }
    }
}

/// Where no DNS was to be set, the report stays.
proof fn lemma_untouched(
    tunnel_dns: Seq<Seq<char>>,
    s: SessionView,
    t: SessionView,
    done: GuardOutcomeView,
)
    requires
        t.replies == s.replies,
        s.asked.len() <= t.asked.len(),
        forall|i: int| 0 <= i < s.asked.len() ==> #[trigger] t.asked[i] == s.asked[i],
        forall|i: int| s.asked.len() <= i < t.asked.len() ==> !sets_dns(#[trigger] t.asked[i]),
    ensures
        never_pins(tunnel_dns, s, t),
        reports(s, t, done, done),
{
    reveal(never_pins);
    reveal(reports);
    assert forall|service: Seq<char>| !was_set(s, t, service) by {
        if was_set(s, t, service) {
            let i = choose|i: int|
                s.asked.len() <= i < t.asked.len() && #[trigger] set_at(t, i, service);
            assert(sets_dns(t.asked[i]));
        }
    }
    if some_failed(s, t) {
        let i = choose|i: int| s.asked.len() <= i < t.asked.len() && #[trigger] failed_at(t, i);
        assert(sets_dns(t.asked[i]));
    }
}

/// Looking at the settings changes none.
proof fn lemma_looking(
    tunnel_dns: Seq<Seq<char>>,
    s: SessionView,
    servers: Seq<Seq<char>>,
    done: GuardOutcomeView,
)
    ensures
        never_pins(tunnel_dns, s, finding_stale(s, servers).0),
        reports(s, finding_stale(s, servers).0, done, done),
{
    let b = BackendView::new(Seq::empty(), false);
    let r = Rule { b, reading: true, running: true, tunnels: false };
    let t = finding_stale(s, servers).0;
    lemma_same(s);
    lemma_finding_stale(r, s, s, servers);
    reveal(extends);
    assert forall|i: int| s.asked.len() <= i < t.asked.len() implies !sets_dns(
        #[trigger] t.asked[i],
    ) by {
        assert(r.allows(t.asked[i]));
        lemma_no_setting(b, t.asked[i]);
    }
    lemma_untouched(tunnel_dns, s, t, done);
}

/// No question sets anything.
proof fn lemma_no_setting(b: BackendView, a: ActionView)
    requires
        b == BackendView::new(Seq::empty(), false),
        a matches ActionView::Run { program, args } ==> looks(b, program, args),
    ensures
        !sets_dns(a),
{
    reveal_strlit("networksetup");
    reveal_strlit("-setdnsservers");
    reveal_strlit("-listallnetworkservices");
    reveal_strlit("-getdnsservers");
    reveal_strlit("wg");
    reveal_strlit("wg-quick");
    reveal_strlit("curl");
    reveal_strlit("route");
    assert("-setdnsservers"@[1] != "-getdnsservers"@[1]);
    assert("-setdnsservers"@.len() != "-listallnetworkservices"@.len());
    assert(NETWORKSETUP@.len() == 12);
    assert(b.wg.len() == 2 && b.curl.len() == 4 && b.wg_quick.len() == 8 && ROUTE@.len() == 5);
    assert(full_command(b.sudo, b.wg, seq!["show"@, "all"@, "dump"@]).0 == b.wg);
}

/// Setting the DNS of one service.
proof fn lemma_setting(
    tunnel_dns: Seq<Seq<char>>,
    s: SessionView,
    service: Seq<char>,
    servers: Seq<Seq<char>>,
    done: GuardOutcomeView,
    warning: Seq<char>,
)
    requires
        forall|server: Seq<char>|
            tunnel_dns.contains(server) ==> !#[trigger] servers.contains(server),
    ensures
        ({
            let (t, ok) = setting_dns(s, service, servers);
            &&& never_pins(tunnel_dns, s, t)
            &&& match ok {
                Some(true) => reports(
                    s,
                    t,
                    done,
                    GuardOutcomeView { cleared: order::with_text(done.cleared, service), ..done },
                ),
                Some(false) => reports(
                    s,
                    t,
                    done,
                    GuardOutcomeView { warning: Some(warning), ..done },
                ),
                None => true,
            }
        }),
{
    reveal(never_pins);
    reveal(reports);
    let (t, ok) = setting_dns(s, service, servers);
    let n = s.asked.len() as int;
    let args = set_dns_args(service, servers);
    assert(t.asked[n] == ActionView::Run { program: NETWORKSETUP@, args });
    assert(args[1] == service);
    assert(sets_apart(t.asked[n], tunnel_dns));
    match ok {
        Some(true) => {
            assert(set_at(t, n, service));
            assert forall|other: Seq<char>| was_set(s, t, other) == (other == service) by {
                if was_set(s, t, other) {
                    let i = choose|i: int| n <= i < t.asked.len() && #[trigger] set_at(t, i, other);
                    assert(i == n);
                }
            }
            if order::strictly_ordered(done.cleared) {
                order::lemma_with_text(done.cleared, service);
            }
            if some_failed(s, t) {
                let i = choose|i: int| n <= i < t.asked.len() && #[trigger] failed_at(t, i);
                assert(i == n);
            }
        },
        Some(false) => {
            assert forall|other: Seq<char>| !was_set(s, t, other) by {
                if was_set(s, t, other) {
                    let i = choose|i: int| n <= i < t.asked.len() && #[trigger] set_at(t, i, other);
                    assert(i == n);
                }
            }
        },
        None => {},
    }
}

/// Resetting stale services.
proof fn lemma_resetting(
    tunnel_dns: Seq<Seq<char>>,
    s: SessionView,
    stale: Seq<Seq<char>>,
    i: int,
    done: GuardOutcomeView,
)
    ensures
        ({
            let (t, reset) = reset_from(s, stale, i, done.cleared, done.warning);
            &&& never_pins(tunnel_dns, s, t)
            &&& reset matches Some(more) ==> reports(s, t, done, more)
        }),
    decreases stale.len() - i,
{
    if i >= stale.len() {
        lemma_untouched(tunnel_dns, s, s, done);
    } else {
        let warning = dns::reset_warning(stale[i]);
        lemma_setting(tunnel_dns, s, stale[i], Seq::empty(), done, warning);
        let (s1, ok) = setting_dns(s, stale[i], Seq::empty());
        let (t, reset) = reset_from(s, stale, i, done.cleared, done.warning);
        match ok {
            Some(good) => {
                let next = if good {
                    GuardOutcomeView {
                        cleared: order::with_text(done.cleared, stale[i]),
                        ..done
                    }
                } else {
                    GuardOutcomeView { warning: Some(warning), ..done }
                };
                lemma_resetting(tunnel_dns, s1, stale, i + 1, next);
                lemma_never_pins(tunnel_dns, s, s1, t);
                if let Some(more) = reset {
                    lemma_reports(tunnel_dns, s, s1, t, done, next, more);
                }
            },
            None => {},
        }
    }
}

/// A warning that is added stays in the report.
proof fn lemma_guard_report(
    s: SessionView,
    t: SessionView,
    before: GuardOutcomeView,
    done: GuardOutcomeView,
    dirty: bool,
)
    requires
        reports(s, t, before, done),
    ensures
        reports(s, t, before, guard_report(done, dirty)),
{
    reveal(reports);
}

/// The sweeps of the guard.
proof fn lemma_sweeping(
    servers: Seq<Seq<char>>,
    s: SessionView,
    tunnel_dns: Seq<Seq<char>>,
    delays: Seq<u64>,
    i: int,
    done: GuardOutcomeView,
    clean: bool,
    dirty: bool,
)
    ensures
        ({
            let (t, swept) = sweep_from(s, tunnel_dns, delays, i, done, clean, dirty);
            &&& never_pins(servers, s, t)
            &&& swept matches Some(outcome) ==> reports(s, t, done, outcome)
        }),
    decreases delays.len() - i,
{
    let (t, swept) = sweep_from(s, tunnel_dns, delays, i, done, clean, dirty);
    if i >= delays.len() {
        lemma_untouched(servers, s, s, done);
        lemma_guard_report(s, s, done, done, dirty);
    } else {
        let (s1, slept) = if delays[i] > 0 {
            s.sleep(delays[i])
        } else {
            (s, Some(()))
        };
        lemma_untouched(servers, s, s1, done);
        if slept is Some {
            lemma_looking(servers, s1, tunnel_dns, done);
            let (s2, found) = finding_stale(s1, tunnel_dns);
            lemma_never_pins(servers, s, s1, s2);
            lemma_reports(servers, s, s1, s2, done, done, done);
            if let Some(Some(stale)) = found {
                if stale.len() == 0 {
                    if clean {
                        lemma_guard_report(s, s2, done, done, false);
                    } else {
                        lemma_sweeping(servers, s2, tunnel_dns, delays, i + 1, done, true, false);
                        lemma_never_pins(servers, s, s2, t);
                        if let Some(outcome) = swept {
                            lemma_reports(servers, s, s2, t, done, done, outcome);
                        }
                    }
                } else {
                    lemma_resetting(servers, s2, stale, 0, done);
                    let (s3, reset) = reset_from(s2, stale, 0, done.cleared, done.warning);
                    lemma_never_pins(servers, s, s2, s3);
                    if let Some(more) = reset {
                        lemma_reports(servers, s, s2, s3, done, done, more);
                        lemma_sweeping(servers, s3, tunnel_dns, delays, i + 1, more, false, true);
                        lemma_never_pins(servers, s, s3, t);
                        if let Some(outcome) = swept {
                            lemma_reports(servers, s, s3, t, done, more, outcome);
                        }
                    }
                }
            }
        }
    }
}

/// Setting the services of a snapshot.
proof fn lemma_reapplying(
    tunnel_dns: Seq<Seq<char>>,
    s: SessionView,
    snapshot: Snapshot,
    i: int,
    done: GuardOutcomeView,
)
    requires
        0 <= i,
    ensures
        ({
            let (t, reapplied) = reapply_from(s, snapshot, i, done.cleared, done.warning);
            &&& sanitized(snapshot, tunnel_dns) ==> never_pins(tunnel_dns, s, t)
            &&& never_pins(Seq::empty(), s, t)
            &&& reapplied matches Some(more) ==> reports(s, t, done, more)
        }),
    decreases snapshot.len() - i,
{
    let none = Seq::<Seq<char>>::empty();
    if i >= snapshot.len() {
        lemma_untouched(tunnel_dns, s, s, done);
        lemma_untouched(none, s, s, done);
    } else {
        let (service, servers) = snapshot[i];
        let warning = dns::restore_warning(service, servers);
        lemma_setting(none, s, service, servers, done, warning);
        if sanitized(snapshot, tunnel_dns) {
            assert forall|server: Seq<char>| tunnel_dns.contains(
                server,
            ) implies !#[trigger] servers.contains(server) by {
                assert(!snapshot[i].1.contains(server));
            }
            lemma_setting(tunnel_dns, s, service, servers, done, warning);
        }
        let (s1, ok) = setting_dns(s, service, servers);
        let (t, reapplied) = reapply_from(s, snapshot, i, done.cleared, done.warning);
        if let Some(good) = ok {
            let next = if good {
                GuardOutcomeView { cleared: order::with_text(done.cleared, service), ..done }
            } else {
                GuardOutcomeView { warning: Some(warning), ..done }
            };
            lemma_reapplying(tunnel_dns, s1, snapshot, i + 1, next);
            lemma_never_pins(none, s, s1, t);
            if sanitized(snapshot, tunnel_dns) {
                lemma_never_pins(tunnel_dns, s, s1, t);
            }
            if let Some(more) = reapplied {
                lemma_reports(none, s, s1, t, done, next, more);
            }
        }
    }
}

// ---------------------------------------------------------------------------
// Laws
// ---------------------------------------------------------------------------

/// The guard loses nothing of what it did: the services that it reports as
/// cleared are exactly those whose reset exited with 0, and where a reset failed
/// it warns, whatever becomes of `networksetup` afterwards.
pub proof fn law_guard_reports(s: SessionView, tunnel_dns: Seq<Seq<char>>, delays: Seq<u64>)
    ensures
        ({
            let (t, guarded) = guarding(s, tunnel_dns, delays);
            guarded matches Some(outcome) ==> {
                &&& forall|service: Seq<char>| #[trigger]
                    outcome.cleared.contains(service) <==> was_set(s, t, service)
                &&& some_failed(s, t) ==> outcome.warning is Some
            }
        }),
{
    let nothing = GuardOutcomeView::nothing();
    if tunnel_dns.len() == 0 {
        lemma_untouched(tunnel_dns, s, s, nothing);
    } else {
        lemma_sweeping(tunnel_dns, s, tunnel_dns, delays, 0, nothing, false, false);
    }
    reveal(reports);
}

/// Nor does restoring a snapshot.
pub proof fn law_restore_reports(
    s: SessionView,
    snapshot: Snapshot,
    tunnel_dns: Seq<Seq<char>>,
    delays: Seq<u64>,
)
    ensures
        ({
            let (t, done) = restoring(s, snapshot, tunnel_dns, delays);
            done matches Some(outcome) ==> {
                &&& forall|service: Seq<char>| #[trigger]
                    outcome.cleared.contains(service) <==> was_set(s, t, service)
                &&& some_failed(s, t) ==> outcome.warning is Some
            }
        }),
{
    let none = Seq::<Seq<char>>::empty();
    let nothing = GuardOutcomeView::nothing();
    lemma_reapplying(none, s, snapshot, 0, nothing);
    let (s1, reapplied) = reapply_from(s, snapshot, 0, none, None);
    let (t, done) = restoring(s, snapshot, tunnel_dns, delays);
    if let Some(outcome) = done {
        let restored = reapplied->0;
        law_guard_reports(s1, tunnel_dns, delays);
        law_guard_sets_dhcp(s1, tunnel_dns, delays, none);
        let guarded = guarding(s1, tunnel_dns, delays).1->0;
        order::lemma_text_set(guarded.cleared + restored.cleared);
        let both = guarded.cleared + restored.cleared;
        assert forall|service: Seq<char>| #[trigger]
            both.contains(service) <==> guarded.cleared.contains(service)
                || restored.cleared.contains(service) by {
            if guarded.cleared.contains(service) {
                let k = choose|k: int|
                    0 <= k < guarded.cleared.len() && guarded.cleared[k] == service;
                assert(both[k] == service);
            }
            if restored.cleared.contains(service) {
                let k = choose|k: int|
                    0 <= k < restored.cleared.len() && restored.cleared[k] == service;
                assert(both[guarded.cleared.len() + k] == service);
            }
        }
        assert(reports(s1, t, restored, outcome)) by {
            reveal(reports);
        }
        lemma_reports(none, s, s1, t, nothing, restored, outcome);
        reveal(reports);
    }
}

/// The guard never sets a service to any server: whatever it sets, it sets to
/// DHCP, and so apart from any list of servers.
pub proof fn law_guard_sets_dhcp(
    s: SessionView,
    tunnel_dns: Seq<Seq<char>>,
    delays: Seq<u64>,
    servers: Seq<Seq<char>>,
)
    ensures
        never_pins(servers, s, guarding(s, tunnel_dns, delays).0),
{
    let nothing = GuardOutcomeView::nothing();
    if tunnel_dns.len() == 0 {
        lemma_untouched(servers, s, s, nothing);
    } else {
        lemma_sweeping(servers, s, tunnel_dns, delays, 0, nothing, false, false);
    }
}

/// Restoring cannot pin the tunnel's resolver again: where the snapshot holds
/// none of the tunnel's servers, no service is set to one.
pub proof fn law_restore_never_pins(
    s: SessionView,
    snapshot: Snapshot,
    tunnel_dns: Seq<Seq<char>>,
    delays: Seq<u64>,
)
    requires
        sanitized(snapshot, tunnel_dns),
    ensures
        never_pins(tunnel_dns, s, restoring(s, snapshot, tunnel_dns, delays).0),
{
    let nothing = GuardOutcomeView::nothing();
    lemma_reapplying(tunnel_dns, s, snapshot, 0, nothing);
    let (s1, reapplied) = reapply_from(s, snapshot, 0, Seq::empty(), None);
    if reapplied is Some {
        law_guard_sets_dhcp(s1, tunnel_dns, delays, tunnel_dns);
        lemma_never_pins(tunnel_dns, s, s1, guarding(s1, tunnel_dns, delays).0);
    }
}

} // verus!
