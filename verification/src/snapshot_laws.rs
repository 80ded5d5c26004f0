//! What is asked of `networksetup`, what a snapshot holds, and what is set from it.
use vstd::prelude::*;

use crate::dns::{
    any_of, capture_from, capturing, finding_stale, guarding, listing_services, reading_dns,
    reapply_from, reset_from, restore_report, restoring, servers_in, services, setting_dns,
    stale_from, sweep_from, sweep_schedule, sweeping, GuardOutcomeView,
};
use crate::order;
use crate::reading_laws;
use crate::runner::CommandOutputView;
use crate::session::{ActionView, ReplyView, SessionView};
use crate::state::Snapshot;
use crate::text;

verus! {

// ---------------------------------------------------------------------------
// Questions
// ---------------------------------------------------------------------------

/// The question for the network services.
pub open spec fn list_command() -> ActionView {
    ActionView::Run { program: "networksetup"@, args: seq!["-listallnetworkservices"@] }
}

/// The question for the servers of a service.
pub open spec fn servers_command(service: Seq<char>) -> ActionView {
    ActionView::Run { program: "networksetup"@, args: seq!["-getdnsservers"@, service] }
}

/// The command that sets the servers of a service.
pub open spec fn set_command(service: Seq<char>, servers: Seq<Seq<char>>) -> ActionView {
    ActionView::Run {
        program: "networksetup"@,
        args: seq!["-setdnsservers"@, service] + (if servers.len() == 0 {
            seq!["Empty"@]
        } else {
            servers
        }),
    }
}

/// The services are asked for once; where that cannot run, or exits with another code
/// than 0, there is nothing to be done here.
pub proof fn law_listing_services(s: SessionView)
    ensures
        ({
            let n = s.asked.len() as int;
            let (t, listed) = listing_services(s);
            &&& t.replies == s.replies
            &&& t.asked == s.asked.push(list_command())
            &&& n < s.replies.len() ==> match s.replies[n] {
                ReplyView::Ran(Ok(out)) => if out.code == Some(0i32) {
                    listed matches Some(Some(names)) && names == services(out.stdout)
                } else {
                    listed matches Some(none) && none is None
                },
                ReplyView::Ran(Err(_)) => listed matches Some(none) && none is None,
                _ => listed is None,
            }
        }),
{
}

/// The servers of a service are asked for once, and are those of the output.
pub proof fn law_reading_dns(s: SessionView, service: Seq<char>)
    ensures
        ({
            let n = s.asked.len() as int;
            let (t, read) = reading_dns(s, service);
            &&& t.replies == s.replies
            &&& t.asked == s.asked.push(servers_command(service))
            &&& n < s.replies.len() ==> match s.replies[n] {
                ReplyView::Ran(Ok(out)) => read matches Some(Some(list)) && list == servers_in(
                    text::lines(out.stdout),
                ),
                ReplyView::Ran(Err(_)) => read matches Some(none) && none is None,
                _ => read is None,
            }
        }),
{
}

/// A service is set with one command, which has worked exactly if it exits with 0.
pub proof fn law_setting_dns(s: SessionView, service: Seq<char>, servers: Seq<Seq<char>>)
    ensures
        ({
            let n = s.asked.len() as int;
            let (t, ok) = setting_dns(s, service, servers);
            &&& t.replies == s.replies
            &&& t.asked == s.asked.push(set_command(service, servers))
            &&& n < s.replies.len() ==> match s.replies[n] {
                ReplyView::Ran(Ok(out)) => ok == Some(out.code == Some(0i32)),
                ReplyView::Ran(Err(_)) => ok == Some(false),
                _ => ok is None,
            }
        }),
{
    assert(seq!["-setdnsservers"@, service, "Empty"@] =~= seq!["-setdnsservers"@, service] + seq![
        "Empty"@,
    ]);
}

/// The sweeps come at once, and after pauses of 400, 1200 and 2500 milliseconds.
pub proof fn law_sweep_schedule()
    ensures
        sweep_schedule() == seq![0u64, 400, 1200, 2500],
{
}

/// Whether the replies from `n` on are the outputs.
pub open spec fn outputs_follow(s: SessionView, n: int, outs: Seq<CommandOutputView>) -> bool {
    &&& n + outs.len() <= s.replies.len()
    &&& forall|i: int|
        #![trigger outs[i]]
        0 <= i < outs.len() ==> s.replies[n + i] == ReplyView::Ran(Ok(outs[i]))
}

/// The servers that an output names.
pub open spec fn named_servers(out: CommandOutputView) -> Seq<Seq<char>> {
    text::lines(out.stdout).filter_map(|line: Seq<char>| reading_laws::server_in(line))
}

// ---------------------------------------------------------------------------
// Snapshots
// ---------------------------------------------------------------------------

/// Whether a service is listed for the last time.
pub open spec fn last_named(names: Seq<Seq<char>>, k: int) -> bool {
    forall|m: int| k < m < names.len() ==> #[trigger] names[m] != names[k]
}

/// What a snapshot holds of a service, given the output on its servers.
pub open spec fn kept_servers(out: CommandOutputView, tunnel_dns: Seq<Seq<char>>) -> Seq<Seq<char>> {
    named_servers(out).filter(|x: Seq<char>| !tunnel_dns.contains(x))
}

/// What a snapshot holds of the services asked from one on.
#[verifier::rlimit(40)]
proof fn lemma_capture(
    s: SessionView,
    names: Seq<Seq<char>>,
    tunnel_dns: Seq<Seq<char>>,
    i: int,
    snapshot: Snapshot,
    outs: Seq<CommandOutputView>,
)
    requires
        0 <= i <= names.len(),
        outs.len() == names.len(),
        s.asked.len() >= i,
        outputs_follow(s, s.asked.len() - i, outs),
        order::keys_ordered(snapshot),
    ensures
        ({
            let (t, taken) = capture_from(s, names, tunnel_dns, i, snapshot);
            &&& t.replies == s.replies
            &&& t.asked == s.asked + Seq::new(
                (names.len() - i) as nat,
                |k: int| servers_command(names[i + k]),
            )
            &&& taken matches Some(Some(snap))
            &&& order::keys_ordered(snap)
            &&& forall|k: int|
                i <= k < names.len() && #[trigger] last_named(names, k) ==> order::lookup(
                    snap,
                    names[k],
                ) == Some(kept_servers(outs[k], tunnel_dns))
            &&& forall|x: Seq<char>|
                (forall|k: int| i <= k < names.len() ==> #[trigger] names[k] != x)
                    ==> #[trigger] order::lookup(snap, x) == order::lookup(snapshot, x)
        }),
    decreases names.len() - i,
{
    let asks = Seq::new((names.len() - i) as nat, |k: int| servers_command(names[i + k]));
    if i < names.len() {
        let out = outs[i];
        law_reading_dns(s, names[i]);
        let t = reading_dns(s, names[i]).0;
        let list = servers_in(text::lines(out.stdout));
        reading_laws::law_servers(text::lines(out.stdout));
        reading_laws::law_without(list, tunnel_dns);
        let clean = crate::dns::without(list, tunnel_dns);
        order::lemma_put(snapshot, names[i], clean);
        let next = order::put(snapshot, names[i], clean);
        lemma_capture(t, names, tunnel_dns, i + 1, next, outs);
        let asks1 = Seq::new(
            (names.len() - i - 1) as nat,
            |k: int| servers_command(names[i + 1 + k]),
        );
        assert(s.asked + asks =~= t.asked + asks1);
        let snap = capture_from(s, names, tunnel_dns, i, snapshot).1->0->0;
        assert forall|k: int|
            i <= k < names.len() && #[trigger] last_named(names, k) implies order::lookup(
            snap,
            names[k],
        ) == Some(kept_servers(outs[k], tunnel_dns)) by {
            if k == i {
                assert(clean == kept_servers(out, tunnel_dns));
                assert(order::lookup(snap, names[i]) == order::lookup(next, names[i]));
            }
        }
        assert forall|x: Seq<char>|
            (forall|k: int|
                i <= k < names.len() ==> #[trigger] names[k] != x) implies #[trigger] order::lookup(
            snap,
            x,
        ) == order::lookup(snapshot, x) by {
            assert(names[i] != x);
            assert(order::lookup(snap, x) == order::lookup(next, x));
        }
    } else {
        assert(s.asked + asks =~= s.asked);
    }
}

/// A snapshot holds of every service that is listed all the servers that its output
/// names, in order, but for the tunnel's own; and it holds no other services. The
/// services are asked for once and each of them once. (A name that is listed twice has
/// the servers of its last line.)
pub proof fn law_capture(
    s: SessionView,
    tunnel_dns: Seq<Seq<char>>,
    listed: CommandOutputView,
    outs: Seq<CommandOutputView>,
)
    requires
        s.asked.len() < s.replies.len(),
        s.replies[s.asked.len() as int] == ReplyView::Ran(Ok(listed)),
        listed.code == Some(0i32),
        outs.len() == services(listed.stdout).len(),
        outputs_follow(s, s.asked.len() as int + 1, outs),
    ensures
        ({
            let names = services(listed.stdout);
            let (t, taken) = capturing(s, tunnel_dns);
            &&& t.asked == s.asked + seq![list_command()] + names.map_values(
                |x: Seq<char>| servers_command(x),
            )
            &&& taken matches Some(Some(snap))
            &&& order::keys_ordered(snap)
            &&& forall|k: int|
                0 <= k < names.len() && #[trigger] last_named(names, k) ==> order::lookup(
                    snap,
                    names[k],
                ) == Some(kept_servers(outs[k], tunnel_dns))
            &&& forall|x: Seq<char>| !names.contains(x) ==> #[trigger] order::lookup(snap, x) is None
        }),
{
    law_listing_services(s);
    let names = services(listed.stdout);
    let s1 = listing_services(s).0;
    lemma_capture(s1, names, tunnel_dns, 0, Seq::empty(), outs);
    let asks = Seq::new(names.len(), |k: int| servers_command(names[0 + k]));
    assert(s1.asked + asks =~= s.asked + seq![list_command()] + names.map_values(
        |x: Seq<char>| servers_command(x),
    ));
    let snap = capturing(s, tunnel_dns).1->0->0;
    assert forall|x: Seq<char>| !names.contains(x) implies #[trigger] order::lookup(
        snap,
        x,
    ) is None by {
        assert forall|k: int| 0 <= k < names.len() implies #[trigger] names[k] != x by {
            assert(names.contains(names[k]));
        }
        assert(order::lookup(Seq::<(Seq<char>, Seq<Seq<char>>)>::empty(), x) is None);
    }
}

/// Nothing is lost: every line that names a server, unless it is one of the tunnel's
/// own, is in the snapshot of the service that it was read of, however many there are;
/// and nothing else is.
pub proof fn law_capture_keeps_every_server(
    s: SessionView,
    tunnel_dns: Seq<Seq<char>>,
    listed: CommandOutputView,
    outs: Seq<CommandOutputView>,
    k: int,
    server: Seq<char>,
)
    requires
        s.asked.len() < s.replies.len(),
        s.replies[s.asked.len() as int] == ReplyView::Ran(Ok(listed)),
        listed.code == Some(0i32),
        outs.len() == services(listed.stdout).len(),
        outputs_follow(s, s.asked.len() as int + 1, outs),
        0 <= k < outs.len(),
        last_named(services(listed.stdout), k),
    ensures
        ({
            let lines = text::lines(outs[k].stdout);
            &&& capturing(s, tunnel_dns).1 matches Some(Some(snap))
            &&& order::lookup(snap, services(listed.stdout)[k]) matches Some(kept)
            &&& kept.contains(server) <==> !tunnel_dns.contains(server) && exists|i: int|
                0 <= i < lines.len() && reading_laws::server_in(#[trigger] lines[i]) == Some(server)
        }),
{
    law_capture(s, tunnel_dns, listed, outs);
    let lines = text::lines(outs[k].stdout);
    let list = servers_in(lines);
    reading_laws::law_servers(lines);
    reading_laws::law_without(list, tunnel_dns);
    lemma_without(list, tunnel_dns, server);
    lemma_server_of_line(lines, server);
    if exists|i: int|
        0 <= i < lines.len() && reading_laws::server_in(#[trigger] lines[i]) == Some(server) {
        let i = choose|i: int|
            0 <= i < lines.len() && reading_laws::server_in(#[trigger] lines[i]) == Some(server);
        assert(list.contains(text::trim(lines[i])));
    }
}

/// What is left without some servers.
proof fn lemma_without(a: Seq<Seq<char>>, b: Seq<Seq<char>>, x: Seq<char>)
    ensures
        crate::dns::without(a, b).contains(x) <==> a.contains(x) && !b.contains(x),
    decreases a.len(),
{
    if a.len() > 0 {
        let t = a.drop_last();
        lemma_without(t, b, x);
        let before = crate::dns::without(t, b);
        let after = crate::dns::without(a, b);
        assert(a[a.len() - 1] == a.last());
        if before.contains(x) {
            let i = choose|i: int| 0 <= i < before.len() && before[i] == x;
            assert(after[i] == x);
            let j = choose|j: int| 0 <= j < t.len() && t[j] == x;
            assert(a[j] == x);
        }
        if !b.contains(a.last()) {
            assert(after[before.len() as int] == a.last());
        }
        if after.contains(x) && x != a.last() {
            let i = choose|i: int| 0 <= i < after.len() && after[i] == x;
            assert(before[i] == x);
        }
        if a.contains(x) && x != a.last() {
            let j = choose|j: int| 0 <= j < a.len() && a[j] == x;
            assert(t[j] == x);
        }
    }
}

/// Every server was named by a line.
proof fn lemma_server_of_line(lines: Seq<Seq<char>>, x: Seq<char>)
    ensures
        servers_in(lines).contains(x) ==> exists|i: int|
            0 <= i < lines.len() && reading_laws::server_in(#[trigger] lines[i]) == Some(x),
    decreases lines.len(),
{
    if lines.len() > 0 && servers_in(lines).contains(x) {
        let t = lines.drop_last();
        lemma_server_of_line(t, x);
        let all = servers_in(lines);
        let k = choose|k: int| 0 <= k < all.len() && all[k] == x;
        if k < servers_in(t).len() {
            assert(servers_in(t)[k] == x);
            let i = choose|i: int|
                0 <= i < t.len() && reading_laws::server_in(#[trigger] t[i]) == Some(x);
            assert(lines[i] == t[i]);
        } else {
            assert(reading_laws::server_in(lines[lines.len() - 1]) == Some(x));
        }
    }
}

/// Where the services cannot be listed there is no snapshot, and nothing more is asked.
pub proof fn law_no_capture(s: SessionView, tunnel_dns: Seq<Seq<char>>)
    requires
        s.asked.len() < s.replies.len(),
        s.replies[s.asked.len() as int] matches ReplyView::Ran(r) && !(r matches Ok(out)
            && out.code == Some(0i32)),
    ensures
        capturing(s, tunnel_dns).0.asked == s.asked.push(list_command()),
        capturing(s, tunnel_dns).1 == Some(None::<Snapshot>),
        finding_stale(s, tunnel_dns).0.asked == s.asked.push(list_command()),
        finding_stale(s, tunnel_dns).1 == Some(None::<Seq<Seq<char>>>),
{
    law_listing_services(s);
}

// ---------------------------------------------------------------------------
// Stale services
// ---------------------------------------------------------------------------

/// Whether an output names one of the tunnel's servers.
pub open spec fn names_one(out: CommandOutputView, tunnel_dns: Seq<Seq<char>>) -> bool {
    exists|server: Seq<char>|
        tunnel_dns.contains(server) && #[trigger] named_servers(out).contains(server)
}

/// What is found stale among the services asked from one on.
proof fn lemma_stale(
    s: SessionView,
    names: Seq<Seq<char>>,
    tunnel_dns: Seq<Seq<char>>,
    i: int,
    stale: Seq<Seq<char>>,
    outs: Seq<CommandOutputView>,
)
    requires
        0 <= i <= names.len(),
        outs.len() == names.len(),
        s.asked.len() >= i,
        outputs_follow(s, s.asked.len() - i, outs),
        stale == Seq::new(i as nat, |k: int| k).filter_map(
            |k: int|
                if names_one(outs[k], tunnel_dns) {
                    Some(names[k])
                } else {
                    None
                },
        ),
    ensures
        ({
            let (t, found) = stale_from(s, names, tunnel_dns, i, stale);
            &&& t.replies == s.replies
            &&& t.asked == s.asked + Seq::new(
                (names.len() - i) as nat,
                |k: int| servers_command(names[i + k]),
            )
            &&& found matches Some(Some(all)) && all == Seq::new(names.len(), |k: int| k).filter_map(
                |k: int|
                    if names_one(outs[k], tunnel_dns) {
                        Some(names[k])
                    } else {
                        None
                    },
            )
        }),
    decreases names.len() - i,
{
    let asks = Seq::new((names.len() - i) as nat, |k: int| servers_command(names[i + k]));
    if i < names.len() {
        let out = outs[i];
        law_reading_dns(s, names[i]);
        let t = reading_dns(s, names[i]).0;
        let list = servers_in(text::lines(out.stdout));
        reading_laws::law_servers(text::lines(out.stdout));
        if any_of(list, tunnel_dns) {
            let k = choose|k: int| 0 <= k < list.len() && tunnel_dns.contains(#[trigger] list[k]);
            assert(named_servers(out).contains(list[k]));
        }
        if names_one(out, tunnel_dns) {
            let x = choose|x: Seq<char>|
                tunnel_dns.contains(x) && #[trigger] named_servers(out).contains(x);
            let k = choose|k: int| 0 <= k < list.len() && list[k] == x;
            assert(tunnel_dns.contains(list[k]));
        }
        let next = if any_of(list, tunnel_dns) {
            stale.push(names[i])
        } else {
            stale
        };
        let all = Seq::new((i + 1) as nat, |k: int| k);
        assert(all.drop_last() =~= Seq::new(i as nat, |k: int| k));
        assert(all.last() == i);
        assert(next =~= all.filter_map(
            |k: int|
                if names_one(outs[k], tunnel_dns) {
                    Some(names[k])
                } else {
                    None
                },
        ));
        lemma_stale(t, names, tunnel_dns, i + 1, next, outs);
        let asks1 = Seq::new(
            (names.len() - i - 1) as nat,
            |k: int| servers_command(names[i + 1 + k]),
        );
        assert(s.asked + asks =~= t.asked + asks1);
    } else {
        assert(s.asked + asks =~= s.asked);
    }
}

/// The stale services are all those whose output names one of the tunnel's servers, in
/// the order of the list. The services are asked for once and each of them once.
pub proof fn law_stale(
    s: SessionView,
    tunnel_dns: Seq<Seq<char>>,
    listed: CommandOutputView,
    outs: Seq<CommandOutputView>,
)
    requires
        s.asked.len() < s.replies.len(),
        s.replies[s.asked.len() as int] == ReplyView::Ran(Ok(listed)),
        listed.code == Some(0i32),
        outs.len() == services(listed.stdout).len(),
        outputs_follow(s, s.asked.len() as int + 1, outs),
    ensures
        ({
            let names = services(listed.stdout);
            let (t, found) = finding_stale(s, tunnel_dns);
            &&& t.asked == s.asked + seq![list_command()] + names.map_values(
                |x: Seq<char>| servers_command(x),
            )
            &&& found matches Some(Some(all)) && all == Seq::new(names.len(), |k: int| k).filter_map(
                |k: int|
                    if names_one(outs[k], tunnel_dns) {
                        Some(names[k])
                    } else {
                        None
                    },
            )
        }),
{
    law_listing_services(s);
    let names = services(listed.stdout);
    let s1 = listing_services(s).0;
    let f = |k: int|
        if names_one(outs[k], tunnel_dns) {
            Some(names[k])
        } else {
            None
        };
    assert(Seq::new(0, |k: int| k) =~= Seq::<int>::empty());
    assert(Seq::<int>::empty().filter_map(f) =~= Seq::<Seq<char>>::empty());
    lemma_stale(s1, names, tunnel_dns, 0, Seq::empty(), outs);
    let asks = Seq::new(names.len(), |k: int| servers_command(names[0 + k]));
    assert(s1.asked + asks =~= s.asked + seq![list_command()] + names.map_values(
        |x: Seq<char>| servers_command(x),
    ));
}

// ---------------------------------------------------------------------------
// Setting services
// ---------------------------------------------------------------------------

/// Every stale service is set to DHCP, one after the other; those where that worked are
/// reported, and of a failure the command to run by hand.
pub proof fn law_reset(
    s: SessionView,
    stale: Seq<Seq<char>>,
    i: int,
    cleared: Seq<Seq<char>>,
    warning: Option<Seq<char>>,
    outs: Seq<CommandOutputView>,
)
    requires
        0 <= i <= stale.len(),
        outs.len() == stale.len(),
        s.asked.len() >= i,
        outputs_follow(s, s.asked.len() - i, outs),
        order::strictly_ordered(cleared),
    ensures
        ({
            let (t, done) = reset_from(s, stale, i, cleared, warning);
            &&& t.replies == s.replies
            &&& t.asked == s.asked + Seq::new(
                (stale.len() - i) as nat,
                |k: int| set_command(stale[i + k], Seq::empty()),
            )
            &&& done matches Some(outcome)
            &&& order::strictly_ordered(outcome.cleared)
            &&& forall|x: Seq<char>| #[trigger]
                outcome.cleared.contains(x) <==> cleared.contains(x) || exists|k: int|
                    i <= k < stale.len() && #[trigger] stale[k] == x && outs[k].code == Some(0i32)
            &&& (forall|k: int| i <= k < stale.len() ==> (#[trigger] outs[k]).code == Some(0i32))
                ==> outcome.warning == warning
            &&& forall|k: int|
                i <= k < stale.len() && (#[trigger] outs[k]).code != Some(0i32) && (forall|m: int|
                    k < m < stale.len() ==> (#[trigger] outs[m]).code == Some(0i32))
                    ==> outcome.warning == Some(
                    "could not reset DNS on '"@ + stale[k]
                        + "' — run: networksetup -setdnsservers '"@ + stale[k] + "' Empty"@,
                )
        }),
    decreases stale.len() - i,
{
    let none = Seq::<Seq<char>>::empty();
    let asks = Seq::new((stale.len() - i) as nat, |k: int| set_command(stale[i + k], none));
    if i < stale.len() {
        let out = outs[i];
        law_setting_dns(s, stale[i], none);
        let t = setting_dns(s, stale[i], none).0;
        let ok = out.code == Some(0i32);
        let next = if ok {
            order::with_text(cleared, stale[i])
        } else {
            cleared
        };
        order::lemma_with_text(cleared, stale[i]);
        let said = if ok {
            warning
        } else {
            Some(crate::dns::reset_warning(stale[i]))
        };
        law_reset(t, stale, i + 1, next, said, outs);
        let asks1 = Seq::new(
            (stale.len() - i - 1) as nat,
            |k: int| set_command(stale[i + 1 + k], none),
        );
        assert(s.asked + asks =~= t.asked + asks1);
        let outcome = reset_from(s, stale, i, cleared, warning).1->0;
        assert forall|x: Seq<char>| #[trigger]
            outcome.cleared.contains(x) <==> cleared.contains(x) || exists|k: int|
                i <= k < stale.len() && #[trigger] stale[k] == x && outs[k].code == Some(0i32) by {
            if cleared.contains(x) || (ok && x == stale[i]) {
                assert(next.contains(x));
            }
        }
        if !ok {
            assert(outs[i].code != Some(0i32));
        }
    } else {
        assert(s.asked + asks =~= s.asked);
    }
}

/// Every service of a snapshot is set to its servers, one after the other; those where
/// that worked are reported, and of a failure the command to run by hand.
pub proof fn law_reapply(
    s: SessionView,
    snapshot: Snapshot,
    i: int,
    restored: Seq<Seq<char>>,
    warning: Option<Seq<char>>,
    outs: Seq<CommandOutputView>,
)
    requires
        0 <= i <= snapshot.len(),
        outs.len() == snapshot.len(),
        s.asked.len() >= i,
        outputs_follow(s, s.asked.len() - i, outs),
        order::strictly_ordered(restored),
    ensures
        ({
            let (t, done) = reapply_from(s, snapshot, i, restored, warning);
            &&& t.replies == s.replies
            &&& t.asked == s.asked + Seq::new(
                (snapshot.len() - i) as nat,
                |k: int| set_command(snapshot[i + k].0, snapshot[i + k].1),
            )
            &&& done matches Some(outcome)
            &&& order::strictly_ordered(outcome.cleared)
            &&& forall|x: Seq<char>| #[trigger]
                outcome.cleared.contains(x) <==> restored.contains(x) || exists|k: int|
                    i <= k < snapshot.len() && (#[trigger] snapshot[k]).0 == x && outs[k].code
                        == Some(0i32)
            &&& (forall|k: int| i <= k < snapshot.len() ==> (#[trigger] outs[k]).code == Some(0i32))
                ==> outcome.warning == warning
            &&& forall|k: int|
                i <= k < snapshot.len() && (#[trigger] outs[k]).code != Some(0i32) && (forall|m: int|
                    k < m < snapshot.len() ==> (#[trigger] outs[m]).code == Some(0i32))
                    ==> outcome.warning == Some(
                    "could not restore DNS on '"@ + snapshot[k].0
                        + "' — run: networksetup -setdnsservers '"@ + snapshot[k].0 + "' "@ + (
                    if snapshot[k].1.len() == 0 {
                        "Empty"@
                    } else {
                        text::join(snapshot[k].1, " "@)
                    }),
                )
        }),
    decreases snapshot.len() - i,
{
    let asks = Seq::new(
        (snapshot.len() - i) as nat,
        |k: int| set_command(snapshot[i + k].0, snapshot[i + k].1),
    );
    if i < snapshot.len() {
        let out = outs[i];
        let (service, servers) = snapshot[i];
        law_setting_dns(s, service, servers);
        let t = setting_dns(s, service, servers).0;
        let ok = out.code == Some(0i32);
        let next = if ok {
            order::with_text(restored, service)
        } else {
            restored
        };
        order::lemma_with_text(restored, service);
        let said = if ok {
            warning
        } else {
            Some(crate::dns::restore_warning(service, servers))
        };
        law_reapply(t, snapshot, i + 1, next, said, outs);
        let asks1 = Seq::new(
            (snapshot.len() - i - 1) as nat,
            |k: int| set_command(snapshot[i + 1 + k].0, snapshot[i + 1 + k].1),
        );
        assert(s.asked + asks =~= t.asked + asks1);
        let outcome = reapply_from(s, snapshot, i, restored, warning).1->0;
        assert forall|x: Seq<char>| #[trigger]
            outcome.cleared.contains(x) <==> restored.contains(x) || exists|k: int|
                i <= k < snapshot.len() && (#[trigger] snapshot[k]).0 == x && outs[k].code == Some(
                    0i32,
                ) by {
            if restored.contains(x) || (ok && x == snapshot[i].0) {
                assert(next.contains(x));
            }
        }
        if !ok {
            assert(outs[i].code != Some(0i32));
        }
    } else {
        assert(s.asked + asks =~= s.asked);
    }
}

/// Restoring sets the services of the snapshot and lets the guard run behind that; the
/// report is of both, and a warning of the guard comes first.
pub proof fn law_restoring(
    s: SessionView,
    snapshot: Snapshot,
    tunnel_dns: Seq<Seq<char>>,
    delays: Seq<u64>,
    restored: GuardOutcomeView,
    guarded: GuardOutcomeView,
)
    requires
        reapply_from(s, snapshot, 0, Seq::empty(), None).1 == Some(restored),
        guarding(reapply_from(s, snapshot, 0, Seq::empty(), None).0, tunnel_dns, delays).1 == Some(
            guarded,
        ),
    ensures
        ({
            let (t, done) = restoring(s, snapshot, tunnel_dns, delays);
            &&& t == guarding(
                reapply_from(s, snapshot, 0, Seq::empty(), None).0,
                tunnel_dns,
                delays,
            ).0
            &&& done matches Some(outcome)
            &&& order::strictly_ordered(outcome.cleared)
            &&& forall|x: Seq<char>| #[trigger]
                outcome.cleared.contains(x) <==> guarded.cleared.contains(x)
                    || restored.cleared.contains(x)
            &&& guarded.warning is Some ==> outcome.warning == guarded.warning
            &&& guarded.warning is None ==> outcome.warning == restored.warning
        }),
{
    let both = guarded.cleared + restored.cleared;
    order::lemma_text_set(both);
    assert forall|x: Seq<char>| #[trigger] both.contains(x) <==> guarded.cleared.contains(x)
        || restored.cleared.contains(x) by {
        if guarded.cleared.contains(x) {
            let k = choose|k: int| 0 <= k < guarded.cleared.len() && guarded.cleared[k] == x;
            assert(both[k] == x);
        }
        if restored.cleared.contains(x) {
            let k = choose|k: int| 0 <= k < restored.cleared.len() && restored.cleared[k] == x;
            assert(both[guarded.cleared.len() + k] == x);
        }
    }
    let outcome = restore_report(restored, guarded);
    assert forall|x: Seq<char>| #[trigger]
        outcome.cleared.contains(x) <==> guarded.cleared.contains(x) || restored.cleared.contains(
            x,
        ) by {
        assert(both.contains(x) <==> order::text_set(both).contains(x));
    }
}

// ---------------------------------------------------------------------------
// Sweeps
// ---------------------------------------------------------------------------

/// Before a sweep its delay is waited for, unless it is none.
pub proof fn law_sweep_waits(s: SessionView, tunnel_dns: Seq<Seq<char>>, delay: u64)
    ensures
        delay == 0 ==> sweeping(s, tunnel_dns, delay) == finding_stale(s, tunnel_dns),
        delay > 0 && s.asked.len() < s.replies.len() && s.replies[s.asked.len() as int]
            == ReplyView::Slept ==> sweeping(s, tunnel_dns, delay) == finding_stale(
            SessionView { asked: s.asked.push(ActionView::Sleep(delay)), ..s },
            tunnel_dns,
        ),
{
}

/// A sweep that finds services still pinned resets them, and the next sweep follows
/// with its own delay, however often that happens; a sweep that finds none is followed
/// by another one, and by none if the one before found none either; where the services
/// cannot be listed any more, the guard stops with what it did; and at the end of the
/// schedule it warns exactly if the last sweep found one and nothing else was warned of.
pub proof fn law_sweeps(
    s: SessionView,
    tunnel_dns: Seq<Seq<char>>,
    delays: Seq<u64>,
    i: int,
    done: GuardOutcomeView,
    clean: bool,
    dirty: bool,
)
    requires
        0 <= i <= delays.len(),
    ensures
        ({
            let from_here = sweep_from(s, tunnel_dns, delays, i, done, clean, dirty);
            if i == delays.len() {
                from_here == (
                    s,
                    Some(
                        GuardOutcomeView {
                            cleared: done.cleared,
                            warning: if dirty && done.warning is None {
                                Some(
                                    "stale VPN DNS kept reappearing after the final sweep — a lingering wg-quick monitor may still be restoring it; re-run `vpn down` to repair"@,
                                )
                            } else {
                                done.warning
                            },
                        },
                    ),
                )
            } else {
                let (t, found) = sweeping(s, tunnel_dns, delays[i]);
                match found {
                    None => from_here == (t, None::<GuardOutcomeView>),
                    Some(None) => from_here == (t, Some(done)),
                    Some(Some(stale)) => if stale.len() > 0 {
                        let (u, reset) = reset_from(t, stale, 0, done.cleared, done.warning);
                        match reset {
                            None => from_here == (u, None::<GuardOutcomeView>),
                            Some(more) => from_here == sweep_from(
                                u,
                                tunnel_dns,
                                delays,
                                i + 1,
                                more,
                                false,
                                true,
                            ),
                        }
                    } else if clean {
                        from_here == (t, Some(done))
                    } else {
                        from_here == sweep_from(t, tunnel_dns, delays, i + 1, done, true, false)
                    },
                }
            }
        }),
{
    assert(done =~= GuardOutcomeView { cleared: done.cleared, warning: done.warning });
}

/// The guard begins with the first sweep and nothing done.
pub proof fn law_guarding(s: SessionView, tunnel_dns: Seq<Seq<char>>, delays: Seq<u64>)
    ensures
        tunnel_dns.len() > 0 ==> guarding(s, tunnel_dns, delays) == sweep_from(
            s,
            tunnel_dns,
            delays,
            0,
            GuardOutcomeView { cleared: Seq::empty(), warning: None },
            false,
            false,
        ),
        tunnel_dns.len() == 0 ==> guarding(s, tunnel_dns, delays).0 == s && (guarding(
            s,
            tunnel_dns,
            delays,
        ).1 matches Some(done) && done.cleared.len() == 0 && done.warning is None),
{
}

/// What is said of the guard: which services were cleared, and the warning; nothing
/// exactly where there is neither.
pub proof fn law_note(done: GuardOutcomeView)
    ensures
        done.note() is None <==> done.cleared.len() == 0 && done.warning is None,
        done.cleared.len() > 0 && done.warning is None ==> done.note() == Some(
            "cleared stale VPN DNS from "@ + text::join(done.cleared, ", "@),
        ),
        done.cleared.len() == 0 ==> done.note() == done.warning,
        done.cleared.len() > 0 ==> (done.warning matches Some(w) ==> done.note() == Some(
            "cleared stale VPN DNS from "@ + text::join(done.cleared, ", "@) + "; "@ + w,
        )),
{
    let none = Seq::<Seq<char>>::empty();
    let said = "cleared stale VPN DNS from "@ + text::join(done.cleared, ", "@);
    if done.cleared.len() > 0 {
        if let Some(w) = done.warning {
            crate::text_laws::law_join(seq![said], seq![w], "; "@);
        } else {
            assert(seq![said] + none =~= seq![said]);
        }
        crate::text_laws::law_join(seq![said], none, "; "@);
    } else if let Some(w) = done.warning {
        assert(none + seq![w] =~= seq![w]);
        crate::text_laws::law_join(seq![w], none, "; "@);
    }
}

} // verus!
