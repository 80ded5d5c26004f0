//! What is left over on the host, what is done about it, and what is said of it.
use vstd::prelude::*;

use super::live::finding_live;
use super::recovery::{
    claimed, collecting_from, config_from, interfaces, left_over, orphan_issue, orphans,
    reading_route, route_interface, route_line, stale_issue, torn_down, with_new,
};
use super::{BackendView, HealthIssueView, RecoveredView};
use crate::config;
use crate::config::TunnelView;
use crate::dns;
use crate::order;
use crate::session::{ActionView, ReplyView, SessionView};
use crate::state;
use crate::state::JournalView;
use crate::status::DumpPeerView;
use crate::text;
use crate::text_laws;

verus! {

// ---------------------------------------------------------------------------
// Declared servers
// ---------------------------------------------------------------------------

/// New items come behind a list, in order, each once: the list stays as it is at the
/// beginning, and everything is there in the end.
pub proof fn law_with_new(list: Seq<Seq<char>>, items: Seq<Seq<char>>, n: nat)
    requires
        n <= items.len(),
    ensures
        ({
            let all = with_new(list, items, n);
            &&& all.len() >= list.len() && all.take(list.len() as int) == list
            &&& forall|x: Seq<char>| #[trigger]
                all.contains(x) <==> list.contains(x) || exists|k: int|
                    0 <= k < n && #[trigger] items[k] == x
            &&& list.no_duplicates() ==> all.no_duplicates()
            &&& n < items.len() && !all.contains(items[n as int]) ==> with_new(list, items, n + 1)
                == all.push(items[n as int])
            &&& n < items.len() && all.contains(items[n as int]) ==> with_new(list, items, n + 1)
                == all
        }),
    decreases n,
{
    let all = with_new(list, items, n);
    if n > 0 {
        let m = (n - 1) as nat;
        law_with_new(list, items, m);
        let before = with_new(list, items, m);
        let item = items[n - 1];
        assert(all.take(list.len() as int) =~= before.take(list.len() as int));
        assert forall|x: Seq<char>| #[trigger]
            all.contains(x) <==> list.contains(x) || exists|k: int|
                0 <= k < n && #[trigger] items[k] == x by {
            if before.contains(x) {
                let k = choose|k: int| 0 <= k < before.len() && before[k] == x;
                assert(all[k] == x);
            }
            if x == item {
                if !before.contains(item) {
                    assert(all[before.len() as int] == item);
                }
                assert(items[n - 1] == x);
            }
            if all.contains(x) && x != item {
                let k = choose|k: int| 0 <= k < all.len() && all[k] == x;
                assert(before[k] == x);
            }
        }
        if list.no_duplicates() && !before.contains(item) {
            assert forall|i: int, j: int| 0 <= i < all.len() && 0 <= j < all.len() && i
                != j implies all[i] != all[j] by {
                if i < before.len() {
                    assert(before.contains(before[i]));
                }
                if j < before.len() {
                    assert(before.contains(before[j]));
                }
            }
        }
    } else {
        assert(all.take(list.len() as int) =~= list);
    }
    if n < items.len() {
        assert((n + 1 - 1) as nat == n);
    }
}

/// The servers of all configs are collected, one config after the other; one that
/// cannot be read declares none.
pub proof fn law_collecting(
    s: SessionView,
    tunnels: Seq<TunnelView>,
    i: int,
    declared: Seq<Seq<char>>,
)
    requires
        0 <= i <= tunnels.len(),
    ensures
        i == tunnels.len() ==> collecting_from(s, tunnels, i, declared) == (s, Some(declared)),
        i < tunnels.len() ==> ({
            let (t, summed) = config::summarizing(s, tunnels[i].path);
            match summed {
                Some(Ok(v)) => collecting_from(s, tunnels, i, declared) == collecting_from(
                    t,
                    tunnels,
                    i + 1,
                    with_new(declared, v.dns_servers, v.dns_servers.len()),
                ),
                Some(Err(_)) => collecting_from(s, tunnels, i, declared) == collecting_from(
                    t,
                    tunnels,
                    i + 1,
                    declared,
                ),
                None => collecting_from(s, tunnels, i, declared).1 is None,
            }
        }),
{
}

/// The configs are those of the directory; where it cannot be listed there are none.
pub proof fn law_collecting_dns(b: BackendView, s: SessionView)
    ensures
        ({
            let (s1, found) = config::discovering(s, b.config_dir);
            match found {
                Some(Ok(tunnels)) => b.collecting_dns(s) == collecting_from(
                    s1,
                    tunnels,
                    0,
                    Seq::empty(),
                ) && b.discovering_any(s) == (s1, Some(tunnels)),
                Some(Err(_)) => b.discovering_any(s).0 == s1 && (b.discovering_any(s).1 matches Some(
                    none,
                ) && none.len() == 0) && b.collecting_dns(s).0 == s1 && (b.collecting_dns(
                    s,
                ).1 matches Some(none) && none.len() == 0),
                None => b.collecting_dns(s).1 is None && b.discovering_any(s).1 is None,
            }
        }),
{
}

// ---------------------------------------------------------------------------
// Orphans
// ---------------------------------------------------------------------------

/// The interfaces that journals claim are those that they name.
proof fn lemma_claimed(journals: Seq<JournalView>, x: Seq<char>)
    ensures
        claimed(journals).contains(x) <==> exists|i: int|
            0 <= i < journals.len() && (#[trigger] journals[i]).interface == Some(x),
    decreases journals.len(),
{
    if journals.len() > 0 {
        let t = journals.drop_last();
        lemma_claimed(t, x);
        let before = claimed(t);
        let after = claimed(journals);
        assert(journals[journals.len() - 1] == journals.last());
        if before.contains(x) {
            let i = choose|i: int| 0 <= i < t.len() && (#[trigger] t[i]).interface == Some(x);
            assert(journals[i] == t[i]);
            let k = choose|k: int| 0 <= k < before.len() && before[k] == x;
            assert(after[k] == x);
        }
        if journals.last().interface == Some(x) {
            assert(after[before.len() as int] == x);
        }
        if after.contains(x) && journals.last().interface != Some(x) {
            let k = choose|k: int| 0 <= k < after.len() && after[k] == x;
            assert(before[k] == x);
        }
        if exists|i: int| 0 <= i < journals.len() && (#[trigger] journals[i]).interface == Some(x) {
            let i = choose|i: int|
                0 <= i < journals.len() && (#[trigger] journals[i]).interface == Some(x);
            if i < t.len() {
                assert(t[i] == journals[i]);
            }
        }
    }
}

/// An interface is an orphan exactly if a live peer is on it and no journal claims it;
/// each is listed once, in order.
pub proof fn law_orphans(dump: Seq<DumpPeerView>, journals: Seq<JournalView>, x: Seq<char>)
    ensures
        order::strictly_ordered(orphans(dump, journals)),
        orphans(dump, journals).contains(x) <==> {
            &&& exists|i: int| 0 <= i < dump.len() && (#[trigger] dump[i]).interface == x
            &&& forall|i: int|
                0 <= i < journals.len() ==> (#[trigger] journals[i]).interface != Some(x)
        },
        order::strictly_ordered(order::text_set(interfaces(dump))),
        order::text_set(interfaces(dump)).contains(x) <==> exists|i: int|
            0 <= i < dump.len() && (#[trigger] dump[i]).interface == x,
{
    let all = interfaces(dump);
    let left = dns::without(all, claimed(journals));
    order::lemma_text_set(left);
    order::lemma_text_set(all);
    lemma_claimed(journals, x);
    if all.contains(x) {
        let k = choose|k: int| 0 <= k < all.len() && all[k] == x;
        assert(dump[k].interface == x);
    }
    if exists|i: int| 0 <= i < dump.len() && (#[trigger] dump[i]).interface == x {
        let i = choose|i: int| 0 <= i < dump.len() && (#[trigger] dump[i]).interface == x;
        assert(all[i] == x);
    }
    lemma_without(all, claimed(journals), x);
}

/// What is left without some texts.
proof fn lemma_without(a: Seq<Seq<char>>, b: Seq<Seq<char>>, x: Seq<char>)
    ensures
        dns::without(a, b).contains(x) <==> a.contains(x) && !b.contains(x),
    decreases a.len(),
{
    if a.len() > 0 {
        let t = a.drop_last();
        lemma_without(t, b, x);
        let before = dns::without(t, b);
        let after = dns::without(a, b);
        assert(a[a.len() - 1] == a.last());
        if before.contains(x) {
            let k = choose|k: int| 0 <= k < before.len() && before[k] == x;
            assert(after[k] == x);
            let i = choose|i: int| 0 <= i < t.len() && t[i] == x;
            assert(a[i] == x);
        }
        if !b.contains(a.last()) {
            assert(after[before.len() as int] == a.last());
        }
        if after.contains(x) && x != a.last() {
            let k = choose|k: int| 0 <= k < after.len() && after[k] == x;
            assert(before[k] == x);
        }
        if a.contains(x) && x != a.last() {
            let i = choose|i: int| 0 <= i < a.len() && a[i] == x;
            assert(t[i] == x);
        }
    }
}

/// The config of an interface is the first one whose live peer is on it; a config that
/// cannot be read is passed over.
pub proof fn law_config_of_interface(
    b: BackendView,
    s: SessionView,
    tunnels: Seq<TunnelView>,
    dump: Seq<DumpPeerView>,
    iface: Seq<char>,
    i: int,
)
    requires
        0 <= i <= tunnels.len(),
    ensures
        i == tunnels.len() ==> config_from(s, tunnels, dump, iface, i) == (
            s,
            Some(None::<TunnelView>),
        ),
        i < tunnels.len() ==> ({
            let (t, live) = finding_live(s, tunnels[i], dump);
            match live {
                None => config_from(s, tunnels, dump, iface, i).1 is None,
                Some(Ok(Some(row))) => config_from(s, tunnels, dump, iface, i) == if row.interface
                    == iface {
                    (t, Some(Some(tunnels[i])))
                } else {
                    config_from(t, tunnels, dump, iface, i + 1)
                },
                Some(_) => config_from(s, tunnels, dump, iface, i) == config_from(
                    t,
                    tunnels,
                    dump,
                    iface,
                    i + 1,
                ),
            }
        }),
        b.discovering_any(s).1 matches Some(all) ==> b.finding_config(s, iface, dump)
            == config_from(b.discovering_any(s).0, all, dump, iface, 0),
{
}

/// What is said of an orphan that was torn down, or not, and of one without a config.
pub proof fn law_orphan_reports(name: Seq<char>, iface: Seq<char>)
    ensures
        torn_down(name, iface, true) == (RecoveredView {
            tunnel: name,
            reason: "orphaned interface torn down"@,
            dns_cleared: Seq::empty(),
            dns_warning: None,
        }),
        torn_down(name, iface, false) == (RecoveredView {
            tunnel: name,
            reason: "orphaned interface "@ + iface + " — teardown failed"@,
            dns_cleared: Seq::empty(),
            dns_warning: None,
        }),
        left_over(iface) == (RecoveredView {
            tunnel: iface,
            reason: "orphaned interface "@ + iface
                + " with no matching config — remove it manually: wg-quick down <config> (or ifconfig "@
                + iface + " destroy)"@,
            dns_cleared: Seq::empty(),
            dns_warning: None,
        }),
{
}

/// An orphan is taken down by its config; without one it is left and reported. Every
/// orphan has one report.
pub proof fn law_tearing_down_orphans(
    b: BackendView,
    s: SessionView,
    list: Seq<Seq<char>>,
    dump: Seq<DumpPeerView>,
    i: int,
    recovered: Seq<RecoveredView>,
)
    requires
        0 <= i <= list.len(),
    ensures
        b.tearing_down_from(s, list, dump, i, recovered).1 matches Some(all) ==> all.len()
            == recovered.len() + list.len() - i && all.take(recovered.len() as int) == recovered,
        i == list.len() ==> b.tearing_down_from(s, list, dump, i, recovered) == (
            s,
            Some(recovered),
        ),
        i < list.len() ==> ({
            let (s1, found) = b.finding_config(s, list[i], dump);
            match found {
                None => b.tearing_down_from(s, list, dump, i, recovered).1 is None,
                Some(None) => b.tearing_down_from(s, list, dump, i, recovered)
                    == b.tearing_down_from(
                    s1,
                    list,
                    dump,
                    i + 1,
                    recovered.push(left_over(list[i])),
                ),
                Some(Some(tunnel)) => {
                    let (s2, downed) = b.quick(s1, "down"@, tunnel.path);
                    match downed {
                        None => b.tearing_down_from(s, list, dump, i, recovered).1 is None,
                        Some(r) => b.tearing_down_from(s, list, dump, i, recovered)
                            == b.tearing_down_from(
                            s2,
                            list,
                            dump,
                            i + 1,
                            recovered.push(torn_down(tunnel.name, list[i], r is Ok)),
                        ),
                    }
                },
            }
        }),
    decreases list.len() - i,
{
    if i < list.len() {
        let (t, one) = b.tearing_down_orphan(s, list[i], dump);
        if let Some(r) = one {
            let next = recovered.push(r);
            law_tearing_down_orphans(b, t, list, dump, i + 1, next);
            if let Some(all) = b.tearing_down_from(s, list, dump, i, recovered).1 {
                let n = recovered.len() as int;
                assert(all.take(n) =~= all.take(n + 1).take(n));
                assert(next.take(n) =~= recovered);
            }
        }
    } else {
        assert(recovered.take(recovered.len() as int) =~= recovered);
    }
}

/// Where configs declare servers and no tunnel is up, what is still pinned is cleared;
/// it is reported exactly if there was something to say.
pub proof fn law_mopping_up(b: BackendView, s: SessionView, recovered: Seq<RecoveredView>)
    ensures
        ({
            let (s1, collected) = b.collecting_dns(s);
            collected matches Some(declared) ==> {
                let (s2, active) = b.naming_active(s1);
                if declared.len() == 0 {
                    b.mopping_up(s, recovered) == (s1, Some(recovered))
                } else {
                    match active {
                        None => b.mopping_up(s, recovered).1 is None,
                        Some(Err(_)) => b.mopping_up(s, recovered) == (s2, Some(recovered)),
                        Some(Ok(names)) => if names.len() > 0 {
                            b.mopping_up(s, recovered) == (s2, Some(recovered))
                        } else {
                            let (s3, guarded) = dns::guarding(s2, declared, b.dns_sweeps);
                            guarded matches Some(guard) ==> b.mopping_up(s, recovered) == (
                                s3,
                                Some(
                                    if guard.cleared.len() == 0 && guard.warning is None {
                                        recovered
                                    } else {
                                        recovered.push(
                                            RecoveredView {
                                                tunnel: "(dns)"@,
                                                reason: "cleared residual VPN DNS"@,
                                                dns_cleared: guard.cleared,
                                                dns_warning: guard.warning,
                                            },
                                        )
                                    },
                                ),
                            )
                        },
                    }
                }
            }
        }),
{
}

/// Recovering is reconciling, tearing down the orphans of the dump, and mopping up.
pub proof fn law_recovering(b: BackendView, s: SessionView)
    ensures
        ({
            let (s1, reconciled) = b.reconciling(s);
            let (s2, dumped) = b.dumping(s1);
            let (s3, read) = state::reading_all(s2, b.config_dir);
            match (reconciled, dumped, read) {
                (Some(Ok(first)), Some(Ok(dump)), Some(journals)) => {
                    let (s4, torn) = b.tearing_down_from(
                        s3,
                        orphans(dump, journals),
                        dump,
                        0,
                        first,
                    );
                    torn matches Some(so_far) ==> {
                        let (s5, mopped) = b.mopping_up(s4, so_far);
                        &&& b.recovering(s).0 == s5
                        &&& mopped matches Some(all) ==> (b.recovering(s).1 matches Some(Ok(told))
                            && told == all)
                    }
                },
                (Some(Err(e)), _, _) => b.recovering(s).1 matches Some(Err(told)) && told == e,
                (Some(Ok(_)), Some(Err(e)), _) => b.recovering(s).1 matches Some(Err(told)) && told
                    == e,
                _ => b.recovering(s).1 is None,
            }
        }),
{
}

// ---------------------------------------------------------------------------
// Verifying
// ---------------------------------------------------------------------------

/// The interface in a line is what stands behind `interface:` at its beginning.
pub proof fn law_route_line(line: Seq<char>, rest: Seq<char>)
    ensures
        text::trim(line) == "interface:"@ + rest ==> route_line(line) == Some(text::trim(rest)),
        route_line(line) is Some ==> exists|r: Seq<char>|
            text::trim(line) == #[trigger] ("interface:"@ + r),
{
    text_laws::law_strip_prefix(text::trim(line), "interface:"@, rest);
    if let Some(r) = text::strip_prefix(text::trim(line), "interface:"@) {
        text_laws::law_strip_prefix(text::trim(line), "interface:"@, r);
    }
}

/// The default route goes over the interface of the first line that has one.
pub proof fn law_route_interface(lines: Seq<Seq<char>>)
    ensures
        match route_interface(lines) {
            Some(iface) => exists|i: int|
                0 <= i < lines.len() && route_line(#[trigger] lines[i]) == Some(iface)
                    && forall|j: int| 0 <= j < i ==> route_line(#[trigger] lines[j]) is None,
            None => forall|j: int| 0 <= j < lines.len() ==> route_line(#[trigger] lines[j]) is None,
        },
    decreases lines.len(),
{
    if lines.len() > 0 {
        let t = lines.drop_last();
        law_route_interface(t);
        match route_interface(t) {
            Some(iface) => {
                let i = choose|i: int|
                    0 <= i < t.len() && route_line(#[trigger] t[i]) == Some(iface) && forall|j: int|
                        0 <= j < i ==> route_line(#[trigger] t[j]) is None;
                assert(lines[i] == t[i]);
                assert forall|j: int| 0 <= j < i implies route_line(#[trigger] lines[j]) is None by {
                    assert(t[j] == lines[j]);
                }
            },
            None => {
                assert forall|j: int| 0 <= j < t.len() implies route_line(
                    #[trigger] lines[j],
                ) is None by {
                    assert(t[j] == lines[j]);
                }
                assert(lines[lines.len() - 1] == lines.last());
            },
        }
    }
}

/// The default route is asked for once; where that does not work there is none.
pub proof fn law_reading_route(s: SessionView)
    ensures
        ({
            let n = s.asked.len() as int;
            let (t, read) = reading_route(s);
            &&& t.replies == s.replies
            &&& t.asked == s.asked.push(
                ActionView::Run { program: "route"@, args: seq!["-n"@, "get"@, "default"@] },
            )
            &&& n < s.replies.len() ==> match s.replies[n] {
                ReplyView::Ran(Ok(out)) => if out.code == Some(0i32) {
                    read == Some(route_interface(text::lines(out.stdout)))
                } else {
                    read == Some(None::<Seq<char>>)
                },
                ReplyView::Ran(Err(_)) => read == Some(None::<Seq<char>>),
                _ => read is None,
            }
        }),
{
}

/// What is said of an interface without a config, and of stale servers.
pub proof fn law_issues(iface: Seq<char>, stale: Seq<Seq<char>>)
    ensures
        orphan_issue(iface, false) == (HealthIssueView {
            kind: "orphan"@,
            detail: "WireGuard interface "@ + iface
                + " is live but no config matches it"@ + " — run `vpn recover`"@,
        }),
        orphan_issue(iface, true) == (HealthIssueView {
            kind: "orphan"@,
            detail: "WireGuard interface "@ + iface + " is live but no config matches it"@
                + " and it holds the default route"@ + " — run `vpn recover`"@,
        }),
        stale_issue(stale) == (HealthIssueView {
            kind: "dns"@,
            detail: "stale VPN DNS pinned on "@ + text::join(stale, ", "@)
                + " — name resolution is broken; run `vpn recover`"@,
        }),
{
    reveal_strlit("");
    let head = "WireGuard interface "@ + iface + " is live but no config matches it"@;
    assert(head + ""@ =~= head);
}

/// Every interface without a config is an issue, in order, and no other is; whether it
/// holds the default route is said of it.
pub proof fn law_checking_interfaces(
    b: BackendView,
    s: SessionView,
    list: Seq<Seq<char>>,
    dump: Seq<DumpPeerView>,
    route: Option<Seq<char>>,
    i: int,
    issues: Seq<HealthIssueView>,
)
    requires
        0 <= i <= list.len(),
    ensures
        i == list.len() ==> b.checking_interfaces(s, list, dump, route, i, issues) == (
            s,
            Some(issues),
        ),
        i < list.len() ==> ({
            let (t, found) = b.finding_config(s, list[i], dump);
            match found {
                None => b.checking_interfaces(s, list, dump, route, i, issues).1 is None,
                Some(Some(_)) => b.checking_interfaces(s, list, dump, route, i, issues)
                    == b.checking_interfaces(t, list, dump, route, i + 1, issues),
                Some(None) => b.checking_interfaces(s, list, dump, route, i, issues)
                    == b.checking_interfaces(
                    t,
                    list,
                    dump,
                    route,
                    i + 1,
                    issues.push(orphan_issue(list[i], route == Some(list[i]))),
                ),
            }
        }),
{
}

/// Stale servers are an issue where no tunnel is up, or that cannot be found out, and
/// configs declare servers.
pub proof fn law_checking_stale(b: BackendView, s: SessionView, issues: Seq<HealthIssueView>)
    ensures
        ({
            let (s1, active) = b.naming_active(s);
            let (s2, collected) = b.collecting_dns(s1);
            let (t, done) = b.checking_stale(s, issues);
            match (active, collected) {
                (Some(found), Some(declared)) => if declared.len() == 0 || (found matches Ok(names)
                    && names.len() > 0) {
                    t == s2 && done == Some(issues)
                } else {
                    let (s3, looked) = dns::finding_stale(s2, declared);
                    &&& t == s3
                    &&& match looked {
                        None => done is None,
                        Some(None) => done == Some(issues),
                        Some(Some(stale)) => done == Some(
                            if stale.len() == 0 {
                                issues
                            } else {
                                issues.push(stale_issue(stale))
                            },
                        ),
                    }
                },
                _ => done is None,
            }
        }),
{
}

/// A host is healthy exactly if no interface is without a config and no server is
/// stale.
pub proof fn law_verifying(b: BackendView, s: SessionView)
    ensures
        ({
            let (s1, dumped) = b.dumping(s);
            match dumped {
                None => b.verifying(s).1 is None,
                Some(Err(e)) => b.verifying(s).1 matches Some(Err(told)) && told == e,
                Some(Ok(dump)) => {
                    let (s2, routed) = reading_route(s1);
                    routed matches Some(route) ==> {
                        let (s3, checked) = b.checking_interfaces(
                            s2,
                            order::text_set(interfaces(dump)),
                            dump,
                            route,
                            0,
                            Seq::empty(),
                        );
                        checked matches Some(found) ==> {
                            let (s4, all) = b.checking_stale(s3, found);
                            &&& b.verifying(s).0 == s4
                            &&& all matches Some(issues) ==> (b.verifying(s).1 matches Some(
                                Ok(health),
                            ) && health.issues == issues && (health.healthy <==> issues.len()
                                == 0))
                        }
                    }
                },
            }
        }),
{
}

} // verus!
