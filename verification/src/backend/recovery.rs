//! Recovering the host and asserting its health.
use vstd::prelude::*;

use super::live::{find_live, finding_live};
use super::{
    Backend, BackendView, HealthIssue, HealthIssueView, HealthReport, HealthReportView, Recovered,
    RecoveredView,
};
use crate::config;
use crate::config::{Tunnel, TunnelView};
use crate::dns;
use crate::error::{so_far, Error, ErrorView};
use crate::order;
use crate::session::{Session, SessionView, Step};
use crate::state;
use crate::state::{Journal, JournalView};
use crate::status::{DumpPeer, DumpPeerView};
use crate::text;

verus! {

/// The `route` binary (unprivileged; `route get` only reads the table).
pub const ROUTE: &'static str = "route";

// ---------------------------------------------------------------------------
// Declared DNS servers
// ---------------------------------------------------------------------------

/// `list` with the first `n` of `items` added that it does not hold yet.
pub open spec fn with_new(list: Seq<Seq<char>>, items: Seq<Seq<char>>, n: nat) -> Seq<Seq<char>>
    decreases n,
{
    if n == 0 {
        list
    } else {
        let before = with_new(list, items, (n - 1) as nat);
        if before.contains(items[n - 1]) {
            before
        } else {
            before.push(items[n - 1])
        }
    }
}

/// Add those of `items` that the list does not hold yet.
fn add_new(list: &mut Vec<String>, items: &Vec<String>)
    ensures
        final(list).deep_view() == with_new(
            old(list).deep_view(),
            items.deep_view(),
            items@.len(),
        ),
{
    let ghost start = list.deep_view();
    let ghost v = items.deep_view();
    let mut i: usize = 0;
    while i < items.len()
        invariant
            v == items.deep_view(),
            i <= items@.len(),
            list.deep_view() == with_new(start, v, i as nat),
        decreases items@.len() - i,
    {
        proof {
            assert(v[i as int] == items@[i as int]@);
        }
        if !order::has_text(list, &items[i]) {
            text::push_text(list, &items[i]);
        }
        i = i + 1;
    }
}

/// Reading the DNS servers that the configs of the tunnels from `i` on declare,
/// after those read already.
pub open spec fn collecting_from(
    s: SessionView,
    tunnels: Seq<TunnelView>,
    i: int,
    declared: Seq<Seq<char>>,
) -> Step<Seq<Seq<char>>>
    decreases tunnels.len() - i,
{
    if i >= tunnels.len() {
        (s, Some(declared))
    } else {
        let (s, summary) = config::summarizing(s, tunnels[i].path);
        match summary {
            None => (s, None),
            Some(Err(_)) => collecting_from(s, tunnels, i + 1, declared),
            Some(Ok(v)) => collecting_from(
                s,
                tunnels,
                i + 1,
                with_new(declared, v.dns_servers, v.dns_servers.len()),
            ),
        }
    }
}

impl BackendView {
    /// Listing the tunnels; where that fails there are none.
    pub open spec fn discovering_any(self, s: SessionView) -> Step<Seq<TunnelView>> {
        let (s, found) = config::discovering(s, self.config_dir);
        (
            s,
            match found {
                None => None,
                Some(Err(_)) => Some(Seq::empty()),
                Some(Ok(tunnels)) => Some(tunnels),
            },
        )
    }

    /// Reading every distinct `DNS` server declared across all discovered
    /// configs.
    pub open spec fn collecting_dns(self, s: SessionView) -> Step<Seq<Seq<char>>> {
        let (s, found) = self.discovering_any(s);
        match found {
            None => (s, None),
            Some(tunnels) => collecting_from(s, tunnels, 0, Seq::empty()),
        }
    }
}

// ---------------------------------------------------------------------------
// Interfaces and configs
// ---------------------------------------------------------------------------

/// The interfaces of the live peers.
pub open spec fn interfaces(dump: Seq<DumpPeerView>) -> Seq<Seq<char>> {
    dump.map_values(|d: DumpPeerView| d.interface)
}

/// The interfaces that the journals record.
pub open spec fn claimed(journals: Seq<JournalView>) -> Seq<Seq<char>>
    decreases journals.len(),
{
    if journals.len() == 0 {
        Seq::empty()
    } else {
        match journals.last().interface {
            Some(iface) => claimed(journals.drop_last()).push(iface),
            None => claimed(journals.drop_last()),
        }
    }
}

/// The live interfaces that no journal accounts for, in order, each once.
pub open spec fn orphans(dump: Seq<DumpPeerView>, journals: Seq<JournalView>) -> Seq<Seq<char>> {
    order::text_set(dns::without(interfaces(dump), claimed(journals)))
}

/// Looking for the tunnel that is live on an interface, among those from `i`
/// on.
pub open spec fn config_from(
    s: SessionView,
    tunnels: Seq<TunnelView>,
    dump: Seq<DumpPeerView>,
    iface: Seq<char>,
    i: int,
) -> Step<Option<TunnelView>>
    decreases tunnels.len() - i,
{
    if i >= tunnels.len() {
        (s, Some(None))
    } else {
        let (s, live) = finding_live(s, tunnels[i], dump);
        match live {
            None => (s, None),
            Some(found) => if found matches Ok(Some(hit)) && hit.interface == iface {
                (s, Some(Some(tunnels[i])))
            } else {
                config_from(s, tunnels, dump, iface, i + 1)
            },
        }
    }
}

impl BackendView {
    /// Looking for the tunnel that is live on an interface.
    pub open spec fn finding_config(
        self,
        s: SessionView,
        iface: Seq<char>,
        dump: Seq<DumpPeerView>,
    ) -> Step<Option<TunnelView>> {
        let (s, found) = self.discovering_any(s);
        match found {
            None => (s, None),
            Some(tunnels) => config_from(s, tunnels, dump, iface, 0),
        }
    }
}

/// The interfaces of the live peers, in order, each once.
pub(super) fn distinct_interfaces(dump: &Vec<DumpPeer>) -> (r: Vec<String>)
    ensures
        r.deep_view() == order::text_set(interfaces(dump.deep_view())),
{
    let ghost all = interfaces(dump.deep_view());
    let mut out = text::no_texts();
    let mut i: usize = 0;
    proof {
        assert(all.take(0) =~= Seq::<Seq<char>>::empty());
    }
    while i < dump.len()
        invariant
            all == interfaces(dump.deep_view()),
            i <= dump@.len(),
            out.deep_view() == order::text_set(all.take(i as int)),
        decreases dump@.len() - i,
    {
        proof {
            assert(all.take(i + 1).drop_last() =~= all.take(i as int));
            assert(all.take(i + 1).last() == dump@[i as int].interface@);
        }
        order::add_text(&mut out, dump[i].interface.clone());
        i = i + 1;
    }
    proof {
        assert(all.take(all.len() as int) =~= all);
    }
    out
}

/// The interfaces that the journals record.
fn claimed_interfaces(journals: &Vec<Journal>) -> (r: Vec<String>)
    ensures
        r.deep_view() == claimed(journals.deep_view()),
{
    let ghost js = journals.deep_view();
    let mut out = text::no_texts();
    let mut i: usize = 0;
    proof {
        assert(js.take(0) =~= Seq::<JournalView>::empty());
    }
    while i < journals.len()
        invariant
            js == journals.deep_view(),
            i <= journals@.len(),
            out.deep_view() == claimed(js.take(i as int)),
        decreases journals@.len() - i,
    {
        proof {
            assert(js.take(i + 1).drop_last() =~= js.take(i as int));
            assert(js.take(i + 1).last() == journals@[i as int].deep_view());
        }
        match &journals[i].interface {
            Some(iface) => {
                text::push_text(&mut out, iface);
            },
            None => {},
        }
        i = i + 1;
    }
    proof {
        assert(js.take(js.len() as int) =~= js);
    }
    out
}

/// The live interfaces that no journal accounts for.
fn find_orphans(dump: &Vec<DumpPeer>, journals: &Vec<Journal>) -> (r: Vec<String>)
    ensures
        r.deep_view() == orphans(dump.deep_view(), journals.deep_view()),
{
    let taken = claimed_interfaces(journals);
    let ghost c = taken.deep_view();
    let ghost all = interfaces(dump.deep_view());
    let mut out = text::no_texts();
    let mut i: usize = 0;
    proof {
        assert(all.take(0) =~= Seq::<Seq<char>>::empty());
    }
    while i < dump.len()
        invariant
            c == taken.deep_view(),
            all == interfaces(dump.deep_view()),
            i <= dump@.len(),
            out.deep_view() == order::text_set(dns::without(all.take(i as int), c)),
        decreases dump@.len() - i,
    {
        let ghost before = dns::without(all.take(i as int), c);
        proof {
            assert(all.take(i + 1).drop_last() =~= all.take(i as int));
            assert(all.take(i + 1).last() == dump@[i as int].interface@);
        }
        if !order::has_text(&taken, &dump[i].interface) {
            proof {
                assert(before.push(dump@[i as int].interface@).drop_last() =~= before);
            }
            order::add_text(&mut out, dump[i].interface.clone());
        }
        i = i + 1;
    }
    proof {
        assert(all.take(all.len() as int) =~= all);
    }
    out
}

// ---------------------------------------------------------------------------
// Recovery
// ---------------------------------------------------------------------------

/// What is reported of an interface that was to be torn down by its config.
pub open spec fn torn_down(name: Seq<char>, iface: Seq<char>, torn: bool) -> RecoveredView {
    RecoveredView {
        tunnel: name,
        reason: if torn {
            "orphaned interface torn down"@
        } else {
            "orphaned interface "@ + iface + " — teardown failed"@
        },
        dns_cleared: Seq::empty(),
        dns_warning: None,
    }
}

/// What is reported of an interface without a config.
pub open spec fn left_over(iface: Seq<char>) -> RecoveredView {
    RecoveredView {
        tunnel: iface,
        reason: "orphaned interface "@ + iface
            + " with no matching config — remove it manually: wg-quick down <config> (or ifconfig "@
            + iface + " destroy)"@,
        dns_cleared: Seq::empty(),
        dns_warning: None,
    }
}

impl BackendView {
    /// Tearing down one orphaned interface. `wg-quick down` needs the config
    /// path on macOS (it rejects a bare interface name); without a matching
    /// config the interface is reported with a manual hint.
    pub open spec fn tearing_down_orphan(
        self,
        s: SessionView,
        iface: Seq<char>,
        dump: Seq<DumpPeerView>,
    ) -> Step<RecoveredView> {
        let (s, found) = self.finding_config(s, iface, dump);
        match found {
            None => (s, None),
            Some(None) => (s, Some(left_over(iface))),
            Some(Some(tunnel)) => {
                let (s, downed) = self.quick(s, "down"@, tunnel.path);
                (
                    s,
                    match downed {
                        None => None,
                        Some(r) => Some(torn_down(tunnel.name, iface, r is Ok)),
                    },
                )
            },
        }
    }

    /// Tearing down the orphaned interfaces from `i` on, after what was
    /// recovered already.
    pub open spec fn tearing_down_from(
        self,
        s: SessionView,
        list: Seq<Seq<char>>,
        dump: Seq<DumpPeerView>,
        i: int,
        recovered: Seq<RecoveredView>,
    ) -> Step<Seq<RecoveredView>>
        decreases list.len() - i,
    {
        if i >= list.len() {
            (s, Some(recovered))
        } else {
            let (s, one) = self.tearing_down_orphan(s, list[i], dump);
            match one {
                None => (s, None),
                Some(r) => self.tearing_down_from(s, list, dump, i + 1, recovered.push(r)),
            }
        }
    }

    /// Clearing DNS that is still pinned to a known config's resolver, once no
    /// tunnel is up.
    pub open spec fn mopping_up(self, s: SessionView, recovered: Seq<RecoveredView>) -> Step<
        Seq<RecoveredView>,
    > {
        let (s, collected) = self.collecting_dns(s);
        match collected {
            None => (s, None),
            Some(declared) => if declared.len() == 0 {
                (s, Some(recovered))
            } else {
                let (s, active) = self.naming_active(s);
                match active {
                    None => (s, None),
                    Some(found) => if found matches Ok(names) && names.len() == 0 {
                        let (s, guarded) = dns::guarding(s, declared, self.dns_sweeps);
                        (
                            s,
                            match guarded {
                                None => None,
                                Some(guard) => if guard.cleared.len() > 0 || guard.warning is Some {
                                    Some(
                                        recovered.push(
                                            RecoveredView {
                                                tunnel: "(dns)"@,
                                                reason: "cleared residual VPN DNS"@,
                                                dns_cleared: guard.cleared,
                                                dns_warning: guard.warning,
                                            },
                                        ),
                                    )
                                } else {
                                    Some(recovered)
                                },
                            },
                        )
                    } else {
                        (s, Some(recovered))
                    },
                }
            },
        }
    }

    /// `vpn recover`.
    pub open spec fn recovering(self, s: SessionView) -> Step<
        Result<Seq<RecoveredView>, ErrorView>,
    > {
        let (s, reconciled) = self.reconciling(s);
        match reconciled {
            None => (s, None),
            Some(Err(e)) => (s, Some(Err(e))),
            Some(Ok(first)) => {
                let (s, dumped) = self.dumping(s);
                match dumped {
                    None => (s, None),
                    Some(Err(e)) => (s, Some(Err(e))),
                    Some(Ok(dump)) => {
                        let (s, read) = state::reading_all(s, self.config_dir);
                        match read {
                            None => (s, None),
                            Some(journals) => {
                                let (s, torn) = self.tearing_down_from(
                                    s,
                                    orphans(dump, journals),
                                    dump,
                                    0,
                                    first,
                                );
                                match torn {
                                    None => (s, None),
                                    Some(so_far) => {
                                        let (s, mopped) = self.mopping_up(s, so_far);
                                        (
                                            s,
                                            match mopped {
                                                None => None,
                                                Some(all) => Some(Ok(all)),
                                            },
                                        )
                                    },
                                }
                            },
                        }
                    },
                }
            },
        }
    }
}

// ---------------------------------------------------------------------------
// Health
// ---------------------------------------------------------------------------

/// The interface that a line of the output of `route -n get default` names.
pub open spec fn route_line(line: Seq<char>) -> Option<Seq<char>> {
    match text::strip_prefix(text::trim(line), "interface:"@) {
        Some(rest) => Some(text::trim(rest)),
        None => None,
    }
}

/// The first interface that the lines name.
pub open spec fn route_interface(lines: Seq<Seq<char>>) -> Option<Seq<char>>
    decreases lines.len(),
{
    if lines.len() == 0 {
        None
    } else {
        match route_interface(lines.drop_last()) {
            Some(iface) => Some(iface),
            None => route_line(lines.last()),
        }
    }
}

/// Reading the interface that holds the default route; `None` if it cannot be
/// read.
pub open spec fn reading_route(s: SessionView) -> Step<Option<Seq<char>>> {
    let (s, ran) = s.run(ROUTE@, seq!["-n"@, "get"@, "default"@]);
    (
        s,
        match ran {
            None => None,
            Some(Err(_)) => Some(None),
            Some(Ok(out)) => if out.success() {
                Some(route_interface(text::lines(out.stdout)))
            } else {
                Some(None)
            },
        },
    )
}

/// The issue of a live interface that no config matches.
pub open spec fn orphan_issue(iface: Seq<char>, owns_route: bool) -> HealthIssueView {
    HealthIssueView {
        kind: "orphan"@,
        detail: "WireGuard interface "@ + iface + " is live but no config matches it"@ + (
        if owns_route {
            " and it holds the default route"@
        } else {
            ""@
        }) + " — run `vpn recover`"@,
    }
}

/// The issue of services that are pinned to a tunnel's DNS while nothing is up.
pub open spec fn stale_issue(stale: Seq<Seq<char>>) -> HealthIssueView {
    HealthIssueView {
        kind: "dns"@,
        detail: "stale VPN DNS pinned on "@ + text::join(stale, ", "@)
            + " — name resolution is broken; run `vpn recover`"@,
    }
}

impl BackendView {
    /// Looking for a config of each of the interfaces from `i` on, after the
    /// issues found already.
    pub open spec fn checking_interfaces(
        self,
        s: SessionView,
        list: Seq<Seq<char>>,
        dump: Seq<DumpPeerView>,
        route: Option<Seq<char>>,
        i: int,
        issues: Seq<HealthIssueView>,
    ) -> Step<Seq<HealthIssueView>>
        decreases list.len() - i,
    {
        if i >= list.len() {
            (s, Some(issues))
        } else {
            let (s, found) = self.finding_config(s, list[i], dump);
            match found {
                None => (s, None),
                Some(tunnel) => self.checking_interfaces(
                    s,
                    list,
                    dump,
                    route,
                    i + 1,
                    if tunnel is None {
                        issues.push(orphan_issue(list[i], route == Some(list[i])))
                    } else {
                        issues
                    },
                ),
            }
        }
    }

    /// Looking for services that are pinned to a known tunnel resolver while
    /// nothing is up.
    pub open spec fn checking_stale(self, s: SessionView, issues: Seq<HealthIssueView>) -> Step<
        Seq<HealthIssueView>,
    > {
        let (s, active) = self.naming_active(s);
        match active {
            None => (s, None),
            Some(found) => {
                let none_up = match found {
                    Ok(names) => names.len() == 0,
                    Err(_) => true,
                };
                let (s, collected) = self.collecting_dns(s);
                match collected {
                    None => (s, None),
                    Some(declared) => if none_up && declared.len() > 0 {
                        let (s, looked) = dns::finding_stale(s, declared);
                        (
                            s,
                            match looked {
                                None => None,
                                Some(Some(stale)) => if stale.len() > 0 {
                                    Some(issues.push(stale_issue(stale)))
                                } else {
                                    Some(issues)
                                },
                                Some(None) => Some(issues),
                            },
                        )
                    } else {
                        (s, Some(issues))
                    },
                }
            },
        }
    }

    /// `vpn verify`.
    pub open spec fn verifying(self, s: SessionView) -> Step<Result<HealthReportView, ErrorView>> {
        let (s, dumped) = self.dumping(s);
        match dumped {
            None => (s, None),
            Some(Err(e)) => (s, Some(Err(e))),
            Some(Ok(dump)) => {
                let (s, routed) = reading_route(s);
                match routed {
                    None => (s, None),
                    Some(route) => {
                        let (s, checked) = self.checking_interfaces(
                            s,
                            order::text_set(interfaces(dump)),
                            dump,
                            route,
                            0,
                            Seq::empty(),
                        );
                        match checked {
                            None => (s, None),
                            Some(found) => {
                                let (s, all) = self.checking_stale(s, found);
                                (
                                    s,
                                    match all {
                                        None => None,
                                        Some(issues) => Some(
                                            Ok(
                                                HealthReportView {
                                                    healthy: issues.len() == 0,
                                                    issues,
                                                },
                                            ),
                                        ),
                                    },
                                )
                            },
                        }
                    },
                }
            },
        }
    }
}

/// An interface that the first lines name is the first one.
proof fn lemma_route_prefix(lines: Seq<Seq<char>>, n: int)
    requires
        0 <= n <= lines.len(),
        route_interface(lines.take(n)) is Some,
    ensures
        route_interface(lines) == route_interface(lines.take(n)),
    decreases lines.len() - n,
{
    if n < lines.len() {
        assert(lines.take(n + 1).drop_last() =~= lines.take(n));
        lemma_route_prefix(lines, n + 1);
    } else {
        assert(lines.take(n) =~= lines);
    }
}

/// The first interface that the output of `route -n get default` names.
fn read_route(stdout: &str) -> (r: Option<String>)
    ensures
        r.deep_view() == route_interface(text::lines(stdout@)),
{
    let lines = text::text_lines(stdout);
    let ghost l = lines.deep_view();
    let mut i: usize = 0;
    proof {
        assert(l.take(0) =~= Seq::<Seq<char>>::empty());
    }
    while i < lines.len()
        invariant
            l == lines.deep_view(),
            l == text::lines(stdout@),
            i <= lines@.len(),
            route_interface(l.take(i as int)) is None,
        decreases lines@.len() - i,
    {
        proof {
            assert(l.take(i + 1).drop_last() =~= l.take(i as int));
            assert(l.take(i + 1).last() == lines@[i as int]@);
        }
        let line = text::text_trim(&lines[i]);
        match text::text_strip_prefix(&line, "interface:") {
            Some(rest) => {
                proof {
                    lemma_route_prefix(l, i + 1);
                }
                return Some(text::text_trim(&rest));
            },
            None => {},
        }
        i = i + 1;
    }
    proof {
        assert(l.take(l.len() as int) =~= l);
    }
    None
}

/// The interface backing the current default route (e.g. `en0`), via
/// `route -n get default`. Unprivileged; `None` if it cannot be read.
fn default_route_interface(session: &mut Session) -> (r: Option<Option<String>>)
    ensures
        (final(session).deep_view(), r.deep_view()) == reading_route(old(session).deep_view()),
{
    match session.run(ROUTE, text::list_of_three("-n", "get", "default"))? {
        Err(_) => Some(None),
        Ok(out) => if out.success() {
            Some(read_route(&out.stdout))
        } else {
            Some(None)
        },
    }
}

/// Add an issue to the list.
fn note_issue(issues: &mut Vec<HealthIssue>, kind: &'static str, detail: String)
    ensures
        final(issues).deep_view() == old(issues).deep_view().push(
            HealthIssueView { kind: kind@, detail: detail@ },
        ),
{
    let ghost before = issues.deep_view();
    let ghost d = detail@;
    issues.push(HealthIssue { kind, detail });
    proof {
        assert(issues.deep_view() =~= before.push(HealthIssueView { kind: kind@, detail: d }));
    }
}

impl Backend {
    /// The discovered tunnels; none where they cannot be listed.
    pub(super) fn discover_any(&self, session: &mut Session) -> (r: Option<Vec<Tunnel>>)
        ensures
            (final(session).deep_view(), r.deep_view()) == self.deep_view().discovering_any(
                old(session).deep_view(),
            ),
    {
        match config::discover(session, &self.config_dir)? {
            Ok(tunnels) => Some(tunnels),
            Err(_) => {
                let none: Vec<Tunnel> = Vec::new();
                proof {
                    assert(none.deep_view() =~= Seq::<TunnelView>::empty());
                }
                Some(none)
            },
        }
    }

    /// Every distinct `DNS` server declared across all discovered configs.
    pub(super) fn declared_dns_servers(&self, session: &mut Session) -> (r: Option<Vec<String>>)
        ensures
            (final(session).deep_view(), r.deep_view()) == self.deep_view().collecting_dns(
                old(session).deep_view(),
            ),
    {
        let ghost whole = self.deep_view().collecting_dns(session.deep_view());
        let tunnels = self.discover_any(session)?;
        let ghost t = tunnels.deep_view();
        let mut declared = text::no_texts();
        let mut i: usize = 0;
        while i < tunnels.len()
            invariant
                t == tunnels.deep_view(),
                i <= tunnels@.len(),
                whole == self.deep_view().collecting_dns(old(session).deep_view()),
                whole == collecting_from(
                    session.deep_view(),
                    t,
                    i as int,
                    declared.deep_view(),
                ),
            decreases tunnels@.len() - i,
        {
            proof {
                assert(t[i as int] == tunnels@[i as int].deep_view());
            }
            match config::conf_summary(session, &tunnels[i].path)? {
                Ok(summary) => {
                    proof {
                        assert(summary.dns_servers.deep_view().len()
                            == summary.dns_servers@.len());
                    }
                    add_new(&mut declared, &summary.dns_servers);
                },
                Err(_) => {},
            }
            i = i + 1;
        }
        Some(declared)
    }

    /// The discovered tunnel whose peer identity is live on `iface`, if any.
    /// Used by `recover` to map an orphan interface back to a config path
    /// (which `wg-quick down` requires on macOS).
    fn config_for_interface(&self, session: &mut Session, iface: &str, dump: &Vec<DumpPeer>) -> (r:
        Option<Option<Tunnel>>)
        ensures
            (final(session).deep_view(), r.deep_view()) == self.deep_view().finding_config(
                old(session).deep_view(),
                iface@,
                dump.deep_view(),
            ),
    {
        let ghost whole = self.deep_view().finding_config(
            session.deep_view(),
            iface@,
            dump.deep_view(),
        );
        let tunnels = self.discover_any(session)?;
        let ghost t = tunnels.deep_view();
        let mut i: usize = 0;
        while i < tunnels.len()
            invariant
                t == tunnels.deep_view(),
                i <= tunnels@.len(),
                whole == self.deep_view().finding_config(
                    old(session).deep_view(),
                    iface@,
                    dump.deep_view(),
                ),
                whole == config_from(
                    session.deep_view(),
                    t,
                    dump.deep_view(),
                    iface@,
                    i as int,
                ),
            decreases tunnels@.len() - i,
        {
            proof {
                assert(t[i as int] == tunnels@[i as int].deep_view());
            }
            match find_live(session, &tunnels[i], dump)? {
                Ok(Some(hit)) => {
                    if text::same(&hit.interface, iface) {
                        return Some(Some(tunnels[i].clone()));
                    }
                },
                _ => {},
            }
            i = i + 1;
        }
        Some(None)
    }

    /// Tear down one orphaned interface.
    fn tear_down_orphan(&self, session: &mut Session, iface: &str, dump: &Vec<DumpPeer>) -> (r:
        Option<Recovered>)
        ensures
            (final(session).deep_view(), r.deep_view()) == self.deep_view().tearing_down_orphan(
                old(session).deep_view(),
                iface@,
                dump.deep_view(),
            ),
    {
        match self.config_for_interface(session, iface, dump)? {
            Some(tunnel) => {
                let torn = self.run_quick(session, "down", &tunnel.path)?;
                let reason = match torn {
                    Ok(_) => "orphaned interface torn down".to_owned(),
                    Err(_) => {
                        let mut reason = "orphaned interface ".to_owned();
                        reason.append(iface);
                        reason.append(" — teardown failed");
                        reason
                    },
                };
                Some(
                    Recovered {
                        tunnel: tunnel.name,
                        reason,
                        dns_cleared: text::no_texts(),
                        dns_warning: None,
                    },
                )
            },
            None => {
                let mut reason = "orphaned interface ".to_owned();
                reason.append(iface);
                reason.append(
                    " with no matching config — remove it manually: wg-quick down <config> (or ifconfig ",
                );
                reason.append(iface);
                reason.append(" destroy)");
                Some(
                    Recovered {
                        tunnel: iface.to_owned(),
                        reason,
                        dns_cleared: text::no_texts(),
                        dns_warning: None,
                    },
                )
            },
        }
    }

    /// Tear down the orphaned interfaces.
    fn tear_down_orphans(
        &self,
        session: &mut Session,
        list: &Vec<String>,
        dump: &Vec<DumpPeer>,
        recovered: Vec<Recovered>,
    ) -> (r: Option<Vec<Recovered>>)
        ensures
            (final(session).deep_view(), r.deep_view()) == self.deep_view().tearing_down_from(
                old(session).deep_view(),
                list.deep_view(),
                dump.deep_view(),
                0,
                recovered.deep_view(),
            ),
    {
        let ghost l = list.deep_view();
        let ghost whole = self.deep_view().tearing_down_from(
            session.deep_view(),
            l,
            dump.deep_view(),
            0,
            recovered.deep_view(),
        );
        let mut all = recovered;
        let mut i: usize = 0;
        while i < list.len()
            invariant
                l == list.deep_view(),
                i <= list@.len(),
                whole == self.deep_view().tearing_down_from(
                    old(session).deep_view(),
                    l,
                    dump.deep_view(),
                    0,
                    recovered.deep_view(),
                ),
                whole == self.deep_view().tearing_down_from(
                    session.deep_view(),
                    l,
                    dump.deep_view(),
                    i as int,
                    all.deep_view(),
                ),
            decreases list@.len() - i,
        {
            let ghost before = all.deep_view();
            proof {
                assert(l[i as int] == list@[i as int]@);
            }
            let one = self.tear_down_orphan(session, &list[i], dump)?;
            let ghost v = one.deep_view();
            all.push(one);
            proof {
                assert(all.deep_view() =~= before.push(v));
            }
            i = i + 1;
        }
        Some(all)
    }

    /// Clear DNS that is still pinned to a known config's resolver, even for
    /// interfaces we never had a journal for.
    fn mop_up_dns(&self, session: &mut Session, recovered: Vec<Recovered>) -> (r: Option<
        Vec<Recovered>,
    >)
        ensures
            (final(session).deep_view(), r.deep_view()) == self.deep_view().mopping_up(
                old(session).deep_view(),
                recovered.deep_view(),
            ),
    {
        let declared = self.declared_dns_servers(session)?;
        proof {
            assert(declared.deep_view().len() == declared@.len());
        }
        if declared.len() == 0 {
            return Some(recovered);
        }
        let none_up = match self.current(session)? {
            Ok(active) => {
                proof {
                    assert(active.deep_view().len() == active@.len());
                }
                active.len() == 0
            },
            Err(_) => false,
        };
        if !none_up {
            return Some(recovered);
        }
        let guard = dns::guard(session, &declared, &self.dns_sweeps)?;
        proof {
            assert(guard.cleared.deep_view().len() == guard.cleared@.len());
        }
        let ghost before = recovered.deep_view();
        let mut all = recovered;
        if guard.cleared.len() > 0 || guard.warning.is_some() {
            let one = Recovered {
                tunnel: "(dns)".to_owned(),
                reason: "cleared residual VPN DNS".to_owned(),
                dns_cleared: guard.cleared,
                dns_warning: guard.warning,
            };
            let ghost v = one.deep_view();
            all.push(one);
            proof {
                assert(all.deep_view() =~= before.push(v));
            }
        }
        Some(all)
    }

    /// Unconditional recovery — the "fix my machine" escape hatch. Needs no
    /// tunnel name and tolerates missing configs: it reconciles every journal,
    /// then tears down any remaining live WireGuard interface (orphans from a
    /// crash or an older version) and clears any config's DNS still pinned
    /// system-wide. Returns everything it changed.
    pub fn recover(&self, session: &mut Session) -> (r: Option<Result<Vec<Recovered>, Error>>)
        ensures
            (final(session).deep_view(), so_far(r)) == self.deep_view().recovering(
                old(session).deep_view(),
            ),
    {
        let recovered = match self.reconcile(session)? {
            Ok(recovered) => recovered,
            Err(e) => {
                return Some(Err(e));
            },
        };
        let dump = match self.all_dump(session)? {
            Ok(dump) => dump,
            Err(e) => {
                return Some(Err(e));
            },
        };
        let journals = state::read_all(session, &self.config_dir)?;
        let list = find_orphans(&dump, &journals);
        let torn = self.tear_down_orphans(session, &list, &dump, recovered)?;
        let all = self.mop_up_dns(session, torn)?;
        Some(Ok(all))
    }

    /// Look for a config of each live interface.
    fn check_interfaces(
        &self,
        session: &mut Session,
        list: &Vec<String>,
        dump: &Vec<DumpPeer>,
        route: &Option<String>,
    ) -> (r: Option<Vec<HealthIssue>>)
        ensures
            (final(session).deep_view(), r.deep_view()) == self.deep_view().checking_interfaces(
                old(session).deep_view(),
                list.deep_view(),
                dump.deep_view(),
                route.deep_view(),
                0,
                Seq::empty(),
            ),
    {
        let ghost l = list.deep_view();
        let ghost whole = self.deep_view().checking_interfaces(
            session.deep_view(),
            l,
            dump.deep_view(),
            route.deep_view(),
            0,
            Seq::empty(),
        );
        let mut issues: Vec<HealthIssue> = Vec::new();
        let mut i: usize = 0;
        proof {
            assert(issues.deep_view() =~= Seq::<HealthIssueView>::empty());
        }
        while i < list.len()
            invariant
                l == list.deep_view(),
                i <= list@.len(),
                whole == self.deep_view().checking_interfaces(
                    old(session).deep_view(),
                    l,
                    dump.deep_view(),
                    route.deep_view(),
                    0,
                    Seq::empty(),
                ),
                whole == self.deep_view().checking_interfaces(
                    session.deep_view(),
                    l,
                    dump.deep_view(),
                    route.deep_view(),
                    i as int,
                    issues.deep_view(),
                ),
            decreases list@.len() - i,
        {
            proof {
                assert(l[i as int] == list@[i as int]@);
            }
            if self.config_for_interface(session, &list[i], dump)?.is_none() {
                let owns_route = match route {
                    Some(iface) => text::same(iface, &list[i]),
                    None => false,
                };
                let mut detail = "WireGuard interface ".to_owned();
                detail.append(&list[i]);
                detail.append(" is live but no config matches it");
                detail.append(
                    if owns_route {
                        " and it holds the default route"
                    } else {
                        ""
                    },
                );
                detail.append(" — run `vpn recover`");
                note_issue(&mut issues, "orphan", detail);
            }
            i = i + 1;
        }
        Some(issues)
    }

    /// Look for services that are pinned to a known tunnel resolver while
    /// nothing is up (name resolution is dead until it is cleared).
    fn check_stale(&self, session: &mut Session, issues: Vec<HealthIssue>) -> (r: Option<
        Vec<HealthIssue>,
    >)
        ensures
            (final(session).deep_view(), r.deep_view()) == self.deep_view().checking_stale(
                old(session).deep_view(),
                issues.deep_view(),
            ),
    {
        let none_up = match self.current(session)? {
            Ok(active) => {
                proof {
                    assert(active.deep_view().len() == active@.len());
                }
                active.len() == 0
            },
            Err(_) => true,
        };
        let declared = self.declared_dns_servers(session)?;
        proof {
            assert(declared.deep_view().len() == declared@.len());
        }
        let mut all = issues;
        if none_up && declared.len() > 0 {
            match dns::stale_services(session, &declared)? {
                Some(stale) => {
                    proof {
                        assert(stale.deep_view().len() == stale@.len());
                    }
                    if stale.len() > 0 {
                        let mut detail = "stale VPN DNS pinned on ".to_owned();
                        let names = text::text_join(&stale, ", ");
                        detail.append(&names);
                        detail.append(" — name resolution is broken; run `vpn recover`");
                        note_issue(&mut all, "dns", detail);
                    }
                },
                None => {},
            }
        }
        Some(all)
    }

    /// Assert the host network is in a consistent state: no WireGuard interface
    /// is live without a matching config (an orphan leaking traffic), no
    /// network service is pinned to a tunnel's DNS while nothing is up, and the
    /// default route is not held by an untracked tunnel. This is the runtime
    /// form of the host invariant — read-only, safe to call anytime.
    pub fn verify(&self, session: &mut Session) -> (r: Option<Result<HealthReport, Error>>)
        ensures
            (final(session).deep_view(), so_far(r)) == self.deep_view().verifying(
                old(session).deep_view(),
            ),
    {
        let dump = match self.all_dump(session)? {
            Ok(dump) => dump,
            Err(e) => {
                return Some(Err(e));
            },
        };
        let route = default_route_interface(session)?;
        let list = distinct_interfaces(&dump);
        let orphaned = self.check_interfaces(session, &list, &dump, &route)?;
        let issues = self.check_stale(session, orphaned)?;
        proof {
            assert(issues.deep_view().len() == issues@.len());
        }
        Some(Ok(HealthReport { healthy: issues.len() == 0, issues }))
    }
}

} // verus!
