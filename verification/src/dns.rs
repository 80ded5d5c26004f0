//! Self-healing for stale VPN DNS left behind by `wg-quick` on macOS.
//!
//! On macOS, `wg-quick up` stamps the tunnel's `DNS` servers onto every
//! network service with `networksetup`, remembering the previous values only
//! in the memory of a backgrounded monitor process. If that process dies
//! without restoring them (system shutdown, SIGKILL, crash) — or if another
//! tunnel comes up before the asynchronous restore fires — the tunnel's
//! VPN-internal resolver stays pinned as the system DNS. With no tunnel up
//! that resolver is unreachable, so every lookup fails and the machine looks
//! offline. Worse, the next `up` snapshots the stale value as the "original",
//! so `wg-quick`'s own restore perpetuates the damage forever.
//!
//! [`guard`] runs after a tunnel goes down: any network service whose static
//! DNS still contains one of the tunnel's own `DNS` servers is reset to
//! `Empty` (back to DHCP). Because `wg-quick`'s restore is asynchronous, the
//! guard sweeps several times, trusting the result only after two consecutive
//! clean sweeps. On systems without `networksetup` (anything but macOS) the
//! guard is a no-op.
use vstd::prelude::*;

use crate::config;
use crate::order;
use crate::order::TextMap;
use crate::session::{Session, SessionView, Step};
use crate::state::Snapshot;
use crate::status;
use crate::text;

verus! {

/// The `networksetup` binary; resolved via `PATH` (it lives in
/// `/usr/sbin`, which is always on the default path). Runs unprivileged —
/// admin users may change DNS settings without sudo.
pub const NETWORKSETUP: &'static str = "networksetup";

/// Delays (ms) before each verification sweep after a teardown. The spacing
/// exists to outlast `wg-quick`'s monitor daemon, which restores its (possibly
/// poisoned) DNS snapshot asynchronously after the interface disappears.
pub open spec fn sweep_schedule() -> Seq<u64> {
    seq![0u64, 400u64, 1200u64, 2500u64]
}

/// The delays before each verification sweep, see [`sweep_schedule`].
pub fn sweep_delays_ms() -> (r: Vec<u64>)
    ensures
        r@ == sweep_schedule(),
{
    let mut r: Vec<u64> = Vec::new();
    r.push(0);
    r.push(400);
    r.push(1200);
    r.push(2500);
    r
}

/// What the DNS guard did. Both fields empty means nothing was wrong.
#[derive(Debug, PartialEq, Eq)]
pub struct GuardOutcome {
    /// Network services whose stale VPN DNS was cleared (reset to DHCP).
    pub cleared: Vec<String>,
    /// Non-fatal problem: stale DNS was seen but could not be cleared, or
    /// kept reappearing past the final sweep.
    pub warning: Option<String>,
}

/// A [`GuardOutcome`] with its texts as sequences of characters.
#[verifier::ext_equal]
pub struct GuardOutcomeView {
    /// Network services whose stale VPN DNS was cleared.
    pub cleared: Seq<Seq<char>>,
    /// Non-fatal problem.
    pub warning: Option<Seq<char>>,
}

impl DeepView for GuardOutcome {
    type V = GuardOutcomeView;

    open spec fn deep_view(&self) -> GuardOutcomeView {
        GuardOutcomeView { cleared: self.cleared.deep_view(), warning: self.warning.deep_view() }
    }
}

impl GuardOutcomeView {
    /// Nothing was wrong.
    pub open spec fn nothing() -> GuardOutcomeView {
        GuardOutcomeView { cleared: Seq::empty(), warning: None }
    }

    /// What to say about it, if anything.
    pub open spec fn note(self) -> Option<Seq<char>> {
        let cleared = if self.cleared.len() == 0 {
            Seq::empty()
        } else {
            seq!["cleared stale VPN DNS from "@ + text::join(self.cleared, ", "@)]
        };
        let warning = match self.warning {
            Some(w) => seq![w],
            None => Seq::empty(),
        };
        let parts = cleared + warning;
        if parts.len() == 0 {
            None
        } else {
            Some(text::join(parts, "; "@))
        }
    }
}

impl Default for GuardOutcome {
    fn default() -> (r: Self)
        ensures
            r.deep_view() == GuardOutcomeView::nothing(),
    {
        GuardOutcome { cleared: text::no_texts(), warning: None }
    }
}

impl GuardOutcome {
    /// A one-line human note about what happened, if anything did.
    pub fn note(&self) -> (r: Option<String>)
        ensures
            r.deep_view() == self.deep_view().note(),
    {
        let mut parts = text::no_texts();
        let ghost none = Seq::<Seq<char>>::empty();
        if self.cleared.len() > 0 {
            let mut part = "cleared stale VPN DNS from ".to_owned();
            let names = text::text_join(&self.cleared, ", ");
            part.append(&names);
            text::push_text(&mut parts, &part);
        }
        let ghost first = parts.deep_view();
        match &self.warning {
            Some(warning) => {
                text::push_text(&mut parts, warning);
                proof {
                    assert(first.push(warning@) =~= first + seq![warning@]);
                }
            },
            None => {
                proof {
                    assert(first + none =~= first);
                }
            },
        }
        if parts.len() == 0 {
            None
        } else {
            Some(text::text_join(&parts, "; "))
        }
    }
}

// ---------------------------------------------------------------------------
// Questions to networksetup
// ---------------------------------------------------------------------------

/// The name in a line of the list of services. A leading `*` marks a disabled
/// service, which still carries DNS settings.
pub open spec fn service_name(raw: Seq<char>) -> Seq<char> {
    text::trim(text::trim_start_of(text::trim(raw), '*'))
}

/// The services in the output of `networksetup -listallnetworkservices`; the
/// first line is a legend.
pub open spec fn services(stdout: Seq<char>) -> Seq<Seq<char>> {
    let l = text::lines(stdout);
    if l.len() == 0 {
        Seq::empty()
    } else {
        config::nonempty(l.skip(1).map_values(|raw: Seq<char>| service_name(raw)))
    }
}

/// The servers in the lines of the output of `networksetup -getdnsservers`: one
/// per line, or a sentence if there are none; server lines carry no whitespace.
pub open spec fn servers_in(lines: Seq<Seq<char>>) -> Seq<Seq<char>>
    decreases lines.len(),
{
    if lines.len() == 0 {
        Seq::empty()
    } else {
        let before = servers_in(lines.drop_last());
        let line = text::trim(lines.last());
        if line.len() > 0 && !text::has_space(line) {
            before.push(line)
        } else {
            before
        }
    }
}

/// Listing the network services; `None` when `networksetup` cannot run (not
/// macOS).
pub open spec fn listing_services(s: SessionView) -> Step<Option<Seq<Seq<char>>>> {
    let (s, ran) = s.run(NETWORKSETUP@, seq!["-listallnetworkservices"@]);
    (
        s,
        match ran {
            None => None,
            Some(Err(_)) => Some(None),
            Some(Ok(out)) => if out.success() {
                Some(Some(services(out.stdout)))
            } else {
                Some(None)
            },
        },
    )
}

/// Reading the DNS servers of a service (none means DHCP); `None` when the
/// query itself could not run.
pub open spec fn reading_dns(s: SessionView, service: Seq<char>) -> Step<Option<Seq<Seq<char>>>> {
    let (s, ran) = s.run(NETWORKSETUP@, seq!["-getdnsservers"@, service]);
    (
        s,
        match ran {
            None => None,
            Some(Err(_)) => Some(None),
            Some(Ok(out)) => Some(Some(servers_in(text::lines(out.stdout)))),
        },
    )
}

/// The services in the output of `networksetup`.
fn read_services(stdout: &str) -> (r: Vec<String>)
    ensures
        r.deep_view() == services(stdout@),
{
    let lines = text::text_lines(stdout);
    let ghost l = lines.deep_view();
    let mut out = text::no_texts();
    if lines.len() == 0 {
        return out;
    }
    let ghost names = l.skip(1).map_values(|raw: Seq<char>| service_name(raw));
    let mut i: usize = 1;
    proof {
        assert(names.take(0) =~= Seq::<Seq<char>>::empty());
    }
    while i < lines.len()
        invariant
            l == lines.deep_view(),
            names == l.skip(1).map_values(|raw: Seq<char>| service_name(raw)),
            1 <= i <= lines@.len(),
            out.deep_view() == config::nonempty(names.take(i - 1)),
        decreases lines@.len() - i,
    {
        let trimmed = text::text_trim(&lines[i]);
        let bare = text::text_trim_start_of(&trimmed, '*');
        let name = text::text_trim(&bare);
        proof {
            assert(l.skip(1)[i - 1] == lines@[i as int]@);
            assert(names[i - 1] == name@);
            assert(names.take(i as int).drop_last() =~= names.take(i - 1));
        }
        if !name.as_str().is_empty() {
            text::push_text(&mut out, &name);
        }
        i = i + 1;
    }
    proof {
        assert(names.take(names.len() as int) =~= names);
    }
    out
}

/// The servers in the output of `networksetup`.
fn read_servers(stdout: &str) -> (r: Vec<String>)
    ensures
        r.deep_view() == servers_in(text::lines(stdout@)),
{
    let lines = text::text_lines(stdout);
    let ghost l = lines.deep_view();
    let mut out = text::no_texts();
    let mut i: usize = 0;
    proof {
        assert(l.take(0) =~= Seq::<Seq<char>>::empty());
    }
    while i < lines.len()
        invariant
            l == lines.deep_view(),
            i <= lines@.len(),
            out.deep_view() == servers_in(l.take(i as int)),
        decreases lines@.len() - i,
    {
        proof {
            assert(l.take(i + 1).drop_last() =~= l.take(i as int));
            assert(l.take(i + 1).last() == lines@[i as int]@);
        }
        let line = text::text_trim(&lines[i]);
        if !line.as_str().is_empty() && !text::text_has_space(&line) {
            text::push_text(&mut out, &line);
        }
        i = i + 1;
    }
    proof {
        assert(l.take(l.len() as int) =~= l);
    }
    out
}

/// The list of configurable network services, in `networksetup` order.
/// `None` when `networksetup` cannot run (not macOS).
fn list_services(session: &mut Session) -> (r: Option<Option<Vec<String>>>)
    ensures
        (final(session).deep_view(), r.deep_view()) == listing_services(old(session).deep_view()),
{
    match session.run(NETWORKSETUP, text::list_of("-listallnetworkservices"))? {
        Err(_) => Some(None),
        Ok(out) => if out.success() {
            Some(Some(read_services(&out.stdout)))
        } else {
            Some(None)
        },
    }
}

/// The static DNS servers currently set on `service` (empty = DHCP).
/// `None` when the query itself could not run.
fn service_dns(session: &mut Session, service: &str) -> (r: Option<Option<Vec<String>>>)
    ensures
        (final(session).deep_view(), r.deep_view()) == reading_dns(
            old(session).deep_view(),
            service@,
        ),
{
    match session.run(NETWORKSETUP, text::list_of_two("-getdnsservers", service))? {
        Err(_) => Some(None),
        Ok(out) => Some(Some(read_servers(&out.stdout))),
    }
}

// ---------------------------------------------------------------------------
// Stale services
// ---------------------------------------------------------------------------

/// Whether one of `servers` is among `tunnel_dns`.
pub open spec fn any_of(servers: Seq<Seq<char>>, tunnel_dns: Seq<Seq<char>>) -> bool {
    exists|i: int| 0 <= i < servers.len() && tunnel_dns.contains(#[trigger] servers[i])
}

/// Whether one of `servers` is among `tunnel_dns`.
fn has_any_of(servers: &Vec<String>, tunnel_dns: &Vec<String>) -> (r: bool)
    ensures
        r == any_of(servers.deep_view(), tunnel_dns.deep_view()),
{
    let ghost v = servers.deep_view();
    let mut i: usize = 0;
    while i < servers.len()
        invariant
            v == servers.deep_view(),
            i <= servers@.len(),
            forall|j: int| 0 <= j < i ==> !tunnel_dns.deep_view().contains(#[trigger] v[j]),
        decreases servers@.len() - i,
    {
        proof {
            assert(v[i as int] == servers@[i as int]@);
        }
        if order::has_text(tunnel_dns, &servers[i]) {
            proof {
                assert(tunnel_dns.deep_view().contains(v[i as int]));
            }
            return true;
        }
        i = i + 1;
    }
    false
}

/// Looking at the services from `i` on, after the stale ones found already.
pub open spec fn stale_from(
    s: SessionView,
    names: Seq<Seq<char>>,
    tunnel_dns: Seq<Seq<char>>,
    i: int,
    stale: Seq<Seq<char>>,
) -> Step<Option<Seq<Seq<char>>>>
    decreases names.len() - i,
{
    if i >= names.len() {
        (s, Some(Some(stale)))
    } else {
        let (s, servers) = reading_dns(s, names[i]);
        match servers {
            None => (s, None),
            Some(None) => (s, Some(None)),
            Some(Some(list)) => stale_from(
                s,
                names,
                tunnel_dns,
                i + 1,
                if any_of(list, tunnel_dns) {
                    stale.push(names[i])
                } else {
                    stale
                },
            ),
        }
    }
}

/// Finding the services whose DNS contains one of `tunnel_dns`.
pub open spec fn finding_stale(s: SessionView, tunnel_dns: Seq<Seq<char>>) -> Step<
    Option<Seq<Seq<char>>>,
> {
    let (s, listed) = listing_services(s);
    match listed {
        None => (s, None),
        Some(None) => (s, Some(None)),
        Some(Some(names)) => stale_from(s, names, tunnel_dns, 0, Seq::empty()),
    }
}

/// Network services whose static DNS currently contains one of `tunnel_dns`.
///
/// Returns `Some(None)` when `networksetup` cannot run (not macOS) — the caller
/// should treat the check as not applicable.
pub fn stale_services(session: &mut Session, tunnel_dns: &Vec<String>) -> (r: Option<
    Option<Vec<String>>,
>)
    ensures
        (final(session).deep_view(), r.deep_view()) == finding_stale(
            old(session).deep_view(),
            tunnel_dns.deep_view(),
        ),
{
    let ghost start = session.deep_view();
    match list_services(session)? {
        None => Some(None),
        Some(names) => {
            let ghost n = names.deep_view();
            let mut stale = text::no_texts();
            let mut i: usize = 0;
            while i < names.len()
                invariant
                    start == old(session).deep_view(),
                    n == names.deep_view(),
                    i <= names@.len(),
                    finding_stale(start, tunnel_dns.deep_view()) == stale_from(
                        session.deep_view(),
                        n,
                        tunnel_dns.deep_view(),
                        i as int,
                        stale.deep_view(),
                    ),
                decreases names@.len() - i,
            {
                proof {
                    assert(n[i as int] == names@[i as int]@);
                }
                match service_dns(session, &names[i])? {
                    None => {
                        return Some(None);
                    },
                    Some(servers) => {
                        if has_any_of(&servers, tunnel_dns) {
                            text::push_text(&mut stale, &names[i]);
                        }
                    },
                }
                i = i + 1;
            }
            Some(Some(stale))
        },
    }
}

// ---------------------------------------------------------------------------
// Snapshots
// ---------------------------------------------------------------------------

/// The servers that are not among `tunnel_dns`.
pub open spec fn without(servers: Seq<Seq<char>>, tunnel_dns: Seq<Seq<char>>) -> Seq<Seq<char>>
    decreases servers.len(),
{
    if servers.len() == 0 {
        Seq::empty()
    } else if tunnel_dns.contains(servers.last()) {
        without(servers.drop_last(), tunnel_dns)
    } else {
        without(servers.drop_last(), tunnel_dns).push(servers.last())
    }
}

/// The servers that are not among `tunnel_dns`.
fn drop_servers(servers: &Vec<String>, tunnel_dns: &Vec<String>) -> (r: Vec<String>)
    ensures
        r.deep_view() == without(servers.deep_view(), tunnel_dns.deep_view()),
{
    let ghost v = servers.deep_view();
    let mut out = text::no_texts();
    let mut i: usize = 0;
    proof {
        assert(v.take(0) =~= Seq::<Seq<char>>::empty());
    }
    while i < servers.len()
        invariant
            v == servers.deep_view(),
            i <= servers@.len(),
            out.deep_view() == without(v.take(i as int), tunnel_dns.deep_view()),
        decreases servers@.len() - i,
    {
        proof {
            assert(v.take(i + 1).drop_last() =~= v.take(i as int));
            assert(v.take(i + 1).last() == servers@[i as int]@);
        }
        if !order::has_text(tunnel_dns, &servers[i]) {
            text::push_text(&mut out, &servers[i]);
        }
        i = i + 1;
    }
    proof {
        assert(v.take(v.len() as int) =~= v);
    }
    out
}

/// Capturing the services from `i` on, after those captured already.
pub open spec fn capture_from(
    s: SessionView,
    names: Seq<Seq<char>>,
    tunnel_dns: Seq<Seq<char>>,
    i: int,
    snapshot: Snapshot,
) -> Step<Option<Snapshot>>
    decreases names.len() - i,
{
    if i >= names.len() {
        (s, Some(Some(snapshot)))
    } else {
        let (s, servers) = reading_dns(s, names[i]);
        match servers {
            None => (s, None),
            Some(None) => (s, Some(None)),
            Some(Some(list)) => capture_from(
                s,
                names,
                tunnel_dns,
                i + 1,
                order::put(snapshot, names[i], without(list, tunnel_dns)),
            ),
        }
    }
}

/// Capturing the DNS of every service, without the servers of `tunnel_dns`.
pub open spec fn capturing(s: SessionView, tunnel_dns: Seq<Seq<char>>) -> Step<Option<Snapshot>> {
    let (s, listed) = listing_services(s);
    match listed {
        None => (s, None),
        Some(None) => (s, Some(None)),
        Some(Some(names)) => capture_from(s, names, tunnel_dns, 0, Seq::empty()),
    }
}

/// Snapshot each service's current DNS, **sanitized**: any server equal to a
/// `tunnel_dns` entry is dropped. Taking the snapshot from an already-poisoned
/// system therefore still yields a clean baseline (an empty list = DHCP), so
/// restoring it can never re-pin the tunnel's resolver.
///
/// `Some(None)` when `networksetup` is unavailable.
pub fn capture(session: &mut Session, tunnel_dns: &Vec<String>) -> (r: Option<
    Option<TextMap<Vec<String>>>,
>)
    ensures
        (final(session).deep_view(), r.deep_view()) == capturing(
            old(session).deep_view(),
            tunnel_dns.deep_view(),
        ),
        r matches Some(Some(taken)) ==> order::keys_ordered(taken.deep_view()),
{
    let ghost start = session.deep_view();
    match list_services(session)? {
        None => Some(None),
        Some(names) => {
            let ghost n = names.deep_view();
            let mut snapshot: TextMap<Vec<String>> = TextMap::new();
            let mut i: usize = 0;
            while i < names.len()
                invariant
                    start == old(session).deep_view(),
                    n == names.deep_view(),
                    i <= names@.len(),
                    capturing(start, tunnel_dns.deep_view()) == capture_from(
                        session.deep_view(),
                        n,
                        tunnel_dns.deep_view(),
                        i as int,
                        snapshot.deep_view(),
                    ),
                    order::keys_ordered(snapshot.deep_view()),
                decreases names@.len() - i,
            {
                proof {
                    assert(n[i as int] == names@[i as int]@);
                }
                match service_dns(session, &names[i])? {
                    None => {
                        return Some(None);
                    },
                    Some(servers) => {
                        let clean = drop_servers(&servers, tunnel_dns);
                        snapshot.insert(names[i].clone(), clean);
                    },
                }
                i = i + 1;
            }
            Some(Some(snapshot))
        },
    }
}

// ---------------------------------------------------------------------------
// The guard
// ---------------------------------------------------------------------------

/// The arguments that set the DNS of a service; no servers means DHCP.
pub open spec fn set_dns_args(service: Seq<char>, servers: Seq<Seq<char>>) -> Seq<Seq<char>> {
    if servers.len() == 0 {
        seq!["-setdnsservers"@, service, "Empty"@]
    } else {
        seq!["-setdnsservers"@, service] + servers
    }
}

/// Setting the DNS of a service; whether it worked.
pub open spec fn setting_dns(s: SessionView, service: Seq<char>, servers: Seq<Seq<char>>) -> Step<
    bool,
> {
    let (s, ran) = s.run(NETWORKSETUP@, set_dns_args(service, servers));
    (
        s,
        match ran {
            None => None,
            Some(Err(_)) => Some(false),
            Some(Ok(out)) => Some(out.success()),
        },
    )
}

/// Set the DNS of a service; whether it worked.
fn set_dns(session: &mut Session, service: &str, servers: &Vec<String>) -> (r: Option<bool>)
    ensures
        (final(session).deep_view(), r) == setting_dns(
            old(session).deep_view(),
            service@,
            servers.deep_view(),
        ),
{
    let mut args = text::list_of_two("-setdnsservers", service);
    if servers.len() == 0 {
        text::push_text(&mut args, "Empty");
    } else {
        let ghost before = args.deep_view();
        let mut copy = status::copy_texts(servers);
        let ghost v = copy.deep_view();
        args.append(&mut copy);
        proof {
            assert(args.deep_view() =~= before + v);
        }
    }
    proof {
        assert(servers.deep_view().len() == servers@.len());
        assert(args.deep_view() == set_dns_args(service@, servers.deep_view()));
    }
    match session.run(NETWORKSETUP, args)? {
        Err(_) => Some(false),
        Ok(out) => Some(out.success()),
    }
}

/// The warning that the DNS of a service could not be reset.
pub open spec fn reset_warning(service: Seq<char>) -> Seq<char> {
    "could not reset DNS on '"@ + service + "' — run: networksetup -setdnsservers '"@ + service
        + "' Empty"@
}

/// The warning that stale DNS was still there at the last sweep.
pub open spec fn reappearing_warning() -> Seq<char> {
    "stale VPN DNS kept reappearing after the final sweep — a lingering wg-quick monitor may still be restoring it; re-run `vpn down` to repair"@
}

/// Resetting the stale services from `i` on to DHCP: the services cleared and
/// the last warning.
pub open spec fn reset_from(
    s: SessionView,
    stale: Seq<Seq<char>>,
    i: int,
    cleared: Seq<Seq<char>>,
    warning: Option<Seq<char>>,
) -> Step<GuardOutcomeView>
    decreases stale.len() - i,
{
    if i >= stale.len() {
        (s, Some(GuardOutcomeView { cleared, warning }))
    } else {
        let (s, ok) = setting_dns(s, stale[i], Seq::empty());
        match ok {
            None => (s, None),
            Some(true) => reset_from(
                s,
                stale,
                i + 1,
                order::with_text(cleared, stale[i]),
                warning,
            ),
            Some(false) => reset_from(s, stale, i + 1, cleared, Some(reset_warning(stale[i]))),
        }
    }
}

/// Reset the stale services to DHCP.
fn reset_services(
    session: &mut Session,
    stale: &Vec<String>,
    done: GuardOutcome,
) -> (r: Option<GuardOutcome>)
    ensures
        (final(session).deep_view(), r.deep_view()) == reset_from(
            old(session).deep_view(),
            stale.deep_view(),
            0,
            done.deep_view().cleared,
            done.deep_view().warning,
        ),
{
    let ghost v = stale.deep_view();
    let ghost whole = reset_from(
        session.deep_view(),
        v,
        0,
        done.deep_view().cleared,
        done.deep_view().warning,
    );
    let GuardOutcome { cleared, warning } = done;
    let mut cleared = cleared;
    let mut warning = warning;
    let dhcp = text::no_texts();
    let mut i: usize = 0;
    while i < stale.len()
        invariant
            v == stale.deep_view(),
            dhcp.deep_view() == Seq::<Seq<char>>::empty(),
            i <= stale@.len(),
            whole == reset_from(
                old(session).deep_view(),
                stale.deep_view(),
                0,
                done.deep_view().cleared,
                done.deep_view().warning,
            ),
            whole == reset_from(
                session.deep_view(),
                v,
                i as int,
                cleared.deep_view(),
                warning.deep_view(),
            ),
        decreases stale@.len() - i,
    {
        proof {
            assert(v[i as int] == stale@[i as int]@);
        }
        if set_dns(session, &stale[i], &dhcp)? {
            order::add_text(&mut cleared, stale[i].clone());
        } else {
            let mut message = "could not reset DNS on '".to_owned();
            message.append(&stale[i]);
            message.append("' — run: networksetup -setdnsservers '");
            message.append(&stale[i]);
            message.append("' Empty");
            warning = Some(message);
        }
        i = i + 1;
    }
    Some(GuardOutcome { cleared, warning })
}

/// What the guard reports in the end: that stale DNS was there at the last
/// sweep is a warning, unless there is another.
pub open spec fn guard_report(done: GuardOutcomeView, dirty: bool) -> GuardOutcomeView {
    if dirty && done.warning is None {
        GuardOutcomeView { warning: Some(reappearing_warning()), ..done }
    } else {
        done
    }
}

/// The sweeps from `i` on. `done` is what was done so far, `clean` whether the
/// sweep before was clean, `dirty` whether it was not.
pub open spec fn sweep_from(
    s: SessionView,
    tunnel_dns: Seq<Seq<char>>,
    delays: Seq<u64>,
    i: int,
    done: GuardOutcomeView,
    clean: bool,
    dirty: bool,
) -> Step<GuardOutcomeView>
    decreases delays.len() - i,
{
    if i >= delays.len() {
        (s, Some(guard_report(done, dirty)))
    } else {
        let (s, slept) = if delays[i] > 0 {
            s.sleep(delays[i])
        } else {
            (s, Some(()))
        };
        if slept is None {
            (s, None)
        } else {
            let (s, found) = finding_stale(s, tunnel_dns);
            match found {
                None => (s, None),
                // No networksetup (any more): what was done so far stands.
                Some(None) => (s, Some(done)),
                Some(Some(stale)) => if stale.len() == 0 {
                    if clean {
                        // Two consecutive clean sweeps.
                        (s, Some(guard_report(done, false)))
                    } else {
                        sweep_from(s, tunnel_dns, delays, i + 1, done, true, false)
                    }
                } else {
                    let (s, reset) = reset_from(s, stale, 0, done.cleared, done.warning);
                    match reset {
                        None => (s, None),
                        Some(more) => sweep_from(
                            s,
                            tunnel_dns,
                            delays,
                            i + 1,
                            more,
                            false,
                            true,
                        ),
                    }
                },
            }
        }
    }
}

/// Guarding against stale DNS.
pub open spec fn guarding(s: SessionView, tunnel_dns: Seq<Seq<char>>, delays: Seq<u64>) -> Step<
    GuardOutcomeView,
> {
    if tunnel_dns.len() == 0 {
        (s, Some(GuardOutcomeView::nothing()))
    } else {
        sweep_from(s, tunnel_dns, delays, 0, GuardOutcomeView::nothing(), false, false)
    }
}

/// Reset any service still pinned to `tunnel_dns` back to DHCP, sweeping on
/// the given delay schedule until two consecutive sweeps come back clean.
///
/// Never fails: problems are embedded in the outcome so teardown paths can
/// report them without aborting.
pub fn guard(session: &mut Session, tunnel_dns: &Vec<String>, sweep_delays_ms: &Vec<u64>) -> (r:
    Option<GuardOutcome>)
    ensures
        (final(session).deep_view(), r.deep_view()) == guarding(
            old(session).deep_view(),
            tunnel_dns.deep_view(),
            sweep_delays_ms@,
        ),
{
    if tunnel_dns.len() == 0 {
        return Some(GuardOutcome::default());
    }
    let ghost whole = guarding(session.deep_view(), tunnel_dns.deep_view(), sweep_delays_ms@);
    let mut done = GuardOutcome::default();
    let mut clean = false;
    let mut dirty = false;
    let mut finished = false;
    let mut i: usize = 0;
    while i < sweep_delays_ms.len() && !finished
        invariant
            i <= sweep_delays_ms@.len(),
            whole == guarding(old(session).deep_view(), tunnel_dns.deep_view(), sweep_delays_ms@),
            !finished ==> whole == sweep_from(
                session.deep_view(),
                tunnel_dns.deep_view(),
                sweep_delays_ms@,
                i as int,
                done.deep_view(),
                clean,
                dirty,
            ),
            finished ==> whole == (
                session.deep_view(),
                Some(guard_report(done.deep_view(), dirty)),
            ),
        decreases sweep_delays_ms@.len() - i,
    {
        let delay: u64 = sweep_delays_ms[i];
        if delay > 0 {
            session.sleep(delay)?;
        }
        match stale_services(session, tunnel_dns)? {
            None => {
                return Some(done);
            },
            Some(stale) => {
                if stale.len() == 0 {
                    dirty = false;
                    if clean {
                        finished = true;
                    } else {
                        clean = true;
                    }
                } else {
                    clean = false;
                    dirty = true;
                    done = reset_services(session, &stale, done)?;
                }
            },
        }
        i = i + 1;
    }
    if dirty && done.warning.is_none() {
        done.warning = Some(
            "stale VPN DNS kept reappearing after the final sweep — a lingering wg-quick monitor may still be restoring it; re-run `vpn down` to repair".to_owned(),
        );
    }
    Some(done)
}

// ---------------------------------------------------------------------------
// Restoring a snapshot
// ---------------------------------------------------------------------------

/// The warning that the DNS of a service could not be restored.
pub open spec fn restore_warning(service: Seq<char>, servers: Seq<Seq<char>>) -> Seq<char> {
    "could not restore DNS on '"@ + service + "' — run: networksetup -setdnsservers '"@ + service
        + "' "@ + (if servers.len() == 0 {
        "Empty"@
    } else {
        text::join(servers, " "@)
    })
}

/// Setting the services of the snapshot from `i` on: the services restored and
/// the last warning.
pub open spec fn reapply_from(
    s: SessionView,
    snapshot: Snapshot,
    i: int,
    restored: Seq<Seq<char>>,
    warning: Option<Seq<char>>,
) -> Step<GuardOutcomeView>
    decreases snapshot.len() - i,
{
    if i >= snapshot.len() {
        (s, Some(GuardOutcomeView { cleared: restored, warning }))
    } else {
        let (service, servers) = snapshot[i];
        let (s, ok) = setting_dns(s, service, servers);
        match ok {
            None => (s, None),
            Some(true) => reapply_from(
                s,
                snapshot,
                i + 1,
                order::with_text(restored, service),
                warning,
            ),
            Some(false) => reapply_from(
                s,
                snapshot,
                i + 1,
                restored,
                Some(restore_warning(service, servers)),
            ),
        }
    }
}

/// What was restored and what the guard cleared, taken together; a warning of
/// the guard goes before one of the restoring.
pub open spec fn restore_report(
    restored: GuardOutcomeView,
    guarded: GuardOutcomeView,
) -> GuardOutcomeView {
    GuardOutcomeView {
        cleared: order::text_set(guarded.cleared + restored.cleared),
        warning: if guarded.warning is Some {
            guarded.warning
        } else {
            restored.warning
        },
    }
}

/// Restoring a snapshot.
pub open spec fn restoring(
    s: SessionView,
    snapshot: Snapshot,
    tunnel_dns: Seq<Seq<char>>,
    delays: Seq<u64>,
) -> Step<GuardOutcomeView> {
    let (s, reapplied) = reapply_from(s, snapshot, 0, Seq::empty(), None);
    match reapplied {
        None => (s, None),
        Some(restored) => {
            let (s, guarded) = guarding(s, tunnel_dns, delays);
            (
                s,
                match guarded {
                    None => None,
                    Some(outcome) => Some(restore_report(restored, outcome)),
                },
            )
        },
    }
}

/// Set each service of the snapshot.
fn reapply(session: &mut Session, snapshot: &TextMap<Vec<String>>) -> (r: Option<GuardOutcome>)
    ensures
        (final(session).deep_view(), r.deep_view()) == reapply_from(
            old(session).deep_view(),
            snapshot.deep_view(),
            0,
            Seq::empty(),
            None,
        ),
{
    let ghost v = snapshot.deep_view();
    let ghost whole = reapply_from(session.deep_view(), v, 0, Seq::empty(), None);
    let entries = snapshot.entries();
    let mut restored = text::no_texts();
    let mut warning: Option<String> = None;
    let mut i: usize = 0;
    while i < entries.len()
        invariant
            v == snapshot.deep_view(),
            v == entries.deep_view(),
            i <= entries@.len(),
            whole == reapply_from(
                old(session).deep_view(),
                snapshot.deep_view(),
                0,
                Seq::empty(),
                None,
            ),
            whole == reapply_from(
                session.deep_view(),
                v,
                i as int,
                restored.deep_view(),
                warning.deep_view(),
            ),
        decreases entries@.len() - i,
    {
        let service = &entries[i].0;
        let servers = &entries[i].1;
        proof {
            assert(v[i as int] == (service@, servers.deep_view()));
        }
        if set_dns(session, service, servers)? {
            order::add_text(&mut restored, service.clone());
        } else {
            let mut message = "could not restore DNS on '".to_owned();
            message.append(service);
            message.append("' — run: networksetup -setdnsservers '");
            message.append(service);
            message.append("' ");
            if servers.len() == 0 {
                message.append("Empty");
            } else {
                let list = text::text_join(servers, " ");
                message.append(&list);
            }
            warning = Some(message);
        }
        i = i + 1;
    }
    Some(GuardOutcome { cleared: restored, warning })
}

/// The texts of two lists in order, each once.
fn union(a: &Vec<String>, b: &Vec<String>) -> (r: Vec<String>)
    ensures
        r.deep_view() == order::text_set(a.deep_view() + b.deep_view()),
{
    let ghost x = a.deep_view();
    let ghost y = b.deep_view();
    let ghost all = x + y;
    let mut out = text::no_texts();
    let mut i: usize = 0;
    proof {
        assert(all.take(0) =~= Seq::<Seq<char>>::empty());
    }
    while i < a.len()
        invariant
            x == a.deep_view(),
            all == x + y,
            i <= a@.len(),
            out.deep_view() == order::text_set(all.take(i as int)),
        decreases a@.len() - i,
    {
        proof {
            assert(all.take(i + 1).drop_last() =~= all.take(i as int));
            assert(all.take(i + 1).last() == a@[i as int]@);
        }
        order::add_text(&mut out, a[i].clone());
        i = i + 1;
    }
    let mut k: usize = 0;
    while k < b.len()
        invariant
            x == a.deep_view(),
            y == b.deep_view(),
            all == x + y,
            x.len() == a@.len(),
            k <= b@.len(),
            out.deep_view() == order::text_set(all.take(x.len() + k)),
        decreases b@.len() - k,
    {
        proof {
            assert(all.take(x.len() + k + 1).drop_last() =~= all.take(x.len() + k));
            assert(all.take(x.len() + k + 1).last() == b@[k as int]@);
        }
        order::add_text(&mut out, b[k].clone());
        k = k + 1;
    }
    proof {
        assert(all.take(all.len() as int) =~= all);
    }
    out
}

/// Restore each service in `snapshot` to its recorded DNS (an empty list resets
/// it to DHCP), then run [`guard`] to verify no tunnel resolver lingers — this
/// mops up asynchronous re-stamps by `wg-quick`'s monitor and any service
/// outside the snapshot. Returns the combined outcome.
pub fn restore(
    session: &mut Session,
    snapshot: &TextMap<Vec<String>>,
    tunnel_dns: &Vec<String>,
    sweep_delays_ms: &Vec<u64>,
) -> (r: Option<GuardOutcome>)
    ensures
        (final(session).deep_view(), r.deep_view()) == restoring(
            old(session).deep_view(),
            snapshot.deep_view(),
            tunnel_dns.deep_view(),
            sweep_delays_ms@,
        ),
{
    let restored = reapply(session, snapshot)?;
    let outcome = guard(session, tunnel_dns, sweep_delays_ms)?;
    let cleared = union(&outcome.cleared, &restored.cleared);
    let warning = match outcome.warning {
        Some(w) => Some(w),
        None => restored.warning,
    };
    Some(GuardOutcome { cleared, warning })
}

// ---------------------------------------------------------------------------
// Laws
// ---------------------------------------------------------------------------

/// No server of `tunnel_dns` is in the snapshot.
pub open spec fn sanitized(snapshot: Snapshot, tunnel_dns: Seq<Seq<char>>) -> bool {
    forall|i: int, server: Seq<char>|
        0 <= i < snapshot.len() && tunnel_dns.contains(server)
            ==> !#[trigger] snapshot[i].1.contains(server)
}

proof fn lemma_without(servers: Seq<Seq<char>>, tunnel_dns: Seq<Seq<char>>, server: Seq<char>)
    ensures
        without(servers, tunnel_dns).contains(server) <==> servers.contains(server)
            && !tunnel_dns.contains(server),
    decreases servers.len(),
{
    if servers.len() > 0 {
        let t = servers.drop_last();
        lemma_without(t, tunnel_dns, server);
        let before = without(t, tunnel_dns);
        let after = without(servers, tunnel_dns);
        if t.contains(server) {
            let k = choose|k: int| 0 <= k < t.len() && t[k] == server;
            assert(servers[k] == server);
        }
        if servers.contains(server) && servers.last() != server {
            let k = choose|k: int| 0 <= k < servers.len() && servers[k] == server;
            assert(t[k] == server);
        }
        if before.contains(server) {
            let k = choose|k: int| 0 <= k < before.len() && before[k] == server;
            assert(after[k] == server);
        }
        if after.contains(server) {
            let k = choose|k: int| 0 <= k < after.len() && after[k] == server;
            if k < before.len() {
                assert(before[k] == server);
            }
        }
        assert(servers[servers.len() - 1] == servers.last());
        if !tunnel_dns.contains(servers.last()) {
            assert(after[after.len() - 1] == servers.last());
        }
    }
}

proof fn lemma_capture_sanitized(
    s: SessionView,
    names: Seq<Seq<char>>,
    tunnel_dns: Seq<Seq<char>>,
    i: int,
    snapshot: Snapshot,
)
    requires
        order::keys_ordered(snapshot),
        sanitized(snapshot, tunnel_dns),
    ensures
        capture_from(s, names, tunnel_dns, i, snapshot).1 matches Some(Some(taken)) ==> sanitized(
            taken,
            tunnel_dns,
        ) && order::keys_ordered(taken),
    decreases names.len() - i,
{
    if i < names.len() {
        let (s1, servers) = reading_dns(s, names[i]);
        if let Some(Some(list)) = servers {
            let clean = without(list, tunnel_dns);
            let next = order::put(snapshot, names[i], clean);
            order::lemma_put(snapshot, names[i], clean);
            assert forall|k: int, server: Seq<char>|
                0 <= k < next.len() && tunnel_dns.contains(
                    server,
                ) implies !#[trigger] next[k].1.contains(server) by {
                if next[k] == (names[i], clean) {
                    lemma_without(list, tunnel_dns, server);
                } else {
                    let m = choose|m: int| 0 <= m < snapshot.len() && snapshot[m] == next[k];
                    assert(!snapshot[m].1.contains(server));
                }
            }
            lemma_capture_sanitized(s1, names, tunnel_dns, i + 1, next);
        }
    }
}

/// A snapshot never holds one of the tunnel's own servers, whatever the system
/// says. So restoring it cannot pin the tunnel's resolver again:
/// [`law_restore_never_pins`](crate::dns_laws::law_restore_never_pins).
pub proof fn law_capture_sanitized(s: SessionView, tunnel_dns: Seq<Seq<char>>)
    ensures
        capturing(s, tunnel_dns).1 matches Some(Some(taken)) ==> sanitized(taken, tunnel_dns),
{
    let (s1, listed) = listing_services(s);
    if let Some(Some(names)) = listed {
        lemma_capture_sanitized(s1, names, tunnel_dns, 0, Seq::empty());
    }
}

/// The guard does nothing for a tunnel without DNS servers.
pub proof fn law_guard_without_dns(s: SessionView, delays: Seq<u64>)
    ensures
        guarding(s, Seq::empty(), delays) == (s, Some(GuardOutcomeView::nothing())),
{
}

/// One sweep of the guard: once the delay is over, finding the services that
/// are pinned to the tunnel's servers.
pub open spec fn sweeping(s: SessionView, tunnel_dns: Seq<Seq<char>>, delay: u64) -> Step<
    Option<Seq<Seq<char>>>,
> {
    let (s, slept) = if delay > 0 {
        s.sleep(delay)
    } else {
        (s, Some(()))
    };
    if slept is None {
        (s, None)
    } else {
        finding_stale(s, tunnel_dns)
    }
}

/// Where `networksetup` cannot run, the guard does nothing beyond finding that
/// out in its first sweep.
pub proof fn law_guard_without_networksetup(
    s: SessionView,
    tunnel_dns: Seq<Seq<char>>,
    delays: Seq<u64>,
)
    requires
        delays.len() > 0,
        tunnel_dns.len() > 0,
        sweeping(s, tunnel_dns, delays[0]).1 == Some(None::<Seq<Seq<char>>>),
    ensures
        guarding(s, tunnel_dns, delays) == (
            sweeping(s, tunnel_dns, delays[0]).0,
            Some(GuardOutcomeView::nothing()),
        ),
{
}

/// Where two sweeps in a row find nothing stale, the guard stops and reports
/// what it did so far.
pub proof fn law_guard_stops_when_clean(
    s: SessionView,
    tunnel_dns: Seq<Seq<char>>,
    delays: Seq<u64>,
    i: int,
    done: GuardOutcomeView,
    dirty: bool,
)
    requires
        0 <= i,
        i + 1 < delays.len(),
        sweeping(s, tunnel_dns, delays[i]).1 == Some(Some(Seq::<Seq<char>>::empty())),
        sweeping(sweeping(s, tunnel_dns, delays[i]).0, tunnel_dns, delays[i + 1]).1 == Some(
            Some(Seq::<Seq<char>>::empty()),
        ),
    ensures
        sweep_from(s, tunnel_dns, delays, i, done, false, dirty) == (
            sweeping(sweeping(s, tunnel_dns, delays[i]).0, tunnel_dns, delays[i + 1]).0,
            Some(done),
        ),
{
    let s1 = sweeping(s, tunnel_dns, delays[i]).0;
    assert(sweep_from(s, tunnel_dns, delays, i, done, false, dirty) == sweep_from(
        s1,
        tunnel_dns,
        delays,
        i + 1,
        done,
        true,
        false,
    ));
}

/// The guard never reports a host as clean that it left dirty: where its last
/// sweep found something stale, it warns.
pub proof fn law_guard_warns_when_dirty(
    s: SessionView,
    tunnel_dns: Seq<Seq<char>>,
    delays: Seq<u64>,
    done: GuardOutcomeView,
    clean: bool,
)
    requires
        delays.len() > 0,
        sweeping(s, tunnel_dns, delays.last()).1 matches Some(Some(stale)) && stale.len() > 0,
    ensures
        sweep_from(s, tunnel_dns, delays, delays.len() - 1, done, clean, false).1 matches Some(
            outcome,
        ) ==> outcome.warning is Some,
{
    let (s1, found) = sweeping(s, tunnel_dns, delays.last());
    let (s2, reset) = reset_from(s1, found->0->0, 0, done.cleared, done.warning);
    if let Some(more) = reset {
        assert(sweep_from(s2, tunnel_dns, delays, delays.len() as int, more, false, true) == (
            s2,
            Some(guard_report(more, true)),
        ));
    }
}

} // verus!
