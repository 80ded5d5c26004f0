//! Static safety checks over tunnel configs.
//!
//! The headline check catches the split-tunnel routing loop: an `AllowedIPs`
//! CIDR that covers the tunnel's own `Endpoint` routes the encrypted packets
//! into the tunnel itself, and the handshake silently times out. `wg-quick`
//! only installs an endpoint bypass route for exact-`0.0.0.0/0` configs, so
//! anything else must exclude the endpoint.
use vstd::prelude::*;

use crate::cidr;
use crate::cidr::Cidr4;
use crate::config::{ConfSummary, ConfSummaryView};
use crate::order;
use crate::text;

verus! {

/// How serious a finding is. Errors make a config unusable or broken;
/// warnings are advisory.
#[derive(Debug, Clone, Copy, PartialEq, Eq, Structural)]
pub enum Severity {
    /// The config will not work (or will break routing) as written.
    Error,
    /// Worth knowing; the config can still work.
    Warning,
}

/// One lint finding.
#[derive(Debug, PartialEq, Eq)]
pub struct Finding {
    /// Severity of the finding.
    pub severity: Severity,
    /// Human-readable explanation.
    pub message: String,
}

/// A [`Finding`] with its message as a sequence of characters.
pub struct FindingView {
    /// Severity of the finding.
    pub severity: Severity,
    /// Human-readable explanation.
    pub message: Seq<char>,
}

impl DeepView for Finding {
    type V = FindingView;

    open spec fn deep_view(&self) -> FindingView {
        FindingView { severity: self.severity, message: self.message@ }
    }
}

impl order::Ranked for Finding {
    open spec fn ranks_before(a: FindingView, b: FindingView) -> bool {
        a.severity is Error && b.severity is Warning
    }

    fn precedes(&self, other: &Self) -> (r: bool) {
        self.severity == Severity::Error && other.severity == Severity::Warning
    }

    proof fn lemma_rank(a: FindingView, b: FindingView, c: FindingView) {
    }
}

/// The lint outcome for one tunnel config.
#[derive(Debug, PartialEq, Eq)]
pub struct LintResult {
    /// Tunnel name.
    pub name: String,
    /// `true` when no error-severity findings exist.
    pub ok: bool,
    /// All findings, errors first.
    pub findings: Vec<Finding>,
}

/// A [`LintResult`] with its texts as sequences of characters.
#[verifier::ext_equal]
pub struct LintResultView {
    /// Tunnel name.
    pub name: Seq<char>,
    /// `true` when no error-severity findings exist.
    pub ok: bool,
    /// All findings, errors first.
    pub findings: Seq<FindingView>,
}

impl DeepView for LintResult {
    type V = LintResultView;

    open spec fn deep_view(&self) -> LintResultView {
        LintResultView { name: self.name@, ok: self.ok, findings: self.findings.deep_view() }
    }
}

/// The host part of an `Endpoint` value (`host:port`).
pub open spec fn endpoint_host(endpoint: Seq<char>) -> Seq<char> {
    match text::rsplit_once(endpoint, ':') {
        Some((host, _)) => host,
        None => endpoint,
    }
}

/// The host part of an `Endpoint` value (`host:port`).
pub fn read_endpoint_host(endpoint: &str) -> (r: String)
    ensures
        r@ == endpoint_host(endpoint@),
{
    match text::text_rsplit_once(endpoint, ':') {
        Some((host, _)) => host,
        None => endpoint.to_owned(),
    }
}

/// The blocks among `items`; what is no IPv4 block is passed over.
pub open spec fn blocks(items: Seq<Seq<char>>) -> Seq<Cidr4>
    decreases items.len(),
{
    if items.len() == 0 {
        Seq::empty()
    } else {
        match cidr::block(items.last()) {
            Ok(c) => blocks(items.drop_last()).push(c),
            Err(_) => blocks(items.drop_last()),
        }
    }
}

/// The first of the blocks that holds `ip`.
pub open spec fn first_holding(nets: Seq<Cidr4>, ip: int) -> Option<Cidr4>
    decreases nets.len(),
{
    if nets.len() == 0 {
        None
    } else {
        match first_holding(nets.drop_last(), ip) {
            Some(c) => Some(c),
            None => if nets.last().holds(ip) {
                Some(nets.last())
            } else {
                None
            },
        }
    }
}

/// Whether one of the blocks is the whole address space.
pub open spec fn has_default_route(nets: Seq<Cidr4>) -> bool {
    exists|i: int| 0 <= i < nets.len() && (#[trigger] nets[i]).prefix == 0
}

/// The allowed block that covers the endpoint's own address. There is none
/// where the endpoint is no IPv4 address (it cannot be checked statically), nor
/// where a default route is among the blocks (`wg-quick` then installs a bypass
/// for the endpoint).
pub open spec fn looping_block(endpoint: Seq<char>, allowed_ips: Seq<Seq<char>>) -> Option<Cidr4> {
    match cidr::address(endpoint_host(endpoint)) {
        Ok(ip) => {
            let nets = blocks(allowed_ips);
            if has_default_route(nets) {
                None
            } else {
                first_holding(nets, ip as int)
            }
        },
        Err(_) => None,
    }
}

/// The finding about a routing loop.
pub open spec fn loop_finding(covering: Cidr4, endpoint: Seq<char>) -> FindingView {
    FindingView {
        severity: Severity::Error,
        message: "routing loop: AllowedIPs "@ + cidr::block_text(covering)
            + " covers the Endpoint ("@ + endpoint
            + ") — the tunnel's own packets would route into the tunnel; exclude the endpoint /32 (`vpn split` does this automatically)"@,
    }
}

/// The finding about shell hooks.
pub open spec fn hook_finding(hooks: Seq<Seq<char>>) -> FindingView {
    FindingView {
        severity: Severity::Error,
        message: "shell hook(s) "@ + text::join(hooks, ", "@)
            + " — wg-quick runs these as root, a privilege-escalation risk; remove them"@,
    }
}

/// What is wrong with a config, in the order of the checks.
pub open spec fn checks(s: ConfSummaryView) -> Seq<FindingView> {
    let private_key = if s.has_private_key {
        Seq::empty()
    } else {
        seq![
            FindingView {
                severity: Severity::Error,
                message: "no [Interface] PrivateKey — wg-quick cannot bring this up"@,
            },
        ]
    };
    let public_key = if s.peer_public_key is Some {
        Seq::empty()
    } else {
        seq![
            FindingView {
                severity: Severity::Error,
                message: "no [Peer] PublicKey — not a usable WireGuard peer"@,
            },
        ]
    };
    let hooks = if s.exec_hooks.len() == 0 {
        Seq::empty()
    } else {
        seq![hook_finding(s.exec_hooks)]
    };
    let endpoint = match s.endpoint {
        None => seq![
            FindingView {
                severity: Severity::Warning,
                message: "no Endpoint — unusable as a VPN client config"@,
            },
        ],
        Some(endpoint) => match looping_block(endpoint, s.allowed_ips) {
            Some(covering) => seq![loop_finding(covering, endpoint)],
            None => Seq::empty(),
        },
    };
    private_key + public_key + hooks + endpoint
}

/// Whether there is an error among the findings.
pub open spec fn any_error(findings: Seq<FindingView>) -> bool {
    exists|i: int| 0 <= i < findings.len() && (#[trigger] findings[i]).severity is Error
}

/// The lint outcome of a config.
pub open spec fn linted(name: Seq<char>, s: ConfSummaryView) -> LintResultView {
    let findings = order::sorted::<Finding>(checks(s));
    LintResultView { name, ok: !any_error(findings), findings }
}

/// The blocks among `items`.
fn read_blocks(items: &Vec<String>) -> (r: Vec<Cidr4>)
    ensures
        r@ == blocks(items.deep_view()),
        cidr::all_wf(r@),
{
    let ghost s = items.deep_view();
    let mut out: Vec<Cidr4> = Vec::new();
    let mut i: usize = 0;
    proof {
        assert(s.take(0) =~= Seq::<Seq<char>>::empty());
    }
    while i < items.len()
        invariant
            s == items.deep_view(),
            i <= items@.len(),
            out@ == blocks(s.take(i as int)),
            cidr::all_wf(out@),
        decreases items@.len() - i,
    {
        proof {
            assert(s.take(i + 1).drop_last() =~= s.take(i as int));
            assert(s.take(i + 1).last() == items@[i as int]@);
        }
        match Cidr4::parse(&items[i]) {
            Ok(c) => {
                out.push(c);
            },
            Err(_) => {},
        }
        i = i + 1;
    }
    proof {
        assert(s.take(s.len() as int) =~= s);
    }
    out
}

/// A block found among the first ones is the first one.
proof fn lemma_first_holding_prefix(nets: Seq<Cidr4>, ip: int, n: int)
    requires
        0 <= n <= nets.len(),
        first_holding(nets.take(n), ip) is Some,
    ensures
        first_holding(nets, ip) == first_holding(nets.take(n), ip),
    decreases nets.len() - n,
{
    if n < nets.len() {
        assert(nets.take(n + 1).drop_last() =~= nets.take(n));
        lemma_first_holding_prefix(nets, ip, n + 1);
    } else {
        assert(nets.take(n) =~= nets);
    }
}

/// The routing-loop check: a non-default-route AllowedIPs set must not cover
/// the endpoint's own address.
fn find_looping_block(endpoint: &str, allowed_ips: &Vec<String>) -> (r: Option<Cidr4>)
    ensures
        r == looping_block(endpoint@, allowed_ips.deep_view()),
{
    let host = read_endpoint_host(endpoint);
    match cidr::parse_ip4(&host) {
        Ok(ip) => {
            let nets = read_blocks(allowed_ips);
            let mut i: usize = 0;
            while i < nets.len()
                invariant
                    i <= nets@.len(),
                    nets@ == blocks(allowed_ips.deep_view()),
                    cidr::address(endpoint_host(endpoint@)) == Ok::<u32, Seq<char>>(ip),
                    forall|j: int| 0 <= j < i ==> (#[trigger] nets@[j]).prefix != 0,
                decreases nets@.len() - i,
            {
                if nets[i].prefix == 0 {
                    proof {
                        assert(nets@[i as int].prefix == 0);
                    }
                    return None;
                }
                i = i + 1;
            }
            let mut k: usize = 0;
            proof {
                assert(nets@.take(0) =~= Seq::<Cidr4>::empty());
            }
            while k < nets.len()
                invariant
                    k <= nets@.len(),
                    nets@ == blocks(allowed_ips.deep_view()),
                    cidr::all_wf(nets@),
                    cidr::address(endpoint_host(endpoint@)) == Ok::<u32, Seq<char>>(ip),
                    !has_default_route(nets@),
                    first_holding(nets@.take(k as int), ip as int) is None,
                decreases nets@.len() - k,
            {
                proof {
                    assert(nets@.take(k + 1).drop_last() =~= nets@.take(k as int));
                    assert(nets@[k as int].wf());
                }
                if nets[k].contains_ip(ip) {
                    proof {
                        lemma_first_holding_prefix(nets@, ip as int, k + 1);
                    }
                    return Some(nets[k]);
                }
                k = k + 1;
            }
            proof {
                assert(nets@.take(nets@.len() as int) =~= nets@);
            }
            None
        },
        Err(_) => None,
    }
}

/// Whether there is an error among the findings.
fn find_error(findings: &Vec<Finding>) -> (r: bool)
    ensures
        r == any_error(findings.deep_view()),
{
    let ghost f = findings.deep_view();
    let mut i: usize = 0;
    while i < findings.len()
        invariant
            f == findings.deep_view(),
            i <= findings@.len(),
            forall|j: int| 0 <= j < i ==> !((#[trigger] f[j]).severity is Error),
        decreases findings@.len() - i,
    {
        proof {
            assert(f[i as int] == findings@[i as int].deep_view());
        }
        if findings[i].severity == Severity::Error {
            proof {
                assert(f[i as int].severity is Error);
            }
            return true;
        }
        i = i + 1;
    }
    false
}

/// Add a finding to the list.
fn note(findings: &mut Vec<Finding>, severity: Severity, message: String)
    ensures
        final(findings).deep_view() == old(findings).deep_view() + seq![
            FindingView { severity, message: message@ },
        ],
{
    let ghost before = findings.deep_view();
    let ghost m = message@;
    findings.push(Finding { severity, message });
    proof {
        assert(findings.deep_view() =~= before + seq![FindingView { severity, message: m }]);
    }
}

/// Lint a config summary.
pub fn lint(name: &str, summary: &ConfSummary) -> (r: LintResult)
    ensures
        r.deep_view() == linted(name@, summary.deep_view()),
{
    let mut findings: Vec<Finding> = Vec::new();
    let ghost none = Seq::<FindingView>::empty();
    proof {
        assert(findings.deep_view() =~= none);
        assert forall|s: Seq<FindingView>| s + none == s by {
            assert(s + none =~= s);
        }
        assert forall|s: Seq<FindingView>| none + s == s by {
            assert(none + s =~= s);
        }
    }
    if !summary.has_private_key {
        note(
            &mut findings,
            Severity::Error,
            "no [Interface] PrivateKey — wg-quick cannot bring this up".to_owned(),
        );
    }
    if summary.peer_public_key.is_none() {
        note(
            &mut findings,
            Severity::Error,
            "no [Peer] PublicKey — not a usable WireGuard peer".to_owned(),
        );
    }
    if summary.exec_hooks.len() > 0 {
        let mut message = "shell hook(s) ".to_owned();
        let names = text::text_join(&summary.exec_hooks, ", ");
        message.append(&names);
        message.append(
            " — wg-quick runs these as root, a privilege-escalation risk; remove them",
        );
        note(&mut findings, Severity::Error, message);
    }
    match &summary.endpoint {
        None => {
            note(
                &mut findings,
                Severity::Warning,
                "no Endpoint — unusable as a VPN client config".to_owned(),
            );
        },
        Some(endpoint) => {
            match find_looping_block(endpoint, &summary.allowed_ips) {
                Some(covering) => {
                    let mut message = "routing loop: AllowedIPs ".to_owned();
                    let block = covering.to_string();
                    message.append(&block);
                    message.append(" covers the Endpoint (");
                    message.append(endpoint);
                    message.append(
                        ") — the tunnel's own packets would route into the tunnel; exclude the endpoint /32 (`vpn split` does this automatically)",
                    );
                    note(&mut findings, Severity::Error, message);
                },
                None => {},
            }
        },
    }
    proof {
        assert(findings.deep_view() =~= checks(summary.deep_view()));
    }
    let findings = order::sort(findings);
    let ok = !find_error(&findings);
    LintResult { name: name.to_owned(), ok, findings }
}

// ---------------------------------------------------------------------------
// Laws
// ---------------------------------------------------------------------------

/// A config passes exactly if it has a private key and a peer public key, no
/// shell hook, and no allowed block that covers its own endpoint. A missing
/// endpoint alone does not fail it.
pub proof fn law_lint_ok(name: Seq<char>, s: ConfSummaryView)
    ensures
        linted(name, s).ok <==> {
            &&& s.has_private_key
            &&& s.peer_public_key is Some
            &&& s.exec_hooks.len() == 0
            &&& s.endpoint matches Some(endpoint) ==> looping_block(endpoint, s.allowed_ips) is None
        },
{
    let found = checks(s);
    let sorted = order::sorted::<Finding>(found);
    order::lemma_sorted::<Finding>(found);
    if any_error(sorted) {
        lemma_error_kept(sorted, found);
    }
    if any_error(found) {
        lemma_error_kept(found, sorted);
        let i = choose|i: int| 0 <= i < found.len() && (#[trigger] found[i]).severity is Error;
        assert(found[i].severity is Error);
    }
    let n1 = if s.has_private_key { 0int } else { 1int };
    let n2 = if s.peer_public_key is Some { 0int } else { 1int };
    let n3 = if s.exec_hooks.len() == 0 { 0int } else { 1int };
    if !s.has_private_key {
        assert(found[0].severity is Error);
    }
    if s.peer_public_key is None {
        assert(found[n1].severity is Error);
    }
    if s.exec_hooks.len() > 0 {
        assert(found[n1 + n2].severity is Error);
    }
    if s.endpoint is Some && looping_block(s.endpoint->0, s.allowed_ips) is Some {
        assert(found[n1 + n2 + n3].severity is Error);
    }
}

/// The errors of a config are listed before its warnings.
pub proof fn law_lint_errors_first(name: Seq<char>, s: ConfSummaryView, i: int, j: int)
    requires
        0 <= i < j < linted(name, s).findings.len(),
        linted(name, s).findings[j].severity is Error,
    ensures
        linted(name, s).findings[i].severity is Error,
{
    order::lemma_sorted::<Finding>(checks(s));
    let f = linted(name, s).findings;
    assert(!<Finding as order::Ranked>::ranks_before(f[j], f[i]));
}

/// Lists with the same findings agree on whether there is an error.
proof fn lemma_error_kept(a: Seq<FindingView>, b: Seq<FindingView>)
    requires
        a.to_multiset() == b.to_multiset(),
        any_error(a),
    ensures
        any_error(b),
{
    broadcast use vstd::seq_lib::group_to_multiset_ensures;

    let i = choose|i: int| 0 <= i < a.len() && (#[trigger] a[i]).severity is Error;
    assert(a.contains(a[i]));
    assert(a.to_multiset().count(a[i]) > 0);
    assert(b.contains(a[i]));
    let k = choose|k: int| 0 <= k < b.len() && b[k] == a[i];
    assert(b[k].severity is Error);
}

} // verus!
