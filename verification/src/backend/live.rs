//! What is up: matching tunnels to live interfaces.
use vstd::prelude::*;

use super::{backend_error, failure, Backend, BackendView};
use crate::config;
use crate::config::{PeerIdentity, PeerIdentityView, Tunnel, TunnelView};
use crate::error::{so_far, Error, ErrorView};
use crate::session::{Session, SessionView, Step};
use crate::status;
use crate::status::{
    DumpPeer, DumpPeerView, ListEntry, ListEntryView, Peer, PeerView, TunnelStatus,
    TunnelStatusView,
};
use crate::text;

verus! {

impl Clone for DumpPeer {
    fn clone(&self) -> (r: Self)
        ensures
            r.deep_view() == self.deep_view(),
    {
        DumpPeer { interface: self.interface.clone(), peer: self.peer.clone() }
    }
}

/// Whether a live peer is the one that a config describes. Peers must have the
/// config's public key. When the config declares allowed-IPs, the live
/// allowed-IPs set must match exactly — sibling configs for the same server
/// share a public key and differ only in routing, so the routing set is the
/// discriminator.
pub open spec fn serves(row: DumpPeerView, id: PeerIdentityView) -> bool {
    &&& row.peer.public_key == id.public_key
    &&& id.allowed_ips.len() == 0 || status::normalized(row.peer.allowed_ips) == id.allowed_ips
}

/// The first live peer that a config describes.
pub open spec fn live_row(dump: Seq<DumpPeerView>, id: PeerIdentityView) -> Option<DumpPeerView>
    decreases dump.len(),
{
    if dump.len() == 0 {
        None
    } else {
        match live_row(dump.drop_last(), id) {
            Some(row) => Some(row),
            None => if serves(dump.last(), id) {
                Some(dump.last())
            } else {
                None
            },
        }
    }
}

/// The peers on an interface.
pub open spec fn peers_on(dump: Seq<DumpPeerView>, interface: Seq<char>) -> Seq<PeerView>
    decreases dump.len(),
{
    if dump.len() == 0 {
        Seq::empty()
    } else if dump.last().interface == interface {
        peers_on(dump.drop_last(), interface).push(dump.last().peer)
    } else {
        peers_on(dump.drop_last(), interface)
    }
}

/// The status of a tunnel, given its live peer.
pub open spec fn status_of(
    name: Seq<char>,
    live: Option<DumpPeerView>,
    dump: Seq<DumpPeerView>,
) -> TunnelStatusView {
    match live {
        None => TunnelStatusView::down(name),
        Some(hit) => TunnelStatusView {
            name,
            up: true,
            interface: Some(hit.interface),
            peers: peers_on(dump, hit.interface),
        },
    }
}

impl BackendView {
    /// Reading the live peers.
    pub open spec fn dumping(self, s: SessionView) -> Step<Result<Seq<DumpPeerView>, ErrorView>> {
        let (s, ran) = self.running(s, self.wg, seq!["show"@, "all"@, "dump"@]);
        (
            s,
            match ran {
                None => None,
                Some(Err(e)) => Some(Err(e)),
                Some(Ok(out)) => if out.success() {
                    Some(Ok(status::all_dump(out.stdout)))
                } else {
                    Some(Err(failure(self.wg, out)))
                },
            },
        )
    }
}

/// Finding the live peer of a tunnel.
pub open spec fn finding_live(s: SessionView, tunnel: TunnelView, dump: Seq<DumpPeerView>) -> Step<
    Result<Option<DumpPeerView>, ErrorView>,
> {
    let (s, id) = config::identifying(s, tunnel.path);
    (
        s,
        match id {
            None => None,
            Some(Err(e)) => Some(Err(e)),
            Some(Ok(id)) => Some(Ok(live_row(dump, id))),
        },
    )
}

/// Finding the live peers of the tunnels from `i` on, after those found
/// already.
pub open spec fn matching_from(
    s: SessionView,
    tunnels: Seq<TunnelView>,
    dump: Seq<DumpPeerView>,
    i: int,
    found: Seq<Option<DumpPeerView>>,
) -> Step<Result<Seq<Option<DumpPeerView>>, ErrorView>>
    decreases tunnels.len() - i,
{
    if i >= tunnels.len() {
        (s, Some(Ok(found)))
    } else {
        let (s, live) = finding_live(s, tunnels[i], dump);
        match live {
            None => (s, None),
            Some(Err(e)) => (s, Some(Err(e))),
            Some(Ok(row)) => matching_from(s, tunnels, dump, i + 1, found.push(row)),
        }
    }
}

/// The tunnels of the config directory, the live peers, and for each tunnel the
/// live peer that serves it.
#[verifier::ext_equal]
pub struct SurveyView {
    /// The tunnels.
    pub tunnels: Seq<TunnelView>,
    /// The live peers.
    pub dump: Seq<DumpPeerView>,
    /// The live peer of each tunnel.
    pub live: Seq<Option<DumpPeerView>>,
}

impl BackendView {
    /// Finding out what is up.
    pub open spec fn surveying(self, s: SessionView) -> Step<Result<SurveyView, ErrorView>> {
        let (s, found) = config::discovering(s, self.config_dir);
        match found {
            None => (s, None),
            Some(Err(e)) => (s, Some(Err(e))),
            Some(Ok(tunnels)) => {
                let (s, dumped) = self.dumping(s);
                match dumped {
                    None => (s, None),
                    Some(Err(e)) => (s, Some(Err(e))),
                    Some(Ok(dump)) => {
                        let (s, matched) = matching_from(s, tunnels, dump, 0, Seq::empty());
                        (
                            s,
                            match matched {
                                None => None,
                                Some(Err(e)) => Some(Err(e)),
                                Some(Ok(live)) => Some(Ok(SurveyView { tunnels, dump, live })),
                            },
                        )
                    },
                }
            },
        }
    }

    /// The status of one tunnel.
    pub open spec fn checking_one(self, s: SessionView, name: Seq<char>) -> Step<
        Result<TunnelStatusView, ErrorView>,
    > {
        let (s, resolved) = config::resolving(s, self.config_dir, name);
        match resolved {
            None => (s, None),
            Some(Err(e)) => (s, Some(Err(e))),
            Some(Ok(tunnel)) => {
                let (s, dumped) = self.dumping(s);
                match dumped {
                    None => (s, None),
                    Some(Err(e)) => (s, Some(Err(e))),
                    Some(Ok(dump)) => {
                        let (s, live) = finding_live(s, tunnel, dump);
                        (
                            s,
                            match live {
                                None => None,
                                Some(Err(e)) => Some(Err(e)),
                                Some(Ok(row)) => Some(Ok(status_of(name, row, dump))),
                            },
                        )
                    },
                }
            },
        }
    }

    /// The status of every tunnel.
    pub open spec fn checking_all(self, s: SessionView) -> Step<
        Result<Seq<TunnelStatusView>, ErrorView>,
    > {
        let (s, survey) = self.surveying(s);
        (
            s,
            match survey {
                None => None,
                Some(Err(e)) => Some(Err(e)),
                Some(Ok(v)) => Some(Ok(v.statuses())),
            },
        )
    }

    /// The names of the tunnels and whether each is up.
    pub open spec fn listing(self, s: SessionView) -> Step<Result<Seq<ListEntryView>, ErrorView>> {
        let (s, survey) = self.surveying(s);
        (
            s,
            match survey {
                None => None,
                Some(Err(e)) => Some(Err(e)),
                Some(Ok(v)) => Some(Ok(v.entries())),
            },
        )
    }

    /// The names of the tunnels that are up.
    pub open spec fn naming_active(self, s: SessionView) -> Step<Result<Seq<Seq<char>>, ErrorView>> {
        let (s, survey) = self.surveying(s);
        (
            s,
            match survey {
                None => None,
                Some(Err(e)) => Some(Err(e)),
                Some(Ok(v)) => Some(Ok(v.active(v.tunnels.len()))),
            },
        )
    }
}

impl SurveyView {
    /// The status of every tunnel.
    pub open spec fn statuses(self) -> Seq<TunnelStatusView> {
        Seq::new(
            self.tunnels.len(),
            |i: int| status_of(self.tunnels[i].name, self.live[i], self.dump),
        )
    }

    /// The names of the tunnels and whether each is up.
    pub open spec fn entries(self) -> Seq<ListEntryView> {
        Seq::new(
            self.tunnels.len(),
            |i: int| ListEntryView { name: self.tunnels[i].name, up: self.live[i] is Some },
        )
    }

    /// The names of those of the first `n` tunnels that are up.
    pub open spec fn active(self, n: nat) -> Seq<Seq<char>>
        decreases n,
    {
        if n == 0 {
            Seq::empty()
        } else {
            let before = self.active((n - 1) as nat);
            if self.live[n - 1] is Some {
                before.push(self.tunnels[n - 1].name)
            } else {
                before
            }
        }
    }
}

/// Whether two lists of texts are the same.
fn same_texts(a: &Vec<String>, b: &Vec<String>) -> (r: bool)
    ensures
        r == (a.deep_view() == b.deep_view()),
{
    let ghost x = a.deep_view();
    let ghost y = b.deep_view();
    proof {
        assert(x.len() == a@.len());
        assert(y.len() == b@.len());
    }
    if a.len() != b.len() {
        return false;
    }
    let mut i: usize = 0;
    while i < a.len()
        invariant
            x == a.deep_view(),
            y == b.deep_view(),
            a@.len() == b@.len(),
            i <= a@.len(),
            forall|j: int| 0 <= j < i ==> x[j] == y[j],
        decreases a@.len() - i,
    {
        proof {
            assert(x[i as int] == a@[i as int]@);
            assert(y[i as int] == b@[i as int]@);
        }
        if !text::same(&a[i], &b[i]) {
            return false;
        }
        i = i + 1;
    }
    proof {
        assert(x =~= y);
    }
    true
}

/// A live peer found among the first ones is the first one.
proof fn lemma_live_row_prefix(dump: Seq<DumpPeerView>, id: PeerIdentityView, n: int)
    requires
        0 <= n <= dump.len(),
        live_row(dump.take(n), id) is Some,
    ensures
        live_row(dump, id) == live_row(dump.take(n), id),
    decreases dump.len() - n,
{
    if n < dump.len() {
        assert(dump.take(n + 1).drop_last() =~= dump.take(n));
        lemma_live_row_prefix(dump, id, n + 1);
    } else {
        assert(dump.take(n) =~= dump);
    }
}

/// The first live peer that a config describes.
fn find_row(dump: &Vec<DumpPeer>, id: &PeerIdentity) -> (r: Option<DumpPeer>)
    ensures
        r.deep_view() == live_row(dump.deep_view(), id.deep_view()),
{
    let ghost d = dump.deep_view();
    let ghost v = id.deep_view();
    let mut i: usize = 0;
    proof {
        assert(d.take(0) =~= Seq::<DumpPeerView>::empty());
        assert(id.allowed_ips.deep_view().len() == id.allowed_ips@.len());
    }
    while i < dump.len()
        invariant
            d == dump.deep_view(),
            v == id.deep_view(),
            v.allowed_ips.len() == id.allowed_ips@.len(),
            i <= dump@.len(),
            live_row(d.take(i as int), v) is None,
        decreases dump@.len() - i,
    {
        proof {
            assert(d.take(i + 1).drop_last() =~= d.take(i as int));
            assert(d.take(i + 1).last() == dump@[i as int].deep_view());
        }
        if text::same(&dump[i].peer.public_key, &id.public_key) {
            let routed = if id.allowed_ips.len() == 0 {
                true
            } else {
                let normal = status::normalize_allowed(&dump[i].peer.allowed_ips);
                same_texts(&normal, &id.allowed_ips)
            };
            if routed {
                proof {
                    lemma_live_row_prefix(d, v, i + 1);
                }
                return Some(dump[i].clone());
            }
        }
        i = i + 1;
    }
    proof {
        assert(d.take(d.len() as int) =~= d);
    }
    None
}

/// The peers on an interface.
fn collect_peers(dump: &Vec<DumpPeer>, interface: &str) -> (r: Vec<Peer>)
    ensures
        r.deep_view() == peers_on(dump.deep_view(), interface@),
{
    let ghost d = dump.deep_view();
    let mut out: Vec<Peer> = Vec::new();
    let mut i: usize = 0;
    proof {
        assert(d.take(0) =~= Seq::<DumpPeerView>::empty());
        assert(out.deep_view() =~= Seq::<PeerView>::empty());
    }
    while i < dump.len()
        invariant
            d == dump.deep_view(),
            i <= dump@.len(),
            out.deep_view() == peers_on(d.take(i as int), interface@),
        decreases dump@.len() - i,
    {
        let ghost before = out.deep_view();
        proof {
            assert(d.take(i + 1).drop_last() =~= d.take(i as int));
            assert(d.take(i + 1).last() == dump@[i as int].deep_view());
        }
        if text::same(&dump[i].interface, interface) {
            let peer = dump[i].peer.clone();
            let ghost p = peer.deep_view();
            out.push(peer);
            proof {
                assert(out.deep_view() =~= before.push(p));
            }
        }
        i = i + 1;
    }
    proof {
        assert(d.take(d.len() as int) =~= d);
    }
    out
}

/// Find the live peer row serving `tunnel`, if any.
pub(super) fn find_live(session: &mut Session, tunnel: &Tunnel, dump: &Vec<DumpPeer>) -> (r: Option<
    Result<Option<DumpPeer>, Error>,
>)
    ensures
        (final(session).deep_view(), so_far(r)) == finding_live(
            old(session).deep_view(),
            tunnel.deep_view(),
            dump.deep_view(),
        ),
{
    match config::peer_identity(session, &tunnel.path)? {
        Err(e) => Some(Err(e)),
        Ok(id) => Some(Ok(find_row(dump, &id))),
    }
}

/// Build a [`TunnelStatus`] from a matched dump row (or its absence).
pub(super) fn status_from(name: &str, live: &Option<DumpPeer>, dump: &Vec<DumpPeer>) -> (r:
    TunnelStatus)
    ensures
        r.deep_view() == status_of(name@, live.deep_view(), dump.deep_view()),
{
    match live {
        None => TunnelStatus::down(name),
        Some(hit) => TunnelStatus {
            name: name.to_owned(),
            up: true,
            interface: Some(hit.interface.clone()),
            peers: collect_peers(dump, &hit.interface),
        },
    }
}

/// The tunnels of the config directory, the live peers, and for each tunnel the
/// live peer that serves it.
pub struct Survey {
    /// The tunnels.
    pub tunnels: Vec<Tunnel>,
    /// The live peers.
    pub dump: Vec<DumpPeer>,
    /// The live peer of each tunnel.
    pub live: Vec<Option<DumpPeer>>,
}

impl DeepView for Survey {
    type V = SurveyView;

    open spec fn deep_view(&self) -> SurveyView {
        SurveyView {
            tunnels: self.tunnels.deep_view(),
            dump: self.dump.deep_view(),
            live: self.live.deep_view(),
        }
    }
}

/// The live peers of the tunnels are as many as the tunnels.
proof fn lemma_matching_len(
    s: SessionView,
    tunnels: Seq<TunnelView>,
    dump: Seq<DumpPeerView>,
    i: int,
    found: Seq<Option<DumpPeerView>>,
)
    requires
        0 <= i <= tunnels.len(),
        found.len() == i,
    ensures
        matching_from(s, tunnels, dump, i, found).1 matches Some(Ok(live)) ==> live.len()
            == tunnels.len(),
    decreases tunnels.len() - i,
{
    if i < tunnels.len() {
        let (s1, live) = finding_live(s, tunnels[i], dump);
        if let Some(Ok(row)) = live {
            lemma_matching_len(s1, tunnels, dump, i + 1, found.push(row));
        }
    }
}

impl Backend {
    /// Snapshot every live WireGuard peer via one `wg show all dump`.
    pub(super) fn all_dump(&self, session: &mut Session) -> (r: Option<
        Result<Vec<DumpPeer>, Error>,
    >)
        ensures
            (final(session).deep_view(), so_far(r)) == self.deep_view().dumping(
                old(session).deep_view(),
            ),
    {
        let args = text::list_of_three("show", "all", "dump");
        match self.exec(session, &self.wg, &args)? {
            Err(e) => Some(Err(e)),
            Ok(out) => if out.success() {
                Some(Ok(status::parse_all_dump(&out.stdout)))
            } else {
                Some(Err(backend_error(&self.wg, &out)))
            },
        }
    }

    /// Find out what is up.
    pub(super) fn survey(&self, session: &mut Session) -> (r: Option<Result<Survey, Error>>)
        ensures
            (final(session).deep_view(), so_far(r)) == self.deep_view().surveying(
                old(session).deep_view(),
            ),
            r matches Some(Ok(v)) ==> v.live@.len() == v.tunnels@.len(),
    {
        let tunnels = match config::discover(session, &self.config_dir)? {
            Ok(tunnels) => tunnels,
            Err(e) => {
                return Some(Err(e));
            },
        };
        let dump = match self.all_dump(session)? {
            Ok(dump) => dump,
            Err(e) => {
                return Some(Err(e));
            },
        };
        let ghost t = tunnels.deep_view();
        let ghost d = dump.deep_view();
        let ghost whole = matching_from(session.deep_view(), t, d, 0, Seq::empty());
        let mut live: Vec<Option<DumpPeer>> = Vec::new();
        let mut i: usize = 0;
        proof {
            lemma_matching_len(session.deep_view(), t, d, 0, Seq::empty());
            assert(live.deep_view() =~= Seq::<Option<DumpPeerView>>::empty());
            assert(self.deep_view().surveying(old(session).deep_view()) == (
                whole.0,
                match whole.1 {
                    None => None,
                    Some(Err(e)) => Some(Err(e)),
                    Some(Ok(live)) => Some(Ok(SurveyView { tunnels: t, dump: d, live })),
                },
            ));
        }
        while i < tunnels.len()
            invariant
                t == tunnels.deep_view(),
                d == dump.deep_view(),
                i <= tunnels@.len(),
                live@.len() == i,
                self.deep_view().surveying(old(session).deep_view()) == (
                    whole.0,
                    match whole.1 {
                        None => None,
                        Some(Err(e)) => Some(Err(e)),
                        Some(Ok(live)) => Some(Ok(SurveyView { tunnels: t, dump: d, live })),
                    },
                ),
                whole == matching_from(session.deep_view(), t, d, i as int, live.deep_view()),
            decreases tunnels@.len() - i,
        {
            let ghost before = live.deep_view();
            proof {
                assert(t[i as int] == tunnels@[i as int].deep_view());
            }
            match find_live(session, &tunnels[i], &dump)? {
                Err(e) => {
                    return Some(Err(e));
                },
                Ok(row) => {
                    let ghost v = row.deep_view();
                    live.push(row);
                    proof {
                        assert(live.deep_view() =~= before.push(v));
                    }
                },
            }
            i = i + 1;
        }
        Some(Ok(Survey { tunnels, dump, live }))
    }

    /// Detailed status for a single tunnel (must exist in the config dir).
    pub fn status_one(&self, session: &mut Session, name: &str) -> (r: Option<
        Result<TunnelStatus, Error>,
    >)
        ensures
            (final(session).deep_view(), so_far(r)) == self.deep_view().checking_one(
                old(session).deep_view(),
                name@,
            ),
    {
        let tunnel = match config::resolve(session, &self.config_dir, name)? {
            Ok(tunnel) => tunnel,
            Err(e) => {
                return Some(Err(e));
            },
        };
        let dump = match self.all_dump(session)? {
            Ok(dump) => dump,
            Err(e) => {
                return Some(Err(e));
            },
        };
        match find_live(session, &tunnel, &dump)? {
            Ok(live) => Some(Ok(status_from(name, &live, &dump))),
            Err(e) => Some(Err(e)),
        }
    }

    /// Detailed status for every discovered tunnel (one `wg` call total).
    pub fn status_all(&self, session: &mut Session) -> (r: Option<Result<Vec<TunnelStatus>, Error>>)
        ensures
            (final(session).deep_view(), so_far(r)) == self.deep_view().checking_all(
                old(session).deep_view(),
            ),
    {
        let survey = match self.survey(session)? {
            Ok(survey) => survey,
            Err(e) => {
                return Some(Err(e));
            },
        };
        let ghost v = survey.deep_view();
        let mut out: Vec<TunnelStatus> = Vec::new();
        let mut i: usize = 0;
        while i < survey.tunnels.len()
            invariant
                v == survey.deep_view(),
                survey.live@.len() == survey.tunnels@.len(),
                i <= survey.tunnels@.len(),
                out@.len() == i,
                forall|j: int| 0 <= j < i ==> #[trigger] out@[j].deep_view() == v.statuses()[j],
            decreases survey.tunnels@.len() - i,
        {
            proof {
                assert(v.tunnels[i as int] == survey.tunnels@[i as int].deep_view());
                assert(v.live[i as int] == survey.live@[i as int].deep_view());
            }
            out.push(status_from(&survey.tunnels[i].name, &survey.live[i], &survey.dump));
            i = i + 1;
        }
        proof {
            assert(out.deep_view() =~= v.statuses());
        }
        Some(Ok(out))
    }

    /// Names and up/down state of every discovered tunnel (one `wg` call).
    pub fn list(&self, session: &mut Session) -> (r: Option<Result<Vec<ListEntry>, Error>>)
        ensures
            (final(session).deep_view(), so_far(r)) == self.deep_view().listing(
                old(session).deep_view(),
            ),
    {
        let survey = match self.survey(session)? {
            Ok(survey) => survey,
            Err(e) => {
                return Some(Err(e));
            },
        };
        let ghost v = survey.deep_view();
        let mut out: Vec<ListEntry> = Vec::new();
        let mut i: usize = 0;
        while i < survey.tunnels.len()
            invariant
                v == survey.deep_view(),
                survey.live@.len() == survey.tunnels@.len(),
                i <= survey.tunnels@.len(),
                out@.len() == i,
                forall|j: int| 0 <= j < i ==> #[trigger] out@[j].deep_view() == v.entries()[j],
            decreases survey.tunnels@.len() - i,
        {
            proof {
                assert(v.tunnels[i as int] == survey.tunnels@[i as int].deep_view());
                assert(v.live[i as int] == survey.live@[i as int].deep_view());
            }
            out.push(
                ListEntry {
                    name: survey.tunnels[i].name.clone(),
                    up: survey.live[i].is_some(),
                },
            );
            i = i + 1;
        }
        proof {
            assert(out.deep_view() =~= v.entries());
        }
        Some(Ok(out))
    }

    /// Names of tunnels that are currently up (one `wg` call).
    pub fn current(&self, session: &mut Session) -> (r: Option<Result<Vec<String>, Error>>)
        ensures
            (final(session).deep_view(), so_far(r)) == self.deep_view().naming_active(
                old(session).deep_view(),
            ),
    {
        let survey = match self.survey(session)? {
            Ok(survey) => survey,
            Err(e) => {
                return Some(Err(e));
            },
        };
        let ghost v = survey.deep_view();
        let mut out = text::no_texts();
        let mut i: usize = 0;
        while i < survey.tunnels.len()
            invariant
                v == survey.deep_view(),
                survey.live@.len() == survey.tunnels@.len(),
                i <= survey.tunnels@.len(),
                out.deep_view() == v.active(i as nat),
            decreases survey.tunnels@.len() - i,
        {
            proof {
                assert(v.tunnels[i as int] == survey.tunnels@[i as int].deep_view());
                assert(v.live[i as int] == survey.live@[i as int].deep_view());
            }
            if survey.live[i].is_some() {
                text::push_text(&mut out, &survey.tunnels[i].name);
            }
            i = i + 1;
        }
        Some(Ok(out))
    }
}

} // verus!
