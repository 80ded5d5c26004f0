//! Which tunnels are found up, and by which commands.
use vstd::prelude::*;

use super::live::{finding_live, live_row, matching_from, peers_on, serves, status_of};
use super::{failure, full_command, BackendView};
use crate::config;
use crate::config::{PeerIdentityView, TunnelView};
use crate::error::ErrorView;
use crate::order;
use crate::reading_laws;
use crate::runner::CommandOutputView;
use crate::session::{ActionView, DirListingView, FileTextView, ReplyView, SessionView};
use crate::status;
use crate::status::{DumpPeerView, PeerView};
use crate::text;

verus! {

// ---------------------------------------------------------------------------
// Rows and configs
// ---------------------------------------------------------------------------

/// A live peer serves a config exactly if it has the config's public key and, where
/// the config lists allowed IPs, the same ones: as a set, whatever their order and
/// case, and the white space around them.
pub proof fn law_serves(row: DumpPeerView, id: PeerIdentityView)
    requires
        order::strictly_ordered(id.allowed_ips),
    ensures
        serves(row, id) <==> {
            &&& row.peer.public_key == id.public_key
            &&& id.allowed_ips.len() > 0 ==> forall|e: Seq<char>| #[trigger]
                id.allowed_ips.contains(e) <==> e.len() > 0 && exists|i: int|
                    0 <= i < row.peer.allowed_ips.len() && e == text::lower(
                        text::trim(#[trigger] row.peer.allowed_ips[i]),
                    )
        },
{
    let held = row.peer.allowed_ips;
    let normal = status::normalized(held);
    assert forall|e: Seq<char>| #[trigger] normal.contains(e) <==> e.len() > 0 && exists|i: int|
        0 <= i < held.len() && e == text::lower(text::trim(#[trigger] held[i])) by {
        reading_laws::law_normal_form(held, e);
    }
    reading_laws::law_normal_form(held, Seq::empty());
    if forall|e: Seq<char>| #[trigger]
        id.allowed_ips.contains(e) <==> e.len() > 0 && exists|i: int|
            0 <= i < held.len() && e == text::lower(text::trim(#[trigger] held[i])) {
        assert forall|e: Seq<char>| #[trigger] normal.contains(e) <==> id.allowed_ips.contains(
            e,
        ) by {}
        order::lemma_ordered_unique(normal, id.allowed_ips);
    }
}

/// Whether a live peer serves a config does not depend on its interface, its endpoint,
/// its handshake or its counters.
pub proof fn law_serves_by_key_and_routes(
    a: DumpPeerView,
    b: DumpPeerView,
    id: PeerIdentityView,
)
    requires
        a.peer.public_key == b.peer.public_key,
        a.peer.allowed_ips == b.peer.allowed_ips,
    ensures
        serves(a, id) == serves(b, id),
{
}

/// The live peer of a config is the first that serves it, and there is one wherever
/// any serves it.
pub proof fn law_live_row(dump: Seq<DumpPeerView>, id: PeerIdentityView)
    ensures
        match live_row(dump, id) {
            Some(row) => exists|i: int|
                0 <= i < dump.len() && #[trigger] dump[i] == row && serves(row, id) && forall|j: int|
                    0 <= j < i ==> !serves(#[trigger] dump[j], id),
            None => forall|j: int| 0 <= j < dump.len() ==> !serves(#[trigger] dump[j], id),
        },
    decreases dump.len(),
{
    if dump.len() > 0 {
        let t = dump.drop_last();
        law_live_row(t, id);
        match live_row(t, id) {
            Some(row) => {
                let i = choose|i: int|
                    0 <= i < t.len() && #[trigger] t[i] == row && serves(row, id) && forall|j: int|
                        0 <= j < i ==> !serves(#[trigger] t[j], id);
                assert(dump[i] == row);
                assert forall|j: int| 0 <= j < i implies !serves(#[trigger] dump[j], id) by {
                    assert(t[j] == dump[j]);
                }
            },
            None => {
                assert forall|j: int| 0 <= j < t.len() implies !serves(#[trigger] dump[j], id) by {
                    assert(t[j] == dump[j]);
                }
                assert(dump[dump.len() - 1] == dump.last());
            },
        }
    }
}

/// A peer with the config's key and its allowed IPs, written alike, is found: the
/// tunnel is up, whatever else stands in the dump.
pub proof fn law_found_up(
    dump: Seq<DumpPeerView>,
    i: int,
    public_key: Seq<char>,
    allowed: Seq<Seq<char>>,
)
    requires
        0 <= i < dump.len(),
        dump[i].peer.public_key == public_key,
        dump[i].peer.allowed_ips == allowed,
    ensures
        live_row(
            dump,
            PeerIdentityView { public_key, allowed_ips: status::normalized(allowed) },
        ) is Some,
        live_row(dump, PeerIdentityView { public_key, allowed_ips: Seq::empty() }) is Some,
{
    let id = PeerIdentityView { public_key, allowed_ips: status::normalized(allowed) };
    let bare = PeerIdentityView { public_key, allowed_ips: Seq::empty() };
    law_live_row(dump, id);
    law_live_row(dump, bare);
    assert(serves(dump[i], id));
    assert(serves(dump[i], bare));
}

/// The peers of an interface are all those of the dump that are on it, in order.
pub proof fn law_peers_on(dump: Seq<DumpPeerView>, interface: Seq<char>)
    ensures
        peers_on(dump, interface) == dump.filter_map(
            |row: DumpPeerView|
                if row.interface == interface {
                    Some(row.peer)
                } else {
                    None::<PeerView>
                },
        ),
    decreases dump.len(),
{
    if dump.len() > 0 {
        law_peers_on(dump.drop_last(), interface);
    }
    assert(peers_on(dump, interface) =~= dump.filter_map(
        |row: DumpPeerView|
            if row.interface == interface {
                Some(row.peer)
            } else {
                None::<PeerView>
            },
    ));
}

/// A tunnel with a live peer is up, on the interface of that peer and with all the
/// peers there; one without is down and has neither.
pub proof fn law_status_of(name: Seq<char>, live: Option<DumpPeerView>, dump: Seq<DumpPeerView>)
    ensures
        ({
            let st = status_of(name, live, dump);
            &&& st.name == name
            &&& st.up == live is Some
            &&& live matches Some(row) ==> st.interface == Some(row.interface) && st.peers
                == peers_on(dump, row.interface)
            &&& live is None ==> st.interface is None && st.peers.len() == 0
        }),
{
}

// ---------------------------------------------------------------------------
// Commands
// ---------------------------------------------------------------------------

/// A privileged command is run under `sudo -n` where that is asked for, and as it is
/// where not; the arguments are the same.
pub proof fn law_full_command(program: Seq<char>, args: Seq<Seq<char>>)
    ensures
        full_command(true, program, args) == ("sudo"@, seq!["-n"@, program] + args),
        full_command(false, program, args) == (program, args),
{
}

/// A command that failed is reported with its exit code, or -1 if it was killed, and
/// with what it wrote to standard error, or to standard output if that is blank.
pub proof fn law_failure(program: Seq<char>, out: CommandOutputView)
    ensures
        failure(program, out) matches ErrorView::Backend { program: p, code, stderr } && p
            == program && (out.code == Some(code) || (out.code is None && code == -1)) && stderr
            == text::trim(
            if text::trim(out.stderr).len() > 0 {
                out.stderr
            } else {
                out.stdout
            },
        ),
{
}

/// The action that asks for the live peers.
pub open spec fn dump_command(b: BackendView) -> ActionView {
    if b.sudo {
        ActionView::Run {
            program: "sudo"@,
            args: seq!["-n"@, b.wg, "show"@, "all"@, "dump"@],
        }
    } else {
        ActionView::Run { program: b.wg, args: seq!["show"@, "all"@, "dump"@] }
    }
}

/// The live peers are asked for with one `wg show all dump`, and are those that its
/// output reports; where it cannot be launched or fails, that is the error.
pub proof fn law_dumping(b: BackendView, s: SessionView)
    ensures
        ({
            let n = s.asked.len() as int;
            let (t, dumped) = b.dumping(s);
            &&& t.replies == s.replies
            &&& t.asked == s.asked.push(dump_command(b))
            &&& n < s.replies.len() ==> match s.replies[n] {
                ReplyView::Ran(Ok(out)) => if out.code == Some(0i32) {
                    dumped matches Some(Ok(rows)) && rows == status::all_dump(out.stdout)
                } else {
                    dumped matches Some(Err(e)) && e == failure(b.wg, out)
                },
                ReplyView::Ran(Err(source)) => dumped matches Some(Err(e)) && e == (
                ErrorView::Spawn {
                    program: if b.sudo {
                        "sudo"@
                    } else {
                        b.wg
                    },
                    source,
                }),
                _ => dumped is None,
            }
            &&& n >= s.replies.len() ==> dumped is None
        }),
{
    assert(seq!["-n"@, b.wg] + seq!["show"@, "all"@, "dump"@] =~= seq![
        "-n"@,
        b.wg,
        "show"@,
        "all"@,
        "dump"@,
    ]);
}

// ---------------------------------------------------------------------------
// Configs on disk
// ---------------------------------------------------------------------------

/// The config directory is listed once. Where it is missing there are no tunnels;
/// where it cannot be listed, or only in part, that is the error; and otherwise the
/// tunnels are those of its files, by name.
pub proof fn law_discovering(s: SessionView, dir: Seq<char>)
    ensures
        ({
            let n = s.asked.len() as int;
            let (t, found) = config::discovering(s, dir);
            &&& t.replies == s.replies
            &&& t.asked == s.asked.push(ActionView::ListDir(dir))
            &&& n < s.replies.len() ==> match s.replies[n] {
                ReplyView::Listing(DirListingView::Missing) => found matches Some(Ok(tunnels))
                    && tunnels.len() == 0,
                ReplyView::Listing(DirListingView::Failed(source)) => found matches Some(Err(e))
                    && e == ErrorView::ConfigDir(dir, source),
                ReplyView::Listing(DirListingView::Partial { source, .. }) => found matches Some(
                    Err(e),
                ) && e == ErrorView::ConfigDir(dir, source),
                ReplyView::Listing(DirListingView::Files(files)) => {
                    &&& found matches Some(Ok(tunnels))
                    &&& tunnels.to_multiset() == config::tunnels_in(dir, files).to_multiset()
                    &&& forall|i: int, j: int|
                        0 <= i < j < tunnels.len() ==> !order::text_before(
                            (#[trigger] tunnels[j]).name,
                            (#[trigger] tunnels[i]).name,
                        )
                },
                _ => found is None,
            }
        }),
{
    let n = s.asked.len() as int;
    if n < s.replies.len() {
        if let ReplyView::Listing(DirListingView::Files(files)) = s.replies[n] {
            let all = config::tunnels_in(dir, files);
            order::lemma_sorted::<config::Tunnel>(all);
            let tunnels = order::sorted::<config::Tunnel>(all);
            assert forall|i: int, j: int| 0 <= i < j < tunnels.len() implies !order::text_before(
                (#[trigger] tunnels[j]).name,
                (#[trigger] tunnels[i]).name,
            ) by {
                assert(!<config::Tunnel as order::Ranked>::ranks_before(tunnels[j], tunnels[i]));
            }
        }
    }
}

/// A tunnel is found by its name: an illegal name is refused unasked, and otherwise
/// its config is asked for, once.
pub proof fn law_resolving(s: SessionView, dir: Seq<char>, name: Seq<char>)
    ensures
        ({
            let n = s.asked.len() as int;
            let (t, found) = config::resolving(s, dir, name);
            if !config::valid_name(name) {
                t == s && (found matches Some(Err(e)) && e == ErrorView::InvalidName(name))
            } else {
                &&& t.replies == s.replies
                &&& t.asked == s.asked.push(ActionView::IsFile(config::conf_path(dir, name)))
                &&& n < s.replies.len() ==> match s.replies[n] {
                    ReplyView::Flag(true) => found matches Some(Ok(tunnel)) && tunnel.name == name
                        && tunnel.path == config::conf_path(dir, name),
                    ReplyView::Flag(false) => found matches Some(Err(e)) && e
                        == ErrorView::TunnelNotFound(name),
                    _ => found is None,
                }
            }
        }),
{
}

/// A config is read whole, and what it holds is what is summed up and what the tunnel
/// is found by; one that is missing or cannot be read is an error.
pub proof fn law_reading_conf(s: SessionView, path: Seq<char>)
    ensures
        ({
            let n = s.asked.len() as int;
            let (t, conf) = config::reading_conf(s, path);
            &&& t.replies == s.replies
            &&& t.asked == s.asked.push(ActionView::ReadFile(path))
            &&& config::summarizing(s, path).0 == t
            &&& config::identifying(s, path).0 == t
            &&& n < s.replies.len() ==> match s.replies[n] {
                ReplyView::Contents(FileTextView::Text(held)) => {
                    &&& conf matches Some(Ok(text)) && text == held
                    &&& config::summarizing(s, path).1 matches Some(Ok(sum)) && sum
                        == config::summary(held)
                    &&& match config::identity(held) {
                        Some(id) => config::identifying(s, path).1 matches Some(Ok(own)) && own
                            == id,
                        None => config::identifying(s, path).1 matches Some(Err(e)) && e == (
                        ErrorView::TunnelConfPeer { path }),
                    }
                },
                ReplyView::Contents(FileTextView::Missing(source)) => {
                    let e = ErrorView::TunnelConfRead { path, source };
                    &&& conf matches Some(Err(e1)) && e1 == e
                    &&& config::summarizing(s, path).1 matches Some(Err(e2)) && e2 == e
                    &&& config::identifying(s, path).1 matches Some(Err(e3)) && e3 == e
                },
                ReplyView::Contents(FileTextView::Failed(source)) => {
                    let e = ErrorView::TunnelConfRead { path, source };
                    &&& conf matches Some(Err(e1)) && e1 == e
                    &&& config::summarizing(s, path).1 matches Some(Err(e2)) && e2 == e
                    &&& config::identifying(s, path).1 matches Some(Err(e3)) && e3 == e
                },
                _ => conf is None,
            }
        }),
{
}

// ---------------------------------------------------------------------------
// Status
// ---------------------------------------------------------------------------

/// Whether the replies from `n` on are the configs, each with a first peer.
pub open spec fn configs_follow(s: SessionView, n: int, confs: Seq<Seq<char>>) -> bool {
    &&& n + confs.len() <= s.replies.len()
    &&& forall|i: int|
        #![trigger confs[i]]
        0 <= i < confs.len() ==> s.replies[n + i] == ReplyView::Contents(
            FileTextView::Text(confs[i]),
        ) && config::identity(confs[i]) is Some
}

/// The live peers of the tunnels from one on.
proof fn lemma_matching(
    s: SessionView,
    tunnels: Seq<TunnelView>,
    dump: Seq<DumpPeerView>,
    i: int,
    found: Seq<Option<DumpPeerView>>,
    confs: Seq<Seq<char>>,
)
    requires
        0 <= i <= tunnels.len(),
        found.len() == i,
        confs.len() == tunnels.len(),
        configs_follow(s, s.asked.len() - i, confs),
        s.asked.len() >= i,
    ensures
        matching_from(s, tunnels, dump, i, found).0.replies == s.replies,
        matching_from(s, tunnels, dump, i, found).0.asked == s.asked + Seq::new(
            (tunnels.len() - i) as nat,
            |k: int| ActionView::ReadFile(tunnels[i + k].path),
        ),
        matching_from(s, tunnels, dump, i, found).1 matches Some(Ok(live)) && live == found
            + Seq::new(
            (tunnels.len() - i) as nat,
            |k: int| live_row(dump, config::identity(confs[i + k])->0),
        ),
    decreases tunnels.len() - i,
{
    let rest = (tunnels.len() - i) as nat;
    let asks = Seq::new(rest, |k: int| ActionView::ReadFile(tunnels[i + k].path));
    let rows = Seq::new(rest, |k: int| live_row(dump, config::identity(confs[i + k])->0));
    if i < tunnels.len() {
        let c = confs[i];
        let (t, live) = finding_live(s, tunnels[i], dump);
        law_reading_conf(s, tunnels[i].path);
        let row = live_row(dump, config::identity(c)->0);
        assert(s.replies[s.asked.len() as int] == ReplyView::Contents(FileTextView::Text(c)));
        assert(live == Some(Ok::<_, ErrorView>(row)));
        lemma_matching(t, tunnels, dump, i + 1, found.push(row), confs);
        let asks1 = Seq::new(
            (rest - 1) as nat,
            |k: int| ActionView::ReadFile(tunnels[i + 1 + k].path),
        );
        let rows1 = Seq::new(
            (rest - 1) as nat,
            |k: int| live_row(dump, config::identity(confs[i + 1 + k])->0),
        );
        assert(s.asked + asks =~= t.asked + asks1);
        assert(found + rows =~= found.push(row) + rows1);
    } else {
        assert(s.asked + asks =~= s.asked);
        assert(found + rows =~= found);
    }
}

/// `list` names every tunnel of the directory, and one is up exactly if some live peer
/// has its key and its allowed IPs: it asks for the directory, the dump and each config
/// once, and for nothing else.
pub proof fn law_list(
    b: BackendView,
    s: SessionView,
    tunnels: Seq<TunnelView>,
    out: CommandOutputView,
    confs: Seq<Seq<char>>,
)
    requires
        config::discovering(s, b.config_dir).1 == Some(Ok::<Seq<TunnelView>, ErrorView>(tunnels)),
        s.asked.len() + 1 < s.replies.len(),
        s.replies[s.asked.len() as int + 1] == ReplyView::Ran(Ok(out)),
        out.code == Some(0i32),
        confs.len() == tunnels.len(),
        configs_follow(s, s.asked.len() as int + 2, confs),
    ensures
        ({
            let dump = status::all_dump(out.stdout);
            let (t, listed) = b.listing(s);
            &&& t.asked == s.asked + seq![
                ActionView::ListDir(b.config_dir),
                dump_command(b),
            ] + tunnels.map_values(|x: TunnelView| ActionView::ReadFile(x.path))
            &&& listed matches Some(Ok(list))
            &&& list.len() == tunnels.len()
            &&& forall|i: int|
                0 <= i < list.len() ==> (#[trigger] list[i]).name == tunnels[i].name && (list[i].up
                    <==> exists|j: int|
                    0 <= j < dump.len() && serves(
                        #[trigger] dump[j],
                        config::identity(confs[i])->0,
                    ))
        }),
{
    law_discovering(s, b.config_dir);
    let s1 = config::discovering(s, b.config_dir).0;
    law_dumping(b, s1);
    let s2 = b.dumping(s1).0;
    let dump = status::all_dump(out.stdout);
    assert(s2.asked.len() == s.asked.len() + 2);
    lemma_matching(s2, tunnels, dump, 0, Seq::empty(), confs);
    let asks = Seq::new(tunnels.len(), |k: int| ActionView::ReadFile(tunnels[0 + k].path));
    assert(s2.asked + asks =~= s.asked + seq![
        ActionView::ListDir(b.config_dir),
        dump_command(b),
    ] + tunnels.map_values(|x: TunnelView| ActionView::ReadFile(x.path)));
    let list = b.listing(s).1->0->Ok_0;
    assert forall|i: int| 0 <= i < list.len() implies (#[trigger] list[i]).name == tunnels[i].name
        && (list[i].up <==> exists|j: int|
        0 <= j < dump.len() && serves(#[trigger] dump[j], config::identity(confs[i])->0)) by {
        law_live_row(dump, config::identity(confs[i])->0);
    }
}

/// `status` of a tunnel: it is up exactly if some live peer has its key and its allowed
/// IPs, and then on the interface of the first such peer. It asks for the config, the
/// dump and what the config holds, and for nothing else.
pub proof fn law_status(
    b: BackendView,
    s: SessionView,
    name: Seq<char>,
    out: CommandOutputView,
    conf: Seq<char>,
    id: PeerIdentityView,
)
    requires
        config::valid_name(name),
        s.asked.len() + 2 < s.replies.len(),
        s.replies[s.asked.len() as int] == ReplyView::Flag(true),
        s.replies[s.asked.len() as int + 1] == ReplyView::Ran(Ok(out)),
        out.code == Some(0i32),
        s.replies[s.asked.len() as int + 2] == ReplyView::Contents(FileTextView::Text(conf)),
        config::identity(conf) == Some(id),
    ensures
        ({
            let dump = status::all_dump(out.stdout);
            let path = config::conf_path(b.config_dir, name);
            let (t, checked) = b.checking_one(s, name);
            &&& t.asked == s.asked + seq![
                ActionView::IsFile(path),
                dump_command(b),
                ActionView::ReadFile(path),
            ]
            &&& checked matches Some(Ok(st))
            &&& st.name == name
            &&& st.up <==> exists|j: int| 0 <= j < dump.len() && serves(#[trigger] dump[j], id)
            &&& st.up ==> st.interface is Some && st.peers == peers_on(dump, st.interface->0)
            &&& st.up ==> exists|j: int|
                0 <= j < dump.len() && st.interface == Some((#[trigger] dump[j]).interface)
                    && serves(dump[j], id) && forall|k: int|
                    0 <= k < j ==> !serves(#[trigger] dump[k], id)
            &&& !st.up ==> st.interface is None && st.peers.len() == 0
        }),
{
    let path = config::conf_path(b.config_dir, name);
    law_resolving(s, b.config_dir, name);
    let s1 = config::resolving(s, b.config_dir, name).0;
    law_dumping(b, s1);
    let s2 = b.dumping(s1).0;
    law_reading_conf(s2, path);
    let dump = status::all_dump(out.stdout);
    law_live_row(dump, id);
    assert(s.asked.push(ActionView::IsFile(path)).push(dump_command(b)).push(
        ActionView::ReadFile(path),
    ) =~= s.asked + seq![
        ActionView::IsFile(path),
        dump_command(b),
        ActionView::ReadFile(path),
    ]);
}

/// Each tunnel is looked at in turn, and the first that cannot be is the error.
pub proof fn law_matching(
    s: SessionView,
    tunnels: Seq<TunnelView>,
    dump: Seq<DumpPeerView>,
    i: int,
    found: Seq<Option<DumpPeerView>>,
)
    requires
        0 <= i <= tunnels.len(),
    ensures
        i == tunnels.len() ==> matching_from(s, tunnels, dump, i, found).0 == s && (matching_from(
            s,
            tunnels,
            dump,
            i,
            found,
        ).1 matches Some(Ok(all)) && all == found),
        i < tunnels.len() ==> ({
            let (t, id) = config::identifying(s, tunnels[i].path);
            match id {
                None => matching_from(s, tunnels, dump, i, found).1 is None,
                Some(Err(e)) => matching_from(s, tunnels, dump, i, found).0 == t && (matching_from(
                    s,
                    tunnels,
                    dump,
                    i,
                    found,
                ).1 matches Some(Err(told)) && told == e) && (finding_live(
                    s,
                    tunnels[i],
                    dump,
                ).1 matches Some(Err(same)) && same == e),
                Some(Ok(own)) => matching_from(s, tunnels, dump, i, found) == matching_from(
                    t,
                    tunnels,
                    dump,
                    i + 1,
                    found.push(live_row(dump, own)),
                ) && finding_live(s, tunnels[i], dump).0 == t && (finding_live(
                    s,
                    tunnels[i],
                    dump,
                ).1 matches Some(Ok(row)) && row == live_row(dump, own)),
            }
        }),
{
}

/// The tunnels, the dump and the live peers are found in this order, and the first of
/// these that fails is the error.
pub proof fn law_surveying(b: BackendView, s: SessionView)
    ensures
        ({
            let (s1, listed) = config::discovering(s, b.config_dir);
            let (s2, dumped) = b.dumping(s1);
            let (t, done) = b.surveying(s);
            match (listed, dumped) {
                (Some(Err(e)), _) => t == s1 && (done matches Some(Err(told)) && told == e),
                (Some(Ok(_)), Some(Err(e))) => t == s2 && (done matches Some(Err(told)) && told
                    == e),
                (Some(Ok(tunnels)), Some(Ok(dump))) => {
                    let (s3, matched) = matching_from(s2, tunnels, dump, 0, Seq::empty());
                    &&& t == s3
                    &&& match matched {
                        None => done is None,
                        Some(Err(e)) => done matches Some(Err(told)) && told == e,
                        Some(Ok(live)) => done matches Some(Ok(v)) && v.tunnels == tunnels && v.dump
                            == dump && v.live == live,
                    }
                },
                _ => done is None,
            }
        }),
{
}

/// `status` of all tunnels has the status of each, `list` its name and whether it is
/// up, in the order of the tunnels.
pub proof fn law_status_of_all(b: BackendView, s: SessionView)
    ensures
        ({
            let (t, surveyed) = b.surveying(s);
            match surveyed {
                None => b.checking_all(s).1 is None && b.listing(s).1 is None,
                Some(Err(e)) => {
                    &&& b.checking_all(s).1 matches Some(Err(told)) && told == e
                    &&& b.listing(s).1 matches Some(Err(other)) && other == e
                },
                Some(Ok(v)) => {
                    &&& b.checking_all(s).0 == t && b.listing(s).0 == t
                    &&& b.checking_all(s).1 matches Some(Ok(all)) && all.len() == v.tunnels.len()
                        && forall|i: int|
                        0 <= i < all.len() ==> #[trigger] all[i] == status_of(
                            v.tunnels[i].name,
                            v.live[i],
                            v.dump,
                        )
                    &&& b.listing(s).1 matches Some(Ok(list)) && list.len() == v.tunnels.len()
                        && forall|i: int|
                        0 <= i < list.len() ==> (#[trigger] list[i]).name == v.tunnels[i].name
                            && list[i].up == v.live[i] is Some
                },
            }
        }),
{
}

/// Errors of looking at one tunnel are errors of its status.
pub proof fn law_status_errors(b: BackendView, s: SessionView, name: Seq<char>)
    ensures
        ({
            let (s1, resolved) = config::resolving(s, b.config_dir, name);
            let (s2, dumped) = b.dumping(s1);
            let (t, done) = b.checking_one(s, name);
            match (resolved, dumped) {
                (Some(Err(e)), _) => t == s1 && (done matches Some(Err(told)) && told == e),
                (Some(Ok(_)), Some(Err(e))) => t == s2 && (done matches Some(Err(told)) && told
                    == e),
                (Some(Ok(tunnel)), Some(Ok(dump))) => {
                    let (s3, live) = finding_live(s2, tunnel, dump);
                    &&& t == s3
                    &&& match live {
                        None => done is None,
                        Some(Err(e)) => done matches Some(Err(told)) && told == e,
                        Some(Ok(row)) => done matches Some(Ok(st)) && st == status_of(
                            name,
                            row,
                            dump,
                        ),
                    }
                },
                _ => done is None,
            }
        }),
{
}

} // verus!
