//! Tunnel status model and parsing of `wg show all dump` output.
//!
//! Live tunnels are observed exclusively through `wg show all dump`: one
//! privileged call that reports every interface and peer. Tunnels are matched
//! to interfaces by peer identity (see [`crate::config::peer_identity`]) rather
//! than via `wg-quick`'s `<name>.name` mapping file, which is written root-only
//! on macOS and therefore unreadable to the unprivileged CLI.
use vstd::prelude::*;

use crate::order;
use crate::text;

verus! {

/// A single WireGuard peer as reported by `wg`.
#[derive(Debug, PartialEq, Eq)]
pub struct Peer {
    /// The peer's base64 public key.
    pub public_key: String,
    /// Current endpoint `host:port`, if the peer has one.
    pub endpoint: Option<String>,
    /// Unix timestamp of the last handshake, or `None` if none has happened.
    pub latest_handshake: Option<u64>,
    /// Bytes received from this peer.
    pub transfer_rx: u64,
    /// Bytes sent to this peer.
    pub transfer_tx: u64,
    /// Allowed IP ranges routed to this peer.
    pub allowed_ips: Vec<String>,
}

/// A [`Peer`] with its texts as sequences of characters.
#[verifier::ext_equal]
pub struct PeerView {
    /// The peer's base64 public key.
    pub public_key: Seq<char>,
    /// Current endpoint.
    pub endpoint: Option<Seq<char>>,
    /// Time of the last handshake.
    pub latest_handshake: Option<u64>,
    /// Bytes received.
    pub transfer_rx: u64,
    /// Bytes sent.
    pub transfer_tx: u64,
    /// Allowed IP ranges.
    pub allowed_ips: Seq<Seq<char>>,
}

impl DeepView for Peer {
    type V = PeerView;

    open spec fn deep_view(&self) -> PeerView {
        PeerView {
            public_key: self.public_key@,
            endpoint: self.endpoint.deep_view(),
            latest_handshake: self.latest_handshake,
            transfer_rx: self.transfer_rx,
            transfer_tx: self.transfer_tx,
            allowed_ips: self.allowed_ips.deep_view(),
        }
    }
}

/// A copy of a list of texts.
pub fn copy_texts(items: &Vec<String>) -> (r: Vec<String>)
    ensures
        r.deep_view() == items.deep_view(),
{
    let r = items.clone();
    proof {
        assert forall|i: int| 0 <= i < items@.len() implies #[trigger] r@[i]@ == items@[i]@ by {
            assert(cloned::<String>(items@[i], r@[i]));
        }
        assert(r.deep_view() =~= items.deep_view());
    }
    r
}

/// A copy of an optional text.
pub fn copy_option(item: &Option<String>) -> (r: Option<String>)
    ensures
        r.deep_view() == item.deep_view(),
{
    match item {
        Some(s) => Some(s.clone()),
        None => None,
    }
}

impl Clone for Peer {
    fn clone(&self) -> (r: Self)
        ensures
            r.deep_view() == self.deep_view(),
    {
        Peer {
            public_key: self.public_key.clone(),
            endpoint: copy_option(&self.endpoint),
            latest_handshake: self.latest_handshake,
            transfer_rx: self.transfer_rx,
            transfer_tx: self.transfer_tx,
            allowed_ips: copy_texts(&self.allowed_ips),
        }
    }
}

/// The status of one tunnel.
#[derive(Debug, PartialEq, Eq)]
pub struct TunnelStatus {
    /// Tunnel (config) name.
    pub name: String,
    /// Whether the tunnel is currently up.
    pub up: bool,
    /// The kernel interface backing it (e.g. `utun4`), when up.
    pub interface: Option<String>,
    /// Peers, when up.
    pub peers: Vec<Peer>,
}

/// A [`TunnelStatus`] with its texts as sequences of characters.
#[verifier::ext_equal]
pub struct TunnelStatusView {
    /// Tunnel name.
    pub name: Seq<char>,
    /// Whether the tunnel is up.
    pub up: bool,
    /// The kernel interface.
    pub interface: Option<Seq<char>>,
    /// Peers.
    pub peers: Seq<PeerView>,
}

impl DeepView for TunnelStatus {
    type V = TunnelStatusView;

    open spec fn deep_view(&self) -> TunnelStatusView {
        TunnelStatusView {
            name: self.name@,
            up: self.up,
            interface: self.interface.deep_view(),
            peers: self.peers.deep_view(),
        }
    }
}

impl TunnelStatusView {
    /// The status of a tunnel that is not up.
    pub open spec fn down(name: Seq<char>) -> TunnelStatusView {
        TunnelStatusView { name, up: false, interface: None, peers: Seq::empty() }
    }
}

impl TunnelStatus {
    /// A status value representing a tunnel that is not up.
    pub fn down(name: &str) -> (r: Self)
        ensures
            r.deep_view() == TunnelStatusView::down(name@),
    {
        let r = TunnelStatus {
            name: name.to_owned(),
            up: false,
            interface: None,
            peers: Vec::new(),
        };
        proof {
            assert(r.deep_view() =~= TunnelStatusView::down(name@));
        }
        r
    }
}

/// A compact entry used by the `list` command.
#[derive(Debug, PartialEq, Eq)]
pub struct ListEntry {
    /// Tunnel name.
    pub name: String,
    /// Whether it is currently up.
    pub up: bool,
}

/// A [`ListEntry`] with its name as a sequence of characters.
pub struct ListEntryView {
    /// Tunnel name.
    pub name: Seq<char>,
    /// Whether it is currently up.
    pub up: bool,
}

impl DeepView for ListEntry {
    type V = ListEntryView;

    open spec fn deep_view(&self) -> ListEntryView {
        ListEntryView { name: self.name@, up: self.up }
    }
}

/// One peer row from `wg show all dump`, tagged with the interface it lives on.
#[derive(Debug, PartialEq, Eq)]
pub struct DumpPeer {
    /// Kernel interface name (e.g. `utun4` on macOS, `wg0` on Linux).
    pub interface: String,
    /// The peer's reported state.
    pub peer: Peer,
}

/// A [`DumpPeer`] with its texts as sequences of characters.
#[verifier::ext_equal]
pub struct DumpPeerView {
    /// Kernel interface name.
    pub interface: Seq<char>,
    /// The peer's reported state.
    pub peer: PeerView,
}

impl DeepView for DumpPeer {
    type V = DumpPeerView;

    open spec fn deep_view(&self) -> DumpPeerView {
        DumpPeerView { interface: self.interface@, peer: self.peer.deep_view() }
    }
}

/// A counter of the dump: what is no number counts as zero.
pub open spec fn counter(field: Seq<char>) -> u64 {
    match text::parse_number(field, u64::MAX as nat) {
        Some(n) => n as u64,
        None => 0,
    }
}

/// The pieces between the commas of `s`, trimmed.
pub open spec fn comma_list(s: Seq<char>) -> Seq<Seq<char>> {
    text::split(s, ',').map_values(|p: Seq<char>| text::trim(p))
}

/// The peer that a line of the dump reports: nine tab-separated fields, the
/// first being the interface; any other line reports none.
pub open spec fn dump_row(line: Seq<char>) -> Option<DumpPeerView> {
    let f = text::split(line, '\t');
    if f.len() != 9 {
        None
    } else {
        Some(
            DumpPeerView {
                interface: f[0],
                peer: PeerView {
                    public_key: f[1],
                    endpoint: if f[3] == "(none)"@ {
                        None
                    } else {
                        Some(f[3])
                    },
                    latest_handshake: if counter(f[5]) == 0 {
                        None
                    } else {
                        Some(counter(f[5]))
                    },
                    transfer_rx: counter(f[6]),
                    transfer_tx: counter(f[7]),
                    allowed_ips: if f[4] == "(none)"@ {
                        Seq::empty()
                    } else {
                        comma_list(f[4])
                    },
                },
            },
        )
    }
}

/// The peers that the lines report, in order.
pub open spec fn dump_rows(lines: Seq<Seq<char>>) -> Seq<DumpPeerView>
    decreases lines.len(),
{
    if lines.len() == 0 {
        Seq::empty()
    } else {
        let before = dump_rows(lines.drop_last());
        match dump_row(lines.last()) {
            Some(row) => before.push(row),
            None => before,
        }
    }
}

/// The peers that a whole dump reports.
pub open spec fn all_dump(dump: Seq<char>) -> Seq<DumpPeerView> {
    dump_rows(text::lines(dump))
}

/// Read a counter of the dump.
fn read_counter(field: &str) -> (n: u64)
    ensures
        n == counter(field@),
{
    match text::text_parse(field, u64::MAX) {
        Some(n) => n,
        None => 0,
    }
}

/// The pieces between the commas of `s`, trimmed.
pub fn read_comma_list(s: &str) -> (r: Vec<String>)
    ensures
        r.deep_view() == comma_list(s@),
{
    let pieces = text::text_split(s, ',');
    let mut out: Vec<String> = Vec::new();
    let mut i: usize = 0;
    let ghost p = pieces.deep_view();
    while i < pieces.len()
        invariant
            p == pieces.deep_view(),
            i <= pieces@.len(),
            out@.len() == i,
            forall|j: int| 0 <= j < i ==> #[trigger] out@[j]@ == text::trim(p[j]),
        decreases pieces@.len() - i,
    {
        proof {
            assert(p[i as int] == pieces@[i as int]@);
        }
        out.push(text::text_trim(&pieces[i]));
        i = i + 1;
    }
    proof {
        assert(out.deep_view() =~= comma_list(s@));
    }
    out
}

/// Read one line of the dump.
fn read_row(line: &str) -> (r: Option<DumpPeer>)
    ensures
        r.deep_view() == dump_row(line@),
{
    let fields = text::text_split(line, '\t');
    let ghost f = text::split(line@, '\t');
    proof {
        assert(fields.deep_view().len() == fields@.len());
    }
    if fields.len() != 9 {
        return None;
    }
    proof {
        assert forall|i: int| 0 <= i < 9 implies #[trigger] fields@[i]@ == f[i] by {
            assert(fields.deep_view()[i] == fields@[i]@);
        }
    }
    let endpoint = if text::same(&fields[3], "(none)") {
        None
    } else {
        Some(fields[3].clone())
    };
    let handshake: u64 = read_counter(&fields[5]);
    let allowed_ips = if text::same(&fields[4], "(none)") {
        let none: Vec<String> = Vec::new();
        proof {
            assert(none.deep_view() =~= Seq::<Seq<char>>::empty());
        }
        none
    } else {
        read_comma_list(&fields[4])
    };
    Some(
        DumpPeer {
            interface: fields[0].clone(),
            peer: Peer {
                public_key: fields[1].clone(),
                endpoint,
                latest_handshake: if handshake == 0 {
                    None
                } else {
                    Some(handshake)
                },
                transfer_rx: read_counter(&fields[6]),
                transfer_tx: read_counter(&fields[7]),
                allowed_ips,
            },
        },
    )
}

/// Parse the tab-separated output of `wg show all dump`.
///
/// Interface rows (5 fields) are skipped; peer rows (9 fields, the first being
/// the interface name) become [`DumpPeer`]s. Malformed lines are ignored. Empty
/// output — no interfaces — yields an empty list.
pub fn parse_all_dump(dump: &str) -> (r: Vec<DumpPeer>)
    ensures
        r.deep_view() == all_dump(dump@),
{
    let lines = text::text_lines(dump);
    let ghost l = lines.deep_view();
    let mut rows: Vec<DumpPeer> = Vec::new();
    let mut i: usize = 0;
    proof {
        assert(l.take(0) =~= Seq::<Seq<char>>::empty());
        assert(rows.deep_view() =~= Seq::<DumpPeerView>::empty());
    }
    while i < lines.len()
        invariant
            l == lines.deep_view(),
            i <= lines@.len(),
            rows.deep_view() == dump_rows(l.take(i as int)),
        decreases lines@.len() - i,
    {
        let ghost before = rows.deep_view();
        proof {
            assert(l.take(i + 1).drop_last() =~= l.take(i as int));
            assert(l.take(i + 1).last() == lines@[i as int]@);
        }
        match read_row(&lines[i]) {
            Some(row) => {
                let ghost v = row.deep_view();
                rows.push(row);
                proof {
                    assert(rows.deep_view() =~= before.push(v));
                }
            },
            None => {},
        }
        i = i + 1;
    }
    proof {
        assert(l.take(l.len() as int) =~= l);
    }
    rows
}

/// The entries of `items`, trimmed and in lower case, without the empty ones.
pub open spec fn cleaned(items: Seq<Seq<char>>) -> Seq<Seq<char>>
    decreases items.len(),
{
    if items.len() == 0 {
        Seq::empty()
    } else {
        let before = cleaned(items.drop_last());
        let entry = text::lower(text::trim(items.last()));
        if entry.len() == 0 {
            before
        } else {
            before.push(entry)
        }
    }
}

/// The normal form of a list of allowed IPs: its cleaned entries in order, each
/// once.
pub open spec fn normalized(items: Seq<Seq<char>>) -> Seq<Seq<char>> {
    order::text_set(cleaned(items))
}

/// Normalize allowed-IP entries for comparison: trim, lowercase, drop empties,
/// sort, dedup. Two allowed-IP lists describe the same routing set iff their
/// normalized forms are equal.
pub fn normalize_allowed(items: &Vec<String>) -> (r: Vec<String>)
    ensures
        r.deep_view() == normalized(items.deep_view()),
{
    let ghost s = items.deep_view();
    let mut out: Vec<String> = Vec::new();
    let mut i: usize = 0;
    proof {
        assert(s.take(0) =~= Seq::<Seq<char>>::empty());
        assert(out.deep_view() =~= Seq::<Seq<char>>::empty());
    }
    while i < items.len()
        invariant
            s == items.deep_view(),
            i <= items@.len(),
            out.deep_view() == normalized(s.take(i as int)),
        decreases items@.len() - i,
    {
        proof {
            assert(s.take(i + 1).drop_last() =~= s.take(i as int));
            assert(s.take(i + 1).last() == items@[i as int]@);
        }
        let trimmed = text::text_trim(&items[i]);
        let entry = text::text_lower(&trimmed);
        if !entry.as_str().is_empty() {
            proof {
                let before = cleaned(s.take(i as int));
                assert(before.push(entry@).drop_last() =~= before);
            }
            order::add_text(&mut out, entry);
        }
        i = i + 1;
    }
    proof {
        assert(s.take(s.len() as int) =~= s);
    }
    out
}

// ---------------------------------------------------------------------------
// Laws
// ---------------------------------------------------------------------------

/// The cleaned entries of a list in normal form are the list.
proof fn lemma_cleaned_again(items: Seq<Seq<char>>)
    requires
        forall|i: int|
            0 <= i < items.len() ==> (#[trigger] items[i]).len() > 0 && text::lower(
                text::trim(items[i]),
            ) == items[i],
    ensures
        cleaned(items) == items,
    decreases items.len(),
{
    if items.len() > 0 {
        let t = items.drop_last();
        assert forall|i: int| 0 <= i < t.len() implies (#[trigger] t[i]).len() > 0 && text::lower(
            text::trim(t[i]),
        ) == t[i] by {
            assert(t[i] == items[i]);
        }
        lemma_cleaned_again(t);
        assert(items.last() == items[items.len() - 1]);
        assert(t.push(items.last()) =~= items);
    } else {
        assert(cleaned(items) =~= items);
    }
}

/// A cleaned entry is not empty and would be cleaned to itself.
proof fn lemma_cleaned_entry(items: Seq<Seq<char>>, i: int)
    requires
        0 <= i < cleaned(items).len(),
    ensures
        cleaned(items)[i].len() > 0,
        text::lower(text::trim(cleaned(items)[i])) == cleaned(items)[i],
    decreases items.len(),
{
    let before = cleaned(items.drop_last());
    let source = text::trim(items.last());
    let entry = text::lower(source);
    if i < before.len() {
        lemma_cleaned_entry(items.drop_last(), i);
    } else {
        text::lemma_trimmed(items.last());
        text::lemma_lower_char(source[0]);
        text::lemma_lower_char(source.last());
        assert(entry[0] == text::lower_char(source[0]));
        assert(entry.last() == text::lower_char(source.last()));
        text::lemma_trim_fixed(entry);
        text::lemma_lower_again(source);
    }
}

/// Two lists of allowed IPs have the same normal form exactly if the same
/// entries occur in them, up to case, surrounding white space, order and
/// repetition.
pub proof fn law_normalized_same_set(a: Seq<Seq<char>>, b: Seq<Seq<char>>)
    ensures
        normalized(a) == normalized(b) <==> (forall|e: Seq<char>| #[trigger]
            cleaned(a).contains(e) <==> cleaned(b).contains(e)),
{
    order::lemma_text_set(cleaned(a));
    order::lemma_text_set(cleaned(b));
    if normalized(a) == normalized(b) {
        assert forall|e: Seq<char>| #[trigger] cleaned(a).contains(e) <==> cleaned(b).contains(
            e,
        ) by {
            assert(normalized(a).contains(e) <==> cleaned(a).contains(e));
            assert(normalized(b).contains(e) <==> cleaned(b).contains(e));
        }
    }
    if forall|e: Seq<char>| #[trigger] cleaned(a).contains(e) <==> cleaned(b).contains(e) {
        assert forall|e: Seq<char>| #[trigger] normalized(a).contains(e) <==> normalized(
            b,
        ).contains(e) by {
            assert(cleaned(a).contains(e) <==> cleaned(b).contains(e));
        }
        order::lemma_ordered_unique(normalized(a), normalized(b));
    }
}

/// Normalizing once more changes nothing, and a normal form is in strict order.
pub proof fn law_normalized_idempotent(a: Seq<Seq<char>>)
    ensures
        normalized(normalized(a)) == normalized(a),
        order::strictly_ordered(normalized(a)),
{
    let n = normalized(a);
    order::lemma_text_set(cleaned(a));
    assert forall|i: int| 0 <= i < n.len() implies (#[trigger] n[i]).len() > 0 && text::lower(
        text::trim(n[i]),
    ) == n[i] by {
        assert(n.contains(n[i]));
        assert(cleaned(a).contains(n[i]));
        let k = choose|k: int| 0 <= k < cleaned(a).len() && cleaned(a)[k] == n[i];
        lemma_cleaned_entry(a, k);
    }
    lemma_cleaned_again(n);
    order::lemma_text_set(cleaned(n));
    order::lemma_ordered_unique(normalized(n), n);
}

/// A dump may be read in parts: the peers of two dumps, the first of which ends
/// with its line, are those of the one and then those of the other.
pub proof fn law_dump_in_parts(a: Seq<char>, b: Seq<char>)
    requires
        a.len() > 0 ==> a.last() == '\n',
    ensures
        all_dump(a + b) == all_dump(a) + all_dump(b),
{
    text::lemma_lines_add(a, b);
    lemma_rows_add(text::lines(a), text::lines(b));
}

/// The peers that two lists of lines report.
proof fn lemma_rows_add(x: Seq<Seq<char>>, y: Seq<Seq<char>>)
    ensures
        dump_rows(x + y) == dump_rows(x) + dump_rows(y),
    decreases y.len(),
{
    if y.len() == 0 {
        assert(x + y =~= x);
    } else {
        lemma_rows_add(x, y.drop_last());
        assert((x + y).drop_last() =~= x + y.drop_last());
        assert((x + y).last() == y.last());
    }
    assert(dump_rows(x + y) =~= dump_rows(x) + dump_rows(y));
}

} // verus!
