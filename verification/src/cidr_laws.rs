//! What addresses and blocks are, and what is found in a config that routes them.
use vstd::arithmetic::power2::pow2;
use vstd::prelude::*;

use crate::cidr;
use crate::cidr::{address, all_wf, any_holds, block, block_size, complement, network_base, Cidr4};
use crate::config::ConfSummaryView;
use crate::lint::{
    blocks, checks, endpoint_host, first_holding, linted, looping_block, Finding, FindingView,
    Severity,
};
use crate::order;
use crate::probe_laws;
use crate::text;
use crate::text_laws;

verus! {

// ---------------------------------------------------------------------------
// Addresses and blocks
// ---------------------------------------------------------------------------

/// A block of prefix length `p` has two to the power of `32 - p` addresses.
pub proof fn law_block_size(bits: nat)
    requires
        bits <= 32,
    ensures
        block_size(32 - bits) == pow2(bits),
    decreases bits,
{
    if bits == 0 {
        vstd::arithmetic::power2::lemma2_to64();
    } else {
        law_block_size((bits - 1) as nat);
        vstd::arithmetic::power2::lemma_pow2_unfold(bits);
    }
}

/// A block holds the addresses from its base on, as many as it has, and no others.
pub proof fn law_holds(c: Cidr4, ip: int)
    requires
        c.wf(),
        0 <= ip,
    ensures
        c.holds(ip) <==> c.base <= ip < c.base + pow2((32 - c.prefix) as nat),
{
    law_block_size((32 - c.prefix) as nat);
    cidr::lemma_holds(c, ip);
}

/// Four numbers up to 255 with dots between them are an address, the first counting
/// most; with a larger number they are none.
pub proof fn law_address(a: nat, b: nat, c: nat, d: nat)
    ensures
        ({
            let s = text::join(
                seq![text::number(a), text::number(b), text::number(c), text::number(d)],
                seq!['.'],
            );
            if a <= 255 && b <= 255 && c <= 255 && d <= 255 {
                address(s) matches Ok(ip) && ip == ((a * 256 + b) * 256 + c) * 256 + d
            } else {
                address(s) == Err::<u32, Seq<char>>("'"@ + s + "' is not an IPv4 address"@)
            }
        }),
{
    let f = seq![text::number(a), text::number(b), text::number(c), text::number(d)];
    let s = text::join(f, seq!['.']);
    text::lemma_number(a);
    text::lemma_number(b);
    text::lemma_number(c);
    text::lemma_number(d);
    assert forall|i: int| 0 <= i < f.len() implies !(#[trigger] f[i]).contains('.') by {
        assert forall|k: int| 0 <= k < f[i].len() implies f[i][k] != '.' by {
            assert(text::is_digit(f[i][k]));
        }
    }
    probe_laws::lemma_pieces(f, '.');
    text_laws::law_join(seq![f[0]], f.skip(1), seq!['.']);
    assert(seq![f[0]] + f.skip(1) =~= f);
    text_laws::law_join(f.take(3), seq![f[3]], seq!['.']);
    assert(f.take(3) + seq![f[3]] =~= f);
    assert(s[0] == f[0][0]);
    assert(s.last() == f[3].last());
    assert(text::is_digit(f[0][0]));
    assert(text::is_digit(f[3][f[3].len() - 1]));
    text_laws::law_white_space(s[0]);
    text_laws::law_white_space(s.last());
    text::lemma_trim_fixed(s);
    text_laws::law_read_number(a, 255);
    text_laws::law_read_number(b, 255);
    text_laws::law_read_number(c, 255);
    text_laws::law_read_number(d, 255);
}

/// A text that is not four numbers with dots between them is no address, and white
/// space around an address does not count.
pub proof fn law_no_address(s: Seq<char>)
    ensures
        address(s) is Ok <==> ({
            let o = text::split(text::trim(s), '.');
            o.len() == 4 && forall|i: int|
                0 <= i < 4 ==> text::parse_number(#[trigger] o[i], 255) is Some
        }),
        address(s) matches Err(e) ==> e == "'"@ + s + "' is not an IPv4 address"@,
        address(text::trim(s)) is Ok <==> address(s) is Ok,
        address(s) matches Ok(ip) ==> address(text::trim(s)) == Ok::<u32, Seq<char>>(ip),
{
    let o = text::split(text::trim(s), '.');
    text::lemma_trimmed(s);
    text::lemma_trim_fixed(text::trim(s));
    if o.len() == 4 && forall|i: int|
        0 <= i < 4 ==> text::parse_number(#[trigger] o[i], 255) is Some {
        assert(text::parse_number(o[0], 255) is Some);
        assert(text::parse_number(o[1], 255) is Some);
        assert(text::parse_number(o[2], 255) is Some);
        assert(text::parse_number(o[3], 255) is Some);
    }
    if address(s) is Ok {
        assert forall|i: int| 0 <= i < 4 implies text::parse_number(#[trigger] o[i], 255) is Some by {
            assert(i == 0 || i == 1 || i == 2 || i == 3);
        }
    }
}

/// An address and a prefix length of at most 32 behind a slash are the block that the
/// address lies in: its base is the largest multiple of its size up to the address.
/// An address alone is a block of its own.
pub proof fn law_block(addr: Seq<char>, ip: u32, prefix: nat)
    requires
        text::trim(addr) == addr,
        address(addr) == Ok::<u32, Seq<char>>(ip),
        !addr.contains('/'),
    ensures
        ({
            let s = addr + seq!['/'] + text::number(prefix);
            if prefix <= 32 {
                &&& block(s) matches Ok(c)
                &&& c.prefix == prefix
                &&& c.base <= ip < c.base + pow2((32 - prefix) as nat)
                &&& c.base as int % (pow2((32 - prefix) as nat) as int) == 0
            } else if prefix <= 255 {
                block(s) == Err::<Cidr4, Seq<char>>("prefix out of range in '"@ + s + "'"@)
            } else {
                block(s) == Err::<Cidr4, Seq<char>>("invalid prefix in '"@ + s + "'"@)
            }
        }),
        block(addr) == Ok::<Cidr4, Seq<char>>(Cidr4 { base: ip, prefix: 32 }),
{
    let p = text::number(prefix);
    text_laws::law_split_once(addr, '/', p);
    text::lemma_number(prefix);
    assert(text::is_digit(p[0]));
    assert(text::is_digit(p[p.len() - 1]));
    text_laws::law_white_space(p[0]);
    text_laws::law_white_space(p.last());
    text::lemma_trim_fixed(p);
    text_laws::law_read_number(prefix, 255);
    cidr::lemma_network(ip, 32);
    cidr::lemma_block_size(32);
    if prefix <= 32 {
        law_block_size((32 - prefix) as nat);
        cidr::lemma_network(ip, prefix as u8);
        cidr::lemma_block_size(prefix as int);
        let size = block_size(prefix as int);
        let base = network_base(ip as int, prefix as int);
        assert(0 <= ip as int % size < size) by (nonlinear_arith)
            requires
                size > 0,
        ;
    }
}

/// What is no block: a text whose prefix length is no number up to 255, or is beyond
/// 32, or whose address is none.
pub proof fn law_no_block(s: Seq<char>)
    ensures
        match text::split_once(s, '/') {
            Some((addr, prefix)) => match text::parse_number(text::trim(prefix), 255) {
                None => block(s) == Err::<Cidr4, Seq<char>>("invalid prefix in '"@ + s + "'"@),
                Some(p) => {
                    &&& p > 32 ==> block(s) == Err::<Cidr4, Seq<char>>(
                        "prefix out of range in '"@ + s + "'"@,
                    )
                    &&& p <= 32 ==> (block(s) is Ok <==> address(text::trim(addr)) is Ok)
                },
            },
            None => block(s) is Ok <==> address(text::trim(s)) is Ok,
        },
{
}

/// What is left of the address space without some blocks holds every address that
/// none of them holds, and no other.
pub proof fn law_complement(nets: Seq<Cidr4>, holes: Seq<Cidr4>, ip: int)
    requires
        complement(nets, holes),
        all_wf(holes),
        0 <= ip < 0x1_0000_0000,
    ensures
        (exists|i: int|
            0 <= i < nets.len() && (#[trigger] nets[i]).base <= ip < nets[i].base + pow2(
                (32 - nets[i].prefix) as nat,
            )) <==> forall|j: int|
            0 <= j < holes.len() ==> !((#[trigger] holes[j]).base <= ip < holes[j].base + pow2(
                (32 - holes[j].prefix) as nat,
            )),
{
    assert(any_holds(nets, ip) <==> !any_holds(holes, ip));
    assert forall|i: int| 0 <= i < nets.len() implies ((#[trigger] nets[i]).holds(ip) <==> nets[i].base
        <= ip < nets[i].base + pow2((32 - nets[i].prefix) as nat)) by {
        law_holds(nets[i], ip);
    }
    assert forall|j: int| 0 <= j < holes.len() implies ((#[trigger] holes[j]).holds(ip) <==> holes[j].base
        <= ip < holes[j].base + pow2((32 - holes[j].prefix) as nat)) by {
        law_holds(holes[j], ip);
    }
}

// ---------------------------------------------------------------------------
// Findings
// ---------------------------------------------------------------------------

/// The host of an endpoint is what stands before its last colon.
pub proof fn law_endpoint_host(host: Seq<char>, port: Seq<char>)
    requires
        !port.contains(':'),
    ensures
        endpoint_host(host + seq![':'] + port) == host,
        endpoint_host(port) == port,
{
    text_laws::law_rsplit_once(host, ':', port);
}

/// Every item of a list that is a block counts, in order.
pub proof fn law_blocks(items: Seq<Seq<char>>)
    ensures
        blocks(items) == items.filter_map(
            |x: Seq<char>|
                match block(x) {
                    Ok(c) => Some(c),
                    Err(_) => None,
                },
        ),
    decreases items.len(),
{
    if items.len() > 0 {
        law_blocks(items.drop_last());
    }
    assert(blocks(items) =~= items.filter_map(
        |x: Seq<char>|
            match block(x) {
                Ok(c) => Some(c),
                Err(_) => None,
            },
    ));
}

/// The first block that holds an address is found wherever one does.
proof fn lemma_first_holding(nets: Seq<Cidr4>, ip: int)
    ensures
        match first_holding(nets, ip) {
            Some(c) => exists|i: int|
                0 <= i < nets.len() && #[trigger] nets[i] == c && c.holds(ip) && forall|j: int|
                    0 <= j < i ==> !(#[trigger] nets[j]).holds(ip),
            None => forall|j: int| 0 <= j < nets.len() ==> !(#[trigger] nets[j]).holds(ip),
        },
    decreases nets.len(),
{
    if nets.len() > 0 {
        let t = nets.drop_last();
        lemma_first_holding(t, ip);
        match first_holding(t, ip) {
            Some(c) => {
                let i = choose|i: int|
                    0 <= i < t.len() && #[trigger] t[i] == c && c.holds(ip) && forall|j: int|
                        0 <= j < i ==> !(#[trigger] t[j]).holds(ip);
                assert(nets[i] == c);
                assert forall|j: int| 0 <= j < i implies !(#[trigger] nets[j]).holds(ip) by {
                    assert(t[j] == nets[j]);
                }
            },
            None => {
                assert forall|j: int| 0 <= j < t.len() implies !(#[trigger] nets[j]).holds(ip) by {
                    assert(t[j] == nets[j]);
                }
                assert(nets[nets.len() - 1] == nets.last());
            },
        }
    }
}

/// A config loops exactly if its endpoint is an address that one of its allowed blocks
/// holds, and none of them is all of the address space; the first such block is named.
pub proof fn law_loop(endpoint: Seq<char>, allowed: Seq<Seq<char>>)
    ensures
        match looping_block(endpoint, allowed) {
            Some(c) => {
                &&& address(endpoint_host(endpoint)) matches Ok(ip)
                &&& exists|i: int|
                    0 <= i < blocks(allowed).len() && #[trigger] blocks(allowed)[i] == c && c.holds(
                        ip as int,
                    ) && forall|j: int| 0 <= j < i ==> !(#[trigger] blocks(allowed)[j]).holds(ip as int)
                &&& forall|i: int|
                    0 <= i < blocks(allowed).len() ==> (#[trigger] blocks(allowed)[i]).prefix != 0
            },
            None => {
                ||| address(endpoint_host(endpoint)) is Err
                ||| exists|i: int|
                    0 <= i < blocks(allowed).len() && (#[trigger] blocks(allowed)[i]).prefix == 0
                ||| !any_holds(blocks(allowed), address(endpoint_host(endpoint))->Ok_0 as int)
            },
        },
{
    if let Ok(ip) = address(endpoint_host(endpoint)) {
        lemma_first_holding(blocks(allowed), ip as int);
    }
}

/// Whether a list of findings has one with a severity and a message.
pub open spec fn finds(found: Seq<FindingView>, severity: Severity, message: Seq<char>) -> bool {
    exists|i: int| 0 <= i < found.len() && #[trigger] found[i] == (FindingView { severity, message })
}

/// What is found in a config, each if and only if it is the case, and nothing more:
/// that it has no private key, that it has no public key, its shell hooks, that it
/// loops, and that it has no endpoint.
pub proof fn law_findings(s: ConfSummaryView)
    ensures
        finds(
            checks(s),
            Severity::Error,
            "no [Interface] PrivateKey — wg-quick cannot bring this up"@,
        ) <== !s.has_private_key,
        finds(
            checks(s),
            Severity::Error,
            "no [Peer] PublicKey — not a usable WireGuard peer"@,
        ) <== s.peer_public_key is None,
        finds(
            checks(s),
            Severity::Error,
            "shell hook(s) "@ + text::join(s.exec_hooks, ", "@)
                + " — wg-quick runs these as root, a privilege-escalation risk; remove them"@,
        ) <== s.exec_hooks.len() > 0,
        finds(
            checks(s),
            Severity::Warning,
            "no Endpoint — unusable as a VPN client config"@,
        ) <== s.endpoint is None,
        s.endpoint matches Some(endpoint) ==> (looping_block(endpoint, s.allowed_ips) matches Some(
            covering,
        ) ==> finds(
            checks(s),
            Severity::Error,
            "routing loop: AllowedIPs "@ + cidr::block_text(covering) + " covers the Endpoint ("@
                + endpoint
                + ") — the tunnel's own packets would route into the tunnel; exclude the endpoint /32 (`vpn split` does this automatically)"@,
        )),
        checks(s).len() == (if s.has_private_key {
            0int
        } else {
            1
        }) + (if s.peer_public_key is Some {
            0int
        } else {
            1
        }) + (if s.exec_hooks.len() == 0 {
            0int
        } else {
            1
        }) + (if s.endpoint is None || looping_block(s.endpoint->0, s.allowed_ips) is Some {
            1int
        } else {
            0
        }),
{
    let n1 = if s.has_private_key { 0int } else { 1int };
    let n2 = if s.peer_public_key is Some { 0int } else { 1int };
    let n3 = if s.exec_hooks.len() == 0 { 0int } else { 1int };
    let found = checks(s);
    let none = FindingView { severity: Severity::Error, message: Seq::empty() };
    if !s.has_private_key {
        assert(found[0].message == "no [Interface] PrivateKey — wg-quick cannot bring this up"@);
    }
    if s.peer_public_key is None {
        assert(found[n1].message == "no [Peer] PublicKey — not a usable WireGuard peer"@);
    }
    if s.exec_hooks.len() > 0 {
        assert(found[n1 + n2] == crate::lint::hook_finding(s.exec_hooks));
    }
    match s.endpoint {
        None => {
            assert(found[n1 + n2 + n3].message == "no Endpoint — unusable as a VPN client config"@);
        },
        Some(endpoint) => {
            if let Some(covering) = looping_block(endpoint, s.allowed_ips) {
                assert(found[n1 + n2 + n3] == crate::lint::loop_finding(covering, endpoint));
            }
        },
    }
}

/// The outcome for a tunnel bears its name and the findings, none lost and none added.
pub proof fn law_linted(name: Seq<char>, s: ConfSummaryView)
    ensures
        linted(name, s).name == name,
        linted(name, s).findings.to_multiset() == checks(s).to_multiset(),
        linted(name, s).ok <==> forall|i: int|
            0 <= i < linted(name, s).findings.len() ==> (#[trigger] linted(
                name,
                s,
            ).findings[i]).severity is Warning,
{
    order::lemma_sorted::<Finding>(checks(s));
    let f = linted(name, s).findings;
    if linted(name, s).ok {
        assert forall|i: int| 0 <= i < f.len() implies (#[trigger] f[i]).severity is Warning by {
            assert(!(f[i].severity is Error));
        }
    }
}

} // verus!
