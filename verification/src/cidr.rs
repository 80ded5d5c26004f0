//! IPv4 CIDR arithmetic: reading, containment and exclusion.
//!
//! Used to detect split-tunnel routing loops (an `AllowedIPs` block covering
//! the tunnel's own `Endpoint`) and to generate split-tunnel `AllowedIPs`
//! lists that carve exclusions out of `0.0.0.0/0`.
use vstd::arithmetic::div_mod::{lemma_fundamental_div_mod, lemma_fundamental_div_mod_converse};
use vstd::prelude::*;

use crate::text;

verus! {

/// An IPv4 CIDR block. The base address is stored canonicalized (host bits
/// cleared).
#[derive(Debug, Clone, Copy, PartialEq, Eq, Structural, PartialOrd, Ord)]
pub struct Cidr4 {
    /// Network base address in host byte order.
    pub base: u32,
    /// Prefix length, `0..=32`.
    pub prefix: u8,
}

impl DeepView for Cidr4 {
    type V = Cidr4;

    open spec fn deep_view(&self) -> Cidr4 {
        *self
    }
}

/// The number of addresses in a block with the given prefix length.
pub open spec fn block_size(prefix: int) -> int
    decreases 32 - prefix,
{
    if prefix >= 32 {
        1
    } else {
        2 * block_size(prefix + 1)
    }
}

/// The first address of the block of the given prefix length that `ip` is in.
pub open spec fn network_base(ip: int, prefix: int) -> int {
    ip - ip % block_size(prefix)
}

impl Cidr4 {
    /// The prefix length is one of an IPv4 block and the base is the first
    /// address of the block.
    pub open spec fn wf(self) -> bool {
        &&& self.prefix <= 32
        &&& self.base as int % block_size(self.prefix as int) == 0
    }

    /// The first address past the block.
    pub open spec fn end(self) -> int {
        self.base as int + block_size(self.prefix as int)
    }

    /// Whether `ip` is an address of this block.
    pub open spec fn holds(self, ip: int) -> bool {
        network_base(ip, self.prefix as int) == self.base as int
    }

    /// Whether this block fully contains `other`.
    pub open spec fn covers(self, other: Cidr4) -> bool {
        self.prefix <= other.prefix && self.holds(other.base as int)
    }

    /// Whether every address from the base of `other` to its end lies between
    /// the base of this block and its end.
    pub open spec fn spans(self, other: Cidr4) -> bool {
        self.base <= other.base && other.end() <= self.end()
    }

    /// Whether the blocks have no address in common.
    pub open spec fn apart(self, other: Cidr4) -> bool {
        self.end() <= other.base || other.end() <= self.base
    }
}

/// Some block of `blocks` holds `ip`.
pub open spec fn any_holds(blocks: Seq<Cidr4>, ip: int) -> bool {
    exists|i: int| 0 <= i < blocks.len() && (#[trigger] blocks[i]).holds(ip)
}

/// Some block of `blocks` spans `b`.
pub open spec fn any_spans(blocks: Seq<Cidr4>, b: Cidr4) -> bool {
    exists|i: int| 0 <= i < blocks.len() && (#[trigger] blocks[i]).spans(b)
}

/// Every block of `blocks` is apart from `b`.
pub open spec fn all_apart(blocks: Seq<Cidr4>, b: Cidr4) -> bool {
    forall|i: int| 0 <= i < blocks.len() ==> (#[trigger] blocks[i]).apart(b)
}

/// The blocks are well formed.
pub open spec fn all_wf(blocks: Seq<Cidr4>) -> bool {
    forall|i: int| 0 <= i < blocks.len() ==> (#[trigger] blocks[i]).wf()
}

/// Each block ends before, or where, the next one begins.
pub open spec fn ascending(blocks: Seq<Cidr4>) -> bool {
    forall|i: int, j: int|
        0 <= i < j < blocks.len() ==> (#[trigger] blocks[i]).end() <= (
        #[trigger] blocks[j]).base
}

/// The number of addresses doubles with each prefix bit less.
pub proof fn lemma_block_size(p: int)
    requires
        0 <= p <= 32,
    ensures
        1 <= block_size(p) <= 0x1_0000_0000,
        p > 0 ==> block_size(p - 1) == 2 * block_size(p),
        p == 0 ==> block_size(p) == 0x1_0000_0000,
        p == 32 ==> block_size(p) == 1,
{
    reveal_with_fuel(block_size, 34);
}

/// A larger block is a multiple of a smaller one.
proof fn lemma_size_multiple(p: int, q: int)
    requires
        0 <= p <= q <= 32,
    ensures
        exists|m: int| m >= 1 && block_size(p) == #[trigger] (m * block_size(q)),
    decreases q - p,
{
    if p == q {
        assert(block_size(p) == 1 * block_size(q)) by (nonlinear_arith)
            requires
                p == q,
        ;
    } else {
        lemma_size_multiple(p + 1, q);
        let m = choose|m: int| m >= 1 && block_size(p + 1) == #[trigger] (m * block_size(q));
        let s = block_size(q);
        let t = block_size(p + 1);
        assert(2 * t == (2 * m) * s) by (nonlinear_arith)
            requires
                t == m * s,
        ;
        assert(block_size(p) == (2 * m) * s);
    }
}

/// In a well-formed block, an address is held exactly between the base and
/// the end.
pub proof fn lemma_holds(c: Cidr4, ip: int)
    requires
        c.wf(),
        0 <= ip,
    ensures
        c.holds(ip) <==> c.base <= ip < c.end(),
{
    let s = block_size(c.prefix as int);
    lemma_block_size(c.prefix as int);
    let b = c.base as int;
    lemma_fundamental_div_mod(ip, s);
    lemma_fundamental_div_mod(b, s);
    let q = b / s;
    assert(b == s * q);
    if b <= ip < b + s {
        assert(ip == q * s + (ip - b)) by (nonlinear_arith)
            requires
                b == s * q,
        ;
        lemma_fundamental_div_mod_converse(ip, s, q, ip - b);
    }
    if c.holds(ip) {
        assert(0 <= ip % s < s);
    }
}

/// A block that holds some address is well formed.
proof fn lemma_holds_wf(c: Cidr4, ip: int)
    requires
        c.prefix <= 32,
        0 <= ip,
        c.holds(ip),
    ensures
        c.wf(),
{
    let s = block_size(c.prefix as int);
    lemma_block_size(c.prefix as int);
    lemma_fundamental_div_mod(ip, s);
    let q = ip / s;
    assert(c.base as int == s * q);
    lemma_fundamental_div_mod_converse(c.base as int, s, q, 0);
}

/// Two well-formed blocks are nested or apart.
pub proof fn lemma_nested(a: Cidr4, b: Cidr4)
    requires
        a.wf(),
        b.wf(),
        a.prefix <= b.prefix,
    ensures
        a.covers(b) ==> a.spans(b),
        !a.covers(b) ==> a.apart(b),
{
    let sa = block_size(a.prefix as int);
    let sb = block_size(b.prefix as int);
    lemma_block_size(a.prefix as int);
    lemma_block_size(b.prefix as int);
    lemma_size_multiple(a.prefix as int, b.prefix as int);
    let m = choose|m: int| m >= 1 && sa == #[trigger] (m * sb);
    lemma_holds(a, b.base as int);
    lemma_fundamental_div_mod(a.base as int, sa);
    lemma_fundamental_div_mod(b.base as int, sb);
    let i = a.base as int / sa;
    let j = b.base as int / sb;
    let ab = a.base as int;
    let bb = b.base as int;
    assert(ab == sa * i);
    assert(bb == sb * j);
    assert(ab == sb * (m * i)) by (nonlinear_arith)
        requires
            ab == sa * i,
            sa == m * sb,
    ;
    assert(ab + sa == sb * (m * i + m)) by (nonlinear_arith)
        requires
            ab == sb * (m * i),
            sa == m * sb,
    ;
    let k = m * i;
    if bb < ab + sa {
        assert(bb + sb <= ab + sa) by (nonlinear_arith)
            requires
                bb == sb * j,
                ab + sa == sb * (k + m),
                bb < ab + sa,
                sb >= 1,
        ;
    }
    if bb < ab {
        assert(bb + sb <= ab) by (nonlinear_arith)
            requires
                bb == sb * j,
                ab == sb * k,
                bb < ab,
                sb >= 1,
        ;
    }
}

// ---------------------------------------------------------------------------
// Reading and writing
// ---------------------------------------------------------------------------

/// A result whose error is a message, with the message as text.
pub open spec fn reported<T>(r: Result<T, String>) -> Result<T, Seq<char>> {
    match r {
        Ok(v) => Ok(v),
        Err(e) => Err(e@),
    }
}

/// The complaint that `s` is no address.
pub open spec fn not_an_address(s: Seq<char>) -> Seq<char> {
    "'"@ + s + "' is not an IPv4 address"@
}

/// The address that `s` writes as a dotted quad.
pub open spec fn address(s: Seq<char>) -> Result<u32, Seq<char>> {
    let o = text::split(text::trim(s), '.');
    if o.len() != 4 {
        Err(not_an_address(s))
    } else {
        match (
            text::parse_number(o[0], 255),
            text::parse_number(o[1], 255),
            text::parse_number(o[2], 255),
            text::parse_number(o[3], 255),
        ) {
            (Some(a), Some(b), Some(c), Some(d)) => Ok(
                (a * 0x100_0000 + b * 0x1_0000 + c * 0x100 + d) as u32,
            ),
            _ => Err(not_an_address(s)),
        }
    }
}

/// The block of prefix length `prefix` that the address `addr` is in.
pub open spec fn block_around(addr: Seq<char>, prefix: nat) -> Result<Cidr4, Seq<char>> {
    match address(addr) {
        Ok(ip) => Ok(
            Cidr4 { base: network_base(ip as int, prefix as int) as u32, prefix: prefix as u8 },
        ),
        Err(e) => Err(e),
    }
}

/// The block that `s` writes: an address, or an address, a slash and a prefix
/// length.
pub open spec fn block(s: Seq<char>) -> Result<Cidr4, Seq<char>> {
    match text::split_once(s, '/') {
        Some((addr, prefix)) => match text::parse_number(text::trim(prefix), 255) {
            None => Err("invalid prefix in '"@ + s + "'"@),
            Some(p) => if p > 32 {
                Err("prefix out of range in '"@ + s + "'"@)
            } else {
                block_around(text::trim(addr), p)
            },
        },
        None => block_around(text::trim(s), 32),
    }
}

/// An address as a dotted quad.
pub open spec fn address_text(b: nat) -> Seq<char> {
    text::number(b / 0x100_0000) + "."@ + text::number(b / 0x1_0000 % 0x100) + "."@ + text::number(
        b / 0x100 % 0x100,
    ) + "."@ + text::number(b % 0x100)
}

/// The block in writing.
pub open spec fn block_text(c: Cidr4) -> Seq<char> {
    address_text(c.base as nat) + "/"@ + text::number(c.prefix as nat)
}

/// The complaint that `s` is no address.
fn address_error(s: &str) -> (r: String)
    ensures
        r@ == not_an_address(s@),
{
    let mut message = "'".to_owned();
    message.append(s);
    message.append("' is not an IPv4 address");
    message
}

/// Parse a dotted-quad IPv4 address into host byte order.
pub fn parse_ip4(s: &str) -> (r: Result<u32, String>)
    ensures
        reported(r) == address(s@),
{
    let trimmed = text::text_trim(s);
    let octets = text::text_split(&trimmed, '.');
    let ghost o = text::split(text::trim(s@), '.');
    proof {
        assert(octets.deep_view().len() == octets@.len());
    }
    if octets.len() != 4 {
        return Err(address_error(s));
    }
    proof {
        assert(octets@[0]@ == o[0]);
        assert(octets@[1]@ == o[1]);
        assert(octets@[2]@ == o[2]);
        assert(octets@[3]@ == o[3]);
    }
    let a = text::text_parse(&octets[0], 255);
    let b = text::text_parse(&octets[1], 255);
    let c = text::text_parse(&octets[2], 255);
    let d = text::text_parse(&octets[3], 255);
    match (a, b, c, d) {
        (Some(a), Some(b), Some(c), Some(d)) => {
            let value: u64 = a * 0x100_0000 + b * 0x1_0000 + c * 0x100 + d;
            Ok(value as u32)
        },
        _ => Err(address_error(s)),
    }
}

/// The number of addresses in a block with the given prefix length.
fn size_of_prefix(prefix: u8) -> (n: u64)
    requires
        prefix <= 32,
    ensures
        n == block_size(prefix as int),
{
    let mut n: u64 = 1;
    let mut p: u8 = 32;
    while p > prefix
        invariant
            prefix <= p <= 32,
            n == block_size(p as int),
        decreases p,
    {
        proof {
            lemma_block_size(p as int);
        }
        n = n * 2;
        p = p - 1;
    }
    n
}

/// The first address of the block around `ip`.
fn base_of(ip: u32, prefix: u8) -> (b: u32)
    requires
        prefix <= 32,
    ensures
        b == network_base(ip as int, prefix as int),
{
    let size: u64 = size_of_prefix(prefix);
    proof {
        lemma_block_size(prefix as int);
        vstd::arithmetic::div_mod::lemma_mod_decreases(ip as nat, size as nat);
        vstd::arithmetic::div_mod::lemma_mod_bound(ip as int, size as int);
    }
    let rest: u64 = (ip as u64) % size;
    ((ip as u64) - rest) as u32
}

/// The block around an address is well formed and holds the address.
pub proof fn lemma_network(ip: u32, prefix: u8)
    requires
        prefix <= 32,
    ensures
        0 <= network_base(ip as int, prefix as int) <= ip,
        (Cidr4 { base: network_base(ip as int, prefix as int) as u32, prefix }).wf(),
        (Cidr4 { base: network_base(ip as int, prefix as int) as u32, prefix }).holds(ip as int),
{
    let size = block_size(prefix as int);
    lemma_block_size(prefix as int);
    lemma_fundamental_div_mod(ip as int, size);
    let q = ip as int / size;
    assert(ip as int == size * q + ip as int % size);
    assert(size * q >= 0) by (nonlinear_arith)
        requires
            ip as int == size * q + ip as int % size,
            0 <= ip as int % size < size,
            ip >= 0,
            size >= 1,
    ;
    lemma_fundamental_div_mod_converse(size * q, size, q, 0);
}

impl Cidr4 {
    /// Parse `"a.b.c.d/p"` (or a bare `"a.b.c.d"`, treated as `/32`). Host
    /// bits below the prefix are cleared.
    pub fn parse(s: &str) -> (r: Result<Cidr4, String>)
        ensures
            reported(r) == block(s@),
            r is Ok ==> r->Ok_0.wf(),
    {
        let (addr, prefix): (String, u8) = match text::text_split_once(s, '/') {
            Some((addr, prefix)) => {
                let digits = text::text_trim(&prefix);
                match text::text_parse(&digits, 255) {
                    None => {
                        let mut message = "invalid prefix in '".to_owned();
                        message.append(s);
                        message.append("'");
                        return Err(message);
                    },
                    Some(p) => {
                        if p > 32 {
                            let mut message = "prefix out of range in '".to_owned();
                            message.append(s);
                            message.append("'");
                            return Err(message);
                        }
                        (text::text_trim(&addr), p as u8)
                    },
                }
            },
            None => (text::text_trim(s), 32),
        };
        match parse_ip4(&addr) {
            Ok(ip) => {
                proof {
                    lemma_network(ip, prefix);
                }
                let base: u32 = base_of(ip, prefix);
                Ok(Cidr4 { base, prefix })
            },
            Err(e) => Err(e),
        }
    }

    /// Whether `ip` falls inside this block.
    pub fn contains_ip(&self, ip: u32) -> (r: bool)
        requires
            self.prefix <= 32,
        ensures
            r == self.holds(ip as int),
    {
        base_of(ip, self.prefix) == self.base
    }

    /// Whether this block fully contains `other`.
    pub fn contains(&self, other: &Cidr4) -> (r: bool)
        requires
            self.prefix <= 32,
        ensures
            r == self.covers(*other),
    {
        self.prefix <= other.prefix && self.contains_ip(other.base)
    }

    /// Split into two halves of prefix `p+1`, or `None` for a `/32`.
    pub fn halves(&self) -> (r: Option<(Cidr4, Cidr4)>)
        requires
            self.wf(),
        ensures
            r == (if self.prefix >= 32 {
                None
            } else {
                Some(lower_and_upper(*self))
            }),
            r matches Some(h) ==> h.0.wf() && h.1.wf(),
    {
        if self.prefix >= 32 {
            return None;
        }
        proof {
            law_halves(*self);
        }
        let prefix: u8 = self.prefix + 1;
        let step: u64 = size_of_prefix(prefix);
        let upper: u64 = self.base as u64 + step;
        Some((Cidr4 { base: self.base, prefix }, Cidr4 { base: upper as u32, prefix }))
    }

    /// The block as `"a.b.c.d/p"`.
    pub fn to_string(&self) -> (r: String)
        ensures
            r@ == block_text(*self),
    {
        let b: u64 = self.base as u64;
        let mut out = text::text_number(b / 0x100_0000);
        out.append(".");
        let second = text::text_number(b / 0x1_0000 % 0x100);
        out.append(&second);
        out.append(".");
        let third = text::text_number(b / 0x100 % 0x100);
        out.append(&third);
        out.append(".");
        let fourth = text::text_number(b % 0x100);
        out.append(&fourth);
        out.append("/");
        let prefix = text::text_number(self.prefix as u64);
        out.append(&prefix);
        out
    }
}

/// The two halves of a block.
pub open spec fn lower_and_upper(c: Cidr4) -> (Cidr4, Cidr4) {
    let prefix = (c.prefix + 1) as u8;
    (
        Cidr4 { base: c.base, prefix },
        Cidr4 { base: (c.base + block_size(c.prefix + 1)) as u32, prefix },
    )
}

/// The halves of a block are blocks of the next prefix length, the lower one
/// ends where the upper one begins, and an address is in the block exactly if
/// it is in one of them.
pub proof fn law_halves(c: Cidr4)
    requires
        c.wf(),
        c.prefix < 32,
    ensures
        c.base + block_size(c.prefix + 1) <= u32::MAX,
        lower_and_upper(c).0.wf(),
        lower_and_upper(c).1.wf(),
        lower_and_upper(c).0.base == c.base,
        lower_and_upper(c).0.end() == lower_and_upper(c).1.base,
        lower_and_upper(c).1.end() == c.end(),
        forall|ip: int|
            0 <= ip ==> (c.holds(ip) <==> #[trigger] lower_and_upper(c).0.holds(ip)
                || lower_and_upper(c).1.holds(ip)),
        forall|ip: int|
            0 <= ip ==> !(#[trigger] lower_and_upper(c).0.holds(ip) && lower_and_upper(c).1.holds(
                ip,
            )),
{
    let s = block_size(c.prefix as int);
    let t = block_size(c.prefix + 1);
    lemma_block_size(c.prefix as int);
    lemma_block_size(c.prefix + 1);
    assert(s == 2 * t);
    let b = c.base as int;
    lemma_fundamental_div_mod(b, s);
    let q = b / s;
    assert(b == s * q);
    assert(b == t * (2 * q)) by (nonlinear_arith)
        requires
            b == s * q,
            s == 2 * t,
    ;
    assert(b + t == t * (2 * q + 1)) by (nonlinear_arith)
        requires
            b == t * (2 * q),
    ;
    lemma_fundamental_div_mod_converse(b, t, 2 * q, 0);
    lemma_fundamental_div_mod_converse(b + t, t, 2 * q + 1, 0);
    lemma_end_bound(c);
    let lo = lower_and_upper(c).0;
    let hi = lower_and_upper(c).1;
    assert forall|ip: int| 0 <= ip implies (c.holds(ip) <==> #[trigger] lo.holds(ip) || hi.holds(
        ip,
    )) && !(lo.holds(ip) && hi.holds(ip)) by {
        lemma_holds(c, ip);
        lemma_holds(lo, ip);
        lemma_holds(hi, ip);
    }
}

/// No block reaches past the last address.
pub proof fn lemma_end_bound(c: Cidr4)
    requires
        c.wf(),
    ensures
        c.end() <= 0x1_0000_0000,
{
    let s = block_size(c.prefix as int);
    lemma_block_size(c.prefix as int);
    lemma_size_multiple(0, c.prefix as int);
    lemma_block_size(0);
    let m = choose|m: int| m >= 1 && block_size(0) == #[trigger] (m * s);
    let b = c.base as int;
    lemma_fundamental_div_mod(b, s);
    let q = b / s;
    assert(b == s * q);
    assert(b + s <= 0x1_0000_0000) by (nonlinear_arith)
        requires
            b == s * q,
            m * s == 0x1_0000_0000,
            b < 0x1_0000_0000,
            s >= 1,
    ;
}

// ---------------------------------------------------------------------------
// Exclusion
// ---------------------------------------------------------------------------

/// What is left of `net` without `hole`.
pub open spec fn leaves(net: Cidr4, hole: Cidr4, out: Seq<Cidr4>) -> bool {
    &&& all_wf(out)
    &&& ascending(out)
    &&& forall|i: int| 0 <= i < out.len() ==> net.spans(#[trigger] out[i])
    &&& forall|ip: int| 0 <= ip ==> (#[trigger] any_holds(out, ip) <==> net.holds(ip) && !hole.holds(ip))
    &&& hole.wf() ==> forall|b: Cidr4|
        b.wf() && net.spans(b) && hole.apart(b) ==> #[trigger] any_spans(out, b)
}

/// The remainders of the two halves make up the remainder of the whole.
proof fn lemma_join_halves(net: Cidr4, hole: Cidr4, a: Seq<Cidr4>, b: Seq<Cidr4>)
    requires
        net.wf(),
        net.prefix < 32,
        hole.prefix <= 32,
        net.covers(hole),
        leaves(lower_and_upper(net).0, hole, a),
        leaves(lower_and_upper(net).1, hole, b),
    ensures
        leaves(net, hole, a + b),
{
    let lo = lower_and_upper(net).0;
    let hi = lower_and_upper(net).1;
    let out = a + b;
    law_halves(net);
    lemma_block_size(net.prefix as int);
    lemma_block_size(net.prefix + 1);
    assert forall|i: int| 0 <= i < out.len() implies (#[trigger] out[i]).wf() && net.spans(
        out[i],
    ) by {
        if i < a.len() {
            assert(out[i] == a[i]);
        } else {
            assert(out[i] == b[i - a.len()]);
        }
    }
    assert forall|i: int, j: int| 0 <= i < j < out.len() implies (#[trigger] out[i]).end() <= (
    #[trigger] out[j]).base by {
        if j < a.len() {
            assert(out[i] == a[i] && out[j] == a[j]);
        } else if i >= a.len() {
            assert(out[i] == b[i - a.len()] && out[j] == b[j - a.len()]);
        } else {
            assert(out[i] == a[i] && out[j] == b[j - a.len()]);
            assert(lo.spans(a[i]));
            assert(hi.spans(b[j - a.len()]));
        }
    }
    assert forall|ip: int| 0 <= ip implies (#[trigger] any_holds(out, ip) <==> net.holds(ip)
        && !hole.holds(ip)) by {
        assert(lo.holds(ip) || hi.holds(ip) <==> net.holds(ip));
        assert(any_holds(a, ip) <==> lo.holds(ip) && !hole.holds(ip));
        assert(any_holds(b, ip) <==> hi.holds(ip) && !hole.holds(ip));
        if any_holds(out, ip) {
            let i = choose|i: int| 0 <= i < out.len() && (#[trigger] out[i]).holds(ip);
            if i < a.len() {
                assert(a[i].holds(ip));
            } else {
                assert(b[i - a.len()].holds(ip));
            }
        }
        if any_holds(a, ip) {
            let i = choose|i: int| 0 <= i < a.len() && (#[trigger] a[i]).holds(ip);
            assert(out[i].holds(ip));
        }
        if any_holds(b, ip) {
            let i = choose|i: int| 0 <= i < b.len() && (#[trigger] b[i]).holds(ip);
            assert(out[i + a.len()].holds(ip));
        }
    }
    if hole.wf() {
        assert forall|x: Cidr4|
            x.wf() && net.spans(x) && hole.apart(x) implies #[trigger] any_spans(out, x) by {
            lemma_half_spans(net, hole, x);
            if lo.spans(x) {
                assert(any_spans(a, x));
                let i = choose|i: int| 0 <= i < a.len() && (#[trigger] a[i]).spans(x);
                assert(out[i].spans(x));
            } else {
                assert(any_spans(b, x));
                let i = choose|i: int| 0 <= i < b.len() && (#[trigger] b[i]).spans(x);
                assert(out[i + a.len()].spans(x));
            }
        }
    }
}

/// A block inside `net` that is apart from a hole in `net` is inside one of the
/// halves of `net`.
proof fn lemma_half_spans(net: Cidr4, hole: Cidr4, x: Cidr4)
    requires
        net.wf(),
        net.prefix < 32,
        hole.wf(),
        net.covers(hole),
        x.wf(),
        net.spans(x),
        hole.apart(x),
    ensures
        lower_and_upper(net).0.spans(x) || lower_and_upper(net).1.spans(x),
{
    let lo = lower_and_upper(net).0;
    let hi = lower_and_upper(net).1;
    law_halves(net);
    lemma_block_size(net.prefix as int);
    lemma_block_size(x.prefix as int);
    lemma_block_size(hole.prefix as int);
    lemma_nested(net, hole);
    if x.prefix <= net.prefix {
        lemma_sizes_ordered(x.prefix as int, net.prefix as int);
        assert(x.base == net.base && x.end() == net.end());
    } else {
        lemma_nested(lo, x);
        lemma_nested(hi, x);
        lemma_holds(lo, x.base as int);
        lemma_holds(hi, x.base as int);
    }
}

/// A shorter prefix means a block that is at least as large.
proof fn lemma_sizes_ordered(p: int, q: int)
    requires
        0 <= p <= q <= 32,
    ensures
        block_size(p) >= block_size(q),
    decreases q - p,
{
    lemma_block_size(p);
    lemma_block_size(q);
    if p < q {
        lemma_block_size(p + 1);
        lemma_sizes_ordered(p + 1, q);
    }
}

/// Nothing is left of a block inside the hole.
proof fn lemma_vanishes(net: Cidr4, hole: Cidr4)
    requires
        net.wf(),
        hole.prefix <= 32,
        hole.covers(net),
    ensures
        leaves(net, hole, Seq::<Cidr4>::empty()),
{
    let out = Seq::<Cidr4>::empty();
    lemma_holds_wf(hole, net.base as int);
    lemma_nested(hole, net);
    lemma_block_size(net.prefix as int);
    lemma_block_size(hole.prefix as int);
    assert forall|ip: int| 0 <= ip implies (#[trigger] any_holds(out, ip) <==> net.holds(ip)
        && !hole.holds(ip)) by {
        lemma_holds(net, ip);
        lemma_holds(hole, ip);
    }
    assert forall|b: Cidr4| b.wf() && net.spans(b) && hole.apart(b) implies #[trigger] any_spans(
        out,
        b,
    ) by {
        lemma_block_size(b.prefix as int);
    }
}

/// All is left of a block that neither is inside the hole nor contains it.
proof fn lemma_survives(net: Cidr4, hole: Cidr4)
    requires
        net.wf(),
        hole.prefix <= 32,
        !hole.covers(net),
        !net.covers(hole),
    ensures
        leaves(net, hole, seq![net]),
{
    let out = seq![net];
    lemma_block_size(net.prefix as int);
    lemma_block_size(hole.prefix as int);
    if hole.wf() {
        if hole.prefix <= net.prefix {
            lemma_nested(hole, net);
        } else {
            lemma_nested(net, hole);
        }
    }
    assert forall|ip: int| 0 <= ip implies (#[trigger] any_holds(out, ip) <==> net.holds(ip)
        && !hole.holds(ip)) by {
        if hole.holds(ip) {
            lemma_holds_wf(hole, ip);
            lemma_holds(hole, ip);
            lemma_holds(net, ip);
        }
        if net.holds(ip) {
            assert(out[0].holds(ip));
        }
        if any_holds(out, ip) {
            let i = choose|i: int| 0 <= i < out.len() && (#[trigger] out[i]).holds(ip);
            assert(out[i] == net);
        }
    }
    assert forall|b: Cidr4| b.wf() && net.spans(b) && hole.apart(b) implies #[trigger] any_spans(
        out,
        b,
    ) by {
        assert(out[0].spans(b));
    }
}

/// Remove `hole` from `net`, returning the covering remainder.
fn exclude_one(net: Cidr4, hole: Cidr4) -> (out: Vec<Cidr4>)
    requires
        net.wf(),
        hole.prefix <= 32,
    ensures
        leaves(net, hole, out@),
    decreases 32 - net.prefix,
{
    if hole.contains(&net) {
        proof {
            lemma_vanishes(net, hole);
        }
        return Vec::new();
    }
    if !net.contains(&hole) {
        proof {
            lemma_survives(net, hole);
        }
        let mut whole: Vec<Cidr4> = Vec::new();
        whole.push(net);
        proof {
            assert(whole@ =~= seq![net]);
        }
        return whole;
    }
    match net.halves() {
        Some((lo, hi)) => {
            let mut out = exclude_one(lo, hole);
            let mut upper = exclude_one(hi, hole);
            proof {
                lemma_join_halves(net, hole, out@, upper@);
            }
            out.append(&mut upper);
            out
        },
        None => {
            proof {
                lemma_single(net, hole);
            }
            Vec::new()
        },
    }
}

/// A block of one address contains no block but itself.
proof fn lemma_single(net: Cidr4, hole: Cidr4)
    requires
        net.wf(),
        net.prefix >= 32,
        hole.prefix <= 32,
        net.covers(hole),
    ensures
        hole.covers(net),
{
    lemma_block_size(32);
    lemma_holds(net, hole.base as int);
    assert(hole.base == net.base);
    assert(hole.prefix == 32);
    assert(net.base as int % 1 == 0);
}

/// `nets` is what is left of the whole address space without `holes`.
pub open spec fn complement(nets: Seq<Cidr4>, holes: Seq<Cidr4>) -> bool {
    &&& all_wf(nets)
    &&& ascending(nets)
    &&& forall|ip: int|
        0 <= ip < 0x1_0000_0000 ==> (#[trigger] any_holds(nets, ip) <==> !any_holds(holes, ip))
    &&& all_wf(holes) ==> forall|b: Cidr4|
        b.wf() && all_apart(holes, b) ==> #[trigger] any_spans(nets, b)
}

/// What is left of the blocks of `nets`, one after the other, without `hole`.
pub open spec fn leaves_all(nets: Seq<Cidr4>, hole: Cidr4, out: Seq<Cidr4>) -> bool {
    &&& all_wf(out)
    &&& ascending(out)
    &&& forall|i: int| 0 <= i < out.len() ==> any_spans(nets, #[trigger] out[i])
    &&& forall|ip: int|
        0 <= ip ==> (#[trigger] any_holds(out, ip) <==> any_holds(nets, ip) && !hole.holds(ip))
    &&& hole.wf() ==> forall|b: Cidr4|
        b.wf() && any_spans(nets, b) && hole.apart(b) ==> #[trigger] any_spans(out, b)
}

/// Removing the hole from one more block.
proof fn lemma_leaves_next(
    nets: Seq<Cidr4>,
    n: int,
    hole: Cidr4,
    done: Seq<Cidr4>,
    more: Seq<Cidr4>,
)
    requires
        0 <= n < nets.len(),
        all_wf(nets),
        ascending(nets),
        leaves_all(nets.take(n), hole, done),
        leaves(nets[n], hole, more),
    ensures
        leaves_all(nets.take(n + 1), hole, done + more),
{
    let before = nets.take(n);
    let after = nets.take(n + 1);
    let out = done + more;
    assert forall|i: int| 0 <= i < out.len() implies (#[trigger] out[i]).wf() && any_spans(
        after,
        out[i],
    ) by {
        if i < done.len() {
            assert(out[i] == done[i]);
            assert(any_spans(before, done[i]));
            let k = choose|k: int| 0 <= k < before.len() && (#[trigger] before[k]).spans(done[i]);
            assert(after[k].spans(out[i]));
        } else {
            assert(out[i] == more[i - done.len()]);
            assert(after[n].spans(out[i]));
        }
    }
    assert forall|i: int, j: int| 0 <= i < j < out.len() implies (#[trigger] out[i]).end() <= (
    #[trigger] out[j]).base by {
        if j < done.len() {
            assert(out[i] == done[i] && out[j] == done[j]);
        } else if i >= done.len() {
            assert(out[i] == more[i - done.len()] && out[j] == more[j - done.len()]);
        } else {
            assert(out[i] == done[i] && out[j] == more[j - done.len()]);
            assert(any_spans(before, done[i]));
            let k = choose|k: int| 0 <= k < before.len() && (#[trigger] before[k]).spans(done[i]);
            assert(before[k] == nets[k]);
            assert(nets[k].end() <= nets[n].base);
            assert(nets[n].spans(more[j - done.len()]));
        }
    }
    assert forall|ip: int| 0 <= ip implies (#[trigger] any_holds(out, ip) <==> any_holds(after, ip)
        && !hole.holds(ip)) by {
        assert(any_holds(done, ip) <==> any_holds(before, ip) && !hole.holds(ip));
        assert(any_holds(more, ip) <==> nets[n].holds(ip) && !hole.holds(ip));
        if any_holds(out, ip) {
            let i = choose|i: int| 0 <= i < out.len() && (#[trigger] out[i]).holds(ip);
            if i < done.len() {
                assert(done[i].holds(ip));
                let k = choose|k: int| 0 <= k < before.len() && (#[trigger] before[k]).holds(ip);
                assert(after[k].holds(ip));
            } else {
                assert(more[i - done.len()].holds(ip));
                assert(after[n].holds(ip));
            }
        }
        if any_holds(after, ip) && !hole.holds(ip) {
            let k = choose|k: int| 0 <= k < after.len() && (#[trigger] after[k]).holds(ip);
            if k < n {
                assert(before[k].holds(ip));
                let i = choose|i: int| 0 <= i < done.len() && (#[trigger] done[i]).holds(ip);
                assert(out[i].holds(ip));
            } else {
                let i = choose|i: int| 0 <= i < more.len() && (#[trigger] more[i]).holds(ip);
                assert(out[i + done.len()].holds(ip));
            }
        }
    }
    if hole.wf() {
        assert forall|b: Cidr4|
            b.wf() && any_spans(after, b) && hole.apart(b) implies #[trigger] any_spans(out, b) by {
            let k = choose|k: int| 0 <= k < after.len() && (#[trigger] after[k]).spans(b);
            if k < n {
                assert(before[k].spans(b));
                assert(any_spans(before, b));
                assert(any_spans(done, b));
                let i = choose|i: int| 0 <= i < done.len() && (#[trigger] done[i]).spans(b);
                assert(out[i].spans(b));
            } else {
                assert(any_spans(more, b));
                let i = choose|i: int| 0 <= i < more.len() && (#[trigger] more[i]).spans(b);
                assert(out[i + done.len()].spans(b));
            }
        }
    }
}

/// Remove `hole` from each block of `nets`.
fn exclude_all(nets: &Vec<Cidr4>, hole: Cidr4) -> (out: Vec<Cidr4>)
    requires
        all_wf(nets@),
        ascending(nets@),
        hole.prefix <= 32,
    ensures
        leaves_all(nets@, hole, out@),
{
    let mut out: Vec<Cidr4> = Vec::new();
    let mut i: usize = 0;
    proof {
        assert(leaves_all(nets@.take(0), hole, out@)) by {
            assert forall|ip: int| 0 <= ip implies (#[trigger] any_holds(out@, ip) <==> any_holds(
                nets@.take(0),
                ip,
            ) && !hole.holds(ip)) by {}
        }
    }
    while i < nets.len()
        invariant
            all_wf(nets@),
            ascending(nets@),
            hole.prefix <= 32,
            i <= nets@.len(),
            leaves_all(nets@.take(i as int), hole, out@),
        decreases nets@.len() - i,
    {
        let mut more = exclude_one(nets[i], hole);
        proof {
            lemma_leaves_next(nets@, i as int, hole, out@, more@);
        }
        out.append(&mut more);
        i = i + 1;
    }
    proof {
        assert(nets@.take(nets@.len() as int) =~= nets@);
    }
    out
}

/// The complement of one more hole.
proof fn lemma_complement_next(nets: Seq<Cidr4>, holes: Seq<Cidr4>, n: int, out: Seq<Cidr4>)
    requires
        0 <= n < holes.len(),
        complement(nets, holes.take(n)),
        leaves_all(nets, holes[n], out),
    ensures
        complement(out, holes.take(n + 1)),
{
    let before = holes.take(n);
    let after = holes.take(n + 1);
    assert forall|ip: int| 0 <= ip < 0x1_0000_0000 implies (#[trigger] any_holds(out, ip)
        <==> !any_holds(after, ip)) by {
        assert(any_holds(nets, ip) <==> !any_holds(before, ip));
        if any_holds(after, ip) {
            let k = choose|k: int| 0 <= k < after.len() && (#[trigger] after[k]).holds(ip);
            if k < n {
                assert(before[k].holds(ip));
            }
        }
        if any_holds(before, ip) {
            let k = choose|k: int| 0 <= k < before.len() && (#[trigger] before[k]).holds(ip);
            assert(after[k].holds(ip));
        }
        if holes[n].holds(ip) {
            assert(after[n].holds(ip));
        }
    }
    if all_wf(after) {
        assert(after[n].wf());
        assert forall|i: int| 0 <= i < before.len() implies (#[trigger] before[i]).wf() by {
            assert(before[i] == after[i]);
        }
        assert forall|b: Cidr4| b.wf() && all_apart(after, b) implies #[trigger] any_spans(
            out,
            b,
        ) by {
            assert(after[n].apart(b));
            assert forall|i: int| 0 <= i < before.len() implies (#[trigger] before[i]).apart(b) by {
                assert(before[i] == after[i]);
            }
            assert(any_spans(nets, b));
        }
    }
}

/// Without holes the whole address space is one block.
proof fn lemma_whole_space(holes: Seq<Cidr4>)
    requires
        holes.len() == 0,
    ensures
        complement(seq![Cidr4 { base: 0, prefix: 0 }], holes),
{
    let whole = Cidr4 { base: 0, prefix: 0 };
    let nets = seq![whole];
    lemma_block_size(0);
    assert(0int % 0x1_0000_0000 == 0);
    assert(whole.wf());
    assert forall|ip: int| 0 <= ip < 0x1_0000_0000 implies (#[trigger] any_holds(nets, ip)
        <==> !any_holds(holes, ip)) by {
        lemma_holds(whole, ip);
        assert(nets[0].holds(ip));
    }
    assert forall|b: Cidr4| b.wf() && all_apart(holes, b) implies #[trigger] any_spans(nets, b) by {
        lemma_end_bound(b);
        assert(nets[0].spans(b));
    }
}

/// Carve `holes` out of the full IPv4 space (`0.0.0.0/0`), returning the
/// minimal sorted set of CIDRs covering everything else.
///
/// The blocks are well formed, stand in ascending order without overlap, and
/// hold exactly the addresses that no hole holds; where the holes are well
/// formed, every block that avoids them lies inside a single block of the
/// result, so no two of its blocks could be one.
pub fn exclude_from_full(holes: &[Cidr4]) -> (nets: Vec<Cidr4>)
    requires
        forall|i: int| 0 <= i < holes@.len() ==> (#[trigger] holes@[i]).prefix <= 32,
    ensures
        complement(nets@, holes@),
{
    let mut nets: Vec<Cidr4> = Vec::new();
    nets.push(Cidr4 { base: 0, prefix: 0 });
    proof {
        assert(nets@ =~= seq![Cidr4 { base: 0, prefix: 0 }]);
        lemma_whole_space(holes@.take(0));
    }
    let mut i: usize = 0;
    while i < holes.len()
        invariant
            forall|i: int| 0 <= i < holes@.len() ==> (#[trigger] holes@[i]).prefix <= 32,
            i <= holes@.len(),
            complement(nets@, holes@.take(i as int)),
        decreases holes@.len() - i,
    {
        let rest = exclude_all(&nets, holes[i]);
        proof {
            lemma_complement_next(nets@, holes@, i as int, rest@);
        }
        nets = rest;
        i = i + 1;
    }
    proof {
        assert(holes@.take(holes@.len() as int) =~= holes@);
    }
    nets
}

// ---------------------------------------------------------------------------
// Laws
// ---------------------------------------------------------------------------

/// A dotted quad holds digits and dots, and begins and ends with a digit.
proof fn lemma_address_chars(b: nat)
    ensures
        address_text(b).len() > 0,
        text::is_digit(address_text(b)[0]),
        text::is_digit(address_text(b).last()),
        !address_text(b).contains('/'),
{
    reveal_strlit(".");
    let o0 = text::number(b / 0x100_0000);
    let o1 = text::number(b / 0x1_0000 % 0x100);
    let o2 = text::number(b / 0x100 % 0x100);
    let o3 = text::number(b % 0x100);
    text::lemma_number(b / 0x100_0000);
    text::lemma_number(b / 0x1_0000 % 0x100);
    text::lemma_number(b / 0x100 % 0x100);
    text::lemma_number(b % 0x100);
    let addr = address_text(b);
    let l0 = o0.len() as int;
    let l1 = l0 + 1 + o1.len();
    let l2 = l1 + 1 + o2.len();
    assert forall|i: int| 0 <= i < addr.len() implies #[trigger] addr[i] != '/' by {
        if i < l0 {
            assert(addr[i] == o0[i]);
        } else if l0 < i < l1 {
            assert(addr[i] == o1[i - l0 - 1]);
        } else if l1 < i < l2 {
            assert(addr[i] == o2[i - l1 - 1]);
        } else if l2 < i {
            assert(addr[i] == o3[i - l2 - 1]);
        }
    }
    assert(addr[0] == o0[0]);
    assert(addr.last() == o3[o3.len() - 1]);
}

/// The pieces of a dotted quad.
proof fn lemma_address_pieces(b: nat)
    ensures
        text::split(address_text(b), '.') == seq![
            text::number(b / 0x100_0000),
            text::number(b / 0x1_0000 % 0x100),
            text::number(b / 0x100 % 0x100),
            text::number(b % 0x100),
        ],
{
    reveal_strlit(".");
    let o0 = text::number(b / 0x100_0000);
    let o1 = text::number(b / 0x1_0000 % 0x100);
    let o2 = text::number(b / 0x100 % 0x100);
    let o3 = text::number(b % 0x100);
    lemma_number_no_dot(b / 0x100_0000);
    lemma_number_no_dot(b / 0x1_0000 % 0x100);
    lemma_number_no_dot(b / 0x100 % 0x100);
    lemma_number_no_dot(b % 0x100);
    assert("."@ =~= seq!['.']);
    let t2 = o2 + seq!['.'] + o3;
    let t1 = o1 + seq!['.'] + t2;
    assert(address_text(b) =~= o0 + seq!['.'] + t1);
    text::lemma_split_at(o0, '.', t1);
    text::lemma_split_at(o1, '.', t2);
    text::lemma_split_at(o2, '.', o3);
    text::lemma_split_single(o0, '.');
    text::lemma_split_single(o1, '.');
    text::lemma_split_single(o2, '.');
    text::lemma_split_single(o3, '.');
    assert(text::split(address_text(b), '.') =~= seq![o0, o1, o2, o3]);
}

proof fn lemma_number_no_dot(n: nat)
    ensures
        !text::number(n).contains('.'),
{
    text::lemma_number(n);
    assert forall|i: int| 0 <= i < text::number(n).len() implies text::number(n)[i] != '.' by {
        assert(text::is_digit(text::number(n)[i]));
    }
}

/// One block contains another exactly if it holds all of its addresses.
pub proof fn law_contains(a: Cidr4, b: Cidr4)
    requires
        a.wf(),
        b.wf(),
    ensures
        a.covers(b) <==> forall|ip: int|
            0 <= ip < 0x1_0000_0000 && #[trigger] b.holds(ip) ==> a.holds(ip),
{
    lemma_block_size(a.prefix as int);
    lemma_block_size(b.prefix as int);
    lemma_end_bound(a);
    lemma_end_bound(b);
    if a.covers(b) {
        lemma_nested(a, b);
        assert forall|ip: int| 0 <= ip < 0x1_0000_0000 && #[trigger] b.holds(ip) implies a.holds(
            ip,
        ) by {
            lemma_holds(a, ip);
            lemma_holds(b, ip);
        }
    }
    if forall|ip: int| 0 <= ip < 0x1_0000_0000 && #[trigger] b.holds(ip) ==> a.holds(ip) {
        let first = b.base as int;
        let last = b.end() - 1;
        lemma_holds(b, first);
        lemma_holds(b, last);
        assert(b.holds(first) && b.holds(last));
        lemma_holds(a, first);
        lemma_holds(a, last);
        if a.prefix > b.prefix {
            lemma_block_size(b.prefix + 1);
            lemma_sizes_ordered(b.prefix + 1, a.prefix as int);
        }
    }
}

/// Reading an address that was written gives the address.
pub proof fn law_parse_of_address(ip: u32)
    ensures
        address(address_text(ip as nat)) == Ok::<u32, Seq<char>>(ip),
{
    let b = ip as nat;
    let n0 = b / 0x100_0000;
    let n1 = b / 0x1_0000 % 0x100;
    let n2 = b / 0x100 % 0x100;
    let n3 = b % 0x100;
    lemma_address_chars(b);
    text::lemma_trim_fixed(address_text(b));
    lemma_address_pieces(b);
    text::lemma_parse_number(n0, 255);
    text::lemma_parse_number(n1, 255);
    text::lemma_parse_number(n2, 255);
    text::lemma_parse_number(n3, 255);
    assert(n0 * 0x100_0000 + n1 * 0x1_0000 + n2 * 0x100 + n3 == b);
}

/// Reading a block that was written gives the block.
pub proof fn law_parse_of_display(c: Cidr4)
    requires
        c.wf(),
    ensures
        block(block_text(c)) == Ok::<Cidr4, Seq<char>>(c),
{
    reveal_strlit("/");
    let addr = address_text(c.base as nat);
    let prefix = text::number(c.prefix as nat);
    let s = block_text(c);
    assert("/"@ =~= seq!['/']);
    assert(s =~= addr + seq!['/'] + prefix);
    lemma_address_chars(c.base as nat);
    text::lemma_number(c.prefix as nat);
    text::lemma_find_after(addr, '/', prefix);
    assert(s.take(addr.len() as int) =~= addr);
    assert(s.skip(addr.len() as int + 1) =~= prefix);
    assert(text::is_digit(prefix[0]));
    assert(text::is_digit(prefix[prefix.len() - 1]));
    text::lemma_trim_fixed(addr);
    text::lemma_trim_fixed(prefix);
    text::lemma_parse_number(c.prefix as nat, 255);
    law_parse_of_address(c.base);
    assert(network_base(c.base as int, c.prefix as int) == c.base);
}

/// A block inside the complement of well-formed holes is apart from each hole.
proof fn lemma_block_avoids(nets: Seq<Cidr4>, holes: Seq<Cidr4>, i: int)
    requires
        complement(nets, holes),
        all_wf(holes),
        0 <= i < nets.len(),
    ensures
        all_apart(holes, nets[i]),
{
    let x = nets[i];
    assert(x.wf());
    lemma_end_bound(x);
    lemma_block_size(x.prefix as int);
    assert forall|k: int| 0 <= k < holes.len() implies (#[trigger] holes[k]).apart(x) by {
        let h = holes[k];
        assert(h.wf());
        lemma_end_bound(h);
        lemma_block_size(h.prefix as int);
        if h.prefix <= x.prefix {
            lemma_nested(h, x);
            if h.covers(x) {
                assert(holes[k].holds(x.base as int));
                lemma_holds(x, x.base as int);
                assert(nets[i].holds(x.base as int));
                assert(any_holds(nets, x.base as int));
            }
        } else {
            lemma_nested(x, h);
            if x.covers(h) {
                assert(nets[i].holds(h.base as int));
                assert(any_holds(nets, h.base as int));
                lemma_holds(h, h.base as int);
                assert(holes[k].holds(h.base as int));
            }
        }
    }
}

/// Each block of one complement is a block of any other.
proof fn lemma_same_blocks(a: Seq<Cidr4>, b: Seq<Cidr4>, holes: Seq<Cidr4>, i: int)
    requires
        complement(a, holes),
        complement(b, holes),
        all_wf(holes),
        0 <= i < a.len(),
    ensures
        b.contains(a[i]),
{
    lemma_block_avoids(a, holes, i);
    assert(any_spans(b, a[i]));
    let k = choose|k: int| 0 <= k < b.len() && (#[trigger] b[k]).spans(a[i]);
    lemma_block_avoids(b, holes, k);
    assert(any_spans(a, b[k]));
    let m = choose|m: int| 0 <= m < a.len() && (#[trigger] a[m]).spans(b[k]);
    assert(a[i].wf() && b[k].wf() && a[m].wf());
    lemma_block_size(a[i].prefix as int);
    lemma_block_size(a[m].prefix as int);
    lemma_block_size(b[k].prefix as int);
    if m < i {
        assert(a[m].end() <= a[i].base);
    } else if i < m {
        assert(a[i].end() <= a[m].base);
    }
    assert(m == i);
    assert(a[i].base == b[k].base && a[i].end() == b[k].end());
    lemma_same_size(a[i].prefix as int, b[k].prefix as int);
}

/// Blocks of the same size have the same prefix length.
proof fn lemma_same_size(p: int, q: int)
    requires
        0 <= p <= 32,
        0 <= q <= 32,
        block_size(p) == block_size(q),
    ensures
        p == q,
{
    if p < q {
        lemma_sizes_ordered(p + 1, q);
        lemma_block_size(p + 1);
        lemma_block_size(q);
    } else if q < p {
        lemma_sizes_ordered(q + 1, p);
        lemma_block_size(q + 1);
        lemma_block_size(p);
    }
}

/// There is one complement only: the blocks that [`exclude_from_full`] returns
/// are fixed by what it promises.
pub proof fn law_complement_unique(a: Seq<Cidr4>, b: Seq<Cidr4>, holes: Seq<Cidr4>)
    requires
        complement(a, holes),
        complement(b, holes),
        all_wf(holes),
    ensures
        a == b,
{
    assert forall|i: int| 0 <= i < a.len() implies b.contains(#[trigger] a[i]) by {
        lemma_same_blocks(a, b, holes, i);
    }
    assert forall|i: int| 0 <= i < b.len() implies a.contains(#[trigger] b[i]) by {
        lemma_same_blocks(b, a, holes, i);
    }
    lemma_ascending_unique(a, b);
}

/// Two ascending lists with the same blocks are the same list.
proof fn lemma_ascending_unique(a: Seq<Cidr4>, b: Seq<Cidr4>)
    requires
        all_wf(a),
        all_wf(b),
        ascending(a),
        ascending(b),
        forall|i: int| 0 <= i < a.len() ==> b.contains(#[trigger] a[i]),
        forall|i: int| 0 <= i < b.len() ==> a.contains(#[trigger] b[i]),
    ensures
        a == b,
    decreases a.len(),
{
    if a.len() == 0 || b.len() == 0 {
        if a.len() > 0 {
            assert(b.contains(a[0]));
        }
        if b.len() > 0 {
            assert(a.contains(b[0]));
        }
        assert(a =~= b);
    } else {
        let n = a.len() - 1;
        let m = b.len() - 1;
        assert(b.contains(a[n]));
        assert(a.contains(b[m]));
        let k = choose|k: int| 0 <= k < b.len() && b[k] == a[n];
        let l = choose|l: int| 0 <= l < a.len() && a[l] == b[m];
        assert(a[n].wf() && b[m].wf() && a[l].wf() && b[k].wf());
        lemma_block_size(a[n].prefix as int);
        lemma_block_size(b[m].prefix as int);
        if k < m {
            assert(b[k].end() <= b[m].base);
            if l < n {
                assert(a[l].end() <= a[n].base);
            }
        }
        assert(a[n] == b[m]);
        let a1 = a.drop_last();
        let b1 = b.drop_last();
        assert forall|i: int| 0 <= i < a1.len() implies b1.contains(#[trigger] a1[i]) by {
            assert(a1[i] == a[i]);
            assert(b.contains(a[i]));
            let j = choose|j: int| 0 <= j < b.len() && b[j] == a[i];
            assert(a[i].end() <= a[n].base);
            assert(a[i].wf());
            lemma_block_size(a[i].prefix as int);
            assert(b1[j] == a1[i]);
        }
        assert forall|i: int| 0 <= i < b1.len() implies a1.contains(#[trigger] b1[i]) by {
            assert(b1[i] == b[i]);
            assert(a.contains(b[i]));
            let j = choose|j: int| 0 <= j < a.len() && a[j] == b[i];
            assert(b[i].end() <= b[m].base);
            assert(b[i].wf());
            lemma_block_size(b[i].prefix as int);
            assert(a1[j] == b1[i]);
        }
        assert forall|i: int, j: int| 0 <= i < j < a1.len() implies (#[trigger] a1[i]).end() <= (
        #[trigger] a1[j]).base by {
            assert(a1[i] == a[i] && a1[j] == a[j]);
        }
        assert forall|i: int, j: int| 0 <= i < j < b1.len() implies (#[trigger] b1[i]).end() <= (
        #[trigger] b1[j]).base by {
            assert(b1[i] == b[i] && b1[j] == b[j]);
        }
        assert forall|i: int| 0 <= i < a1.len() implies (#[trigger] a1[i]).wf() by {
            assert(a1[i] == a[i]);
        }
        assert forall|i: int| 0 <= i < b1.len() implies (#[trigger] b1[i]).wf() by {
            assert(b1[i] == b[i]);
        }
        lemma_ascending_unique(a1, b1);
        assert(a =~= a1.push(a[n]));
        assert(b =~= b1.push(b[m]));
    }
}

/// What is left of a block without a hole.
proof fn remainder(net: Cidr4, hole: Cidr4) -> (out: Seq<Cidr4>)
    requires
        net.wf(),
        hole.prefix <= 32,
    ensures
        leaves(net, hole, out),
    decreases 32 - net.prefix,
{
    if hole.covers(net) {
        lemma_vanishes(net, hole);
        Seq::empty()
    } else if !net.covers(hole) {
        lemma_survives(net, hole);
        seq![net]
    } else if net.prefix < 32 {
        let (lo, hi) = lower_and_upper(net);
        law_halves(net);
        let a = remainder(lo, hole);
        let b = remainder(hi, hole);
        lemma_join_halves(net, hole, a, b);
        a + b
    } else {
        lemma_single(net, hole);
        Seq::empty()
    }
}

/// What is left of the first `n` blocks without a hole.
proof fn remainders(nets: Seq<Cidr4>, hole: Cidr4, n: int) -> (out: Seq<Cidr4>)
    requires
        0 <= n <= nets.len(),
        all_wf(nets),
        ascending(nets),
        hole.prefix <= 32,
    ensures
        leaves_all(nets.take(n), hole, out),
    decreases n,
{
    if n == 0 {
        let out = Seq::<Cidr4>::empty();
        assert forall|ip: int| 0 <= ip implies (#[trigger] any_holds(out, ip) <==> any_holds(
            nets.take(0),
            ip,
        ) && !hole.holds(ip)) by {}
        out
    } else {
        let done = remainders(nets, hole, n - 1);
        let more = remainder(nets[n - 1], hole);
        lemma_leaves_next(nets, n - 1, hole, done, more);
        done + more
    }
}

/// There always is a complement.
pub proof fn law_complement_exists(holes: Seq<Cidr4>)
    requires
        all_wf(holes),
    ensures
        exists|nets: Seq<Cidr4>| complement(nets, holes),
{
    let nets = complement_of(holes, holes.len() as int);
    assert(holes.take(holes.len() as int) =~= holes);
}

/// A complement of the first `n` holes.
proof fn complement_of(holes: Seq<Cidr4>, n: int) -> (nets: Seq<Cidr4>)
    requires
        0 <= n <= holes.len(),
        all_wf(holes),
    ensures
        complement(nets, holes.take(n)),
    decreases n,
{
    if n == 0 {
        lemma_whole_space(holes.take(0));
        seq![Cidr4 { base: 0, prefix: 0 }]
    } else {
        let before = complement_of(holes, n - 1);
        let out = remainders(before, holes[n - 1], before.len() as int);
        assert(before.take(before.len() as int) =~= before);
        lemma_complement_next(before, holes, n - 1, out);
        out
    }
}

/// A block in writing holds digits, dots and a slash, and begins and ends with a
/// digit.
pub proof fn lemma_block_chars(c: Cidr4)
    ensures
        block_text(c).len() > 0,
        text::is_digit(block_text(c)[0]),
        text::is_digit(block_text(c).last()),
        forall|i: int|
            0 <= i < block_text(c).len() ==> (text::is_digit(#[trigger] block_text(c)[i])
                || block_text(c)[i] == '.' || block_text(c)[i] == '/'),
{
    reveal_strlit(".");
    reveal_strlit("/");
    let b = c.base as nat;
    let o0 = text::number(b / 0x100_0000);
    let o1 = text::number(b / 0x1_0000 % 0x100);
    let o2 = text::number(b / 0x100 % 0x100);
    let o3 = text::number(b % 0x100);
    let o4 = text::number(c.prefix as nat);
    text::lemma_number(b / 0x100_0000);
    text::lemma_number(b / 0x1_0000 % 0x100);
    text::lemma_number(b / 0x100 % 0x100);
    text::lemma_number(b % 0x100);
    text::lemma_number(c.prefix as nat);
    let s = block_text(c);
    let l0 = o0.len() as int;
    let l1 = l0 + 1 + o1.len();
    let l2 = l1 + 1 + o2.len();
    let l3 = l2 + 1 + o3.len();
    assert forall|i: int| 0 <= i < s.len() implies (text::is_digit(#[trigger] s[i]) || s[i] == '.'
        || s[i] == '/') by {
        if i < l0 {
            assert(s[i] == o0[i]);
        } else if l0 < i < l1 {
            assert(s[i] == o1[i - l0 - 1]);
        } else if l1 < i < l2 {
            assert(s[i] == o2[i - l1 - 1]);
        } else if l2 < i < l3 {
            assert(s[i] == o3[i - l2 - 1]);
        } else if l3 < i {
            assert(s[i] == o4[i - l3 - 1]);
        }
    }
    assert(s[0] == o0[0]);
    assert(s.last() == o4[o4.len() - 1]);
}

} // verus!
