//! `vpn split`: a split-tunnel sibling of a config.
use vstd::prelude::*;

use super::configs::{exists_refusal, refuse_existing, write_private, writing_private};
use super::measure::named_option;
use super::{Backend, BackendView};
use crate::cidr;
use crate::cidr::Cidr4;
use crate::config;
use crate::config::{Section, TunnelView};
use crate::error::{so_far, Error, ErrorView};
use crate::lint;
use crate::session::{Session, SessionView, Step};
use crate::text;

verus! {

// ---------------------------------------------------------------------------
// Rewriting a config
// ---------------------------------------------------------------------------

/// `lines` rewritten, and whether an `AllowedIPs` line was replaced: the first
/// one of the first peer becomes `allowed`, its others are dropped, shell hooks
/// are dropped, and so are `DNS` lines unless `keep_dns`. All other lines stay
/// as they are.
pub open spec fn rewriting(lines: Seq<Seq<char>>, allowed: Seq<char>, keep_dns: bool) -> (
    Seq<Seq<char>>,
    bool,
)
    decreases lines.len(),
{
    if lines.len() == 0 {
        (Seq::empty(), false)
    } else {
        let (out, replaced) = rewriting(lines.drop_last(), allowed, keep_dns);
        match config::key_value(lines.last()) {
            None => (out.push(lines.last()), replaced),
            Some((key, _)) => if config::hook_name(key) is Some {
                (out, replaced)
            } else if config::named(key, "dns"@) && !keep_dns {
                (out, replaced)
            } else if config::named(key, "allowedips"@) && config::section_after(
                lines.drop_last(),
            ).0 == Section::FirstPeer {
                if replaced {
                    (out, replaced)
                } else {
                    (out.push("AllowedIPs = "@ + allowed), true)
                }
            } else {
                (out.push(lines.last()), replaced)
            },
        }
    }
}

/// A config rewritten, where it has an `AllowedIPs` line to replace.
pub open spec fn rewritten(conf: Seq<char>, allowed: Seq<char>, keep_dns: bool) -> Option<Seq<char>> {
    let (out, replaced) = rewriting(text::lines(conf), allowed, keep_dns);
    if replaced {
        Some(text::join(out, "\n"@) + "\n"@)
    } else {
        None
    }
}

/// Rewrite a config's first-peer `AllowedIPs` to `allowed_line`, dropping
/// `DNS` lines unless `keep_dns`. Shell hooks are always dropped: the sibling
/// is written directly (bypassing `add`'s hook gate), so carrying a
/// root-executed hook forward would silently propagate a privilege-escalation
/// vector. Returns `None` if no AllowedIPs line exists.
pub fn rewrite_split(conf: &str, allowed_line: &str, keep_dns: bool) -> (r: Option<String>)
    ensures
        r.deep_view() == rewritten(conf@, allowed_line@, keep_dns),
{
    let lines = text::text_lines(conf);
    let ghost l = lines.deep_view();
    let mut out = text::no_texts();
    let mut section = Section::Other;
    let mut seen_peer = false;
    let mut replaced = false;
    let mut i: usize = 0;
    proof {
        assert(l.take(0) =~= Seq::<Seq<char>>::empty());
    }
    while i < lines.len()
        invariant
            l == lines.deep_view(),
            i <= lines@.len(),
            (section, seen_peer) == config::section_after(l.take(i as int)),
            (out.deep_view(), replaced) == rewriting(l.take(i as int), allowed_line@, keep_dns),
        decreases lines@.len() - i,
    {
        proof {
            assert(l.take(i + 1).drop_last() =~= l.take(i as int));
            assert(l.take(i + 1).last() == lines@[i as int]@);
        }
        match config::read_key_value(&lines[i]) {
            None => {
                text::push_text(&mut out, &lines[i]);
            },
            Some((key, _)) => {
                if config::exec_hook_name(&key).is_some() {
                    // never propagate a root-executed hook
                } else if text::same_ignoring_case(&key, "dns") && !keep_dns {
                    // drop the DNS override
                } else if text::same_ignoring_case(&key, "allowedips") && section
                    == Section::FirstPeer {
                    if !replaced {
                        let mut line = "AllowedIPs = ".to_owned();
                        line.append(allowed_line);
                        text::push_text(&mut out, &line);
                        replaced = true;
                    }
                } else {
                    text::push_text(&mut out, &lines[i]);
                }
            },
        }
        let (next, seen) = config::next_section(section, seen_peer, &lines[i]);
        section = next;
        seen_peer = seen;
        i = i + 1;
    }
    proof {
        assert(l.take(l.len() as int) =~= l);
    }
    if !replaced {
        return None;
    }
    let mut result = text::text_join(&out, "\n");
    result.append("\n");
    Some(result)
}

// ---------------------------------------------------------------------------
// What is routed
// ---------------------------------------------------------------------------

/// The blocks that are left of the whole address space without the holes; see
/// [`cidr::law_complement_unique`].
pub open spec fn routed(holes: Seq<Cidr4>) -> Seq<Cidr4> {
    choose|nets: Seq<Cidr4>| cidr::complement(nets, holes)
}

/// The blocks as texts.
pub open spec fn block_texts(nets: Seq<Cidr4>) -> Seq<Seq<char>> {
    nets.map_values(|c: Cidr4| cidr::block_text(c))
}

/// The `AllowedIPs` value that routes the blocks, and all of IPv6.
pub open spec fn allowed_line(nets: Seq<Cidr4>) -> Seq<char> {
    text::join(block_texts(nets), ", "@) + ", ::/0"@
}

/// What is kept out of the tunnel: the endpoint and then the first `n`
/// excluded blocks; or why one of them is none.
pub open spec fn holes(endpoint_ip: u32, excludes: Seq<Seq<char>>) -> Result<Seq<Cidr4>, ErrorView>
    decreases excludes.len(),
{
    if excludes.len() == 0 {
        Ok(seq![Cidr4 { base: endpoint_ip, prefix: 32 }])
    } else {
        match holes(endpoint_ip, excludes.drop_last()) {
            Err(e) => Err(e),
            Ok(before) => match cidr::block(excludes.last()) {
                Ok(c) => Ok(before.push(c)),
                Err(message) => Err(exclude_refusal(excludes.last(), message)),
            },
        }
    }
}

/// What is said of an excluded block that is none.
pub open spec fn exclude_refusal(exclude: Seq<char>, message: Seq<char>) -> ErrorView {
    ErrorView::Refused("--exclude "@ + exclude + ": "@ + message + " (IPv4 CIDRs only)"@)
}

/// What is said of an endpoint that is no IPv4 address.
pub open spec fn endpoint_refusal(endpoint: Seq<char>) -> ErrorView {
    ErrorView::Refused(
        "Endpoint '"@ + endpoint
            + "' is not an IPv4 address — split requires an IPv4 endpoint"@,
    )
}

/// What is to be kept out of the tunnel of a config with that endpoint, or why
/// no split tunnel can be computed.
pub open spec fn split_holes(endpoint: Option<Seq<char>>, excludes: Seq<Seq<char>>) -> Result<
    Seq<Cidr4>,
    ErrorView,
> {
    match endpoint {
        None => Err(
            ErrorView::Refused("config has no Endpoint — cannot compute a safe split tunnel"@),
        ),
        Some(e) => match cidr::address(lint::endpoint_host(e)) {
            Err(_) => Err(endpoint_refusal(e)),
            Ok(ip) => holes(ip, excludes),
        },
    }
}

/// The holes so far are blocks.
proof fn lemma_holes_prefix(endpoint_ip: u32, excludes: Seq<Seq<char>>, n: int)
    requires
        0 <= n <= excludes.len(),
        holes(endpoint_ip, excludes.take(n)) is Err,
    ensures
        holes(endpoint_ip, excludes) == holes(endpoint_ip, excludes.take(n)),
    decreases excludes.len() - n,
{
    if n < excludes.len() {
        assert(excludes.take(n + 1).drop_last() =~= excludes.take(n));
        lemma_holes_prefix(endpoint_ip, excludes, n + 1);
    } else {
        assert(excludes.take(n) =~= excludes);
    }
}

/// What is kept out of the tunnel.
fn read_holes(endpoint_ip: u32, excludes: &Vec<String>) -> (r: Result<Vec<Cidr4>, Error>)
    ensures
        (match r {
            Ok(v) => holes(endpoint_ip, excludes.deep_view()) == Ok::<Seq<Cidr4>, ErrorView>(v@),
            Err(e) => holes(endpoint_ip, excludes.deep_view()) == Err::<Seq<Cidr4>, ErrorView>(
                e.deep_view(),
            ),
        }),
        r matches Ok(v) ==> cidr::all_wf(v@),
{
    let ghost x = excludes.deep_view();
    let mut out: Vec<Cidr4> = Vec::new();
    out.push(Cidr4 { base: endpoint_ip, prefix: 32 });
    let mut i: usize = 0;
    proof {
        cidr::lemma_block_size(32);
        assert(x.take(0) =~= Seq::<Seq<char>>::empty());
        assert(out@ =~= seq![Cidr4 { base: endpoint_ip, prefix: 32 }]);
        assert(out@[0].wf());
    }
    while i < excludes.len()
        invariant
            x == excludes.deep_view(),
            i <= excludes@.len(),
            holes(endpoint_ip, x.take(i as int)) == Ok::<Seq<Cidr4>, ErrorView>(out@),
            cidr::all_wf(out@),
        decreases excludes@.len() - i,
    {
        proof {
            assert(x.take(i + 1).drop_last() =~= x.take(i as int));
            assert(x.take(i + 1).last() == excludes@[i as int]@);
        }
        match Cidr4::parse(&excludes[i]) {
            Ok(c) => {
                out.push(c);
            },
            Err(message) => {
                let mut complaint = "--exclude ".to_owned();
                complaint.append(&excludes[i]);
                complaint.append(": ");
                complaint.append(&message);
                complaint.append(" (IPv4 CIDRs only)");
                proof {
                    lemma_holes_prefix(endpoint_ip, x, i + 1);
                }
                return Err(Error::Refused(complaint));
            },
        }
        i = i + 1;
    }
    proof {
        assert(x.take(x.len() as int) =~= x);
    }
    Ok(out)
}

/// What is to be kept out of the tunnel of a config with that endpoint.
fn read_split_holes(endpoint: Option<String>, excludes: &Vec<String>) -> (r: Result<
    Vec<Cidr4>,
    Error,
>)
    ensures
        (match r {
            Ok(v) => split_holes(endpoint.deep_view(), excludes.deep_view()) == Ok::<
                Seq<Cidr4>,
                ErrorView,
            >(v@),
            Err(e) => split_holes(endpoint.deep_view(), excludes.deep_view()) == Err::<
                Seq<Cidr4>,
                ErrorView,
            >(e.deep_view()),
        }),
        r matches Ok(v) ==> cidr::all_wf(v@),
{
    match endpoint {
        None => Err(
            Error::Refused(
                "config has no Endpoint — cannot compute a safe split tunnel".to_owned(),
            ),
        ),
        Some(e) => {
            let host = lint::read_endpoint_host(&e);
            match cidr::parse_ip4(&host) {
                Err(_) => {
                    let mut complaint = "Endpoint '".to_owned();
                    complaint.append(&e);
                    complaint.append("' is not an IPv4 address — split requires an IPv4 endpoint");
                    Err(Error::Refused(complaint))
                },
                Ok(ip) => read_holes(ip, excludes),
            }
        },
    }
}

/// The `AllowedIPs` value that routes all but the holes, and its number of
/// entries.
fn compute_allowed(holes: &Vec<Cidr4>) -> (r: (String, usize))
    requires
        cidr::all_wf(holes@),
    ensures
        r.0@ == allowed_line(routed(holes@)),
        r.1 == routed(holes@).len() + 1,
{
    let nets = cidr::exclude_from_full(holes.as_slice());
    proof {
        cidr::law_complement_unique(nets@, routed(holes@), holes@);
    }
    let mut texts = text::no_texts();
    let mut i: usize = 0;
    while i < nets.len()
        invariant
            cidr::all_wf(nets@),
            i <= nets@.len(),
            texts.deep_view() == block_texts(nets@.take(i as int)),
        decreases nets@.len() - i,
    {
        let shown = nets[i].to_string();
        proof {
            assert(block_texts(nets@.take(i + 1)) =~= block_texts(nets@.take(i as int)).push(
                cidr::block_text(nets@[i as int]),
            ));
        }
        text::push_text(&mut texts, &shown);
        i = i + 1;
    }
    proof {
        assert(nets@.take(nets@.len() as int) =~= nets@);
        assert(texts.deep_view().len() == texts@.len());
    }
    let mut line = text::text_join(&texts, ", ");
    line.append(", ::/0");
    text::push_text(&mut texts, "::/0");
    proof {
        assert(texts.deep_view().len() == texts@.len());
    }
    (line, texts.len())
}

// ---------------------------------------------------------------------------
// Split
// ---------------------------------------------------------------------------

/// The name of the sibling by default.
pub open spec fn split_name(name: Seq<char>, output: Option<Seq<char>>) -> Seq<char> {
    match output {
        Some(o) => o,
        None => name + "-split"@,
    }
}

impl BackendView {
    /// `vpn split`: the new tunnel's name, its path, and its number of
    /// `AllowedIPs` entries.
    pub open spec fn splitting(
        self,
        s: SessionView,
        name: Seq<char>,
        excludes: Seq<Seq<char>>,
        output: Option<Seq<char>>,
        keep_dns: bool,
        force: bool,
    ) -> Step<Result<(Seq<char>, Seq<char>, usize), ErrorView>> {
        let (s, resolved) = config::resolving(s, self.config_dir, name);
        match resolved {
            None => (s, None),
            Some(Err(e)) => (s, Some(Err(e))),
            Some(Ok(tunnel)) => {
                let (s, summed) = config::summarizing(s, tunnel.path);
                match summed {
                    None => (s, None),
                    Some(Err(e)) => (s, Some(Err(e))),
                    Some(Ok(summary)) => match split_holes(summary.endpoint, excludes) {
                        Err(e) => (s, Some(Err(e))),
                        Ok(kept_out) => self.writing_split(
                            s,
                            tunnel,
                            routed(kept_out),
                            split_name(name, output),
                            keep_dns,
                            force,
                        ),
                    },
                }
            },
        }
    }

    /// Writing the sibling of a tunnel.
    pub open spec fn writing_split(
        self,
        s: SessionView,
        tunnel: TunnelView,
        nets: Seq<Cidr4>,
        out_name: Seq<char>,
        keep_dns: bool,
        force: bool,
    ) -> Step<Result<(Seq<char>, Seq<char>, usize), ErrorView>> {
        if !config::valid_name(out_name) {
            (s, Some(Err(ErrorView::InvalidName(out_name))))
        } else {
            let dest = config::conf_path(self.config_dir, out_name);
            let (s, found) = s.exists_path(dest);
            match found {
                None => (s, None),
                Some(there) => if there && !force {
                    (s, Some(Err(exists_refusal(dest))))
                } else {
                    let (s, conf) = config::reading_conf(s, tunnel.path);
                    match conf {
                        None => (s, None),
                        Some(Err(e)) => (s, Some(Err(e))),
                        Some(Ok(held)) => match rewritten(held, allowed_line(nets), keep_dns) {
                            None => (
                                s,
                                Some(
                                    Err(
                                        ErrorView::Refused(
                                            "config has no AllowedIPs line to rewrite"@,
                                        ),
                                    ),
                                ),
                            ),
                            Some(sibling) => {
                                let (s, written) = writing_private(
                                    s,
                                    dest,
                                    sibling,
                                    self.config_dir,
                                );
                                (
                                    s,
                                    match written {
                                        None => None,
                                        Some(Err(e)) => Some(Err(e)),
                                        Some(Ok(_)) => Some(
                                            Ok((out_name, dest, (nets.len() + 1) as usize)),
                                        ),
                                    },
                                )
                            },
                        },
                    }
                },
            }
        }
    }
}

impl Backend {
    /// Generate a split-tunnel sibling of `name`: `AllowedIPs` covering all of
    /// IPv4 except the `excludes` CIDRs and — always — the server's own
    /// endpoint `/32` (preventing the routing loop `wg-quick` does not guard
    /// against outside exact default routes). IPv6 stays fully routed (`::/0`).
    /// The `DNS` line is dropped unless `keep_dns`.
    ///
    /// Returns the new tunnel's name, path, and AllowedIPs entry count.
    pub fn split(
        &self,
        session: &mut Session,
        name: &str,
        excludes: &Vec<String>,
        output: Option<&str>,
        keep_dns: bool,
        force: bool,
    ) -> (r: Option<Result<(String, String, usize), Error>>)
        ensures
            (final(session).deep_view(), so_far(r)) == self.deep_view().splitting(
                old(session).deep_view(),
                name@,
                excludes.deep_view(),
                named_option(output),
                keep_dns,
                force,
            ),
    {
        let tunnel = match config::resolve(session, &self.config_dir, name)? {
            Ok(tunnel) => tunnel,
            Err(e) => {
                return Some(Err(e));
            },
        };
        let summary = match config::conf_summary(session, &tunnel.path)? {
            Ok(summary) => summary,
            Err(e) => {
                return Some(Err(e));
            },
        };
        let kept_out = match read_split_holes(summary.endpoint, excludes) {
            Ok(kept_out) => kept_out,
            Err(e) => {
                return Some(Err(e));
            },
        };
        let (line, entries) = compute_allowed(&kept_out);
        let out_name = match output {
            Some(o) => o.to_owned(),
            None => {
                let mut n = name.to_owned();
                n.append("-split");
                n
            },
        };
        if !config::is_valid_name(&out_name) {
            return Some(Err(Error::InvalidName(out_name)));
        }
        let dest = config::path_of_conf(&self.config_dir, &out_name);
        if session.exists_path(&dest)? && !force {
            return Some(Err(refuse_existing(&dest)));
        }
        let conf = match config::read_conf(session, &tunnel.path)? {
            Ok(conf) => conf,
            Err(e) => {
                return Some(Err(e));
            },
        };
        match rewrite_split(&conf, &line, keep_dns) {
            None => Some(
                Err(Error::Refused("config has no AllowedIPs line to rewrite".to_owned())),
            ),
            Some(sibling) => match write_private(session, &dest, &sibling, &self.config_dir)? {
                Err(e) => Some(Err(e)),
                Ok(_) => Some(Ok((out_name, dest, entries))),
            },
        }
    }
}

} // verus!
