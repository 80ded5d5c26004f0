//! What holds of a split-tunnel sibling.
use vstd::prelude::*;

use super::split::{
    allowed_line, block_texts, holes, rewriting, rewritten, routed, split_holes,
};
use crate::cidr;
use crate::cidr::Cidr4;
use crate::config;
use crate::config::{EntryView, Section};
use crate::error::ErrorView;
use crate::lint;
use crate::text;

verus! {

// ---------------------------------------------------------------------------
// Lines
// ---------------------------------------------------------------------------

/// A blank at the end makes no difference to a trimmed text.
proof fn lemma_trim_push(s: Seq<char>, c: char)
    requires
        text::is_space(c),
    ensures
        text::trim(s.push(c)) == text::trim(s),
    decreases s.len(),
{
    let t = s.push(c);
    if s.len() == 0 {
        assert(t.skip(1) =~= Seq::<char>::empty());
        assert(s =~= Seq::<char>::empty());
        assert(text::trim_start(t) == text::trim_start(t.skip(1)));
    } else if text::is_space(s[0]) {
        assert(t.skip(1) =~= s.skip(1).push(c));
        lemma_trim_push(s.skip(1), c);
    } else {
        assert(t.drop_last() =~= s);
    }
}

/// A blank at the beginning makes no difference to a trimmed text.
proof fn lemma_trim_blank(s: Seq<char>)
    ensures
        text::trim(seq![' '] + s) == text::trim(s),
{
    let t = seq![' '] + s;
    assert(t.skip(1) =~= s);
}

/// A trailing carriage return makes no difference to the statement of a line.
proof fn lemma_statement_of_stripped(raw: Seq<char>)
    ensures
        config::statement(text::strip_return(raw)) == config::statement(raw),
{
    if raw.len() > 0 && raw.last() == '\r' {
        let s = raw.drop_last();
        assert(s.push('\r') =~= raw);
        text::lemma_find(raw, '#');
        text::lemma_find(s, '#');
        if raw.contains('#') {
            let i = text::find(raw, '#')->0;
            assert(s[i] == '#');
            assert(s.contains('#'));
            let k = text::find(s, '#')->0;
            assert(raw[k] == '#');
            assert(i == k);
            assert(s.take(i) =~= raw.take(i));
        } else {
            if s.contains('#') {
                let k = choose|k: int| 0 <= k < s.len() && s[k] == '#';
                assert(raw[k] == '#');
            }
            lemma_trim_push(s, '\r');
        }
    }
}

/// Lines with the same statements have the same entries and sections.
proof fn lemma_same_statements(a: Seq<Seq<char>>, b: Seq<Seq<char>>)
    requires
        a.len() == b.len(),
        forall|i: int|
            0 <= i < a.len() ==> config::statement(#[trigger] a[i]) == config::statement(b[i]),
    ensures
        config::entries(a) == config::entries(b),
        config::section_after(a) == config::section_after(b),
    decreases a.len(),
{
    if a.len() > 0 {
        assert forall|i: int| 0 <= i < a.len() - 1 implies config::statement(
            #[trigger] a.drop_last()[i],
        ) == config::statement(b.drop_last()[i]) by {
            assert(a.drop_last()[i] == a[i]);
        }
        lemma_same_statements(a.drop_last(), b.drop_last());
        assert(config::statement(a[a.len() - 1]) == config::statement(b[b.len() - 1]));
    }
}

/// The pieces between the occurrences of `c` do not hold `c`.
proof fn lemma_pieces_without(s: Seq<char>, c: char)
    ensures
        forall|i: int| 0 <= i < text::split(s, c).len() ==> !(#[trigger] text::split(s, c)[i]).contains(c),
    decreases s.len(),
{
    let p = text::split(s, c);
    if s.len() == 0 {
    } else {
        let q = text::split(s.drop_last(), c);
        text::lemma_split_nonempty(s.drop_last(), c);
        lemma_pieces_without(s.drop_last(), c);
        assert forall|i: int| 0 <= i < p.len() implies !(#[trigger] p[i]).contains(c) by {
            if s.last() == c {
                if i < q.len() {
                    assert(p[i] == q[i]);
                }
            } else if i < q.len() - 1 {
                assert(p[i] == q[i]);
            } else {
                let l = q[q.len() - 1];
                assert(!l.contains(c));
                assert(p[i] == l.push(s.last()));
                if p[i].contains(c) {
                    let k = choose|k: int| 0 <= k < p[i].len() && p[i][k] == c;
                    assert(l[k] == c);
                }
            }
        }
    }
}

/// Whether no line holds a line break.
spec fn unbroken(lines: Seq<Seq<char>>) -> bool {
    forall|i: int| 0 <= i < lines.len() ==> !(#[trigger] lines[i]).contains('\n')
}

/// The lines of a text hold no line break.
proof fn lemma_lines_unbroken(s: Seq<char>)
    ensures
        unbroken(text::lines(s)),
{
    let p = text::split(s, '\n');
    let l = text::lines(s);
    lemma_pieces_without(s, '\n');
    assert forall|i: int| 0 <= i < l.len() implies !(#[trigger] l[i]).contains('\n') by {
        assert(!p[i].contains('\n'));
        if l[i].contains('\n') {
            let k = choose|k: int| 0 <= k < l[i].len() && l[i][k] == '\n';
            assert(p[i][k] == '\n');
        }
    }
}

/// Joined lines split into the same lines.
proof fn lemma_split_joined(lines: Seq<Seq<char>>)
    requires
        lines.len() > 0,
        unbroken(lines),
    ensures
        text::split(text::join(lines, "\n"@), '\n') == lines,
    decreases lines.len(),
{
    reveal_strlit("\n");
    assert("\n"@ =~= seq!['\n']);
    let last = lines.last();
    assert(!lines[lines.len() - 1].contains('\n'));
    text::lemma_split_single(last, '\n');
    if lines.len() == 1 {
        assert(lines =~= seq![last]);
    } else {
        let before = lines.drop_last();
        assert forall|i: int| 0 <= i < before.len() implies !(#[trigger] before[i]).contains(
            '\n',
        ) by {
            assert(before[i] == lines[i]);
        }
        lemma_split_joined(before);
        text::lemma_split_at(text::join(before, "\n"@), '\n', last);
        assert(before + seq![last] =~= lines);
    }
}

/// The lines of a text that was put together from lines have the same
/// statements.
proof fn lemma_lines_of_joined(out: Seq<Seq<char>>)
    requires
        out.len() > 0,
        unbroken(out),
    ensures
        config::entries(text::lines(text::join(out, "\n"@) + "\n"@)) == config::entries(out),
{
    reveal_strlit("\n");
    assert("\n"@ =~= seq!['\n']);
    let joined = text::join(out, "\n"@);
    let s = joined + "\n"@;
    let nothing = Seq::<char>::empty();
    lemma_split_joined(out);
    text::lemma_split_at(joined, '\n', nothing);
    assert(s =~= joined + seq!['\n'] + nothing);
    assert(text::split(nothing, '\n') =~= seq![nothing]);
    let p = text::split(s, '\n');
    assert(p =~= out.push(nothing));
    let l = text::lines(s);
    assert(l.len() == out.len());
    assert forall|i: int| 0 <= i < l.len() implies config::statement(#[trigger] l[i])
        == config::statement(out[i]) by {
        assert(p[i] == out[i]);
        lemma_statement_of_stripped(out[i]);
    }
    lemma_same_statements(l, out);
}

// ---------------------------------------------------------------------------
// Entries
// ---------------------------------------------------------------------------

/// Whether a value can stand in an `AllowedIPs` line: no comment, no line break,
/// no blank at either end.
pub open spec fn plain(value: Seq<char>) -> bool {
    &&& value.len() > 0
    &&& !text::is_space(value[0])
    &&& !text::is_space(value.last())
    &&& !value.contains('#')
    &&& !value.contains('\n')
}

/// The entry of the new line.
proof fn lemma_new_line(allowed: Seq<char>)
    requires
        plain(allowed),
    ensures
        config::key_value("AllowedIPs = "@ + allowed) == Some(("AllowedIPs"@, allowed)),
        !("AllowedIPs = "@ + allowed).contains('\n'),
{
    reveal_strlit("AllowedIPs = ");
    reveal_strlit("AllowedIPs");
    let raw = "AllowedIPs = "@ + allowed;
    let key = "AllowedIPs "@;
    reveal_strlit("AllowedIPs ");
    text::lemma_find(raw, '#');
    if raw.contains('#') {
        let k = choose|k: int| 0 <= k < raw.len() && raw[k] == '#';
        if k >= 13 {
            assert(allowed[k - 13] == '#');
        }
    }
    if raw.contains('\n') {
        let k = choose|k: int| 0 <= k < raw.len() && raw[k] == '\n';
        if k >= 13 {
            assert(allowed[k - 13] == '\n');
        }
    }
    text::lemma_trim_fixed(raw);
    assert(config::statement(raw) == raw);
    let value = seq![' '] + allowed;
    assert(raw =~= key + seq!['='] + value);
    assert(!key.contains('='));
    text::lemma_find_after(key, '=', value);
    assert(raw.take(key.len() as int) =~= key);
    assert(raw.skip(key.len() as int + 1) =~= value);
    lemma_trim_blank(allowed);
    text::lemma_trim_fixed(allowed);
    assert(key =~= "AllowedIPs"@.push(' '));
    lemma_trim_push("AllowedIPs"@, ' ');
    text::lemma_trim_fixed("AllowedIPs"@);
}

/// The entries of a config rewritten, and whether an `AllowedIPs` entry was
/// replaced.
spec fn rewriting_entries(es: Seq<EntryView>, allowed: Seq<char>, keep_dns: bool) -> (
    Seq<EntryView>,
    bool,
)
    decreases es.len(),
{
    if es.len() == 0 {
        (Seq::empty(), false)
    } else {
        let (out, replaced) = rewriting_entries(es.drop_last(), allowed, keep_dns);
        let e = es.last();
        if config::hook_name(e.key) is Some {
            (out, replaced)
        } else if config::named(e.key, "dns"@) && !keep_dns {
            (out, replaced)
        } else if config::named(e.key, "allowedips"@) && e.section == Section::FirstPeer {
            if replaced {
                (out, replaced)
            } else {
                (
                    out.push(
                        EntryView {
                            section: Section::FirstPeer,
                            key: "AllowedIPs"@,
                            value: allowed,
                        },
                    ),
                    true,
                )
            }
        } else {
            (out.push(e), replaced)
        }
    }
}

/// Rewriting the lines rewrites the entries, and keeps the sections.
proof fn lemma_rewriting(lines: Seq<Seq<char>>, allowed: Seq<char>, keep_dns: bool)
    requires
        plain(allowed),
        unbroken(lines),
    ensures
        ({
            let (out, replaced) = rewriting(lines, allowed, keep_dns);
            &&& (config::entries(out), replaced) == rewriting_entries(
                config::entries(lines),
                allowed,
                keep_dns,
            )
            &&& config::section_after(out) == config::section_after(lines)
            &&& unbroken(out)
            &&& replaced ==> out.len() > 0
        }),
    decreases lines.len(),
{
    lemma_new_line(allowed);
    if lines.len() > 0 {
        let before = lines.drop_last();
        let raw = lines.last();
        assert forall|i: int| 0 <= i < before.len() implies !(#[trigger] before[i]).contains(
            '\n',
        ) by {
            assert(before[i] == lines[i]);
        }
        lemma_rewriting(before, allowed, keep_dns);
        assert(!lines[lines.len() - 1].contains('\n'));
        let (done, _) = rewriting(before, allowed, keep_dns);
        let (out, _) = rewriting(lines, allowed, keep_dns);
        let new = "AllowedIPs = "@ + allowed;
        assert(done.push(raw).drop_last() =~= done);
        assert(done.push(new).drop_last() =~= done);
        match config::key_value(raw) {
            Some((key, value)) => {
                let e = EntryView { section: config::section_after(before).0, key, value };
                assert(config::entries(lines) == config::entries(before).push(e));
                assert(config::entries(before).push(e).drop_last() =~= config::entries(before));
            },
            None => {},
        }
        assert forall|i: int| 0 <= i < out.len() implies !(#[trigger] out[i]).contains('\n') by {
            if i < done.len() {
                assert(out[i] == done[i]);
            }
        }
    }
}

// ---------------------------------------------------------------------------
// The summary of a sibling
// ---------------------------------------------------------------------------

/// The keys that are told apart, in lower case.
proof fn lemma_keys()
    ensures
        text::lower("publickey"@).len() == 9,
        text::lower("privatekey"@).len() == 10,
        text::lower("privatekey"@)[0] == 'p',
        text::lower("endpoint"@).len() == 8,
        text::lower("endpoint"@)[0] == 'e',
        text::lower("allowedips"@).len() == 10,
        text::lower("allowedips"@)[0] == 'a',
        text::lower("AllowedIPs"@) == text::lower("allowedips"@),
        text::lower("dns"@).len() == 3,
        text::lower("PreUp"@).len() == 5,
        text::lower("PostUp"@).len() == 6,
        text::lower("PreDown"@).len() == 7,
        text::lower("PostDown"@).len() == 8,
        text::lower("PostDown"@)[0] == 'p',
{
    reveal_strlit("publickey");
    reveal_strlit("privatekey");
    reveal_strlit("endpoint");
    reveal_strlit("allowedips");
    reveal_strlit("AllowedIPs");
    reveal_strlit("dns");
    reveal_strlit("PreUp");
    reveal_strlit("PostUp");
    reveal_strlit("PreDown");
    reveal_strlit("PostDown");
    assert(text::lower("AllowedIPs"@) =~= text::lower("allowedips"@));
}

/// What the questions to the entries give after rewriting.
proof fn lemma_rewritten_entries(es: Seq<EntryView>, allowed: Seq<char>, keep_dns: bool)
    ensures
        ({
            let (out, replaced) = rewriting_entries(es, allowed, keep_dns);
            let peer = Section::FirstPeer;
            let interface = Section::Interface;
            &&& config::hooks(out).len() == 0
            &&& config::first_value(out, peer, "publickey"@) == config::first_value(
                es,
                peer,
                "publickey"@,
            )
            &&& config::first_value(out, peer, "endpoint"@) == config::first_value(
                es,
                peer,
                "endpoint"@,
            )
            &&& config::value_pieces(out, peer, "allowedips"@) == if replaced {
                text::split(allowed, ',')
            } else {
                Seq::empty()
            }
            &&& config::value_pieces(out, interface, "dns"@) == if keep_dns {
                config::value_pieces(es, interface, "dns"@)
            } else {
                Seq::empty()
            }
        }),
    decreases es.len(),
{
    lemma_keys();
    if es.len() > 0 {
        let before = es.drop_last();
        let e = es.last();
        lemma_rewritten_entries(before, allowed, keep_dns);
        let (done, replaced) = rewriting_entries(before, allowed, keep_dns);
        let new = EntryView { section: Section::FirstPeer, key: "AllowedIPs"@, value: allowed };
        assert(done.push(e).drop_last() =~= done);
        assert(done.push(new).drop_last() =~= done);
        let nothing = Seq::<Seq<char>>::empty();
        assert(nothing + text::split(allowed, ',') =~= text::split(allowed, ','));
    }
}

/// Whether there is a private key, and a DNS entry, after rewriting.
proof fn lemma_rewritten_presence(es: Seq<EntryView>, allowed: Seq<char>, keep_dns: bool)
    ensures
        ({
            let (out, _) = rewriting_entries(es, allowed, keep_dns);
            let interface = Section::Interface;
            &&& config::has_filled_entry(out, interface, "privatekey"@)
                == config::has_filled_entry(es, interface, "privatekey"@)
            &&& config::has_entry(out, interface, "dns"@) == (keep_dns && config::has_entry(
                es,
                interface,
                "dns"@,
            ))
        }),
    decreases es.len(),
{
    lemma_keys();
    if es.len() > 0 {
        let before = es.drop_last();
        let e = es.last();
        lemma_rewritten_presence(before, allowed, keep_dns);
        let (done, _) = rewriting_entries(before, allowed, keep_dns);
        let new = EntryView { section: Section::FirstPeer, key: "AllowedIPs"@, value: allowed };
        assert(before.push(e) =~= es);
        lemma_presence_of_pushed(before, e);
        lemma_presence_of_pushed(done, e);
        lemma_presence_of_pushed(done, new);
    }
}

/// One more entry.
proof fn lemma_presence_of_pushed(es: Seq<EntryView>, e: EntryView)
    ensures
        ({
            let interface = Section::Interface;
            &&& config::has_filled_entry(es.push(e), interface, "privatekey"@) == (
            config::has_filled_entry(es, interface, "privatekey"@) || (config::is_entry(
                e,
                interface,
                "privatekey"@,
            ) && e.value.len() > 0))
            &&& config::has_entry(es.push(e), interface, "dns"@) == (config::has_entry(
                es,
                interface,
                "dns"@,
            ) || config::is_entry(e, interface, "dns"@))
        }),
{
    let all = es.push(e);
    let interface = Section::Interface;
    assert(all[es.len() as int] == e);
    if config::has_filled_entry(es, interface, "privatekey"@) {
        let i = choose|i: int|
            0 <= i < es.len() && config::is_entry(#[trigger] es[i], interface, "privatekey"@)
                && es[i].value.len() > 0;
        assert(all[i] == es[i]);
    }
    if config::has_filled_entry(all, interface, "privatekey"@) {
        let i = choose|i: int|
            0 <= i < all.len() && config::is_entry(#[trigger] all[i], interface, "privatekey"@)
                && all[i].value.len() > 0;
        if i < es.len() {
            assert(all[i] == es[i]);
        }
    }
    if config::has_entry(es, interface, "dns"@) {
        let i = choose|i: int|
            0 <= i < es.len() && config::is_entry(#[trigger] es[i], interface, "dns"@);
        assert(all[i] == es[i]);
    }
    if config::has_entry(all, interface, "dns"@) {
        let i = choose|i: int|
            0 <= i < all.len() && config::is_entry(#[trigger] all[i], interface, "dns"@);
        if i < es.len() {
            assert(all[i] == es[i]);
        }
    }
}

/// A sibling is the config it comes from but for what is to be different: it
/// routes `allowed`, holds no shell hooks, sets DNS exactly where it is kept, and
/// keeps the keys and the endpoint.
pub proof fn law_split_sibling(conf: Seq<char>, allowed: Seq<char>, keep_dns: bool)
    requires
        plain(allowed),
    ensures
        rewritten(conf, allowed, keep_dns) matches Some(sibling) ==> {
            let old_one = config::summary(conf);
            let new_one = config::summary(sibling);
            &&& new_one.exec_hooks.len() == 0
            &&& new_one.has_private_key == old_one.has_private_key
            &&& new_one.peer_public_key == old_one.peer_public_key
            &&& new_one.endpoint == old_one.endpoint
            &&& new_one.allowed_ips == config::trimmed(text::split(allowed, ','))
            &&& new_one.has_dns == (keep_dns && old_one.has_dns)
            &&& keep_dns ==> new_one.dns_servers == old_one.dns_servers
            &&& !keep_dns ==> new_one.dns_servers.len() == 0
        },
{
    let lines = text::lines(conf);
    let es = config::entries(lines);
    let (out, replaced) = rewriting(lines, allowed, keep_dns);
    lemma_lines_unbroken(conf);
    lemma_rewriting(lines, allowed, keep_dns);
    if replaced {
        lemma_lines_of_joined(out);
        lemma_rewritten_entries(es, allowed, keep_dns);
        lemma_rewritten_presence(es, allowed, keep_dns);
        let nothing = Seq::<Seq<char>>::empty();
        assert(config::trimmed(nothing) =~= nothing);
        assert(config::nonempty(nothing) == nothing);
    }
}

// ---------------------------------------------------------------------------
// What a sibling routes
// ---------------------------------------------------------------------------

/// The pieces of texts that were joined with commas and blanks are the texts.
proof fn lemma_pieces_of_joined(parts: Seq<Seq<char>>)
    requires
        parts.len() > 0,
        forall|i: int|
            0 <= i < parts.len() ==> !(#[trigger] parts[i]).contains(',') && text::trim(parts[i])
                == parts[i],
    ensures
        config::trimmed(text::split(text::join(parts, ", "@), ',')) == parts,
    decreases parts.len(),
{
    reveal_strlit(", ");
    let last = parts.last();
    assert(!parts[parts.len() - 1].contains(',') && text::trim(parts[parts.len() - 1])
        == parts[parts.len() - 1]);
    if parts.len() == 1 {
        text::lemma_split_single(last, ',');
        assert(config::trimmed(seq![last]) =~= parts);
    } else {
        let before = parts.drop_last();
        assert forall|i: int| 0 <= i < before.len() implies !(#[trigger] before[i]).contains(',')
            && text::trim(before[i]) == before[i] by {
            assert(before[i] == parts[i]);
        }
        lemma_pieces_of_joined(before);
        let joined = text::join(before, ", "@);
        let tail = seq![' '] + last;
        assert(text::join(parts, ", "@) =~= joined + seq![','] + tail);
        text::lemma_split_at(joined, ',', tail);
        if tail.contains(',') {
            let k = choose|k: int| 0 <= k < tail.len() && tail[k] == ',';
            assert(last[k - 1] == ',');
        }
        text::lemma_split_single(tail, ',');
        lemma_trim_blank(last);
        let pieces = text::split(joined, ',');
        assert(config::trimmed(pieces + seq![tail]) =~= config::trimmed(pieces).push(
            text::trim(tail),
        ));
        assert(before.push(last) =~= parts);
    }
}

/// The text of the block of all IPv6 addresses, and what it is to IPv4.
proof fn lemma_all_of_ipv6()
    ensures
        "::/0"@.len() == 4,
        !"::/0"@.contains(','),
        !"::/0"@.contains('#'),
        !"::/0"@.contains('\n'),
        text::trim("::/0"@) == "::/0"@,
        !text::is_space("::/0"@.last()),
        cidr::block("::/0"@) is Err,
{
    reveal_strlit("::/0");
    let s = "::/0"@;
    let addr = seq![':', ':'];
    let prefix = seq!['0'];
    text::lemma_trim_fixed(s);
    assert(s =~= addr + seq!['/'] + prefix);
    assert(!addr.contains('/'));
    text::lemma_find_after(addr, '/', prefix);
    assert(s.take(2) =~= addr);
    assert(s.skip(3) =~= prefix);
    text::lemma_trim_fixed(addr);
    text::lemma_trim_fixed(prefix);
    assert(!addr.contains('.'));
    text::lemma_split_single(addr, '.');
    assert(cidr::address(addr) is Err);
}

/// No text is no block.
proof fn lemma_nothing_is_no_block()
    ensures
        cidr::block(Seq::<char>::empty()) is Err,
        text::trim(Seq::<char>::empty()) == Seq::<char>::empty(),
{
    let s = Seq::<char>::empty();
    text::lemma_find(s, '/');
    text::lemma_trim_fixed(s);
    text::lemma_split_single(s, '.');
}

/// The entries of a sibling.
pub open spec fn routes(nets: Seq<Cidr4>) -> Seq<Seq<char>> {
    if nets.len() == 0 {
        seq![Seq::empty(), "::/0"@]
    } else {
        block_texts(nets).push("::/0"@)
    }
}

/// What the `AllowedIPs` value of a sibling reads as.
proof fn lemma_allowed_line(nets: Seq<Cidr4>)
    ensures
        plain(allowed_line(nets)),
        config::trimmed(text::split(allowed_line(nets), ',')) == routes(nets),
{
    reveal_strlit(", ");
    reveal_strlit(", ::/0");
    lemma_all_of_ipv6();
    reveal_strlit("::/0");
    let line = allowed_line(nets);
    let texts = block_texts(nets);
    assert forall|i: int| 0 <= i < texts.len() implies clean(#[trigger] texts[i]) by {
        lemma_block_clean(nets[i]);
    }
    if nets.len() == 0 {
        lemma_nothing_is_no_block();
        let nothing = Seq::<char>::empty();
        assert(text::join(texts, ", "@) =~= nothing);
        let tail = seq![' '] + "::/0"@;
        assert(line =~= nothing + seq![','] + tail);
        text::lemma_split_at(nothing, ',', tail);
        text::lemma_split_single(nothing, ',');
        assert(!tail.contains(','));
        text::lemma_split_single(tail, ',');
        lemma_trim_blank("::/0"@);
        assert(config::trimmed(seq![nothing] + seq![tail]) =~= routes(nets));
    } else {
        let parts = texts.push("::/0"@);
        assert(parts.drop_last() =~= texts);
        assert(line =~= text::join(parts, ", "@));
        assert forall|i: int| 0 <= i < parts.len() implies !(#[trigger] parts[i]).contains(',')
            && text::trim(parts[i]) == parts[i] by {
            if i < texts.len() {
                assert(clean(texts[i]));
                text::lemma_trim_fixed(texts[i]);
            }
        }
        lemma_pieces_of_joined(parts);
        lemma_joined_clean(texts);
        assert(line.last() == "::/0"@.last());
        if line.contains('#') {
            let k = choose|k: int| 0 <= k < line.len() && line[k] == '#';
            assert(text::join(texts, ", "@)[k] == '#');
        }
        if line.contains('\n') {
            let k = choose|k: int| 0 <= k < line.len() && line[k] == '\n';
            assert(text::join(texts, ", "@)[k] == '\n');
        }
    }
}

/// Whether a text is like that of a block: no comma, comment or line break in
/// it, and no blank at either end.
spec fn clean(s: Seq<char>) -> bool {
    &&& plain(s)
    &&& !s.contains(',')
}

/// The text of a block.
proof fn lemma_block_clean(c: Cidr4)
    ensures
        clean(cidr::block_text(c)),
{
    let s = cidr::block_text(c);
    cidr::lemma_block_chars(c);
    assert forall|i: int| 0 <= i < s.len() implies s[i] != ',' && s[i] != '#' && s[i] != '\n' by {
        assert(text::is_digit(s[i]) || s[i] == '.' || s[i] == '/');
    }
}

/// Joined texts without comments and line breaks.
proof fn lemma_joined_clean(texts: Seq<Seq<char>>)
    requires
        texts.len() > 0,
        forall|i: int| 0 <= i < texts.len() ==> clean(#[trigger] texts[i]),
    ensures
        text::join(texts, ", "@).len() > 0,
        !text::is_space(text::join(texts, ", "@)[0]),
        !text::join(texts, ", "@).contains('#'),
        !text::join(texts, ", "@).contains('\n'),
    decreases texts.len(),
{
    reveal_strlit(", ");
    let s = text::join(texts, ", "@);
    let last = texts.last();
    assert(clean(texts[texts.len() - 1]));
    if texts.len() == 1 {
        assert(clean(texts[0]));
    } else {
        let before = texts.drop_last();
        assert forall|i: int| 0 <= i < before.len() implies clean(#[trigger] before[i]) by {
            assert(before[i] == texts[i]);
        }
        lemma_joined_clean(before);
        let head = text::join(before, ", "@);
        assert(s[0] == head[0]);
        if s.contains('#') {
            let k = choose|k: int| 0 <= k < s.len() && s[k] == '#';
            if k < head.len() {
                assert(head[k] == '#');
            } else if k >= head.len() + 2 {
                assert(last[k - head.len() - 2] == '#');
            }
        }
        if s.contains('\n') {
            let k = choose|k: int| 0 <= k < s.len() && s[k] == '\n';
            if k < head.len() {
                assert(head[k] == '\n');
            } else if k >= head.len() + 2 {
                assert(last[k - head.len() - 2] == '\n');
            }
        }
    }
}

/// The blocks among the texts of blocks are the blocks.
proof fn lemma_blocks_of_texts(nets: Seq<Cidr4>)
    requires
        cidr::all_wf(nets),
    ensures
        lint::blocks(block_texts(nets)) == nets,
    decreases nets.len(),
{
    if nets.len() > 0 {
        let before = nets.drop_last();
        assert forall|i: int| 0 <= i < before.len() implies (#[trigger] before[i]).wf() by {
            assert(before[i] == nets[i]);
        }
        lemma_blocks_of_texts(before);
        assert(nets[nets.len() - 1].wf());
        cidr::law_parse_of_display(nets.last());
        assert(block_texts(nets).drop_last() =~= block_texts(before));
        assert(before.push(nets.last()) =~= nets);
    } else {
        assert(nets =~= Seq::<Cidr4>::empty());
    }
}

/// The IPv4 blocks of a sibling are the blocks it was made of.
proof fn lemma_blocks_of_routes(nets: Seq<Cidr4>)
    requires
        cidr::all_wf(nets),
    ensures
        lint::blocks(routes(nets)) == nets,
{
    lemma_all_of_ipv6();
    lemma_blocks_of_texts(nets);
    if nets.len() == 0 {
        lemma_nothing_is_no_block();
        let nothing = Seq::<char>::empty();
        let both = routes(nets);
        assert(both.drop_last() =~= seq![nothing]);
        assert(seq![nothing].drop_last() =~= Seq::<Seq<char>>::empty());
        assert(lint::blocks(seq![nothing]) == lint::blocks(Seq::<Seq<char>>::empty()));
        assert(nets =~= Seq::<Cidr4>::empty());
    } else {
        assert(block_texts(nets).push("::/0"@).drop_last() =~= block_texts(nets));
    }
}

/// What is kept out of a tunnel is made of blocks, the endpoint among them.
proof fn lemma_holes(endpoint_ip: u32, excludes: Seq<Seq<char>>)
    ensures
        holes(endpoint_ip, excludes) matches Ok(kept_out) ==> kept_out.len() > 0 && kept_out[0]
            == (Cidr4 { base: endpoint_ip, prefix: 32 }) && cidr::all_wf(kept_out),
    decreases excludes.len(),
{
    if excludes.len() == 0 {
        cidr::lemma_block_size(32);
    } else {
        lemma_holes(endpoint_ip, excludes.drop_last());
        match cidr::block(excludes.last()) {
            Ok(c) => {
                lemma_block_wf(excludes.last());
            },
            Err(_) => {},
        }
    }
}

/// A block that was read is well formed.
proof fn lemma_block_wf(s: Seq<char>)
    ensures
        cidr::block(s) matches Ok(c) ==> c.wf(),
{
    match cidr::block(s) {
        Ok(c) => {
            match text::split_once(s, '/') {
                Some((addr, _)) => {
                    let ip = cidr::address(text::trim(addr))->Ok_0;
                    cidr::lemma_network(ip, c.prefix);
                },
                None => {
                    let ip = cidr::address(text::trim(s))->Ok_0;
                    cidr::lemma_network(ip, 32);
                },
            }
        },
        Err(_) => {},
    }
}

/// A sibling routes exactly what is not to be kept out, and never its own
/// endpoint: whatever is excluded, there is no routing loop. It lints without
/// errors wherever the config it comes from has its keys.
pub proof fn law_split_never_loops(
    conf: Seq<char>,
    name: Seq<char>,
    excludes: Seq<Seq<char>>,
    keep_dns: bool,
)
    ensures
        split_holes(config::summary(conf).endpoint, excludes) matches Ok(kept_out) ==> (rewritten(
            conf,
            allowed_line(routed(kept_out)),
            keep_dns,
        ) matches Some(sibling) ==> {
            let summary = config::summary(sibling);
            &&& forall|ip: int|
                0 <= ip < 0x1_0000_0000 ==> (#[trigger] cidr::any_holds(
                    lint::blocks(summary.allowed_ips),
                    ip,
                ) <==> !cidr::any_holds(kept_out, ip))
            &&& summary.endpoint is Some
            &&& lint::looping_block(summary.endpoint->0, summary.allowed_ips) is None
            &&& lint::linted(name, summary).ok == (summary.has_private_key
                && summary.peer_public_key is Some)
        }),
{
    match split_holes(config::summary(conf).endpoint, excludes) {
        Ok(kept_out) => {
            let endpoint = config::summary(conf).endpoint->0;
            let ip = cidr::address(lint::endpoint_host(endpoint))->Ok_0;
            lemma_holes(ip, excludes);
            cidr::law_complement_exists(kept_out);
            let nets = routed(kept_out);
            assert(cidr::complement(nets, kept_out));
            lemma_allowed_line(nets);
            law_split_sibling(conf, allowed_line(nets), keep_dns);
            lemma_blocks_of_routes(nets);
            match rewritten(conf, allowed_line(nets), keep_dns) {
                Some(sibling) => {
                    let summary = config::summary(sibling);
                    let own = Cidr4 { base: ip, prefix: 32 };
                    cidr::lemma_block_size(32);
                    cidr::lemma_holds(own, ip as int);
                    assert(kept_out[0].holds(ip as int));
                    assert(cidr::any_holds(kept_out, ip as int));
                    assert(!cidr::any_holds(nets, ip as int));
                    lemma_none_first(nets, ip as int);
                    lint::law_lint_ok(name, summary);
                },
                None => {},
            }
        },
        Err(_) => {},
    }
}

/// Where no block holds an address, none is the first to hold it.
proof fn lemma_none_first(nets: Seq<Cidr4>, ip: int)
    requires
        !cidr::any_holds(nets, ip),
    ensures
        lint::first_holding(nets, ip) is None,
    decreases nets.len(),
{
    if nets.len() > 0 {
        let before = nets.drop_last();
        if cidr::any_holds(before, ip) {
            let i = choose|i: int| 0 <= i < before.len() && (#[trigger] before[i]).holds(ip);
            assert(nets[i].holds(ip));
        }
        lemma_none_first(before, ip);
        assert(!nets[nets.len() - 1].holds(ip));
    }
}

// ---------------------------------------------------------------------------
// What is kept out
// ---------------------------------------------------------------------------

/// Whether a list of excluded blocks has one that is none, the first at that place.
pub open spec fn first_refused(excludes: Seq<Seq<char>>, i: int) -> bool {
    &&& 0 <= i < excludes.len()
    &&& cidr::block(excludes[i]) is Err
    &&& forall|j: int| 0 <= j < i ==> cidr::block(#[trigger] excludes[j]) is Ok
}

/// Kept out of a tunnel are its endpoint and every excluded block, however many there
/// are; and where a text is no block, the first such text is named.
pub proof fn law_holes(endpoint_ip: u32, excludes: Seq<Seq<char>>)
    ensures
        match holes(endpoint_ip, excludes) {
            Ok(kept_out) => {
                &&& kept_out.len() == excludes.len() + 1
                &&& kept_out[0].base == endpoint_ip && kept_out[0].prefix == 32
                &&& forall|i: int|
                    0 <= i < excludes.len() ==> cidr::block(#[trigger] excludes[i]) == Ok::<
                        Cidr4,
                        Seq<char>,
                    >(kept_out[i + 1])
            },
            Err(e) => exists|i: int| #[trigger]
                first_refused(excludes, i) && e == ErrorView::Refused(
                    "--exclude "@ + excludes[i] + ": "@ + cidr::block(excludes[i])->Err_0
                        + " (IPv4 CIDRs only)"@,
                ),
        },
    decreases excludes.len(),
{
    if excludes.len() > 0 {
        let t = excludes.drop_last();
        let n = t.len() as int;
        law_holes(endpoint_ip, t);
        assert(excludes[n] == excludes.last());
        match holes(endpoint_ip, t) {
            Ok(before) => {
                assert forall|j: int| 0 <= j < n implies cidr::block(#[trigger] excludes[j]) == Ok::<
                    Cidr4,
                    Seq<char>,
                >(before[j + 1]) by {
                    assert(t[j] == excludes[j]);
                }
                if cidr::block(excludes.last()) is Err {
                    assert(first_refused(excludes, n));
                }
            },
            Err(e) => {
                let i = choose|i: int| #[trigger]
                    first_refused(t, i) && e == ErrorView::Refused(
                        "--exclude "@ + t[i] + ": "@ + cidr::block(t[i])->Err_0
                            + " (IPv4 CIDRs only)"@,
                    );
                assert(t[i] == excludes[i]);
                assert forall|j: int| 0 <= j < i implies cidr::block(
                    #[trigger] excludes[j],
                ) is Ok by {
                    assert(t[j] == excludes[j]);
                }
                assert(first_refused(excludes, i));
            },
        }
    }
}

/// A config without an endpoint, and one whose endpoint is no address, has no split
/// tunnel; otherwise the address of its endpoint is kept out with the excluded blocks.
pub proof fn law_split_holes(endpoint: Seq<char>, excludes: Seq<Seq<char>>)
    ensures
        split_holes(None, excludes) == Err::<Seq<Cidr4>, ErrorView>(
            ErrorView::Refused("config has no Endpoint — cannot compute a safe split tunnel"@),
        ),
        match cidr::address(lint::endpoint_host(endpoint)) {
            Ok(ip) => {
                &&& split_holes(Some(endpoint), excludes) is Ok <==> forall|i: int|
                    0 <= i < excludes.len() ==> cidr::block(#[trigger] excludes[i]) is Ok
                &&& split_holes(Some(endpoint), excludes) matches Ok(kept_out) ==> kept_out.len()
                    == excludes.len() + 1 && kept_out[0].base == ip && kept_out[0].prefix == 32
            },
            Err(_) => split_holes(Some(endpoint), excludes) == Err::<Seq<Cidr4>, ErrorView>(
                ErrorView::Refused(
                    "Endpoint '"@ + endpoint
                        + "' is not an IPv4 address — split requires an IPv4 endpoint"@,
                ),
            ),
        },
{
    if let Ok(ip) = cidr::address(lint::endpoint_host(endpoint)) {
        law_holes(ip, excludes);
    }
}

/// A sibling routes no address of any excluded block, nor the address of its endpoint;
/// and it routes every other address.
pub proof fn law_split_keeps_out(
    conf: Seq<char>,
    name: Seq<char>,
    excludes: Seq<Seq<char>>,
    keep_dns: bool,
    ip: int,
)
    requires
        0 <= ip < 0x1_0000_0000,
    ensures
        split_holes(config::summary(conf).endpoint, excludes) matches Ok(kept_out) ==> (rewritten(
            conf,
            allowed_line(routed(kept_out)),
            keep_dns,
        ) matches Some(sibling) ==> {
            let routing = cidr::any_holds(lint::blocks(config::summary(sibling).allowed_ips), ip);
            let own = cidr::address(lint::endpoint_host(config::summary(conf).endpoint->0));
            &&& routing ==> own != Ok::<u32, Seq<char>>(ip as u32)
            &&& routing ==> forall|i: int|
                0 <= i < excludes.len() ==> !(cidr::block(#[trigger] excludes[i])->Ok_0).holds(ip)
            &&& !routing ==> own == Ok::<u32, Seq<char>>(ip as u32) || exists|i: int|
                0 <= i < excludes.len() && (cidr::block(#[trigger] excludes[i])->Ok_0).holds(ip)
        }),
{
    law_split_never_loops(conf, name, excludes, keep_dns);
    if let Ok(kept_out) = split_holes(config::summary(conf).endpoint, excludes) {
        let endpoint = config::summary(conf).endpoint->0;
        let address = cidr::address(lint::endpoint_host(endpoint))->Ok_0;
        law_holes(address, excludes);
        cidr::lemma_block_size(32);
        cidr::lemma_holds(kept_out[0], ip);
        if let Some(sibling) = rewritten(conf, allowed_line(routed(kept_out)), keep_dns) {
            let routing = cidr::any_holds(lint::blocks(config::summary(sibling).allowed_ips), ip);
            assert(routing <==> !cidr::any_holds(kept_out, ip));
            if routing {
                assert(!kept_out[0].holds(ip));
                assert forall|i: int| 0 <= i < excludes.len() implies !(cidr::block(
                    #[trigger] excludes[i],
                )->Ok_0).holds(ip) by {
                    assert(!kept_out[i + 1].holds(ip));
                }
            } else {
                let k = choose|k: int| 0 <= k < kept_out.len() && (#[trigger] kept_out[k]).holds(ip);
                if k > 0 {
                    assert(cidr::block(excludes[k - 1]) == Ok::<Cidr4, Seq<char>>(kept_out[k]));
                }
            }
        }
    }
}

// ---------------------------------------------------------------------------
// The lines of a sibling
// ---------------------------------------------------------------------------

/// Whether the `i`th line gives the allowed IPs of the first peer.
pub open spec fn gives_routes(lines: Seq<Seq<char>>, i: int) -> bool {
    config::key_value(lines[i]) matches Some((key, _)) && config::named(key, "allowedips"@)
        && config::section_after(lines.take(i)).0 == Section::FirstPeer
}

/// What becomes of the `i`th line: shell hooks go, DNS lines go unless they are kept,
/// the first line with the allowed IPs of the first peer is replaced and the others of
/// its kind go, and every other line stays as it is.
pub open spec fn sibling_line(
    lines: Seq<Seq<char>>,
    allowed: Seq<char>,
    keep_dns: bool,
    i: int,
) -> Option<Seq<char>> {
    match config::key_value(lines[i]) {
        None => Some(lines[i]),
        Some((key, _)) => if config::hook_name(key) is Some || (config::named(key, "dns"@)
            && !keep_dns) {
            None
        } else if !gives_routes(lines, i) {
            Some(lines[i])
        } else if forall|j: int| 0 <= j < i ==> !#[trigger] gives_routes(lines, j) {
            Some("AllowedIPs = "@ + allowed)
        } else {
            None
        },
    }
}

/// A sibling has the lines of the config, each as [`sibling_line`] says, and there is
/// one exactly where the first peer has allowed IPs.
pub proof fn law_sibling_lines(conf: Seq<char>, allowed: Seq<char>, keep_dns: bool)
    ensures
        ({
            let lines = text::lines(conf);
            match rewritten(conf, allowed, keep_dns) {
                Some(sibling) => {
                    &&& sibling == text::join(
                        Seq::new(lines.len(), |i: int| i).filter_map(
                            |i: int| sibling_line(lines, allowed, keep_dns, i),
                        ),
                        "\n"@,
                    ) + "\n"@
                    &&& exists|i: int| 0 <= i < lines.len() && #[trigger] gives_routes(lines, i)
                },
                None => forall|i: int| 0 <= i < lines.len() ==> !#[trigger] gives_routes(lines, i),
            }
        }),
{
    let lines = text::lines(conf);
    lemma_sibling_lines(lines, allowed, keep_dns, lines.len() as int);
    assert(lines.take(lines.len() as int) =~= lines);
}

/// A key is not two names at once.
proof fn lemma_names_apart(key: Seq<char>)
    requires
        config::named(key, "allowedips"@),
    ensures
        config::hook_name(key) is None,
        !config::named(key, "dns"@),
{
    reveal_strlit("allowedips");
    reveal_strlit("dns");
    reveal_strlit("PreUp");
    reveal_strlit("PostUp");
    reveal_strlit("PreDown");
    reveal_strlit("PostDown");
    assert(text::lower("allowedips"@).len() == 10);
    assert(text::lower("dns"@).len() == 3);
    assert(text::lower("PreUp"@).len() == 5);
    assert(text::lower("PostUp"@).len() == 6);
    assert(text::lower("PreDown"@).len() == 7);
    assert(text::lower("PostDown"@).len() == 8);
}

proof fn lemma_sibling_lines(lines: Seq<Seq<char>>, allowed: Seq<char>, keep_dns: bool, n: int)
    requires
        0 <= n <= lines.len(),
    ensures
        rewriting(lines.take(n), allowed, keep_dns).0 == Seq::new(n as nat, |i: int| i).filter_map(
            |i: int| sibling_line(lines, allowed, keep_dns, i),
        ),
        rewriting(lines.take(n), allowed, keep_dns).1 <==> exists|i: int|
            0 <= i < n && #[trigger] gives_routes(lines, i),
    decreases n,
{
    let all = Seq::new(n as nat, |i: int| i);
    if n > 0 {
        lemma_sibling_lines(lines, allowed, keep_dns, n - 1);
        assert(lines.take(n).drop_last() =~= lines.take(n - 1));
        assert(all.drop_last() =~= Seq::new((n - 1) as nat, |i: int| i));
        assert(all.last() == n - 1);
        assert(lines.take(n).last() == lines[n - 1]);
        if gives_routes(lines, n - 1) {
            let (key, _) = config::key_value(lines[n - 1])->0;
            lemma_names_apart(key);
        }
    }
    assert(rewriting(lines.take(n), allowed, keep_dns).0 =~= all.filter_map(
        |i: int| sibling_line(lines, allowed, keep_dns, i),
    ));
}

} // verus!
