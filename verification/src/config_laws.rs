//! What is read of configs and of the settings file, and which files are tunnels.
use vstd::prelude::*;

use crate::config::{
    conf_path, entries, file_name, first_value, has_entry, has_filled_entry, hook_name, hooks,
    identity, is_entry, key_value, named, nonempty, opens_section, path_in, section_after,
    statement, stem_and_extension, summary, tunnel_at, tunnels_in, valid_name, value_pieces,
    EntryView, Section, Tunnel, TunnelView,
};
use crate::order;
use crate::settings::{settings_of, settings_step, unquoted, FileConfigView};
use crate::status;
use crate::text;
use crate::text_laws;

verus! {

// ---------------------------------------------------------------------------
// Names and paths
// ---------------------------------------------------------------------------

/// A legal name has one to fifteen characters, each a letter, a digit or one of
/// `_=+.-`.
pub proof fn law_valid_name(name: Seq<char>)
    ensures
        valid_name(name) <==> {
            &&& 1 <= name.len() <= 15
            &&& forall|i: int|
                0 <= i < name.len() ==> ({
                    let c = #[trigger] name[i];
                    ('a' <= c && c <= 'z') || ('A' <= c && c <= 'Z') || ('0' <= c && c <= '9') || c
                        == '_' || c == '=' || c == '+' || c == '.' || c == '-'
                })
        },
{
}

/// A file stands in a directory behind one slash; an absolute file stands for itself.
pub proof fn law_path_in(dir: Seq<char>, file: Seq<char>)
    ensures
        dir.len() == 0 ==> path_in(dir, file) == file,
        file.len() > 0 && file[0] == '/' ==> path_in(dir, file) == file,
        dir.len() > 0 && !(file.len() > 0 && file[0] == '/') ==> path_in(dir, file) == dir + (
        if dir.last() == '/' {
            Seq::<char>::empty()
        } else {
            seq!['/']
        }) + file,
{
    reveal_strlit("/");
    assert("/"@ =~= seq!['/']);
    if dir.len() > 0 && dir.last() == '/' {
        assert(dir + Seq::<char>::empty() + file =~= dir + file);
    }
}

/// The file name of a path is what stands behind the last slash, where that names
/// something; a slash or a `/.` at the end is passed over.
pub proof fn law_file_name(dir: Seq<char>, file: Seq<char>)
    requires
        !file.contains('/'),
        file.len() > 0,
        file != "."@,
        file != ".."@,
    ensures
        file_name(file) == Some(file),
        file_name(dir + seq!['/'] + file) == Some(file),
        file_name(dir + seq!['/'] + file + seq!['/']) == Some(file),
{
    let s = dir + seq!['/'] + file;
    text::lemma_split_single(file, '/');
    text::lemma_split_at(dir, '/', file);
    let none = Seq::<char>::empty();
    text::lemma_split_single(none, '/');
    text::lemma_split_at(s, '/', none);
    assert(s + seq!['/'] + none =~= s + seq!['/']);
    let p = text::split(s, '/');
    assert(p.last() == file);
    let q = text::split(s + seq!['/'], '/');
    assert(q == p + seq![none]);
    assert(q.last() == none);
    assert(q.drop_last() =~= p);
}

/// A slash and a `/.` at the end of a path make no difference; `..` names nothing, and
/// neither does `.` or no name at all.
pub proof fn law_no_file_name(path: Seq<char>)
    ensures
        file_name(path + seq!['/']) == file_name(path),
        file_name(path + seq!['/'] + "."@) == file_name(path),
        file_name(path + seq!['/'] + ".."@) is None,
        file_name(".."@) is None,
        file_name("."@) is None,
        file_name(Seq::empty()) is None,
{
    reveal_strlit(".");
    reveal_strlit("..");
    let none = Seq::<char>::empty();
    text::lemma_split_at(path, '/', none);
    text::lemma_split_at(path, '/', "."@);
    text::lemma_split_at(path, '/', ".."@);
    text::lemma_split_single(none, '/');
    text::lemma_split_single("."@, '/');
    text::lemma_split_single(".."@, '/');
    assert(path + seq!['/'] + none =~= path + seq!['/']);
    let p = text::split(path, '/');
    assert((p + seq![none]).drop_last() =~= p);
    assert((p + seq!["."@]).drop_last() =~= p);
    assert((p + seq![".."@]).last() == ".."@);
    assert(seq![none].drop_last() =~= Seq::<Seq<char>>::empty());
    assert(seq!["."@].drop_last() =~= Seq::<Seq<char>>::empty());
    reveal_with_fuel(crate::config::last_component, 3);
}

/// A file name is cut at its last dot, unless that is how it begins.
pub proof fn law_stem_and_extension(stem: Seq<char>, extension: Seq<char>)
    requires
        !extension.contains('.'),
    ensures
        stem_and_extension(extension) == (extension, None::<Seq<char>>),
        stem.len() > 0 ==> stem_and_extension(stem + seq!['.'] + extension) == (
            stem,
            Some(extension),
        ),
        stem.len() == 0 ==> stem_and_extension(stem + seq!['.'] + extension) == (
            stem + seq!['.'] + extension,
            None::<Seq<char>>,
        ),
{
    text_laws::law_rsplit_once(stem, '.', extension);
}

/// A file is a tunnel exactly if it is called by a legal name and `.conf` behind it,
/// and the tunnel then has that name and that path.
pub proof fn law_tunnel_at(path: Seq<char>, name: Seq<char>)
    ensures
        tunnel_at(path) matches Some(t) ==> t.path == path && valid_name(t.name) && file_name(path)
            == Some(t.name + ".conf"@),
        valid_name(name) && file_name(path) == Some(name + ".conf"@) ==> tunnel_at(path) == Some(
            TunnelView { name, path },
        ),
{
    reveal_strlit(".conf");
    reveal_strlit("conf");
    assert(".conf"@ =~= seq!['.'] + "conf"@);
    if let Some(t) = tunnel_at(path) {
        let file = file_name(path)->0;
        text::lemma_rfind(file, '.');
        let i = text::rfind(file, '.')->0;
        assert(file =~= file.take(i) + seq!['.'] + file.skip(i + 1));
        assert(t.name + ".conf"@ =~= t.name + seq!['.'] + "conf"@);
    }
    if valid_name(name) && file_name(path) == Some(name + ".conf"@) {
        assert(name + ".conf"@ =~= name + seq!['.'] + "conf"@);
        assert(!"conf"@.contains('.'));
        law_stem_and_extension(name, "conf"@);
    }
}

/// The config of a tunnel is found under its name, and as that tunnel.
pub proof fn law_conf_path(dir: Seq<char>, name: Seq<char>)
    requires
        valid_name(name),
    ensures
        conf_path(dir, name) == path_in(dir, name + ".conf"@),
        tunnel_at(conf_path(dir, name)) == Some(TunnelView { name, path: conf_path(dir, name) }),
{
    reveal_strlit(".conf");
    reveal_strlit(".");
    reveal_strlit("..");
    let file = name + ".conf"@;
    law_path_in(dir, file);
    assert(file[0] == name[0]);
    assert forall|i: int| 0 <= i < file.len() implies file[i] != '/' by {
        if i < name.len() {
            assert(file[i] == name[i]);
        } else {
            assert(file[i] == ".conf"@[i - name.len()]);
        }
    }
    assert(file.len() > 5);
    if dir.len() > 0 {
        if dir.last() == '/' {
            law_file_name(dir.drop_last(), file);
            assert(dir + file =~= dir.drop_last() + seq!['/'] + file);
        } else {
            law_file_name(dir, file);
        }
    } else {
        law_file_name(dir, file);
    }
    law_tunnel_at(conf_path(dir, name), name);
}

/// The tunnels of a directory are those of its files, none left out and none made
/// up, in the order of the files.
pub proof fn law_tunnels_in(dir: Seq<char>, files: Seq<Seq<char>>)
    ensures
        tunnels_in(dir, files) == files.filter_map(|f: Seq<char>| tunnel_at(path_in(dir, f))),
    decreases files.len(),
{
    if files.len() > 0 {
        law_tunnels_in(dir, files.drop_last());
    }
    assert(tunnels_in(dir, files) =~= files.filter_map(
        |f: Seq<char>| tunnel_at(path_in(dir, f)),
    ));
}

/// Tunnels are listed by name.
pub proof fn law_tunnels_by_name(a: TunnelView, b: TunnelView)
    ensures
        <Tunnel as order::Ranked>::ranks_before(a, b) <==> order::text_before(a.name, b.name),
{
}

// ---------------------------------------------------------------------------
// Lines of a config
// ---------------------------------------------------------------------------

/// What stands behind the first number sign is a comment, and white space around the
/// rest does not count.
pub proof fn law_statement(a: Seq<char>, b: Seq<char>)
    requires
        !a.contains('#'),
    ensures
        statement(a) == text::trim(a),
        statement(a + seq!['#'] + b) == text::trim(a),
{
    text_laws::law_split_once(a, '#', b);
}

/// Names are the same whatever the case of their letters.
pub proof fn law_named(a: Seq<char>, b: Seq<char>)
    ensures
        named(a, b) <==> text::lower(a) == text::lower(b),
{
}

/// A line has a key and a value exactly if it does not open a section and has an
/// equals sign: what stands before the first one, and what stands behind it.
pub proof fn law_key_value(raw: Seq<char>, k: Seq<char>, v: Seq<char>)
    requires
        !k.contains('='),
    ensures
        statement(raw).len() > 0 && statement(raw)[0] == '[' ==> key_value(raw) is None,
        statement(raw) == k ==> key_value(raw) is None,
        statement(raw) == k + seq!['='] + v && !(k.len() > 0 && k[0] == '[') ==> key_value(raw)
            == Some((text::trim(k), text::trim(v))),
{
    text_laws::law_split_once(k, '=', v);
    let line = k + seq!['='] + v;
    if k.len() > 0 {
        assert(line[0] == k[0]);
    } else {
        assert(line[0] == '=');
    }
}

/// Whether one of the lines opens a peer section.
pub open spec fn any_peer(lines: Seq<Seq<char>>) -> bool {
    exists|i: int| 0 <= i < lines.len() && named(statement(#[trigger] lines[i]), "[peer]"@)
}

/// A statement that is a section's name opens a section.
proof fn lemma_opens(line: Seq<char>)
    requires
        named(line, "[peer]"@) || named(line, "[interface]"@),
    ensures
        opens_section(line),
{
    reveal_strlit("[peer]");
    reveal_strlit("[interface]");
    assert(text::lower(line).len() == line.len());
    text_laws::law_lower_case("[peer]"@, 0);
    text_laws::law_lower_case("[interface]"@, 0);
    text_laws::law_lower_case(line, 0);
}

/// Behind a line that opens a section stands that section: the interface, the first
/// of the peers, or another; a line that opens none leaves the section as it is.
pub proof fn law_section(lines: Seq<Seq<char>>, raw: Seq<char>)
    ensures
        section_after(Seq::empty()).0 is Other,
        ({
            let now = section_after(lines.push(raw)).0;
            let line = statement(raw);
            if named(line, "[interface]"@) {
                now is Interface
            } else if named(line, "[peer]"@) {
                if any_peer(lines) {
                    now is Other
                } else {
                    now is FirstPeer
                }
            } else if line.len() > 0 && line[0] == '[' {
                now is Other
            } else {
                now == section_after(lines).0
            }
        }),
{
    assert(lines.push(raw).drop_last() =~= lines);
    lemma_seen(lines);
    let line = statement(raw);
    if named(line, "[peer]"@) || named(line, "[interface]"@) {
        lemma_opens(line);
    }
    if named(line, "[peer]"@) && named(line, "[interface]"@) {
        reveal_strlit("[peer]");
        reveal_strlit("[interface]");
        assert(text::lower("[peer]"@).len() == 6);
    }
}

/// Whether a peer section was seen.
proof fn lemma_seen(lines: Seq<Seq<char>>)
    ensures
        section_after(lines).1 == any_peer(lines),
    decreases lines.len(),
{
    if lines.len() > 0 {
        let t = lines.drop_last();
        lemma_seen(t);
        let line = statement(lines.last());
        if named(line, "[peer]"@) {
            lemma_opens(line);
            reveal_strlit("[peer]");
            reveal_strlit("[interface]");
            assert(text::lower("[peer]"@).len() == 6);
            assert(text::lower("[interface]"@).len() == 11);
            assert(named(statement(lines[lines.len() - 1]), "[peer]"@));
        }
        if any_peer(t) {
            let i = choose|i: int|
                0 <= i < t.len() && named(statement(#[trigger] t[i]), "[peer]"@);
            assert(lines[i] == t[i]);
        }
        if any_peer(lines) && !named(line, "[peer]"@) {
            let i = choose|i: int|
                0 <= i < lines.len() && named(statement(#[trigger] lines[i]), "[peer]"@);
            assert(t[i] == lines[i]);
        }
    }
}

/// The entry that the `i`th line makes.
pub open spec fn entry_at(lines: Seq<Seq<char>>, i: int) -> Option<EntryView> {
    match key_value(lines[i]) {
        Some((key, value)) => Some(
            EntryView { section: section_after(lines.take(i)).0, key, value },
        ),
        None => None,
    }
}

/// Every line with a key and a value is an entry of the section that it stands in,
/// none is left out, and there are no others.
pub proof fn law_entries(lines: Seq<Seq<char>>)
    ensures
        entries(lines) == Seq::new(lines.len(), |i: int| i).filter_map(
            |i: int| entry_at(lines, i),
        ),
    decreases lines.len(),
{
    lemma_entries(lines, lines.len() as int);
    assert(lines.take(lines.len() as int) =~= lines);
}

/// The entries of the first lines.
proof fn lemma_entries(lines: Seq<Seq<char>>, n: int)
    requires
        0 <= n <= lines.len(),
    ensures
        entries(lines.take(n)) == Seq::new(n as nat, |i: int| i).filter_map(
            |i: int| entry_at(lines, i),
        ),
    decreases n,
{
    let all = Seq::new(n as nat, |i: int| i);
    if n > 0 {
        lemma_entries(lines, n - 1);
        assert(lines.take(n).drop_last() =~= lines.take(n - 1));
        assert(all.drop_last() =~= Seq::new((n - 1) as nat, |i: int| i));
        assert(all.last() == n - 1);
    }
    assert(entries(lines.take(n)) =~= all.filter_map(|i: int| entry_at(lines, i)));
}

// ---------------------------------------------------------------------------
// Questions to the entries
// ---------------------------------------------------------------------------

/// The first entry of a section with a key gives its value; none does exactly where
/// there is no such entry.
pub proof fn law_first_value(es: Seq<EntryView>, section: Section, key: Seq<char>)
    ensures
        match first_value(es, section, key) {
            Some(v) => exists|i: int|
                {
                    &&& 0 <= i < es.len()
                    &&& (#[trigger] es[i]).section == section && named(es[i].key, key)
                        && es[i].value == v
                    &&& forall|j: int|
                        0 <= j < i ==> !((#[trigger] es[j]).section == section && named(
                            es[j].key,
                            key,
                        ))
                },
            None => forall|j: int|
                0 <= j < es.len() ==> !((#[trigger] es[j]).section == section && named(
                    es[j].key,
                    key,
                )),
        },
    decreases es.len(),
{
    if es.len() > 0 {
        let t = es.drop_last();
        law_first_value(t, section, key);
        match first_value(t, section, key) {
            Some(v) => {
                let i = choose|i: int|
                    {
                        &&& 0 <= i < t.len()
                        &&& (#[trigger] t[i]).section == section && named(t[i].key, key)
                            && t[i].value == v
                        &&& forall|j: int|
                            0 <= j < i ==> !((#[trigger] t[j]).section == section && named(
                                t[j].key,
                                key,
                            ))
                    };
                assert(es[i] == t[i]);
                assert forall|j: int| 0 <= j < i implies !((#[trigger] es[j]).section == section
                    && named(es[j].key, key)) by {
                    assert(es[j] == t[j]);
                }
            },
            None => {
                assert forall|j: int| 0 <= j < t.len() implies !((#[trigger] es[j]).section
                    == section && named(es[j].key, key)) by {
                    assert(es[j] == t[j]);
                }
                assert(es[es.len() - 1] == es.last());
            },
        }
    }
}

/// Whether a section has an entry with a key, and one with a value that is not empty.
pub proof fn law_has_entry(es: Seq<EntryView>, section: Section, key: Seq<char>)
    ensures
        has_entry(es, section, key) <==> exists|i: int|
            0 <= i < es.len() && (#[trigger] es[i]).section == section && named(es[i].key, key),
        has_filled_entry(es, section, key) <==> exists|i: int|
            0 <= i < es.len() && (#[trigger] es[i]).section == section && named(es[i].key, key)
                && es[i].value.len() > 0,
{
    if exists|i: int|
        0 <= i < es.len() && (#[trigger] es[i]).section == section && named(es[i].key, key) {
        let i = choose|i: int|
            0 <= i < es.len() && (#[trigger] es[i]).section == section && named(es[i].key, key);
        assert(is_entry(es[i], section, key));
    }
    if exists|i: int|
        0 <= i < es.len() && (#[trigger] es[i]).section == section && named(es[i].key, key)
            && es[i].value.len() > 0 {
        let i = choose|i: int|
            0 <= i < es.len() && (#[trigger] es[i]).section == section && named(es[i].key, key)
                && es[i].value.len() > 0;
        assert(is_entry(es[i], section, key));
    }
}

/// The values of all entries of a section with a key count, one after the other, each
/// cut at its commas.
pub proof fn law_value_pieces(
    a: Seq<EntryView>,
    e: EntryView,
    b: Seq<EntryView>,
    section: Section,
    key: Seq<char>,
)
    ensures
        value_pieces(a + b, section, key) == value_pieces(a, section, key) + value_pieces(
            b,
            section,
            key,
        ),
        value_pieces(seq![e], section, key) == if e.section == section && named(e.key, key) {
            text::split(e.value, ',')
        } else {
            Seq::<Seq<char>>::empty()
        },
    decreases b.len(),
{
    assert(seq![e].drop_last() =~= Seq::<EntryView>::empty());
    assert(value_pieces(Seq::empty(), section, key) =~= Seq::<Seq<char>>::empty());
    assert(value_pieces(seq![e], section, key) =~= if e.section == section && named(e.key, key) {
        text::split(e.value, ',')
    } else {
        Seq::<Seq<char>>::empty()
    });
    if b.len() == 0 {
        assert(a + b =~= a);
    } else {
        law_value_pieces(a, e, b.drop_last(), section, key);
        assert((a + b).drop_last() =~= a + b.drop_last());
    }
    assert(value_pieces(a + b, section, key) =~= value_pieces(a, section, key) + value_pieces(
        b,
        section,
        key,
    ));
}

/// Of a list, the items that are not empty are kept, in order.
pub proof fn law_nonempty(items: Seq<Seq<char>>)
    ensures
        nonempty(items) == items.filter(|x: Seq<char>| x.len() > 0),
    decreases items.len(),
{
    reveal(Seq::filter);
    if items.len() > 0 {
        law_nonempty(items.drop_last());
    }
    assert(nonempty(items) =~= items.filter(|x: Seq<char>| x.len() > 0));
}

/// A key is a shell hook exactly if it is one of the four, whatever its case.
pub proof fn law_hook_name(key: Seq<char>)
    ensures
        hook_name(key) is Some <==> named(key, "PreUp"@) || named(key, "PostUp"@) || named(
            key,
            "PreDown"@,
        ) || named(key, "PostDown"@),
        hook_name(key) matches Some(name) ==> named(key, name) && (name == "PreUp"@ || name
            == "PostUp"@ || name == "PreDown"@ || name == "PostDown"@),
{
}

/// Every shell hook of a config is found, in whichever section it stands.
pub proof fn law_hooks(es: Seq<EntryView>)
    ensures
        hooks(es) == es.filter_map(|e: EntryView| hook_name(e.key)),
    decreases es.len(),
{
    if es.len() > 0 {
        law_hooks(es.drop_last());
    }
    assert(hooks(es) =~= es.filter_map(|e: EntryView| hook_name(e.key)));
}

/// The pieces of a list of DNS servers, trimmed, without the empty ones.
pub open spec fn listed(pieces: Seq<Seq<char>>) -> Seq<Seq<char>> {
    pieces.map_values(|p: Seq<char>| text::trim(p)).filter(|x: Seq<char>| x.len() > 0)
}

/// What is read of a config: of the interface whether it has a private key, and its
/// DNS servers; of the first peer its public key, its endpoint and its allowed IPs;
/// and the shell hooks, wherever they stand.
pub proof fn law_summary(conf: Seq<char>)
    ensures
        ({
            let es = entries(text::lines(conf));
            let sum = summary(conf);
            let dns = value_pieces(es, Section::Interface, "dns"@);
            let allowed = value_pieces(es, Section::FirstPeer, "allowedips"@);
            &&& sum.has_private_key == has_filled_entry(es, Section::Interface, "privatekey"@)
            &&& sum.peer_public_key == first_value(es, Section::FirstPeer, "publickey"@)
            &&& sum.endpoint == first_value(es, Section::FirstPeer, "endpoint"@)
            &&& sum.allowed_ips == allowed.map_values(|p: Seq<char>| text::trim(p))
            &&& sum.has_dns == has_entry(es, Section::Interface, "dns"@)
            &&& sum.dns_servers == listed(dns)
            &&& sum.exec_hooks == hooks(es)
        }),
{
    let es = entries(text::lines(conf));
    let dns = value_pieces(es, Section::Interface, "dns"@);
    law_nonempty(dns.map_values(|p: Seq<char>| text::trim(p)));
    assert(summary(conf).dns_servers =~= listed(dns));
}

/// What a tunnel is found by: the public key and the allowed IPs of the first peer;
/// there is none exactly where that has no public key.
pub proof fn law_identity(conf: Seq<char>)
    ensures
        ({
            let es = entries(text::lines(conf));
            match identity(conf) {
                Some(id) => first_value(es, Section::FirstPeer, "publickey"@) == Some(id.public_key)
                    && id.allowed_ips == status::normalized(
                    value_pieces(es, Section::FirstPeer, "allowedips"@),
                ),
                None => first_value(es, Section::FirstPeer, "publickey"@) is None,
            }
        }),
{
}

// ---------------------------------------------------------------------------
// Settings
// ---------------------------------------------------------------------------

/// A pair of equal quotes around a value is taken away, once; any other value stays.
pub proof fn law_unquoted(v: Seq<char>, q: char)
    ensures
        q == '"' || q == '\'' ==> unquoted(seq![q] + v + seq![q]) == v,
        v.len() < 2 || v[0] != v.last() || (v[0] != '"' && v[0] != '\'') ==> unquoted(v) == v,
{
    let s = seq![q] + v + seq![q];
    assert(s.subrange(1, s.len() - 1) =~= v);
}

/// Blank lines and comments set nothing.
pub proof fn law_setting_blank(config: FileConfigView, raw: Seq<char>, n: nat)
    requires
        text::trim(raw).len() == 0 || text::trim(raw)[0] == '#',
    ensures
        settings_step(config, raw, n) == Ok::<FileConfigView, Seq<char>>(config),
{
}

/// A line sets the one setting that it names to its value, without quotes, and leaves
/// the others; `sudo` is set by `true` and `false` alone; and a line without an equals
/// sign or with another key is refused, by its number.
pub proof fn law_setting(
    config: FileConfigView,
    raw: Seq<char>,
    k: Seq<char>,
    v: Seq<char>,
    n: nat,
)
    requires
        !k.contains('='),
        text::trim(raw) == k + seq!['='] + v,
        k.len() > 0 ==> k[0] != '#',
    ensures
        ({
            let key = text::trim(k);
            let value = unquoted(text::trim(v));
            let after = settings_step(config, raw, n);
            let place = "line "@ + text::number(n) + ": "@;
            if key == "wg"@ {
                after == Ok::<FileConfigView, Seq<char>>(
                    FileConfigView { wg: Some(value), ..config },
                )
            } else if key == "wg_quick"@ {
                after == Ok::<FileConfigView, Seq<char>>(
                    FileConfigView { wg_quick: Some(value), ..config },
                )
            } else if key == "curl"@ {
                after == Ok::<FileConfigView, Seq<char>>(
                    FileConfigView { curl: Some(value), ..config },
                )
            } else if key == "sudo"@ {
                if value == "true"@ || value == "false"@ {
                    after == Ok::<FileConfigView, Seq<char>>(
                        FileConfigView { sudo: Some(value == "true"@), ..config },
                    )
                } else {
                    after == Err::<FileConfigView, Seq<char>>(
                        place + ("expected `true` or `false`, found '"@ + value + "'"@),
                    )
                }
            } else {
                after == Err::<FileConfigView, Seq<char>>(
                    place + ("unknown key '"@ + key + "'"@),
                )
            }
        }),
{
    reveal_strlit("wg");
    reveal_strlit("wg_quick");
    reveal_strlit("curl");
    reveal_strlit("sudo");
    reveal_strlit("true");
    reveal_strlit("false");
    text_laws::law_split_once(k, '=', v);
    let line = k + seq!['='] + v;
    if k.len() > 0 {
        assert(line[0] == k[0]);
    } else {
        assert(line[0] == '=');
    }
    assert("sudo"@[0] != "wg"@[0] && "sudo"@[0] != "wg_quick"@[0] && "sudo"@[0] != "curl"@[0]);
    assert("true"@.len() != "false"@.len());
}

/// A line without an equals sign is refused.
pub proof fn law_setting_without_value(config: FileConfigView, raw: Seq<char>, n: nat)
    requires
        text::trim(raw).len() > 0,
        text::trim(raw)[0] != '#',
        !text::trim(raw).contains('='),
    ensures
        settings_step(config, raw, n) == Err::<FileConfigView, Seq<char>>(
            "line "@ + text::number(n) + ": "@ + "expected `key = value`"@,
        ),
{
    text_laws::law_split_once(text::trim(raw), '=', Seq::empty());
}

/// A file is read line by line, from nothing set; the first line that is refused
/// decides, and lines count from one.
pub proof fn law_settings(lines: Seq<Seq<char>>, raw: Seq<char>)
    ensures
        settings_of(Seq::empty()) == Ok::<FileConfigView, Seq<char>>(
            FileConfigView { sudo: None, wg: None, wg_quick: None, curl: None },
        ),
        settings_of(lines.push(raw)) == match settings_of(lines) {
            Ok(config) => settings_step(config, raw, (lines.len() + 1) as nat),
            Err(e) => Err(e),
        },
{
    assert(lines.push(raw).drop_last() =~= lines);
}

} // verus!
