//! Validation and reading of WireGuard tunnel config files.
//!
//! A "tunnel" is simply a `<name>.conf` file in the config directory. The stem
//! becomes the tunnel name and, via `wg-quick`, the interface name — so it must
//! satisfy WireGuard's interface-name rules.
use vstd::prelude::*;

use crate::error::{so_far, Error, ErrorView};
use crate::order;
use crate::session::{DirListing, DirListingView, FileText, FileTextView, Session, SessionView, Step};
use crate::status;
use crate::text;

verus! {

/// Maximum length of a tunnel/interface name (Linux `IFNAMSIZ` limit, applied
/// everywhere for portability).
pub const MAX_NAME_LEN: usize = 15;

// ---------------------------------------------------------------------------
// Names and paths
// ---------------------------------------------------------------------------

/// Whether `c` may stand in a tunnel name.
pub open spec fn name_char(c: char) -> bool {
    ||| 'a' <= c && c <= 'z'
    ||| 'A' <= c && c <= 'Z'
    ||| '0' <= c && c <= '9'
    ||| c == '_'
    ||| c == '='
    ||| c == '+'
    ||| c == '.'
    ||| c == '-'
}

/// Whether `name` is a legal WireGuard interface name: one to fifteen letters,
/// digits and `_=+.-`.
pub open spec fn valid_name(name: Seq<char>) -> bool {
    &&& 0 < name.len() <= MAX_NAME_LEN
    &&& forall|i: int| 0 <= i < name.len() ==> name_char(#[trigger] name[i])
}

/// Whether `name` is a legal WireGuard interface name.
pub fn is_valid_name(name: &str) -> (r: bool)
    ensures
        r == valid_name(name@),
{
    let v = text::chars_of(name);
    if v.len() == 0 || v.len() > MAX_NAME_LEN {
        return false;
    }
    let mut i: usize = 0;
    while i < v.len()
        invariant
            v@ == name@,
            i <= v@.len(),
            forall|j: int| 0 <= j < i ==> name_char(#[trigger] v@[j]),
        decreases v@.len() - i,
    {
        let c = v[i];
        let letter = ('a' <= c && c <= 'z') || ('A' <= c && c <= 'Z');
        let other = ('0' <= c && c <= '9') || c == '_' || c == '=' || c == '+' || c == '.' || c
            == '-';
        if !letter && !other {
            proof {
                assert(!name_char(name@[i as int]));
            }
            return false;
        }
        i = i + 1;
    }
    true
}

/// The path of `file` in the directory `dir`; an absolute `file` stands for
/// itself.
pub open spec fn path_in(dir: Seq<char>, file: Seq<char>) -> Seq<char> {
    if dir.len() == 0 || (file.len() > 0 && file[0] == '/') {
        file
    } else if dir.last() == '/' {
        dir + file
    } else {
        dir + "/"@ + file
    }
}

/// The path of `file` in the directory `dir`.
pub fn join_path(dir: &str, file: &str) -> (r: String)
    ensures
        r@ == path_in(dir@, file@),
{
    let v = text::chars_of(dir);
    let n: usize = v.len();
    if n == 0 || text::text_starts_with_char(file, '/') {
        return file.to_owned();
    }
    let mut out = dir.to_owned();
    if v[n - 1] != '/' {
        out.append("/");
    }
    out.append(file);
    out
}

/// The last of the components of a path that names something: empty components
/// and `.` are passed over, and `..` names nothing.
pub open spec fn last_component(pieces: Seq<Seq<char>>) -> Option<Seq<char>>
    decreases pieces.len(),
{
    if pieces.len() == 0 {
        None
    } else if pieces.last().len() == 0 || pieces.last() == "."@ {
        last_component(pieces.drop_last())
    } else if pieces.last() == ".."@ {
        None
    } else {
        Some(pieces.last())
    }
}

/// The file name at the end of a path.
pub open spec fn file_name(path: Seq<char>) -> Option<Seq<char>> {
    last_component(text::split(path, '/'))
}

/// A file name cut at its last dot into stem and extension; a name that only
/// begins with a dot has no extension.
pub open spec fn stem_and_extension(file: Seq<char>) -> (Seq<char>, Option<Seq<char>>) {
    match text::rsplit_once(file, '.') {
        Some((stem, extension)) => if stem.len() == 0 {
            (file, None)
        } else {
            (stem, Some(extension))
        },
        None => (file, None),
    }
}

/// The file name at the end of a path.
pub fn path_file_name(path: &str) -> (r: Option<String>)
    ensures
        r.deep_view() == file_name(path@),
{
    let pieces = text::text_split(path, '/');
    let ghost p = pieces.deep_view();
    let mut n: usize = pieces.len();
    proof {
        assert(p.take(n as int) =~= p);
    }
    while n > 0
        invariant
            p == pieces.deep_view(),
            p == text::split(path@, '/'),
            n <= pieces@.len(),
            last_component(p) == last_component(p.take(n as int)),
        decreases n,
    {
        proof {
            assert(p.take(n as int).drop_last() =~= p.take(n - 1));
            assert(p.take(n as int).last() == pieces@[n - 1]@);
        }
        let piece = &pieces[n - 1];
        if !piece.as_str().is_empty() && !text::same(piece, ".") {
            if text::same(piece, "..") {
                return None;
            }
            return Some(piece.clone());
        }
        n = n - 1;
    }
    None
}

/// Cut a file name into stem and extension.
pub fn split_extension(file: &str) -> (r: (String, Option<String>))
    ensures
        r.deep_view() == stem_and_extension(file@),
{
    match text::text_rsplit_once(file, '.') {
        Some((stem, extension)) => {
            if stem.as_str().is_empty() {
                (file.to_owned(), None)
            } else {
                (stem, Some(extension))
            }
        },
        None => (file.to_owned(), None),
    }
}

/// A discovered tunnel: its name and the config file backing it.
#[derive(Debug, PartialEq, Eq)]
pub struct Tunnel {
    /// Tunnel name (the file stem).
    pub name: String,
    /// Absolute or relative path to the `.conf` file.
    pub path: String,
}

/// A [`Tunnel`] with its texts as sequences of characters.
pub struct TunnelView {
    /// Tunnel name.
    pub name: Seq<char>,
    /// Path to the `.conf` file.
    pub path: Seq<char>,
}

impl DeepView for Tunnel {
    type V = TunnelView;

    open spec fn deep_view(&self) -> TunnelView {
        TunnelView { name: self.name@, path: self.path@ }
    }
}

impl Clone for Tunnel {
    fn clone(&self) -> (r: Self)
        ensures
            r.deep_view() == self.deep_view(),
    {
        Tunnel { name: self.name.clone(), path: self.path.clone() }
    }
}

impl order::Ranked for Tunnel {
    open spec fn ranks_before(a: TunnelView, b: TunnelView) -> bool {
        order::text_before(a.name, b.name)
    }

    fn precedes(&self, other: &Self) -> (r: bool) {
        order::comes_before(&self.name, &other.name)
    }

    proof fn lemma_rank(a: TunnelView, b: TunnelView, c: TunnelView) {
        <String as order::Ranked>::lemma_rank(a.name, b.name, c.name);
    }
}

/// The tunnel that the file at `path` defines: one whose name is a legal tunnel
/// name followed by `.conf`.
pub open spec fn tunnel_at(path: Seq<char>) -> Option<TunnelView> {
    match file_name(path) {
        None => None,
        Some(file) => {
            let (stem, extension) = stem_and_extension(file);
            if extension == Some("conf"@) && valid_name(stem) {
                Some(TunnelView { name: stem, path })
            } else {
                None
            }
        },
    }
}

/// The tunnels that the files of the directory `dir` define, in the order of
/// the files.
pub open spec fn tunnels_in(dir: Seq<char>, files: Seq<Seq<char>>) -> Seq<TunnelView>
    decreases files.len(),
{
    if files.len() == 0 {
        Seq::empty()
    } else {
        let before = tunnels_in(dir, files.drop_last());
        match tunnel_at(path_in(dir, files.last())) {
            Some(tunnel) => before.push(tunnel),
            None => before,
        }
    }
}

/// Interpret a single path as a tunnel, or `None` if it is not a valid
/// `<name>.conf` file (wrong extension or illegal name).
pub fn tunnel_from_path(path: &str) -> (r: Option<Tunnel>)
    ensures
        r.deep_view() == tunnel_at(path@),
{
    match path_file_name(path) {
        None => None,
        Some(file) => {
            let (stem, extension) = split_extension(&file);
            match extension {
                Some(extension) => {
                    if text::same(&extension, "conf") && is_valid_name(&stem) {
                        Some(Tunnel { name: stem, path: path.to_owned() })
                    } else {
                        None
                    }
                },
                None => None,
            }
        },
    }
}

/// Filter the files of a directory to valid tunnels and sort them by name.
pub fn tunnels_from_files(dir: &str, files: &Vec<String>) -> (r: Vec<Tunnel>)
    ensures
        r.deep_view() == order::sorted::<Tunnel>(tunnels_in(dir@, files.deep_view())),
{
    let ghost f = files.deep_view();
    let mut tunnels: Vec<Tunnel> = Vec::new();
    let mut i: usize = 0;
    proof {
        assert(f.take(0) =~= Seq::<Seq<char>>::empty());
        assert(tunnels.deep_view() =~= Seq::<TunnelView>::empty());
    }
    while i < files.len()
        invariant
            f == files.deep_view(),
            i <= files@.len(),
            tunnels.deep_view() == tunnels_in(dir@, f.take(i as int)),
        decreases files@.len() - i,
    {
        let ghost before = tunnels.deep_view();
        proof {
            assert(f.take(i + 1).drop_last() =~= f.take(i as int));
            assert(f.take(i + 1).last() == files@[i as int]@);
        }
        let path = join_path(dir, &files[i]);
        match tunnel_from_path(&path) {
            Some(tunnel) => {
                let ghost v = tunnel.deep_view();
                tunnels.push(tunnel);
                proof {
                    assert(tunnels.deep_view() =~= before.push(v));
                }
            },
            None => {},
        }
        i = i + 1;
    }
    proof {
        assert(f.take(f.len() as int) =~= f);
    }
    order::sort(tunnels)
}

// ---------------------------------------------------------------------------
// The entries of a config
// ---------------------------------------------------------------------------

/// The sections of a config that are told apart.
#[derive(Debug, Clone, Copy, PartialEq, Eq, Structural)]
pub enum Section {
    /// Before any section header, or in a section of no interest.
    Other,
    /// In `[Interface]`.
    Interface,
    /// In the first `[Peer]`.
    FirstPeer,
}

/// One `key = value` line and the section it stands in.
#[derive(Debug, PartialEq, Eq)]
pub struct Entry {
    /// The section.
    pub section: Section,
    /// The key, trimmed.
    pub key: String,
    /// The value, trimmed.
    pub value: String,
}

/// An [`Entry`] with its texts as sequences of characters.
pub struct EntryView {
    /// The section.
    pub section: Section,
    /// The key, trimmed.
    pub key: Seq<char>,
    /// The value, trimmed.
    pub value: Seq<char>,
}

impl DeepView for Entry {
    type V = EntryView;

    open spec fn deep_view(&self) -> EntryView {
        EntryView { section: self.section, key: self.key@, value: self.value@ }
    }
}

/// A line without its comment (`#` to end of line), trimmed. Values (base64
/// keys, CIDRs, endpoints) can never contain `#`.
pub open spec fn statement(raw: Seq<char>) -> Seq<char> {
    match text::split_once(raw, '#') {
        Some((before, _)) => text::trim(before),
        None => text::trim(raw),
    }
}

/// Whether two names are the same up to the case of ASCII letters.
pub open spec fn named(key: Seq<char>, name: Seq<char>) -> bool {
    text::lower(key) == text::lower(name)
}

/// Whether a statement opens a section.
pub open spec fn opens_section(line: Seq<char>) -> bool {
    text::starts_with_char(line, '[')
}

/// The section after one more line, and whether a peer section has been seen.
pub open spec fn section_step(at: (Section, bool), raw: Seq<char>) -> (Section, bool) {
    let line = statement(raw);
    if !opens_section(line) {
        at
    } else if named(line, "[interface]"@) {
        (Section::Interface, at.1)
    } else if named(line, "[peer]"@) && !at.1 {
        (Section::FirstPeer, true)
    } else {
        (Section::Other, at.1)
    }
}

/// The section that follows `lines`, and whether a peer section is among them.
pub open spec fn section_after(lines: Seq<Seq<char>>) -> (Section, bool)
    decreases lines.len(),
{
    if lines.len() == 0 {
        (Section::Other, false)
    } else {
        section_step(section_after(lines.drop_last()), lines.last())
    }
}

/// The key and the value of a line, where it has them.
pub open spec fn key_value(raw: Seq<char>) -> Option<(Seq<char>, Seq<char>)> {
    let line = statement(raw);
    if opens_section(line) {
        None
    } else {
        match text::split_once(line, '=') {
            Some((key, value)) => Some((text::trim(key), text::trim(value))),
            None => None,
        }
    }
}

/// The entries of `lines`, each with its section.
pub open spec fn entries(lines: Seq<Seq<char>>) -> Seq<EntryView>
    decreases lines.len(),
{
    if lines.len() == 0 {
        Seq::empty()
    } else {
        let before = entries(lines.drop_last());
        match key_value(lines.last()) {
            Some((key, value)) => before.push(
                EntryView { section: section_after(lines.drop_last()).0, key, value },
            ),
            None => before,
        }
    }
}

/// A line without its comment, trimmed.
pub fn read_statement(raw: &str) -> (r: String)
    ensures
        r@ == statement(raw@),
{
    match text::text_split_once(raw, '#') {
        Some((before, _)) => text::text_trim(&before),
        None => text::text_trim(raw),
    }
}

/// The section after one more line.
pub fn next_section(section: Section, seen_peer: bool, raw: &str) -> (r: (Section, bool))
    ensures
        r == section_step((section, seen_peer), raw@),
{
    let line = read_statement(raw);
    if !text::text_starts_with_char(&line, '[') {
        (section, seen_peer)
    } else if text::same_ignoring_case(&line, "[interface]") {
        (Section::Interface, seen_peer)
    } else if text::same_ignoring_case(&line, "[peer]") && !seen_peer {
        (Section::FirstPeer, true)
    } else {
        (Section::Other, seen_peer)
    }
}

/// The key and the value of a line, where it has them.
pub fn read_key_value(raw: &str) -> (r: Option<(String, String)>)
    ensures
        r.deep_view() == key_value(raw@),
{
    let line = read_statement(raw);
    if text::text_starts_with_char(&line, '[') {
        return None;
    }
    match text::text_split_once(&line, '=') {
        Some((key, value)) => Some((text::text_trim(&key), text::text_trim(&value))),
        None => None,
    }
}

/// The entries of a config.
pub fn read_entries(conf: &str) -> (r: Vec<Entry>)
    ensures
        r.deep_view() == entries(text::lines(conf@)),
{
    let lines = text::text_lines(conf);
    let ghost l = lines.deep_view();
    let mut out: Vec<Entry> = Vec::new();
    let mut section = Section::Other;
    let mut seen_peer = false;
    let mut i: usize = 0;
    proof {
        assert(l.take(0) =~= Seq::<Seq<char>>::empty());
        assert(out.deep_view() =~= Seq::<EntryView>::empty());
    }
    while i < lines.len()
        invariant
            l == lines.deep_view(),
            i <= lines@.len(),
            (section, seen_peer) == section_after(l.take(i as int)),
            out.deep_view() == entries(l.take(i as int)),
        decreases lines@.len() - i,
    {
        let ghost before = out.deep_view();
        proof {
            assert(l.take(i + 1).drop_last() =~= l.take(i as int));
            assert(l.take(i + 1).last() == lines@[i as int]@);
        }
        match read_key_value(&lines[i]) {
            Some((key, value)) => {
                let entry = Entry { section, key, value };
                let ghost v = entry.deep_view();
                out.push(entry);
                proof {
                    assert(out.deep_view() =~= before.push(v));
                }
            },
            None => {},
        }
        let (next, seen) = next_section(section, seen_peer, &lines[i]);
        section = next;
        seen_peer = seen;
        i = i + 1;
    }
    proof {
        assert(l.take(l.len() as int) =~= l);
    }
    out
}

// ---------------------------------------------------------------------------
// Questions to the entries
// ---------------------------------------------------------------------------

/// Whether `e` is an entry of `section` with the key `key`.
pub open spec fn is_entry(e: EntryView, section: Section, key: Seq<char>) -> bool {
    e.section == section && named(e.key, key)
}

/// The value of the first entry of `section` with the key `key`.
pub open spec fn first_value(es: Seq<EntryView>, section: Section, key: Seq<char>) -> Option<
    Seq<char>,
>
    decreases es.len(),
{
    if es.len() == 0 {
        None
    } else {
        match first_value(es.drop_last(), section, key) {
            Some(v) => Some(v),
            None => if is_entry(es.last(), section, key) {
                Some(es.last().value)
            } else {
                None
            },
        }
    }
}

/// Whether `section` has an entry with the key `key`.
pub open spec fn has_entry(es: Seq<EntryView>, section: Section, key: Seq<char>) -> bool {
    exists|i: int| 0 <= i < es.len() && is_entry(#[trigger] es[i], section, key)
}

/// Whether `section` has an entry with the key `key` and a value that is not
/// empty.
pub open spec fn has_filled_entry(es: Seq<EntryView>, section: Section, key: Seq<char>) -> bool {
    exists|i: int|
        0 <= i < es.len() && is_entry(#[trigger] es[i], section, key) && es[i].value.len() > 0
}

/// The comma-separated pieces of all entries of `section` with the key `key`.
pub open spec fn value_pieces(es: Seq<EntryView>, section: Section, key: Seq<char>) -> Seq<
    Seq<char>,
>
    decreases es.len(),
{
    if es.len() == 0 {
        Seq::empty()
    } else {
        let before = value_pieces(es.drop_last(), section, key);
        if is_entry(es.last(), section, key) {
            before + text::split(es.last().value, ',')
        } else {
            before
        }
    }
}

/// The pieces, trimmed.
pub open spec fn trimmed(items: Seq<Seq<char>>) -> Seq<Seq<char>> {
    items.map_values(|p: Seq<char>| text::trim(p))
}

/// The items that are not empty.
pub open spec fn nonempty(items: Seq<Seq<char>>) -> Seq<Seq<char>>
    decreases items.len(),
{
    if items.len() == 0 {
        Seq::empty()
    } else if items.last().len() == 0 {
        nonempty(items.drop_last())
    } else {
        nonempty(items.drop_last()).push(items.last())
    }
}

/// The canonical name of a `wg-quick` shell hook, where `key` is one. `wg-quick`
/// runs these as root.
pub open spec fn hook_name(key: Seq<char>) -> Option<Seq<char>> {
    if named(key, "PreUp"@) {
        Some("PreUp"@)
    } else if named(key, "PostUp"@) {
        Some("PostUp"@)
    } else if named(key, "PreDown"@) {
        Some("PreDown"@)
    } else if named(key, "PostDown"@) {
        Some("PostDown"@)
    } else {
        None
    }
}

/// The hooks among the entries, in any section, in the order they stand.
pub open spec fn hooks(es: Seq<EntryView>) -> Seq<Seq<char>>
    decreases es.len(),
{
    if es.len() == 0 {
        Seq::empty()
    } else {
        match hook_name(es.last().key) {
            Some(name) => hooks(es.drop_last()).push(name),
            None => hooks(es.drop_last()),
        }
    }
}

/// Whether `e` is an entry of `section` with the key `key`.
fn entry_is(e: &Entry, section: Section, key: &str) -> (r: bool)
    ensures
        r == is_entry(e.deep_view(), section, key@),
{
    e.section == section && text::same_ignoring_case(&e.key, key)
}

/// The value of the first entry of `section` with the key `key`.
fn find_first(es: &Vec<Entry>, section: Section, key: &str) -> (r: Option<String>)
    ensures
        r.deep_view() == first_value(es.deep_view(), section, key@),
{
    let ghost v = es.deep_view();
    let mut i: usize = 0;
    proof {
        assert(v.take(0) =~= Seq::<EntryView>::empty());
    }
    while i < es.len()
        invariant
            v == es.deep_view(),
            i <= es@.len(),
            first_value(v.take(i as int), section, key@) is None,
        decreases es@.len() - i,
    {
        proof {
            assert(v.take(i + 1).drop_last() =~= v.take(i as int));
            assert(v.take(i + 1).last() == es@[i as int].deep_view());
        }
        if entry_is(&es[i], section, key) {
            proof {
                lemma_first_value_prefix(v, section, key@, i + 1);
            }
            return Some(es[i].value.clone());
        }
        i = i + 1;
    }
    proof {
        assert(v.take(v.len() as int) =~= v);
    }
    None
}

/// A first value among the first entries is the first value.
proof fn lemma_first_value_prefix(es: Seq<EntryView>, section: Section, key: Seq<char>, n: int)
    requires
        0 <= n <= es.len(),
        first_value(es.take(n), section, key) is Some,
    ensures
        first_value(es, section, key) == first_value(es.take(n), section, key),
    decreases es.len() - n,
{
    if n < es.len() {
        assert(es.take(n + 1).drop_last() =~= es.take(n));
        lemma_first_value_prefix(es, section, key, n + 1);
    } else {
        assert(es.take(n) =~= es);
    }
}

/// Whether `section` has an entry with the key `key`, filled if `filled`.
fn find_any(es: &Vec<Entry>, section: Section, key: &str, filled: bool) -> (r: bool)
    ensures
        r == (if filled {
            has_filled_entry(es.deep_view(), section, key@)
        } else {
            has_entry(es.deep_view(), section, key@)
        }),
{
    let ghost v = es.deep_view();
    let mut i: usize = 0;
    while i < es.len()
        invariant
            v == es.deep_view(),
            i <= es@.len(),
            forall|j: int|
                0 <= j < i ==> !(is_entry(#[trigger] v[j], section, key@) && (filled
                    ==> v[j].value.len() > 0)),
        decreases es@.len() - i,
    {
        proof {
            assert(v[i as int] == es@[i as int].deep_view());
        }
        if entry_is(&es[i], section, key) && (!filled || !es[i].value.as_str().is_empty()) {
            proof {
                assert(is_entry(v[i as int], section, key@));
            }
            return true;
        }
        i = i + 1;
    }
    false
}

/// The comma-separated pieces of all entries of `section` with the key `key`.
fn collect_pieces(es: &Vec<Entry>, section: Section, key: &str) -> (r: Vec<String>)
    ensures
        r.deep_view() == value_pieces(es.deep_view(), section, key@),
{
    let ghost v = es.deep_view();
    let mut out: Vec<String> = Vec::new();
    let mut i: usize = 0;
    proof {
        assert(v.take(0) =~= Seq::<EntryView>::empty());
        assert(out.deep_view() =~= Seq::<Seq<char>>::empty());
    }
    while i < es.len()
        invariant
            v == es.deep_view(),
            i <= es@.len(),
            out.deep_view() == value_pieces(v.take(i as int), section, key@),
        decreases es@.len() - i,
    {
        let ghost before = out.deep_view();
        proof {
            assert(v.take(i + 1).drop_last() =~= v.take(i as int));
            assert(v.take(i + 1).last() == es@[i as int].deep_view());
        }
        if entry_is(&es[i], section, key) {
            let mut pieces = text::text_split(&es[i].value, ',');
            let ghost p = pieces.deep_view();
            out.append(&mut pieces);
            proof {
                assert(out.deep_view() =~= before + p);
            }
        }
        i = i + 1;
    }
    proof {
        assert(v.take(v.len() as int) =~= v);
    }
    out
}

/// Trim each item.
fn trim_all(items: &Vec<String>) -> (r: Vec<String>)
    ensures
        r.deep_view() == trimmed(items.deep_view()),
{
    let ghost s = items.deep_view();
    let mut out: Vec<String> = Vec::new();
    let mut i: usize = 0;
    while i < items.len()
        invariant
            s == items.deep_view(),
            i <= items@.len(),
            out@.len() == i,
            forall|j: int| 0 <= j < i ==> #[trigger] out@[j]@ == text::trim(s[j]),
        decreases items@.len() - i,
    {
        proof {
            assert(s[i as int] == items@[i as int]@);
        }
        out.push(text::text_trim(&items[i]));
        i = i + 1;
    }
    proof {
        assert(out.deep_view() =~= trimmed(s));
    }
    out
}

/// Keep the items that are not empty.
fn drop_empty(items: &Vec<String>) -> (r: Vec<String>)
    ensures
        r.deep_view() == nonempty(items.deep_view()),
{
    let ghost s = items.deep_view();
    let mut out: Vec<String> = Vec::new();
    let mut i: usize = 0;
    proof {
        assert(s.take(0) =~= Seq::<Seq<char>>::empty());
        assert(out.deep_view() =~= Seq::<Seq<char>>::empty());
    }
    while i < items.len()
        invariant
            s == items.deep_view(),
            i <= items@.len(),
            out.deep_view() == nonempty(s.take(i as int)),
        decreases items@.len() - i,
    {
        let ghost before = out.deep_view();
        proof {
            assert(s.take(i + 1).drop_last() =~= s.take(i as int));
            assert(s.take(i + 1).last() == items@[i as int]@);
        }
        if !items[i].as_str().is_empty() {
            out.push(items[i].clone());
            proof {
                assert(out.deep_view() =~= before.push(items@[i as int]@));
            }
        }
        i = i + 1;
    }
    proof {
        assert(s.take(s.len() as int) =~= s);
    }
    out
}

/// The canonical name of a `wg-quick` shell hook, where `key` is one.
pub fn exec_hook_name(key: &str) -> (r: Option<String>)
    ensures
        r.deep_view() == hook_name(key@),
{
    if text::same_ignoring_case(key, "PreUp") {
        Some("PreUp".to_owned())
    } else if text::same_ignoring_case(key, "PostUp") {
        Some("PostUp".to_owned())
    } else if text::same_ignoring_case(key, "PreDown") {
        Some("PreDown".to_owned())
    } else if text::same_ignoring_case(key, "PostDown") {
        Some("PostDown".to_owned())
    } else {
        None
    }
}

/// The hooks among the entries.
fn collect_hooks(es: &Vec<Entry>) -> (r: Vec<String>)
    ensures
        r.deep_view() == hooks(es.deep_view()),
{
    let ghost v = es.deep_view();
    let mut out: Vec<String> = Vec::new();
    let mut i: usize = 0;
    proof {
        assert(v.take(0) =~= Seq::<EntryView>::empty());
        assert(out.deep_view() =~= Seq::<Seq<char>>::empty());
    }
    while i < es.len()
        invariant
            v == es.deep_view(),
            i <= es@.len(),
            out.deep_view() == hooks(v.take(i as int)),
        decreases es@.len() - i,
    {
        let ghost before = out.deep_view();
        proof {
            assert(v.take(i + 1).drop_last() =~= v.take(i as int));
            assert(v.take(i + 1).last() == es@[i as int].deep_view());
        }
        match exec_hook_name(&es[i].key) {
            Some(name) => {
                let ghost n = name@;
                out.push(name);
                proof {
                    assert(out.deep_view() =~= before.push(n));
                }
            },
            None => {},
        }
        i = i + 1;
    }
    proof {
        assert(v.take(v.len() as int) =~= v);
    }
    out
}

// ---------------------------------------------------------------------------
// What a config says
// ---------------------------------------------------------------------------

/// The identifying details of a tunnel's first `[Peer]` section.
///
/// A tunnel's live interface is located by matching these against
/// `wg show all dump`. The allowed-IPs matter because sibling configs for the
/// same server (e.g. full-tunnel vs. split-tunnel) share a public key and
/// differ only in routing.
#[derive(Debug, PartialEq, Eq)]
pub struct PeerIdentity {
    /// The peer's base64 public key.
    pub public_key: String,
    /// Normalized allowed-IPs (see [`crate::status::normalize_allowed`]).
    pub allowed_ips: Vec<String>,
}

/// A [`PeerIdentity`] with its texts as sequences of characters.
#[verifier::ext_equal]
pub struct PeerIdentityView {
    /// The peer's public key.
    pub public_key: Seq<char>,
    /// Normalized allowed-IPs.
    pub allowed_ips: Seq<Seq<char>>,
}

impl DeepView for PeerIdentity {
    type V = PeerIdentityView;

    open spec fn deep_view(&self) -> PeerIdentityView {
        PeerIdentityView {
            public_key: self.public_key@,
            allowed_ips: self.allowed_ips.deep_view(),
        }
    }
}

/// The identity of the first peer of a config, where it has a public key.
pub open spec fn identity(conf: Seq<char>) -> Option<PeerIdentityView> {
    let es = entries(text::lines(conf));
    match first_value(es, Section::FirstPeer, "publickey"@) {
        Some(public_key) => Some(
            PeerIdentityView {
                public_key,
                allowed_ips: status::normalized(
                    value_pieces(es, Section::FirstPeer, "allowedips"@),
                ),
            },
        ),
        None => None,
    }
}

/// Extract the first peer's public key and allowed-IPs from a config's text.
///
/// Comments (`#` to end of line) are ignored and keys are matched
/// case-insensitively, mirroring `wg-quick`'s own parsing. Repeated
/// `AllowedIPs` lines within the peer are cumulative.
pub fn read_identity(conf: &str) -> (r: Option<PeerIdentity>)
    ensures
        r.deep_view() == identity(conf@),
{
    let es = read_entries(conf);
    match find_first(&es, Section::FirstPeer, "publickey") {
        Some(public_key) => {
            let pieces = collect_pieces(&es, Section::FirstPeer, "allowedips");
            Some(PeerIdentity { public_key, allowed_ips: status::normalize_allowed(&pieces) })
        },
        None => None,
    }
}

/// A structural summary of a tunnel config, used by `lint` and `split`.
#[derive(Debug, PartialEq, Eq)]
pub struct ConfSummary {
    /// Whether `[Interface]` has a `PrivateKey`.
    pub has_private_key: bool,
    /// The first peer's `PublicKey`, if any.
    pub peer_public_key: Option<String>,
    /// The first peer's raw `AllowedIPs` entries (trimmed, unnormalized).
    pub allowed_ips: Vec<String>,
    /// The first peer's `Endpoint`, if any.
    pub endpoint: Option<String>,
    /// Whether `[Interface]` sets `DNS`.
    pub has_dns: bool,
    /// The servers of the `[Interface]` `DNS` entries.
    pub dns_servers: Vec<String>,
    /// The shell hooks of the config, by their canonical names, in the order
    /// they stand.
    pub exec_hooks: Vec<String>,
}

/// A [`ConfSummary`] with its texts as sequences of characters.
#[verifier::ext_equal]
pub struct ConfSummaryView {
    /// Whether `[Interface]` has a `PrivateKey`.
    pub has_private_key: bool,
    /// The first peer's `PublicKey`, if any.
    pub peer_public_key: Option<Seq<char>>,
    /// The first peer's `AllowedIPs` entries.
    pub allowed_ips: Seq<Seq<char>>,
    /// The first peer's `Endpoint`, if any.
    pub endpoint: Option<Seq<char>>,
    /// Whether `[Interface]` sets `DNS`.
    pub has_dns: bool,
    /// The servers of the `[Interface]` `DNS` entries.
    pub dns_servers: Seq<Seq<char>>,
    /// The shell hooks of the config.
    pub exec_hooks: Seq<Seq<char>>,
}

impl DeepView for ConfSummary {
    type V = ConfSummaryView;

    open spec fn deep_view(&self) -> ConfSummaryView {
        ConfSummaryView {
            has_private_key: self.has_private_key,
            peer_public_key: self.peer_public_key.deep_view(),
            allowed_ips: self.allowed_ips.deep_view(),
            endpoint: self.endpoint.deep_view(),
            has_dns: self.has_dns,
            dns_servers: self.dns_servers.deep_view(),
            exec_hooks: self.exec_hooks.deep_view(),
        }
    }
}

/// The summary of a config.
pub open spec fn summary(conf: Seq<char>) -> ConfSummaryView {
    let es = entries(text::lines(conf));
    ConfSummaryView {
        has_private_key: has_filled_entry(es, Section::Interface, "privatekey"@),
        peer_public_key: first_value(es, Section::FirstPeer, "publickey"@),
        allowed_ips: trimmed(value_pieces(es, Section::FirstPeer, "allowedips"@)),
        endpoint: first_value(es, Section::FirstPeer, "endpoint"@),
        has_dns: has_entry(es, Section::Interface, "dns"@),
        dns_servers: nonempty(trimmed(value_pieces(es, Section::Interface, "dns"@))),
        exec_hooks: hooks(es),
    }
}

/// Parse the structural summary of a config's text. Uses the same comment and
/// case-insensitivity rules as [`read_identity`].
pub fn read_summary(conf: &str) -> (r: ConfSummary)
    ensures
        r.deep_view() == summary(conf@),
{
    let es = read_entries(conf);
    let allowed = collect_pieces(&es, Section::FirstPeer, "allowedips");
    let dns = collect_pieces(&es, Section::Interface, "dns");
    let dns_trimmed = trim_all(&dns);
    ConfSummary {
        has_private_key: find_any(&es, Section::Interface, "privatekey", true),
        peer_public_key: find_first(&es, Section::FirstPeer, "publickey"),
        allowed_ips: trim_all(&allowed),
        endpoint: find_first(&es, Section::FirstPeer, "endpoint"),
        has_dns: find_any(&es, Section::Interface, "dns", false),
        dns_servers: drop_empty(&dns_trimmed),
        exec_hooks: collect_hooks(&es),
    }
}

// ---------------------------------------------------------------------------
// Reading configs from the config directory
// ---------------------------------------------------------------------------

/// Listing the tunnels of the config directory.
pub open spec fn discovering(s: SessionView, config_dir: Seq<char>) -> Step<
    Result<Seq<TunnelView>, ErrorView>,
> {
    let (s, listing) = s.list_dir(config_dir);
    (
        s,
        match listing {
            None => None,
            Some(DirListingView::Missing) => Some(Ok(Seq::empty())),
            Some(DirListingView::Failed(source)) => Some(
                Err(ErrorView::ConfigDir(config_dir, source)),
            ),
            Some(DirListingView::Partial { source, .. }) => Some(
                Err(ErrorView::ConfigDir(config_dir, source)),
            ),
            Some(DirListingView::Files(files)) => Some(
                Ok(order::sorted::<Tunnel>(tunnels_in(config_dir, files))),
            ),
        },
    )
}

/// List every valid tunnel in `config_dir`, sorted by name.
///
/// A missing directory yields an empty list (nothing is deployed yet), which is
/// friendlier for `list`/`current`/`status` than an error. Files without a
/// `.conf` extension, or whose stem is not a valid name, are ignored.
pub fn discover(session: &mut Session, config_dir: &str) -> (r: Option<
    Result<Vec<Tunnel>, Error>,
>)
    ensures
        (final(session).deep_view(), so_far(r)) == discovering(
            old(session).deep_view(),
            config_dir@,
        ),
{
    match session.list_dir(config_dir)? {
        DirListing::Missing => {
            let none: Vec<Tunnel> = Vec::new();
            proof {
                assert(none.deep_view() =~= Seq::<TunnelView>::empty());
            }
            Some(Ok(none))
        },
        DirListing::Failed(source) => Some(Err(Error::ConfigDir(config_dir.to_owned(), source))),
        DirListing::Partial { source, .. } => Some(
            Err(Error::ConfigDir(config_dir.to_owned(), source)),
        ),
        DirListing::Files(files) => Some(Ok(tunnels_from_files(config_dir, &files))),
    }
}

/// The path of the config of the tunnel `name`.
pub open spec fn conf_path(config_dir: Seq<char>, name: Seq<char>) -> Seq<char> {
    path_in(config_dir, name + ".conf"@)
}

/// The path of the config of the tunnel `name`.
pub fn path_of_conf(config_dir: &str, name: &str) -> (r: String)
    ensures
        r@ == conf_path(config_dir@, name@),
{
    let mut file = name.to_owned();
    file.append(".conf");
    join_path(config_dir, &file)
}

/// Finding the tunnel `name`.
pub open spec fn resolving(s: SessionView, config_dir: Seq<char>, name: Seq<char>) -> Step<
    Result<TunnelView, ErrorView>,
> {
    if !valid_name(name) {
        (s, Some(Err(ErrorView::InvalidName(name))))
    } else {
        let path = conf_path(config_dir, name);
        let (s, found) = s.is_file(path);
        (
            s,
            match found {
                None => None,
                Some(true) => Some(Ok(TunnelView { name, path })),
                Some(false) => Some(Err(ErrorView::TunnelNotFound(name))),
            },
        )
    }
}

/// Resolve a single named tunnel to its config file.
///
/// Errors with [`Error::InvalidName`] for an illegal name and
/// [`Error::TunnelNotFound`] when no matching file exists.
pub fn resolve(session: &mut Session, config_dir: &str, name: &str) -> (r: Option<
    Result<Tunnel, Error>,
>)
    ensures
        (final(session).deep_view(), so_far(r)) == resolving(
            old(session).deep_view(),
            config_dir@,
            name@,
        ),
{
    if !is_valid_name(name) {
        return Some(Err(Error::InvalidName(name.to_owned())));
    }
    let path = path_of_conf(config_dir, name);
    if session.is_file(&path)? {
        Some(Ok(Tunnel { name: name.to_owned(), path }))
    } else {
        Some(Err(Error::TunnelNotFound(name.to_owned())))
    }
}

/// Reading a config file.
pub open spec fn reading_conf(s: SessionView, path: Seq<char>) -> Step<
    Result<Seq<char>, ErrorView>,
> {
    let (s, contents) = s.read_file(path);
    (
        s,
        match contents {
            None => None,
            Some(FileTextView::Missing(source)) => Some(
                Err(ErrorView::TunnelConfRead { path, source }),
            ),
            Some(FileTextView::Failed(source)) => Some(
                Err(ErrorView::TunnelConfRead { path, source }),
            ),
            Some(FileTextView::Text(held)) => Some(Ok(held)),
        },
    )
}

/// Read a config file.
pub fn read_conf(session: &mut Session, path: &str) -> (r: Option<Result<String, Error>>)
    ensures
        (final(session).deep_view(), so_far(r)) == reading_conf(old(session).deep_view(), path@),
{
    match session.read_file(path)? {
        FileText::Missing(source) => Some(
            Err(Error::TunnelConfRead { path: path.to_owned(), source }),
        ),
        FileText::Failed(source) => Some(
            Err(Error::TunnelConfRead { path: path.to_owned(), source }),
        ),
        FileText::Text(held) => Some(Ok(held)),
    }
}

/// Reading the peer identity of a config file.
pub open spec fn identifying(s: SessionView, path: Seq<char>) -> Step<
    Result<PeerIdentityView, ErrorView>,
> {
    let (s, conf) = reading_conf(s, path);
    (
        s,
        match conf {
            None => None,
            Some(Err(e)) => Some(Err(e)),
            Some(Ok(held)) => match identity(held) {
                Some(id) => Some(Ok(id)),
                None => Some(Err(ErrorView::TunnelConfPeer { path })),
            },
        },
    )
}

/// Extract the first peer's public key and allowed-IPs from a tunnel config.
///
/// Comments (`#` to end of line) are ignored and keys are matched
/// case-insensitively, mirroring `wg-quick`'s own parsing. Repeated
/// `AllowedIPs` lines within the peer are cumulative.
pub fn peer_identity(session: &mut Session, path: &str) -> (r: Option<Result<PeerIdentity, Error>>)
    ensures
        (final(session).deep_view(), so_far(r)) == identifying(old(session).deep_view(), path@),
{
    match read_conf(session, path)? {
        Err(e) => Some(Err(e)),
        Ok(held) => match read_identity(&held) {
            Some(id) => Some(Ok(id)),
            None => Some(Err(Error::TunnelConfPeer { path: path.to_owned() })),
        },
    }
}

/// Reading the summary of a config file.
pub open spec fn summarizing(s: SessionView, path: Seq<char>) -> Step<
    Result<ConfSummaryView, ErrorView>,
> {
    let (s, conf) = reading_conf(s, path);
    (
        s,
        match conf {
            None => None,
            Some(Err(e)) => Some(Err(e)),
            Some(Ok(held)) => Some(Ok(summary(held))),
        },
    )
}

/// Parse the structural summary of a tunnel config. Uses the same comment and
/// case-insensitivity rules as [`peer_identity`].
pub fn conf_summary(session: &mut Session, path: &str) -> (r: Option<Result<ConfSummary, Error>>)
    ensures
        (final(session).deep_view(), so_far(r)) == summarizing(old(session).deep_view(), path@),
{
    match read_conf(session, path)? {
        Err(e) => Some(Err(e)),
        Ok(held) => Some(Ok(read_summary(&held))),
    }
}

// ---------------------------------------------------------------------------
// Laws
// ---------------------------------------------------------------------------

/// A tunnel that was found in a directory is one that a file of it defines.
proof fn lemma_tunnels_in(dir: Seq<char>, files: Seq<Seq<char>>, tunnel: TunnelView)
    ensures
        tunnels_in(dir, files).contains(tunnel) <==> exists|i: int|
            0 <= i < files.len() && tunnel_at(path_in(dir, #[trigger] files[i])) == Some(tunnel),
    decreases files.len(),
{
    let all = tunnels_in(dir, files);
    if files.len() > 0 {
        let rest = files.drop_last();
        let before = tunnels_in(dir, rest);
        lemma_tunnels_in(dir, rest, tunnel);
        let last = tunnel_at(path_in(dir, files.last()));
        if before.contains(tunnel) {
            let k = choose|k: int| 0 <= k < before.len() && before[k] == tunnel;
            assert(all[k] == tunnel);
            let i = choose|i: int|
                0 <= i < rest.len() && tunnel_at(path_in(dir, #[trigger] rest[i])) == Some(tunnel);
            assert(files[i] == rest[i]);
        }
        if last == Some(tunnel) {
            assert(all[all.len() - 1] == tunnel);
            assert(files[files.len() - 1] == files.last());
        }
        if all.contains(tunnel) && last != Some(tunnel) {
            let k = choose|k: int| 0 <= k < all.len() && all[k] == tunnel;
            assert(before[k] == tunnel);
        }
        if exists|i: int|
            0 <= i < files.len() && tunnel_at(path_in(dir, #[trigger] files[i])) == Some(tunnel) {
            let i = choose|i: int|
                0 <= i < files.len() && tunnel_at(path_in(dir, #[trigger] files[i])) == Some(tunnel);
            if i < rest.len() {
                assert(rest[i] == files[i]);
            }
        }
    }
}

/// The tunnels are those of the files that end in `.conf` after a legal name,
/// each listed as often as there are such files, in the order of their names.
pub proof fn law_discovered(dir: Seq<char>, files: Seq<Seq<char>>, tunnel: TunnelView)
    ensures
        ({
            let found = order::sorted::<Tunnel>(tunnels_in(dir, files));
            &&& order::in_order::<Tunnel>(found)
            &&& found.to_multiset() == tunnels_in(dir, files).to_multiset()
            &&& found.contains(tunnel) <==> exists|i: int|
                0 <= i < files.len() && tunnel_at(path_in(dir, #[trigger] files[i])) == Some(tunnel)
            &&& found.contains(tunnel) ==> valid_name(tunnel.name)
        }),
{
    broadcast use vstd::seq_lib::group_to_multiset_ensures;

    let all = tunnels_in(dir, files);
    let found = order::sorted::<Tunnel>(all);
    order::lemma_sorted::<Tunnel>(all);
    lemma_tunnels_in(dir, files, tunnel);
    assert(found.contains(tunnel) <==> found.to_multiset().count(tunnel) > 0);
    assert(all.contains(tunnel) <==> all.to_multiset().count(tunnel) > 0);
}

} // verus!
