//! Optional `config.toml` settings file for agent-friendly, flag-free use.
//!
//! Living at `<config_dir>/config.toml`, it lets `sudo`, `wg`, `wg_quick`, and
//! `curl` be configured once so agents can call `vpn up <name>` with no flags.
//! Precedence is always: command-line flag / env var → file → built-in default
//! (see [`crate::cli::Cli::settings`]).
//!
//! A deliberately tiny `key = value` subset is parsed, but the accepted syntax
//! is valid TOML:
//!
//! ```toml
//! sudo = true
//! wg = "/opt/homebrew/bin/wg"
//! wg_quick = "/opt/homebrew/bin/wg-quick"
//! curl = "/usr/bin/curl"
//! ```
use vstd::prelude::*;

use crate::config;
use crate::error::{so_far, Error, ErrorView};
use crate::session::{FileText, FileTextView, Session, SessionView, Step};
use crate::text;

verus! {

/// Values parsed from `config.toml`. Every field is optional; unset fields fall
/// through to the built-in default.
#[derive(Debug, PartialEq, Eq)]
pub struct FileConfig {
    /// Prefix privileged commands with `sudo`.
    pub sudo: Option<bool>,
    /// Path to the `wg` binary.
    pub wg: Option<String>,
    /// Path to the `wg-quick` binary.
    pub wg_quick: Option<String>,
    /// Path to the `curl` binary used by `probe`.
    pub curl: Option<String>,
}

/// A [`FileConfig`] with its texts as sequences of characters.
pub struct FileConfigView {
    /// Prefix privileged commands with `sudo`.
    pub sudo: Option<bool>,
    /// Path to the `wg` binary.
    pub wg: Option<Seq<char>>,
    /// Path to the `wg-quick` binary.
    pub wg_quick: Option<Seq<char>>,
    /// Path to the `curl` binary.
    pub curl: Option<Seq<char>>,
}

impl DeepView for FileConfig {
    type V = FileConfigView;

    open spec fn deep_view(&self) -> FileConfigView {
        FileConfigView {
            sudo: self.sudo,
            wg: self.wg.deep_view(),
            wg_quick: self.wg_quick.deep_view(),
            curl: self.curl.deep_view(),
        }
    }
}

impl FileConfigView {
    /// The settings of a file that sets nothing.
    pub open spec fn unset() -> FileConfigView {
        FileConfigView { sudo: None, wg: None, wg_quick: None, curl: None }
    }
}

impl Default for FileConfig {
    fn default() -> (r: Self)
        ensures
            r.deep_view() == FileConfigView::unset(),
    {
        FileConfig { sudo: None, wg: None, wg_quick: None, curl: None }
    }
}

/// `value` without a single pair of matching surrounding quotes.
pub open spec fn unquoted(value: Seq<char>) -> Seq<char> {
    if value.len() >= 2 && (value[0] == '"' || value[0] == '\'') && value.last() == value[0] {
        value.subrange(1, value.len() - 1)
    } else {
        value
    }
}

/// A complaint about line `lineno`.
pub open spec fn line_error(lineno: nat, complaint: Seq<char>) -> Seq<char> {
    "line "@ + text::number(lineno) + ": "@ + complaint
}

/// The settings after line `lineno`, which reads `raw`.
pub open spec fn settings_step(config: FileConfigView, raw: Seq<char>, lineno: nat) -> Result<
    FileConfigView,
    Seq<char>,
> {
    let line = text::trim(raw);
    if line.len() == 0 || text::starts_with_char(line, '#') {
        Ok(config)
    } else {
        match text::split_once(line, '=') {
            None => Err(line_error(lineno, "expected `key = value`"@)),
            Some((k, v)) => {
                let key = text::trim(k);
                let value = unquoted(text::trim(v));
                if key == "sudo"@ {
                    if value == "true"@ {
                        Ok(FileConfigView { sudo: Some(true), ..config })
                    } else if value == "false"@ {
                        Ok(FileConfigView { sudo: Some(false), ..config })
                    } else {
                        Err(
                            line_error(
                                lineno,
                                "expected `true` or `false`, found '"@ + value + "'"@,
                            ),
                        )
                    }
                } else if key == "wg"@ {
                    Ok(FileConfigView { wg: Some(value), ..config })
                } else if key == "wg_quick"@ {
                    Ok(FileConfigView { wg_quick: Some(value), ..config })
                } else if key == "curl"@ {
                    Ok(FileConfigView { curl: Some(value), ..config })
                } else {
                    Err(line_error(lineno, "unknown key '"@ + key + "'"@))
                }
            },
        }
    }
}

/// The settings of the lines of a file; the first line in error decides.
pub open spec fn settings_of(lines: Seq<Seq<char>>) -> Result<FileConfigView, Seq<char>>
    decreases lines.len(),
{
    if lines.len() == 0 {
        Ok(FileConfigView::unset())
    } else {
        match settings_of(lines.drop_last()) {
            Ok(config) => settings_step(config, lines.last(), lines.len()),
            Err(e) => Err(e),
        }
    }
}

/// Parsed settings, or the message that says why there are none.
pub open spec fn parsed(r: Result<FileConfig, String>) -> Result<FileConfigView, Seq<char>> {
    match r {
        Ok(config) => Ok(config.deep_view()),
        Err(e) => Err(e@),
    }
}

/// Strip a single pair of matching surrounding quotes, if present.
pub fn unquote(value: &str) -> (r: String)
    ensures
        r@ == unquoted(value@),
{
    let v = text::chars_of(value);
    let n: usize = v.len();
    if n >= 2 && (v[0] == '"' || v[0] == '\'') && v[n - 1] == v[0] {
        text::text_of(&v, 1, n - 1)
    } else {
        value.to_owned()
    }
}

/// A complaint about line `lineno`.
fn complain(lineno: usize, complaint: &str) -> (r: String)
    ensures
        r@ == line_error(lineno as nat, complaint@),
{
    let mut out = "line ".to_owned();
    let number = text::text_number(lineno as u64);
    out.append(&number);
    out.append(": ");
    out.append(complaint);
    out
}

fn parse_bool(value: &str, lineno: usize) -> (r: Result<bool, String>)
    ensures
        match r {
            Ok(b) => value@ == (if b {
                "true"@
            } else {
                "false"@
            }) && (!b ==> value@ != "true"@),
            Err(e) => value@ != "true"@ && value@ != "false"@ && e@ == line_error(
                lineno as nat,
                "expected `true` or `false`, found '"@ + value@ + "'"@,
            ),
        },
{
    if text::same(value, "true") {
        Ok(true)
    } else if text::same(value, "false") {
        Ok(false)
    } else {
        let mut complaint = "expected `true` or `false`, found '".to_owned();
        complaint.append(value);
        complaint.append("'");
        Err(complain(lineno, &complaint))
    }
}

/// Take in one line of the file.
fn parse_line(config: FileConfig, raw: &str, lineno: usize) -> (r: Result<FileConfig, String>)
    ensures
        parsed(r) == settings_step(config.deep_view(), raw@, lineno as nat),
{
    let line = text::text_trim(raw);
    if line.as_str().is_empty() || text::text_starts_with_char(&line, '#') {
        return Ok(config);
    }
    match text::text_split_once(&line, '=') {
        None => Err(complain(lineno, "expected `key = value`")),
        Some((k, v)) => {
            let key = text::text_trim(&k);
            let trimmed = text::text_trim(&v);
            let value = unquote(&trimmed);
            let mut config = config;
            if text::same(&key, "sudo") {
                match parse_bool(&value, lineno) {
                    Ok(b) => {
                        config.sudo = Some(b);
                    },
                    Err(e) => {
                        return Err(e);
                    },
                }
            } else if text::same(&key, "wg") {
                config.wg = Some(value);
            } else if text::same(&key, "wg_quick") {
                config.wg_quick = Some(value);
            } else if text::same(&key, "curl") {
                config.curl = Some(value);
            } else {
                let mut complaint = "unknown key '".to_owned();
                complaint.append(&key);
                complaint.append("'");
                return Err(complain(lineno, &complaint));
            }
            Ok(config)
        },
    }
}

/// An error among the first lines is the error of the file.
proof fn lemma_error_sticks(lines: Seq<Seq<char>>, n: int)
    requires
        0 <= n <= lines.len(),
        settings_of(lines.take(n)) is Err,
    ensures
        settings_of(lines) == settings_of(lines.take(n)),
    decreases lines.len() - n,
{
    if n < lines.len() {
        assert(lines.take(n + 1).drop_last() =~= lines.take(n));
        lemma_error_sticks(lines, n + 1);
    } else {
        assert(lines.take(n) =~= lines);
    }
}

/// Parse the config text, returning a human-readable error message on failure.
pub fn parse(config_text: &str) -> (r: Result<FileConfig, String>)
    ensures
        parsed(r) == settings_of(text::lines(config_text@)),
{
    let lines = text::text_lines(config_text);
    let ghost l = lines.deep_view();
    let mut config = FileConfig::default();
    let mut i: usize = 0;
    proof {
        assert(l.take(0) =~= Seq::<Seq<char>>::empty());
    }
    while i < lines.len()
        invariant
            l == lines.deep_view(),
            l == text::lines(config_text@),
            i <= lines@.len(),
            settings_of(l.take(i as int)) == Ok::<FileConfigView, Seq<char>>(config.deep_view()),
        decreases lines@.len() - i,
    {
        proof {
            assert(l.take(i + 1).drop_last() =~= l.take(i as int));
            assert(l.take(i + 1).last() == lines@[i as int]@);
        }
        match parse_line(config, &lines[i], i + 1) {
            Ok(next) => {
                config = next;
            },
            Err(e) => {
                proof {
                    lemma_error_sticks(l, i + 1);
                }
                return Err(e);
            },
        }
        i = i + 1;
    }
    proof {
        assert(l.take(l.len() as int) =~= l);
    }
    Ok(config)
}

/// Loading the settings file of the config directory.
pub open spec fn loading(s: SessionView, config_dir: Seq<char>) -> Step<
    Result<FileConfigView, ErrorView>,
> {
    let path = config::path_in(config_dir, "config.toml"@);
    let (s, contents) = s.read_file(path);
    (
        s,
        match contents {
            None => None,
            Some(FileTextView::Missing(_)) => Some(Ok(FileConfigView::unset())),
            Some(FileTextView::Failed(source)) => Some(Err(ErrorView::ConfigDir(path, source))),
            Some(FileTextView::Text(held)) => match settings_of(text::lines(held)) {
                Ok(config) => Some(Ok(config)),
                Err(message) => Some(Err(ErrorView::ConfigParse { path, message })),
            },
        },
    )
}

/// Load and parse `<config_dir>/config.toml`.
///
/// A missing file is not an error — it yields an empty [`FileConfig`]. A file
/// that exists but cannot be read or parsed is an error.
pub fn load(session: &mut Session, config_dir: &str) -> (r: Option<Result<FileConfig, Error>>)
    ensures
        (final(session).deep_view(), so_far(r)) == loading(old(session).deep_view(), config_dir@),
{
    let path = config::join_path(config_dir, "config.toml");
    match session.read_file(&path)? {
        FileText::Missing(_) => Some(Ok(FileConfig::default())),
        FileText::Failed(source) => Some(Err(Error::ConfigDir(path, source))),
        FileText::Text(held) => match parse(&held) {
            Ok(config) => Some(Ok(config)),
            Err(message) => Some(Err(Error::ConfigParse { path, message })),
        },
    }
}

} // verus!
