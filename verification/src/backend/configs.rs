//! Config files: `lint`, `add`, and what `split` shares with them.
use vstd::prelude::*;

use super::measure::named_option;
use super::{Backend, BackendView};
use crate::config;
use crate::config::{ConfSummaryView, TunnelView};
use crate::error::{so_far, Error, ErrorView};
use crate::lint;
use crate::lint::{Finding, FindingView, LintResult, LintResultView, Severity};
use crate::session::{Action, ActionView, Session, SessionView, Step};
use crate::text;

verus! {

/// The permission bits of a file that only its owner may read and write.
pub const OWNER_ONLY: u32 = 0o600;

// ---------------------------------------------------------------------------
// Lint
// ---------------------------------------------------------------------------

/// Linting the tunnels from `i` on, after those linted already.
pub open spec fn linting_from(
    s: SessionView,
    tunnels: Seq<TunnelView>,
    i: int,
    results: Seq<LintResultView>,
) -> Step<Result<Seq<LintResultView>, ErrorView>>
    decreases tunnels.len() - i,
{
    if i >= tunnels.len() {
        (s, Some(Ok(results)))
    } else {
        let (s, summed) = config::summarizing(s, tunnels[i].path);
        match summed {
            None => (s, None),
            Some(Err(e)) => (s, Some(Err(e))),
            Some(Ok(summary)) => linting_from(
                s,
                tunnels,
                i + 1,
                results.push(lint::linted(tunnels[i].name, summary)),
            ),
        }
    }
}

impl BackendView {
    /// `vpn lint`.
    pub open spec fn linting(self, s: SessionView, name: Option<Seq<char>>) -> Step<
        Result<Seq<LintResultView>, ErrorView>,
    > {
        let (s, selected) = self.selecting(s, name);
        match selected {
            None => (s, None),
            Some(Err(e)) => (s, Some(Err(e))),
            Some(Ok(tunnels)) => linting_from(s, tunnels, 0, Seq::empty()),
        }
    }
}

impl Backend {
    /// Lint one named tunnel, or every discovered tunnel. Pure file analysis —
    /// no privileged commands run.
    pub fn lint(&self, session: &mut Session, name: Option<&str>) -> (r: Option<
        Result<Vec<LintResult>, Error>,
    >)
        ensures
            (final(session).deep_view(), so_far(r)) == self.deep_view().linting(
                old(session).deep_view(),
                named_option(name),
            ),
    {
        let ghost whole = self.deep_view().linting(session.deep_view(), named_option(name));
        let tunnels = match self.select(session, name)? {
            Ok(tunnels) => tunnels,
            Err(e) => {
                return Some(Err(e));
            },
        };
        let ghost t = tunnels.deep_view();
        let mut results: Vec<LintResult> = Vec::new();
        let mut i: usize = 0;
        proof {
            assert(results.deep_view() =~= Seq::<LintResultView>::empty());
        }
        while i < tunnels.len()
            invariant
                t == tunnels.deep_view(),
                i <= tunnels@.len(),
                whole == self.deep_view().linting(old(session).deep_view(), named_option(name)),
                whole == linting_from(session.deep_view(), t, i as int, results.deep_view()),
            decreases tunnels@.len() - i,
        {
            let ghost before = results.deep_view();
            proof {
                assert(t[i as int] == tunnels@[i as int].deep_view());
            }
            match config::conf_summary(session, &tunnels[i].path)? {
                Err(e) => {
                    return Some(Err(e));
                },
                Ok(summary) => {
                    let result = lint::lint(&tunnels[i].name, &summary);
                    let ghost v = result.deep_view();
                    results.push(result);
                    proof {
                        assert(results.deep_view() =~= before.push(v));
                    }
                },
            }
            i = i + 1;
        }
        Some(Ok(results))
    }
}

// ---------------------------------------------------------------------------
// Writing a config
// ---------------------------------------------------------------------------

/// Writing `contents` to `dest` with owner-only permissions, creating the
/// config directory if needed.
pub open spec fn writing_private(
    s: SessionView,
    dest: Seq<char>,
    contents: Seq<char>,
    config_dir: Seq<char>,
) -> Step<Result<(), ErrorView>> {
    let (s, made) = s.change(ActionView::CreateDir(config_dir));
    match made {
        None => (s, None),
        Some(Err(source)) => (s, Some(Err(ErrorView::ConfigDir(config_dir, source)))),
        Some(Ok(_)) => {
            let (s, written) = s.change(ActionView::WriteFile { path: dest, contents });
            match written {
                None => (s, None),
                Some(Err(source)) => (s, Some(Err(ErrorView::Write { path: dest, source }))),
                Some(Ok(_)) => {
                    let (s, restricted) = s.change(
                        ActionView::Restrict { path: dest, mode: OWNER_ONLY },
                    );
                    (
                        s,
                        match restricted {
                            None => None,
                            Some(Err(source)) => Some(
                                Err(ErrorView::Write { path: dest, source }),
                            ),
                            Some(Ok(_)) => Some(Ok(())),
                        },
                    )
                },
            }
        },
    }
}

/// Write `contents` to `dest` with owner-only permissions, creating the
/// config directory if needed.
pub(super) fn write_private(
    session: &mut Session,
    dest: &str,
    contents: &str,
    config_dir: &str,
) -> (r: Option<Result<(), Error>>)
    ensures
        (final(session).deep_view(), so_far(r)) == writing_private(
            old(session).deep_view(),
            dest@,
            contents@,
            config_dir@,
        ),
{
    match session.change(Action::CreateDir(config_dir.to_owned()))? {
        Err(source) => {
            return Some(Err(Error::ConfigDir(config_dir.to_owned(), source)));
        },
        Ok(_) => {},
    }
    match session.change(
        Action::WriteFile { path: dest.to_owned(), contents: contents.to_owned() },
    )? {
        Err(source) => {
            return Some(Err(Error::Write { path: dest.to_owned(), source }));
        },
        Ok(_) => {},
    }
    match session.change(Action::Restrict { path: dest.to_owned(), mode: OWNER_ONLY })? {
        Err(source) => Some(Err(Error::Write { path: dest.to_owned(), source })),
        Ok(_) => Some(Ok(())),
    }
}

/// What is said of a destination that exists.
pub open spec fn exists_refusal(dest: Seq<char>) -> ErrorView {
    ErrorView::Refused("'"@ + dest + "' already exists — pass --force to overwrite"@)
}

/// What is said of a destination that exists.
pub(super) fn refuse_existing(dest: &str) -> (r: Error)
    ensures
        r.deep_view() == exists_refusal(dest@),
{
    let mut message = "'".to_owned();
    message.append(dest);
    message.append("' already exists — pass --force to overwrite");
    Error::Refused(message)
}

// ---------------------------------------------------------------------------
// Add
// ---------------------------------------------------------------------------

/// The name a config file is installed under by default: its stem.
pub open spec fn default_name(source: Seq<char>) -> Seq<char> {
    match config::file_name(source) {
        Some(file) => config::stem_and_extension(file).0,
        None => ""@,
    }
}

/// `items` with each run of equal items replaced by one of them.
pub open spec fn without_repeats(items: Seq<Seq<char>>) -> Seq<Seq<char>>
    decreases items.len(),
{
    if items.len() == 0 {
        Seq::empty()
    } else {
        let before = without_repeats(items.drop_last());
        if items.len() > 1 && items[items.len() - 2] == items.last() {
            before
        } else {
            before.push(items.last())
        }
    }
}

/// The messages of the findings.
pub open spec fn messages(findings: Seq<FindingView>) -> Seq<Seq<char>> {
    findings.map_values(|f: FindingView| f.message)
}

/// The messages of the errors among the findings.
pub open spec fn error_messages(findings: Seq<FindingView>) -> Seq<Seq<char>>
    decreases findings.len(),
{
    if findings.len() == 0 {
        Seq::empty()
    } else {
        let before = error_messages(findings.drop_last());
        if findings.last().severity is Error {
            before.push(findings.last().message)
        } else {
            before
        }
    }
}

/// What is said of a config with shell hooks.
pub open spec fn hook_refusal(source: Seq<char>, hooks: Seq<Seq<char>>) -> ErrorView {
    ErrorView::Refused(
        "refusing to add '"@ + source + "' — it contains shell hook(s) ("@ + text::join(
            without_repeats(hooks),
            ", "@,
        )
            + ") that wg-quick runs as root; this is a privilege-escalation risk. Remove them, or pass --allow-hooks if you fully trust this file (--force will NOT bypass this)"@,
    )
}

/// What is said of a config with lint errors.
pub open spec fn lint_refusal(source: Seq<char>, findings: Seq<FindingView>) -> ErrorView {
    ErrorView::Refused(
        "refusing to add '"@ + source + "' — fix these or pass --force: "@ + text::join(
            error_messages(findings),
            "; "@,
        ),
    )
}

/// Why a config is not installed, if so. Shell hooks run as root and are
/// refused even under `force`: only `allow_hooks` installs them. Other lint
/// errors are refused unless `force`.
pub open spec fn add_refusal(
    name: Seq<char>,
    source: Seq<char>,
    summary: ConfSummaryView,
    force: bool,
    allow_hooks: bool,
) -> Option<ErrorView> {
    let hook_free = lint::linted(
        name,
        ConfSummaryView { exec_hooks: Seq::empty(), ..summary },
    );
    if summary.exec_hooks.len() > 0 && !allow_hooks {
        Some(hook_refusal(source, summary.exec_hooks))
    } else if !hook_free.ok && !force {
        Some(lint_refusal(source, hook_free.findings))
    } else {
        None
    }
}

impl BackendView {
    /// `vpn add`: the name, the destination and the lint outcome.
    pub open spec fn adding(
        self,
        s: SessionView,
        source: Seq<char>,
        name: Option<Seq<char>>,
        force: bool,
        allow_hooks: bool,
    ) -> Step<Result<(Seq<char>, Seq<char>, LintResultView), ErrorView>> {
        let name = match name {
            Some(n) => n,
            None => default_name(source),
        };
        if !config::valid_name(name) {
            (s, Some(Err(ErrorView::InvalidName(name))))
        } else {
            let (s, summed) = config::summarizing(s, source);
            match summed {
                None => (s, None),
                Some(Err(e)) => (s, Some(Err(e))),
                Some(Ok(summary)) => match add_refusal(name, source, summary, force, allow_hooks) {
                    Some(e) => (s, Some(Err(e))),
                    None => self.installing(s, source, name, force, lint::linted(name, summary)),
                },
            }
        }
    }

    /// Installing a config that may be installed.
    pub open spec fn installing(
        self,
        s: SessionView,
        source: Seq<char>,
        name: Seq<char>,
        force: bool,
        result: LintResultView,
    ) -> Step<Result<(Seq<char>, Seq<char>, LintResultView), ErrorView>> {
        let dest = config::conf_path(self.config_dir, name);
        let (s, found) = s.exists_path(dest);
        match found {
            None => (s, None),
            Some(there) => if there && !force {
                (s, Some(Err(exists_refusal(dest))))
            } else {
                let (s, contents) = config::reading_conf(s, source);
                match contents {
                    None => (s, None),
                    Some(Err(e)) => (s, Some(Err(e))),
                    Some(Ok(held)) => {
                        let (s, written) = writing_private(s, dest, held, self.config_dir);
                        (
                            s,
                            match written {
                                None => None,
                                Some(Err(e)) => Some(Err(e)),
                                Some(Ok(_)) => Some(Ok((name, dest, result))),
                            },
                        )
                    },
                }
            },
        }
    }
}

/// The name a config file is installed under by default.
fn stem_of(source: &str) -> (r: String)
    ensures
        r@ == default_name(source@),
{
    match config::path_file_name(source) {
        Some(file) => {
            let (stem, _) = config::split_extension(&file);
            stem
        },
        None => "".to_owned(),
    }
}

/// `items` with each run of equal items replaced by one of them.
fn drop_repeats(items: &Vec<String>) -> (r: Vec<String>)
    ensures
        r.deep_view() == without_repeats(items.deep_view()),
{
    let ghost s = items.deep_view();
    let mut out = text::no_texts();
    let mut i: usize = 0;
    proof {
        assert(s.take(0) =~= Seq::<Seq<char>>::empty());
    }
    while i < items.len()
        invariant
            s == items.deep_view(),
            i <= items@.len(),
            out.deep_view() == without_repeats(s.take(i as int)),
        decreases items@.len() - i,
    {
        proof {
            assert(s.take(i + 1).drop_last() =~= s.take(i as int));
            assert(s.take(i + 1).last() == items@[i as int]@);
            if i > 0 {
                assert(s.take(i + 1)[i - 1] == items@[i - 1]@);
            }
        }
        if i == 0 || !text::same(&items[i - 1], &items[i]) {
            text::push_text(&mut out, &items[i]);
        }
        i = i + 1;
    }
    proof {
        assert(s.take(s.len() as int) =~= s);
    }
    out
}

/// The messages of the findings.
pub(super) fn collect_messages(findings: &Vec<Finding>) -> (r: Vec<String>)
    ensures
        r.deep_view() == messages(findings.deep_view()),
{
    let ghost f = findings.deep_view();
    let mut out = text::no_texts();
    let mut i: usize = 0;
    while i < findings.len()
        invariant
            f == findings.deep_view(),
            i <= findings@.len(),
            out.deep_view() == messages(f.take(i as int)),
        decreases findings@.len() - i,
    {
        proof {
            assert(f[i as int] == findings@[i as int].deep_view());
            assert(messages(f.take(i + 1)) =~= messages(f.take(i as int)).push(
                f[i as int].message,
            ));
        }
        text::push_text(&mut out, &findings[i].message);
        i = i + 1;
    }
    proof {
        assert(f.take(f.len() as int) =~= f);
    }
    out
}

/// The messages of the errors among the findings.
pub(super) fn collect_errors(findings: &Vec<Finding>) -> (r: Vec<String>)
    ensures
        r.deep_view() == error_messages(findings.deep_view()),
{
    let ghost f = findings.deep_view();
    let mut out = text::no_texts();
    let mut i: usize = 0;
    proof {
        assert(f.take(0) =~= Seq::<FindingView>::empty());
    }
    while i < findings.len()
        invariant
            f == findings.deep_view(),
            i <= findings@.len(),
            out.deep_view() == error_messages(f.take(i as int)),
        decreases findings@.len() - i,
    {
        proof {
            assert(f.take(i + 1).drop_last() =~= f.take(i as int));
            assert(f.take(i + 1).last() == findings@[i as int].deep_view());
        }
        if findings[i].severity == Severity::Error {
            text::push_text(&mut out, &findings[i].message);
        }
        i = i + 1;
    }
    proof {
        assert(f.take(f.len() as int) =~= f);
    }
    out
}

/// What is said of a config with shell hooks.
fn refuse_hooks(source: &str, hooks: &Vec<String>) -> (r: Error)
    ensures
        r.deep_view() == hook_refusal(source@, hooks.deep_view()),
{
    let distinct = drop_repeats(hooks);
    let names = text::text_join(&distinct, ", ");
    let mut message = "refusing to add '".to_owned();
    message.append(source);
    message.append("' — it contains shell hook(s) (");
    message.append(&names);
    message.append(
        ") that wg-quick runs as root; this is a privilege-escalation risk. Remove them, or pass --allow-hooks if you fully trust this file (--force will NOT bypass this)",
    );
    Error::Refused(message)
}

/// What is said of a config with lint errors.
fn refuse_errors(source: &str, findings: &Vec<Finding>) -> (r: Error)
    ensures
        r.deep_view() == lint_refusal(source@, findings.deep_view()),
{
    let errors = collect_errors(findings);
    let listed = text::text_join(&errors, "; ");
    let mut message = "refusing to add '".to_owned();
    message.append(source);
    message.append("' — fix these or pass --force: ");
    message.append(&listed);
    Error::Refused(message)
}

impl Backend {
    /// Install a config that may be installed.
    fn install(
        &self,
        session: &mut Session,
        source: &str,
        name: String,
        force: bool,
        result: LintResult,
    ) -> (r: Option<Result<(String, String, LintResult), Error>>)
        ensures
            (final(session).deep_view(), so_far(r)) == self.deep_view().installing(
                old(session).deep_view(),
                source@,
                name@,
                force,
                result.deep_view(),
            ),
    {
        let dest = config::path_of_conf(&self.config_dir, &name);
        if session.exists_path(&dest)? && !force {
            return Some(Err(refuse_existing(&dest)));
        }
        let contents = match config::read_conf(session, source)? {
            Ok(contents) => contents,
            Err(e) => {
                return Some(Err(e));
            },
        };
        match write_private(session, &dest, &contents, &self.config_dir)? {
            Err(e) => Some(Err(e)),
            Ok(_) => Some(Ok((name, dest, result))),
        }
    }

    /// Validate and install a config file as `<name>.conf` (0600) in the
    /// config directory: the name, the destination and the lint outcome.
    ///
    /// The name defaults to the source file's stem. Lint errors and an
    /// existing destination both refuse unless `force`. Shell hooks run as root
    /// and are refused even under `force`; only the explicit `allow_hooks`
    /// installs them, so a blanket `force` can never smuggle a
    /// privilege-escalation vector in.
    pub fn add(
        &self,
        session: &mut Session,
        source: &str,
        name: Option<&str>,
        force: bool,
        allow_hooks: bool,
    ) -> (r: Option<Result<(String, String, LintResult), Error>>)
        ensures
            (final(session).deep_view(), so_far(r)) == self.deep_view().adding(
                old(session).deep_view(),
                source@,
                named_option(name),
                force,
                allow_hooks,
            ),
    {
        let name = match name {
            Some(n) => n.to_owned(),
            None => stem_of(source),
        };
        if !config::is_valid_name(&name) {
            return Some(Err(Error::InvalidName(name)));
        }
        let summary = match config::conf_summary(session, source)? {
            Ok(summary) => summary,
            Err(e) => {
                return Some(Err(e));
            },
        };
        proof {
            assert(summary.exec_hooks.deep_view().len() == summary.exec_hooks@.len());
        }
        if summary.exec_hooks.len() > 0 && !allow_hooks {
            return Some(Err(refuse_hooks(source, &summary.exec_hooks)));
        }
        let result = lint::lint(&name, &summary);
        let mut hook_free = summary;
        hook_free.exec_hooks = text::no_texts();
        let hook_free_result = lint::lint(&name, &hook_free);
        if !hook_free_result.ok && !force {
            return Some(Err(refuse_errors(source, &hook_free_result.findings)));
        }
        self.install(session, source, name, force, result)
    }
}

} // verus!
