//! `vpn`: an agent-first, provider-agnostic WireGuard tunnel manager.
//!
//! The library holds the full command logic. An operation never touches the
//! machine: it runs against a [`session::Session`], which records what is to be
//! done and replays what came of it. [`execute`] is the whole tool in that form;
//! its caller performs each pending action, hands the reply back, and runs it
//! again until it is finished.
pub mod backend;
pub mod cidr;
pub mod cidr_laws;
pub mod cli;
pub mod config;
pub mod config_laws;
pub mod diff;
pub mod diff_laws;
pub mod dns;
pub mod dns_laws;
pub mod error;
pub mod journal_laws;
pub mod json;
pub mod laws;
pub mod lint;
pub mod lock;
pub mod order;
pub mod order_laws;
pub mod output;
pub mod probe;
pub mod probe_laws;
pub mod reading_laws;
pub mod report_laws;
pub mod runner;
pub mod session;
pub mod settings;
pub mod snapshot_laws;
pub mod state;
pub mod state_laws;
pub mod status;
pub mod text;
pub mod text_laws;
pub mod trace;
pub mod view_laws;

use vstd::prelude::*;

use crate::backend::{Backend, BackendView};
use crate::cli::{Cli, CliView, SettingsView};
use crate::error::{outcome, so_far, Error, ErrorView};
use crate::output::{Report, ReportView};
use crate::session::{Session, SessionView, Step};

verus! {

/// The outcome of running a command: what to print and the exit code.
#[derive(Debug, PartialEq, Eq)]
pub struct Execution {
    /// Rendered output (report on success, error text on failure).
    pub message: String,
    /// Process exit code.
    pub code: i32,
    /// Whether `message` describes an error (and belongs on stderr).
    pub is_error: bool,
}

/// An [`Execution`] with its message as a sequence of characters.
pub struct ExecutionView {
    /// Rendered output.
    pub message: Seq<char>,
    /// Process exit code.
    pub code: i32,
    /// Whether `message` describes an error.
    pub is_error: bool,
}

impl DeepView for Execution {
    type V = ExecutionView;

    open spec fn deep_view(&self) -> ExecutionView {
        ExecutionView { message: self.message@, code: self.code, is_error: self.is_error }
    }
}

/// What to emit for an error.
pub open spec fn failed(err: ErrorView, json: bool) -> ExecutionView {
    ExecutionView {
        message: output::error_text(err, json),
        code: err.exit_code(),
        is_error: true,
    }
}

/// Emitting the outcome of a command. For `exec` the child's output already
/// streamed through: nothing is emitted but a restore warning, and the child's
/// code is passed on.
pub open spec fn concluding(
    s: SessionView,
    outcome: Result<ReportView, ErrorView>,
    json: bool,
) -> Step<ExecutionView> {
    match outcome {
        Err(e) => (s, Some(failed(e, json))),
        Ok(ReportView::Exec { exit_code, warning, .. }) => (
            s,
            Some(
                ExecutionView {
                    message: match warning {
                        Some(w) => w,
                        None => Seq::empty(),
                    },
                    code: exit_code,
                    is_error: warning is Some,
                },
            ),
        ),
        Ok(report) => {
            let (s, rendered) = output::rendering(s, report, json);
            (
                s,
                match rendered {
                    None => None,
                    Some(message) => Some(
                        ExecutionView { message, code: report.exit_code(), is_error: false },
                    ),
                },
            )
        },
    }
}

/// The backend of the effective settings.
pub open spec fn backend_of(settings: SettingsView) -> BackendView {
    BackendView {
        wg: settings.wg,
        wg_quick: settings.wg_quick,
        curl: settings.curl,
        ..BackendView::new(settings.config_dir, settings.sudo)
    }
}

/// Running the command against a backend; a command that may change tunnels or
/// configs takes the lock first.
pub open spec fn commanding(s: SessionView, b: BackendView, cli: CliView) -> Step<
    Result<ReportView, ErrorView>,
> {
    if cli.command.mutates() {
        let (s, locked) = lock::acquiring(s, b.config_dir);
        match locked {
            None => (s, None),
            Some(Err(e)) => (s, Some(Err(e))),
            Some(Ok(_)) => cli::dispatching(b, s, cli.command),
        }
    } else {
        cli::dispatching(b, s, cli.command)
    }
}

/// Running the parsed command line.
pub open spec fn executing(s: SessionView, cli: CliView) -> Step<ExecutionView> {
    let (s, loaded) = settings::loading(s, cli.resolved_config_dir());
    match loaded {
        None => (s, None),
        Some(Err(e)) => (s, Some(failed(e, cli.json))),
        Some(Ok(file)) => {
            let (s, commanded) = commanding(s, backend_of(cli.settings(file)), cli);
            match commanded {
                None => (s, None),
                Some(done) => concluding(s, done, cli.json),
            }
        },
    }
}

/// What to emit for an error.
fn fail(err: &Error, json: bool) -> (r: Execution)
    ensures
        r.deep_view() == failed(err.deep_view(), json),
{
    Execution { message: output::render_error(err, json), code: err.exit_code(), is_error: true }
}

/// Emit the outcome of a command.
pub fn conclude(session: &mut Session, done: Result<Report, Error>, json: bool) -> (r: Option<
    Execution,
>)
    requires
        done matches Ok(report) ==> (!json ==> report.deep_view().wf()),
    ensures
        (final(session).deep_view(), r.deep_view()) == concluding(
            old(session).deep_view(),
            outcome(done),
            json,
        ),
{
    match done {
        Err(e) => Some(fail(&e, json)),
        Ok(Report::Exec { exit_code, warning, .. }) => match warning {
            Some(w) => Some(Execution { message: w, code: exit_code, is_error: true }),
            None => Some(Execution { message: String::new(), code: exit_code, is_error: false }),
        },
        Ok(report) => {
            let code: i32 = report.exit_code();
            let message = output::render_report(session, report, json)?;
            Some(Execution { message, code, is_error: false })
        },
    }
}

/// Run the command against a backend, taking the lock where needed.
fn command(session: &mut Session, backend: &Backend, cli: &Cli) -> (r: Option<
    Result<Report, Error>,
>)
    requires
        cli.deep_view().command.wf(),
    ensures
        (final(session).deep_view(), so_far(r)) == commanding(
            old(session).deep_view(),
            backend.deep_view(),
            cli.deep_view(),
        ),
        r matches Some(Ok(report)) ==> report.deep_view().wf(),
{
    if cli.command.is_mutating() {
        match lock::acquire(session, backend.config_dir())? {
            Err(e) => {
                return Some(Err(e));
            },
            Ok(_) => {},
        }
    }
    cli::dispatch(backend, session, &cli.command)
}

/// Run the parsed command line, returning what to emit; `None` where the
/// session wants a reply first.
///
/// Reads `<config_dir>/config.toml` (if present) to resolve effective settings,
/// takes the lock for a command that may change tunnels or configs, then
/// dispatches.
pub fn execute(session: &mut Session, cli: &Cli) -> (r: Option<Execution>)
    requires
        cli.deep_view().command.wf(),
    ensures
        (final(session).deep_view(), r.deep_view()) == executing(
            old(session).deep_view(),
            cli.deep_view(),
        ),
{
    let config_dir = cli.resolved_config_dir();
    let file = match settings::load(session, &config_dir)? {
        Ok(file) => file,
        Err(e) => {
            return Some(fail(&e, cli.json));
        },
    };
    let effective = cli.settings(&file);
    let backend = Backend::new(effective.config_dir, effective.sudo).with_programs(
        effective.wg,
        effective.wg_quick,
        effective.curl,
    );
    let done = command(session, &backend, cli)?;
    conclude(session, done, cli.json)
}

} // verus!
