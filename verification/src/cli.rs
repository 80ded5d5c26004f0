//! The command line: its settings and the dispatch of its commands.
use vstd::prelude::*;

use crate::backend::measure::named_option;
use crate::backend::{Backend, BackendView};
use crate::config;
use crate::diff;
use crate::error::{so_far, Error, ErrorView};
use crate::output::{Report, ReportView};
use crate::session::{Session, SessionView, Step};
use crate::settings::{FileConfig, FileConfigView};
use crate::status;
use crate::status::TunnelStatus;
use crate::text;

verus! {

/// Agent-first, provider-agnostic WireGuard tunnel manager.
#[derive(Debug, PartialEq, Eq)]
pub struct Cli {
    /// Emit machine-readable JSON instead of human text.
    pub json: bool,
    /// Directory holding `<name>.conf` WireGuard files
    /// (default: `$HOME/.config/vpn`).
    pub config_dir: Option<String>,
    /// The value of `$HOME`, where it is set.
    pub home: Option<String>,
    /// Prefix privileged commands with `sudo -n`.
    pub sudo: bool,
    /// Path to the `wg` binary (use an absolute path when running under `sudo`).
    /// [default: wg]
    pub wg: Option<String>,
    /// Path to the `wg-quick` binary (absolute is safest under `sudo`).
    /// [default: wg-quick]
    pub wg_quick: Option<String>,
    /// Path to the `curl` binary used by `probe`. [default: curl]
    pub curl: Option<String>,
    /// The command to run.
    pub command: Command,
}

/// A [`Cli`] with its texts as sequences of characters.
#[verifier::ext_equal]
pub struct CliView {
    /// Emit JSON.
    pub json: bool,
    /// The config directory, where given.
    pub config_dir: Option<Seq<char>>,
    /// The value of `$HOME`, where it is set.
    pub home: Option<Seq<char>>,
    /// Prefix privileged commands with `sudo -n`.
    pub sudo: bool,
    /// The `wg` binary, where given.
    pub wg: Option<Seq<char>>,
    /// The `wg-quick` binary, where given.
    pub wg_quick: Option<Seq<char>>,
    /// The `curl` binary, where given.
    pub curl: Option<Seq<char>>,
    /// The command to run.
    pub command: CommandView,
}

impl DeepView for Cli {
    type V = CliView;

    open spec fn deep_view(&self) -> CliView {
        CliView {
            json: self.json,
            config_dir: self.config_dir.deep_view(),
            home: self.home.deep_view(),
            sudo: self.sudo,
            wg: self.wg.deep_view(),
            wg_quick: self.wg_quick.deep_view(),
            curl: self.curl.deep_view(),
            command: self.command.deep_view(),
        }
    }
}

/// Effective settings after layering flags/env over the config file over the
/// built-in defaults.
#[derive(Debug, PartialEq, Eq)]
pub struct Settings {
    /// Resolved config directory.
    pub config_dir: String,
    /// Whether to prefix privileged commands with `sudo -n`.
    pub sudo: bool,
    /// Resolved `wg` binary path.
    pub wg: String,
    /// Resolved `wg-quick` binary path.
    pub wg_quick: String,
    /// Resolved `curl` binary path.
    pub curl: String,
}

/// [`Settings`] with their texts as sequences of characters.
#[verifier::ext_equal]
pub struct SettingsView {
    /// Resolved config directory.
    pub config_dir: Seq<char>,
    /// Whether to prefix privileged commands with `sudo -n`.
    pub sudo: bool,
    /// Resolved `wg` binary path.
    pub wg: Seq<char>,
    /// Resolved `wg-quick` binary path.
    pub wg_quick: Seq<char>,
    /// Resolved `curl` binary path.
    pub curl: Seq<char>,
}

impl DeepView for Settings {
    type V = SettingsView;

    open spec fn deep_view(&self) -> SettingsView {
        SettingsView {
            config_dir: self.config_dir@,
            sudo: self.sudo,
            wg: self.wg@,
            wg_quick: self.wg_quick@,
            curl: self.curl@,
        }
    }
}

/// The subcommands vpn understands.
#[derive(Debug, PartialEq, Eq)]
#[allow(inconsistent_fields)]
pub enum Command {
    /// List available tunnels and whether each is up.
    List,
    /// Bring a tunnel up (idempotent).
    Up {
        /// Tunnel name (config file stem).
        name: String,
        /// Seconds after which the tunnel is torn down by the next command.
        lease: Option<u64>,
    },
    /// Bring a tunnel down (idempotent).
    Down {
        /// Tunnel name (config file stem).
        name: String,
    },
    /// Show detailed status for one tunnel, or all tunnels.
    Status {
        /// Tunnel name; omit for every tunnel.
        name: Option<String>,
    },
    /// Print the names of currently-active tunnels.
    Current,
    /// Send timed requests through a tunnel (or each tunnel in turn) and
    /// report latency; tunnel state is restored afterwards.
    Probe {
        /// Tunnel name; omit to probe every tunnel sequentially and compare.
        name: Option<String>,
        /// URL to request.
        url: String,
        /// Per-request timeout in seconds.
        max_time: u64,
        /// Requests per tunnel; medians over N samples smooth out jitter.
        count: u32,
    },
    /// Run a command with the tunnel up (activating it if needed, restoring
    /// afterwards); the command's stdio streams through and its exit code
    /// becomes vpn's exit code.
    Exec {
        /// Tunnel name (config file stem).
        name: String,
        /// The command to run; always runs unprivileged.
        command: Vec<String>,
    },
    /// Statically check tunnel configs for problems.
    Lint {
        /// Tunnel name; omit to lint every config.
        name: Option<String>,
    },
    /// Validate a WireGuard config file and install it into the config
    /// directory with owner-only permissions.
    Add {
        /// Path to the downloaded `.conf` file.
        path: String,
        /// Tunnel name; defaults to the file's stem.
        name: Option<String>,
        /// Overwrite an existing tunnel / ignore lint errors.
        force: bool,
        /// Install a config although it holds shell hooks.
        allow_hooks: bool,
    },
    /// Generate a split-tunnel sibling config.
    Split {
        /// Source tunnel name.
        name: String,
        /// IPv4 CIDRs to keep OUT of the tunnel.
        exclude: Vec<String>,
        /// Output tunnel name; defaults to `<name>-split`.
        output: Option<String>,
        /// Keep the DNS override.
        keep_dns: bool,
        /// Overwrite an existing output config.
        force: bool,
    },
    /// Diagnose the environment.
    Doctor,
    /// Repair a crashed or stuck host, then verify it.
    Recover,
    /// Assert that the host network is consistent.
    Verify,
    /// Fetch a URL through each location and compare the responses.
    Diff {
        /// URL to request.
        url: String,
        /// Tunnel name; omit to go through every tunnel.
        name: Option<String>,
        /// Per-request timeout in seconds.
        max_time: u64,
    },
}

/// A [`Command`] with its texts as sequences of characters.
#[verifier::ext_equal]
#[allow(inconsistent_fields)]
pub enum CommandView {
    /// List the tunnels.
    List,
    /// Bring a tunnel up.
    Up {
        /// Tunnel name.
        name: Seq<char>,
        /// Seconds after which the tunnel is torn down.
        lease: Option<u64>,
    },
    /// Bring a tunnel down.
    Down {
        /// Tunnel name.
        name: Seq<char>,
    },
    /// Show detailed status.
    Status {
        /// Tunnel name.
        name: Option<Seq<char>>,
    },
    /// Print the active tunnels.
    Current,
    /// Send timed requests.
    Probe {
        /// Tunnel name.
        name: Option<Seq<char>>,
        /// URL to request.
        url: Seq<char>,
        /// Per-request timeout in seconds.
        max_time: u64,
        /// Requests per tunnel.
        count: u32,
    },
    /// Run a command.
    Exec {
        /// Tunnel name.
        name: Seq<char>,
        /// The command to run.
        command: Seq<Seq<char>>,
    },
    /// Check configs.
    Lint {
        /// Tunnel name.
        name: Option<Seq<char>>,
    },
    /// Install a config.
    Add {
        /// Path to the config file.
        path: Seq<char>,
        /// Tunnel name.
        name: Option<Seq<char>>,
        /// Overwrite an existing tunnel / ignore lint errors.
        force: bool,
        /// Install a config although it holds shell hooks.
        allow_hooks: bool,
    },
    /// Generate a sibling config.
    Split {
        /// Source tunnel name.
        name: Seq<char>,
        /// IPv4 CIDRs to keep out of the tunnel.
        exclude: Seq<Seq<char>>,
        /// Output tunnel name.
        output: Option<Seq<char>>,
        /// Keep the DNS override.
        keep_dns: bool,
        /// Overwrite an existing output config.
        force: bool,
    },
    /// Diagnose the environment.
    Doctor,
    /// Repair the host.
    Recover,
    /// Assert that the host is consistent.
    Verify,
    /// Compare the locations.
    Diff {
        /// URL to request.
        url: Seq<char>,
        /// Tunnel name.
        name: Option<Seq<char>>,
        /// Per-request timeout in seconds.
        max_time: u64,
    },
}

impl DeepView for Command {
    type V = CommandView;

    open spec fn deep_view(&self) -> CommandView {
        match self {
            Command::List => CommandView::List,
            Command::Up { name, lease } => CommandView::Up { name: name@, lease: *lease },
            Command::Down { name } => CommandView::Down { name: name@ },
            Command::Status { name } => CommandView::Status { name: name.deep_view() },
            Command::Current => CommandView::Current,
            Command::Probe { name, url, max_time, count } => CommandView::Probe {
                name: name.deep_view(),
                url: url@,
                max_time: *max_time,
                count: *count,
            },
            Command::Exec { name, command } => CommandView::Exec {
                name: name@,
                command: command.deep_view(),
            },
            Command::Lint { name } => CommandView::Lint { name: name.deep_view() },
            Command::Add { path, name, force, allow_hooks } => CommandView::Add {
                path: path@,
                name: name.deep_view(),
                force: *force,
                allow_hooks: *allow_hooks,
            },
            Command::Split { name, exclude, output, keep_dns, force } => CommandView::Split {
                name: name@,
                exclude: exclude.deep_view(),
                output: output.deep_view(),
                keep_dns: *keep_dns,
                force: *force,
            },
            Command::Doctor => CommandView::Doctor,
            Command::Recover => CommandView::Recover,
            Command::Verify => CommandView::Verify,
            Command::Diff { url, name, max_time } => CommandView::Diff {
                url: url@,
                name: name.deep_view(),
                max_time: *max_time,
            },
        }
    }
}

impl CommandView {
    /// Whether the command is complete: `exec` names a program to run.
    pub open spec fn wf(self) -> bool {
        self matches CommandView::Exec { command, .. } ==> command.len() > 0
    }

    /// Whether the command may change tunnels or configs, and so must not run
    /// at the same time as another.
    pub open spec fn mutates(self) -> bool {
        match self {
            CommandView::List => false,
            CommandView::Status { .. } => false,
            CommandView::Current => false,
            CommandView::Lint { .. } => false,
            CommandView::Doctor => false,
            CommandView::Verify => false,
            _ => true,
        }
    }
}

impl Command {
    /// Whether the command may change tunnels or configs, and so must not run
    /// at the same time as another.
    pub fn is_mutating(&self) -> (r: bool)
        ensures
            r == self.deep_view().mutates(),
    {
        match self {
            Command::List => false,
            Command::Status { .. } => false,
            Command::Current => false,
            Command::Lint { .. } => false,
            Command::Doctor => false,
            Command::Verify => false,
            _ => true,
        }
    }
}

// ---------------------------------------------------------------------------
// Settings
// ---------------------------------------------------------------------------

/// The default config directory for a value of `$HOME`.
pub open spec fn home_config_dir(home: Option<Seq<char>>) -> Seq<char> {
    match home {
        Some(h) => config::path_in(config::path_in(h, ".config"@), "vpn"@),
        None => config::path_in(".config"@, "vpn"@),
    }
}

/// Compute the default config directory from an explicit `$HOME` value, falling
/// back to a relative `.config/vpn` when `$HOME` is unset.
pub fn config_dir_for_home(home: Option<&str>) -> (r: String)
    ensures
        r@ == home_config_dir(named_option(home)),
{
    match home {
        Some(h) => {
            let dir = config::join_path(h, ".config");
            config::join_path(&dir, "vpn")
        },
        None => config::join_path(".config", "vpn"),
    }
}

/// The first of two values that is there, or else the last one.
pub open spec fn layered(
    flag: Option<Seq<char>>,
    file: Option<Seq<char>>,
    default: Seq<char>,
) -> Seq<char> {
    match flag {
        Some(v) => v,
        None => match file {
            Some(v) => v,
            None => default,
        },
    }
}

impl CliView {
    /// The config directory to use.
    pub open spec fn resolved_config_dir(self) -> Seq<char> {
        match self.config_dir {
            Some(dir) => dir,
            None => home_config_dir(self.home),
        }
    }

    /// The effective settings.
    pub open spec fn settings(self, file: FileConfigView) -> SettingsView {
        SettingsView {
            config_dir: self.resolved_config_dir(),
            sudo: self.sudo || file.sudo == Some(true),
            wg: layered(self.wg, file.wg, "wg"@),
            wg_quick: layered(self.wg_quick, file.wg_quick, "wg-quick"@),
            curl: layered(self.curl, file.curl, "curl"@),
        }
    }
}

/// A text that may be missing, borrowed.
fn borrow_option(name: &Option<String>) -> (r: Option<&str>)
    ensures
        named_option(r) == name.deep_view(),
{
    match name {
        Some(n) => Some(n.as_str()),
        None => None,
    }
}

/// The first of two values that is there, or else the last one.
fn layer(flag: &Option<String>, file: &Option<String>, default: &str) -> (r: String)
    ensures
        r@ == layered(flag.deep_view(), file.deep_view(), default@),
{
    match flag {
        Some(v) => v.clone(),
        None => match file {
            Some(v) => v.clone(),
            None => default.to_owned(),
        },
    }
}

impl Cli {
    /// The config directory to use, applying the `$HOME`-based default.
    pub fn resolved_config_dir(&self) -> (r: String)
        ensures
            r@ == self.deep_view().resolved_config_dir(),
    {
        match &self.config_dir {
            Some(dir) => dir.clone(),
            None => config_dir_for_home(borrow_option(&self.home)),
        }
    }

    /// Resolve effective settings. Precedence for each value: command-line flag
    /// or env var → config file → built-in default.
    pub fn settings(&self, file: &FileConfig) -> (r: Settings)
        ensures
            r.deep_view() == self.deep_view().settings(file.deep_view()),
    {
        let file_sudo = match file.sudo {
            Some(b) => b,
            None => false,
        };
        Settings {
            config_dir: self.resolved_config_dir(),
            sudo: self.sudo || file_sudo,
            wg: layer(&self.wg, &file.wg, "wg"),
            wg_quick: layer(&self.wg_quick, &file.wg_quick, "wg-quick"),
            curl: layer(&self.curl, &file.curl, "curl"),
        }
    }
}

// ---------------------------------------------------------------------------
// Leases
// ---------------------------------------------------------------------------

/// The number of seconds in a unit of time: `s`, `m`, `h` or `d`.
pub open spec fn unit_seconds(c: char) -> Option<nat> {
    if c == 's' {
        Some(1)
    } else if c == 'm' {
        Some(60)
    } else if c == 'h' {
        Some(3600)
    } else if c == 'd' {
        Some(86400)
    } else {
        None
    }
}

/// The number of seconds of a duration such as `30m`; a bare number is one of
/// seconds.
pub open spec fn lease_seconds(s: Seq<char>) -> Option<u64> {
    let (digits, unit) = if s.len() > 0 && unit_seconds(s.last()) is Some {
        (s.drop_last(), unit_seconds(s.last())->0)
    } else {
        (s, 1nat)
    };
    match text::parse_number(digits, u64::MAX as nat) {
        Some(n) => if n * unit <= u64::MAX {
            Some((n * unit) as u64)
        } else {
            None
        },
        None => None,
    }
}

/// What is said of a lease that is none.
pub open spec fn lease_refusal(s: Seq<char>) -> Seq<char> {
    "invalid duration '"@ + s
        + "': expected a number of seconds or one with the unit s, m, h or d"@
}

/// Read a duration such as `30m`.
pub fn parse_lease(s: &str) -> (r: Result<u64, String>)
    ensures
        (match r {
            Ok(n) => lease_seconds(s@) == Some(n),
            Err(e) => lease_seconds(s@) is None && e@ == lease_refusal(s@),
        }),
{
    let chars = text::chars_of(s);
    let n: usize = chars.len();
    let mut unit: u64 = 1;
    let mut end: usize = n;
    if n > 0 {
        let last = chars[n - 1];
        if last == 's' || last == 'm' || last == 'h' || last == 'd' {
            unit = if last == 's' {
                1
            } else if last == 'm' {
                60
            } else if last == 'h' {
                3600
            } else {
                86400
            };
            end = n - 1;
        }
    }
    let digits = text::text_of(&chars, 0, end);
    proof {
        if end < n {
            assert(s@.subrange(0, end as int) =~= s@.drop_last());
        } else {
            assert(s@.subrange(0, end as int) =~= s@);
        }
    }
    match text::text_parse(&digits, u64::MAX) {
        Some(count) => match count.checked_mul(unit) {
            Some(total) => {
                return Ok(total);
            },
            None => {},
        },
        None => {},
    }
    let mut message = "invalid duration '".to_owned();
    message.append(s);
    message.append("': expected a number of seconds or one with the unit s, m, h or d");
    Err(message)
}

// ---------------------------------------------------------------------------
// Dispatch
// ---------------------------------------------------------------------------

/// An operation whose result becomes a report.
pub open spec fn reporting<T>(
    step: Step<Result<T, ErrorView>>,
    report: spec_fn(T) -> ReportView,
) -> Step<Result<ReportView, ErrorView>> {
    (
        step.0,
        match step.1 {
            None => None,
            Some(Err(e)) => Some(Err(e)),
            Some(Ok(v)) => Some(Ok(report(v))),
        },
    )
}

/// Recovering, and then verifying.
pub open spec fn recovering_and_verifying(b: BackendView, s: SessionView) -> Step<
    Result<ReportView, ErrorView>,
> {
    let (s, recovered) = b.recovering(s);
    match recovered {
        None => (s, None),
        Some(Err(e)) => (s, Some(Err(e))),
        Some(Ok(recovered)) => reporting(
            b.verifying(s),
            |health| ReportView::Recover { recovered, health },
        ),
    }
}

/// Executing a command.
#[verifier::opaque]
pub open spec fn dispatching(b: BackendView, s: SessionView, command: CommandView) -> Step<
    Result<ReportView, ErrorView>,
> {
    match command {
        CommandView::List => reporting(
            b.listing(s),
            |tunnels| ReportView::List { config_dir: b.config_dir, tunnels },
        ),
        CommandView::Up { name, lease } => reporting(
            b.upping(s, name, lease),
            |r: (bool, _)| ReportView::Up { name, changed: r.0, status: r.1 },
        ),
        CommandView::Down { name } => reporting(
            b.downing(s, name),
            |r: crate::backend::DownOutcomeView|
                ReportView::Down {
                    name,
                    changed: r.changed,
                    dns_cleared: r.dns_cleared,
                    dns_warning: r.dns_warning,
                },
        ),
        CommandView::Status { name } => match name {
            Some(n) => reporting(
                b.checking_one(s, n),
                |status| ReportView::Status { tunnels: seq![status] },
            ),
            None => reporting(b.checking_all(s), |tunnels| ReportView::Status { tunnels }),
        },
        CommandView::Current => reporting(
            b.naming_active(s),
            |active| ReportView::Current { active },
        ),
        CommandView::Probe { name, url, max_time, count } => reporting(
            b.probing(s, name, url, max_time, count),
            |results| ReportView::Probe { results },
        ),
        CommandView::Exec { name, command } => reporting(
            b.executing(s, name, command),
            |r: crate::backend::ExecOutcomeView|
                ReportView::Exec {
                    name: r.name,
                    activated: r.activated,
                    exit_code: r.exit_code,
                    warning: r.warning,
                },
        ),
        CommandView::Lint { name } => reporting(
            b.linting(s, name),
            |results| ReportView::Lint { results },
        ),
        CommandView::Add { path, name, force, allow_hooks } => reporting(
            b.adding(s, path, name, force, allow_hooks),
            |r: (Seq<char>, Seq<char>, crate::lint::LintResultView)|
                ReportView::Add { name: r.0, path: r.1, lint: r.2 },
        ),
        CommandView::Split { name, exclude, output, keep_dns, force } => reporting(
            b.splitting(s, name, exclude, output, keep_dns, force),
            |r: (Seq<char>, Seq<char>, usize)|
                ReportView::Split { source: name, name: r.0, path: r.1, entries: r.2 },
        ),
        CommandView::Doctor => {
            let (s, checks) = b.diagnosing(s);
            (
                s,
                match checks {
                    None => None,
                    Some(checks) => Some(Ok(ReportView::Doctor { checks })),
                },
            )
        },
        CommandView::Recover => recovering_and_verifying(b, s),
        CommandView::Verify => reporting(b.verifying(s), |health| ReportView::Verify { health }),
        CommandView::Diff { url, name, max_time } => reporting(
            b.diffing(s, name, url, max_time),
            |results| ReportView::Diff { url, results, diffs: diff::differences(results) },
        ),
    }
}

/// List the tunnels.
fn show_list(backend: &Backend, session: &mut Session) -> (r: Option<Result<Report, Error>>)
    ensures
        (final(session).deep_view(), so_far(r)) == dispatching(
            backend.deep_view(),
            old(session).deep_view(),
            CommandView::List,
        ),
        r matches Some(Ok(report)) ==> report.deep_view().wf(),
{
    proof {
        reveal(dispatching);
    }
    match backend.list(session)? {
        Ok(tunnels) => Some(
            Ok(Report::List { config_dir: backend.config_dir().to_owned(), tunnels }),
        ),
        Err(e) => Some(Err(e)),
    }
}

/// Bring a tunnel up.
fn bring_up(
    backend: &Backend,
    session: &mut Session,
    name: &String,
    lease: Option<u64>,
) -> (r: Option<Result<Report, Error>>)
    ensures
        (final(session).deep_view(), so_far(r)) == dispatching(
            backend.deep_view(),
            old(session).deep_view(),
            CommandView::Up { name: name@, lease },
        ),
        r matches Some(Ok(report)) ==> report.deep_view().wf(),
{
    proof {
        reveal(dispatching);
    }
    match backend.up_with_lease(session, name, lease)? {
        Ok((changed, status)) => Some(Ok(Report::Up { name: name.clone(), changed, status })),
        Err(e) => Some(Err(e)),
    }
}

/// Bring a tunnel down.
fn bring_down(
    backend: &Backend,
    session: &mut Session,
    name: &String,
) -> (r: Option<Result<Report, Error>>)
    ensures
        (final(session).deep_view(), so_far(r)) == dispatching(
            backend.deep_view(),
            old(session).deep_view(),
            CommandView::Down { name: name@ },
        ),
        r matches Some(Ok(report)) ==> report.deep_view().wf(),
{
    proof {
        reveal(dispatching);
    }
    match backend.down(session, name)? {
        Ok(outcome) => Some(
            Ok(
                Report::Down {
                    name: name.clone(),
                    changed: outcome.changed,
                    dns_cleared: outcome.dns_cleared,
                    dns_warning: outcome.dns_warning,
                },
            ),
        ),
        Err(e) => Some(Err(e)),
    }
}

/// Show the status of one tunnel, or of all.
fn show_status(
    backend: &Backend,
    session: &mut Session,
    name: &Option<String>,
) -> (r: Option<Result<Report, Error>>)
    ensures
        (final(session).deep_view(), so_far(r)) == dispatching(
            backend.deep_view(),
            old(session).deep_view(),
            CommandView::Status { name: name.deep_view() },
        ),
        r matches Some(Ok(report)) ==> report.deep_view().wf(),
{
    proof {
        reveal(dispatching);
    }
    match name {
        Some(n) => match backend.status_one(session, n)? {
            Ok(status) => {
                let ghost v = status.deep_view();
                let mut tunnels: Vec<TunnelStatus> = Vec::new();
                tunnels.push(status);
                proof {
                    assert(tunnels.deep_view() =~= seq![v]);
                }
                Some(Ok(Report::Status { tunnels }))
            },
            Err(e) => Some(Err(e)),
        },
        None => match backend.status_all(session)? {
            Ok(tunnels) => Some(Ok(Report::Status { tunnels })),
            Err(e) => Some(Err(e)),
        },
    }
}

/// Name the active tunnels.
fn show_current(backend: &Backend, session: &mut Session) -> (r: Option<Result<Report, Error>>)
    ensures
        (final(session).deep_view(), so_far(r)) == dispatching(
            backend.deep_view(),
            old(session).deep_view(),
            CommandView::Current,
        ),
        r matches Some(Ok(report)) ==> report.deep_view().wf(),
{
    proof {
        reveal(dispatching);
    }
    match backend.current(session)? {
        Ok(active) => Some(Ok(Report::Current { active })),
        Err(e) => Some(Err(e)),
    }
}

/// Send timed requests.
fn run_probe(backend: &Backend, session: &mut Session,
    name: &Option<String>,
    url: &String,
    max_time: u64,
    count: u32,
) -> (r: Option<Result<Report, Error>>)
    ensures
        (final(session).deep_view(), so_far(r)) == dispatching(
            backend.deep_view(),
            old(session).deep_view(),
            CommandView::Probe { name: name.deep_view(), url: url@, max_time, count },
        ),
        r matches Some(Ok(report)) ==> report.deep_view().wf(),
{
    proof {
        reveal(dispatching);
    }
    proof {
        backend.deep_view().lemma_probes_timed(
            session.deep_view(),
            name.deep_view(),
            url@,
            max_time,
            count,
        );
    }
    match backend.probe(session, borrow_option(name), url, max_time, count)? {
        Ok(results) => Some(Ok(Report::Probe { results })),
        Err(e) => Some(Err(e)),
    }
}

/// Run a command through a tunnel.
fn run_exec(
    backend: &Backend,
    session: &mut Session,
    name: &String,
    command: &Vec<String>,
) -> (r: Option<Result<Report, Error>>)
    requires
        command@.len() > 0,
    ensures
        (final(session).deep_view(), so_far(r)) == dispatching(
            backend.deep_view(),
            old(session).deep_view(),
            CommandView::Exec { name: name@, command: command.deep_view() },
        ),
        r matches Some(Ok(report)) ==> report.deep_view().wf(),
{
    proof {
        reveal(dispatching);
    }
    match backend.exec_through(session, name, command)? {
        Ok(outcome) => Some(
            Ok(
                Report::Exec {
                    name: outcome.name,
                    activated: outcome.activated,
                    exit_code: outcome.exit_code,
                    warning: outcome.warning,
                },
            ),
        ),
        Err(e) => Some(Err(e)),
    }
}

/// Check configs.
fn run_lint(
    backend: &Backend,
    session: &mut Session,
    name: &Option<String>,
) -> (r: Option<Result<Report, Error>>)
    ensures
        (final(session).deep_view(), so_far(r)) == dispatching(
            backend.deep_view(),
            old(session).deep_view(),
            CommandView::Lint { name: name.deep_view() },
        ),
        r matches Some(Ok(report)) ==> report.deep_view().wf(),
{
    proof {
        reveal(dispatching);
    }
    match backend.lint(session, borrow_option(name))? {
        Ok(results) => Some(Ok(Report::Lint { results })),
        Err(e) => Some(Err(e)),
    }
}

/// Install a config.
fn run_add(backend: &Backend, session: &mut Session,
    path: &String,
    name: &Option<String>,
    force: bool,
    allow_hooks: bool,
) -> (r: Option<Result<Report, Error>>)
    ensures
        (final(session).deep_view(), so_far(r)) == dispatching(
            backend.deep_view(),
            old(session).deep_view(),
            CommandView::Add { path: path@, name: name.deep_view(), force, allow_hooks },
        ),
        r matches Some(Ok(report)) ==> report.deep_view().wf(),
{
    proof {
        reveal(dispatching);
    }
    match backend.add(session, path, borrow_option(name), force, allow_hooks)? {
        Ok((name, dest, lint)) => Some(Ok(Report::Add { name, path: dest, lint })),
        Err(e) => Some(Err(e)),
    }
}

/// Generate a sibling config.
fn run_split(backend: &Backend, session: &mut Session,
    name: &String,
    exclude: &Vec<String>,
    output: &Option<String>,
    keep_dns: bool,
    force: bool,
) -> (r: Option<Result<Report, Error>>)
    ensures
        (final(session).deep_view(), so_far(r)) == dispatching(
            backend.deep_view(),
            old(session).deep_view(),
            CommandView::Split {
                name: name@,
                exclude: exclude.deep_view(),
                output: output.deep_view(),
                keep_dns,
                force,
            },
        ),
        r matches Some(Ok(report)) ==> report.deep_view().wf(),
{
    proof {
        reveal(dispatching);
    }
    match backend.split(session, name, exclude, borrow_option(output), keep_dns, force)? {
        Ok((out_name, dest, entries)) => Some(
            Ok(Report::Split { source: name.clone(), name: out_name, path: dest, entries }),
        ),
        Err(e) => Some(Err(e)),
    }
}

/// Diagnose the environment.
fn run_doctor(backend: &Backend, session: &mut Session) -> (r: Option<Result<Report, Error>>)
    ensures
        (final(session).deep_view(), so_far(r)) == dispatching(
            backend.deep_view(),
            old(session).deep_view(),
            CommandView::Doctor,
        ),
        r matches Some(Ok(report)) ==> report.deep_view().wf(),
{
    proof {
        reveal(dispatching);
    }
    let checks = backend.doctor(session)?;
    Some(Ok(Report::Doctor { checks }))
}

/// Repair the host, then verify it.
fn run_recover(backend: &Backend, session: &mut Session) -> (r: Option<Result<Report, Error>>)
    ensures
        (final(session).deep_view(), so_far(r)) == dispatching(
            backend.deep_view(),
            old(session).deep_view(),
            CommandView::Recover,
        ),
        r matches Some(Ok(report)) ==> report.deep_view().wf(),
{
    proof {
        reveal(dispatching);
    }
    let recovered = match backend.recover(session)? {
        Ok(recovered) => recovered,
        Err(e) => {
            return Some(Err(e));
        },
    };
    match backend.verify(session)? {
        Ok(health) => Some(Ok(Report::Recover { recovered, health })),
        Err(e) => Some(Err(e)),
    }
}

/// Assert that the host is consistent.
fn run_verify(backend: &Backend, session: &mut Session) -> (r: Option<Result<Report, Error>>)
    ensures
        (final(session).deep_view(), so_far(r)) == dispatching(
            backend.deep_view(),
            old(session).deep_view(),
            CommandView::Verify,
        ),
        r matches Some(Ok(report)) ==> report.deep_view().wf(),
{
    proof {
        reveal(dispatching);
    }
    match backend.verify(session)? {
        Ok(health) => Some(Ok(Report::Verify { health })),
        Err(e) => Some(Err(e)),
    }
}

/// Compare the locations.
fn run_diff(backend: &Backend, session: &mut Session,
    url: &String,
    name: &Option<String>,
    max_time: u64,
) -> (r: Option<Result<Report, Error>>)
    ensures
        (final(session).deep_view(), so_far(r)) == dispatching(
            backend.deep_view(),
            old(session).deep_view(),
            CommandView::Diff { url: url@, name: name.deep_view(), max_time },
        ),
        r matches Some(Ok(report)) ==> report.deep_view().wf(),
{
    proof {
        reveal(dispatching);
    }
    match backend.diff(session, borrow_option(name), url, max_time)? {
        Ok(results) => {
            let diffs = diff::diff_fields(&results);
            Some(Ok(Report::Diff { url: url.clone(), results, diffs }))
        },
        Err(e) => Some(Err(e)),
    }
}

/// Execute `command` against `backend`, producing a [`Report`].
pub fn dispatch(backend: &Backend, session: &mut Session, command: &Command) -> (r: Option<
    Result<Report, Error>,
>)
    requires
        command.deep_view().wf(),
    ensures
        (final(session).deep_view(), so_far(r)) == dispatching(
            backend.deep_view(),
            old(session).deep_view(),
            command.deep_view(),
        ),
        r matches Some(Ok(report)) ==> report.deep_view().wf(),
{
    match command {
        Command::List => show_list(backend, session),
        Command::Up { name, lease } => bring_up(backend, session, name, *lease),
        Command::Down { name } => bring_down(backend, session, name),
        Command::Status { name } => show_status(backend, session, name),
        Command::Current => show_current(backend, session),
        Command::Probe { name, url, max_time, count } => run_probe(
            backend,
            session,
            name,
            url,
            *max_time,
            *count,
        ),
        Command::Exec { name, command } => {
            proof {
                assert(command.deep_view().len() == command@.len());
            }
            run_exec(backend, session, name, command)
        },
        Command::Lint { name } => run_lint(backend, session, name),
        Command::Add { path, name, force, allow_hooks } => run_add(
            backend,
            session,
            path,
            name,
            *force,
            *allow_hooks,
        ),
        Command::Split { name, exclude, output, keep_dns, force } => run_split(
            backend,
            session,
            name,
            exclude,
            output,
            *keep_dns,
            *force,
        ),
        Command::Doctor => run_doctor(backend, session),
        Command::Recover => run_recover(backend, session),
        Command::Verify => run_verify(backend, session),
        Command::Diff { url, name, max_time } => run_diff(backend, session, url, name, *max_time),
    }
}

} // verus!
