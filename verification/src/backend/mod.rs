//! Tunnel operations.
//!
//! Every operation is idempotent and non-interactive so that agents can call
//! them repeatedly without special-casing "already up"/"already down" states.
//!
//! Live state is observed via a single `wg show all dump` per command; tunnels
//! are matched to interfaces by peer identity (public key + allowed-IPs set),
//! which works without `wg-quick`'s root-only name file on macOS.
pub mod config_laws;
pub mod configs;
pub mod doctor;
pub mod laws;
pub mod lifecycle;
pub mod lifecycle_laws;
pub mod live;
pub mod live_laws;
pub mod measure;
pub mod measure_laws;
pub mod recovery;
pub mod recovery_laws;
pub mod safety;
pub mod split;
pub mod split_laws;
pub mod trace;
pub mod trace_commands;
pub mod up_laws;

use vstd::prelude::*;

use crate::dns;
use crate::error::{so_far, Error, ErrorView};
use crate::runner::{CommandOutput, CommandOutputView};
use crate::session::{Session, SessionView, Step};
use crate::status;
use crate::text;

verus! {

/// Time source for lease deadlines; swappable so tests are deterministic.
#[derive(Debug, Clone, Copy, PartialEq, Eq, Structural)]
pub enum Clock {
    /// Real wall-clock time.
    System,
    /// A fixed Unix timestamp.
    Fixed(u64),
}

/// Orchestrates `wg-quick`/`wg`/`curl` for a set of tunnel configs.
#[derive(Debug, PartialEq, Eq)]
pub struct Backend {
    config_dir: String,
    sudo: bool,
    wg: String,
    wg_quick: String,
    curl: String,
    dns_sweeps: Vec<u64>,
    /// Delays (ms) before each `diff` fetch attempt; length = attempt count.
    /// The spacing lets a freshly-activated tunnel finish its handshake before
    /// an in-tunnel DNS lookup, which `probe` sidesteps by hitting an IP.
    diff_retries: Vec<u64>,
    clock: Clock,
}

/// A [`Backend`] with its texts as sequences of characters.
#[verifier::ext_equal]
pub struct BackendView {
    /// The configured tunnel directory.
    pub config_dir: Seq<char>,
    /// Whether to prefix privileged commands with `sudo -n`.
    pub sudo: bool,
    /// The `wg` program.
    pub wg: Seq<char>,
    /// The `wg-quick` program.
    pub wg_quick: Seq<char>,
    /// The `curl` program.
    pub curl: Seq<char>,
    /// Delays (ms) before each DNS-guard sweep.
    pub dns_sweeps: Seq<u64>,
    /// Delays (ms) before each `diff` fetch attempt.
    pub diff_retries: Seq<u64>,
    /// The time source.
    pub clock: Clock,
}

impl DeepView for Backend {
    type V = BackendView;

    closed spec fn deep_view(&self) -> BackendView {
        BackendView {
            config_dir: self.config_dir@,
            sudo: self.sudo,
            wg: self.wg@,
            wg_quick: self.wg_quick@,
            curl: self.curl@,
            dns_sweeps: self.dns_sweeps@,
            diff_retries: self.diff_retries@,
            clock: self.clock,
        }
    }
}

impl BackendView {
    /// A backend with the default programs, schedules and clock.
    pub open spec fn new(config_dir: Seq<char>, sudo: bool) -> BackendView {
        BackendView {
            config_dir,
            sudo,
            wg: "wg"@,
            wg_quick: "wg-quick"@,
            curl: "curl"@,
            dns_sweeps: dns::sweep_schedule(),
            diff_retries: seq![0u64, 800u64, 1600u64],
            clock: Clock::System,
        }
    }

    /// Reading the clock.
    pub open spec fn reading_clock(self, s: SessionView) -> Step<u64> {
        match self.clock {
            Clock::System => s.now(),
            Clock::Fixed(t) => (s, Some(t)),
        }
    }

    /// Running a privileged program.
    pub open spec fn running(self, s: SessionView, program: Seq<char>, args: Seq<Seq<char>>) -> Step<
        Result<CommandOutputView, ErrorView>,
    > {
        let (full, full_args) = full_command(self.sudo, program, args);
        let (s, ran) = s.run(full, full_args);
        (
            s,
            match ran {
                None => None,
                Some(Err(source)) => Some(Err(ErrorView::Spawn { program: full, source })),
                Some(Ok(out)) => Some(Ok(out)),
            },
        )
    }
}

/// The program and arguments to launch, with the optional `sudo -n` prefix
/// (`-n` = never prompt; fail immediately if a password would be required).
pub open spec fn full_command(sudo: bool, program: Seq<char>, args: Seq<Seq<char>>) -> (
    Seq<char>,
    Seq<Seq<char>>,
) {
    if sudo {
        ("sudo"@, seq!["-n"@, program] + args)
    } else {
        (program, args)
    }
}

/// The error of a command that exited non-zero: what it wrote to standard
/// error, or else to standard output.
pub open spec fn failure(program: Seq<char>, out: CommandOutputView) -> ErrorView {
    ErrorView::Backend {
        program,
        code: match out.code {
            Some(code) => code,
            None => -1i32,
        },
        stderr: if text::trim(out.stderr).len() == 0 {
            text::trim(out.stdout)
        } else {
            text::trim(out.stderr)
        },
    }
}

/// Build the `(program, args)` to launch, applying the optional `sudo -n`
/// prefix (`-n` = never prompt; fail immediately if a password would be
/// required).
pub fn command_line(sudo: bool, program: &str, args: &Vec<String>) -> (r: (String, Vec<String>))
    ensures
        r.deep_view() == full_command(sudo, program@, args.deep_view()),
{
    if sudo {
        let mut full = text::list_of_two("-n", program);
        let ghost before = full.deep_view();
        let mut rest = status::copy_texts(args);
        let ghost v = rest.deep_view();
        full.append(&mut rest);
        proof {
            assert(full.deep_view() =~= before + v);
        }
        ("sudo".to_owned(), full)
    } else {
        (program.to_owned(), status::copy_texts(args))
    }
}

/// Turn a failed command's output into a [`Error::Backend`].
pub fn backend_error(program: &str, out: &CommandOutput) -> (r: Error)
    ensures
        r.deep_view() == failure(program@, out.deep_view()),
{
    let complaint = text::text_trim(&out.stderr);
    let detail = if complaint.as_str().is_empty() {
        text::text_trim(&out.stdout)
    } else {
        complaint
    };
    let code: i32 = match out.code {
        Some(code) => code,
        None => -1,
    };
    Error::Backend { program: program.to_owned(), code, stderr: detail }
}

impl Backend {
    /// Create a backend for the tunnels in `config_dir`; `sudo` prefixes the
    /// privileged (`wg`/`wg-quick`) commands with `sudo -n`.
    ///
    /// Programs default to bare names (resolved via `PATH`); override them with
    /// [`Backend::with_programs`] when `PATH` is unreliable (e.g. under `sudo`,
    /// which drops Homebrew's `/opt/homebrew/bin`).
    pub fn new(config_dir: String, sudo: bool) -> (r: Self)
        ensures
            r.deep_view() == BackendView::new(config_dir@, sudo),
    {
        let mut diff_retries: Vec<u64> = Vec::new();
        diff_retries.push(0);
        diff_retries.push(800);
        diff_retries.push(1600);
        let r = Backend {
            config_dir,
            sudo,
            wg: "wg".to_owned(),
            wg_quick: "wg-quick".to_owned(),
            curl: "curl".to_owned(),
            dns_sweeps: dns::sweep_delays_ms(),
            diff_retries,
            clock: Clock::System,
        };
        proof {
            assert(r.deep_view() =~= BackendView::new(config_dir@, sudo));
        }
        r
    }

    /// Override the `diff` fetch retry schedule.
    pub fn with_diff_retries(self, delays_ms: Vec<u64>) -> (r: Self)
        ensures
            r.deep_view() == (BackendView { diff_retries: delays_ms@, ..self.deep_view() }),
    {
        let mut r = self;
        r.diff_retries = delays_ms;
        r
    }

    /// Override the DNS-guard sweep schedule (delays in ms before each
    /// verification sweep after a teardown).
    pub fn with_dns_sweeps(self, sweep_delays_ms: Vec<u64>) -> (r: Self)
        ensures
            r.deep_view() == (BackendView { dns_sweeps: sweep_delays_ms@, ..self.deep_view() }),
    {
        let mut r = self;
        r.dns_sweeps = sweep_delays_ms;
        r
    }

    /// Pin the clock to a fixed Unix timestamp (for lease determinism).
    pub fn with_fixed_time(self, now: u64) -> (r: Self)
        ensures
            r.deep_view() == (BackendView { clock: Clock::Fixed(now), ..self.deep_view() }),
    {
        let mut r = self;
        r.clock = Clock::Fixed(now);
        r
    }

    /// Override the `wg`, `wg-quick` and `curl` program paths (absolute paths
    /// survive `sudo`'s `PATH` scrubbing).
    pub fn with_programs(self, wg: String, wg_quick: String, curl: String) -> (r: Self)
        ensures
            r.deep_view() == (BackendView {
                wg: wg@,
                wg_quick: wg_quick@,
                curl: curl@,
                ..self.deep_view()
            }),
    {
        let mut r = self;
        r.wg = wg;
        r.wg_quick = wg_quick;
        r.curl = curl;
        r
    }

    /// The configured tunnel directory.
    pub fn config_dir(&self) -> (r: &str)
        ensures
            r@ == self.deep_view().config_dir,
    {
        self.config_dir.as_str()
    }

    /// The current time.
    fn now(&self, session: &mut Session) -> (r: Option<u64>)
        ensures
            (final(session).deep_view(), r) == self.deep_view().reading_clock(
                old(session).deep_view(),
            ),
    {
        match self.clock {
            Clock::System => session.now(),
            Clock::Fixed(t) => Some(t),
        }
    }

    /// Run a privileged backend program, applying the `sudo -n` prefix when
    /// configured (`-n` fails fast instead of prompting for a password).
    fn exec(&self, session: &mut Session, program: &str, args: &Vec<String>) -> (r: Option<
        Result<CommandOutput, Error>,
    >)
        ensures
            (final(session).deep_view(), so_far(r)) == self.deep_view().running(
                old(session).deep_view(),
                program@,
                args.deep_view(),
            ),
    {
        let (full, full_args) = command_line(self.sudo, program, args);
        match session.run(&full, full_args)? {
            Err(source) => Some(Err(Error::Spawn { program: full, source })),
            Ok(out) => Some(Ok(out)),
        }
    }
}

/// The outcome of `vpn down`.
#[derive(Debug, PartialEq, Eq)]
pub struct DownOutcome {
    /// `true` if this call changed state (was up, now down).
    pub changed: bool,
    /// Network services whose stale VPN DNS the guard cleared (reset to DHCP).
    pub dns_cleared: Vec<String>,
    /// Non-fatal DNS-guard problem (stale DNS seen but not cleanly cleared).
    pub dns_warning: Option<String>,
}

/// A [`DownOutcome`] with its texts as sequences of characters.
#[verifier::ext_equal]
pub struct DownOutcomeView {
    /// Whether this call changed state.
    pub changed: bool,
    /// Network services whose DNS was cleared.
    pub dns_cleared: Seq<Seq<char>>,
    /// Non-fatal DNS-guard problem.
    pub dns_warning: Option<Seq<char>>,
}

impl DeepView for DownOutcome {
    type V = DownOutcomeView;

    open spec fn deep_view(&self) -> DownOutcomeView {
        DownOutcomeView {
            changed: self.changed,
            dns_cleared: self.dns_cleared.deep_view(),
            dns_warning: self.dns_warning.deep_view(),
        }
    }
}

/// One tunnel (or interface) that reconciliation or recovery restored.
#[derive(Debug, PartialEq, Eq)]
pub struct Recovered {
    /// Tunnel name, or interface name for an orphan with no journal.
    pub tunnel: String,
    /// Why it needed recovery (human-readable).
    pub reason: String,
    /// Network services whose DNS was restored/cleared.
    pub dns_cleared: Vec<String>,
    /// Non-fatal DNS problem during recovery.
    pub dns_warning: Option<String>,
}

/// A [`Recovered`] with its texts as sequences of characters.
#[verifier::ext_equal]
pub struct RecoveredView {
    /// Tunnel or interface name.
    pub tunnel: Seq<char>,
    /// Why it needed recovery.
    pub reason: Seq<char>,
    /// Network services whose DNS was restored/cleared.
    pub dns_cleared: Seq<Seq<char>>,
    /// Non-fatal DNS problem.
    pub dns_warning: Option<Seq<char>>,
}

impl DeepView for Recovered {
    type V = RecoveredView;

    open spec fn deep_view(&self) -> RecoveredView {
        RecoveredView {
            tunnel: self.tunnel@,
            reason: self.reason@,
            dns_cleared: self.dns_cleared.deep_view(),
            dns_warning: self.dns_warning.deep_view(),
        }
    }
}

/// The result of `vpn verify`: whether the host network is consistent, and any
/// problems found.
#[derive(Debug, PartialEq, Eq)]
pub struct HealthReport {
    /// `true` when no issues were found.
    pub healthy: bool,
    /// Everything inconsistent about the current host state.
    pub issues: Vec<HealthIssue>,
}

/// A [`HealthReport`] with its texts as sequences of characters.
#[verifier::ext_equal]
pub struct HealthReportView {
    /// `true` when no issues were found.
    pub healthy: bool,
    /// Everything inconsistent.
    pub issues: Seq<HealthIssueView>,
}

impl DeepView for HealthReport {
    type V = HealthReportView;

    open spec fn deep_view(&self) -> HealthReportView {
        HealthReportView { healthy: self.healthy, issues: self.issues.deep_view() }
    }
}

/// One host-health problem.
#[derive(Debug, PartialEq, Eq)]
pub struct HealthIssue {
    /// Category slug (`orphan`, `dns`).
    pub kind: &'static str,
    /// Human-readable explanation with a fix hint.
    pub detail: String,
}

/// A [`HealthIssue`] with its texts as sequences of characters.
pub struct HealthIssueView {
    /// Category slug.
    pub kind: Seq<char>,
    /// Human-readable explanation.
    pub detail: Seq<char>,
}

impl DeepView for HealthIssue {
    type V = HealthIssueView;

    open spec fn deep_view(&self) -> HealthIssueView {
        HealthIssueView { kind: self.kind@, detail: self.detail@ }
    }
}

/// One environment check performed by `vpn doctor`.
#[derive(Debug, PartialEq, Eq)]
pub struct Check {
    /// What was checked.
    pub name: String,
    /// Whether the check passed.
    pub ok: bool,
    /// Human-readable outcome or fix hint.
    pub detail: String,
}

/// A [`Check`] with its texts as sequences of characters.
pub struct CheckView {
    /// What was checked.
    pub name: Seq<char>,
    /// Whether the check passed.
    pub ok: bool,
    /// Human-readable outcome or fix hint.
    pub detail: Seq<char>,
}

impl DeepView for Check {
    type V = CheckView;

    open spec fn deep_view(&self) -> CheckView {
        CheckView { name: self.name@, ok: self.ok, detail: self.detail@ }
    }
}

/// The outcome of running a command through a tunnel via `vpn exec`.
#[derive(Debug, PartialEq, Eq)]
pub struct ExecOutcome {
    /// Tunnel name the command ran through.
    pub name: String,
    /// Whether the tunnel was brought up for this run (and torn down after).
    pub activated: bool,
    /// The child's exit code (`1` if it was killed by a signal).
    pub exit_code: i32,
    /// Non-fatal problem (e.g. the tunnel state could not be restored).
    pub warning: Option<String>,
}

/// An [`ExecOutcome`] with its texts as sequences of characters.
pub struct ExecOutcomeView {
    /// Tunnel name.
    pub name: Seq<char>,
    /// Whether the tunnel was brought up for this run.
    pub activated: bool,
    /// The child's exit code.
    pub exit_code: i32,
    /// Non-fatal problem.
    pub warning: Option<Seq<char>>,
}

impl DeepView for ExecOutcome {
    type V = ExecOutcomeView;

    open spec fn deep_view(&self) -> ExecOutcomeView {
        ExecOutcomeView {
            name: self.name@,
            activated: self.activated,
            exit_code: self.exit_code,
            warning: self.warning.deep_view(),
        }
    }
}

} // verus!
