//! What a command line asks for, and what is told of it: reports, errors, exit codes.
use vstd::prelude::*;

use crate::backend::{BackendView, Clock, HealthReportView, RecoveredView};
use crate::cli::{
    dispatching, home_config_dir, lease_refusal, lease_seconds, unit_seconds, CliView, CommandView,
    SettingsView,
};
use crate::config;
use crate::diff;
use crate::diff::{FieldDiffView, LocationResultView};
use crate::error::ErrorView;
use crate::json;
use crate::json::ScalarView;
use crate::lint::{FindingView, LintResultView};
use crate::output;
use crate::output::ReportView;
use crate::probe::{ProbeResultView, Timings};
use crate::session::{ActionView, FileTextView, ReplyView, SessionView};
use crate::settings;
use crate::settings::FileConfigView;
use crate::status::{ListEntryView, TunnelStatusView};
use crate::text;
use crate::text_laws;
use crate::{backend_of, commanding, concluding, executing, failed, lock, ExecutionView};

verus! {

// ---------------------------------------------------------------------------
// The command line
// ---------------------------------------------------------------------------

/// A lease is a number of seconds, or of the unit behind it: seconds, minutes, hours or
/// days. One that is too long for the clock is none, and neither is anything else.
pub proof fn law_lease_seconds(n: nat, s: Seq<char>)
    ensures
        ({
            let digits = text::number(n);
            &&& lease_seconds(digits) == if n <= u64::MAX {
                Some(n as u64)
            } else {
                None
            }
            &&& lease_seconds(digits + seq!['s']) == if n <= u64::MAX {
                Some(n as u64)
            } else {
                None
            }
            &&& lease_seconds(digits + seq!['m']) == if n * 60 <= u64::MAX {
                Some((n * 60) as u64)
            } else {
                None
            }
            &&& lease_seconds(digits + seq!['h']) == if n * 3600 <= u64::MAX {
                Some((n * 3600) as u64)
            } else {
                None
            }
            &&& lease_seconds(digits + seq!['d']) == if n * 86400 <= u64::MAX {
                Some((n * 86400) as u64)
            } else {
                None
            }
        }),
        s.len() > 0 && s.last() != 's' && s.last() != 'm' && s.last() != 'h' && s.last() != 'd'
            && text::parse_number(s, u64::MAX as nat) is None ==> lease_seconds(s) is None,
        s.len() > 0 && text::parse_number(s.drop_last(), u64::MAX as nat) is None && (s.last()
            == 's' || s.last() == 'm' || s.last() == 'h' || s.last() == 'd') ==> lease_seconds(
            s,
        ) is None,
        s.len() == 0 ==> lease_seconds(s) is None,
        lease_refusal(s) == "invalid duration '"@ + s
            + "': expected a number of seconds or one with the unit s, m, h or d"@,
{
    let digits = text::number(n);
    text::lemma_number(n);
    assert(text::is_digit(digits[digits.len() - 1]));
    text_laws::law_read_number(n, u64::MAX as nat);
    assert(unit_seconds(digits.last()) is None);
    lemma_lease_unit(n, 's', 1);
    lemma_lease_unit(n, 'm', 60);
    lemma_lease_unit(n, 'h', 3600);
    lemma_lease_unit(n, 'd', 86400);
    text_laws::law_read_digits(s, 0, u64::MAX as nat);
    if s.len() == 0 {
        assert(s =~= Seq::empty());
    }
}

/// A number with a unit behind it.
proof fn lemma_lease_unit(n: nat, c: char, unit: nat)
    requires
        unit_seconds(c) == Some(unit),
        unit > 0,
    ensures
        lease_seconds(text::number(n) + seq![c]) == if n * unit <= u64::MAX {
            Some((n * unit) as u64)
        } else {
            None
        },
{
    let digits = text::number(n);
    text_laws::law_read_number(n, u64::MAX as nat);
    let s = digits + seq![c];
    assert(s.drop_last() =~= digits);
    assert(s.last() == c);
    assert(n <= n * unit) by (nonlinear_arith)
        requires
            unit > 0,
    ;
}

/// The commands that only look are `list`, `status`, `current`, `lint`, `doctor` and
/// `verify`; every other one takes the lock.
pub proof fn law_mutates(c: CommandView)
    ensures
        !c.mutates() <==> c is List || c is Status || c is Current || c is Lint || c is Doctor || c
            is Verify,
{
}

/// The config directory is the one given, or `.config/vpn` in the home directory, or
/// here where there is none.
pub proof fn law_config_dir(cli: CliView)
    ensures
        cli.config_dir matches Some(dir) ==> cli.resolved_config_dir() == dir,
        cli.config_dir is None ==> (cli.home matches Some(home) ==> cli.resolved_config_dir()
            == config::path_in(config::path_in(home, ".config"@), "vpn"@)),
        cli.config_dir is None && cli.home is None ==> cli.resolved_config_dir() == config::path_in(
            ".config"@,
            "vpn"@,
        ),
        home_config_dir(None) == config::path_in(".config"@, "vpn"@),
{
}

/// A program is the one given, or that of the file, or the usual one; `sudo` is used
/// where either asks for it.
pub proof fn law_settings(cli: CliView, file: FileConfigView)
    ensures
        ({
            let set = cli.settings(file);
            &&& set.config_dir == cli.resolved_config_dir()
            &&& set.sudo <==> cli.sudo || file.sudo == Some(true)
            &&& cli.wg matches Some(x) ==> set.wg == x
            &&& cli.wg is None ==> (file.wg matches Some(x) ==> set.wg == x)
            &&& cli.wg is None && file.wg is None ==> set.wg == "wg"@
            &&& cli.wg_quick matches Some(x) ==> set.wg_quick == x
            &&& cli.wg_quick is None ==> (file.wg_quick matches Some(x) ==> set.wg_quick == x)
            &&& cli.wg_quick is None && file.wg_quick is None ==> set.wg_quick == "wg-quick"@
            &&& cli.curl matches Some(x) ==> set.curl == x
            &&& cli.curl is None ==> (file.curl matches Some(x) ==> set.curl == x)
            &&& cli.curl is None && file.curl is None ==> set.curl == "curl"@
        }),
{
}

/// A backend runs the programs of the settings, on the usual schedules and by the clock
/// of the host.
pub proof fn law_backend(set: SettingsView)
    ensures
        ({
            let b = backend_of(set);
            &&& b.config_dir == set.config_dir && b.sudo == set.sudo
            &&& b.wg == set.wg && b.wg_quick == set.wg_quick && b.curl == set.curl
            &&& b.dns_sweeps == seq![0u64, 400, 1200, 2500]
            &&& b.diff_retries == seq![0u64, 800, 1600]
            &&& b.clock == Clock::System
        }),
        BackendView::new(set.config_dir, set.sudo).wg == "wg"@,
        BackendView::new(set.config_dir, set.sudo).wg_quick == "wg-quick"@,
        BackendView::new(set.config_dir, set.sudo).curl == "curl"@,
{
}

/// The settings file is `config.toml` in the config directory. Where there is none
/// nothing is set; where it cannot be read, or holds something else, that is the error.
pub proof fn law_loading(s: SessionView, dir: Seq<char>)
    ensures
        ({
            let n = s.asked.len() as int;
            let path = config::path_in(dir, "config.toml"@);
            let (t, loaded) = settings::loading(s, dir);
            &&& t.replies == s.replies
            &&& t.asked == s.asked.push(ActionView::ReadFile(path))
            &&& n < s.replies.len() ==> match s.replies[n] {
                ReplyView::Contents(FileTextView::Missing(_)) => loaded matches Some(Ok(file))
                    && file == (FileConfigView { sudo: None, wg: None, wg_quick: None, curl: None }),
                ReplyView::Contents(FileTextView::Failed(source)) => loaded matches Some(Err(e)) && e
                    == ErrorView::ConfigDir(path, source),
                ReplyView::Contents(FileTextView::Text(held)) => match settings::settings_of(
                    text::lines(held),
                ) {
                    Ok(file) => loaded matches Some(Ok(got)) && got == file,
                    Err(message) => loaded matches Some(Err(e)) && e == (ErrorView::ConfigParse {
                        path,
                        message,
                    }),
                },
                _ => loaded is None,
            }
        }),
{
}

// ---------------------------------------------------------------------------
// Commands
// ---------------------------------------------------------------------------

/// Every command does what it is called for, and its report is of what that gave; an
/// error of it is the error of the command.
pub proof fn law_dispatching(b: BackendView, s: SessionView, c: CommandView)
    ensures
        ({
            let (t, done) = dispatching(b, s, c);
            match c {
                CommandView::List => t == b.listing(s).0 && match b.listing(s).1 {
                    Some(Ok(tunnels)) => done matches Some(Ok(r)) && r == (ReportView::List {
                        config_dir: b.config_dir,
                        tunnels,
                    }),
                    Some(Err(e)) => done matches Some(Err(told)) && told == e,
                    None => done is None,
                },
                CommandView::Up { name, lease } => t == b.upping(s, name, lease).0 && match b.upping(
                    s,
                    name,
                    lease,
                ).1 {
                    Some(Ok((changed, status))) => done matches Some(Ok(r)) && r == (
                    ReportView::Up { name, changed, status }),
                    Some(Err(e)) => done matches Some(Err(told)) && told == e,
                    None => done is None,
                },
                CommandView::Down { name } => t == b.downing(s, name).0 && match b.downing(s, name).1 {
                    Some(Ok(x)) => done matches Some(Ok(r)) && r == (ReportView::Down {
                        name,
                        changed: x.changed,
                        dns_cleared: x.dns_cleared,
                        dns_warning: x.dns_warning,
                    }),
                    Some(Err(e)) => done matches Some(Err(told)) && told == e,
                    None => done is None,
                },
                CommandView::Status { name: Some(n) } => t == b.checking_one(s, n).0
                    && match b.checking_one(s, n).1 {
                    Some(Ok(status)) => done matches Some(Ok(r)) && r == (ReportView::Status {
                        tunnels: seq![status],
                    }),
                    Some(Err(e)) => done matches Some(Err(told)) && told == e,
                    None => done is None,
                },
                CommandView::Status { name: None } => t == b.checking_all(s).0
                    && match b.checking_all(s).1 {
                    Some(Ok(tunnels)) => done matches Some(Ok(r)) && r == (ReportView::Status {
                        tunnels,
                    }),
                    Some(Err(e)) => done matches Some(Err(told)) && told == e,
                    None => done is None,
                },
                CommandView::Current => t == b.naming_active(s).0 && match b.naming_active(s).1 {
                    Some(Ok(active)) => done matches Some(Ok(r)) && r == (ReportView::Current {
                        active,
                    }),
                    Some(Err(e)) => done matches Some(Err(told)) && told == e,
                    None => done is None,
                },
                CommandView::Probe { name, url, max_time, count } => t == b.probing(
                    s,
                    name,
                    url,
                    max_time,
                    count,
                ).0 && match b.probing(s, name, url, max_time, count).1 {
                    Some(Ok(results)) => done matches Some(Ok(r)) && r == (ReportView::Probe {
                        results,
                    }),
                    Some(Err(e)) => done matches Some(Err(told)) && told == e,
                    None => done is None,
                },
                CommandView::Exec { name, command } => t == b.executing(s, name, command).0
                    && match b.executing(s, name, command).1 {
                    Some(Ok(x)) => done matches Some(Ok(r)) && r == (ReportView::Exec {
                        name: x.name,
                        activated: x.activated,
                        exit_code: x.exit_code,
                        warning: x.warning,
                    }),
                    Some(Err(e)) => done matches Some(Err(told)) && told == e,
                    None => done is None,
                },
                CommandView::Lint { name } => t == b.linting(s, name).0 && match b.linting(s, name).1 {
                    Some(Ok(results)) => done matches Some(Ok(r)) && r == (ReportView::Lint {
                        results,
                    }),
                    Some(Err(e)) => done matches Some(Err(told)) && told == e,
                    None => done is None,
                },
                CommandView::Add { path, name, force, allow_hooks } => t == b.adding(
                    s,
                    path,
                    name,
                    force,
                    allow_hooks,
                ).0 && match b.adding(s, path, name, force, allow_hooks).1 {
                    Some(Ok((own, dest, lint))) => done matches Some(Ok(r)) && r == (
                    ReportView::Add { name: own, path: dest, lint }),
                    Some(Err(e)) => done matches Some(Err(told)) && told == e,
                    None => done is None,
                },
                CommandView::Split { name, exclude, output, keep_dns, force } => t == b.splitting(
                    s,
                    name,
                    exclude,
                    output,
                    keep_dns,
                    force,
                ).0 && match b.splitting(s, name, exclude, output, keep_dns, force).1 {
                    Some(Ok((own, path, entries))) => done matches Some(Ok(r)) && r == (
                    ReportView::Split { source: name, name: own, path, entries }),
                    Some(Err(e)) => done matches Some(Err(told)) && told == e,
                    None => done is None,
                },
                CommandView::Doctor => t == b.diagnosing(s).0 && match b.diagnosing(s).1 {
                    Some(checks) => done matches Some(Ok(r)) && r == (ReportView::Doctor { checks }),
                    None => done is None,
                },
                CommandView::Verify => t == b.verifying(s).0 && match b.verifying(s).1 {
                    Some(Ok(health)) => done matches Some(Ok(r)) && r == (ReportView::Verify {
                        health,
                    }),
                    Some(Err(e)) => done matches Some(Err(told)) && told == e,
                    None => done is None,
                },
                CommandView::Diff { url, name, max_time } => t == b.diffing(
                    s,
                    name,
                    url,
                    max_time,
                ).0 && match b.diffing(s, name, url, max_time).1 {
                    Some(Ok(results)) => done matches Some(Ok(r)) && r == (ReportView::Diff {
                        url,
                        results,
                        diffs: diff::differences(results),
                    }),
                    Some(Err(e)) => done matches Some(Err(told)) && told == e,
                    None => done is None,
                },
                CommandView::Recover => match b.recovering(s).1 {
                    Some(Ok(recovered)) => {
                        let s1 = b.recovering(s).0;
                        &&& t == b.verifying(s1).0
                        &&& match b.verifying(s1).1 {
                            Some(Ok(health)) => done matches Some(Ok(r)) && r == (
                            ReportView::Recover { recovered, health }),
                            Some(Err(e)) => done matches Some(Err(told)) && told == e,
                            None => done is None,
                        }
                    },
                    Some(Err(e)) => t == b.recovering(s).0 && (done matches Some(Err(told)) && told
                        == e),
                    None => done is None,
                },
            }
        }),
{
    reveal(dispatching);
}

/// A command that changes something is run under the lock, and not at all where that
/// cannot be taken; one that only looks is run without.
pub proof fn law_commanding(s: SessionView, b: BackendView, cli: CliView)
    ensures
        !cli.command.mutates() ==> commanding(s, b, cli) == dispatching(b, s, cli.command),
        cli.command.mutates() ==> match lock::acquiring(s, b.config_dir).1 {
            Some(Ok(_)) => commanding(s, b, cli) == dispatching(
                b,
                lock::acquiring(s, b.config_dir).0,
                cli.command,
            ),
            Some(Err(e)) => commanding(s, b, cli).0 == lock::acquiring(s, b.config_dir).0 && (
            commanding(s, b, cli).1 matches Some(Err(told)) && told == e),
            None => commanding(s, b, cli).1 is None,
        },
{
}

/// The settings are read first, and the command is run by them.
pub proof fn law_executing(s: SessionView, cli: CliView)
    ensures
        ({
            let (s1, loaded) = settings::loading(s, cli.resolved_config_dir());
            match loaded {
                Some(Ok(file)) => {
                    let (s2, done) = commanding(s1, backend_of(cli.settings(file)), cli);
                    match done {
                        Some(outcome) => executing(s, cli) == concluding(s2, outcome, cli.json),
                        None => executing(s, cli).1 is None,
                    }
                },
                Some(Err(e)) => executing(s, cli) == (s1, Some(failed(e, cli.json))),
                None => executing(s, cli).1 is None,
            }
        }),
{
}

/// An error is told with its message and its exit code; a report with its exit code, in
/// words, or as JSON where that is asked for; and of `exec` nothing but a warning, with
/// the exit code of the command.
pub proof fn law_concluding(
    s: SessionView,
    e: ErrorView,
    report: ReportView,
    exit_code: i32,
    warning: Option<Seq<char>>,
    name: Seq<char>,
    activated: bool,
    json: Seq<char>,
)
    ensures
        concluding(s, Err(e), false) == (
            s,
            Some(
                ExecutionView {
                    message: "error: "@ + e.message(),
                    code: e.exit_code(),
                    is_error: true,
                },
            ),
        ),
        concluding(s, Err(e), true) == (
            s,
            Some(
                ExecutionView {
                    message: json::object_text(
                        seq![
                            ("ok"@, ScalarView::Flag(false)),
                            ("error"@, ScalarView::Text(e.message())),
                            ("code"@, ScalarView::Integer(e.exit_code() as i64)),
                        ],
                    ),
                    code: e.exit_code(),
                    is_error: true,
                },
            ),
        ),
        forall|as_json: bool| #[trigger]
            concluding(
                s,
                Ok(ReportView::Exec { name, activated, exit_code, warning }),
                as_json,
            ) == (
                s,
                Some(
                    ExecutionView {
                        message: match warning {
                            Some(w) => w,
                            None => Seq::empty(),
                        },
                        code: exit_code,
                        is_error: warning is Some,
                    },
                ),
            ),
        !(report is Exec) ==> concluding(s, Ok(report), false) == (
            s,
            Some(
                ExecutionView {
                    message: report.human(),
                    code: report.exit_code(),
                    is_error: false,
                },
            ),
        ),
        !(report is Exec) && s.asked.len() < s.replies.len() && s.replies[s.asked.len() as int]
            == ReplyView::Json(json) ==> concluding(s, Ok(report), true) == (
            SessionView { asked: s.asked.push(ActionView::EncodeReport(report)), ..s },
            Some(
                ExecutionView { message: json, code: report.exit_code(), is_error: false },
            ),
        ),
{
}

// ---------------------------------------------------------------------------
// Errors
// ---------------------------------------------------------------------------

/// Errors tell apart by their exit code whether a tunnel is missing, a name is illegal,
/// a program failed, or could not be run; every other one is 1.
pub proof fn law_error_codes(e: ErrorView)
    ensures
        e is TunnelNotFound ==> e.exit_code() == 3,
        e is InvalidName ==> e.exit_code() == 4,
        e is Backend ==> e.exit_code() == 5,
        e is Spawn ==> e.exit_code() == 6,
        !(e is TunnelNotFound || e is InvalidName || e is Backend || e is Spawn) ==> e.exit_code()
            == 1,
{
}

/// What errors say.
pub proof fn law_error_messages(a: Seq<char>, b: Seq<char>, code: i32)
    ensures
        ErrorView::TunnelNotFound(a).message() == "tunnel '"@ + a
            + "' not found in config directory"@,
        ErrorView::InvalidName(a).message() == "invalid tunnel name '"@ + a
            + "' (allowed: letters, digits and _=+.- up to 15 chars)"@,
        ErrorView::ConfigDir(a, b).message() == "config directory '"@ + a
            + "' could not be read: "@ + b,
        (ErrorView::ConfigParse { path: a, message: b }).message() == "config file '"@ + a
            + "' is invalid: "@ + b,
        (ErrorView::TunnelConfRead { path: a, source: b }).message() == "tunnel config '"@ + a
            + "' could not be read: "@ + b,
        (ErrorView::TunnelConfPeer { path: a }).message() == "tunnel config '"@ + a
            + "' has no [Peer] PublicKey"@,
        (ErrorView::Backend { program: a, code, stderr: b }).message() == a + " failed (exit "@
            + text::signed_number(code as int) + "): "@ + b,
        (ErrorView::Spawn { program: a, source: b }).message() == "failed to run '"@ + a + "': "@
            + b + " (is it installed and on PATH?)"@,
        ErrorView::Refused(a).message() == a,
        (ErrorView::Write { path: a, source: b }).message() == "'"@ + a
            + "' could not be written: "@ + b,
{
}

// ---------------------------------------------------------------------------
// Reports
// ---------------------------------------------------------------------------

/// A report fails where one of its parts does: a probe and a comparison with 7, findings
/// and checks with 1, an unhealthy host with 8; `exec` with the code of the command. No
/// other report fails.
pub proof fn law_report_codes(r: ReportView)
    ensures
        r matches ReportView::Probe { results } ==> r.exit_code() == (if forall|i: int|
            0 <= i < results.len() ==> (#[trigger] results[i]).ok {
            0i32
        } else {
            7i32
        }),
        r matches ReportView::Diff { results, .. } ==> r.exit_code() == (if forall|i: int|
            0 <= i < results.len() ==> (#[trigger] results[i]).ok {
            0i32
        } else {
            7i32
        }),
        r matches ReportView::Lint { results } ==> r.exit_code() == (if forall|i: int|
            0 <= i < results.len() ==> (#[trigger] results[i]).ok {
            0i32
        } else {
            1i32
        }),
        r matches ReportView::Doctor { checks } ==> r.exit_code() == (if forall|i: int|
            0 <= i < checks.len() ==> (#[trigger] checks[i]).ok {
            0i32
        } else {
            1i32
        }),
        r matches ReportView::Verify { health } ==> r.exit_code() == (if health.healthy {
            0i32
        } else {
            8i32
        }),
        r matches ReportView::Recover { health, .. } ==> r.exit_code() == (if health.healthy {
            0i32
        } else {
            8i32
        }),
        r matches ReportView::Exec { exit_code, .. } ==> r.exit_code() == exit_code,
        r is List || r is Up || r is Down || r is Status || r is Current || r is Add || r is Split
            ==> r.exit_code() == 0,
{
}

/// A duration is written in milliseconds with one digit behind the point.
pub proof fn law_tenths_text(whole: nat, tenth: nat)
    requires
        tenth < 10,
    ensures
        output::tenths_text((whole * 10 + tenth) as int) == text::number(whole) + "."@ + text::number(tenth),
        whole + tenth > 0 ==> output::tenths_text(-((whole * 10 + tenth) as int)) == "-"@ + text::number(
            whole,
        ) + "."@ + text::number(tenth),
{
    let n = (whole * 10 + tenth) as int;
    assert(n / 10 == whole);
    assert(n % 10 == tenth);
}

/// The state and the status of a tunnel in words.
pub proof fn law_status_text(status: TunnelStatusView)
    ensures
        output::state_text(true) == "up  "@,
        output::state_text(false) == "down"@,
        !status.up ==> output::status_text(status) == "down"@,
        status.up ==> output::status_text(status) == "up on "@ + (match status.interface {
            Some(interface) => interface,
            None => "?"@,
        }) + " ("@ + text::number(status.peers.len()) + " peer(s))"@,
{
}

/// Names and durations stand in columns of 14 and 8 characters.
pub proof fn law_columns(name: Seq<char>, tenths: i64)
    ensures
        output::padded_name(name) == text::pad_right(name, 14),
        output::padded_tenths(tenths) == text::pad_left(output::tenths_text(tenths as int), 8),
{
}

/// A probe in words: of several requests the median and the range, of one its time.
pub proof fn law_durations_text(r: ProbeResultView, t: Timings)
    ensures
        r.samples <= 1 || r.stats is None ==> output::durations_text(r, t) == output::padded_name(
            r.name,
        ) + " total "@ + output::padded_tenths(t.total_tenths) + " ms   ttfb "@
            + output::padded_tenths(t.ttfb_tenths) + " ms"@,
        r.samples > 1 ==> (r.stats matches Some(st) ==> output::durations_text(r, t)
            == output::padded_name(r.name) + " median "@ + output::padded_tenths(
            st.median_total_tenths,
        ) + " ms   (min "@ + output::tenths_text(st.min_total_tenths as int) + ", max "@
            + output::tenths_text(st.max_total_tenths as int) + ", n="@ + text::number(
            r.samples as nat,
        ) + ")   ttfb "@ + output::padded_tenths(t.ttfb_tenths) + " ms"@),
{
}

/// Where a probe left: the exit with what is known of its place, or else the address.
pub proof fn law_egress_text(r: ProbeResultView)
    ensures
        r.exit matches Some(x) ==> match (x.loc, x.colo) {
            (Some(loc), Some(colo)) => output::egress_text(r) == "   exit "@ + x.ip + (" ("@ + loc
                + "/"@ + colo + ")"@),
            (Some(loc), None) => output::egress_text(r) == "   exit "@ + x.ip + (" ("@ + loc
                + ")"@),
            (None, Some(colo)) => output::egress_text(r) == "   exit "@ + x.ip + (" ("@ + colo
                + ")"@),
            (None, None) => output::egress_text(r) == "   exit "@ + x.ip,
        },
        r.exit is None ==> match r.remote_ip {
            Some(ip) => output::egress_text(r) == "   via "@ + ip,
            None => output::egress_text(r).len() == 0,
        },
{
    let none = Seq::<char>::empty();
    if let Some(x) = r.exit {
        assert("   exit "@ + x.ip + none =~= "   exit "@ + x.ip);
    }
}

/// A probe in words: its times, its status, where it left, and how many of its requests
/// failed; or why it failed; and a warning behind either.
pub proof fn law_probe_text(r: ProbeResultView)
    ensures
        ({
            let warned = match r.warning {
                Some(w) => "   [warning: "@ + w + "]"@,
                None => Seq::empty(),
            };
            &&& !r.ok ==> output::probe_text(r) == output::padded_name(r.name) + " FAILED: "@ + (
            match r.error {
                Some(e) => e,
                None => "unknown error"@,
            }) + warned
            &&& r.ok ==> (r.timings matches Some(t) ==> output::probe_text(r)
                == output::durations_text(r, t) + (match r.http_code {
                Some(code) => "   http "@ + text::number(code as nat),
                None => Seq::empty(),
            }) + output::egress_text(r) + (if r.failures > 0 {
                "   ("@ + text::number(r.failures as nat) + "/"@ + text::number(r.samples as nat)
                    + " failed)"@
            } else {
                Seq::empty()
            }) + warned)
        }),
{
}

/// Findings in words, one on a line behind the tunnel.
pub proof fn law_linted_text(r: LintResultView, head: Seq<char>, fs: Seq<FindingView>, f: FindingView)
    ensures
        r.findings.len() == 0 ==> output::linted_text(r) == "ok    "@ + r.name,
        r.findings.len() > 0 && r.ok ==> output::linted_text(r) == output::lint_text(
            "warn  "@ + r.name,
            r.findings,
        ),
        r.findings.len() > 0 && !r.ok ==> output::linted_text(r) == output::lint_text(
            "FAIL  "@ + r.name,
            r.findings,
        ),
        output::lint_text(head, Seq::empty()) == head,
        output::lint_text(head, fs.push(f)) == output::lint_text(head, fs) + "\n      "@ + (
        if f.severity is Error {
            "error"@
        } else {
            "warning"@
        }) + ": "@ + f.message,
        output::noted_text(head, Seq::empty()) == head,
        output::noted_text(head, fs.push(f)) == output::noted_text(head, fs) + "\n  note: "@
            + f.message,
{
    assert(fs.push(f).drop_last() =~= fs);
}

/// What was recovered in words: what, why, and what became of the DNS.
pub proof fn law_recovered_text(r: RecoveredView)
    ensures
        output::recovered_text(r) == "recovered "@ + r.tunnel + " ("@ + r.reason + ")"@ + (
        if r.dns_cleared.len() > 0 {
            "; restored DNS on "@ + text::join(r.dns_cleared, ", "@)
        } else {
            Seq::empty()
        }) + (match r.dns_warning {
            Some(w) => "; warning: "@ + w,
            None => Seq::empty(),
        }),
{
}

/// A location in words: its status and how many headers it sent, or why it failed.
pub proof fn law_location_text(r: LocationResultView)
    ensures
        r.ok ==> output::location_text(r) == "  "@ + output::padded_name(r.name) + " "@ + (
        match r.status {
            Some(code) => text::number(code as nat),
            None => "?"@,
        }) + " ("@ + text::number(r.headers.len()) + " headers)"@,
        !r.ok ==> output::location_text(r) == "  "@ + output::padded_name(r.name) + " FAILED: "@ + (
        match r.error {
            Some(e) => e,
            None => "unknown error"@,
        }),
{
}

/// The differences in words: each field, and below it the value of every location.
pub proof fn law_field_lines(ds: Seq<FieldDiffView>, d: FieldDiffView)
    ensures
        output::field_lines(Seq::empty()).len() == 0,
        output::field_lines(ds.push(d)) == output::field_lines(ds) + seq![
            "  "@ + d.field + ":"@,
        ] + d.values.map_values(
            |v: (Seq<char>, Option<Seq<char>>)|
                "    "@ + output::padded_name(v.0) + " "@ + (match v.1 {
                    Some(x) => x,
                    None => "(absent)"@,
                }),
        ),
{
    assert(ds.push(d).drop_last() =~= ds);
    let values = d.values.map_values(
        |v: (Seq<char>, Option<Seq<char>>)|
            "    "@ + output::padded_name(v.0) + " "@ + (match v.1 {
                Some(x) => x,
                None => "(absent)"@,
            }),
    );
    assert(output::value_lines(d.values) =~= values);
    assert(output::field_lines(ds.push(d)) =~= output::field_lines(ds) + seq![
        "  "@ + d.field + ":"@,
    ] + values);
}

/// A comparison in words: the locations, and how many of the fields differ, or that
/// none does, or that there is nothing to compare.
pub proof fn law_diff_lines(
    url: Seq<char>,
    results: Seq<LocationResultView>,
    diffs: Seq<FieldDiffView>,
)
    ensures
        ({
            let ok = results.filter(|r: LocationResultView| r.ok).len();
            let head = seq![
                "diff of "@ + url + " across "@ + text::number(results.len())
                    + " location(s):"@,
            ] + results.map_values(|r: LocationResultView| output::location_text(r));
            output::diff_lines(url, results, diffs) == head + (if ok < 2 {
                seq!["(need at least two successful locations to compare)"@]
            } else if diffs.len() == 0 {
                seq![
                    "all "@ + text::number(ok)
                        + " locations returned identical status and headers"@,
                ]
            } else {
                seq![text::number(diffs.len()) + " field(s) differ:"@] + output::field_lines(diffs)
            })
        }),
{
    crate::diff_laws::law_successes(results);
    let ok = diff::successes(results).len();
    let head = seq![
        "diff of "@ + url + " across "@ + text::number(results.len()) + " location(s):"@,
    ] + results.map_values(|r: LocationResultView| output::location_text(r));
    let tail = if ok < 2 {
        seq!["(need at least two successful locations to compare)"@]
    } else if diffs.len() == 0 {
        seq!["all "@ + text::number(ok) + " locations returned identical status and headers"@]
    } else {
        seq![text::number(diffs.len()) + " field(s) differ:"@] + output::field_lines(diffs)
    };
    assert(output::diff_lines(url, results, diffs) =~= head + tail);
}

/// The lines of the lists, one for each item and in order.
pub proof fn law_lines(
    tunnels: Seq<ListEntryView>,
    statuses: Seq<TunnelStatusView>,
    health: HealthReportView,
    recovered: Seq<RecoveredView>,
    checks: Seq<crate::backend::CheckView>,
    i: int,
)
    requires
        0 <= i,
    ensures
        i < tunnels.len() ==> output::list_lines(tunnels)[i] == output::state_text(tunnels[i].up)
            + "  "@ + tunnels[i].name,
        output::list_lines(tunnels).len() == tunnels.len(),
        i < statuses.len() ==> output::status_lines(statuses)[i] == statuses[i].name + ": "@
            + output::status_text(statuses[i]),
        output::status_lines(statuses).len() == statuses.len(),
        i < health.issues.len() ==> output::issue_lines(health.issues)[i] == "  ["@
            + health.issues[i].kind + "] "@ + health.issues[i].detail,
        output::issue_lines(health.issues).len() == health.issues.len(),
        i < recovered.len() ==> output::recovered_lines(recovered)[i] == output::recovered_text(
            recovered[i],
        ),
        output::recovered_lines(recovered).len() == recovered.len(),
        i < checks.len() ==> output::check_lines(checks)[i] == (if checks[i].ok {
            "ok  "@
        } else {
            "FAIL"@
        }) + " "@ + output::padded_name(checks[i].name) + " "@ + checks[i].detail,
        output::check_lines(checks).len() == checks.len(),
{
}

/// A tunnel that was taken down in words.
pub proof fn law_down_text(
    name: Seq<char>,
    changed: bool,
    cleared: Seq<Seq<char>>,
    warning: Option<Seq<char>>,
)
    ensures
        output::down_text(name, changed, cleared, warning) == name + (if changed {
            ": brought down"@
        } else {
            ": already down"@
        }) + (if cleared.len() > 0 {
            " (cleared stale VPN DNS from "@ + text::join(cleared, ", "@) + ")"@
        } else {
            Seq::empty()
        }) + (match warning {
            Some(w) => "\nwarning: "@ + w,
            None => Seq::empty(),
        }),
{
}

/// A recovery in words: what was recovered, or that there was nothing, and what is
/// still wrong.
pub proof fn law_recover_lines(recovered: Seq<RecoveredView>, health: HealthReportView)
    ensures
        output::recover_lines(recovered, health) == (if recovered.len() == 0 {
            seq!["nothing to recover — host state is clean"@]
        } else {
            output::recovered_lines(recovered)
        }) + (if health.healthy {
            Seq::empty()
        } else {
            seq!["WARNING — host still inconsistent after recovery:"@] + output::issue_lines(
                health.issues,
            )
        }),
{
    let first = if recovered.len() == 0 {
        seq!["nothing to recover — host state is clean"@]
    } else {
        output::recovered_lines(recovered)
    };
    let tail = if health.healthy {
        Seq::empty()
    } else {
        seq!["WARNING — host still inconsistent after recovery:"@] + output::issue_lines(
            health.issues,
        )
    };
    assert(output::recover_lines(recovered, health) =~= first + tail);
}

/// Reports in words.
pub proof fn law_human(r: ReportView)
    ensures
        r matches ReportView::List { config_dir, tunnels } ==> r.human() == if tunnels.len() == 0 {
            "no tunnels found in "@ + config_dir
        } else {
            text::join(output::list_lines(tunnels), "\n"@)
        },
        r matches ReportView::Up { name, changed, status } ==> r.human() == name + (if changed {
            ": brought up ("@
        } else {
            ": already up ("@
        }) + output::status_text(status) + ")"@,
        r matches ReportView::Down { name, changed, dns_cleared, dns_warning } ==> r.human()
            == output::down_text(name, changed, dns_cleared, dns_warning),
        r matches ReportView::Status { tunnels } ==> r.human() == if tunnels.len() == 0 {
            "no tunnels"@
        } else {
            text::join(output::status_lines(tunnels), "\n"@)
        },
        r matches ReportView::Current { active } ==> r.human() == if active.len() == 0 {
            "none"@
        } else {
            text::join(active, "\n"@)
        },
        r matches ReportView::Probe { results } ==> r.human() == if results.len() == 0 {
            "no tunnels"@
        } else {
            text::join(results.map_values(|x: ProbeResultView| output::probe_text(x)), "\n"@)
        },
        r matches ReportView::Exec { name, exit_code, .. } ==> r.human() == name
            + ": command exited "@ + text::signed_number(exit_code as int),
        r matches ReportView::Lint { results } ==> r.human() == if results.len() == 0 {
            "no tunnels"@
        } else {
            text::join(results.map_values(|x: LintResultView| output::linted_text(x)), "\n"@)
        },
        r matches ReportView::Add { name, path, lint } ==> r.human() == output::noted_text(
            "added "@ + name + " ("@ + path + ")"@,
            lint.findings,
        ),
        r matches ReportView::Split { source, name, path, entries } ==> r.human() == name
            + ": split tunnel of "@ + source + " written to "@ + path + " ("@ + text::number(
            entries as nat,
        ) + " AllowedIPs entries, endpoint excluded)"@,
        r matches ReportView::Doctor { checks } ==> r.human() == text::join(
            output::check_lines(checks),
            "\n"@,
        ),
        r matches ReportView::Diff { url, results, diffs } ==> r.human() == text::join(
            output::diff_lines(url, results, diffs),
            "\n"@,
        ),
        r matches ReportView::Verify { health } ==> r.human() == if health.healthy {
            "ok — host network is consistent"@
        } else {
            text::join(
                seq!["FAIL — host network needs repair:"@] + output::issue_lines(health.issues),
                "\n"@,
            )
        },
        r matches ReportView::Recover { recovered, health } ==> r.human() == text::join(
            output::recover_lines(recovered, health),
            "\n"@,
        ),
{
    if let ReportView::Probe { results } = r {
        assert(output::probe_lines(results) =~= results.map_values(
            |x: ProbeResultView| output::probe_text(x),
        ));
    }
    if let ReportView::Lint { results } = r {
        assert(output::linted_lines(results) =~= results.map_values(
            |x: LintResultView| output::linted_text(x),
        ));
    }
}

} // verus!
