//! Command results and their human renderings.
use vstd::prelude::*;

use crate::backend::{
    Check, CheckView, HealthIssue, HealthIssueView, HealthReport, HealthReportView, Recovered,
    RecoveredView,
};
use crate::diff::{
    successes, FieldDiff, FieldDiffView, FieldValues, LocationResult, LocationResultView,
};
use crate::error::{Error, ErrorView};
use crate::json;
use crate::json::{Scalar, ScalarView};
use crate::lint::{Finding, FindingView, LintResult, LintResultView, Severity};
use crate::order::TextMap;
use crate::probe::{ProbeResult, ProbeResultView, Timings};
use crate::session::{Action, ActionView, Session, SessionView, Step};
use crate::status::{ListEntry, ListEntryView, TunnelStatus, TunnelStatusView};
use crate::text;

verus! {

/// The result of a successful command, ready to render.
#[derive(Debug, PartialEq, Eq)]
#[allow(inconsistent_fields)]
pub enum Report {
    /// Result of `list`.
    List {
        /// The directory that was scanned.
        config_dir: String,
        /// One entry per discovered tunnel.
        tunnels: Vec<ListEntry>,
    },
    /// Result of `up`.
    Up {
        /// Tunnel name.
        name: String,
        /// `true` if this call changed state (was down, now up).
        changed: bool,
        /// Post-condition status.
        status: TunnelStatus,
    },
    /// Result of `down`.
    Down {
        /// Tunnel name.
        name: String,
        /// `true` if this call changed state (was up, now down).
        changed: bool,
        /// Network services whose stale VPN DNS was cleared (reset to DHCP)
        /// after the teardown.
        dns_cleared: Vec<String>,
        /// Non-fatal DNS-guard problem (stale DNS seen but not cleanly
        /// cleared).
        dns_warning: Option<String>,
    },
    /// Result of `status`.
    Status {
        /// One entry per requested tunnel.
        tunnels: Vec<TunnelStatus>,
    },
    /// Result of `current`.
    Current {
        /// Names of tunnels that are currently up.
        active: Vec<String>,
    },
    /// Result of `probe`.
    Probe {
        /// One entry per probed tunnel, successes first (fastest first).
        results: Vec<ProbeResult>,
    },
    /// Result of `exec`. The child's output has already streamed through, so
    /// this report is never printed — only its exit code and warning are used.
    Exec {
        /// Tunnel name the command ran through.
        name: String,
        /// Whether the tunnel was brought up for the run.
        activated: bool,
        /// The child's exit code, passed through as vpn's exit code.
        exit_code: i32,
        /// Non-fatal problem (e.g. tunnel state could not be restored).
        warning: Option<String>,
    },
    /// Result of `lint`.
    Lint {
        /// One entry per linted config.
        results: Vec<LintResult>,
    },
    /// Result of `add`.
    Add {
        /// Installed tunnel name.
        name: String,
        /// Destination path.
        path: String,
        /// Lint outcome for the installed config.
        lint: LintResult,
    },
    /// Result of `split`.
    Split {
        /// Source tunnel name.
        source: String,
        /// New tunnel name.
        name: String,
        /// Destination path.
        path: String,
        /// Number of AllowedIPs entries written.
        entries: usize,
    },
    /// Result of `doctor`.
    Doctor {
        /// One entry per environment check.
        checks: Vec<Check>,
    },
    /// Result of `recover`.
    Recover {
        /// Tunnels/interfaces restored (empty when nothing needed fixing).
        recovered: Vec<Recovered>,
        /// Host health *after* recovery — proves the repair worked, or lists
        /// what it could not fix.
        health: HealthReport,
    },
    /// Result of `verify`.
    Verify {
        /// Host-health assessment.
        health: HealthReport,
    },
    /// Result of `diff`.
    Diff {
        /// URL that was fetched.
        url: String,
        /// One entry per location.
        results: Vec<LocationResult>,
        /// Fields (status/headers) that differ across locations.
        diffs: Vec<FieldDiff>,
    },
}

/// A [`Report`] with its texts as sequences of characters.
#[verifier::ext_equal]
#[allow(inconsistent_fields)]
pub enum ReportView {
    /// Result of `list`.
    List {
        /// The directory that was scanned.
        config_dir: Seq<char>,
        /// One entry per discovered tunnel.
        tunnels: Seq<ListEntryView>,
    },
    /// Result of `up`.
    Up {
        /// Tunnel name.
        name: Seq<char>,
        /// Whether this call changed state.
        changed: bool,
        /// Post-condition status.
        status: TunnelStatusView,
    },
    /// Result of `down`.
    Down {
        /// Tunnel name.
        name: Seq<char>,
        /// Whether this call changed state.
        changed: bool,
        /// Network services whose DNS was cleared.
        dns_cleared: Seq<Seq<char>>,
        /// Non-fatal DNS-guard problem.
        dns_warning: Option<Seq<char>>,
    },
    /// Result of `status`.
    Status {
        /// One entry per requested tunnel.
        tunnels: Seq<TunnelStatusView>,
    },
    /// Result of `current`.
    Current {
        /// Names of tunnels that are currently up.
        active: Seq<Seq<char>>,
    },
    /// Result of `probe`.
    Probe {
        /// One entry per probed tunnel.
        results: Seq<ProbeResultView>,
    },
    /// Result of `exec`.
    Exec {
        /// Tunnel name.
        name: Seq<char>,
        /// Whether the tunnel was brought up for the run.
        activated: bool,
        /// The child's exit code.
        exit_code: i32,
        /// Non-fatal problem.
        warning: Option<Seq<char>>,
    },
    /// Result of `lint`.
    Lint {
        /// One entry per linted config.
        results: Seq<LintResultView>,
    },
    /// Result of `add`.
    Add {
        /// Installed tunnel name.
        name: Seq<char>,
        /// Destination path.
        path: Seq<char>,
        /// Lint outcome for the installed config.
        lint: LintResultView,
    },
    /// Result of `split`.
    Split {
        /// Source tunnel name.
        source: Seq<char>,
        /// New tunnel name.
        name: Seq<char>,
        /// Destination path.
        path: Seq<char>,
        /// Number of AllowedIPs entries written.
        entries: usize,
    },
    /// Result of `doctor`.
    Doctor {
        /// One entry per environment check.
        checks: Seq<CheckView>,
    },
    /// Result of `recover`.
    Recover {
        /// Tunnels/interfaces restored.
        recovered: Seq<RecoveredView>,
        /// Host health after recovery.
        health: HealthReportView,
    },
    /// Result of `verify`.
    Verify {
        /// Host-health assessment.
        health: HealthReportView,
    },
    /// Result of `diff`.
    Diff {
        /// URL that was fetched.
        url: Seq<char>,
        /// One entry per location.
        results: Seq<LocationResultView>,
        /// Fields that differ across locations.
        diffs: Seq<FieldDiffView>,
    },
}

impl DeepView for Report {
    type V = ReportView;

    open spec fn deep_view(&self) -> ReportView {
        match self {
            Report::List { config_dir, tunnels } => ReportView::List {
                config_dir: config_dir@,
                tunnels: tunnels.deep_view(),
            },
            Report::Up { name, changed, status } => ReportView::Up {
                name: name@,
                changed: *changed,
                status: status.deep_view(),
            },
            Report::Down { name, changed, dns_cleared, dns_warning } => ReportView::Down {
                name: name@,
                changed: *changed,
                dns_cleared: dns_cleared.deep_view(),
                dns_warning: dns_warning.deep_view(),
            },
            Report::Status { tunnels } => ReportView::Status { tunnels: tunnels.deep_view() },
            Report::Current { active } => ReportView::Current { active: active.deep_view() },
            Report::Probe { results } => ReportView::Probe { results: results.deep_view() },
            Report::Exec { name, activated, exit_code, warning } => ReportView::Exec {
                name: name@,
                activated: *activated,
                exit_code: *exit_code,
                warning: warning.deep_view(),
            },
            Report::Lint { results } => ReportView::Lint { results: results.deep_view() },
            Report::Add { name, path, lint } => ReportView::Add {
                name: name@,
                path: path@,
                lint: lint.deep_view(),
            },
            Report::Split { source, name, path, entries } => ReportView::Split {
                source: source@,
                name: name@,
                path: path@,
                entries: *entries,
            },
            Report::Doctor { checks } => ReportView::Doctor { checks: checks.deep_view() },
            Report::Recover { recovered, health } => ReportView::Recover {
                recovered: recovered.deep_view(),
                health: health.deep_view(),
            },
            Report::Verify { health } => ReportView::Verify { health: health.deep_view() },
            Report::Diff { url, results, diffs } => ReportView::Diff {
                url: url@,
                results: results.deep_view(),
                diffs: diffs.deep_view(),
            },
        }
    }
}

// ---------------------------------------------------------------------------
// Exit codes
// ---------------------------------------------------------------------------

/// Whether a probe among the results failed.
pub open spec fn any_probe_failed(results: Seq<ProbeResultView>) -> bool {
    exists|i: int| 0 <= i < results.len() && !(#[trigger] results[i]).ok
}

/// Whether a config among the results has errors.
pub open spec fn any_lint_failed(results: Seq<LintResultView>) -> bool {
    exists|i: int| 0 <= i < results.len() && !(#[trigger] results[i]).ok
}

/// Whether a check failed.
pub open spec fn any_check_failed(checks: Seq<CheckView>) -> bool {
    exists|i: int| 0 <= i < checks.len() && !(#[trigger] checks[i]).ok
}

/// Whether a location among the results failed.
pub open spec fn any_location_failed(results: Seq<LocationResultView>) -> bool {
    exists|i: int| 0 <= i < results.len() && !(#[trigger] results[i]).ok
}

impl ReportView {
    /// The process exit code for the report.
    pub open spec fn exit_code(self) -> i32 {
        match self {
            ReportView::Probe { results } => if any_probe_failed(results) {
                7
            } else {
                0
            },
            ReportView::Exec { exit_code, .. } => exit_code,
            ReportView::Lint { results } => if any_lint_failed(results) {
                1
            } else {
                0
            },
            ReportView::Doctor { checks } => if any_check_failed(checks) {
                1
            } else {
                0
            },
            ReportView::Verify { health } => if health.healthy {
                0
            } else {
                8
            },
            ReportView::Recover { health, .. } => if health.healthy {
                0
            } else {
                8
            },
            ReportView::Diff { results, .. } => if any_location_failed(results) {
                7
            } else {
                0
            },
            _ => 0,
        }
    }
}

/// Whether a probe among the results failed.
fn has_failed_probe(results: &Vec<ProbeResult>) -> (r: bool)
    ensures
        r == any_probe_failed(results.deep_view()),
{
    let ghost v = results.deep_view();
    let mut i: usize = 0;
    while i < results.len()
        invariant
            v == results.deep_view(),
            i <= results@.len(),
            forall|j: int| 0 <= j < i ==> (#[trigger] v[j]).ok,
        decreases results@.len() - i,
    {
        proof {
            assert(v[i as int] == results@[i as int].deep_view());
        }
        if !results[i].ok {
            return true;
        }
        i = i + 1;
    }
    false
}

/// Whether a config among the results has errors.
fn has_failed_lint(results: &Vec<LintResult>) -> (r: bool)
    ensures
        r == any_lint_failed(results.deep_view()),
{
    let ghost v = results.deep_view();
    let mut i: usize = 0;
    while i < results.len()
        invariant
            v == results.deep_view(),
            i <= results@.len(),
            forall|j: int| 0 <= j < i ==> (#[trigger] v[j]).ok,
        decreases results@.len() - i,
    {
        proof {
            assert(v[i as int] == results@[i as int].deep_view());
        }
        if !results[i].ok {
            return true;
        }
        i = i + 1;
    }
    false
}

/// Whether a check failed.
fn has_failed_check(checks: &Vec<Check>) -> (r: bool)
    ensures
        r == any_check_failed(checks.deep_view()),
{
    let ghost v = checks.deep_view();
    let mut i: usize = 0;
    while i < checks.len()
        invariant
            v == checks.deep_view(),
            i <= checks@.len(),
            forall|j: int| 0 <= j < i ==> (#[trigger] v[j]).ok,
        decreases checks@.len() - i,
    {
        proof {
            assert(v[i as int] == checks@[i as int].deep_view());
        }
        if !checks[i].ok {
            return true;
        }
        i = i + 1;
    }
    false
}

/// Whether a location among the results failed.
fn has_failed_location(results: &Vec<LocationResult>) -> (r: bool)
    ensures
        r == any_location_failed(results.deep_view()),
{
    let ghost v = results.deep_view();
    let mut i: usize = 0;
    while i < results.len()
        invariant
            v == results.deep_view(),
            i <= results@.len(),
            forall|j: int| 0 <= j < i ==> (#[trigger] v[j]).ok,
        decreases results@.len() - i,
    {
        proof {
            assert(v[i as int] == results@[i as int].deep_view());
        }
        if !results[i].ok {
            return true;
        }
        i = i + 1;
    }
    false
}

impl Report {
    /// The process exit code for this (successful) report.
    ///
    /// All reports exit `0` except: `probe` and `diff` with at least one failed
    /// request (`7`, so automation can detect partial failures without parsing
    /// the results), `lint` and `doctor` with a failure (`1`), `verify` and
    /// `recover` where the host is inconsistent (`8`), and `exec`, which passes
    /// the child's code through.
    pub fn exit_code(&self) -> (code: i32)
        ensures
            code == self.deep_view().exit_code(),
    {
        match self {
            Report::Probe { results } => if has_failed_probe(results) {
                7
            } else {
                0
            },
            Report::Exec { exit_code, .. } => *exit_code,
            Report::Lint { results } => if has_failed_lint(results) {
                1
            } else {
                0
            },
            Report::Doctor { checks } => if has_failed_check(checks) {
                1
            } else {
                0
            },
            Report::Verify { health } => if health.healthy {
                0
            } else {
                8
            },
            Report::Recover { health, .. } => if health.healthy {
                0
            } else {
                8
            },
            Report::Diff { results, .. } => if has_failed_location(results) {
                7
            } else {
                0
            },
            _ => 0,
        }
    }
}

// ---------------------------------------------------------------------------
// Rendering of single lines
// ---------------------------------------------------------------------------

/// The width that names are filled up to.
pub const NAME_WIDTH: usize = 14;

/// The width that durations are filled up to.
pub const DURATION_WIDTH: usize = 8;

/// The word for the state of a tunnel.
pub open spec fn state_text(up: bool) -> Seq<char> {
    if up {
        "up  "@
    } else {
        "down"@
    }
}

/// The word for the state of a tunnel.
fn state_word(up: bool) -> (r: &'static str)
    ensures
        r@ == state_text(up),
{
    if up {
        "up  "
    } else {
        "down"
    }
}

/// The state of a tunnel in a few words.
pub open spec fn status_text(status: TunnelStatusView) -> Seq<char> {
    if !status.up {
        "down"@
    } else {
        "up on "@ + (match status.interface {
            Some(i) => i,
            None => "?"@,
        }) + " ("@ + text::number(status.peers.len()) + " peer(s))"@
    }
}

/// The state of a tunnel in a few words.
fn status_line(status: &TunnelStatus) -> (r: String)
    ensures
        r@ == status_text(status.deep_view()),
{
    if !status.up {
        return "down".to_owned();
    }
    let mut line = "up on ".to_owned();
    match &status.interface {
        Some(i) => {
            line.append(i);
        },
        None => {
            line.append("?");
        },
    }
    line.append(" (");
    proof {
        assert(status.peers.deep_view().len() == status.peers@.len());
    }
    let n = text::text_number(status.peers.len() as u64);
    line.append(&n);
    line.append(" peer(s))");
    line
}

/// A number of tenths with one decimal place.
pub open spec fn tenths_text(tenths: int) -> Seq<char> {
    if tenths < 0 {
        "-"@ + text::number((-tenths / 10) as nat) + "."@ + text::number((-tenths % 10) as nat)
    } else {
        text::number((tenths / 10) as nat) + "."@ + text::number((tenths % 10) as nat)
    }
}

/// A number of tenths with one decimal place.
fn text_tenths(tenths: i64) -> (r: String)
    ensures
        r@ == tenths_text(tenths as int),
{
    let mut shown: String;
    let size: u64;
    if tenths < 0 {
        shown = "-".to_owned();
        size = (-(tenths + 1)) as u64 + 1;
        let whole = text::text_number(size / 10);
        shown.append(&whole);
    } else {
        size = tenths as u64;
        shown = text::text_number(size / 10);
    }
    shown.append(".");
    let rest = text::text_number(size % 10);
    shown.append(&rest);
    shown
}

/// A duration, filled up on the left.
pub open spec fn padded_tenths(tenths: i64) -> Seq<char> {
    text::pad_left(tenths_text(tenths as int), DURATION_WIDTH as nat)
}

/// A duration, filled up on the left.
fn pad_tenths(tenths: i64) -> (r: String)
    ensures
        r@ == padded_tenths(tenths),
{
    let shown = text_tenths(tenths);
    text::text_pad_left(&shown, DURATION_WIDTH)
}

/// A name, filled up on the right.
pub open spec fn padded_name(name: Seq<char>) -> Seq<char> {
    text::pad_right(name, NAME_WIDTH as nat)
}

/// A text, or what stands in its place.
pub open spec fn text_or(t: Option<Seq<char>>, instead: Seq<char>) -> Seq<char> {
    match t {
        Some(x) => x,
        None => instead,
    }
}

/// Append a text, or what stands in its place.
fn append_or(out: &mut String, t: &Option<String>, instead: &str)
    ensures
        final(out)@ == old(out)@ + text_or(t.deep_view(), instead@),
{
    match t {
        Some(x) => {
            out.append(x);
        },
        None => {
            out.append(instead);
        },
    }
}

/// The durations of a successful probe: with several samples the median and the
/// spread.
pub open spec fn durations_text(r: ProbeResultView, t: Timings) -> Seq<char> {
    match r.stats {
        Some(s) if r.samples > 1 => padded_name(r.name) + " median "@ + padded_tenths(
            s.median_total_tenths,
        ) + " ms   (min "@ + tenths_text(s.min_total_tenths as int) + ", max "@ + tenths_text(
            s.max_total_tenths as int,
        ) + ", n="@ + text::number(r.samples as nat) + ")   ttfb "@ + padded_tenths(t.ttfb_tenths)
            + " ms"@,
        _ => padded_name(r.name) + " total "@ + padded_tenths(t.total_tenths)
            + " ms   ttfb "@ + padded_tenths(t.ttfb_tenths) + " ms"@,
    }
}

/// Where a successful probe came out.
pub open spec fn egress_text(r: ProbeResultView) -> Seq<char> {
    match r.exit {
        Some(exit) => "   exit "@ + exit.ip + (match (exit.loc, exit.colo) {
            (Some(loc), Some(colo)) => " ("@ + loc + "/"@ + colo + ")"@,
            (Some(loc), None) => " ("@ + loc + ")"@,
            (None, Some(colo)) => " ("@ + colo + ")"@,
            (None, None) => Seq::empty(),
        }),
        None => match r.remote_ip {
            Some(ip) => "   via "@ + ip,
            None => Seq::empty(),
        },
    }
}

/// The line of a successful probe.
pub open spec fn success_text(r: ProbeResultView, t: Timings) -> Seq<char> {
    durations_text(r, t) + (match r.http_code {
        Some(code) => "   http "@ + text::number(code as nat),
        None => Seq::empty(),
    }) + egress_text(r) + (if r.failures > 0 {
        "   ("@ + text::number(r.failures as nat) + "/"@ + text::number(r.samples as nat)
            + " failed)"@
    } else {
        Seq::empty()
    })
}

/// The line of a probe.
pub open spec fn probe_text(r: ProbeResultView) -> Seq<char> {
    (if r.ok {
        success_text(r, r.timings->0)
    } else {
        padded_name(r.name) + " FAILED: "@ + text_or(r.error, "unknown error"@)
    }) + (match r.warning {
        Some(warning) => "   [warning: "@ + warning + "]"@,
        None => Seq::empty(),
    })
}

/// The durations of a successful probe.
fn duration_words(r: &ProbeResult, t: &Timings) -> (line: String)
    ensures
        line@ == durations_text(r.deep_view(), *t),
{
    let mut line = text::text_pad_right(&r.name, NAME_WIDTH);
    let ttfb = pad_tenths(t.ttfb_tenths);
    match r.stats {
        Some(s) => {
            if r.samples > 1 {
                let median = pad_tenths(s.median_total_tenths);
                let least = text_tenths(s.min_total_tenths);
                let most = text_tenths(s.max_total_tenths);
                let n = text::text_number(r.samples as u64);
                line.append(" median ");
                line.append(&median);
                line.append(" ms   (min ");
                line.append(&least);
                line.append(", max ");
                line.append(&most);
                line.append(", n=");
                line.append(&n);
                line.append(")   ttfb ");
                line.append(&ttfb);
                line.append(" ms");
                return line;
            }
        },
        None => {},
    }
    let total = pad_tenths(t.total_tenths);
    line.append(" total ");
    line.append(&total);
    line.append(" ms   ttfb ");
    line.append(&ttfb);
    line.append(" ms");
    line
}

/// Where a successful probe came out.
fn egress_words(r: &ProbeResult) -> (line: String)
    ensures
        line@ == egress_text(r.deep_view()),
{
    match &r.exit {
        Some(exit) => {
            let mut line = "   exit ".to_owned();
            line.append(&exit.ip);
            match (&exit.loc, &exit.colo) {
                (Some(loc), Some(colo)) => {
                    let mut place = " (".to_owned();
                    place.append(loc);
                    place.append("/");
                    place.append(colo);
                    place.append(")");
                    line.append(&place);
                },
                (Some(loc), None) => {
                    let mut place = " (".to_owned();
                    place.append(loc);
                    place.append(")");
                    line.append(&place);
                },
                (None, Some(colo)) => {
                    let mut place = " (".to_owned();
                    place.append(colo);
                    place.append(")");
                    line.append(&place);
                },
                (None, None) => {
                    let nothing = String::new();
                    line.append(&nothing);
                },
            }
            line
        },
        None => match &r.remote_ip {
            Some(ip) => {
                let mut line = "   via ".to_owned();
                line.append(ip);
                line
            },
            None => String::new(),
        },
    }
}

/// The line of a successful probe.
fn success_line(r: &ProbeResult, t: &Timings) -> (line: String)
    ensures
        line@ == success_text(r.deep_view(), *t),
{
    let mut line = duration_words(r, t);
    let mut http = String::new();
    match r.http_code {
        Some(code) => {
            let n = text::text_number(code as u64);
            http = "   http ".to_owned();
            http.append(&n);
        },
        None => {},
    }
    line.append(&http);
    let egress = egress_words(r);
    line.append(&egress);
    let mut failed = String::new();
    if r.failures > 0 {
        let failures = text::text_number(r.failures as u64);
        let samples = text::text_number(r.samples as u64);
        failed = "   (".to_owned();
        failed.append(&failures);
        failed.append("/");
        failed.append(&samples);
        failed.append(" failed)");
    }
    line.append(&failed);
    line
}

/// The line of a probe.
fn probe_line(r: &ProbeResult) -> (line: String)
    requires
        r.ok ==> r.timings is Some,
    ensures
        line@ == probe_text(r.deep_view()),
{
    let mut line: String;
    match r.timings {
        Some(t) if r.ok => {
            line = success_line(r, &t);
        },
        _ => {
            line = text::text_pad_right(&r.name, NAME_WIDTH);
            line.append(" FAILED: ");
            append_or(&mut line, &r.error, "unknown error");
        },
    }
    let mut note = String::new();
    match &r.warning {
        Some(warning) => {
            note = "   [warning: ".to_owned();
            note.append(warning);
            note.append("]");
        },
        None => {},
    }
    line.append(&note);
    line
}

/// The lines of the findings, after `head`.
pub open spec fn lint_text(head: Seq<char>, findings: Seq<FindingView>) -> Seq<char>
    decreases findings.len(),
{
    if findings.len() == 0 {
        head
    } else {
        lint_text(head, findings.drop_last()) + "\n      "@ + (match findings.last().severity {
            Severity::Error => "error"@,
            Severity::Warning => "warning"@,
        }) + ": "@ + findings.last().message
    }
}

/// The lines of a lint result.
pub open spec fn linted_text(r: LintResultView) -> Seq<char> {
    if r.findings.len() == 0 {
        "ok    "@ + r.name
    } else {
        lint_text(
            (if r.ok {
                "warn  "@
            } else {
                "FAIL  "@
            }) + r.name,
            r.findings,
        )
    }
}

/// The lines of a lint result.
fn lint_lines(r: &LintResult) -> (out: String)
    ensures
        out@ == linted_text(r.deep_view()),
{
    let ghost f = r.findings.deep_view();
    proof {
        assert(f.len() == r.findings@.len());
    }
    if r.findings.len() == 0 {
        let mut out = "ok    ".to_owned();
        out.append(&r.name);
        return out;
    }
    let mut out = if r.ok {
        "warn  ".to_owned()
    } else {
        "FAIL  ".to_owned()
    };
    out.append(&r.name);
    let ghost head = out@;
    let mut i: usize = 0;
    proof {
        assert(f.take(0) =~= Seq::<FindingView>::empty());
    }
    while i < r.findings.len()
        invariant
            f == r.findings.deep_view(),
            i <= r.findings@.len(),
            out@ == lint_text(head, f.take(i as int)),
        decreases r.findings@.len() - i,
    {
        proof {
            assert(f.take(i + 1).drop_last() =~= f.take(i as int));
            assert(f.take(i + 1).last() == r.findings@[i as int].deep_view());
        }
        out.append("\n      ");
        match r.findings[i].severity {
            Severity::Error => {
                out.append("error");
            },
            Severity::Warning => {
                out.append("warning");
            },
        }
        out.append(": ");
        out.append(&r.findings[i].message);
        i = i + 1;
    }
    proof {
        assert(f.take(f.len() as int) =~= f);
    }
    out
}

/// The notes of the findings, after `head`.
pub open spec fn noted_text(head: Seq<char>, findings: Seq<FindingView>) -> Seq<char>
    decreases findings.len(),
{
    if findings.len() == 0 {
        head
    } else {
        noted_text(head, findings.drop_last()) + "\n  note: "@ + findings.last().message
    }
}

/// The notes of the findings, after `head`.
fn note_findings(head: String, findings: &Vec<Finding>) -> (r: String)
    ensures
        r@ == noted_text(head@, findings.deep_view()),
{
    let ghost f = findings.deep_view();
    let ghost h = head@;
    let mut out = head;
    let mut i: usize = 0;
    proof {
        assert(f.take(0) =~= Seq::<FindingView>::empty());
    }
    while i < findings.len()
        invariant
            f == findings.deep_view(),
            i <= findings@.len(),
            out@ == noted_text(h, f.take(i as int)),
        decreases findings@.len() - i,
    {
        proof {
            assert(f.take(i + 1).drop_last() =~= f.take(i as int));
            assert(f.take(i + 1).last() == findings@[i as int].deep_view());
        }
        out.append("\n  note: ");
        out.append(&findings[i].message);
        i = i + 1;
    }
    proof {
        assert(f.take(f.len() as int) =~= f);
    }
    out
}

/// The line of a recovered tunnel.
pub open spec fn recovered_text(r: RecoveredView) -> Seq<char> {
    "recovered "@ + r.tunnel + " ("@ + r.reason + ")"@ + (if r.dns_cleared.len() == 0 {
        Seq::empty()
    } else {
        "; restored DNS on "@ + text::join(r.dns_cleared, ", "@)
    }) + (match r.dns_warning {
        Some(w) => "; warning: "@ + w,
        None => Seq::empty(),
    })
}

/// The line of a recovered tunnel.
fn recovered_line(r: &Recovered) -> (line: String)
    ensures
        line@ == recovered_text(r.deep_view()),
{
    let mut line = "recovered ".to_owned();
    line.append(&r.tunnel);
    line.append(" (");
    line.append(&r.reason);
    line.append(")");
    proof {
        assert(r.dns_cleared.deep_view().len() == r.dns_cleared@.len());
    }
    let mut cleared = String::new();
    if r.dns_cleared.len() > 0 {
        let services = text::text_join(&r.dns_cleared, ", ");
        cleared = "; restored DNS on ".to_owned();
        cleared.append(&services);
    }
    line.append(&cleared);
    let mut warned = String::new();
    match &r.dns_warning {
        Some(w) => {
            warned = "; warning: ".to_owned();
            warned.append(w);
        },
        None => {},
    }
    line.append(&warned);
    line
}

/// The line of a location.
pub open spec fn location_text(r: LocationResultView) -> Seq<char> {
    if r.ok {
        "  "@ + padded_name(r.name) + " "@ + (match r.status {
            Some(s) => text::number(s as nat),
            None => "?"@,
        }) + " ("@ + text::number(r.headers.len()) + " headers)"@
    } else {
        "  "@ + padded_name(r.name) + " FAILED: "@ + text_or(r.error, "unknown error"@)
    }
}

/// The line of a location.
fn location_line(r: &LocationResult) -> (line: String)
    ensures
        line@ == location_text(r.deep_view()),
{
    let name = text::text_pad_right(&r.name, NAME_WIDTH);
    let mut line = "  ".to_owned();
    line.append(&name);
    if r.ok {
        line.append(" ");
        match r.status {
            Some(s) => {
                let n = text::text_number(s as u64);
                line.append(&n);
            },
            None => {
                line.append("?");
            },
        }
        line.append(" (");
        let n = text::text_number(r.headers.len() as u64);
        line.append(&n);
        line.append(" headers)");
    } else {
        line.append(" FAILED: ");
        append_or(&mut line, &r.error, "unknown error");
    }
    line
}

// ---------------------------------------------------------------------------
// Rendering of reports
// ---------------------------------------------------------------------------

/// The lines of a list of tunnels.
pub open spec fn list_lines(tunnels: Seq<ListEntryView>) -> Seq<Seq<char>> {
    tunnels.map_values(|t: ListEntryView| state_text(t.up) + "  "@ + t.name)
}

/// The lines of a list of statuses.
pub open spec fn status_lines(tunnels: Seq<TunnelStatusView>) -> Seq<Seq<char>> {
    tunnels.map_values(|t: TunnelStatusView| t.name + ": "@ + status_text(t))
}

/// The lines of a list of probes.
pub open spec fn probe_lines(results: Seq<ProbeResultView>) -> Seq<Seq<char>> {
    results.map_values(|r: ProbeResultView| probe_text(r))
}

/// The lines of a list of lint results.
pub open spec fn linted_lines(results: Seq<LintResultView>) -> Seq<Seq<char>> {
    results.map_values(|r: LintResultView| linted_text(r))
}

/// The lines of a list of checks.
pub open spec fn check_lines(checks: Seq<CheckView>) -> Seq<Seq<char>> {
    checks.map_values(
        |c: CheckView|
            (if c.ok {
                "ok  "@
            } else {
                "FAIL"@
            }) + " "@ + padded_name(c.name) + " "@ + c.detail,
    )
}

/// The lines of a list of issues.
pub open spec fn issue_lines(issues: Seq<HealthIssueView>) -> Seq<Seq<char>> {
    issues.map_values(|i: HealthIssueView| "  ["@ + i.kind + "] "@ + i.detail)
}

/// The lines of a list of recovered tunnels.
pub open spec fn recovered_lines(recovered: Seq<RecoveredView>) -> Seq<Seq<char>> {
    recovered.map_values(|r: RecoveredView| recovered_text(r))
}

/// The lines of a list of locations.
pub open spec fn location_lines(results: Seq<LocationResultView>) -> Seq<Seq<char>> {
    results.map_values(|r: LocationResultView| location_text(r))
}

/// The lines of the values of a field.
pub open spec fn value_lines(values: FieldValues) -> Seq<Seq<char>> {
    values.map_values(
        |v: (Seq<char>, Option<Seq<char>>)|
            "    "@ + padded_name(v.0) + " "@ + text_or(v.1, "(absent)"@),
    )
}

/// The lines of the fields that differ.
pub open spec fn field_lines(diffs: Seq<FieldDiffView>) -> Seq<Seq<char>>
    decreases diffs.len(),
{
    if diffs.len() == 0 {
        Seq::empty()
    } else {
        field_lines(diffs.drop_last()).push("  "@ + diffs.last().field + ":"@) + value_lines(
            diffs.last().values,
        )
    }
}

/// The lines of a comparison of locations.
pub open spec fn diff_lines(
    url: Seq<char>,
    results: Seq<LocationResultView>,
    diffs: Seq<FieldDiffView>,
) -> Seq<Seq<char>> {
    let head = seq![
        "diff of "@ + url + " across "@ + text::number(results.len()) + " location(s):"@,
    ] + location_lines(results);
    let ok_count = successes(results).len();
    if ok_count < 2 {
        head.push("(need at least two successful locations to compare)"@)
    } else if diffs.len() == 0 {
        head.push(
            "all "@ + text::number(ok_count)
                + " locations returned identical status and headers"@,
        )
    } else {
        head.push(text::number(diffs.len()) + " field(s) differ:"@) + field_lines(diffs)
    }
}

/// The text of `down`.
pub open spec fn down_text(
    name: Seq<char>,
    changed: bool,
    dns_cleared: Seq<Seq<char>>,
    dns_warning: Option<Seq<char>>,
) -> Seq<char> {
    name + (if changed {
        ": brought down"@
    } else {
        ": already down"@
    }) + (if dns_cleared.len() == 0 {
        Seq::empty()
    } else {
        " (cleared stale VPN DNS from "@ + text::join(dns_cleared, ", "@) + ")"@
    }) + (match dns_warning {
        Some(w) => "\nwarning: "@ + w,
        None => Seq::empty(),
    })
}

/// The text of `recover`.
pub open spec fn recover_lines(recovered: Seq<RecoveredView>, health: HealthReportView) -> Seq<
    Seq<char>,
> {
    let lines = if recovered.len() == 0 {
        seq!["nothing to recover — host state is clean"@]
    } else {
        recovered_lines(recovered)
    };
    if health.healthy {
        lines
    } else {
        lines.push("WARNING — host still inconsistent after recovery:"@) + issue_lines(
            health.issues,
        )
    }
}

impl ReportView {
    /// Whether the report can be rendered: successful probes carry timings.
    pub open spec fn wf(self) -> bool {
        self matches ReportView::Probe { results } ==> forall|i: int|
            0 <= i < results.len() ==> ((#[trigger] results[i]).ok ==> results[i].timings is Some)
    }

    /// The report as human text.
    pub open spec fn human(self) -> Seq<char> {
        match self {
            ReportView::List { config_dir, tunnels } => if tunnels.len() == 0 {
                "no tunnels found in "@ + config_dir
            } else {
                text::join(list_lines(tunnels), "\n"@)
            },
            ReportView::Up { name, changed, status } => name + (if changed {
                ": brought up ("@
            } else {
                ": already up ("@
            }) + status_text(status) + ")"@,
            ReportView::Down { name, changed, dns_cleared, dns_warning } => down_text(
                name,
                changed,
                dns_cleared,
                dns_warning,
            ),
            ReportView::Status { tunnels } => if tunnels.len() == 0 {
                "no tunnels"@
            } else {
                text::join(status_lines(tunnels), "\n"@)
            },
            ReportView::Current { active } => if active.len() == 0 {
                "none"@
            } else {
                text::join(active, "\n"@)
            },
            ReportView::Probe { results } => if results.len() == 0 {
                "no tunnels"@
            } else {
                text::join(probe_lines(results), "\n"@)
            },
            ReportView::Exec { name, exit_code, .. } => name + ": command exited "@
                + text::signed_number(exit_code as int),
            ReportView::Lint { results } => if results.len() == 0 {
                "no tunnels"@
            } else {
                text::join(linted_lines(results), "\n"@)
            },
            ReportView::Add { name, path, lint } => noted_text(
                "added "@ + name + " ("@ + path + ")"@,
                lint.findings,
            ),
            ReportView::Split { source, name, path, entries } => name + ": split tunnel of "@
                + source + " written to "@ + path + " ("@ + text::number(entries as nat)
                + " AllowedIPs entries, endpoint excluded)"@,
            ReportView::Doctor { checks } => text::join(check_lines(checks), "\n"@),
            ReportView::Diff { url, results, diffs } => text::join(
                diff_lines(url, results, diffs),
                "\n"@,
            ),
            ReportView::Verify { health } => if health.healthy {
                "ok — host network is consistent"@
            } else {
                text::join(
                    seq!["FAIL — host network needs repair:"@] + issue_lines(health.issues),
                    "\n"@,
                )
            },
            ReportView::Recover { recovered, health } => text::join(
                recover_lines(recovered, health),
                "\n"@,
            ),
        }
    }
}

/// The lines of a list of tunnels.
fn render_list(tunnels: &Vec<ListEntry>) -> (r: Vec<String>)
    ensures
        r.deep_view() == list_lines(tunnels.deep_view()),
{
    let ghost v = tunnels.deep_view();
    let mut lines = text::no_texts();
    let mut i: usize = 0;
    while i < tunnels.len()
        invariant
            v == tunnels.deep_view(),
            i <= tunnels@.len(),
            lines.deep_view() == list_lines(v.take(i as int)),
        decreases tunnels@.len() - i,
    {
        proof {
            assert(v[i as int] == tunnels@[i as int].deep_view());
        }
        let ghost before = lines.deep_view();
        let mut line = state_word(tunnels[i].up).to_owned();
        line.append("  ");
        line.append(&tunnels[i].name);
        text::push_text(&mut lines, &line);
        proof {
            assert(list_lines(v.take(i + 1)) =~= before.push(line@));
        }
        i = i + 1;
    }
    proof {
        assert(v.take(v.len() as int) =~= v);
    }
    lines
}

/// The lines of a list of statuses.
fn render_statuses(tunnels: &Vec<TunnelStatus>) -> (r: Vec<String>)
    ensures
        r.deep_view() == status_lines(tunnels.deep_view()),
{
    let ghost v = tunnels.deep_view();
    let mut lines = text::no_texts();
    let mut i: usize = 0;
    while i < tunnels.len()
        invariant
            v == tunnels.deep_view(),
            i <= tunnels@.len(),
            lines.deep_view() == status_lines(v.take(i as int)),
        decreases tunnels@.len() - i,
    {
        proof {
            assert(v[i as int] == tunnels@[i as int].deep_view());
        }
        let ghost before = lines.deep_view();
        let words = status_line(&tunnels[i]);
        let mut line = tunnels[i].name.clone();
        line.append(": ");
        line.append(&words);
        text::push_text(&mut lines, &line);
        proof {
            assert(status_lines(v.take(i + 1)) =~= before.push(line@));
        }
        i = i + 1;
    }
    proof {
        assert(v.take(v.len() as int) =~= v);
    }
    lines
}

/// The lines of a list of probes.
fn render_probes(results: &Vec<ProbeResult>) -> (r: Vec<String>)
    requires
        forall|i: int|
            0 <= i < results@.len() ==> ((#[trigger] results@[i]).ok ==> results@[i].timings is Some),
    ensures
        r.deep_view() == probe_lines(results.deep_view()),
{
    let ghost v = results.deep_view();
    let mut lines = text::no_texts();
    let mut i: usize = 0;
    while i < results.len()
        invariant
            v == results.deep_view(),
            i <= results@.len(),
            forall|j: int|
                0 <= j < results@.len() ==> ((#[trigger] results@[j]).ok
                    ==> results@[j].timings is Some),
            lines.deep_view() == probe_lines(v.take(i as int)),
        decreases results@.len() - i,
    {
        proof {
            assert(v[i as int] == results@[i as int].deep_view());
        }
        let ghost before = lines.deep_view();
        let line = probe_line(&results[i]);
        text::push_text(&mut lines, &line);
        proof {
            assert(probe_lines(v.take(i + 1)) =~= before.push(line@));
        }
        i = i + 1;
    }
    proof {
        assert(v.take(v.len() as int) =~= v);
    }
    lines
}

/// The lines of a list of lint results.
fn render_lints(results: &Vec<LintResult>) -> (r: Vec<String>)
    ensures
        r.deep_view() == linted_lines(results.deep_view()),
{
    let ghost v = results.deep_view();
    let mut lines = text::no_texts();
    let mut i: usize = 0;
    while i < results.len()
        invariant
            v == results.deep_view(),
            i <= results@.len(),
            lines.deep_view() == linted_lines(v.take(i as int)),
        decreases results@.len() - i,
    {
        proof {
            assert(v[i as int] == results@[i as int].deep_view());
        }
        let ghost before = lines.deep_view();
        let line = lint_lines(&results[i]);
        text::push_text(&mut lines, &line);
        proof {
            assert(linted_lines(v.take(i + 1)) =~= before.push(line@));
        }
        i = i + 1;
    }
    proof {
        assert(v.take(v.len() as int) =~= v);
    }
    lines
}

/// The lines of a list of checks.
fn render_checks(checks: &Vec<Check>) -> (r: Vec<String>)
    ensures
        r.deep_view() == check_lines(checks.deep_view()),
{
    let ghost v = checks.deep_view();
    let mut lines = text::no_texts();
    let mut i: usize = 0;
    while i < checks.len()
        invariant
            v == checks.deep_view(),
            i <= checks@.len(),
            lines.deep_view() == check_lines(v.take(i as int)),
        decreases checks@.len() - i,
    {
        proof {
            assert(v[i as int] == checks@[i as int].deep_view());
        }
        let ghost before = lines.deep_view();
        let name = text::text_pad_right(&checks[i].name, NAME_WIDTH);
        let mut line = if checks[i].ok {
            "ok  ".to_owned()
        } else {
            "FAIL".to_owned()
        };
        line.append(" ");
        line.append(&name);
        line.append(" ");
        line.append(&checks[i].detail);
        text::push_text(&mut lines, &line);
        proof {
            assert(check_lines(v.take(i + 1)) =~= before.push(line@));
        }
        i = i + 1;
    }
    proof {
        assert(v.take(v.len() as int) =~= v);
    }
    lines
}

/// The lines of a list of issues.
fn render_issues(issues: &Vec<HealthIssue>) -> (r: Vec<String>)
    ensures
        r.deep_view() == issue_lines(issues.deep_view()),
{
    let ghost v = issues.deep_view();
    let mut lines = text::no_texts();
    let mut i: usize = 0;
    while i < issues.len()
        invariant
            v == issues.deep_view(),
            i <= issues@.len(),
            lines.deep_view() == issue_lines(v.take(i as int)),
        decreases issues@.len() - i,
    {
        proof {
            assert(v[i as int] == issues@[i as int].deep_view());
        }
        let ghost before = lines.deep_view();
        let mut line = "  [".to_owned();
        line.append(issues[i].kind);
        line.append("] ");
        line.append(&issues[i].detail);
        text::push_text(&mut lines, &line);
        proof {
            assert(issue_lines(v.take(i + 1)) =~= before.push(line@));
        }
        i = i + 1;
    }
    proof {
        assert(v.take(v.len() as int) =~= v);
    }
    lines
}

/// The lines of a list of recovered tunnels.
fn render_recovered(recovered: &Vec<Recovered>) -> (r: Vec<String>)
    ensures
        r.deep_view() == recovered_lines(recovered.deep_view()),
{
    let ghost v = recovered.deep_view();
    let mut lines = text::no_texts();
    let mut i: usize = 0;
    while i < recovered.len()
        invariant
            v == recovered.deep_view(),
            i <= recovered@.len(),
            lines.deep_view() == recovered_lines(v.take(i as int)),
        decreases recovered@.len() - i,
    {
        proof {
            assert(v[i as int] == recovered@[i as int].deep_view());
        }
        let ghost before = lines.deep_view();
        let line = recovered_line(&recovered[i]);
        text::push_text(&mut lines, &line);
        proof {
            assert(recovered_lines(v.take(i + 1)) =~= before.push(line@));
        }
        i = i + 1;
    }
    proof {
        assert(v.take(v.len() as int) =~= v);
    }
    lines
}

/// The lines of a list of locations.
fn render_locations(results: &Vec<LocationResult>) -> (r: Vec<String>)
    ensures
        r.deep_view() == location_lines(results.deep_view()),
{
    let ghost v = results.deep_view();
    let mut lines = text::no_texts();
    let mut i: usize = 0;
    while i < results.len()
        invariant
            v == results.deep_view(),
            i <= results@.len(),
            lines.deep_view() == location_lines(v.take(i as int)),
        decreases results@.len() - i,
    {
        proof {
            assert(v[i as int] == results@[i as int].deep_view());
        }
        let ghost before = lines.deep_view();
        let line = location_line(&results[i]);
        text::push_text(&mut lines, &line);
        proof {
            assert(location_lines(v.take(i + 1)) =~= before.push(line@));
        }
        i = i + 1;
    }
    proof {
        assert(v.take(v.len() as int) =~= v);
    }
    lines
}

/// The lines of the values of a field.
fn render_values(values: &TextMap<Option<String>>) -> (r: Vec<String>)
    ensures
        r.deep_view() == value_lines(values.deep_view()),
{
    let ghost v = values.deep_view();
    let entries = values.entries();
    let mut lines = text::no_texts();
    let mut i: usize = 0;
    while i < entries.len()
        invariant
            v == entries.deep_view(),
            i <= entries@.len(),
            lines.deep_view() == value_lines(v.take(i as int)),
        decreases entries@.len() - i,
    {
        proof {
            assert(v[i as int] == entries@[i as int].deep_view());
        }
        let ghost before = lines.deep_view();
        let name = text::text_pad_right(&entries[i].0, NAME_WIDTH);
        let mut line = "    ".to_owned();
        line.append(&name);
        line.append(" ");
        append_or(&mut line, &entries[i].1, "(absent)");
        text::push_text(&mut lines, &line);
        proof {
            assert(value_lines(v.take(i + 1)) =~= before.push(line@));
        }
        i = i + 1;
    }
    proof {
        assert(v.take(v.len() as int) =~= v);
    }
    lines
}

/// Add texts to a list.
fn add_all(list: &mut Vec<String>, more: Vec<String>)
    ensures
        final(list).deep_view() == old(list).deep_view() + more.deep_view(),
{
    let ghost before = list.deep_view();
    let ghost added = more.deep_view();
    let mut rest = more;
    list.append(&mut rest);
    proof {
        assert(list.deep_view() =~= before + added);
    }
}

/// The lines of the fields that differ.
fn render_fields(diffs: &Vec<FieldDiff>) -> (r: Vec<String>)
    ensures
        r.deep_view() == field_lines(diffs.deep_view()),
{
    let ghost v = diffs.deep_view();
    let mut lines = text::no_texts();
    let mut i: usize = 0;
    proof {
        assert(v.take(0) =~= Seq::<FieldDiffView>::empty());
    }
    while i < diffs.len()
        invariant
            v == diffs.deep_view(),
            i <= diffs@.len(),
            lines.deep_view() == field_lines(v.take(i as int)),
        decreases diffs@.len() - i,
    {
        proof {
            assert(v.take(i + 1).drop_last() =~= v.take(i as int));
            assert(v.take(i + 1).last() == diffs@[i as int].deep_view());
        }
        let mut line = "  ".to_owned();
        line.append(&diffs[i].field);
        line.append(":");
        text::push_text(&mut lines, &line);
        let values = render_values(&diffs[i].values);
        add_all(&mut lines, values);
        i = i + 1;
    }
    proof {
        assert(v.take(v.len() as int) =~= v);
    }
    lines
}

/// The number of locations whose fetch succeeded.
fn count_successes(results: &Vec<LocationResult>) -> (n: usize)
    ensures
        n == successes(results.deep_view()).len(),
{
    let ghost v = results.deep_view();
    let mut n: usize = 0;
    let mut i: usize = 0;
    proof {
        assert(v.take(0) =~= Seq::<LocationResultView>::empty());
    }
    while i < results.len()
        invariant
            v == results.deep_view(),
            n <= i <= results@.len(),
            n == successes(v.take(i as int)).len(),
        decreases results@.len() - i,
    {
        proof {
            assert(v.take(i + 1).drop_last() =~= v.take(i as int));
            assert(v.take(i + 1).last() == results@[i as int].deep_view());
        }
        if results[i].ok {
            n = n + 1;
        }
        i = i + 1;
    }
    proof {
        assert(v.take(v.len() as int) =~= v);
    }
    n
}

/// The lines of a comparison of locations.
fn render_diff(url: &str, results: &Vec<LocationResult>, diffs: &Vec<FieldDiff>) -> (r: Vec<String>)
    ensures
        r.deep_view() == diff_lines(url@, results.deep_view(), diffs.deep_view()),
{
    proof {
        assert(results.deep_view().len() == results@.len());
        assert(diffs.deep_view().len() == diffs@.len());
    }
    let n = text::text_number(results.len() as u64);
    let mut head = "diff of ".to_owned();
    head.append(url);
    head.append(" across ");
    head.append(&n);
    head.append(" location(s):");
    let mut lines = text::list_of(&head);
    let locations = render_locations(results);
    add_all(&mut lines, locations);
    let ok_count: usize = count_successes(results);
    if ok_count < 2 {
        text::push_text(&mut lines, "(need at least two successful locations to compare)");
    } else if diffs.len() == 0 {
        let count = text::text_number(ok_count as u64);
        let mut line = "all ".to_owned();
        line.append(&count);
        line.append(" locations returned identical status and headers");
        text::push_text(&mut lines, &line);
    } else {
        let mut line = text::text_number(diffs.len() as u64);
        line.append(" field(s) differ:");
        text::push_text(&mut lines, &line);
        let fields = render_fields(diffs);
        add_all(&mut lines, fields);
    }
    lines
}

/// The text of `down`.
fn render_down(
    name: &str,
    changed: bool,
    dns_cleared: &Vec<String>,
    dns_warning: &Option<String>,
) -> (r: String)
    ensures
        r@ == down_text(name@, changed, dns_cleared.deep_view(), dns_warning.deep_view()),
{
    let mut out = name.to_owned();
    if changed {
        out.append(": brought down");
    } else {
        out.append(": already down");
    }
    proof {
        assert(dns_cleared.deep_view().len() == dns_cleared@.len());
    }
    let mut cleared = String::new();
    if dns_cleared.len() > 0 {
        let services = text::text_join(dns_cleared, ", ");
        cleared = " (cleared stale VPN DNS from ".to_owned();
        cleared.append(&services);
        cleared.append(")");
    }
    out.append(&cleared);
    let mut warned = String::new();
    match dns_warning {
        Some(w) => {
            warned = "\nwarning: ".to_owned();
            warned.append(w);
        },
        None => {},
    }
    out.append(&warned);
    out
}

/// The lines of `recover`.
fn render_recovery(recovered: &Vec<Recovered>, health: &HealthReport) -> (r: Vec<String>)
    ensures
        r.deep_view() == recover_lines(recovered.deep_view(), health.deep_view()),
{
    proof {
        assert(recovered.deep_view().len() == recovered@.len());
    }
    let mut lines = if recovered.len() == 0 {
        text::list_of("nothing to recover — host state is clean")
    } else {
        render_recovered(recovered)
    };
    if !health.healthy {
        text::push_text(&mut lines, "WARNING — host still inconsistent after recovery:");
        let issues = render_issues(&health.issues);
        add_all(&mut lines, issues);
    }
    lines
}

/// The lines of `verify` where something is wrong.
fn render_unhealthy(health: &HealthReport) -> (r: String)
    ensures
        r@ == text::join(
            seq!["FAIL — host network needs repair:"@] + issue_lines(health.deep_view().issues),
            "\n"@,
        ),
{
    let mut lines = text::list_of("FAIL — host network needs repair:");
    let issues = render_issues(&health.issues);
    add_all(&mut lines, issues);
    text::text_join(&lines, "\n")
}

/// Render a report as human text.
pub fn human_report(report: &Report) -> (r: String)
    requires
        report.deep_view().wf(),
    ensures
        r@ == report.deep_view().human(),
{
    match report {
        Report::List { config_dir, tunnels } => {
            proof {
                assert(tunnels.deep_view().len() == tunnels@.len());
            }
            if tunnels.len() == 0 {
                let mut out = "no tunnels found in ".to_owned();
                out.append(config_dir);
                out
            } else {
                let lines = render_list(tunnels);
                text::text_join(&lines, "\n")
            }
        },
        Report::Up { name, changed, status } => {
            let words = status_line(status);
            let mut out = name.clone();
            if *changed {
                out.append(": brought up (");
            } else {
                out.append(": already up (");
            }
            out.append(&words);
            out.append(")");
            out
        },
        Report::Down { name, changed, dns_cleared, dns_warning } => render_down(
            name,
            *changed,
            dns_cleared,
            dns_warning,
        ),
        Report::Status { tunnels } => {
            proof {
                assert(tunnels.deep_view().len() == tunnels@.len());
            }
            if tunnels.len() == 0 {
                "no tunnels".to_owned()
            } else {
                let lines = render_statuses(tunnels);
                text::text_join(&lines, "\n")
            }
        },
        Report::Current { active } => {
            proof {
                assert(active.deep_view().len() == active@.len());
            }
            if active.len() == 0 {
                "none".to_owned()
            } else {
                text::text_join(active, "\n")
            }
        },
        Report::Probe { results } => {
            proof {
                assert(results.deep_view().len() == results@.len());
                assert forall|i: int| 0 <= i < results@.len() && (#[trigger] results@[i]).ok implies
                    results@[i].timings is Some by {
                    assert(results.deep_view()[i] == results@[i].deep_view());
                }
            }
            if results.len() == 0 {
                "no tunnels".to_owned()
            } else {
                let lines = render_probes(results);
                text::text_join(&lines, "\n")
            }
        },
        Report::Exec { name, exit_code, .. } => {
            let code = text::text_signed(*exit_code as i64);
            let mut out = name.clone();
            out.append(": command exited ");
            out.append(&code);
            out
        },
        Report::Lint { results } => {
            proof {
                assert(results.deep_view().len() == results@.len());
            }
            if results.len() == 0 {
                "no tunnels".to_owned()
            } else {
                let lines = render_lints(results);
                text::text_join(&lines, "\n")
            }
        },
        Report::Add { name, path, lint } => {
            let mut out = "added ".to_owned();
            out.append(name);
            out.append(" (");
            out.append(path);
            out.append(")");
            note_findings(out, &lint.findings)
        },
        Report::Split { source, name, path, entries } => {
            let n = text::text_number(*entries as u64);
            let mut out = name.clone();
            out.append(": split tunnel of ");
            out.append(source);
            out.append(" written to ");
            out.append(path);
            out.append(" (");
            out.append(&n);
            out.append(" AllowedIPs entries, endpoint excluded)");
            out
        },
        Report::Doctor { checks } => {
            let lines = render_checks(checks);
            text::text_join(&lines, "\n")
        },
        Report::Diff { url, results, diffs } => {
            let lines = render_diff(url, results, diffs);
            text::text_join(&lines, "\n")
        },
        Report::Verify { health } => {
            if health.healthy {
                "ok — host network is consistent".to_owned()
            } else {
                render_unhealthy(health)
            }
        },
        Report::Recover { recovered, health } => {
            let lines = render_recovery(recovered, health);
            text::text_join(&lines, "\n")
        },
    }
}

/// Rendering a report as JSON or human text.
pub open spec fn rendering(s: SessionView, report: ReportView, json: bool) -> Step<Seq<char>> {
    if json {
        s.encode(ActionView::EncodeReport(report))
    } else {
        (s, Some(report.human()))
    }
}

/// Render a successful report as JSON or human text.
pub fn render_report(session: &mut Session, report: Report, json: bool) -> (r: Option<String>)
    requires
        !json ==> report.deep_view().wf(),
    ensures
        (final(session).deep_view(), r.deep_view()) == rendering(
            old(session).deep_view(),
            report.deep_view(),
            json,
        ),
{
    if json {
        session.encode(Action::EncodeReport(report))
    } else {
        Some(human_report(&report))
    }
}

/// The fields of an error in JSON.
pub open spec fn error_fields(err: ErrorView) -> Seq<(Seq<char>, ScalarView)> {
    seq![
        ("ok"@, ScalarView::Flag(false)),
        ("error"@, ScalarView::Text(err.message())),
        ("code"@, ScalarView::Integer(err.exit_code() as i64)),
    ]
}

/// An error as JSON or human text.
pub open spec fn error_text(err: ErrorView, json: bool) -> Seq<char> {
    if json {
        json::object_text(error_fields(err))
    } else {
        "error: "@ + err.message()
    }
}

/// Render an error as JSON or human text.
pub fn render_error(err: &Error, json: bool) -> (r: String)
    ensures
        r@ == error_text(err.deep_view(), json),
{
    let message = err.to_string();
    if json {
        let code: i32 = err.exit_code();
        let mut fields: Vec<(String, Scalar)> = Vec::new();
        fields.push(("ok".to_owned(), Scalar::Flag(false)));
        fields.push(("error".to_owned(), Scalar::Text(message)));
        fields.push(("code".to_owned(), Scalar::Integer(code as i64)));
        proof {
            assert(fields.deep_view() =~= error_fields(err.deep_view()));
        }
        json::write_object(fields)
    } else {
        let mut out = "error: ".to_owned();
        out.append(&message);
        out
    }
}

} // verus!
