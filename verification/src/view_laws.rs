//! The views of values show what the values hold: every text and every field as it is.
use vstd::prelude::*;

use crate::backend::measure::{fetch_view, fetched_so_far, named_option, sampled_so_far};
use crate::backend::{Check, DownOutcome, ExecOutcome, HealthIssue, HealthReport, Recovered};
use crate::cidr::reported;
use crate::cli::{Cli, Command, CommandView, Settings};
use crate::config::{ConfSummary, Entry, PeerIdentity, Tunnel};
use crate::diff::{FieldDiff, Head, LocationResult};
use crate::dns::GuardOutcome;
use crate::error::{outcome, so_far, Error, ErrorView};
use crate::json::{Scalar, ScalarView};
use crate::lint::{Finding, LintResult};
use crate::output::{Report, ReportView};
use crate::probe::{curl_read, sampled, ProbeResult, Sample, Timings, TraceInfo};
use crate::runner::CommandOutput;
use crate::session::{
    told, Action, ActionView, DirListing, DirListingView, FileText, FileTextView, Removal,
    RemovalView, Reply, ReplyView,
};
use crate::settings::{parsed, FileConfig};
use crate::state::Journal;
use crate::status::{DumpPeer, ListEntry, Peer, TunnelStatus};
use crate::Execution;

verus! {

/// What a view of a [`DownOutcome`] shows.
pub proof fn law_view_of_down_outcome(v: DownOutcome)
    ensures
        v.deep_view().changed == v.changed,
        v.deep_view().dns_cleared == v.dns_cleared.deep_view(),
        v.deep_view().dns_warning == v.dns_warning.deep_view(),
{
}

/// What a view of a [`Recovered`] shows.
pub proof fn law_view_of_recovered(v: Recovered)
    ensures
        v.deep_view().tunnel == v.tunnel@,
        v.deep_view().reason == v.reason@,
        v.deep_view().dns_cleared == v.dns_cleared.deep_view(),
        v.deep_view().dns_warning == v.dns_warning.deep_view(),
{
}

/// What a view of a [`HealthReport`] shows.
pub proof fn law_view_of_health_report(v: HealthReport)
    ensures
        v.deep_view().healthy == v.healthy,
        v.deep_view().issues == v.issues.deep_view(),
{
}

/// What a view of a [`HealthIssue`] shows.
pub proof fn law_view_of_health_issue(v: HealthIssue)
    ensures
        v.deep_view().kind == v.kind@,
        v.deep_view().detail == v.detail@,
{
}

/// What a view of a [`Check`] shows.
pub proof fn law_view_of_check(v: Check)
    ensures
        v.deep_view().name == v.name@,
        v.deep_view().ok == v.ok,
        v.deep_view().detail == v.detail@,
{
}

/// What a view of an [`ExecOutcome`] shows.
pub proof fn law_view_of_exec_outcome(v: ExecOutcome)
    ensures
        v.deep_view().name == v.name@,
        v.deep_view().activated == v.activated,
        v.deep_view().exit_code == v.exit_code,
        v.deep_view().warning == v.warning.deep_view(),
{
}

/// What a view of a [`Cli`] shows.
pub proof fn law_view_of_cli(v: Cli)
    ensures
        v.deep_view().json == v.json,
        v.deep_view().config_dir == v.config_dir.deep_view(),
        v.deep_view().home == v.home.deep_view(),
        v.deep_view().sudo == v.sudo,
        v.deep_view().wg == v.wg.deep_view(),
        v.deep_view().wg_quick == v.wg_quick.deep_view(),
        v.deep_view().curl == v.curl.deep_view(),
        v.deep_view().command == v.command.deep_view(),
{
}

/// What a view of a [`Settings`] shows.
pub proof fn law_view_of_settings(v: Settings)
    ensures
        v.deep_view().config_dir == v.config_dir@,
        v.deep_view().sudo == v.sudo,
        v.deep_view().wg == v.wg@,
        v.deep_view().wg_quick == v.wg_quick@,
        v.deep_view().curl == v.curl@,
{
}

/// What a view of a [`Command`] shows.
pub proof fn law_view_of_command(v: Command)
    ensures
        v.deep_view() == match v {
            Command::List => CommandView::List,
            Command::Up { name, lease } => CommandView::Up { name: name@, lease: lease },
            Command::Down { name } => CommandView::Down { name: name@ },
            Command::Status { name } => CommandView::Status { name: name.deep_view() },
            Command::Current => CommandView::Current,
            Command::Probe { name, url, max_time, count } => CommandView::Probe {
                name: name.deep_view(),
                url: url@,
                max_time: max_time,
                count: count,
            },
            Command::Exec { name, command } => CommandView::Exec {
                name: name@,
                command: command.deep_view(),
            },
            Command::Lint { name } => CommandView::Lint { name: name.deep_view() },
            Command::Add { path, name, force, allow_hooks } => CommandView::Add {
                path: path@,
                name: name.deep_view(),
                force: force,
                allow_hooks: allow_hooks,
            },
            Command::Split { name, exclude, output, keep_dns, force } => CommandView::Split {
                name: name@,
                exclude: exclude.deep_view(),
                output: output.deep_view(),
                keep_dns: keep_dns,
                force: force,
            },
            Command::Doctor => CommandView::Doctor,
            Command::Recover => CommandView::Recover,
            Command::Verify => CommandView::Verify,
            Command::Diff { url, name, max_time } => CommandView::Diff {
                url: url@,
                name: name.deep_view(),
                max_time: max_time,
            },
        },
{
}

/// What a view of a [`Tunnel`] shows.
pub proof fn law_view_of_tunnel(v: Tunnel)
    ensures
        v.deep_view().name == v.name@,
        v.deep_view().path == v.path@,
{
}

/// What a view of an [`Entry`] shows.
pub proof fn law_view_of_entry(v: Entry)
    ensures
        v.deep_view().section == v.section,
        v.deep_view().key == v.key@,
        v.deep_view().value == v.value@,
{
}

/// What a view of a [`PeerIdentity`] shows.
pub proof fn law_view_of_peer_identity(v: PeerIdentity)
    ensures
        v.deep_view().public_key == v.public_key@,
        v.deep_view().allowed_ips == v.allowed_ips.deep_view(),
{
}

/// What a view of a [`ConfSummary`] shows.
pub proof fn law_view_of_conf_summary(v: ConfSummary)
    ensures
        v.deep_view().has_private_key == v.has_private_key,
        v.deep_view().peer_public_key == v.peer_public_key.deep_view(),
        v.deep_view().allowed_ips == v.allowed_ips.deep_view(),
        v.deep_view().endpoint == v.endpoint.deep_view(),
        v.deep_view().has_dns == v.has_dns,
        v.deep_view().dns_servers == v.dns_servers.deep_view(),
        v.deep_view().exec_hooks == v.exec_hooks.deep_view(),
{
}

/// What a view of a [`Head`] shows.
pub proof fn law_view_of_head(v: Head)
    ensures
        v.deep_view().status == v.status,
        v.deep_view().headers == v.headers.deep_view(),
{
}

/// What a view of a [`LocationResult`] shows.
pub proof fn law_view_of_location_result(v: LocationResult)
    ensures
        v.deep_view().name == v.name@,
        v.deep_view().ok == v.ok,
        v.deep_view().status == v.status,
        v.deep_view().headers == v.headers.deep_view(),
        v.deep_view().exit_ip == v.exit_ip.deep_view(),
        v.deep_view().error == v.error.deep_view(),
{
}

/// What a view of a [`FieldDiff`] shows.
pub proof fn law_view_of_field_diff(v: FieldDiff)
    ensures
        v.deep_view().field == v.field@,
        v.deep_view().values == v.values.deep_view(),
{
}

/// What a view of a [`GuardOutcome`] shows.
pub proof fn law_view_of_guard_outcome(v: GuardOutcome)
    ensures
        v.deep_view().cleared == v.cleared.deep_view(),
        v.deep_view().warning == v.warning.deep_view(),
{
}

/// What a view of an [`Error`] shows.
pub proof fn law_view_of_error(v: Error)
    ensures
        v.deep_view() == match v {
            Error::TunnelNotFound(name) => ErrorView::TunnelNotFound(name@),
            Error::InvalidName(name) => ErrorView::InvalidName(name@),
            Error::ConfigDir(path, source) => ErrorView::ConfigDir(path@, source@),
            Error::ConfigParse { path, message } => ErrorView::ConfigParse {
                path: path@,
                message: message@,
            },
            Error::TunnelConfRead { path, source } => ErrorView::TunnelConfRead {
                path: path@,
                source: source@,
            },
            Error::TunnelConfPeer { path } => ErrorView::TunnelConfPeer { path: path@ },
            Error::Backend { program, code, stderr } => ErrorView::Backend {
                program: program@,
                code: code,
                stderr: stderr@,
            },
            Error::Spawn { program, source } => ErrorView::Spawn {
                program: program@,
                source: source@,
            },
            Error::Refused(reason) => ErrorView::Refused(reason@),
            Error::Write { path, source } => ErrorView::Write { path: path@, source: source@ },
        },
{
}

/// What a view of a [`Scalar`] shows.
pub proof fn law_view_of_scalar(v: Scalar)
    ensures
        v.deep_view() == match v {
            Scalar::Flag(b) => ScalarView::Flag(b),
            Scalar::Integer(n) => ScalarView::Integer(n),
            Scalar::Text(s) => ScalarView::Text(s@),
        },
{
}

/// What a view of an [`Execution`] shows.
pub proof fn law_view_of_execution(v: Execution)
    ensures
        v.deep_view().message == v.message@,
        v.deep_view().code == v.code,
        v.deep_view().is_error == v.is_error,
{
}

/// What a view of a [`Finding`] shows.
pub proof fn law_view_of_finding(v: Finding)
    ensures
        v.deep_view().severity == v.severity,
        v.deep_view().message == v.message@,
{
}

/// What a view of a [`LintResult`] shows.
pub proof fn law_view_of_lint_result(v: LintResult)
    ensures
        v.deep_view().name == v.name@,
        v.deep_view().ok == v.ok,
        v.deep_view().findings == v.findings.deep_view(),
{
}

/// What a view of a [`Report`] shows.
pub proof fn law_view_of_report(v: Report)
    ensures
        v.deep_view() == match v {
            Report::List { config_dir, tunnels } => ReportView::List {
                config_dir: config_dir@,
                tunnels: tunnels.deep_view(),
            },
            Report::Up { name, changed, status } => ReportView::Up {
                name: name@,
                changed: changed,
                status: status.deep_view(),
            },
            Report::Down { name, changed, dns_cleared, dns_warning } => ReportView::Down {
                name: name@,
                changed: changed,
                dns_cleared: dns_cleared.deep_view(),
                dns_warning: dns_warning.deep_view(),
            },
            Report::Status { tunnels } => ReportView::Status { tunnels: tunnels.deep_view() },
            Report::Current { active } => ReportView::Current { active: active.deep_view() },
            Report::Probe { results } => ReportView::Probe { results: results.deep_view() },
            Report::Exec { name, activated, exit_code, warning } => ReportView::Exec {
                name: name@,
                activated: activated,
                exit_code: exit_code,
                warning: warning.deep_view(),
            },
            Report::Lint { results } => ReportView::Lint { results: results.deep_view() },
            Report::Add { name, path, lint } => ReportView::Add {
                name: name@,
                path: path@,
                lint: lint.deep_view(),
            },
            Report::Split { source, name, path, entries } => ReportView::Split {
                source: source@,
                name: name@,
                path: path@,
                entries: entries,
            },
            Report::Doctor { checks } => ReportView::Doctor { checks: checks.deep_view() },
            Report::Recover { recovered, health } => ReportView::Recover {
                recovered: recovered.deep_view(),
                health: health.deep_view(),
            },
            Report::Verify { health } => ReportView::Verify { health: health.deep_view() },
            Report::Diff { url, results, diffs } => ReportView::Diff {
                url: url@,
                results: results.deep_view(),
                diffs: diffs.deep_view(),
            },
        },
{
}

/// What a view of a [`TraceInfo`] shows.
pub proof fn law_view_of_trace_info(v: TraceInfo)
    ensures
        v.deep_view().ip == v.ip@,
        v.deep_view().loc == v.loc.deep_view(),
        v.deep_view().colo == v.colo.deep_view(),
{
}

/// What a view of a [`Sample`] shows.
pub proof fn law_view_of_sample(v: Sample)
    ensures
        v.deep_view().timings == v.timings,
        v.deep_view().remote_ip == v.remote_ip.deep_view(),
        v.deep_view().http_code == v.http_code,
        v.deep_view().trace == v.trace.deep_view(),
{
}

/// What a view of a [`ProbeResult`] shows.
pub proof fn law_view_of_probe_result(v: ProbeResult)
    ensures
        v.deep_view().name == v.name@,
        v.deep_view().url == v.url@,
        v.deep_view().ok == v.ok,
        v.deep_view().activated == v.activated,
        v.deep_view().samples == v.samples,
        v.deep_view().failures == v.failures,
        v.deep_view().stats == v.stats,
        v.deep_view().interface == v.interface.deep_view(),
        v.deep_view().http_code == v.http_code,
        v.deep_view().remote_ip == v.remote_ip.deep_view(),
        v.deep_view().exit == v.exit.deep_view(),
        v.deep_view().timings == v.timings,
        v.deep_view().error == v.error.deep_view(),
        v.deep_view().warning == v.warning.deep_view(),
{
}

/// What a view of a [`CommandOutput`] shows.
pub proof fn law_view_of_command_output(v: CommandOutput)
    ensures
        v.deep_view().code == v.code,
        v.deep_view().stdout == v.stdout@,
        v.deep_view().stderr == v.stderr@,
{
}

/// What a view of an [`Action`] shows.
pub proof fn law_view_of_action(v: Action)
    ensures
        v.deep_view() == match v {
            Action::Run { program, args } => ActionView::Run {
                program: program@,
                args: args.deep_view(),
            },
            Action::RunPassthrough { program, args } => ActionView::RunPassthrough {
                program: program@,
                args: args.deep_view(),
            },
            Action::Sleep(ms) => ActionView::Sleep(ms),
            Action::Now => ActionView::Now,
            Action::ListDir(path) => ActionView::ListDir(path@),
            Action::ReadFile(path) => ActionView::ReadFile(path@),
            Action::IsFile(path) => ActionView::IsFile(path@),
            Action::Exists(path) => ActionView::Exists(path@),
            Action::FileMode(path) => ActionView::FileMode(path@),
            Action::CreateDir(path) => ActionView::CreateDir(path@),
            Action::WriteFile { path, contents } => ActionView::WriteFile {
                path: path@,
                contents: contents@,
            },
            Action::Restrict { path, mode } => ActionView::Restrict { path: path@, mode: mode },
            Action::Rename { from, to } => ActionView::Rename { from: from@, to: to@ },
            Action::RemoveFile(path) => ActionView::RemoveFile(path@),
            Action::Lock(path) => ActionView::Lock(path@),
            Action::TryLock(path) => ActionView::TryLock(path@),
            Action::ParseSeconds(texts) => ActionView::ParseSeconds(texts.deep_view()),
            Action::EncodeJournal(journal) => ActionView::EncodeJournal(journal.deep_view()),
            Action::DecodeJournal(json) => ActionView::DecodeJournal(json@),
            Action::EncodeReport(report) => ActionView::EncodeReport(report.deep_view()),
        },
{
}

/// What a view of a [`DirListing`] shows.
pub proof fn law_view_of_dir_listing(v: DirListing)
    ensures
        v.deep_view() == match v {
            DirListing::Missing => DirListingView::Missing,
            DirListing::Failed(source) => DirListingView::Failed(source@),
            DirListing::Partial { files, source } => DirListingView::Partial {
                files: files.deep_view(),
                source: source@,
            },
            DirListing::Files(files) => DirListingView::Files(files.deep_view()),
        },
{
}

/// What a view of a [`FileText`] shows.
pub proof fn law_view_of_file_text(v: FileText)
    ensures
        v.deep_view() == match v {
            FileText::Missing(source) => FileTextView::Missing(source@),
            FileText::Failed(source) => FileTextView::Failed(source@),
            FileText::Text(contents) => FileTextView::Text(contents@),
        },
{
}

/// What a view of a [`Removal`] shows.
pub proof fn law_view_of_removal(v: Removal)
    ensures
        v.deep_view() == match v {
            Removal::Removed => RemovalView::Removed,
            Removal::Missing => RemovalView::Missing,
            Removal::Failed(source) => RemovalView::Failed(source@),
        },
{
}

/// What a view of a [`Reply`] shows.
pub proof fn law_view_of_reply(v: Reply)
    ensures
        v.deep_view() == match v {
            Reply::Ran(r) => ReplyView::Ran(told(r)),
            Reply::Exited(r) => ReplyView::Exited(told(r)),
            Reply::Slept => ReplyView::Slept,
            Reply::Time(now) => ReplyView::Time(now),
            Reply::Listing(listing) => ReplyView::Listing(listing.deep_view()),
            Reply::Contents(contents) => ReplyView::Contents(contents.deep_view()),
            Reply::Flag(b) => ReplyView::Flag(b),
            Reply::Mode(mode) => ReplyView::Mode(mode),
            Reply::Finished(r) => ReplyView::Finished(told(r)),
            Reply::Taken(r) => ReplyView::Taken(told(r)),
            Reply::Removed(removal) => ReplyView::Removed(removal.deep_view()),
            Reply::Seconds(tenths) => ReplyView::Seconds(tenths@),
            Reply::Json(json) => ReplyView::Json(json@),
            Reply::Decoded(journal) => ReplyView::Decoded(journal.deep_view()),
        },
{
}

/// What a view of a [`FileConfig`] shows.
pub proof fn law_view_of_file_config(v: FileConfig)
    ensures
        v.deep_view().sudo == v.sudo,
        v.deep_view().wg == v.wg.deep_view(),
        v.deep_view().wg_quick == v.wg_quick.deep_view(),
        v.deep_view().curl == v.curl.deep_view(),
{
}

/// What a view of a [`Journal`] shows.
pub proof fn law_view_of_journal(v: Journal)
    ensures
        v.deep_view().tunnel == v.tunnel@,
        v.deep_view().phase == v.phase,
        v.deep_view().interface == v.interface.deep_view(),
        v.deep_view().lease_deadline == v.lease_deadline,
        v.deep_view().dns_snapshot == v.dns_snapshot.deep_view(),
        v.deep_view().tunnel_dns == v.tunnel_dns.deep_view(),
{
}

/// What a view of a [`Peer`] shows.
pub proof fn law_view_of_peer(v: Peer)
    ensures
        v.deep_view().public_key == v.public_key@,
        v.deep_view().endpoint == v.endpoint.deep_view(),
        v.deep_view().latest_handshake == v.latest_handshake,
        v.deep_view().transfer_rx == v.transfer_rx,
        v.deep_view().transfer_tx == v.transfer_tx,
        v.deep_view().allowed_ips == v.allowed_ips.deep_view(),
{
}

/// What a view of a [`TunnelStatus`] shows.
pub proof fn law_view_of_tunnel_status(v: TunnelStatus)
    ensures
        v.deep_view().name == v.name@,
        v.deep_view().up == v.up,
        v.deep_view().interface == v.interface.deep_view(),
        v.deep_view().peers == v.peers.deep_view(),
{
}

/// What a view of a [`ListEntry`] shows.
pub proof fn law_view_of_list_entry(v: ListEntry)
    ensures
        v.deep_view().name == v.name@,
        v.deep_view().up == v.up,
{
}

/// What a view of a [`DumpPeer`] shows.
pub proof fn law_view_of_dump_peer(v: DumpPeer)
    ensures
        v.deep_view().interface == v.interface@,
        v.deep_view().peer == v.peer.deep_view(),
{
}

/// A result shows its value, or its error, as it is.
pub proof fn law_view_of_results<T: DeepView, X>(v: T, x: X, e: Error, message: String)
    ensures
        outcome::<T>(Ok(v)) == Ok::<T::V, ErrorView>(v.deep_view()),
        outcome::<T>(Err(e)) == Err::<T::V, ErrorView>(e.deep_view()),
        so_far::<T>(Some(Ok(v))) == Some(Ok::<T::V, ErrorView>(v.deep_view())),
        so_far::<T>(Some(Err(e))) == Some(Err::<T::V, ErrorView>(e.deep_view())),
        so_far::<T>(None) is None,
        told::<T>(Ok(v)) == Ok::<T::V, Seq<char>>(v.deep_view()),
        told::<T>(Err(message)) == Err::<T::V, Seq<char>>(message@),
        reported::<X>(Ok(x)) == Ok::<X, Seq<char>>(x),
        reported::<X>(Err(message)) == Err::<X, Seq<char>>(message@),
{
}

/// So does a result of reading something.
pub proof fn law_view_of_readings(
    file: FileConfig,
    sample: Sample,
    head: Head,
    timings: Timings,
    ip: Option<String>,
    code: Option<u16>,
    message: String,
    name: &str,
)
    ensures
        parsed(Ok(file)) matches Ok(x) && x == file.deep_view(),
        parsed(Err(message)) matches Err(e) && e == message@,
        sampled(Ok(sample)) matches Ok(x) && x == sample.deep_view(),
        sampled(Err(message)) matches Err(e) && e == message@,
        sampled_so_far(Some(Ok(sample))) matches Some(Ok(x)) && x == sample.deep_view(),
        sampled_so_far(Some(Err(message))) matches Some(Err(e)) && e == message@,
        sampled_so_far(None) is None,
        fetch_view(Ok(head)) matches Ok(x) && x == head.deep_view(),
        fetch_view(Err(message)) matches Err(e) && e == message@,
        fetched_so_far(Some(Ok(head))) matches Some(Ok(x)) && x == head.deep_view(),
        fetched_so_far(Some(Err(message))) matches Some(Err(e)) && e == message@,
        fetched_so_far(None) is None,
        curl_read(Ok((timings, ip, code))) matches Ok(x) && x == (timings, ip.deep_view(), code),
        curl_read(Err(message)) matches Err(e) && e == message@,
        named_option(Some(name)) == Some(name@),
        named_option(None) is None,
{
}

} // verus!
