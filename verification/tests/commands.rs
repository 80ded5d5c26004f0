//! Whole operations against a machine held in memory: scripted commands, a file
//! system of texts, and JSON as this file writes and reads it, in place of the
//! program's own. What the tests on reports in JSON show is which report is handed
//! over to be written.
use std::cell::RefCell;
use std::collections::{BTreeMap, BTreeSet, VecDeque};
use std::rc::Rc;

use agent_vpn::backend::{
    backend_error, command_line, Backend, Check, DownOutcome, ExecOutcome, HealthIssue,
    HealthReport, Recovered,
};
use agent_vpn::backend::split::rewrite_split;
use agent_vpn::cli::{config_dir_for_home, dispatch, parse_lease, Cli, Command};
use agent_vpn::config::{self, ConfSummary, PeerIdentity, Tunnel, MAX_NAME_LEN};
use agent_vpn::diff::{self, LocationResult};
use agent_vpn::dns::{self, GuardOutcome};
use agent_vpn::error::Error;
use agent_vpn::lint::{self, Finding, LintResult, Severity};
use agent_vpn::lock::{self, LOCK_FILE};
use agent_vpn::order::TextMap;
use agent_vpn::output::{human_report, render_error, render_report, Report};
use agent_vpn::probe::{ProbeResult, Stats, Timings, TraceInfo, OUTPUT_MARKER};
use agent_vpn::runner::{CommandOutput, CommandRunner};
use agent_vpn::session::{perform, Action, DirListing, FileText, Removal, Reply, Session};
use agent_vpn::settings::{self, FileConfig};
use agent_vpn::state::{self, Journal, Phase};
use agent_vpn::status::{ListEntry, Peer, TunnelStatus};
use agent_vpn::{execute, Execution};
use serde_json::Value;

// ---- The machine ----

type Calls = Vec<(String, Vec<String>)>;

/// A runner that records calls and replays scripted responses in order. Its
/// clones share their state, so a handle can be kept for assertions.
#[derive(Clone, Default)]
struct MockRunner {
    calls: Rc<RefCell<Calls>>,
    responses: Rc<RefCell<VecDeque<Result<CommandOutput, String>>>>,
}

impl MockRunner {
    fn new() -> Self {
        Self::default()
    }

    /// Queue a successful (exit `0`) response with the given stdout.
    fn ok(&self, stdout: &str) -> &Self {
        self.push(Ok(output(Some(0), stdout, "")))
    }

    /// Queue a response that ran but exited non-zero with the given stderr.
    fn fail(&self, code: i32, stderr: &str) -> &Self {
        self.push(Ok(output(Some(code), "", stderr)))
    }

    /// Queue a spawn failure (as if the program were missing).
    fn spawn_err(&self) -> &Self {
        self.push(Err("missing".to_string()))
    }

    /// Queue a response of a process that a signal killed.
    fn signal_killed(&self) -> &Self {
        self.push(Ok(output(None, "", "")))
    }

    /// The `(program, args)` of every call made so far, in order.
    fn calls(&self) -> Calls {
        self.calls.borrow().clone()
    }

    fn push(&self, response: Result<CommandOutput, String>) -> &Self {
        self.responses.borrow_mut().push_back(response);
        self
    }
}

fn output(code: Option<i32>, stdout: &str, stderr: &str) -> CommandOutput {
    CommandOutput { code, stdout: stdout.to_string(), stderr: stderr.to_string() }
}

impl CommandRunner for MockRunner {
    fn run(&self, program: &str, args: &Vec<String>) -> Result<CommandOutput, String> {
        self.calls.borrow_mut().push((program.to_string(), args.clone()));
        self.responses.borrow_mut().pop_front().unwrap_or_else(|| Ok(output(Some(0), "", "")))
    }

    fn run_passthrough(&self, program: &str, args: &Vec<String>) -> Result<Option<i32>, String> {
        Ok(self.run(program, args)?.code)
    }
}

/// A file system: texts with permission bits, and directories.
#[derive(Default)]
struct Files {
    files: BTreeMap<String, (String, u32)>,
    dirs: BTreeMap<String, u32>,
    locked: Vec<String>,
    slept: Vec<u64>,
    /// Seconds that have passed.
    later: u64,
}

const NO_FILE: &str = "No such file or directory (os error 2)";

fn parent(path: &str) -> String {
    match path.rsplit_once('/') {
        Some((dir, _)) => dir.to_string(),
        None => String::new(),
    }
}

impl Files {
    /// Whether the path leads through a regular file.
    fn blocked(&self, path: &str) -> bool {
        self.files.keys().any(|f| path == f || path.starts_with(&format!("{f}/")))
    }

    fn make_dir(&mut self, path: &str) -> Result<(), String> {
        if self.blocked(path) {
            return Err("Not a directory (os error 20)".to_string());
        }
        let mut at = path.to_string();
        while !at.is_empty() {
            self.dirs.entry(at.clone()).or_insert(0o755);
            at = parent(&at);
        }
        Ok(())
    }

    fn write(&mut self, path: &str, contents: &str) -> Result<(), String> {
        if self.dirs.contains_key(path) {
            return Err("Is a directory (os error 21)".to_string());
        }
        if !self.dirs.contains_key(&parent(path)) {
            return Err(NO_FILE.to_string());
        }
        let mode = self.files.get(path).map_or(0o644, |(_, mode)| *mode);
        self.files.insert(path.to_string(), (contents.to_string(), mode));
        Ok(())
    }

    fn read(&self, path: &str) -> FileText {
        if self.dirs.contains_key(path) {
            return FileText::Failed("Is a directory (os error 21)".to_string());
        }
        match self.files.get(path) {
            Some((_, 0)) => FileText::Failed("Permission denied (os error 13)".to_string()),
            Some((contents, _)) => FileText::Text(contents.clone()),
            None => FileText::Missing(NO_FILE.to_string()),
        }
    }

    fn list(&self, path: &str) -> DirListing {
        if self.blocked(path) {
            return DirListing::Failed("Not a directory (os error 20)".to_string());
        }
        if !self.dirs.contains_key(path) {
            return DirListing::Missing;
        }
        let mut names = Vec::new();
        for entry in self.files.keys().chain(self.dirs.keys()) {
            if parent(entry) == path {
                names.push(entry[path.len() + 1..].to_string());
            }
        }
        // No particular order.
        names.reverse();
        DirListing::Files(names)
    }

    fn restrict(&mut self, path: &str, to: u32) -> Result<(), String> {
        if let Some((_, mode)) = self.files.get_mut(path) {
            *mode = to;
            Ok(())
        } else if let Some(mode) = self.dirs.get_mut(path) {
            *mode = to;
            Ok(())
        } else {
            Err(NO_FILE.to_string())
        }
    }

    fn rename(&mut self, from: &str, to: &str) -> Result<(), String> {
        match self.files.remove(from) {
            Some(file) => {
                self.files.insert(to.to_string(), file);
                Ok(())
            }
            None => Err(NO_FILE.to_string()),
        }
    }

    fn lock(&mut self, path: &str) -> Result<(), String> {
        if !self.files.contains_key(path) {
            self.write(path, "")?;
        }
        self.locked.push(path.to_string());
        Ok(())
    }

    fn act(&mut self, action: &Action) -> Reply {
        match action {
            Action::Sleep(ms) => {
                self.slept.push(*ms);
                Reply::Slept
            }
            Action::Now => Reply::Time(NOW + self.later),
            Action::ListDir(path) => Reply::Listing(self.list(path)),
            Action::ReadFile(path) => Reply::Contents(self.read(path)),
            Action::IsFile(path) => Reply::Flag(self.files.contains_key(path)),
            Action::Exists(path) => {
                Reply::Flag(self.files.contains_key(path) || self.dirs.contains_key(path))
            }
            Action::FileMode(path) => Reply::Mode(self.files.get(path).map(|(_, mode)| *mode)),
            Action::CreateDir(path) => Reply::Finished(self.make_dir(path)),
            Action::WriteFile { path, contents } => Reply::Finished(self.write(path, contents)),
            Action::Restrict { path, mode } => Reply::Finished(self.restrict(path, *mode)),
            Action::Rename { from, to } => Reply::Finished(self.rename(from, to)),
            Action::RemoveFile(path) => Reply::Removed(match self.files.remove(path) {
                Some(_) => Removal::Removed,
                None => Removal::Missing,
            }),
            Action::Lock(path) => Reply::Finished(self.lock(path)),
            Action::TryLock(path) => Reply::Taken(if self.locked.contains(path) {
                Ok(false)
            } else {
                self.lock(path).map(|()| true)
            }),
            Action::ParseSeconds(texts) => {
                Reply::Seconds(texts.iter().map(|t| tenths(t)).collect())
            }
            Action::EncodeJournal(journal) => Reply::Json(journal_json(journal)),
            Action::DecodeJournal(json) => Reply::Decoded(journal_of(json)),
            Action::EncodeReport(report) => Reply::Json(report_json(report)),
            Action::Run { .. } | Action::RunPassthrough { .. } => {
                unreachable!("programs are run by the runner")
            }
        }
    }
}

/// What the clock says at first.
const NOW: u64 = 1_700_000_100;

/// A text of seconds as tenths of a millisecond.
fn tenths(text: &str) -> Option<i64> {
    text.trim().parse::<f64>().ok().map(|v| (v * 10_000.0).round() as i64)
}

/// Run an operation to its end, performing what it asks for.
fn drive<R: CommandRunner, T>(
    files: &Rc<RefCell<Files>>,
    runner: &R,
    op: impl Fn(&mut Session) -> Option<T>,
) -> T {
    let mut session = Session::new();
    loop {
        if let Some(result) = op(&mut session) {
            return result;
        }
        let action = session.pending().expect("a stopped operation waits for a reply");
        let reply = match perform(runner, action) {
            Some(reply) => reply,
            None => files.borrow_mut().act(action),
        };
        session.answer(reply);
    }
}

// ---- JSON ----

fn text(s: &str) -> Value {
    Value::String(s.to_string())
}

fn texts(list: &[String]) -> Value {
    Value::Array(list.iter().map(|s| text(s)).collect())
}

fn optional(s: &Option<String>) -> Value {
    match s {
        Some(s) => text(s),
        None => Value::Null,
    }
}

fn object(fields: Vec<(&str, Value)>) -> Value {
    let mut map = serde_json::Map::new();
    for (key, value) in fields {
        map.insert(key.to_string(), value);
    }
    Value::Object(map)
}

fn milliseconds(tenths: i64) -> Value {
    Value::from(tenths as f64 / 10.0)
}

fn phase_name(phase: Phase) -> &'static str {
    match phase {
        Phase::UpPending => "up-pending",
        Phase::Active => "active",
        Phase::DownPending => "down-pending",
    }
}

fn journal_json(journal: &Journal) -> String {
    let mut snapshot = serde_json::Map::new();
    for (service, servers) in journal.dns_snapshot.entries() {
        snapshot.insert(service.clone(), texts(servers));
    }
    object(vec![
        ("tunnel", text(&journal.tunnel)),
        ("phase", text(phase_name(journal.phase))),
        ("interface", optional(&journal.interface)),
        ("lease_deadline", journal.lease_deadline.map_or(Value::Null, Value::from)),
        ("dns_snapshot", Value::Object(snapshot)),
        ("tunnel_dns", texts(&journal.tunnel_dns)),
    ])
    .to_string()
}

fn strings(value: &Value) -> Option<Vec<String>> {
    value.as_array()?.iter().map(|v| v.as_str().map(str::to_string)).collect()
}

fn journal_of(json: &str) -> Option<Journal> {
    let v: Value = serde_json::from_str(json).ok()?;
    let phase = match v["phase"].as_str()? {
        "up-pending" => Phase::UpPending,
        "active" => Phase::Active,
        "down-pending" => Phase::DownPending,
        _ => return None,
    };
    let mut dns_snapshot = TextMap::new();
    for (service, servers) in v["dns_snapshot"].as_object()? {
        dns_snapshot.insert(service.clone(), strings(servers)?);
    }
    Some(Journal {
        tunnel: v["tunnel"].as_str()?.to_string(),
        phase,
        interface: v["interface"].as_str().map(str::to_string),
        lease_deadline: v["lease_deadline"].as_u64(),
        dns_snapshot,
        tunnel_dns: strings(&v["tunnel_dns"])?,
    })
}

fn peer_json(peer: &Peer) -> Value {
    object(vec![
        ("public_key", text(&peer.public_key)),
        ("endpoint", optional(&peer.endpoint)),
        ("latest_handshake", peer.latest_handshake.map_or(Value::Null, Value::from)),
        ("transfer_rx", Value::from(peer.transfer_rx)),
        ("transfer_tx", Value::from(peer.transfer_tx)),
        ("allowed_ips", texts(&peer.allowed_ips)),
    ])
}

fn status_json(status: &TunnelStatus) -> Value {
    object(vec![
        ("name", text(&status.name)),
        ("up", Value::Bool(status.up)),
        ("interface", optional(&status.interface)),
        ("peers", Value::Array(status.peers.iter().map(peer_json).collect())),
    ])
}

fn probe_json(r: &ProbeResult) -> Value {
    object(vec![
        ("name", text(&r.name)),
        ("ok", Value::Bool(r.ok)),
        ("activated", Value::Bool(r.activated)),
        ("samples", Value::from(r.samples)),
        ("failures", Value::from(r.failures)),
        ("interface", optional(&r.interface)),
        ("http_code", r.http_code.map_or(Value::Null, Value::from)),
        ("remote_ip", optional(&r.remote_ip)),
        ("error", optional(&r.error)),
        (
            "timings",
            r.timings.as_ref().map_or(Value::Null, |t| {
                object(vec![
                    ("ttfb_ms", milliseconds(t.ttfb_tenths)),
                    ("total_ms", milliseconds(t.total_tenths)),
                ])
            }),
        ),
        (
            "stats",
            r.stats.as_ref().map_or(Value::Null, |s| {
                object(vec![
                    ("min_total_ms", milliseconds(s.min_total_tenths)),
                    ("median_total_ms", milliseconds(s.median_total_tenths)),
                    ("max_total_ms", milliseconds(s.max_total_tenths)),
                ])
            }),
        ),
        (
            "exit",
            r.exit.as_ref().map_or(Value::Null, |e| {
                object(vec![
                    ("ip", text(&e.ip)),
                    ("loc", optional(&e.loc)),
                    ("colo", optional(&e.colo)),
                ])
            }),
        ),
    ])
}

fn lint_json(r: &LintResult) -> Value {
    let findings = r.findings.iter().map(|f| {
        object(vec![
            (
                "severity",
                text(match f.severity {
                    Severity::Error => "error",
                    Severity::Warning => "warning",
                }),
            ),
            ("message", text(&f.message)),
        ])
    });
    object(vec![
        ("name", text(&r.name)),
        ("ok", Value::Bool(r.ok)),
        ("findings", Value::Array(findings.collect())),
    ])
}

fn report_json(report: &Report) -> String {
    let (command, mut fields) = match report {
        Report::List { config_dir, tunnels } => (
            "list",
            vec![
                ("config_dir", text(config_dir)),
                (
                    "tunnels",
                    Value::Array(
                        tunnels
                            .iter()
                            .map(|t| object(vec![("name", text(&t.name)), ("up", t.up.into())]))
                            .collect(),
                    ),
                ),
            ],
        ),
        Report::Up { name, changed, status } => (
            "up",
            vec![
                ("name", text(name)),
                ("changed", Value::Bool(*changed)),
                ("status", status_json(status)),
            ],
        ),
        Report::Down { name, changed, dns_cleared, dns_warning } => {
            let mut fields = vec![("name", text(name)), ("changed", Value::Bool(*changed))];
            if !dns_cleared.is_empty() {
                fields.push(("dns_cleared", texts(dns_cleared)));
            }
            if dns_warning.is_some() {
                fields.push(("dns_warning", optional(dns_warning)));
            }
            ("down", fields)
        }
        Report::Status { tunnels } => {
            ("status", vec![("tunnels", Value::Array(tunnels.iter().map(status_json).collect()))])
        }
        Report::Current { active } => ("current", vec![("active", texts(active))]),
        Report::Probe { results } => {
            ("probe", vec![("results", Value::Array(results.iter().map(probe_json).collect()))])
        }
        Report::Exec { name, activated, exit_code, warning } => (
            "exec",
            vec![
                ("name", text(name)),
                ("activated", Value::Bool(*activated)),
                ("exit_code", Value::from(*exit_code)),
                ("warning", optional(warning)),
            ],
        ),
        Report::Lint { results } => {
            ("lint", vec![("results", Value::Array(results.iter().map(lint_json).collect()))])
        }
        Report::Add { name, path, lint } => (
            "add",
            vec![("name", text(name)), ("path", text(path)), ("lint", lint_json(lint))],
        ),
        Report::Split { source, name, path, entries } => (
            "split",
            vec![
                ("source", text(source)),
                ("name", text(name)),
                ("path", text(path)),
                ("entries", Value::from(*entries)),
            ],
        ),
        Report::Doctor { checks } => (
            "doctor",
            vec![(
                "checks",
                Value::Array(
                    checks
                        .iter()
                        .map(|c| {
                            object(vec![
                                ("name", text(&c.name)),
                                ("ok", Value::Bool(c.ok)),
                                ("detail", text(&c.detail)),
                            ])
                        })
                        .collect(),
                ),
            )],
        ),
        Report::Recover { recovered, health } => (
            "recover",
            vec![
                (
                    "recovered",
                    Value::Array(
                        recovered
                            .iter()
                            .map(|r| {
                                object(vec![
                                    ("tunnel", text(&r.tunnel)),
                                    ("reason", text(&r.reason)),
                                ])
                            })
                            .collect(),
                    ),
                ),
                ("health", object(vec![("healthy", Value::Bool(health.healthy))])),
            ],
        ),
        Report::Verify { health } => {
            ("verify", vec![("health", object(vec![("healthy", Value::Bool(health.healthy))]))])
        }
        Report::Diff { url, results, diffs } => (
            "diff",
            vec![
                ("url", text(url)),
                ("results", Value::Array(results.iter().map(|r| text(&r.name)).collect())),
                (
                    "diffs",
                    Value::Array(
                        diffs.iter().map(|d| object(vec![("field", text(&d.field))])).collect(),
                    ),
                ),
            ],
        ),
    };
    fields.insert(0, ("command", text(command)));
    serde_json::to_string_pretty(&object(fields)).unwrap()
}

// ---- Fixtures ----

/// A config directory, `/cfg`, on a machine of its own.
struct Cfg {
    files: Rc<RefCell<Files>>,
}

impl Cfg {
    fn empty() -> Self {
        let files = Rc::new(RefCell::new(Files::default()));
        files.borrow_mut().make_dir("/cfg").unwrap();
        files.borrow_mut().make_dir("/src").unwrap();
        Cfg { files }
    }

    fn path(&self) -> &'static str {
        "/cfg"
    }

    fn at(&self, name: &str) -> String {
        format!("/cfg/{name}")
    }

    /// Path of a file outside the config directory.
    fn source(&self, name: &str) -> String {
        format!("/src/{name}")
    }

    fn write(&self, name: &str, contents: &str) {
        self.write_at(&self.at(name), contents);
    }

    fn write_at(&self, path: &str, contents: &str) {
        self.files.borrow_mut().write(path, contents).unwrap();
    }

    fn make_dir(&self, path: &str) {
        self.files.borrow_mut().make_dir(path).unwrap();
    }

    fn text(&self, path: &str) -> String {
        self.files.borrow().files[path].0.clone()
    }

    fn mode(&self, path: &str) -> u32 {
        let files = self.files.borrow();
        match files.files.get(path) {
            Some((_, mode)) => *mode,
            None => files.dirs[path],
        }
    }

    fn chmod(&self, name: &str, mode: u32) {
        self.files.borrow_mut().restrict(&self.at(name), mode).unwrap();
    }

    fn holds(&self, name: &str) -> bool {
        self.files.borrow().files.contains_key(&self.at(name))
    }

    fn run<T>(&self, op: impl Fn(&mut Session) -> Option<T>) -> T {
        drive(&self.files, &MockRunner::new(), op)
    }

    fn summary(&self, path: &str) -> Result<ConfSummary, Error> {
        self.run(|s| config::conf_summary(s, path))
    }

    fn identity(&self, path: &str) -> Result<PeerIdentity, Error> {
        self.run(|s| config::peer_identity(s, path))
    }

    fn discover(&self, dir: &str) -> Result<Vec<Tunnel>, Error> {
        self.run(|s| config::discover(s, dir))
    }

    fn resolve(&self, name: &str) -> Result<Tunnel, Error> {
        self.run(|s| config::resolve(s, "/cfg", name))
    }

    fn load(&self) -> Result<FileConfig, Error> {
        self.run(|s| settings::load(s, "/cfg"))
    }

    fn journal(&self, tunnel: &str) -> Option<Journal> {
        self.run(|s| state::read(s, "/cfg", tunnel))
    }

    fn journals(&self) -> Vec<Journal> {
        self.run(|s| state::read_all(s, "/cfg"))
    }

    fn record(&self, journal: &Journal) {
        self.run(|s| state::write(s, "/cfg", journal)).unwrap();
    }

    fn forget(&self, tunnel: &str) -> Result<(), Error> {
        self.run(|s| state::remove(s, "/cfg", tunnel))
    }
}

/// A backend with its machine.
struct Host {
    backend: Backend,
    runner: MockRunner,
    files: Rc<RefCell<Files>>,
}

impl Host {
    fn run<T>(&self, op: impl Fn(&Backend, &mut Session) -> Option<T>) -> T {
        drive(&self.files, &self.runner, |s| op(&self.backend, s))
    }

    fn with_programs(self, wg: String, wg_quick: String, curl: String) -> Self {
        Host { backend: self.backend.with_programs(wg, wg_quick, curl), ..self }
    }

    fn with_fixed_time(self, now: u64) -> Self {
        Host { backend: self.backend.with_fixed_time(now), ..self }
    }

    fn config_dir(&self) -> &str {
        self.backend.config_dir()
    }

    fn up(&self, name: &str) -> Result<(bool, TunnelStatus), Error> {
        self.run(|b, s| b.up(s, name))
    }

    fn up_with_lease(&self, name: &str, lease: Option<u64>) -> Result<(bool, TunnelStatus), Error> {
        self.run(|b, s| b.up_with_lease(s, name, lease))
    }

    fn down(&self, name: &str) -> Result<DownOutcome, Error> {
        self.run(|b, s| b.down(s, name))
    }

    fn status_one(&self, name: &str) -> Result<TunnelStatus, Error> {
        self.run(|b, s| b.status_one(s, name))
    }

    fn status_all(&self) -> Result<Vec<TunnelStatus>, Error> {
        self.run(|b, s| b.status_all(s))
    }

    fn list(&self) -> Result<Vec<ListEntry>, Error> {
        self.run(|b, s| b.list(s))
    }

    fn current(&self) -> Result<Vec<String>, Error> {
        self.run(|b, s| b.current(s))
    }

    fn probe(
        &self,
        name: Option<&str>,
        url: &str,
        max_time: u64,
        count: u32,
    ) -> Result<Vec<ProbeResult>, Error> {
        self.run(|b, s| b.probe(s, name, url, max_time, count))
    }

    fn diff(
        &self,
        name: Option<&str>,
        url: &str,
        max_time: u64,
    ) -> Result<Vec<LocationResult>, Error> {
        self.run(|b, s| b.diff(s, name, url, max_time))
    }

    fn exec_through(&self, name: &str, command: &Vec<String>) -> Result<ExecOutcome, Error> {
        assert!(!command.is_empty());
        self.run(|b, s| b.exec_through(s, name, command))
    }

    fn lint(&self, name: Option<&str>) -> Result<Vec<LintResult>, Error> {
        self.run(|b, s| b.lint(s, name))
    }

    fn add(
        &self,
        source: &str,
        name: Option<&str>,
        force: bool,
        allow_hooks: bool,
    ) -> Result<(String, String, LintResult), Error> {
        self.run(|b, s| b.add(s, source, name, force, allow_hooks))
    }

    fn split(
        &self,
        name: &str,
        excludes: &[String],
        output: Option<&str>,
        keep_dns: bool,
        force: bool,
    ) -> Result<(String, String, usize), Error> {
        let excludes = excludes.to_vec();
        self.run(|b, s| b.split(s, name, &excludes, output, keep_dns, force))
    }

    fn doctor(&self) -> Vec<Check> {
        self.run(|b, s| b.doctor(s))
    }

    fn reconcile(&self) -> Result<Vec<Recovered>, Error> {
        self.run(|b, s| b.reconcile(s))
    }

    fn recover(&self) -> Result<Vec<Recovered>, Error> {
        self.run(|b, s| b.recover(s))
    }

    fn verify(&self) -> Result<HealthReport, Error> {
        self.run(|b, s| b.verify(s))
    }

    fn dispatch(&self, command: &Command) -> Result<Report, Error> {
        self.run(|b, s| dispatch(b, s, command))
    }
}

/// A snapshot of one network service.
fn snapshot(service: &str, servers: &[&str]) -> TextMap<Vec<String>> {
    let mut map = TextMap::new();
    map.insert(service.to_string(), cmd(servers));
    map
}

fn cmd(parts: &[&str]) -> Vec<String> {
    parts.iter().map(|s| (*s).to_string()).collect()
}

// ---- Backend ----


/// Conf whose peer identity matches `ALL_DUMP`'s first interface.
const CONF: &str = "[Interface]\nPrivateKey = IFPRIV\nAddress = 10.0.0.2/32\n\n\
    [Peer]\nPublicKey = PEERKEY\nAllowedIPs = 0.0.0.0/0, ::/0\nEndpoint = 203.0.113.1:51820\n";

/// Sibling conf: same server key, split-tunnel allowed-IPs.
const CONF_SPLIT: &str = "[Peer]\nPublicKey = PEERKEY\nAllowedIPs = 0.0.0.0/1, 128.0.0.0/1\n";

/// Conf for a second, distinct server.
const CONF_OTHER: &str = "[Peer]\nPublicKey = OTHERKEY\nAllowedIPs = 0.0.0.0/0\n";

/// `wg show all dump` output with the CONF tunnel live on utun7.
const ALL_DUMP: &str = "utun7\tIFPRIV\tIFPUB\t51820\toff\n\
    utun7\tPEERKEY\t(none)\t203.0.113.1:51820\t0.0.0.0/0,::/0\t1700000000\t1024\t2048\t25\n";

const CURL_OK: &str = "0.004000,0.012000,0.140000,0.290000,0.291000,104.16.132.229,200";
const CURL_TRACE: &str = "ip=203.0.113.99\nloc=US\ncolo=EWR\n<<<VPNPROBE>>>0.004,0.012,0.140,0.290,0.291,104.16.132.229,200";
const CURL_FAST: &str = "0.001,0.002,0.003,0.100,0.101,1.2.3.4,200";
const CURL_SLOW: &str = "0.001,0.002,0.003,0.200,0.300,5.6.7.8,200";
const URL: &str = "https://1.1.1.1/cdn-cgi/trace";

/// Config dir holding a single `home.conf` matching ALL_DUMP.
fn fixture() -> Cfg {
    let cfg = Cfg::empty();
    cfg.write("home.conf", CONF);
    cfg
}

fn backend(runner: MockRunner, cfg: &Cfg, sudo: bool) -> Host {
    Host {
        backend: Backend::new(cfg.path().to_string(), sudo)
            .with_dns_sweeps(vec![0, 0])
            .with_diff_retries(vec![0]),
        runner,
        files: cfg.files.clone(),
    }
}

#[test]
fn command_line_without_sudo() {
    let (p, a) = command_line(false, "wg", &cmd(&["show", "all", "dump"]));
    assert_eq!(p, "wg");
    assert_eq!(a, vec!["show", "all", "dump"]);
}

#[test]
fn command_line_with_sudo_uses_non_interactive_flag() {
    let (p, a) = command_line(true, "wg-quick", &cmd(&["up", "/x.conf"]));
    assert_eq!(p, "sudo");
    assert_eq!(a, vec!["-n", "wg-quick", "up", "/x.conf"]);
}

#[test]
fn backend_error_prefers_stderr_then_stdout() {
    let e = backend_error(
        "wg-quick",
        &CommandOutput {
            code: Some(2),
            stdout: "out".into(),
            stderr: "  boom  ".into(),
        },
    );
    assert!(matches!(e, Error::Backend { code: 2, ref stderr, .. } if stderr == "boom"));

    let e = backend_error(
        "wg-quick",
        &CommandOutput {
            code: None,
            stdout: "fallback".into(),
            stderr: "   ".into(),
        },
    );
    assert!(matches!(e, Error::Backend { code: -1, ref stderr, .. } if stderr == "fallback"));
}

#[test]
fn up_when_down_brings_up() {
    let cfg = fixture();
    let runner = MockRunner::new();
    runner.ok(""); // all_dump: nothing live
    runner.ok(""); // wg-quick up
    runner.ok(ALL_DUMP); // status_one's all_dump
    let b = backend(runner.clone(), &cfg, false);

    let (changed, status) = b.up("home").unwrap();
    assert!(changed);
    assert!(status.up);
    assert_eq!(status.interface.as_deref(), Some("utun7"));
    assert_eq!(status.peers.len(), 1);
    assert_eq!(
        status.peers[0].endpoint.as_deref(),
        Some("203.0.113.1:51820")
    );

    let calls = runner.calls();
    assert_eq!(calls.len(), 3);
    assert_eq!(calls[1].0, "wg-quick");
    assert_eq!(calls[1].1[0], "up");
}

#[test]
fn up_when_already_up_is_noop() {
    let cfg = fixture();
    let runner = MockRunner::new();
    runner.ok(ALL_DUMP); // all_dump: live
    let b = backend(runner.clone(), &cfg, false);

    let (changed, status) = b.up("home").unwrap();
    assert!(!changed);
    assert!(status.up);
    // wg-quick must not have been invoked; one wg call suffices.
    assert_eq!(runner.calls().len(), 1);
    assert_eq!(runner.calls()[0].0, "wg");
}

#[test]
fn up_backend_failure_is_reported() {
    let cfg = fixture();
    let runner = MockRunner::new();
    runner.ok(""); // all_dump: down
    runner.fail(2, "address already in use"); // wg-quick up fails
    let b = backend(runner, &cfg, false);
    assert_eq!(b.up("home").unwrap_err().exit_code(), 5);
}

#[test]
fn up_missing_tunnel() {
    let cfg = fixture();
    let b = backend(MockRunner::new(), &cfg, false);
    assert_eq!(b.up("ghost").unwrap_err().exit_code(), 3);
}

#[test]
fn up_spawn_failure() {
    let cfg = fixture();
    let runner = MockRunner::new();
    runner.spawn_err(); // wg cannot be launched
    let b = backend(runner, &cfg, false);
    assert_eq!(b.up("home").unwrap_err().exit_code(), 6);
}

#[test]
fn wg_failure_is_an_error_not_down() {
    let cfg = fixture();
    let runner = MockRunner::new();
    runner.fail(1, "permission denied");
    let b = backend(runner, &cfg, false);
    assert_eq!(b.status_one("home").unwrap_err().exit_code(), 5);
}

#[test]
fn down_when_up_brings_down() {
    let cfg = fixture();
    let runner = MockRunner::new();
    runner.ok(ALL_DUMP); // live
    runner.ok(""); // wg-quick down
    let b = backend(runner.clone(), &cfg, false);

    assert!(b.down("home").unwrap().changed);
    let calls = runner.calls();
    assert_eq!(calls[1].0, "wg-quick");
    assert_eq!(calls[1].1[0], "down");
}

#[test]
fn down_when_already_down_is_noop() {
    let cfg = fixture();
    let runner = MockRunner::new();
    runner.ok(""); // nothing live
    let b = backend(runner.clone(), &cfg, false);
    assert!(!b.down("home").unwrap().changed);
    assert_eq!(runner.calls().len(), 1);
}

/// `CONF` plus a `DNS` line, as VPN-provider configs ship it.
const CONF_DNS: &str = "[Interface]\nPrivateKey = IFPRIV\nAddress = 10.0.0.2/32\n\
    DNS = 10.2.0.1, 2a07:b944::2:1\n\n\
    [Peer]\nPublicKey = PEERKEY\nAllowedIPs = 0.0.0.0/0, ::/0\nEndpoint = 203.0.113.1:51820\n";

const SERVICES: &str = "An asterisk (*) denotes that a network service is disabled.\nWi-Fi\n";
const NO_DNS_SET: &str = "There aren't any DNS Servers set on Wi-Fi.";

#[test]
fn down_repairs_poisoned_dns() {
    let cfg = fixture();
    cfg.write("home.conf", CONF_DNS);
    let runner = MockRunner::new();
    runner.ok(ALL_DUMP); // live
    runner.ok(""); // wg-quick down
    runner.ok(""); // guard: current() dump — nothing up
    runner.ok(SERVICES); // sweep 1
    runner.ok("10.2.0.1"); // Wi-Fi still pinned to the tunnel's DNS
    runner.ok(""); // reset to Empty
    runner.ok(SERVICES); // sweep 2
    runner.ok(NO_DNS_SET); // clean
    let b = backend(runner.clone(), &cfg, false);

    let outcome = b.down("home").unwrap();
    assert!(outcome.changed);
    assert_eq!(outcome.dns_cleared, vec!["Wi-Fi".to_string()]);
    assert!(outcome.dns_warning.is_none());
    let reset = &runner.calls()[5];
    assert_eq!(reset.0, "networksetup");
    assert_eq!(reset.1, vec!["-setdnsservers", "Wi-Fi", "Empty"]);
}

#[test]
fn down_when_already_down_still_repairs_dns() {
    // The poisoned state outlives the tunnel (crash, shutdown while up):
    // `vpn down` must repair DNS even with nothing to tear down.
    let cfg = fixture();
    cfg.write("home.conf", CONF_DNS);
    let runner = MockRunner::new();
    runner.ok(""); // nothing live
    runner.ok(""); // guard: current() dump — nothing up
    runner.ok(SERVICES);
    runner.ok("2a07:b944::2:1"); // pinned via the IPv6 resolver
    runner.ok(""); // reset
    runner.ok(SERVICES);
    runner.ok(NO_DNS_SET);
    let b = backend(runner, &cfg, false);

    let outcome = b.down("home").unwrap();
    assert!(!outcome.changed);
    assert_eq!(outcome.dns_cleared, vec!["Wi-Fi".to_string()]);
}

#[test]
fn down_guard_skipped_while_another_tunnel_is_up() {
    // A live tunnel legitimately owns the system DNS; never touch it.
    let cfg = fixture();
    cfg.write("home.conf", CONF_DNS);
    cfg.write("other.conf", CONF_OTHER);
    let other_dump = "utun9\tIFPRIV\tIFPUB\t51820\toff\n\
        utun9\tOTHERKEY\t(none)\t203.0.113.9:51820\t0.0.0.0/0\t1700000000\t1\t2\t25\n";
    let runner = MockRunner::new();
    runner.ok(other_dump); // home not live
    runner.ok(other_dump); // guard: current() — other is up
    let b = backend(runner.clone(), &cfg, false);

    let outcome = b.down("home").unwrap();
    assert!(!outcome.changed);
    assert!(outcome.dns_cleared.is_empty());
    assert!(runner.calls().iter().all(|(p, _)| p != "networksetup"));
}

#[test]
fn down_backend_failure() {
    let cfg = fixture();
    let runner = MockRunner::new();
    runner.ok(ALL_DUMP);
    runner.fail(1, "permission denied");
    let b = backend(runner, &cfg, false);
    assert_eq!(b.down("home").unwrap_err().exit_code(), 5);
}

#[test]
fn down_missing_tunnel() {
    let cfg = fixture();
    let b = backend(MockRunner::new(), &cfg, false);
    assert_eq!(b.down("ghost").unwrap_err().exit_code(), 3);
}

#[test]
fn status_one_up_and_down() {
    let cfg = fixture();
    let runner = MockRunner::new();
    runner.ok(ALL_DUMP);
    runner.ok("");
    let b = backend(runner, &cfg, false);

    let up = b.status_one("home").unwrap();
    assert!(up.up);
    assert_eq!(up.interface.as_deref(), Some("utun7"));
    let down = b.status_one("home").unwrap();
    assert!(!down.up);
}

#[test]
fn sibling_configs_disambiguated_by_allowed_ips() {
    // Same server public key; only the full-tunnel config is live.
    let cfg = fixture();
    cfg.write("split.conf", CONF_SPLIT);
    let runner = MockRunner::new();
    runner.ok(ALL_DUMP); // one status_all dump
    let b = backend(runner, &cfg, false);

    let all = b.status_all().unwrap();
    assert_eq!(all.len(), 2);
    assert!(all[0].up, "full-tunnel 'home' must be detected as up");
    assert!(!all[1].up, "sibling 'split' must not claim the interface");
}

#[test]
fn pubkey_only_match_when_conf_has_no_allowed_ips() {
    let cfg = Cfg::empty();
    cfg.write("bare.conf", "[Peer]\nPublicKey = PEERKEY\n");
    let runner = MockRunner::new();
    runner.ok(ALL_DUMP);
    let b = backend(runner, &cfg, false);
    assert!(b.status_one("bare").unwrap().up);
}

#[test]
fn conf_without_peer_is_an_error() {
    let cfg = Cfg::empty();
    cfg.write("bad.conf", "[Interface]\nPrivateKey = X\n");
    let runner = MockRunner::new();
    runner.ok("");
    let b = backend(runner, &cfg, false);
    assert_eq!(b.status_one("bad").unwrap_err().exit_code(), 1);
}

#[test]
fn list_and_current_use_one_wg_call() {
    let cfg = fixture();
    cfg.write("other.conf", CONF_OTHER);
    let runner = MockRunner::new();
    runner.ok(ALL_DUMP);
    let b = backend(runner.clone(), &cfg, false);

    let entries = b.list().unwrap();
    assert_eq!(
        entries,
        vec![
            ListEntry {
                name: "home".into(),
                up: true
            },
            ListEntry {
                name: "other".into(),
                up: false
            },
        ]
    );
    assert_eq!(runner.calls().len(), 1, "list must need only one wg call");

    let runner = MockRunner::new();
    runner.ok(ALL_DUMP);
    let b = backend(runner.clone(), &cfg, false);
    assert_eq!(b.current().unwrap(), vec!["home".to_string()]);
    assert_eq!(runner.calls().len(), 1);
}

#[test]
fn sudo_prefixes_privileged_calls() {
    let cfg = fixture();
    let runner = MockRunner::new();
    runner.ok(""); // all_dump
    runner.ok(""); // wg-quick up
    runner.ok(ALL_DUMP); // status all_dump
    let b = backend(runner.clone(), &cfg, true);

    b.up("home").unwrap();
    for (program, args) in runner.calls() {
        assert_eq!(program, "sudo");
        assert_eq!(args[0], "-n");
    }
}

#[test]
fn probe_activates_probes_and_restores() {
    let cfg = fixture();
    let runner = MockRunner::new();
    runner.ok(""); // all_dump: down
    runner.ok(""); // wg-quick up
    runner.ok(ALL_DUMP); // info dump
    runner.ok(CURL_OK); // curl
    runner.ok(""); // wg-quick down (restore)
    let b = backend(runner.clone(), &cfg, true);

    let results = b.probe(Some("home"), URL, 10, 1).unwrap();
    assert_eq!(results.len(), 1);
    let r = &results[0];
    assert!(r.ok);
    assert!(r.activated);
    assert_eq!(r.interface.as_deref(), Some("utun7"));
    assert_eq!(r.http_code, Some(200));
    assert_eq!(r.remote_ip.as_deref(), Some("104.16.132.229"));
    assert_eq!(r.timings.as_ref().unwrap().total_tenths, 2910);
    assert!(r.error.is_none() && r.warning.is_none());

    // curl must run unprivileged even with sudo configured.
    let calls = runner.calls();
    let programs: Vec<&str> = calls.iter().map(|(p, _)| p.as_str()).collect();
    assert_eq!(programs, vec!["sudo", "sudo", "sudo", "curl", "sudo"]);
    // And the restore call is a wg-quick down.
    let last = &runner.calls()[4];
    assert_eq!(last.1[1], "wg-quick");
    assert_eq!(last.1[2], "down");
}

#[test]
fn backend_probe_leaves_running_tunnel_up() {
    let cfg = fixture();
    let runner = MockRunner::new();
    runner.ok(ALL_DUMP); // already up
    runner.ok(ALL_DUMP); // info dump
    runner.ok(CURL_OK); // curl
    let b = backend(runner.clone(), &cfg, false);

    let results = b.probe(Some("home"), URL, 10, 1).unwrap();
    assert!(results[0].ok);
    assert!(!results[0].activated);
    // No wg-quick calls at all: state untouched.
    assert!(runner.calls().iter().all(|(p, _)| p != "wg-quick"));
}

#[test]
fn probe_reports_up_failure() {
    let cfg = fixture();
    let runner = MockRunner::new();
    runner.ok(""); // down
    runner.fail(1, "resolvconf missing"); // wg-quick up fails
    let b = backend(runner.clone(), &cfg, false);

    let results = b.probe(Some("home"), URL, 10, 1).unwrap();
    let r = &results[0];
    assert!(!r.ok);
    assert!(r.error.as_deref().unwrap().contains("resolvconf"));
    assert_eq!(
        runner.calls().len(),
        2,
        "no curl, no restore after failed up"
    );
}

#[test]
fn probe_curl_failure_still_restores() {
    let cfg = fixture();
    let runner = MockRunner::new();
    runner.ok(""); // down
    runner.ok(""); // up
    runner.ok(ALL_DUMP); // info
    runner.fail(7, "curl: (7) Failed to connect"); // curl fails
    runner.ok(""); // restore down
    let b = backend(runner.clone(), &cfg, false);

    let r = &b.probe(Some("home"), URL, 10, 1).unwrap()[0];
    assert!(!r.ok);
    assert!(r.error.as_deref().unwrap().contains("Failed to connect"));
    assert!(r.warning.is_none());
    let last = runner.calls().last().unwrap().clone();
    assert_eq!(last.0, "wg-quick");
    assert_eq!(last.1[0], "down");
}

#[test]
fn probe_curl_failure_without_stderr_reports_exit() {
    let cfg = fixture();
    let runner = MockRunner::new();
    runner.ok(ALL_DUMP); // already up
    runner.ok(ALL_DUMP); // info
    runner.fail(28, ""); // curl timeout, silent
    let b = backend(runner, &cfg, false);
    let r = &b.probe(Some("home"), URL, 10, 1).unwrap()[0];
    assert!(r.error.as_deref().unwrap().contains("exited 28"));
}

#[test]
fn probe_restore_failure_becomes_warning() {
    let cfg = fixture();
    let runner = MockRunner::new();
    runner.ok(""); // down
    runner.ok(""); // up
    runner.ok(ALL_DUMP); // info
    runner.ok(CURL_OK); // curl ok
    runner.fail(1, "cannot remove utun"); // restore fails
    let b = backend(runner, &cfg, false);

    let r = &b.probe(Some("home"), URL, 10, 1).unwrap()[0];
    assert!(r.ok, "probe data is still valid");
    assert!(r
        .warning
        .as_deref()
        .unwrap()
        .contains("failed to restore tunnel state"));
}

#[test]
fn probe_curl_spawn_failure_is_embedded_and_restores() {
    let cfg = fixture();
    let runner = MockRunner::new();
    runner.ok(""); // down
    runner.ok(""); // up
    runner.ok(ALL_DUMP); // info
    runner.spawn_err(); // curl missing
    runner.ok(""); // restore
    let b = backend(runner.clone(), &cfg, false);

    let r = &b.probe(Some("home"), URL, 10, 1).unwrap()[0];
    assert!(!r.ok);
    assert!(r.error.as_deref().unwrap().contains("failed to run"));
    assert_eq!(runner.calls().last().unwrap().1[0], "down");
}

#[test]
fn probe_tolerates_failing_info_dump() {
    let cfg = fixture();
    let runner = MockRunner::new();
    runner.ok(""); // down
    runner.ok(""); // up
    runner.fail(1, "transient"); // info dump fails: best-effort, ignored
    runner.ok(CURL_OK); // curl
    runner.ok(""); // restore
    let b = backend(runner, &cfg, false);

    let r = &b.probe(Some("home"), URL, 10, 1).unwrap()[0];
    assert!(r.ok, "probe succeeds without interface info");
    assert_eq!(r.interface, None);
}

#[test]
fn probe_restore_spawn_failure_becomes_warning() {
    let cfg = fixture();
    let runner = MockRunner::new();
    runner.ok(""); // down
    runner.ok(""); // up
    runner.ok(ALL_DUMP); // info
    runner.ok(CURL_OK); // curl ok
    runner.spawn_err(); // restore cannot even launch
    let b = backend(runner, &cfg, false);

    let r = &b.probe(Some("home"), URL, 10, 1).unwrap()[0];
    assert!(r.ok);
    assert!(r
        .warning
        .as_deref()
        .unwrap()
        .contains("failed to restore tunnel state"));
}

#[test]
fn probe_reports_exit_evidence_from_trace_body() {
    let cfg = fixture();
    let runner = MockRunner::new();
    runner.ok(ALL_DUMP); // already up
    runner.ok(ALL_DUMP); // info
    runner.ok(CURL_TRACE);
    let b = backend(runner.clone(), &cfg, false);

    let r = &b.probe(Some("home"), URL, 10, 1).unwrap()[0];
    assert!(r.ok);
    let exit = r.exit.as_ref().unwrap();
    assert_eq!(exit.ip, "203.0.113.99");
    assert_eq!(exit.loc.as_deref(), Some("US"));
    assert_eq!(exit.colo.as_deref(), Some("EWR"));

    // Trace URL: body is captured to stdout.
    let curl_call = runner
        .calls()
        .into_iter()
        .find(|(p, _)| p == "curl")
        .unwrap();
    let o_pos = curl_call.1.iter().position(|a| a == "-o").unwrap();
    assert_eq!(curl_call.1[o_pos + 1], "-");
}

#[test]
fn probe_discards_body_for_non_trace_urls() {
    let cfg = fixture();
    let runner = MockRunner::new();
    runner.ok(ALL_DUMP); // already up
    runner.ok(ALL_DUMP); // info
    runner.ok(CURL_OK);
    let b = backend(runner.clone(), &cfg, false);

    let r = &b
        .probe(Some("home"), "https://example.org/big", 10, 1)
        .unwrap()[0];
    assert!(r.ok);
    assert!(r.exit.is_none());

    let curl_call = runner
        .calls()
        .into_iter()
        .find(|(p, _)| p == "curl")
        .unwrap();
    let o_pos = curl_call.1.iter().position(|a| a == "-o").unwrap();
    assert_eq!(curl_call.1[o_pos + 1], "/dev/null");
    // The write-out includes the marker so parsing stays uniform.
    assert!(curl_call.1.iter().any(|a| a.contains("<<<VPNPROBE>>>")));
}

#[test]
fn probe_count_aggregates_samples_and_picks_median() {
    let cfg = fixture();
    let runner = MockRunner::new();
    runner.ok(ALL_DUMP); // already up
    runner.ok(ALL_DUMP); // info
    runner.ok(CURL_SLOW); // 300.0 ms
    runner.ok(CURL_FAST); // 101.0 ms
    runner.ok(CURL_OK); // 291.0 ms
    let b = backend(runner, &cfg, false);

    let r = &b.probe(Some("home"), URL, 10, 3).unwrap()[0];
    assert!(r.ok);
    assert_eq!(r.samples, 3);
    assert_eq!(r.failures, 0);
    let s = r.stats.as_ref().unwrap();
    assert_eq!(s.min_total_tenths, 1010);
    assert_eq!(s.median_total_tenths, 2910);
    assert_eq!(s.max_total_tenths, 3000);
    // Reported point-in-time fields come from the median sample.
    assert_eq!(r.timings.as_ref().unwrap().total_tenths, 2910);
    assert_eq!(r.remote_ip.as_deref(), Some("104.16.132.229"));
}

#[test]
fn probe_count_tolerates_partial_failures() {
    let cfg = fixture();
    let runner = MockRunner::new();
    runner.ok(ALL_DUMP); // already up
    runner.ok(ALL_DUMP); // info
    runner.ok(CURL_OK);
    runner.fail(7, "curl: (7) mid-sample blip");
    runner.ok(CURL_OK);
    let b = backend(runner, &cfg, false);

    let r = &b.probe(Some("home"), URL, 10, 3).unwrap()[0];
    assert!(r.ok, "one success is enough");
    assert_eq!(r.samples, 3);
    assert_eq!(r.failures, 1);
    assert!(r.error.as_deref().unwrap().contains("mid-sample blip"));
    assert!(r.stats.is_some());
}

#[test]
fn probe_count_all_failures_is_failed() {
    let cfg = fixture();
    let runner = MockRunner::new();
    runner.ok(ALL_DUMP); // already up
    runner.ok(ALL_DUMP); // info
    runner.fail(7, "first");
    runner.fail(7, "second");
    let b = backend(runner, &cfg, false);

    let r = &b.probe(Some("home"), URL, 10, 2).unwrap()[0];
    assert!(!r.ok);
    assert_eq!(r.failures, 2);
    assert!(r.error.as_deref().unwrap().contains("first"));
    assert!(r.stats.is_none());
}

#[test]
fn probe_bad_curl_output_is_an_error() {
    let cfg = fixture();
    let runner = MockRunner::new();
    runner.ok(ALL_DUMP); // up
    runner.ok(ALL_DUMP); // info
    runner.ok("<html>captive portal</html>"); // nonsense
    let b = backend(runner, &cfg, false);
    let r = &b.probe(Some("home"), URL, 10, 1).unwrap()[0];
    assert!(!r.ok);
    assert!(r
        .error
        .as_deref()
        .unwrap()
        .contains("unexpected curl output"));
}

#[test]
fn probe_all_sorts_successes_first() {
    let cfg = fixture();
    cfg.write("other.conf", CONF_OTHER);
    let runner = MockRunner::new();
    // 'home' (alphabetically first): full success.
    runner.ok(""); // down
    runner.ok(""); // up
    runner.ok(ALL_DUMP); // info
    runner.ok(CURL_OK); // curl
    runner.ok(""); // restore
                   // 'other': curl fails.
    runner.ok(""); // down
    runner.ok(""); // up
    runner.ok(""); // info (not found)
    runner.fail(7, "curl: (7)"); // curl
    runner.ok(""); // restore
    let b = backend(runner, &cfg, false);

    let results = b.probe(None, URL, 10, 1).unwrap();
    assert_eq!(results.len(), 2);
    assert!(results[0].ok && results[0].name == "home");
    assert!(!results[1].ok && results[1].name == "other");
}

#[test]
fn probe_missing_tunnel_is_a_hard_error() {
    let cfg = fixture();
    let b = backend(MockRunner::new(), &cfg, false);
    assert_eq!(
        b.probe(Some("ghost"), URL, 10, 1).unwrap_err().exit_code(),
        3
    );
}

#[test]
fn probe_passes_url_and_timeout_to_curl() {
    let cfg = fixture();
    let runner = MockRunner::new();
    runner.ok(ALL_DUMP); // up
    runner.ok(ALL_DUMP); // info
    runner.ok(CURL_OK); // curl
    let b = backend(runner.clone(), &cfg, false);
    b.probe(Some("home"), "https://example.org/x", 42, 1)
        .unwrap();

    let curl_call = runner
        .calls()
        .into_iter()
        .find(|(p, _)| p == "curl")
        .unwrap();
    assert!(curl_call.1.contains(&"--max-time".to_string()));
    assert!(curl_call.1.contains(&"42".to_string()));
    assert_eq!(curl_call.1.last().unwrap(), "https://example.org/x");
}


#[test]
fn exec_activates_runs_child_unprivileged_and_restores() {
    let cfg = fixture();
    let runner = MockRunner::new();
    runner.ok(""); // all_dump: down
    runner.ok(""); // wg-quick up
    runner.fail(42, ""); // child exits 42 (passthrough reads code)
    runner.ok(""); // wg-quick down
    let b = backend(runner.clone(), &cfg, true);

    let outcome = b
        .exec_through("home", &cmd(&["curl", "-sI", "https://x.example"]))
        .unwrap();
    assert!(outcome.activated);
    assert_eq!(outcome.exit_code, 42);
    assert!(outcome.warning.is_none());

    // sudo wraps only the wg calls; the child runs bare.
    let calls = runner.calls();
    let programs: Vec<&str> = calls.iter().map(|(p, _)| p.as_str()).collect();
    assert_eq!(programs, vec!["sudo", "sudo", "curl", "sudo"]);
    assert_eq!(calls[2].1, vec!["-sI", "https://x.example"]);
    assert_eq!(calls[3].1[1], "wg-quick");
    assert_eq!(calls[3].1[2], "down");
}

#[test]
fn exec_restore_repairs_stale_dns_and_reports_it() {
    let cfg = fixture();
    cfg.write("home.conf", CONF_DNS);
    let runner = MockRunner::new();
    runner.ok(""); // all_dump: down (detect)
    runner.ok(SERVICES); // capture: list services
    runner.ok(NO_DNS_SET); // capture: Wi-Fi is on DHCP pre-up
    runner.ok(""); // wg-quick up
    runner.ok(""); // child exits 0
    runner.ok(""); // wg-quick down
    runner.ok(""); // restore_dns: current() dump — nothing up
    runner.ok(""); // restore: set Wi-Fi to snapshot (Empty)
    runner.ok(SERVICES); // guard net sweep 1: list
    runner.ok(NO_DNS_SET); // guard net sweep 1: Wi-Fi clean
    runner.ok(SERVICES); // guard net sweep 2: list
    runner.ok(NO_DNS_SET); // guard net sweep 2: Wi-Fi clean
    let b = backend(runner, &cfg, false);

    let outcome = b.exec_through("home", &cmd(&["true"])).unwrap();
    assert_eq!(outcome.exit_code, 0);
    assert_eq!(
        outcome.warning.as_deref(),
        Some("cleared stale VPN DNS from Wi-Fi")
    );
}

#[test]
fn exec_on_running_tunnel_leaves_it_up() {
    let cfg = fixture();
    let runner = MockRunner::new();
    runner.ok(ALL_DUMP); // already up
    runner.ok(""); // child exits 0
    let b = backend(runner.clone(), &cfg, false);

    let outcome = b.exec_through("home", &cmd(&["true"])).unwrap();
    assert!(!outcome.activated);
    assert_eq!(outcome.exit_code, 0);
    assert!(runner.calls().iter().all(|(p, _)| p != "wg-quick"));
}

#[test]
fn exec_up_failure_is_hard_error() {
    let cfg = fixture();
    let runner = MockRunner::new();
    runner.ok(""); // down
    runner.fail(1, "no permission"); // wg-quick up fails
    let b = backend(runner.clone(), &cfg, false);
    assert_eq!(
        b.exec_through("home", &cmd(&["true"]))
            .unwrap_err()
            .exit_code(),
        5
    );
    assert_eq!(runner.calls().len(), 2, "child never ran");
}

#[test]
fn exec_child_spawn_failure_still_restores() {
    let cfg = fixture();
    let runner = MockRunner::new();
    runner.ok(""); // down
    runner.ok(""); // up
    runner.spawn_err(); // child missing
    runner.ok(""); // restore
    let b = backend(runner.clone(), &cfg, false);

    let err = b.exec_through("home", &cmd(&["nope"])).unwrap_err();
    assert_eq!(err.exit_code(), 6);
    let last = runner.calls().last().unwrap().clone();
    assert_eq!(last.1[0], "down", "restore ran despite spawn failure");
}

#[test]
fn exec_restore_failure_becomes_warning() {
    let cfg = fixture();
    let runner = MockRunner::new();
    runner.ok(""); // down
    runner.ok(""); // up
    runner.ok(""); // child ok
    runner.fail(1, "cannot remove"); // restore fails
    let b = backend(runner, &cfg, false);

    let outcome = b.exec_through("home", &cmd(&["true"])).unwrap();
    assert_eq!(outcome.exit_code, 0);
    assert!(outcome
        .warning
        .as_deref()
        .unwrap()
        .contains("failed to restore tunnel state"));
}

#[test]
fn exec_signal_killed_child_reports_code_1() {
    let cfg = fixture();
    let runner = MockRunner::new();
    runner.ok(ALL_DUMP); // already up
    runner.signal_killed(); // child killed by signal
    let b = backend(runner, &cfg, false);
    assert_eq!(b.exec_through("home", &cmd(&["x"])).unwrap().exit_code, 1);
}

#[test]
fn exec_missing_tunnel() {
    let cfg = fixture();
    let b = backend(MockRunner::new(), &cfg, false);
    assert_eq!(
        b.exec_through("ghost", &cmd(&["true"]))
            .unwrap_err()
            .exit_code(),
        3
    );
}

#[test]
fn lint_checks_one_or_all_configs() {
    let cfg = fixture(); // clean home.conf
    cfg.write("loop.conf", "[Interface]\nPrivateKey = P\n[Peer]\nPublicKey = K\n\
         AllowedIPs = 64.0.0.0/3\nEndpoint = 79.127.160.216:51820\n");
    let b = backend(MockRunner::new(), &cfg, false);

    let all = b.lint(None).unwrap();
    assert_eq!(all.len(), 2);
    assert!(all[0].ok, "home is clean");
    assert!(!all[1].ok, "loop.conf has the routing loop");
    assert!(all[1].findings[0].message.contains("routing loop"));

    let one = b.lint(Some("home")).unwrap();
    assert_eq!(one.len(), 1);
    assert!(one[0].ok);

    assert_eq!(b.lint(Some("ghost")).unwrap_err().exit_code(), 3);
}

#[test]
fn add_installs_config_with_private_permissions() {
    let cfg = Cfg::empty();
    let src = cfg.source("vpn_cli-JP-77.conf");
    cfg.write_at(&src, CONF);
    let b = backend(MockRunner::new(), &cfg, false);

    let (name, dest, lint) = b.add(&src, Some("proton-jp"), false, false).unwrap();
    assert_eq!(name, "proton-jp");
    assert!(lint.ok);
    assert_eq!(dest, cfg.at("proton-jp.conf"));
    assert_eq!(cfg.text(&dest), CONF);
    assert_eq!(cfg.mode(&dest), 0o600);
}

#[test]
fn add_defaults_name_to_stem_and_validates() {
    let cfg = Cfg::empty();
    let good = cfg.source("jp.conf");
    cfg.write_at(&good, CONF);
    let b = backend(MockRunner::new(), &cfg, false);
    assert_eq!(b.add(&good, None, false, false).unwrap().0, "jp");

    // A stem that is not a valid tunnel name needs --name.
    let bad = cfg.source("has space.conf");
    cfg.write_at(&bad, CONF);
    assert_eq!(b.add(&bad, None, false, false).unwrap_err().exit_code(), 4);
}

#[test]
fn add_refuses_lint_errors_and_overwrites_without_force() {
    let cfg = Cfg::empty();
    let broken = cfg.source("broken.conf");
    cfg.write_at(&broken, "[Interface]\nPrivateKey = P\n[Peer]\nPublicKey = K\n\
         AllowedIPs = 64.0.0.0/3\nEndpoint = 79.127.160.216:51820\n");
    let b = backend(MockRunner::new(), &cfg, false);

    let err = b.add(&broken, None, false, false).unwrap_err();
    assert_eq!(err.exit_code(), 1);
    assert!(err.to_string().contains("routing loop"));
    // --force overrides the lint refusal.
    assert!(b.add(&broken, None, true, false).is_ok());

    // Existing destination refuses without force.
    let good = cfg.source("broken2.conf");
    cfg.write_at(&good, CONF);
    let err = b.add(&good, Some("broken"), false, false).unwrap_err();
    assert!(err.to_string().contains("already exists"));
    assert!(b.add(&good, Some("broken"), true, false).is_ok());
}

/// A config carrying a root-executed shell hook (the escalation vector).
const CONF_HOOKED: &str = "[Interface]\nPrivateKey = IFPRIV\nAddress = 10.0.0.2/32\n\
    PostUp = /bin/sh -c 'id > /tmp/pwned'\n\n\
    [Peer]\nPublicKey = PEERKEY\nAllowedIPs = 0.0.0.0/0, ::/0\nEndpoint = 203.0.113.1:51820\n";

#[test]
fn add_refuses_shell_hooks_even_under_force() {
    let cfg = Cfg::empty();
    let src = cfg.source("evil.conf");
    cfg.write_at(&src, CONF_HOOKED);
    let b = backend(MockRunner::new(), &cfg, false);

    // Default: refused.
    let err = b.add(&src, Some("evil"), false, false).unwrap_err();
    assert_eq!(err.exit_code(), 1);
    assert!(err.to_string().contains("PostUp"));
    assert!(err.to_string().contains("root"));
    // --force must NOT bypass the security gate.
    let err = b.add(&src, Some("evil"), true, false).unwrap_err();
    assert!(err.to_string().contains("--allow-hooks"));
    assert!(
        !cfg.holds("evil.conf"),
        "hooked config must never be installed without --allow-hooks"
    );
    // The explicit opt-in installs it.
    assert!(b.add(&src, Some("evil"), false, true).is_ok());
    assert!(cfg.holds("evil.conf"));
}

#[test]
fn split_strips_shell_hooks_from_the_sibling() {
    let cfg = fixture();
    cfg.write("hooked.conf", CONF_HOOKED);
    let b = backend(MockRunner::new(), &cfg, false);
    let (_, dest, _) = b
        .split("hooked", &["100.64.0.0/10".to_string()], None, false, false)
        .unwrap();
    let text = cfg.text(&dest);
    assert!(
        !text.to_lowercase().contains("postup"),
        "the split sibling must not carry a root-executed hook forward"
    );
    // And the generated sibling passes its own hook gate on re-add.
    assert!(cfg.summary(&dest).unwrap().exec_hooks.is_empty());
}

#[test]
fn doctor_flags_installed_hooked_config() {
    let cfg = fixture();
    cfg.write("home.conf", CONF_HOOKED);
    let runner = MockRunner::new();
    runner.ok("wireguard-tools v1.0");
    runner.ok("usage");
    runner.ok("curl 8.0");
    runner.ok(""); // wg state
    let b = backend(runner, &cfg, false);
    let cfg_check = b
        .doctor()
        .into_iter()
        .find(|c| c.name == "config:home")
        .unwrap();
    assert!(!cfg_check.ok);
    assert!(cfg_check.detail.contains("PostUp"));
}

#[test]
fn add_missing_source_errors() {
    let cfg = Cfg::empty();
    let b = backend(MockRunner::new(), &cfg, false);
    let err = b.add("/nonexistent/x.conf", Some("x"), false, false);
    assert_eq!(err.unwrap_err().exit_code(), 1);
}

/// A realistic source conf for split: full tunnel with DNS and comments.
const SPLIT_SRC: &str = "[Interface]\n# Key for vpn cli\nPrivateKey = IFPRIV\n\
    Address = 10.2.0.2/32\nDNS = 10.2.0.1\n\n[Peer]\n# US-MA#93\nPublicKey = PEERKEY\n\
    AllowedIPs = 0.0.0.0/0, ::/0\nEndpoint = 79.127.160.216:51820\n\
    PersistentKeepalive = 25\n";

#[test]
fn split_generates_safe_sibling() {
    let cfg = Cfg::empty();
    cfg.write("proton.conf", SPLIT_SRC);
    let b = backend(MockRunner::new(), &cfg, false);

    let (name, dest, entries) = b
        .split("proton", &["100.64.0.0/10".to_string()], None, false, false)
        .unwrap();
    assert_eq!(name, "proton-split");
    // 38 v4 CIDRs (tailscale + endpoint holes) + ::/0.
    assert_eq!(entries, 39);

    let text = cfg.text(&dest);
    assert!(!text.to_lowercase().contains("dns ="), "DNS dropped");
    assert!(text.contains("PrivateKey = IFPRIV"), "keys carried over");
    assert!(text.contains("PersistentKeepalive = 25"));
    assert!(text.contains("::/0"));
    assert!(!text.contains("0.0.0.0/0"), "full route replaced");

    // The generated config must lint clean — no routing loop.
    let summary = cfg.summary(&dest).unwrap();
    let result = lint::lint(&name, &summary);
    assert!(result.ok, "generated split must be safe: {result:?}");
}

#[test]
fn split_keep_dns_and_custom_output() {
    let cfg = Cfg::empty();
    cfg.write("proton.conf", SPLIT_SRC);
    let b = backend(MockRunner::new(), &cfg, false);

    let (name, dest, _) = b.split("proton", &[], Some("p-ts"), true, false).unwrap();
    assert_eq!(name, "p-ts");
    let text = cfg.text(&dest);
    assert!(text.contains("DNS = 10.2.0.1"), "--keep-dns preserves DNS");
}

#[test]
fn split_refusals() {
    let cfg = Cfg::empty();
    cfg.write("proton.conf", SPLIT_SRC);
    // No endpoint.
    cfg.write("noend.conf", "[Peer]\nPublicKey = K\nAllowedIPs = 0.0.0.0/0\n");
    let b = backend(MockRunner::new(), &cfg, false);

    assert!(b
        .split("noend", &[], None, false, false)
        .unwrap_err()
        .to_string()
        .contains("no Endpoint"));
    // Bad exclude CIDR.
    assert!(b
        .split("proton", &["::/0".to_string()], None, false, false)
        .unwrap_err()
        .to_string()
        .contains("IPv4 CIDRs only"));
    // Default output name too long -> invalid.
    cfg.write("a-very-long-nm.conf", SPLIT_SRC);
    assert_eq!(
        b.split("a-very-long-nm", &[], None, false, false)
            .unwrap_err()
            .exit_code(),
        4
    );
    // Overwrite protection.
    b.split("proton", &[], None, false, false).unwrap();
    assert!(b
        .split("proton", &[], None, false, false)
        .unwrap_err()
        .to_string()
        .contains("already exists"));
    assert!(b.split("proton", &[], None, false, true).is_ok());
}

#[test]
fn doctor_all_healthy() {
    let cfg = fixture();
    cfg.chmod("home.conf", 0o600);
    let runner = MockRunner::new();
    runner.ok("wireguard-tools v1.0.20260223\n"); // wg --version
    runner.fail(1, "Usage: wg-quick"); // wg-quick (usage exit is fine)
    runner.ok("curl 8.7.1\n"); // curl --version
    runner.ok(ALL_DUMP); // wg show all dump
    let b = backend(runner, &cfg, false);

    let checks = b.doctor();
    assert!(checks.iter().all(|c| c.ok), "all healthy: {checks:?}");
    let names: Vec<&str> = checks.iter().map(|c| c.name.as_str()).collect();
    assert_eq!(
        names,
        vec![
            "wg",
            "wg-quick",
            "curl",
            "wg state",
            "config dir",
            "config:home"
        ]
    );
    assert!(checks[0].detail.contains("wireguard-tools"));
    assert!(checks[3].detail.contains("1 live interface"));
}

#[test]
fn doctor_flags_stale_dns_when_no_tunnel_up() {
    let cfg = fixture();
    cfg.write("home.conf", CONF_DNS);
    let runner = MockRunner::new();
    runner.ok("wireguard-tools v1.0"); // wg --version
    runner.ok("usage"); // wg-quick
    runner.ok("curl 8.0"); // curl --version
    runner.ok(""); // wg state dump — nothing up
    runner.ok(""); // check_dns: current() dump
    runner.ok(SERVICES);
    runner.ok("10.2.0.1"); // Wi-Fi pinned, nothing up: broken
    let b = backend(runner, &cfg, false);

    let dns = b.doctor().into_iter().find(|c| c.name == "dns").unwrap();
    assert!(!dns.ok);
    assert!(dns.detail.contains("Wi-Fi"));
    assert!(dns.detail.contains("vpn down"));
}

#[test]
fn doctor_dns_ok_while_a_tunnel_is_up() {
    let cfg = fixture();
    cfg.write("home.conf", CONF_DNS);
    let runner = MockRunner::new();
    runner.ok("wireguard-tools v1.0");
    runner.ok("usage");
    runner.ok("curl 8.0");
    runner.ok(ALL_DUMP); // wg state dump — home is up
    runner.ok(ALL_DUMP); // check_dns: current() dump
    let b = backend(runner, &cfg, false);

    let dns = b.doctor().into_iter().find(|c| c.name == "dns").unwrap();
    assert!(dns.ok);
    assert!(dns.detail.contains("home"));
}

#[test]
fn doctor_has_no_dns_check_without_dns_configs() {
    let cfg = fixture(); // CONF declares no DNS
    let b = backend(MockRunner::new(), &cfg, false);
    assert!(b.doctor().iter().all(|c| c.name != "dns"));
}

#[test]
fn doctor_reports_missing_binaries_and_sudo() {
    let cfg = fixture();
    let runner = MockRunner::new();
    runner.spawn_err(); // wg missing
    runner.spawn_err(); // wg-quick missing
    runner.ok("curl 8.7.1\n"); // curl fine
    runner.fail(1, "sudo: a password is required"); // sudo -n fails
    runner.fail(1, "denied"); // all_dump via sudo fails
    let b = backend(runner.clone(), &cfg, true);

    let checks = b.doctor();
    let by_name = |n: &str| checks.iter().find(|c| c.name == n).unwrap();
    assert!(!by_name("wg").ok);
    assert!(!by_name("wg-quick").ok);
    assert!(by_name("wg-quick").detail.contains("wireguard-tools"));
    assert!(by_name("curl").ok);
    assert!(!by_name("sudo").ok);
    assert!(by_name("sudo").detail.contains("NOPASSWD"));
    assert!(!by_name("wg state").ok);
    assert!(by_name("config dir").ok);
    // sudo check went through `sudo -n`.
    assert!(runner
        .calls()
        .iter()
        .any(|(p, a)| p == "sudo" && a[0] == "-n"));
}

#[test]
fn doctor_flags_broken_configs_and_loose_permissions() {
    let cfg = fixture();
    cfg.write("loop.conf", "[Interface]\nPrivateKey = P\n[Peer]\nPublicKey = K\n\
         AllowedIPs = 64.0.0.0/3\nEndpoint = 79.127.160.216:51820\n");
    cfg.chmod("home.conf", 0o644);
    let runner = MockRunner::new();
    runner.ok("wg v1\n");
    runner.fail(1, "usage");
    runner.ok("curl 8\n");
    runner.ok(ALL_DUMP);
    let b = backend(runner, &cfg, false);

    let checks = b.doctor();
    let by_name = |n: &str| checks.iter().find(|c| c.name == n).unwrap();
    assert!(!by_name("config:home").ok);
    assert!(by_name("config:home").detail.contains("chmod 600"));
    assert!(!by_name("config:loop").ok);
    assert!(by_name("config:loop").detail.contains("routing loop"));
}

#[test]
fn split_rejects_hostname_endpoint() {
    let cfg = Cfg::empty();
    cfg.write("host.conf", "[Interface]\nPrivateKey = P\n[Peer]\nPublicKey = K\n\
         AllowedIPs = 0.0.0.0/0\nEndpoint = vpn.example.com:51820\n");
    let b = backend(MockRunner::new(), &cfg, false);
    let err = b.split("host", &[], None, false, false).unwrap_err();
    assert!(err.to_string().contains("not an IPv4 address"));
}

#[test]
fn exec_restore_spawn_failure_becomes_warning() {
    let cfg = fixture();
    let runner = MockRunner::new();
    runner.ok(""); // down
    runner.ok(""); // up
    runner.ok(""); // child ok
    runner.spawn_err(); // restore cannot launch wg-quick
    let b = backend(runner, &cfg, false);

    let outcome = b.exec_through("home", &cmd(&["true"])).unwrap();
    assert_eq!(outcome.exit_code, 0);
    assert!(outcome
        .warning
        .as_deref()
        .unwrap()
        .contains("failed to restore tunnel state"));
}

#[test]
fn doctor_handles_sudo_spawn_error_and_version_failures() {
    let cfg = fixture();
    let runner = MockRunner::new();
    runner.fail(127, ""); // wg --version exits non-zero
    runner.fail(1, "usage"); // wg-quick found
    runner.ok("curl 8\n"); // curl fine
    runner.spawn_err(); // sudo itself missing
    runner.ok(ALL_DUMP); // dump
    let b = backend(runner, &cfg, true);

    let checks = b.doctor();
    let by_name = |n: &str| checks.iter().find(|c| c.name == n).unwrap();
    assert!(!by_name("wg").ok);
    assert!(by_name("wg").detail.contains("exited 127"));
    assert!(!by_name("sudo").ok);
    assert!(by_name("sudo").detail.contains("cannot run sudo"));
}

#[test]
fn doctor_reports_unreadable_config_dir() {
    // config_dir whose parent is a regular file cannot be read.
    let cfg = Cfg::empty();
    cfg.write("iamafile", "x");
    let runner = MockRunner::new();
    runner.ok("wg v1\n");
    runner.fail(1, "usage");
    runner.ok("curl 8\n");
    runner.ok("");
    let b = Host {
        backend: Backend::new(cfg.at("iamafile/sub"), false),
        runner,
        files: cfg.files.clone(),
    };

    let checks = b.doctor();
    let dir_check = checks.iter().find(|c| c.name == "config dir").unwrap();
    assert!(!dir_check.ok);
}

#[test]
fn doctor_reports_unreadable_config_file() {
    let cfg = fixture();
    cfg.chmod("home.conf", 0o000);
    let runner = MockRunner::new();
    runner.ok("wg v1\n");
    runner.fail(1, "usage");
    runner.ok("curl 8\n");
    runner.ok("");
    let b = backend(runner, &cfg, false);

    let checks = b.doctor();
    let conf = checks.iter().find(|c| c.name == "config:home").unwrap();
    assert!(!conf.ok);
    cfg.chmod("home.conf", 0o600);
}

#[test]
fn doctor_notes_warnings_on_passing_configs() {
    let cfg = Cfg::empty();
    cfg.write("srv.conf", "[Interface]\nPrivateKey = P\n[Peer]\nPublicKey = K\n");
    cfg.chmod("srv.conf", 0o600);
    let runner = MockRunner::new();
    runner.ok("wg v1\n");
    runner.fail(1, "usage");
    runner.ok("curl 8\n");
    runner.ok("");
    let b = backend(runner, &cfg, false);

    let checks = b.doctor();
    let conf = checks.iter().find(|c| c.name == "config:srv").unwrap();
    assert!(conf.ok, "warnings don't fail doctor");
    assert!(conf.detail.contains("no Endpoint"));
}

#[test]
fn rewrite_split_handles_multiple_allowedips_and_missing() {
    let text =
        "[Peer]\nAllowedIPs = 10.0.0.0/8\nAllowedIPs = 172.16.0.0/12\nEndpoint = 1.2.3.4:1\n";
    let out = rewrite_split(text, "0.0.0.0/1, 128.0.0.0/1", true).unwrap();
    assert_eq!(
        out.matches("AllowedIPs").count(),
        1,
        "collapsed to one line"
    );
    assert!(out.contains("AllowedIPs = 0.0.0.0/1, 128.0.0.0/1"));
    assert!(out.contains("Endpoint = 1.2.3.4:1"));

    assert!(rewrite_split("[Peer]\nPublicKey = K\n", "x", false).is_none());
}

#[test]
fn with_programs_overrides_invoked_binaries() {
    let cfg = fixture();
    let runner = MockRunner::new();
    runner.ok(""); // all_dump
    runner.ok(""); // wg-quick up
    runner.ok(ALL_DUMP); // status dump
    let b = backend(runner.clone(), &cfg, false).with_programs(
        "/abs/wg".to_string(),
        "/abs/wg-quick".to_string(),
        "/abs/curl".to_string(),
    );

    b.up("home").unwrap();
    let calls = runner.calls();
    assert_eq!(calls[0].0, "/abs/wg");
    assert_eq!(calls[1].0, "/abs/wg-quick");
}

#[test]
fn with_programs_labels_backend_errors() {
    let cfg = fixture();
    let runner = MockRunner::new();
    runner.ok(""); // all_dump
    runner.fail(2, "boom"); // wg-quick up fails
    let b = backend(runner, &cfg, false).with_programs(
        "/abs/wg".to_string(),
        "/abs/wg-quick".to_string(),
        "curl".to_string(),
    );

    let err = b.up("home").unwrap_err();
    assert!(matches!(err, Error::Backend { program, .. } if program == "/abs/wg-quick"));
}

#[test]
fn config_dir_accessor() {
    let cfg = fixture();
    let b = backend(MockRunner::new(), &cfg, false);
    assert_eq!(b.config_dir(), cfg.path());
}

// ---- Journaled state, reconciliation, recovery, and leases ----

fn dns_journal(tunnel: &str, phase: Phase) -> Journal {
    Journal {
        tunnel: tunnel.to_string(),
        phase,
        interface: Some("utun7".to_string()),
        lease_deadline: None,
        dns_snapshot: snapshot("Wi-Fi", &[]),
        tunnel_dns: vec!["10.2.0.1".to_string(), "2a07:b944::2:1".to_string()],
    }
}

#[test]
fn up_records_active_journal_with_lease_deadline() {
    let cfg = fixture(); // home.conf = CONF (no DNS)
    let runner = MockRunner::new();
    runner.ok(""); // all_dump: down (detect)
    runner.ok(""); // wg-quick up
    runner.ok(ALL_DUMP); // post-up dump: resolves utun7
    let b = backend(runner, &cfg, false).with_fixed_time(1000);

    let (changed, _status) = b.up_with_lease("home", Some(1800)).unwrap();
    assert!(changed);
    let journal = cfg.journal("home").expect("journal written");
    assert_eq!(journal.phase, Phase::Active);
    assert_eq!(journal.interface.as_deref(), Some("utun7"));
    assert_eq!(journal.lease_deadline, Some(2800));
}

#[test]
fn down_restores_custom_dns_from_journal_snapshot() {
    let cfg = fixture();
    cfg.write("home.conf", CONF_DNS);
    // Journal says the real pre-tunnel DNS was a custom 9.9.9.9.
    let mut j = dns_journal("home", Phase::Active);
    j.dns_snapshot = snapshot("Wi-Fi", &["9.9.9.9"]);
    cfg.record(&j);

    let runner = MockRunner::new();
    runner.ok(ALL_DUMP); // reconcile: all_dump (journal healthy → untouched)
    runner.ok(ALL_DUMP); // down: all_dump (find live)
    runner.ok(""); // wg-quick down
    runner.ok(""); // restore_dns: current() dump — nothing up
    runner.ok(""); // restore: set Wi-Fi to 9.9.9.9
    runner.ok(SERVICES); // guard net sweep 1: list
    runner.ok("9.9.9.9"); // sweep 1: Wi-Fi (custom, not poison → clean)
    runner.ok(SERVICES); // guard net sweep 2: list
    runner.ok("9.9.9.9"); // sweep 2
    let b = backend(runner.clone(), &cfg, false);

    let outcome = b.down("home").unwrap();
    assert!(outcome.changed);
    assert_eq!(outcome.dns_cleared, vec!["Wi-Fi".to_string()]);
    // The restore reapplied the CUSTOM DNS, not Empty.
    let set = runner
        .calls()
        .into_iter()
        .find(|(_, a)| a.first().map(String::as_str) == Some("-setdnsservers"))
        .unwrap();
    assert_eq!(set.1, vec!["-setdnsservers", "Wi-Fi", "9.9.9.9"]);
    assert!(cfg.journal("home").is_none(), "journal cleared");
}

#[test]
fn reconcile_is_a_noop_with_no_journals() {
    let cfg = fixture();
    let runner = MockRunner::new();
    let b = backend(runner.clone(), &cfg, false);
    assert!(b.reconcile().unwrap().is_empty());
    assert!(runner.calls().is_empty(), "idle reconcile makes no calls");
}

#[test]
fn reconcile_heals_crashed_up_pending_and_restores_dns() {
    let cfg = fixture();
    cfg.write("home.conf", CONF_DNS);
    // Crash during `up`: interface never came live.
    let mut j = dns_journal("home", Phase::UpPending);
    j.interface = None;
    cfg.record(&j);

    let runner = MockRunner::new();
    runner.ok(""); // reconcile: all_dump — nothing live
    runner.ok(""); // restore_dns: current() dump — nothing up
    runner.ok(""); // restore: set Wi-Fi (snapshot Empty)
    runner.ok(SERVICES); // guard sweep 1 list
    runner.ok(NO_DNS_SET); // sweep 1 clean
    runner.ok(SERVICES); // guard sweep 2 list
    runner.ok(NO_DNS_SET); // sweep 2 clean
    let b = backend(runner, &cfg, false);

    let recovered = b.reconcile().unwrap();
    assert_eq!(recovered.len(), 1);
    assert!(recovered[0].reason.contains("bringing the tunnel up"));
    assert_eq!(recovered[0].dns_cleared, vec!["Wi-Fi".to_string()]);
    assert!(cfg.journal("home").is_none());
}

#[test]
fn reconcile_tears_down_expired_lease() {
    let cfg = fixture(); // CONF, no DNS
    let mut j = Journal {
        tunnel: "home".to_string(),
        phase: Phase::Active,
        interface: Some("utun7".to_string()),
        lease_deadline: Some(500),
        dns_snapshot: TextMap::new(),
        tunnel_dns: Vec::new(),
    };
    j.lease_deadline = Some(500);
    cfg.record(&j);

    let runner = MockRunner::new();
    runner.ok(ALL_DUMP); // reconcile: all_dump — utun7 live
    runner.ok(""); // wg-quick down (lease expired)
    let b = backend(runner.clone(), &cfg, false).with_fixed_time(1000);

    let recovered = b.reconcile().unwrap();
    assert_eq!(recovered.len(), 1);
    assert!(recovered[0].reason.contains("lease expired"));
    let downs: Vec<_> = runner
        .calls()
        .into_iter()
        .filter(|(_, a)| a.first().map(String::as_str) == Some("down"))
        .collect();
    assert_eq!(downs.len(), 1, "expired tunnel torn down");
    assert!(cfg.journal("home").is_none());
}

#[test]
fn reconcile_leaves_healthy_active_tunnel_untouched() {
    let cfg = fixture();
    let j = Journal {
        tunnel: "home".to_string(),
        phase: Phase::Active,
        interface: Some("utun7".to_string()),
        lease_deadline: Some(9999),
        dns_snapshot: TextMap::new(),
        tunnel_dns: Vec::new(),
    };
    cfg.record(&j);
    let runner = MockRunner::new();
    runner.ok(ALL_DUMP); // reconcile: all_dump — utun7 live, within lease
    let b = backend(runner.clone(), &cfg, false).with_fixed_time(1000);

    assert!(b.reconcile().unwrap().is_empty());
    assert!(cfg.journal("home").is_some(), "journal kept");
    assert!(runner
        .calls()
        .iter()
        .all(|(_, a)| a.first().map(String::as_str) != Some("down")));
}

#[test]
fn recover_tears_down_orphan_via_config_path() {
    let cfg = fixture(); // home.conf = CONF matches ALL_DUMP's utun7
    let runner = MockRunner::new();
    // recover -> reconcile (no journals, no calls) -> its own all_dump.
    runner.ok(ALL_DUMP); // recover: all_dump — utun7 live, unclaimed
    runner.ok(""); // wg-quick down <home.conf path>
    let b = backend(runner.clone(), &cfg, false);

    let recovered = b.recover().unwrap();
    assert_eq!(recovered.len(), 1);
    assert_eq!(
        recovered[0].tunnel, "home",
        "mapped orphan iface to its config"
    );
    assert!(recovered[0].reason.contains("torn down"));
    // Torn down by the config PATH (wg-quick rejects a bare interface on macOS).
    let down = runner
        .calls()
        .into_iter()
        .find(|(_, a)| a.first().map(String::as_str) == Some("down"))
        .unwrap();
    assert!(
        down.1[1].ends_with("home.conf"),
        "used config path: {:?}",
        down.1
    );
}

#[test]
fn recover_reports_orphan_with_no_matching_config() {
    let cfg = Cfg::empty(); // no configs at all
    let runner = MockRunner::new();
    runner.ok(ALL_DUMP); // recover: all_dump — utun7 live, no config matches
    let b = backend(runner.clone(), &cfg, false);

    let recovered = b.recover().unwrap();
    assert_eq!(recovered.len(), 1);
    assert_eq!(recovered[0].tunnel, "utun7");
    assert!(recovered[0].reason.contains("no matching config"));
    // Nothing was torn down (we cannot safely).
    assert!(runner
        .calls()
        .iter()
        .all(|(_, a)| a.first().map(String::as_str) != Some("down")));
}

#[test]
fn recover_is_clean_when_nothing_is_wrong() {
    let cfg = fixture();
    let runner = MockRunner::new();
    runner.ok(""); // recover: all_dump — nothing live
    let b = backend(runner, &cfg, false);
    assert!(b.recover().unwrap().is_empty());
}

// ---- vpn verify (host-health assertion) ----

const ROUTE_HOME: &str = "   route to: default\ngateway: 172.20.0.1\n  interface: en0\n";
// A live WireGuard interface whose peer no config matches → an orphan.
const ORPHAN_DUMP: &str = "utun9\tIF\tIFP\t51820\toff\n\
    utun9\tORPHANKEY\t(none)\t203.0.113.9:51820\t0.0.0.0/0\t1700000000\t1\t2\t25\n";

#[test]
fn verify_healthy_on_clean_host() {
    let cfg = fixture(); // home.conf = CONF (no DNS)
    let runner = MockRunner::new();
    runner.ok(""); // verify: all_dump — nothing live
    runner.ok(ROUTE_HOME); // route -n get default
    runner.ok(""); // current(): all_dump — nothing up
    let b = backend(runner, &cfg, false);
    let health = b.verify().unwrap();
    assert!(health.healthy);
    assert!(health.issues.is_empty());
}

#[test]
fn verify_flags_orphan_interface_holding_the_route() {
    let cfg = fixture(); // only home.conf (PEERKEY); utun9/ORPHANKEY matches nothing
    let runner = MockRunner::new();
    runner.ok(ORPHAN_DUMP); // verify: all_dump — utun9 live, unmatched
    runner.ok("  interface: utun9\n"); // default route is via the orphan
    runner.ok(ORPHAN_DUMP); // current(): all_dump (no config matches → empty)
    let b = backend(runner, &cfg, false);
    let health = b.verify().unwrap();
    assert!(!health.healthy);
    assert_eq!(health.issues.len(), 1);
    assert_eq!(health.issues[0].kind, "orphan");
    assert!(health.issues[0].detail.contains("utun9"));
    assert!(health.issues[0].detail.contains("default route"));
}

#[test]
fn verify_flags_stale_dns_with_nothing_up() {
    let cfg = fixture();
    cfg.write("home.conf", CONF_DNS);
    let runner = MockRunner::new();
    runner.ok(""); // verify: all_dump — nothing live
    runner.ok(ROUTE_HOME); // route home (fine)
    runner.ok(""); // current(): all_dump — nothing up
    runner.ok(SERVICES); // stale_services: list
    runner.ok("10.2.0.1"); // Wi-Fi pinned to the tunnel resolver
    let b = backend(runner, &cfg, false);
    let health = b.verify().unwrap();
    assert!(!health.healthy);
    assert_eq!(health.issues[0].kind, "dns");
    assert!(health.issues[0].detail.contains("Wi-Fi"));
}

// ---- vpn diff (cross-location response comparison) ----

#[test]
fn diff_one_fetches_headers_and_restores() {
    let cfg = fixture(); // home.conf = CONF (no DNS)
    let header_out = format!(
        "HTTP/2 200 \ncf-cache-status: HIT\ncontent-type: text/html\n\n{}200",
        OUTPUT_MARKER
    );
    let runner = MockRunner::new();
    runner.ok(""); // diff_one: all_dump (detect, down)
    runner.ok(""); // activate: wg-quick up
    runner.ok(ALL_DUMP); // activate: all_dump (interface)
    runner.ok(&header_out); // diff_fetch: curl headers
    runner.ok(""); // teardown: wg-quick down
    let b = backend(runner.clone(), &cfg, false);

    let results = b.diff(Some("home"), "https://x.example", 10).unwrap();
    assert_eq!(results.len(), 1);
    let r = &results[0];
    assert!(r.ok);
    assert_eq!(r.status, Some(200));
    assert_eq!(r.headers.get("cf-cache-status").unwrap(), "HIT");
    // Tunnel state was restored (a wg-quick down ran).
    assert!(runner
        .calls()
        .iter()
        .any(|(_, a)| a.first().map(String::as_str) == Some("down")));
    // curl fetched headers only (no body), through the tunnel.
    let curl = runner
        .calls()
        .into_iter()
        .find(|(p, _)| p == "curl")
        .unwrap();
    assert!(curl.1.contains(&"-D".to_string()) && curl.1.contains(&"-".to_string()));
    assert_eq!(curl.1.last().unwrap(), "https://x.example");
}

#[test]
fn diff_records_fetch_failure_per_location() {
    let cfg = fixture();
    let runner = MockRunner::new();
    runner.ok(ALL_DUMP); // diff_one: all_dump — already up (no activate/teardown)
    runner.fail(28, "curl: (28) timeout"); // curl fails
    let b = backend(runner, &cfg, false);
    let results = b.diff(Some("home"), "https://x.example", 5).unwrap();
    assert!(!results[0].ok);
    assert!(results[0].error.as_deref().unwrap().contains("timeout"));
}

#[test]
fn verify_healthy_when_a_tunnel_is_legitimately_up() {
    let cfg = fixture();
    cfg.write("home.conf", CONF_DNS);
    let runner = MockRunner::new();
    runner.ok(ALL_DUMP); // verify: all_dump — home live on utun7
    runner.ok(ROUTE_HOME); // route (irrelevant; tunnel owns DNS)
    runner.ok(ALL_DUMP); // current(): home is up → active non-empty
    let b = backend(runner, &cfg, false);
    // utun7 matches home's config, and a tunnel is up, so DNS is owned.
    let health = b.verify().unwrap();
    assert!(health.healthy, "issues: {:?}", health.issues);
}

#[test]
fn up_reconciles_a_crashed_tunnel_before_activating() {
    let cfg = fixture(); // home.conf = CONF (no DNS)
                         // A different tunnel crashed mid-up and left a stale journal.
    let mut stale = dns_journal("ghost", Phase::UpPending);
    stale.interface = None;
    stale.tunnel_dns = Vec::new(); // no DNS work during its recovery
    stale.dns_snapshot = TextMap::new();
    cfg.record(&stale);

    let runner = MockRunner::new();
    runner.ok(""); // reconcile: all_dump — nothing live (ghost gone)
    runner.ok(""); // up: all_dump (detect home down)
    runner.ok(""); // wg-quick up home
    runner.ok(ALL_DUMP); // post-up dump
    let b = backend(runner, &cfg, false);

    let (changed, _) = b.up("home").unwrap();
    assert!(changed);
    // The stale journal was reconciled away.
    assert!(cfg.journal("ghost").is_none());
    assert!(cfg.journal("home").is_some());
}

// ---- DNS ----

fn on<T>(mock: &MockRunner, op: impl Fn(&mut Session) -> Option<T>) -> T {
    drive(&Cfg::empty().files, mock, op)
}

fn quiet() -> GuardOutcome {
    GuardOutcome { cleared: Vec::new(), warning: None }
}

const LEGEND: &str = "An asterisk (*) denotes that a network service is disabled.";

fn resolvers() -> Vec<String> {
    vec!["10.2.0.1".to_string(), "2a07:b944::2:1".to_string()]
}

#[test]
fn stale_services_matches_only_pinned_services() {
    let mock = MockRunner::new();
    mock.ok(&format!(
        "{LEGEND}\nWi-Fi\n*Thunderbolt Bridge\niPhone USB\n"
    ));
    mock.ok("10.2.0.1\n2a07:b944::2:1"); // Wi-Fi: pinned
    mock.ok("There aren't any DNS Servers set on Thunderbolt Bridge."); // clean
    mock.ok("1.1.1.1"); // custom, unrelated DNS: untouched
    let stale = on(&mock, |s| dns::stale_services(s, &resolvers())).unwrap();
    assert_eq!(stale, vec!["Wi-Fi".to_string()]);
}

#[test]
fn stale_services_none_without_networksetup() {
    let mock = MockRunner::new();
    mock.spawn_err();
    assert_eq!(on(&mock, |s| dns::stale_services(s, &resolvers())), None);
    mock.fail(1, "unknown command");
    assert_eq!(on(&mock, |s| dns::stale_services(s, &resolvers())), None);
}

#[test]
fn guard_clears_stale_and_verifies_clean() {
    let mock = MockRunner::new();
    // Sweep 1: Wi-Fi pinned -> cleared.
    mock.ok(&format!("{LEGEND}\nWi-Fi\n"));
    mock.ok("10.2.0.1");
    mock.ok(""); // setdnsservers Empty
                 // Sweeps 2 and 3: clean twice -> verified, stop early.
    mock.ok(&format!("{LEGEND}\nWi-Fi\n"));
    mock.ok("There aren't any DNS Servers set on Wi-Fi.");
    mock.ok(&format!("{LEGEND}\nWi-Fi\n"));
    mock.ok("There aren't any DNS Servers set on Wi-Fi.");
    let outcome = on(&mock, |s| dns::guard(s, &resolvers(), &vec![0, 0, 0, 0]));
    assert_eq!(outcome.cleared, vec!["Wi-Fi".to_string()]);
    assert!(outcome.warning.is_none());
    // Early exit: the 4th sweep never ran.
    assert_eq!(mock.calls().len(), 7);
    assert_eq!(outcome.note().unwrap(), "cleared stale VPN DNS from Wi-Fi");
}

#[test]
fn guard_reclears_when_daemon_restamps_between_sweeps() {
    let mock = MockRunner::new();
    // Sweep 1: clean (daemon has not restored yet).
    mock.ok(&format!("{LEGEND}\nWi-Fi\n"));
    mock.ok("There aren't any DNS Servers set on Wi-Fi.");
    // Sweep 2: daemon restored the poisoned snapshot -> clear it.
    mock.ok(&format!("{LEGEND}\nWi-Fi\n"));
    mock.ok("10.2.0.1");
    mock.ok("");
    // Sweeps 3 and 4: clean twice.
    mock.ok(&format!("{LEGEND}\nWi-Fi\n"));
    mock.ok("There aren't any DNS Servers set on Wi-Fi.");
    mock.ok(&format!("{LEGEND}\nWi-Fi\n"));
    mock.ok("There aren't any DNS Servers set on Wi-Fi.");
    let outcome = on(&mock, |s| dns::guard(s, &resolvers(), &vec![0, 0, 0, 0]));
    assert_eq!(outcome.cleared, vec!["Wi-Fi".to_string()]);
    assert!(outcome.warning.is_none());
}

#[test]
fn guard_warns_when_still_dirty_after_final_sweep() {
    let mock = MockRunner::new();
    for _ in 0..2 {
        mock.ok(&format!("{LEGEND}\nWi-Fi\n"));
        mock.ok("10.2.0.1");
        mock.ok(""); // reset succeeds but poison returns
    }
    let outcome = on(&mock, |s| dns::guard(s, &resolvers(), &vec![0, 0]));
    assert_eq!(outcome.cleared, vec!["Wi-Fi".to_string()]);
    assert!(outcome.warning.unwrap().contains("kept reappearing"));
}

#[test]
fn guard_warns_when_reset_fails() {
    let mock = MockRunner::new();
    mock.ok(&format!("{LEGEND}\nWi-Fi\n"));
    mock.ok("10.2.0.1");
    mock.fail(1, "not an admin user");
    let outcome = on(&mock, |s| dns::guard(s, &resolvers(), &vec![0]));
    assert!(outcome.cleared.is_empty());
    let note = outcome.note().unwrap();
    assert!(note.contains("could not reset DNS on 'Wi-Fi'"));
}

#[test]
fn capture_sanitizes_poison_and_keeps_custom_dns() {
    let mock = MockRunner::new();
    mock.ok(&format!("{LEGEND}\nWi-Fi\nEthernet\nStale\n"));
    mock.ok("9.9.9.9\n149.112.112.112"); // Wi-Fi: real custom DNS, kept
    mock.ok("There aren't any DNS Servers set on Ethernet."); // DHCP
    mock.ok("10.2.0.1\n9.9.9.9"); // Stale: poison stripped, custom kept
    let snap = on(&mock, |s| dns::capture(s, &resolvers())).unwrap();
    assert_eq!(*snap.get("Wi-Fi").unwrap(), vec!["9.9.9.9", "149.112.112.112"]);
    assert!(snap.get("Ethernet").unwrap().is_empty());
    assert_eq!(*snap.get("Stale").unwrap(), vec!["9.9.9.9"], "tunnel DNS filtered out");
}

#[test]
fn capture_none_without_networksetup() {
    let mock = MockRunner::new();
    mock.spawn_err();
    assert!(on(&mock, |s| dns::capture(s, &resolvers())).is_none());
}

#[test]
fn restore_reapplies_snapshot_and_verifies_clean() {
    let mut snapshot = snapshot("Wi-Fi", &["9.9.9.9"]);
    snapshot.insert("Ethernet".to_string(), Vec::new());
    let mock = MockRunner::new();
    mock.ok(""); // set Wi-Fi 9.9.9.9
    mock.ok(""); // set Ethernet Empty
                 // guard() safety net: one clean sweep pair.
    mock.ok(&format!("{LEGEND}\nWi-Fi\nEthernet\n"));
    mock.ok("9.9.9.9");
    mock.ok("There aren't any DNS Servers set on Ethernet.");
    mock.ok(&format!("{LEGEND}\nWi-Fi\nEthernet\n"));
    mock.ok("9.9.9.9");
    mock.ok("There aren't any DNS Servers set on Ethernet.");
    let outcome = on(&mock, |s| dns::restore(s, &snapshot, &resolvers(), &vec![0, 0, 0]));
    assert!(outcome.warning.is_none());
    assert_eq!(
        outcome.cleared,
        vec!["Ethernet".to_string(), "Wi-Fi".to_string()]
    );
    // Wi-Fi was set to its custom value, not Empty.
    let set_wifi = mock
        .calls()
        .into_iter()
        .find(|(_, a)| {
            a.first().map(String::as_str) == Some("-setdnsservers") && a[1] == "Wi-Fi"
        })
        .unwrap();
    assert_eq!(set_wifi.1, vec!["-setdnsservers", "Wi-Fi", "9.9.9.9"]);
}

#[test]
fn restore_warns_when_reapply_fails() {
    let snapshot = snapshot("Wi-Fi", &["9.9.9.9"]);
    let mock = MockRunner::new();
    mock.fail(1, "not admin"); // set Wi-Fi fails
                               // guard net: clean immediately (nothing poisoned to clear).
    mock.ok(&format!("{LEGEND}\nWi-Fi\n"));
    mock.ok("There aren't any DNS Servers set on Wi-Fi.");
    mock.ok(&format!("{LEGEND}\nWi-Fi\n"));
    mock.ok("There aren't any DNS Servers set on Wi-Fi.");
    let outcome = on(&mock, |s| dns::restore(s, &snapshot, &resolvers(), &vec![0, 0, 0]));
    assert!(outcome
        .warning
        .unwrap()
        .contains("could not restore DNS on 'Wi-Fi'"));
}

#[test]
fn guard_noop_without_dns_or_networksetup() {
    let mock = MockRunner::new();
    assert_eq!(on(&mock, |s| dns::guard(s, &cmd(&[]), &vec![0])), quiet());
    assert!(mock.calls().is_empty());
    mock.spawn_err();
    let outcome = on(&mock, |s| dns::guard(s, &resolvers(), &vec![0]));
    assert_eq!(outcome, quiet());
    assert!(outcome.note().is_none());
}

// ---- Config files ----

#[test]
fn name_validation_rules() {
    assert!(config::is_valid_name("home"));
    assert!(config::is_valid_name("proton-nl-1"));
    assert!(config::is_valid_name("wg_0=+.-"));
    assert!(!config::is_valid_name(""));
    assert!(!config::is_valid_name("has space"));
    assert!(!config::is_valid_name("bad/slash"));
    assert!(!config::is_valid_name("a".repeat(MAX_NAME_LEN + 1).as_str()));
    assert!(config::is_valid_name("a".repeat(MAX_NAME_LEN).as_str()));
}

#[test]
fn discover_missing_dir_is_empty() {
    let cfg = Cfg::empty();
    let missing = cfg.at("does-not-exist");
    assert_eq!(cfg.discover(&missing).unwrap(), Vec::new());
}

#[test]
fn discover_filters_and_sorts() {
    let cfg = Cfg::empty();
    cfg.write("beta.conf", "");
    cfg.write("alpha.conf", "");
    cfg.write("notes.txt", ""); // wrong extension
    cfg.write("bad name.conf", ""); // invalid stem
    let found = cfg.discover(cfg.path()).unwrap();
    let names: Vec<_> = found.iter().map(|t| t.name.as_str()).collect();
    assert_eq!(names, vec!["alpha", "beta"]);
    assert_eq!(found[0].path, cfg.at("alpha.conf"));
}

#[test]
fn tunnel_from_path_rejects_wrong_extension() {
    assert!(config::tunnel_from_path("/x/notes.txt").is_none());
}

#[test]
fn discover_errors_on_unreadable_dir() {
    // A path whose parent is a file cannot be read as a directory.
    let cfg = Cfg::empty();
    cfg.write("iamafile", "");
    let not_a_dir = cfg.at("iamafile/configs");
    let err = cfg.discover(&not_a_dir).unwrap_err();
    assert_eq!(err.exit_code(), 1);
}

#[test]
fn resolve_found() {
    let cfg = Cfg::empty();
    cfg.write("home.conf", "");
    let t = cfg.resolve("home").unwrap();
    assert_eq!(t.name, "home");
    assert_eq!(t.path, cfg.at("home.conf"));
}

#[test]
fn resolve_invalid_name() {
    let cfg = Cfg::empty();
    let err = cfg.resolve("bad name").unwrap_err();
    assert_eq!(err.exit_code(), 4);
}

#[test]
fn resolve_not_found() {
    let cfg = Cfg::empty();
    let err = cfg.resolve("ghost").unwrap_err();
    assert_eq!(err.exit_code(), 3);
}

fn write_conf(cfg: &Cfg, name: &str, body: &str) -> String {
    let file = format!("{name}.conf");
    cfg.write(&file, body);
    cfg.at(&file)
}

#[test]
fn peer_identity_parses_key_and_allowed_ips() {
    let cfg = Cfg::empty();
    let path = write_conf(&cfg,
        "t",
        "[Interface]\nPrivateKey = PRIV=\nAddress = 10.0.0.2/32\n\n\
         # US-MA#93\n[Peer]\nPublicKey = PEER=\nAllowedIPs = 0.0.0.0/0, ::/0\n\
         Endpoint = 1.2.3.4:51820\n",
    );
    let id = cfg.identity(&path).unwrap();
    assert_eq!(id.public_key, "PEER=");
    assert_eq!(id.allowed_ips, vec!["0.0.0.0/0", "::/0"]);
}

#[test]
fn peer_identity_is_case_insensitive_and_strips_comments() {
    let cfg = Cfg::empty();
    let path = write_conf(&cfg,
        "t",
        "[peer] # inline comment\npublickey = KEY # trailing\nallowedips = 10.0.0.0/8\n",
    );
    let id = cfg.identity(&path).unwrap();
    assert_eq!(id.public_key, "KEY");
    assert_eq!(id.allowed_ips, vec!["10.0.0.0/8"]);
}

#[test]
fn peer_identity_accumulates_repeated_allowed_ips() {
    let cfg = Cfg::empty();
    let path = write_conf(&cfg,
        "t",
        "[Peer]\nPublicKey = K\nAllowedIPs = 10.0.0.0/8\nAllowedIPs = 172.16.0.0/12, 192.168.0.0/16\n",
    );
    let id = cfg.identity(&path).unwrap();
    assert_eq!(
        id.allowed_ips,
        vec!["10.0.0.0/8", "172.16.0.0/12", "192.168.0.0/16"]
    );
}

#[test]
fn peer_identity_uses_only_first_peer_section() {
    let cfg = Cfg::empty();
    let path = write_conf(&cfg,
        "t",
        "[Peer]\nPublicKey = FIRST\nAllowedIPs = 10.0.0.0/8\n\n\
         [Peer]\nPublicKey = SECOND\nAllowedIPs = 0.0.0.0/0\n",
    );
    let id = cfg.identity(&path).unwrap();
    assert_eq!(id.public_key, "FIRST");
    assert_eq!(id.allowed_ips, vec!["10.0.0.0/8"]);
}

#[test]
fn peer_identity_allows_missing_allowed_ips() {
    let cfg = Cfg::empty();
    let path = write_conf(&cfg, "t", "[Peer]\nPublicKey = K\n");
    let id = cfg.identity(&path).unwrap();
    assert!(id.allowed_ips.is_empty());
}

#[test]
fn peer_identity_errors_without_peer_public_key() {
    let cfg = Cfg::empty();
    let path = write_conf(&cfg,
        "t",
        "[Interface]\nPrivateKey = P\nnot-a-kv-line\n",
    );
    let err = cfg.identity(&path).unwrap_err();
    assert_eq!(err.exit_code(), 1);
    assert!(err.to_string().contains("[Peer] PublicKey"));
}

#[test]
fn peer_identity_skips_non_kv_lines_inside_peer() {
    let cfg = Cfg::empty();
    let path = write_conf(&cfg,
        "t",
        "[Peer]\nnoise without equals\nPublicKey = K\n",
    );
    assert_eq!(cfg.identity(&path).unwrap().public_key, "K");
}

#[test]
fn peer_identity_errors_on_unreadable_file() {
    let cfg = Cfg::empty();
    let err = cfg.identity(&cfg.at("missing.conf")).unwrap_err();
    assert_eq!(err.exit_code(), 1);
    assert!(err.to_string().contains("could not be read"));
}

#[test]
fn conf_summary_full_config() {
    let cfg = Cfg::empty();
    let path = write_conf(&cfg,
        "t",
        "[Interface]\nPrivateKey = PRIV=\nAddress = 10.0.0.2/32\nDNS = 10.2.0.1\n\n\
         [Peer]\nPublicKey = PEER=\nAllowedIPs = 0.0.0.0/0, ::/0\nEndpoint = 1.2.3.4:51820\n",
    );
    let s = cfg.summary(&path).unwrap();
    assert!(s.has_private_key);
    assert!(s.has_dns);
    assert_eq!(s.peer_public_key.as_deref(), Some("PEER="));
    assert_eq!(s.allowed_ips, vec!["0.0.0.0/0", "::/0"]);
    assert_eq!(s.endpoint.as_deref(), Some("1.2.3.4:51820"));
}

#[test]
fn conf_summary_minimal_and_second_peer_ignored() {
    let cfg = Cfg::empty();
    let path = write_conf(&cfg,
        "t",
        "[Peer]\nPublicKey = FIRST\n\n[Peer]\nPublicKey = SECOND\nEndpoint = 9.9.9.9:1\n",
    );
    let s = cfg.summary(&path).unwrap();
    assert!(!s.has_private_key);
    assert!(!s.has_dns);
    assert_eq!(s.peer_public_key.as_deref(), Some("FIRST"));
    assert!(s.allowed_ips.is_empty());
    assert_eq!(s.endpoint, None, "second peer's endpoint must not leak in");
}

#[test]
fn conf_summary_empty_private_key_does_not_count() {
    let cfg = Cfg::empty();
    let path = write_conf(&cfg, "t", "[Interface]\nPrivateKey =\n");
    assert!(!cfg.summary(&path).unwrap().has_private_key);
}

#[test]
fn conf_summary_unreadable_file_errors() {
    let cfg = Cfg::empty();
    let err = cfg.summary(&cfg.at("missing.conf")).unwrap_err();
    assert_eq!(err.exit_code(), 1);
}

#[test]
fn conf_summary_skips_non_kv_lines() {
    let cfg = Cfg::empty();
    let path = write_conf(&cfg, "t", "[Peer]\nnoise line\nPublicKey = K\n");
    assert_eq!(
        cfg.summary(&path).unwrap().peer_public_key.as_deref(),
        Some("K")
    );
}

// ---- Settings file ----

fn no_settings() -> FileConfig {
    FileConfig { sudo: None, wg: None, wg_quick: None, curl: None }
}

#[test]
fn load_missing_file_is_default() {
    let cfg = Cfg::empty();
    assert_eq!(cfg.load().unwrap(), no_settings());
}

#[test]
fn load_parses_existing_file() {
    let cfg = Cfg::empty();
    cfg.write("config.toml", "sudo = true\n");
    assert_eq!(cfg.load().unwrap().sudo, Some(true));
}

#[test]
fn load_reports_parse_error() {
    let cfg = Cfg::empty();
    cfg.write("config.toml", "nope = 1\n");
    let err = cfg.load().unwrap_err();
    assert_eq!(err.exit_code(), 1);
    assert!(err.to_string().contains("unknown key 'nope'"));
}

#[test]
fn load_reports_unreadable_file() {
    // A directory named config.toml exists but cannot be read as a file.
    let cfg = Cfg::empty();
    cfg.make_dir(&cfg.at("config.toml"));
    let err = cfg.load().unwrap_err();
    assert_eq!(err.exit_code(), 1);
    assert!(err.to_string().contains("could not be read"));
}

// ---- Lock ----

#[test]
fn lock_is_exclusive_until_dropped() {
    let cfg = Cfg::empty();
    cfg.run(|s| lock::acquire(s, "/cfg")).unwrap();
    assert!(
        !cfg.run(|s| lock::try_acquire(s, "/cfg")).unwrap(),
        "second acquisition must be refused while held"
    );
    cfg.files.borrow_mut().locked.clear();
    assert!(cfg.run(|s| lock::try_acquire(s, "/cfg")).unwrap());
    assert_eq!(cfg.files.borrow().locked, ["/cfg/.vpn.lock"]);
}

#[test]
fn trying_the_lock_can_fail() {
    let cfg = Cfg::empty();
    cfg.make_dir("/cfg/.vpn.lock");
    let refused = cfg.run(|s| lock::try_acquire(s, "/cfg"));
    assert!(matches!(refused, Err(Error::Write { ref path, .. }) if path == "/cfg/.vpn.lock"));
    cfg.write("file", "");
    let refused = cfg.run(|s| lock::try_acquire(s, "/cfg/file/sub"));
    assert!(matches!(refused, Err(Error::ConfigDir(ref dir, _)) if dir == "/cfg/file/sub"));
}

#[test]
fn acquire_creates_missing_config_dir() {
    let cfg = Cfg::empty();
    let nested = cfg.at("not/yet");
    cfg.run(|s| lock::acquire(s, &nested)).unwrap();
    let path = format!("{nested}/{LOCK_FILE}");
    assert!(cfg.files.borrow().files.contains_key(&path));
    assert_eq!(cfg.files.borrow().locked, vec![path]);
}

#[test]
fn lock_file_is_not_discovered_as_a_tunnel() {
    let cfg = Cfg::empty();
    cfg.run(|s| lock::acquire(s, cfg.path())).unwrap();
    assert!(cfg.discover(cfg.path()).unwrap().is_empty());
}

// ---- Journal files ----

fn journal(phase: Phase) -> Journal {
    Journal {
        tunnel: "proton".to_string(),
        phase,
        interface: Some("utun4".to_string()),
        lease_deadline: None,
        dns_snapshot: snapshot("Wi-Fi", &["10.19.16.1"]),
        tunnel_dns: vec!["10.2.0.1".to_string()],
    }
}

#[test]
fn write_read_roundtrip_and_remove() {
    let cfg = Cfg::empty();
    let j = journal(Phase::Active);
    cfg.record(&j);
    assert_eq!(cfg.journal("proton").as_ref(), Some(&j));
    assert_eq!(cfg.journals(), vec![j]);
    cfg.forget("proton").unwrap();
    assert!(cfg.journal("proton").is_none());
    // Removing an absent journal is success.
    cfg.forget("proton").unwrap();
}

#[test]
fn write_sets_owner_only_permissions() {
    let cfg = Cfg::empty();
    cfg.record(&journal(Phase::Active));
    let file_mode = cfg.mode(&state::path(cfg.path(), "proton"));
    assert_eq!(file_mode, 0o600);
    let dir_mode = cfg.mode(&state::dir(cfg.path()));
    assert_eq!(dir_mode, 0o700);
}

#[test]
fn corrupt_journal_reads_as_none_and_is_skipped() {
    let cfg = Cfg::empty();
    cfg.make_dir(&state::dir(cfg.path()));
    cfg.write_at(&state::path(cfg.path(), "broken"), "{ not json");
    assert!(cfg.journal("broken").is_none());
    assert!(cfg.journals().is_empty());
}

#[test]
fn read_all_ignores_non_json_and_sorts() {
    let cfg = Cfg::empty();
    cfg.record(&Journal {
            tunnel: "zeta".to_string(),
            ..journal(Phase::Active)
        });
    cfg.record(&Journal {
            tunnel: "alpha".to_string(),
            ..journal(Phase::Active)
        });
    cfg.write("state/note.txt", "ignore me");
    let names: Vec<String> = cfg.journals().into_iter().map(|j| j.tunnel).collect();
    assert_eq!(names, vec!["alpha", "zeta"]);
}


// ---- Commands ----

/// A command line with no flags.
fn cli(command: Command) -> Cli {
    Cli {
        json: false,
        config_dir: None,
        home: None,
        sudo: false,
        wg: None,
        wg_quick: None,
        curl: None,
        command,
    }
}

const CLI_CONF: &str = "[Peer]\nPublicKey = PEERKEY\nAllowedIPs = 0.0.0.0/0, ::/0\n";
const CLI_ALL_DUMP: &str = "utun7\tIFPRIV\tIFPUB\t51820\toff\n\
    utun7\tPEERKEY\t(none)\t203.0.113.1:51820\t0.0.0.0/0,::/0\t1700000000\t1\t2\t25\n";
const CLI_CURL_OK: &str = "0.004,0.012,0.140,0.290,0.291,104.16.132.229,200";

fn backend_with(runner: MockRunner) -> (Host, Cfg) {
    let cfg = Cfg::empty();
    cfg.write("home.conf", CLI_CONF);
    let b = Host {
        backend: Backend::new(cfg.path().to_string(), false),
        runner,
        files: cfg.files.clone(),
    };
    (b, cfg)
}

#[test]
fn dispatch_exec() {
    let runner = MockRunner::new();
    runner.ok(CLI_ALL_DUMP); // already up
    runner.fail(3, ""); // child exits 3
    let (b, _cfg) = backend_with(runner);
    let report = b.dispatch(&Command::Exec {
            name: "home".into(),
            command: vec!["true".into()],
        }).unwrap();
    match report {
        Report::Exec {
            name,
            activated,
            exit_code,
            warning,
        } => {
            assert_eq!(name, "home");
            assert!(!activated);
            assert_eq!(exit_code, 3);
            assert!(warning.is_none());
        }
        other => panic!("unexpected: {other:?}"),
    }
}

#[test]
fn settings_apply_built_in_defaults() {
    let cli = cli(Command::Current);
    let s = cli.settings(&no_settings());
    assert_eq!(s.wg, "wg");
    assert_eq!(s.wg_quick, "wg-quick");
    assert_eq!(s.curl, "curl");
    assert!(!s.sudo);
}

#[test]
fn settings_use_file_when_flags_absent() {
    let cli = cli(Command::Current);
    let file = FileConfig {
        sudo: Some(true),
        wg: Some("/abs/wg".into()),
        wg_quick: Some("/abs/wg-quick".into()),
        curl: Some("/abs/curl".into()),
    };
    let s = cli.settings(&file);
    assert!(s.sudo);
    assert_eq!(s.wg, "/abs/wg");
    assert_eq!(s.wg_quick, "/abs/wg-quick");
    assert_eq!(s.curl, "/abs/curl");
}

#[test]
fn flags_override_file() {
    let cli = Cli { wg: Some("/flag/wg".into()), ..cli(Command::Current) };
    let file = FileConfig {
        sudo: Some(false),
        wg: Some("/file/wg".into()),
        wg_quick: Some("/file/wg-quick".into()),
        curl: None,
    };
    let s = cli.settings(&file);
    // Flag wins for wg; file supplies wg_quick; curl falls to default.
    assert_eq!(s.wg, "/flag/wg");
    assert_eq!(s.wg_quick, "/file/wg-quick");
    assert_eq!(s.curl, "curl");
    assert!(!s.sudo);
}

#[test]
fn sudo_flag_enables_even_if_file_disables() {
    let cli = Cli { sudo: true, ..cli(Command::Current) };
    let file = FileConfig {
        sudo: Some(false),
        ..no_settings()
    };
    assert!(cli.settings(&file).sudo);
}

#[test]
fn config_dir_for_home_both_branches() {
    assert_eq!(
        config_dir_for_home(Some("/home/me")),
        "/home/me/.config/vpn",
    );
    assert_eq!(config_dir_for_home(None), ".config/vpn");
}

#[test]
fn dispatch_list() {
    let runner = MockRunner::new();
    runner.ok(CLI_ALL_DUMP);
    let (b, _cfg) = backend_with(runner);
    let report = b.dispatch(&Command::List).unwrap();
    assert!(matches!(report, Report::List { tunnels, .. } if tunnels.len() == 1));
}

#[test]
fn dispatch_up() {
    let runner = MockRunner::new();
    runner.ok(""); // all_dump: down
    runner.ok(""); // wg-quick up
    runner.ok(CLI_ALL_DUMP); // status dump
    let (b, _cfg) = backend_with(runner);
    let report = b.dispatch(&Command::Up {
            name: "home".into(),
            lease: None,
        }).unwrap();
    assert!(matches!(report, Report::Up { changed: true, .. }));
}

#[test]
fn dispatch_down() {
    let runner = MockRunner::new();
    runner.ok(""); // all_dump: already down
    let (b, _cfg) = backend_with(runner);
    let report = b.dispatch(&Command::Down {
            name: "home".into(),
        }).unwrap();
    assert!(matches!(report, Report::Down { changed: false, .. }));
}

#[test]
fn dispatch_status_one_and_all() {
    let runner = MockRunner::new();
    runner.ok(CLI_ALL_DUMP);
    let (b, _cfg) = backend_with(runner);
    let one = b.dispatch(&Command::Status {
            name: Some("home".into()),
        }).unwrap();
    assert!(matches!(one, Report::Status { tunnels } if tunnels.len() == 1));

    let runner = MockRunner::new();
    runner.ok(CLI_ALL_DUMP);
    let (b, _cfg) = backend_with(runner);
    let all = b.dispatch(&Command::Status { name: None }).unwrap();
    assert!(matches!(all, Report::Status { tunnels } if tunnels.len() == 1));
}

#[test]
fn dispatch_current() {
    let runner = MockRunner::new();
    runner.ok(CLI_ALL_DUMP);
    let (b, _cfg) = backend_with(runner);
    let report = b.dispatch(&Command::Current).unwrap();
    assert!(matches!(report, Report::Current { active } if active == vec!["home".to_string()]));
}

#[test]
fn dispatch_probe() {
    let runner = MockRunner::new();
    runner.ok(CLI_ALL_DUMP); // already up
    runner.ok(CLI_ALL_DUMP); // info dump
    runner.ok(CLI_CURL_OK); // curl
    let (b, _cfg) = backend_with(runner);
    let report = b.dispatch(&Command::Probe {
            name: Some("home".into()),
            url: "https://example.org".into(),
            max_time: 10,
            count: 1,
        }).unwrap();
    match report {
        Report::Probe { results } => {
            assert_eq!(results.len(), 1);
            assert!(results[0].ok);
            assert_eq!(results[0].samples, 1);
            assert_eq!(results[0].failures, 0);
        }
        other => panic!("unexpected: {other:?}"),
    }
}

#[test]
fn dispatch_propagates_errors() {
    let (b, _cfg) = backend_with(MockRunner::new());
    let err = b.dispatch(&Command::Up {
            name: "ghost".into(),
            lease: None,
        }).unwrap_err();
    assert_eq!(err.exit_code(), 3);
}

// ---- Executing a command line ----

fn run_on<R: CommandRunner>(cfg: &Cfg, runner: &R, cli: &Cli) -> Execution {
    drive(&cfg.files, runner, |s| execute(s, cli))
}

const RUN_CONF: &str = "[Peer]\nPublicKey = PEERKEY\nAllowedIPs = 0.0.0.0/0\n";

#[test]
fn execute_success_returns_report_and_zero() {
    let cfg = Cfg::empty();
    cfg.write("home.conf", RUN_CONF);
    let cli = Cli {
        json: true,
        config_dir: Some(cfg.path().into()),
        ..cli(Command::Current)
    };

    let runner = MockRunner::new();
    runner.ok(""); // wg show all dump: nothing live
    let ex = run_on(&cfg, &runner, &cli);
    assert_eq!(ex.code, 0);
    assert!(!ex.is_error);
    assert!(ex.message.contains("\"command\": \"current\""));
}

#[test]
fn execute_error_returns_message_and_code() {
    let cfg = Cfg::empty();
    let cli = Cli {
        json: false,
        config_dir: Some(cfg.path().into()),
        ..cli(Command::Up { name: "ghost".into(), lease: None })
    };

    let ex = run_on(&cfg, &MockRunner::new(), &cli);
    assert_eq!(ex.code, 3);
    assert!(ex.is_error);
    assert!(ex.message.contains("ghost"));
}

#[test]
fn execute_reads_config_file_and_reports_parse_errors() {
    let cfg = Cfg::empty();
    cfg.write("config.toml", "bogus = 1\n");
    let cli = Cli {
        json: false,
        config_dir: Some(cfg.path().into()),
        ..cli(Command::Current)
    };

    let ex = run_on(&cfg, &MockRunner::new(), &cli);
    assert_eq!(ex.code, 1);
    assert!(ex.is_error);
    assert!(ex.message.contains("unknown key 'bogus'"));
}

#[test]
fn execute_exec_passes_child_code_and_stays_silent() {
    let cfg = Cfg::empty();
    cfg.write("home.conf", RUN_CONF);
    let cli = Cli {
        json: false,
        config_dir: Some(cfg.path().into()),
        ..cli(Command::Exec {
            name: "home".into(),
            command: vec!["some-command".into()],
        })
    };

    let runner = MockRunner::new();
    runner.ok(""); // all_dump: down
    runner.ok(""); // wg-quick up
    runner.fail(9, ""); // child exits 9
    runner.ok(""); // restore
    let ex = run_on(&cfg, &runner, &cli);
    assert_eq!(ex.code, 9);
    assert!(!ex.is_error);
    assert!(ex.message.is_empty(), "exec emits nothing of its own");
}

#[test]
fn execute_exec_restore_warning_goes_to_stderr() {
    let cfg = Cfg::empty();
    cfg.write("home.conf", RUN_CONF);
    let cli = Cli {
        json: false,
        config_dir: Some(cfg.path().into()),
        ..cli(Command::Exec {
            name: "home".into(),
            command: vec!["some-command".into()],
        })
    };

    let runner = MockRunner::new();
    runner.ok(""); // down
    runner.ok(""); // up
    runner.ok(""); // child ok
    runner.fail(1, "boom"); // restore fails
    let ex = run_on(&cfg, &runner, &cli);
    assert_eq!(ex.code, 0, "child's code wins even with a warning");
    assert!(ex.is_error, "warning goes to stderr");
    assert!(ex.message.contains("failed to restore"));
}

#[test]
fn execute_probe_failure_exits_7_on_stdout() {
    let cfg = Cfg::empty();
    cfg.write("home.conf", RUN_CONF);
    let cli = Cli {
        json: true,
        config_dir: Some(cfg.path().into()),
        ..cli(Command::Probe {
            name: Some("home".into()),
            url: URL.into(),
            max_time: 10,
            count: 1,
        })
    };

    let runner = MockRunner::new();
    runner.ok(""); // all_dump: down
    runner.ok(""); // wg-quick up
    runner.ok(""); // info dump
    runner.fail(7, "curl: (7) Failed to connect"); // curl fails
    runner.ok(""); // restore down
    let ex = run_on(&cfg, &runner, &cli);
    assert_eq!(ex.code, 7);
    assert!(!ex.is_error, "probe report goes to stdout, not stderr");
    assert!(ex.message.contains("\"command\": \"probe\""));
    assert!(ex.message.contains("Failed to connect"));
}

// ---- Rendering ----

fn json_text(report: &dyn Fn() -> Report) -> String {
    Cfg::empty().run(|s| render_report(s, report(), true))
}

fn json_of(report: &dyn Fn() -> Report) -> Value {
    serde_json::from_str(&json_text(report)).unwrap()
}

fn header(name: &str, value: &str) -> TextMap<String> {
    let mut map = TextMap::new();
    map.insert(name.to_string(), value.to_string());
    map
}

fn up_status() -> TunnelStatus {
    TunnelStatus {
        name: "home".into(),
        up: true,
        interface: Some("utun4".into()),
        peers: vec![],
    }
}

#[test]
fn json_report_is_tagged() {
    let report = || Report::Current {
        active: vec!["home".into()],
    };
    let v: Value = json_of(&report);
    assert_eq!(v["command"], "current");
    assert_eq!(v["active"][0], "home");
}

#[test]
fn json_error_shape() {
    let v: Value =
        serde_json::from_str(&render_error(&Error::TunnelNotFound("x".into()), true)).unwrap();
    assert_eq!(v["ok"], false);
    assert_eq!(v["code"], 3);
    assert!(v["error"].as_str().unwrap().contains('x'));
}

#[test]
fn human_error() {
    let text = render_error(&Error::InvalidName("bad".into()), false);
    assert!(text.starts_with("error:"));
    assert!(text.contains("bad"));
}

#[test]
fn human_list_populated_and_empty() {
    let populated = Report::List {
        config_dir: "/cfg".into(),
        tunnels: vec![
            ListEntry {
                name: "home".into(),
                up: true,
            },
            ListEntry {
                name: "work".into(),
                up: false,
            },
        ],
    };
    let text = human_report(&populated);
    assert!(text.contains("up  ") && text.contains("home"));
    assert!(text.contains("down") && text.contains("work"));

    let empty = Report::List {
        config_dir: "/cfg".into(),
        tunnels: vec![],
    };
    assert_eq!(human_report(&empty), "no tunnels found in /cfg");
}

#[test]
fn human_up_changed_and_unchanged() {
    let changed = Report::Up {
        name: "home".into(),
        changed: true,
        status: up_status(),
    };
    assert!(human_report(&changed).contains("brought up"));
    assert!(human_report(&changed).contains("up on utun4"));

    let unchanged = Report::Up {
        name: "home".into(),
        changed: false,
        status: up_status(),
    };
    assert!(human_report(&unchanged).contains("already up"));
}

#[test]
fn human_up_without_interface() {
    let mut status = up_status();
    status.interface = None;
    let report = Report::Up {
        name: "home".into(),
        changed: true,
        status,
    };
    assert!(human_report(&report).contains("up on ?"));
}

#[test]
fn human_down_changed_and_unchanged() {
    assert!(human_report(&Report::Down {
            name: "home".into(),
            changed: true,
            dns_cleared: Vec::new(),
            dns_warning: None,
        })
    .contains("brought down"));
    assert!(human_report(&Report::Down {
            name: "home".into(),
            changed: false,
            dns_cleared: Vec::new(),
            dns_warning: None,
        })
    .contains("already down"));
}

#[test]
fn human_down_reports_dns_repair() {
    let text = human_report(&Report::Down {
            name: "proton".into(),
            changed: true,
            dns_cleared: vec!["Wi-Fi".into(), "Thunderbolt Bridge".into()],
            dns_warning: Some("could not reset DNS on 'iPhone USB'".into()),
        });
    assert!(text.contains("cleared stale VPN DNS from Wi-Fi, Thunderbolt Bridge"));
    assert!(text.contains("warning: could not reset DNS on 'iPhone USB'"));
}

#[test]
fn json_down_omits_empty_dns_fields() {
    let clean = json_text(
        &|| Report::Down {
            name: "proton".into(),
            changed: true,
            dns_cleared: Vec::new(),
            dns_warning: None,
        },
    );
    assert!(!clean.contains("dns_cleared") && !clean.contains("dns_warning"));
    let repaired = json_text(
        &|| Report::Down {
            name: "proton".into(),
            changed: false,
            dns_cleared: vec!["Wi-Fi".into()],
            dns_warning: None,
        },
    );
    assert!(repaired.contains("\"dns_cleared\""));
}

#[test]
fn human_status_populated_and_empty() {
    let populated = Report::Status {
        tunnels: vec![up_status(), TunnelStatus::down("work")],
    };
    let text = human_report(&populated);
    assert!(text.contains("home: up on utun4"));
    assert!(text.contains("work: down"));

    let empty = Report::Status { tunnels: vec![] };
    assert_eq!(human_report(&empty), "no tunnels");
}

#[test]
fn human_current_populated_and_empty() {
    let populated = Report::Current {
        active: vec!["home".into(), "work".into()],
    };
    assert_eq!(human_report(&populated), "home\nwork");
    let empty = Report::Current { active: vec![] };
    assert_eq!(human_report(&empty), "none");
}

fn ok_probe(name: &str, total_tenths: i64) -> ProbeResult {
    ProbeResult {
        timings: Some(Timings {
            dns_tenths: 40,
            connect_tenths: 120,
            tls_tenths: 1400,
            ttfb_tenths: 2900,
            total_tenths,
        }),
        ok: true,
        http_code: Some(200),
        remote_ip: Some("104.16.132.229".into()),
        interface: Some("utun7".into()),
        ..ProbeResult::new(name, "https://1.1.1.1/cdn-cgi/trace", true)
    }
}

fn failed_probe(name: &str) -> ProbeResult {
    ProbeResult {
        error: Some("curl: (7) Failed to connect".into()),
        ..ProbeResult::new(name, "https://1.1.1.1/cdn-cgi/trace", true)
    }
}

#[test]
fn json_probe_report() {
    let report = || Report::Probe {
        results: vec![ok_probe("proton", 2910)],
    };
    let v: Value = json_of(&report);
    assert_eq!(v["command"], "probe");
    assert_eq!(v["results"][0]["name"], "proton");
    assert_eq!(v["results"][0]["ok"], true);
    assert_eq!(v["results"][0]["timings"]["total_ms"], 291.0);
    assert_eq!(v["results"][0]["http_code"], 200);
}

#[test]
fn human_probe_success_failure_and_warning() {
    let mut warned = ok_probe("slow", 5000);
    warned.warning = Some("failed to restore tunnel state: boom".into());
    let report = Report::Probe {
        results: vec![ok_probe("proton", 2910), warned, failed_probe("broken")],
    };
    let text = human_report(&report);
    assert!(text.contains("proton"));
    assert!(text.contains("291.0 ms"));
    assert!(text.contains("http 200"));
    assert!(text.contains("via 104.16.132.229"));
    assert!(text.contains("broken"));
    assert!(text.contains("FAILED: curl: (7)"));
    assert!(text.contains("[warning: failed to restore"));
}

#[test]
fn human_probe_shows_exit_evidence_over_remote_ip() {
    let mut r = ok_probe("proton-jp", 2910);
    r.exit = Some(TraceInfo {
        ip: "103.5.140.1".into(),
        loc: Some("JP".into()),
        colo: Some("NRT".into()),
    });
    let text = human_report(&Report::Probe { results: vec![r] });
    assert!(text.contains("exit 103.5.140.1 (JP/NRT)"));
    assert!(!text.contains("via 104.16"), "exit evidence replaces via");

    // Partial evidence renders gracefully.
    let mut r = ok_probe("x", 10);
    r.exit = Some(TraceInfo {
        ip: "1.2.3.4".into(),
        loc: None,
        colo: Some("EWR".into()),
    });
    assert!(human_report(&Report::Probe { results: vec![r] })
        .contains("exit 1.2.3.4 (EWR)"));
    let mut r = ok_probe("y", 10);
    r.exit = Some(TraceInfo {
        ip: "1.2.3.4".into(),
        loc: Some("US".into()),
        colo: None,
    });
    assert!(
        human_report(&Report::Probe { results: vec![r] }).contains("exit 1.2.3.4 (US)")
    );
    let mut r = ok_probe("z", 10);
    r.exit = Some(TraceInfo {
        ip: "1.2.3.4".into(),
        loc: None,
        colo: None,
    });
    let text = human_report(&Report::Probe { results: vec![r] });
    assert!(text.contains("exit 1.2.3.4"));
    assert!(!text.contains('('));
}

#[test]
fn human_probe_multisample_shows_median_and_spread() {
    let mut r = ok_probe("proton", 2910);
    r.samples = 5;
    r.failures = 1;
    r.stats = Some(Stats {
        min_total_tenths: 2500,
        median_total_tenths: 2910,
        max_total_tenths: 4000,
        median_ttfb_tenths: 2900,
    });
    let text = human_report(&Report::Probe { results: vec![r] });
    assert!(text.contains("median"));
    assert!(text.contains("min 250.0"));
    assert!(text.contains("max 400.0"));
    assert!(text.contains("n=5"));
    assert!(text.contains("(1/5 failed)"));
}

#[test]
fn human_probe_empty() {
    let report = Report::Probe { results: vec![] };
    assert_eq!(human_report(&report), "no tunnels");
}

#[test]
fn human_probe_failure_without_message() {
    let mut r = failed_probe("x");
    r.error = None;
    let report = Report::Probe { results: vec![r] };
    assert!(human_report(&report).contains("unknown error"));
}

#[test]
fn exec_report_renders_and_passes_code() {
    let report = || Report::Exec {
        name: "home".into(),
        activated: true,
        exit_code: 42,
        warning: None,
    };
    assert_eq!(report().exit_code(), 42);
    assert!(human_report(&report()).contains("exited 42"));
    let v: Value = json_of(&report);
    assert_eq!(v["command"], "exec");
    assert_eq!(v["exit_code"], 42);
}

#[test]
fn lint_report_renders_and_exit_codes() {
    let clean = || LintResult {
        name: "good".into(),
        ok: true,
        findings: vec![],
    };
    let warned = || LintResult {
        name: "meh".into(),
        ok: true,
        findings: vec![Finding {
            severity: Severity::Warning,
            message: "no Endpoint".into(),
        }],
    };
    let broken = || LintResult {
        name: "bad".into(),
        ok: false,
        findings: vec![Finding {
            severity: Severity::Error,
            message: "routing loop: X".into(),
        }],
    };

    let ok_report = || Report::Lint {
        results: vec![clean(), warned()],
    };
    assert_eq!(ok_report().exit_code(), 0, "warnings alone pass");
    let text = human_report(&ok_report());
    assert!(text.contains("ok    good"));
    assert!(text.contains("warn  meh"));
    assert!(text.contains("warning: no Endpoint"));

    let bad_report = || Report::Lint {
        results: vec![clean(), broken()],
    };
    assert_eq!(bad_report().exit_code(), 1);
    let text = human_report(&bad_report());
    assert!(text.contains("FAIL  bad"));
    assert!(text.contains("error: routing loop"));

    let v: Value = json_of(&bad_report);
    assert_eq!(v["command"], "lint");
    assert_eq!(v["results"][1]["ok"], false);
    assert_eq!(v["results"][1]["findings"][0]["severity"], "error");

    assert_eq!(
        human_report(&Report::Lint { results: vec![] }),
        "no tunnels"
    );
}

#[test]
fn add_and_split_reports_render() {
    let add = || Report::Add {
        name: "proton-jp".into(),
        path: "/cfg/proton-jp.conf".into(),
        lint: LintResult {
            name: "proton-jp".into(),
            ok: true,
            findings: vec![Finding {
                severity: Severity::Warning,
                message: "no Endpoint".into(),
            }],
        },
    };
    let text = human_report(&add());
    assert!(text.contains("added proton-jp (/cfg/proton-jp.conf)"));
    assert!(text.contains("note: no Endpoint"));
    let v: Value = json_of(&add);
    assert_eq!(v["command"], "add");
    assert_eq!(v["lint"]["ok"], true);

    let split = || Report::Split {
        source: "proton-jp".into(),
        name: "proton-jp-ts".into(),
        path: "/cfg/proton-jp-ts.conf".into(),
        entries: 39,
    };
    let text = human_report(&split());
    assert!(text.contains("proton-jp-ts: split tunnel of proton-jp"));
    assert!(text.contains("39 AllowedIPs entries"));
    let v: Value = json_of(&split);
    assert_eq!(v["command"], "split");
    assert_eq!(v["entries"], 39);

    assert_eq!(add().exit_code(), 0);
    assert_eq!(split().exit_code(), 0);
}

#[test]
fn doctor_report_renders_and_exit_codes() {
    let report = || Report::Doctor {
        checks: vec![
            Check {
                name: "wg".into(),
                ok: true,
                detail: "wireguard-tools v1".into(),
            },
            Check {
                name: "sudo".into(),
                ok: false,
                detail: "add a NOPASSWD rule".into(),
            },
        ],
    };
    assert_eq!(report().exit_code(), 1);
    let text = human_report(&report());
    assert!(text.contains("ok   wg"));
    assert!(text.contains("FAIL sudo"));
    assert!(text.contains("NOPASSWD"));
    let v: Value = json_of(&report);
    assert_eq!(v["command"], "doctor");
    assert_eq!(v["checks"][1]["ok"], false);

    let healthy = Report::Doctor {
        checks: vec![Check {
            name: "wg".into(),
            ok: true,
            detail: "x".into(),
        }],
    };
    assert_eq!(healthy.exit_code(), 0);
}

fn healthy() -> HealthReport {
    HealthReport {
        healthy: true,
        issues: vec![],
    }
}

#[test]
fn human_recover_clean_and_populated() {
    let clean = Report::Recover {
        recovered: vec![],
        health: healthy(),
    };
    assert!(human_report(&clean).contains("nothing to recover"));

    let populated = || Report::Recover {
        recovered: vec![Recovered {
            tunnel: "proton".into(),
            reason: "interrupted while bringing the tunnel up".into(),
            dns_cleared: vec!["Wi-Fi".into()],
            dns_warning: None,
        }],
        health: healthy(),
    };
    let text = human_report(&populated());
    assert!(text.contains("recovered proton"));
    assert!(text.contains("interrupted"));
    assert!(text.contains("restored DNS on Wi-Fi"));
    // JSON carries the structured list.
    let v: Value = json_of(&populated);
    assert_eq!(v["command"], "recover");
    assert_eq!(v["recovered"][0]["tunnel"], "proton");
}

#[test]
fn recover_exit_8_when_still_unhealthy() {
    let report = Report::Recover {
        recovered: vec![],
        health: HealthReport {
            healthy: false,
            issues: vec![HealthIssue {
                kind: "orphan",
                detail: "utun7 orphaned".into(),
            }],
        },
    };
    assert_eq!(report.exit_code(), 8);
    assert!(human_report(&report).contains("still inconsistent"));
}

#[test]
fn human_diff_reports_differences_and_json() {
    let mk = |name: &str, cache: &str| LocationResult {
        name: name.into(),
        ok: true,
        status: Some(200),
        headers: header("cf-cache-status", cache),
        exit_ip: None,
        error: None,
    };
    let report = || {
        let results = vec![mk("proton-us", "HIT"), mk("proton-br", "MISS")];
        let diffs = diff::diff_fields(&results);
        Report::Diff { url: "https://x.example".into(), results, diffs }
    };
    let text = human_report(&report());
    assert!(text.contains("1 field(s) differ"));
    assert!(text.contains("cf-cache-status"));
    assert!(text.contains("HIT") && text.contains("MISS"));
    assert_eq!(report().exit_code(), 0);
    let v: Value = json_of(&report);
    assert_eq!(v["command"], "diff");
    assert_eq!(v["diffs"][0]["field"], "cf-cache-status");
}

#[test]
fn diff_exit_7_on_any_failure() {
    let report = Report::Diff {
        url: "u".into(),
        results: vec![LocationResult {
            name: "x".into(),
            ok: false,
            status: None,
            headers: TextMap::new(),
            exit_ip: None,
            error: Some("boom".into()),
        }],
        diffs: vec![],
    };
    assert_eq!(report.exit_code(), 7);
}

#[test]
fn human_verify_healthy_and_unhealthy() {
    let ok = Report::Verify { health: healthy() };
    assert!(human_report(&ok).contains("consistent"));
    assert_eq!(ok.exit_code(), 0);

    let bad = Report::Verify {
        health: HealthReport {
            healthy: false,
            issues: vec![HealthIssue {
                kind: "dns",
                detail: "stale VPN DNS pinned on Wi-Fi".into(),
            }],
        },
    };
    assert_eq!(bad.exit_code(), 8);
    let text = human_report(&bad);
    assert!(text.contains("needs repair"));
    assert!(text.contains("[dns]"));
}

#[test]
fn report_exit_codes() {
    assert_eq!(Report::Current { active: vec![] }.exit_code(), 0);
    assert_eq!(
        Report::Probe {
            results: vec![ok_probe("a", 10)],
        }
        .exit_code(),
        0
    );
    assert_eq!(
        Report::Probe {
            results: vec![ok_probe("a", 10), failed_probe("b")],
        }
        .exit_code(),
        7
    );
    assert_eq!(Report::Probe { results: vec![] }.exit_code(), 0);
}

// ---- Whole lifecycles on a machine with state ----

const HOME_CONF: &str = "[Interface]\nPrivateKey = IFPRIV=\nAddress = 10.0.0.2/32\n\n\
    [Peer]\nPublicKey = HOMEPEER=\nAllowedIPs = 0.0.0.0/0, ::/0\nEndpoint = 203.0.113.1:51820\n";

const WORK_CONF: &str = "[Peer]\nPublicKey = WORKPEER=\nAllowedIPs = 10.0.0.0/8\n";

/// `wg-quick`, `wg` and `curl`: `wg-quick up` records the tunnel's interface,
/// peer key and allowed-IPs, `wg-quick down` forgets them, and `wg show all
/// dump` renders what is recorded.
struct Machine {
    files: Rc<RefCell<Files>>,
    live: RefCell<BTreeMap<String, (String, String)>>,
    installed: bool,
}

impl Machine {
    fn wg_quick(&self, action: &str, conf: &str) -> CommandOutput {
        let name = conf.rsplit('/').next().unwrap().trim_end_matches(".conf").to_string();
        match action {
            "up" => {
                let (mut key, mut allowed) = (String::new(), String::new());
                for line in self.files.borrow().files[conf].0.lines() {
                    if let Some((k, v)) = line.split_once('=') {
                        if k.starts_with("PublicKey") {
                            key = v.trim_start().to_string();
                        } else if k.starts_with("AllowedIPs") {
                            allowed = v.trim_start().to_string();
                        }
                    }
                }
                self.live.borrow_mut().insert(name, (key, allowed));
                output(Some(0), "", "")
            }
            "down" => {
                self.live.borrow_mut().remove(&name);
                output(Some(0), "", "")
            }
            _ => output(Some(64), "", "unknown action\n"),
        }
    }

    fn dump(&self) -> String {
        let mut text = String::new();
        for (name, (key, allowed)) in self.live.borrow().iter() {
            text.push_str(&format!("utun-{name}\tIFPRIV\tIFPUB\t51820\toff\n"));
            text.push_str(&format!(
                "utun-{name}\t{key}\t(none)\t203.0.113.1:51820\t{allowed}\t1700000000\t1024\t2048\t25\n"
            ));
        }
        text
    }
}

fn curl(url: &str) -> CommandOutput {
    let meta = "\n<<<VPNPROBE>>>0.004000,0.012000,0.140000,0.290000,0.291000,104.16.132.229,200";
    if url.contains("fail") {
        output(Some(7), "", "curl: (7) Failed to connect\n")
    } else if url.contains("cdn-cgi/trace") {
        output(Some(0), &format!("fl=x\nip=203.0.113.99\nloc=US\ncolo=EWR\n{meta}"), "")
    } else {
        output(Some(0), meta, "")
    }
}

impl CommandRunner for Machine {
    fn run(&self, program: &str, args: &Vec<String>) -> Result<CommandOutput, String> {
        if !self.installed {
            return Err(NO_FILE.to_string());
        }
        match program {
            "wg-quick" if args.len() == 2 => Ok(self.wg_quick(&args[0], &args[1])),
            "wg" if args.join(" ") == "show all dump" => Ok(output(Some(0), &self.dump(), "")),
            "curl" => Ok(curl(args.last().unwrap())),
            _ => Ok(output(Some(1), "", "unsupported invocation\n")),
        }
    }

    fn run_passthrough(&self, program: &str, args: &Vec<String>) -> Result<Option<i32>, String> {
        Ok(self.run(program, args)?.code)
    }
}

/// A machine with its config directory.
struct Env {
    cfg: Cfg,
    machine: Machine,
}

fn setup() -> Env {
    let cfg = Cfg::empty();
    cfg.write("home.conf", HOME_CONF);
    let files = cfg.files.clone();
    Env { cfg, machine: Machine { files, live: RefCell::new(BTreeMap::new()), installed: true } }
}

impl Env {
    fn run(&self, json: bool, command: Command) -> Execution {
        let cli = Cli { json, config_dir: Some("/cfg".into()), ..cli(command) };
        run_on(&self.cfg, &self.machine, &cli)
    }

    fn json(&self, command: Command) -> (Value, i32) {
        let done = self.run(true, command);
        (serde_json::from_str(&done.message).unwrap(), done.code)
    }

    fn up(&self, name: &str) -> (Value, i32) {
        self.json(Command::Up { name: name.into(), lease: None })
    }

    fn down(&self, name: &str) -> (Value, i32) {
        self.json(Command::Down { name: name.into() })
    }

    fn status(&self, name: &str) -> (Value, i32) {
        self.json(Command::Status { name: Some(name.into()) })
    }

    fn probe(&self, name: Option<&str>, url: &str, count: u32) -> (Value, i32) {
        self.json(Command::Probe {
            name: name.map(str::to_string),
            url: url.into(),
            max_time: 10,
            count,
        })
    }
}

#[test]
fn full_lifecycle() {
    let env = setup();

    // Initially down.
    let (v, code) = env.status("home");
    assert_eq!(code, 0);
    assert_eq!(v["tunnels"][0]["up"], false);

    // Bring up: status resolves via peer matching (no name file exists).
    let (v, code) = env.up("home");
    assert_eq!(code, 0);
    assert_eq!(v["changed"], true);
    assert_eq!(v["status"]["up"], true);
    assert_eq!(v["status"]["interface"], "utun-home");
    assert_eq!(v["status"]["peers"][0]["endpoint"], "203.0.113.1:51820");
    assert_eq!(v["status"]["peers"][0]["transfer_rx"], 1024);

    // Up again is a no-op.
    let (v, _) = env.up("home");
    assert_eq!(v["changed"], false);

    // It shows as current and up in list.
    let (v, _) = env.json(Command::Current);
    assert_eq!(v["active"][0], "home");
    let (v, _) = env.json(Command::List);
    assert_eq!(v["tunnels"][0]["name"], "home");
    assert_eq!(v["tunnels"][0]["up"], true);

    // Bring down (down must see the live tunnel).
    let (v, code) = env.down("home");
    assert_eq!(code, 0);
    assert_eq!(v["changed"], true);
    let (v, _) = env.down("home");
    assert_eq!(v["changed"], false);

    // Nothing current after teardown.
    let (v, _) = env.json(Command::Current);
    assert!(v["active"].as_array().unwrap().is_empty());
}

#[test]
fn probe_activates_and_restores() {
    let env = setup();

    let (v, code) = env.probe(Some("home"), URL, 1);
    assert_eq!(code, 0);
    let r = &v["results"][0];
    assert_eq!(r["name"], "home");
    assert_eq!(r["ok"], true);
    assert_eq!(r["activated"], true);
    assert_eq!(r["interface"], "utun-home");
    assert_eq!(r["http_code"], 200);
    assert_eq!(r["remote_ip"], "104.16.132.229");
    assert_eq!(r["timings"]["total_ms"], 291.0);
    assert_eq!(r["timings"]["ttfb_ms"], 290.0);
    // Exit-location evidence from the trace body.
    assert_eq!(r["exit"]["ip"], "203.0.113.99");
    assert_eq!(r["exit"]["loc"], "US");
    assert_eq!(r["exit"]["colo"], "EWR");

    // The tunnel is back down afterwards.
    let (v, _) = env.status("home");
    assert_eq!(v["tunnels"][0]["up"], false);
}

#[test]
fn probe_count_reports_stats() {
    let env = setup();
    let (v, code) = env.probe(Some("home"), URL, 3);
    assert_eq!(code, 0);
    let r = &v["results"][0];
    assert_eq!(r["samples"], 3);
    assert_eq!(r["failures"], 0);
    assert_eq!(r["stats"]["median_total_ms"], 291.0);
    assert_eq!(r["stats"]["min_total_ms"], 291.0);
    assert_eq!(r["stats"]["max_total_ms"], 291.0);
    // Restored afterwards.
    let (v, _) = env.status("home");
    assert_eq!(v["tunnels"][0]["up"], false);
}

#[test]
fn integration_probe_leaves_running_tunnel_up() {
    let env = setup();
    env.up("home");

    let (v, code) = env.probe(Some("home"), URL, 1);
    assert_eq!(code, 0);
    assert_eq!(v["results"][0]["activated"], false);

    // Still up afterwards.
    let (v, _) = env.status("home");
    assert_eq!(v["tunnels"][0]["up"], true);

    env.down("home");
}

#[test]
fn probe_failure_exits_7_and_still_restores() {
    let env = setup();

    let (v, code) = env.probe(Some("home"), "https://fail.example/", 1);
    assert_eq!(code, 7);
    assert_eq!(v["results"][0]["ok"], false);
    assert!(v["results"][0]["error"].as_str().unwrap().contains("Failed to connect"));

    // Tunnel state restored despite the failed request.
    let (v, _) = env.status("home");
    assert_eq!(v["tunnels"][0]["up"], false);
}

#[test]
fn probe_all_covers_every_tunnel() {
    let env = setup();
    env.cfg.write("work.conf", WORK_CONF);

    let (v, code) = env.probe(None, URL, 1);
    assert_eq!(code, 0);
    let results = v["results"].as_array().unwrap();
    assert_eq!(results.len(), 2);
    assert!(results.iter().all(|r| r["ok"] == true));

    // Everything restored.
    let (v, _) = env.json(Command::Current);
    assert!(v["active"].as_array().unwrap().is_empty());
}

#[test]
fn sibling_configs_do_not_shadow_each_other() {
    let env = setup();
    // Same peer key as home, different AllowedIPs (split tunnel).
    env.cfg.write(
        "home-split.conf",
        "[Peer]\nPublicKey = HOMEPEER=\nAllowedIPs = 0.0.0.0/1, 128.0.0.0/1\n",
    );

    env.up("home");
    let (v, _) = env.json(Command::Current);
    let active = v["active"].as_array().unwrap();
    assert_eq!(active.len(), 1, "only the full-tunnel config is up");
    assert_eq!(active[0], "home");
    env.down("home");
}

#[test]
fn human_output_is_readable() {
    let env = setup();
    let done = env.run(false, Command::Up { name: "home".into(), lease: None });
    assert_eq!(done.code, 0);
    assert!(done.message.contains("brought up"));
    let done = env.run(
        false,
        Command::Probe { name: Some("home".into()), url: URL.into(), max_time: 10, count: 1 },
    );
    assert_eq!(done.code, 0);
    assert!(done.message.contains("total"));
    assert!(done.message.contains("http 200"));
    let done = env.run(false, Command::Down { name: "home".into() });
    assert_eq!(done.code, 0);
    assert!(done.message.contains("brought down"));
}

#[test]
fn unknown_tunnel_exits_3() {
    let env = setup();
    let (v, code) = env.up("ghost");
    assert_eq!(code, 3);
    assert_eq!(v["ok"], false);
    assert_eq!(v["code"], 3);
}

#[test]
fn invalid_name_exits_4() {
    let env = setup();
    let (_v, code) = env.up("bad name");
    assert_eq!(code, 4);
}

#[test]
fn missing_backend_binary_exits_6() {
    let mut env = setup();
    // No `wg` to be found.
    env.machine.installed = false;
    let (_v, code) = env.up("home");
    assert_eq!(code, 6);
}

// ---- What holds of the tool as a whole ----

/// An operation with everything that it asked for, in order.
fn traced<R: CommandRunner, T>(
    cfg: &Cfg,
    runner: &R,
    op: impl Fn(&mut Session) -> Option<T>,
) -> (T, Vec<String>) {
    let asked = RefCell::new(Vec::new());
    let done = drive(&cfg.files, runner, |s| {
        let done = op(s);
        *asked.borrow_mut() = s.asked().iter().map(|a| format!("{a:?}")).collect();
        done
    });
    (done, asked.into_inner())
}

fn up_home() -> Cli {
    Cli {
        config_dir: Some("/cfg".into()),
        ..cli(Command::Up { name: "home".into(), lease: None })
    }
}

#[test]
fn a_command_asks_for_the_same_again_when_replayed() {
    let runner = || {
        let runner = MockRunner::new();
        runner.ok("").ok("").ok(ALL_DUMP);
        runner
    };
    let (first, asked) = traced(&fixture(), &runner(), |s| execute(s, &up_home()));
    let (again, asked_again) = traced(&fixture(), &runner(), |s| execute(s, &up_home()));
    assert_eq!(first, again);
    assert_eq!(asked, asked_again);

    // With fewer replies it asks for the same first, and waits.
    let mut session = Session::new();
    assert_eq!(execute(&mut session, &up_home()), None);
    assert_eq!(session.asked().len(), 1);
    assert_eq!(format!("{:?}", session.pending().unwrap()), asked[0]);
    session.answer(Reply::Contents(FileText::Missing(NO_FILE.into())));
    assert_eq!(execute(&mut session, &up_home()), None);
    let so_far: Vec<String> = session.asked().iter().map(|a| format!("{a:?}")).collect();
    assert_eq!(so_far[..], asked[..2]);
}

#[test]
fn a_reply_of_another_kind_counts_as_none() {
    let mut session = Session::new();
    assert_eq!(execute(&mut session, &up_home()), None);
    session.answer(Reply::Slept);
    assert_eq!(execute(&mut session, &up_home()), None);
    assert_eq!(session.asked().len(), 1);
    assert!(matches!(session.pending(), Some(Action::ReadFile(_))));
}

#[test]
fn mutating_commands_take_the_lock_first() {
    let cfg = fixture();
    let runner = MockRunner::new();
    runner.ok("").ok("").ok(ALL_DUMP);
    let (done, asked) = traced(&cfg, &runner, |s| execute(s, &up_home()));
    assert_eq!(done.code, 0);
    assert_eq!(asked[0], "ReadFile(\"/cfg/config.toml\")");
    assert_eq!(asked[1], "CreateDir(\"/cfg\")");
    assert_eq!(asked[2], "Lock(\"/cfg/.vpn.lock\")");
    assert_eq!(cfg.files.borrow().locked, vec!["/cfg/.vpn.lock"]);
}

#[test]
fn without_the_lock_nothing_is_done() {
    let cfg = fixture();
    cfg.make_dir("/cfg/.vpn.lock");
    let runner = MockRunner::new();
    let (done, asked) = traced(&cfg, &runner, |s| execute(s, &up_home()));
    assert_eq!(done.code, 1);
    assert!(done.is_error);
    assert!(done.message.contains("/cfg/.vpn.lock"));
    assert_eq!(asked.len(), 3);
    assert!(runner.calls().is_empty());
}

#[test]
fn read_only_commands_leave_the_machine_alone() {
    for command in [
        Command::List,
        Command::Status { name: None },
        Command::Current,
        Command::Lint { name: None },
        Command::Doctor,
        Command::Verify,
    ] {
        assert!(!command.is_mutating());
        let cfg = fixture();
        let cli = Cli { config_dir: Some("/cfg".into()), ..cli(command) };
        let (_, asked) = traced(&cfg, &MockRunner::new(), |s| execute(s, &cli));
        for action in &asked {
            for change in ["CreateDir", "WriteFile", "Restrict", "Rename", "RemoveFile", "Lock"] {
                assert!(!action.starts_with(change), "{action}");
            }
            assert!(!action.contains("\"up\"") && !action.contains("\"down\""), "{action}");
        }
        assert_eq!(cfg.files.borrow().files.len(), 1);
        assert!(cfg.files.borrow().locked.is_empty());
    }
    for command in [
        Command::Recover,
        Command::Down { name: "home".into() },
        Command::Diff { url: URL.into(), name: None, max_time: 1 },
        Command::Add { path: "/x".into(), name: None, force: false, allow_hooks: false },
    ] {
        assert!(command.is_mutating());
    }
}

#[test]
fn the_journal_is_written_ahead_of_the_tunnel() {
    let cfg = fixture();
    let runner = MockRunner::new();
    runner.ok("").ok("").ok(ALL_DUMP);
    let b = backend(runner.clone(), &cfg, false);
    let (_, asked) = traced(&cfg, &runner, |s| b.backend.up(s, "home"));
    let at = |text: &str| asked.iter().position(|a| a.contains(text)).unwrap();
    assert!(at("phase: UpPending") < at("Rename"));
    assert!(at("Rename") < at("[\"up\", \"/cfg/home.conf\"]"));
    // The journal itself is only ever replaced.
    for action in asked.iter().filter(|a| a.starts_with("WriteFile")) {
        assert!(action.contains("/cfg/state/.home.json.tmp"), "{action}");
    }
    assert_eq!(cfg.journal("home").unwrap().phase, Phase::Active);
}

#[test]
fn the_journal_is_marked_before_a_teardown() {
    let cfg = fixture();
    cfg.record(&Journal {
        dns_snapshot: TextMap::new(),
        tunnel_dns: Vec::new(),
        ..dns_journal("home", Phase::Active)
    });
    let runner = MockRunner::new();
    runner.ok(ALL_DUMP).ok(ALL_DUMP).ok("");
    let b = backend(runner.clone(), &cfg, false);
    let (done, asked) = traced(&cfg, &runner, |s| b.backend.down(s, "home"));
    assert!(done.unwrap().changed);
    let at = |text: &str| asked.iter().position(|a| a.contains(text)).unwrap();
    assert!(at("phase: DownPending") < at("[\"down\", \"/cfg/home.conf\"]"));
    assert!(at("[\"down\", \"/cfg/home.conf\"]") < at("RemoveFile(\"/cfg/state/home.json\")"));
    assert!(cfg.journal("home").is_none());
}

#[test]
fn a_pending_journal_that_cannot_be_written_stops_the_tunnel() {
    let cfg = fixture();
    cfg.write("state", "in the way");
    let runner = MockRunner::new();
    runner.ok("");
    let b = backend(runner.clone(), &cfg, false);
    let err = b.up("home").unwrap_err();
    assert!(matches!(err, Error::ConfigDir(path, _) if path == "/cfg/state"));
    assert_eq!(runner.calls().len(), 1, "wg-quick never ran");
}

#[test]
fn interrupted_operations_are_rolled_back_by_the_next_command() {
    for phase in [Phase::UpPending, Phase::DownPending] {
        let env = setup();
        env.up("home");
        let mut journal = env.cfg.journal("home").unwrap();
        journal.phase = phase;
        env.cfg.record(&journal);
        // Any mutating command reconciles first.
        let (_, code) = env.json(Command::Recover);
        assert_eq!(code, 0);
        assert!(env.cfg.journal("home").is_none());
        let (v, _) = env.json(Command::Current);
        assert!(v["active"].as_array().unwrap().is_empty());
    }
}

#[test]
fn a_lease_is_enforced_by_the_next_command() {
    let env = setup();
    env.json(Command::Up { name: "home".into(), lease: Some(1800) });
    assert_eq!(env.cfg.journal("home").unwrap().lease_deadline, Some(NOW + 1800));
    // Within the lease the tunnel stays.
    env.cfg.files.borrow_mut().later = 1799;
    env.down("other");
    assert_eq!(env.status("home").0["tunnels"][0]["up"], true);
    // At the deadline it goes.
    env.cfg.files.borrow_mut().later = 1800;
    env.down("other");
    assert_eq!(env.status("home").0["tunnels"][0]["up"], false);
    assert!(env.cfg.journal("home").is_none());
}

#[test]
fn lease_durations() {
    assert_eq!(parse_lease("30m"), Ok(1800));
    assert_eq!(parse_lease("45"), Ok(45));
    assert_eq!(parse_lease("45s"), Ok(45));
    assert_eq!(parse_lease("2h"), Ok(7200));
    assert_eq!(parse_lease("1d"), Ok(86_400));
    assert_eq!(parse_lease("18446744073709551615"), Ok(u64::MAX));
    for bad in ["", "m", "30x", "-1", "1.5h", "30 m", "18446744073709551616", "18446744073709551615m"] {
        let message = parse_lease(bad).unwrap_err();
        assert!(message.contains(&format!("'{bad}'")), "{message}");
    }
}

#[test]
fn a_lease_beyond_the_end_of_time_ends_there() {
    let cfg = fixture();
    let runner = MockRunner::new();
    runner.ok("").ok("").ok(ALL_DUMP);
    let b = backend(runner, &cfg, false).with_fixed_time(1000);
    b.up_with_lease("home", Some(u64::MAX)).unwrap();
    assert_eq!(cfg.journal("home").unwrap().lease_deadline, Some(u64::MAX));
}

#[test]
fn a_tunnel_that_is_already_up_is_adopted() {
    let cfg = fixture();
    let runner = MockRunner::new();
    runner.ok(ALL_DUMP);
    let b = backend(runner, &cfg, false).with_fixed_time(1000);
    assert!(!b.up_with_lease("home", Some(60)).unwrap().0);
    let journal = cfg.journal("home").unwrap();
    assert_eq!(journal.phase, Phase::Active);
    assert_eq!(journal.interface.as_deref(), Some("utun7"));
    assert_eq!(journal.lease_deadline, Some(1060));
}

#[test]
fn a_probe_that_is_killed_leaves_a_lease() {
    let cfg = fixture();
    let runner = MockRunner::new();
    runner.ok("").ok("").ok(ALL_DUMP).ok(CURL_OK).ok("");
    let b = backend(runner.clone(), &cfg, false).with_fixed_time(1000);
    let (_, asked) = traced(&cfg, &runner, |s| b.backend.probe(s, Some("home"), URL, 10, 3));
    // Three requests of ten seconds, and a minute to spare.
    assert!(asked.iter().any(|a| a.contains("lease_deadline: Some(1090)")), "{asked:?}");
    assert!(cfg.journal("home").is_none());
}

#[test]
fn sudo_covers_wireguard_only() {
    let cfg = fixture();
    cfg.write("config.toml", "sudo = true\nwg = \"/abs/wg\"\n");
    let runner = MockRunner::new();
    runner.ok("").ok("").ok(ALL_DUMP).ok(CURL_OK).ok("");
    let cli = Cli {
        config_dir: Some("/cfg".into()),
        ..cli(Command::Probe { name: Some("home".into()), url: URL.into(), max_time: 10, count: 1 })
    };
    assert_eq!(run_on(&cfg, &runner, &cli).code, 0);
    for (program, args) in runner.calls() {
        if program == "sudo" {
            assert_eq!(args[0], "-n");
            assert!(args[1] == "/abs/wg" || args[1] == "wg-quick");
        } else {
            assert_eq!(program, "curl");
        }
    }
}

#[test]
fn the_guard_waits_on_its_schedule() {
    let cfg = Cfg::empty();
    let mock = MockRunner::new();
    for _ in 0..2 {
        mock.ok(SERVICES);
        mock.ok(NO_DNS_SET);
    }
    let outcome =
        drive(&cfg.files, &mock, |s| dns::guard(s, &resolvers(), &dns::sweep_delays_ms()));
    assert_eq!(outcome, quiet());
    assert_eq!(cfg.files.borrow().slept, vec![400], "the first sweep comes at once");
    assert_eq!(dns::sweep_delays_ms(), vec![0, 400, 1200, 2500]);
}

#[test]
fn diff_retries_after_its_delays() {
    let cfg = fixture();
    let runner = MockRunner::new();
    runner.ok("").ok("").ok(ALL_DUMP).fail(6, "curl: (6) not yet");
    runner.ok(&format!("HTTP/2 200 \nserver: x\n\n{OUTPUT_MARKER}200")).ok("");
    let b = Host {
        backend: Backend::new("/cfg".into(), false).with_diff_retries(vec![0, 250]),
        runner: runner.clone(),
        files: cfg.files.clone(),
    };
    let results = b.diff(Some("home"), "https://x.example", 10).unwrap();
    assert!(results[0].ok);
    assert_eq!(cfg.files.borrow().slept, vec![250]);
}

#[test]
fn a_state_directory_listed_in_part_counts() {
    let mut session = Session::new();
    let journal = dns_journal("home", Phase::Active);
    assert_eq!(state::read_all(&mut session, "/cfg"), None);
    session.answer(Reply::Listing(DirListing::Partial {
        files: vec!["home.json".into(), "note.txt".into()],
        source: "I/O error".into(),
    }));
    assert_eq!(state::read_all(&mut session, "/cfg"), None);
    session.answer(Reply::Contents(FileText::Text("{}".into())));
    assert_eq!(state::read_all(&mut session, "/cfg"), None);
    session.answer(Reply::Decoded(Some(dns_journal("home", Phase::Active))));
    assert_eq!(state::read_all(&mut session, "/cfg"), Some(vec![journal]));

    // A config directory listed in part is an error.
    let mut session = Session::new();
    assert_eq!(config::discover(&mut session, "/cfg"), None);
    session.answer(Reply::Listing(DirListing::Partial {
        files: vec!["home.conf".into()],
        source: "I/O error".into(),
    }));
    assert_eq!(
        config::discover(&mut session, "/cfg"),
        Some(Err(Error::ConfigDir("/cfg".into(), "I/O error".into())))
    );
}

#[test]
fn verify_and_recover_exit_8_on_an_inconsistent_host() {
    for command in [Command::Verify, Command::Recover] {
        let cfg = fixture();
        let runner = MockRunner::new();
        let orphaned = || {
            runner.ok(ORPHAN_DUMP);
        };
        if command == Command::Recover {
            orphaned();
        }
        orphaned();
        runner.ok("  interface: utun9\n");
        orphaned();
        let cli = Cli { config_dir: Some("/cfg".into()), ..cli(command) };
        let done = run_on(&cfg, &runner, &cli);
        assert_eq!(done.code, 8, "{}", done.message);
        assert!(!done.is_error);
        assert!(done.message.contains("[orphan]"), "{}", done.message);
    }
}

#[test]
fn execute_diff_exits_7_when_a_location_fails() {
    let cfg = fixture();
    let runner = MockRunner::new();
    runner.ok(ALL_DUMP).fail(28, "curl: (28) timeout");
    let cli = Cli {
        config_dir: Some("/cfg".into()),
        ..cli(Command::Diff {
            url: "https://x.example".into(),
            name: Some("home".into()),
            max_time: 5,
        })
    };
    let done = run_on(&cfg, &runner, &cli);
    assert_eq!(done.code, 7);
    assert!(done.message.contains("timeout"));
}

#[test]
fn execute_add_split_lint_and_doctor() {
    let env = setup();
    env.cfg.write_at("/src/jp.conf", CONF);
    let add = |name: &str| Command::Add {
        path: "/src/jp.conf".into(),
        name: Some(name.into()),
        force: false,
        allow_hooks: false,
    };
    let done = env.run(false, add("jp"));
    assert_eq!((done.code, done.message.as_str()), (0, "added jp (/cfg/jp.conf)"));
    assert_eq!(env.run(false, add("jp")).code, 1, "exists already");
    assert_eq!(env.run(false, add("not a name")).code, 4);

    let split = Command::Split {
        name: "jp".into(),
        exclude: vec!["100.64.0.0/10".into()],
        output: None,
        keep_dns: false,
        force: false,
    };
    let done = env.run(false, split);
    assert_eq!(done.code, 0);
    assert!(done.message.starts_with("jp-split: split tunnel of jp written to /cfg/jp-split.conf"));

    let done = env.run(false, Command::Lint { name: Some("jp-split".into()) });
    assert_eq!((done.code, done.message.as_str()), (0, "ok    jp-split"));

    env.cfg.chmod("home.conf", 0o640);
    let done = env.run(false, Command::Doctor);
    assert_eq!(done.code, 1);
    assert!(done.message.contains("FAIL config:home"), "{}", done.message);
}

#[test]
fn split_routes_all_but_what_is_kept_out() {
    let cfg = Cfg::empty();
    cfg.write("proton.conf", SPLIT_SRC);
    let b = backend(MockRunner::new(), &cfg, false);
    let (_, dest, entries) =
        b.split("proton", &["0.0.0.0/1".to_string()], Some("half"), false, false).unwrap();
    // 79.127.160.216 lies in the half that is kept out anyway.
    assert_eq!(entries, 2);
    assert!(cfg.text(&dest).contains("AllowedIPs = 128.0.0.0/1, ::/0\n"));
    assert_eq!(cfg.mode(&dest), 0o600);
    // Everything may be kept out of the tunnel.
    let (_, dest, entries) =
        b.split("proton", &["0.0.0.0/0".to_string()], Some("none"), false, false).unwrap();
    assert_eq!(entries, 1);
    assert_eq!(cfg.identity(&dest).unwrap().allowed_ips, vec!["::/0"]);
}

#[test]
fn json_error_text_is_compact_and_escaped() {
    let text = render_error(&Error::TunnelNotFound("a\"b\n".into()), true);
    assert_eq!(
        text,
        "{\"code\":3,\"error\":\"tunnel 'a\\\"b\\n' not found in config directory\",\"ok\":false}"
    );
}

#[test]
fn human_report_matches_render_report() {
    let report = || Report::Current { active: vec!["home".into()] };
    let rendered = Cfg::empty().run(|s| render_report(s, report(), false));
    assert_eq!(rendered, human_report(&report()));
    assert_eq!(rendered, "home");
}

#[test]
fn probe_lines_are_aligned() {
    let result = |name: &str, median, min, max, ttfb, exit: &str, loc: &str, colo: &str| {
        ProbeResult {
            ok: true,
            samples: 3,
            stats: Some(Stats {
                min_total_tenths: min,
                median_total_tenths: median,
                max_total_tenths: max,
                median_ttfb_tenths: ttfb,
            }),
            timings: Some(Timings {
                dns_tenths: 0,
                connect_tenths: 0,
                tls_tenths: 0,
                ttfb_tenths: ttfb,
                total_tenths: median,
            }),
            http_code: Some(200),
            exit: Some(TraceInfo {
                ip: exit.into(),
                loc: Some(loc.into()),
                colo: Some(colo.into()),
            }),
            ..ProbeResult::new(name, URL, true)
        }
    };
    let results = vec![
        result("proton-nl", 1894, 1850, 2012, 1892, "185.107.56.1", "NL", "AMS"),
        result("proton-us", 4402, 4319, 4608, 4401, "159.26.101.9", "US", "BOS"),
    ];
    assert_eq!(
        human_report(&Report::Probe { results }),
        "proton-nl      median    189.4 ms   (min 185.0, max 201.2, n=3)   ttfb    189.2 ms   \
         http 200   exit 185.107.56.1 (NL/AMS)\n\
         proton-us      median    440.2 ms   (min 431.9, max 460.8, n=3)   ttfb    440.1 ms   \
         http 200   exit 159.26.101.9 (US/BOS)"
    );
}

#[test]
fn a_config_that_cannot_be_read_is_an_error() {
    let cfg = fixture();
    cfg.chmod("home.conf", 0);
    let runner = MockRunner::new();
    runner.ok("");
    let b = backend(runner, &cfg, false);
    let err = b.status_one("home").unwrap_err();
    assert!(matches!(err, Error::TunnelConfRead { path, .. } if path == "/cfg/home.conf"));
}

#[test]
fn writing_a_config_can_fail() {
    let cfg = fixture();
    cfg.write_at("/src/x.conf", CONF);
    let b = Host {
        backend: Backend::new("/cfg/home.conf".into(), false),
        runner: MockRunner::new(),
        files: cfg.files.clone(),
    };
    let err = b.add("/src/x.conf", Some("x"), false, false).unwrap_err();
    assert_eq!(err.exit_code(), 1);
}

#[test]
fn names_of_files_in_the_state_directory() {
    assert_eq!(state::dir("/cfg"), "/cfg/state");
    assert_eq!(state::path("/cfg/", "home"), "/cfg/state/home.json");
    assert_eq!(config::join_path("", "x"), "x");
    assert_eq!(config::join_path("/cfg", "/abs"), "/abs");
    let names: BTreeSet<String> = ["home", "work"].iter().map(|t| state::path("", t)).collect();
    assert_eq!(names.into_iter().collect::<Vec<_>>(), ["state/home.json", "state/work.json"]);
}

// ---- What was done is not lost ----

#[test]
fn guard_reports_what_it_cleared_when_networksetup_goes_away() {
    let mock = MockRunner::new();
    mock.ok(&format!("{LEGEND}\nWi-Fi\n"));
    mock.ok("10.2.0.1"); // pinned
    mock.ok(""); // reset to DHCP
    mock.spawn_err(); // the second sweep finds no networksetup
    let outcome = on(&mock, |s| dns::guard(s, &cmd(&["10.2.0.1"]), &vec![0, 0]));
    assert_eq!(outcome, GuardOutcome { cleared: cmd(&["Wi-Fi"]), warning: None });
    assert_eq!(mock.calls()[2].1, ["-setdnsservers", "Wi-Fi", "Empty"]);
}

#[test]
fn guard_keeps_its_warning_when_networksetup_goes_away() {
    let mock = MockRunner::new();
    mock.ok(&format!("{LEGEND}\nWi-Fi\niPhone USB\n"));
    mock.ok("10.2.0.1").ok("10.2.0.1"); // both pinned
    mock.ok("").fail(14, "denied"); // one reset works
    mock.spawn_err();
    let outcome = on(&mock, |s| dns::guard(s, &cmd(&["10.2.0.1"]), &vec![0, 0]));
    assert_eq!(outcome.cleared, ["Wi-Fi"]);
    assert!(outcome.warning.unwrap().contains("'iPhone USB'"));
}

#[test]
fn restore_reports_what_it_set_when_networksetup_goes_away() {
    let mock = MockRunner::new();
    mock.ok(""); // the snapshot of Wi-Fi
    mock.ok(&format!("{LEGEND}\nWi-Fi\niPhone USB\n"));
    mock.ok("1.1.1.1").ok("10.2.0.1"); // one pinned
    mock.ok(""); // reset to DHCP
    mock.spawn_err();
    let taken = snapshot("Wi-Fi", &["1.1.1.1"]);
    let outcome = on(&mock, |s| dns::restore(s, &taken, &cmd(&["10.2.0.1"]), &vec![0, 0]));
    assert_eq!(outcome, GuardOutcome { cleared: cmd(&["Wi-Fi", "iPhone USB"]), warning: None });
}

#[test]
fn restoring_what_was_captured_never_pins_the_tunnel_again() {
    let mock = MockRunner::new();
    mock.ok(&format!("{LEGEND}\nWi-Fi\niPhone USB\n"));
    mock.ok("10.2.0.1\n9.9.9.9").ok("10.2.0.1");
    let own = cmd(&["10.2.0.1"]);
    let taken = on(&mock, |s| dns::capture(s, &own)).unwrap();
    let mock = MockRunner::new();
    mock.ok("").ok(""); // the two services
    mock.ok(&format!("{LEGEND}\nWi-Fi\niPhone USB\n"));
    mock.ok("9.9.9.9").ok("10.2.0.1"); // one was pinned again meanwhile
    mock.ok("");
    on(&mock, |s| dns::restore(s, &taken, &own, &vec![0]));
    let set: Calls =
        mock.calls().into_iter().filter(|(_, args)| args[0] == "-setdnsservers").collect();
    assert_eq!(set.len(), 3);
    assert_eq!(set[0].1, ["-setdnsservers", "Wi-Fi", "9.9.9.9"]);
    assert_eq!(set[1].1, ["-setdnsservers", "iPhone USB", "Empty"]);
    assert_eq!(set[2].1, ["-setdnsservers", "iPhone USB", "Empty"]);
}

#[test]
fn the_recorded_snapshot_holds_none_of_the_tunnels_servers() {
    let cfg = Cfg::empty();
    cfg.write("home.conf", &CONF.replace("Address", "DNS = 10.2.0.1\nAddress"));
    let runner = MockRunner::new();
    runner.ok(""); // down
    runner.ok(&format!("{LEGEND}\nWi-Fi\niPhone USB\n"));
    runner.ok("10.2.0.1\n1.1.1.1").ok("10.2.0.1"); // poisoned before
    runner.ok("").ok(ALL_DUMP); // brought up
    backend(runner, &cfg, false).up("home").unwrap();
    let journal = cfg.journal("home").unwrap();
    assert_eq!(journal.tunnel_dns, ["10.2.0.1"]);
    assert_eq!(journal.dns_snapshot.get("Wi-Fi").unwrap(), &["1.1.1.1"]);
    assert!(journal.dns_snapshot.get("iPhone USB").unwrap().is_empty());
}

// ---- Leases and records of tunnels that are up ----

#[test]
fn a_lease_of_a_tunnel_that_is_up_is_recorded() {
    let cfg = fixture();
    let known = dns_journal("home", Phase::Active);
    cfg.record(&known);
    let runner = MockRunner::new();
    runner.ok(ALL_DUMP).ok(ALL_DUMP); // reconciling, and up
    let b = backend(runner.clone(), &cfg, false).with_fixed_time(1000);
    let (changed, status) = b.up_with_lease("home", Some(90)).unwrap();
    assert!(!changed);
    assert!(status.up);
    assert_eq!(cfg.journal("home"), Some(Journal { lease_deadline: Some(1090), ..known }));
    assert!(runner.calls().iter().all(|(program, _)| program == "wg"));
}

#[test]
fn a_new_lease_replaces_the_one_before() {
    let cfg = fixture();
    cfg.record(&Journal {
        lease_deadline: Some(1010),
        ..dns_journal("home", Phase::Active)
    });
    let runner = MockRunner::new();
    runner.ok(ALL_DUMP).ok(ALL_DUMP);
    let b = backend(runner, &cfg, false).with_fixed_time(1000);
    b.up_with_lease("home", Some(u64::MAX)).unwrap();
    assert_eq!(cfg.journal("home").unwrap().lease_deadline, Some(u64::MAX));
}

#[test]
fn without_a_lease_the_record_of_a_tunnel_that_is_up_stays() {
    let cfg = fixture();
    let known =
        Journal { lease_deadline: Some(1010), ..dns_journal("home", Phase::Active) };
    cfg.record(&known);
    let runner = MockRunner::new();
    runner.ok(ALL_DUMP).ok(ALL_DUMP);
    let b = backend(runner, &cfg, false).with_fixed_time(1000);
    assert!(!b.up("home").unwrap().0);
    assert_eq!(cfg.journal("home"), Some(known));
}

#[test]
fn up_twice_runs_only_the_dump_the_second_time() {
    let cfg = fixture();
    let runner = MockRunner::new();
    runner.ok("").ok("").ok(ALL_DUMP); // brought up
    assert!(backend(runner, &cfg, false).up("home").unwrap().0);
    let recorded = cfg.journals();
    let again = MockRunner::new();
    again.ok(ALL_DUMP).ok(ALL_DUMP);
    let (changed, status) = backend(again.clone(), &cfg, false).up("home").unwrap();
    assert!(!changed);
    assert!(status.up);
    assert_eq!(again.calls(), vec![("wg".to_string(), cmd(&["show", "all", "dump"])); 2]);
    assert_eq!(cfg.journals(), recorded);
}

// ---- Comparisons leave no state behind ----

fn downs(runner: &MockRunner) -> Vec<Vec<String>> {
    let calls = runner.calls().into_iter();
    calls.filter(|(program, _)| program == "wg-quick").map(|(_, args)| args).collect()
}

#[test]
fn a_comparison_takes_the_tunnel_down_when_it_cannot_be_confirmed() {
    let cfg = fixture();
    let runner = MockRunner::new();
    runner.ok("").ok(""); // down, then brought up
    runner.fail(1, "wg: permission denied"); // cannot be looked at
    let b = backend(runner.clone(), &cfg, false);
    let results = b.diff(Some("home"), "https://x.example", 10).unwrap();
    assert!(!results[0].ok);
    assert!(results[0].error.as_deref().unwrap().contains("permission denied"));
    assert_eq!(downs(&runner), [cmd(&["up", "/cfg/home.conf"]), cmd(&["down", "/cfg/home.conf"])]);
    assert_eq!(cfg.journal("home"), None);
}

#[test]
fn a_comparison_takes_nothing_down_that_did_not_come_up() {
    let cfg = fixture();
    let runner = MockRunner::new();
    runner.ok("").fail(1, "no route"); // wg-quick refuses
    let b = backend(runner.clone(), &cfg, false);
    let results = b.diff(Some("home"), "https://x.example", 10).unwrap();
    assert!(results[0].error.as_deref().unwrap().contains("no route"));
    assert_eq!(downs(&runner), [cmd(&["up", "/cfg/home.conf"])]);
}

// ---- Journals of several tunnels ----

#[test]
fn journals_of_other_tunnels_stay_as_they_are() {
    let cfg = Cfg::empty();
    let own = journal(Phase::Active);
    let other = Journal { tunnel: "work".to_string(), ..journal(Phase::UpPending) };
    cfg.record(&other);
    cfg.record(&own);
    assert_eq!(cfg.journal("proton"), Some(own.clone()));
    assert_eq!(cfg.journal("work"), Some(other.clone()));
    cfg.record(&Journal { lease_deadline: Some(7), ..own });
    assert_eq!(cfg.journal("proton").unwrap().lease_deadline, Some(7));
    cfg.forget("proton").unwrap();
    cfg.forget("proton").unwrap();
    assert_eq!(cfg.journal("proton"), None);
    assert_eq!(cfg.journals(), vec![other]);
}

// ---- Running programs ----

#[test]
fn a_runner_is_handed_the_program_and_its_arguments() {
    let runner = MockRunner::new();
    runner.fail(3, "no").spawn_err();
    let run = Action::Run { program: "wg".to_string(), args: cmd(&["show", "all", "dump"]) };
    assert_eq!(perform(&runner, &run), Some(Reply::Ran(Ok(output(Some(3), "", "no")))));
    let pass = Action::RunPassthrough { program: "curl".to_string(), args: cmd(&["-sI"]) };
    assert_eq!(perform(&runner, &pass), Some(Reply::Exited(Err("missing".to_string()))));
    assert_eq!(perform(&runner, &Action::Now), None);
    assert_eq!(
        runner.calls(),
        [
            ("wg".to_string(), cmd(&["show", "all", "dump"])),
            ("curl".to_string(), cmd(&["-sI"])),
        ]
    );
}

// ---- Rolling back, and agreeing ----

#[test]
fn an_interrupted_up_is_rolled_back_with_its_dns() {
    let cfg = fixture();
    cfg.record(&Journal {
        dns_snapshot: snapshot("Wi-Fi", &["9.9.9.9", "1.1.1.1"]),
        tunnel_dns: cmd(&["10.2.0.1"]),
        ..dns_journal("home", Phase::UpPending)
    });
    let runner = MockRunner::new();
    runner.ok(ALL_DUMP); // reconciling: the tunnel is up
    runner.ok(""); // wg-quick down
    runner.ok(""); // nothing is up any more
    runner.ok(""); // Wi-Fi is set back
    for _ in 0..2 {
        runner.ok(&format!("{LEGEND}\nWi-Fi\n")).ok("9.9.9.9\n1.1.1.1");
    }
    let recovered = backend(runner.clone(), &cfg, false).reconcile().unwrap();
    assert_eq!(recovered.len(), 1);
    assert_eq!(recovered[0].tunnel, "home");
    assert_eq!(recovered[0].dns_cleared, ["Wi-Fi"]);
    let calls = runner.calls();
    assert_eq!(calls[1], ("wg-quick".to_string(), cmd(&["down", "/cfg/home.conf"])));
    assert_eq!(calls[3].1, ["-setdnsservers", "Wi-Fi", "9.9.9.9", "1.1.1.1"]);
    assert_eq!(cfg.journal("home"), None);
}

#[test]
fn a_comparison_journals_ahead_of_the_tunnel() {
    let cfg = fixture();
    let runner = MockRunner::new();
    runner.ok("").ok("").ok(ALL_DUMP).ok("HTTP/2 200\n").ok("");
    let b = backend(runner.clone(), &cfg, false);
    let (_, asked) =
        traced(&cfg, &runner, |s| b.backend.diff(s, Some("home"), "https://x.example", 5));
    let at = |text: &str| asked.iter().position(|a| a.contains(text)).unwrap();
    assert!(at("phase: UpPending") < at("Rename"));
    assert!(at("Rename") < at("[\"up\", \"/cfg/home.conf\"]"));
}

#[test]
fn a_comparison_without_a_record_brings_nothing_up() {
    let cfg = fixture();
    cfg.write("state", ""); // no directory can stand here
    let runner = MockRunner::new();
    runner.ok("");
    let results = backend(runner.clone(), &cfg, false).diff(Some("home"), URL, 5).unwrap();
    assert!(!results[0].ok);
    assert_eq!(runner.calls().len(), 1);
}

#[test]
fn list_status_and_current_agree() {
    let cfg = fixture();
    cfg.write("other.conf", CONF_OTHER);
    let runner = MockRunner::new();
    runner.ok(ALL_DUMP).ok(ALL_DUMP).ok(ALL_DUMP);
    let b = backend(runner, &cfg, false);
    let list: Vec<(String, bool)> =
        b.list().unwrap().into_iter().map(|e| (e.name, e.up)).collect();
    let statuses: Vec<(String, bool)> =
        b.status_all().unwrap().into_iter().map(|s| (s.name, s.up)).collect();
    assert_eq!(list, [("home".to_string(), true), ("other".to_string(), false)]);
    assert_eq!(statuses, list);
    assert_eq!(b.current().unwrap(), ["home"]);
}
