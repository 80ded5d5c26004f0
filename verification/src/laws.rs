//! What holds of the tool as a whole.
//!
//! The laws speak of the specification functions that the contracts are stated
//! over: what [`crate::execute`] and the operations of the backend ask for and
//! return.
use vstd::prelude::*;

use crate::backend::trace::{
    lemma_checking_all, lemma_checking_one, lemma_downing, lemma_listing, lemma_naming_active,
    lemma_recovering, lemma_upping, lemma_verifying,
};
use crate::backend::trace_commands::{
    lemma_adding, lemma_diagnosing, lemma_diffing, lemma_executing, lemma_linting, lemma_probing,
    lemma_splitting,
};
use crate::backend::BackendView;
use crate::cli::{dispatching, recovering_and_verifying, reporting, CliView, CommandView};
use crate::config;
use crate::dns::NETWORKSETUP;
use crate::error::ErrorView;
use crate::lock;
use crate::output::ReportView;
use crate::session::{ActionView, ReplyView, SessionView, Step};
use crate::settings;
use crate::trace::{
    extends, later, lemma_acquiring, lemma_bind, lemma_encode, lemma_finished, lemma_loading,
    lemma_resumed, lemma_same, looks, repeats, resumed, steady, unanswered, Rule,
};
use crate::{backend_of, commanding, concluding, executing};

verus! {

// ---------------------------------------------------------------------------
// The command line as a whole
// ---------------------------------------------------------------------------

impl CommandView {
    /// Whether the command may run programs; the others only handle files.
    pub open spec fn runs(self) -> bool {
        !(self is Lint || self is Add || self is Split)
    }

    /// What the command may ask for.
    pub open spec fn rule(self, b: BackendView) -> Rule {
        Rule { b, reading: !self.mutates(), running: self.runs(), tunnels: self.mutates() }
    }
}

/// An operation whose result becomes a report.
proof fn lemma_reporting<T>(
    r: Rule,
    s: SessionView,
    t: SessionView,
    x: Step<Result<T, ErrorView>>,
    y: Step<Result<T, ErrorView>>,
    report: spec_fn(T) -> ReportView,
)
    requires
        later(s, t),
        steady(r, s, t, x, y),
    ensures
        steady(r, s, t, reporting(x, report), reporting(y, report)),
{
    lemma_bind(r, s, t, x, y, reporting(x, report), reporting(y, report));
}

/// Recovering, and then verifying.
proof fn lemma_recovering_and_verifying(r: Rule, s: SessionView, t: SessionView)
    requires
        later(s, t),
        !r.reading,
        r.running,
        r.tunnels,
    ensures
        steady(
            r,
            s,
            t,
            recovering_and_verifying(r.b, s),
            recovering_and_verifying(r.b, t),
        ),
{
    let fx = recovering_and_verifying(r.b, s);
    let fy = recovering_and_verifying(r.b, t);
    lemma_recovering(r, s, t);
    let x = r.b.recovering(s);
    let y = r.b.recovering(t);
    lemma_resumed(r, s, t, x, y);
    let u = resumed(x, y);
    match y.1 {
        Some(Ok(recovered)) => {
            lemma_verifying(r, u, y.0);
            lemma_reporting(
                r,
                u,
                y.0,
                r.b.verifying(u),
                r.b.verifying(y.0),
                |health| ReportView::Recover { recovered, health },
            );
        },
        _ => {},
    }
    lemma_bind(r, s, t, x, y, fx, fy);
}

/// Whether a command asks for what it may, and asks for it again.
spec fn dispatched(b: BackendView, s: SessionView, t: SessionView, command: CommandView) -> bool {
    steady(command.rule(b), s, t, dispatching(b, s, command), dispatching(b, t, command))
}

/// `vpn list`.
proof fn lemma_dispatching_list(
    b: BackendView,
    s: SessionView,
    t: SessionView,
)
    requires
        later(s, t),
    ensures
        dispatched(b, s, t, CommandView::List),
{
    reveal(dispatching);
    let which = CommandView::List;
    let r = which.rule(b);
    lemma_listing(r, s, t);
    let x = b.listing(s);
    let y = b.listing(t);
    lemma_bind(r, s, t, x, y, dispatching(b, s, which), dispatching(b, t, which));
}

/// `vpn up`.
proof fn lemma_dispatching_up(
    b: BackendView,
    s: SessionView,
    t: SessionView,
    name: Seq<char>,
    lease: Option<u64>,
)
    requires
        later(s, t),
    ensures
        dispatched(b, s, t, CommandView::Up { name, lease }),
{
    reveal(dispatching);
    let which = CommandView::Up { name, lease };
    let r = which.rule(b);
    lemma_upping(r, s, t, name, lease);
    let x = b.upping(s, name, lease);
    let y = b.upping(t, name, lease);
    lemma_bind(r, s, t, x, y, dispatching(b, s, which), dispatching(b, t, which));
}

/// `vpn down`.
proof fn lemma_dispatching_down(
    b: BackendView,
    s: SessionView,
    t: SessionView,
    name: Seq<char>,
)
    requires
        later(s, t),
    ensures
        dispatched(b, s, t, CommandView::Down { name }),
{
    reveal(dispatching);
    let which = CommandView::Down { name };
    let r = which.rule(b);
    lemma_downing(r, s, t, name);
    let x = b.downing(s, name);
    let y = b.downing(t, name);
    lemma_bind(r, s, t, x, y, dispatching(b, s, which), dispatching(b, t, which));
}

/// `vpn status`.
proof fn lemma_dispatching_status_one(
    b: BackendView,
    s: SessionView,
    t: SessionView,
    name: Seq<char>,
)
    requires
        later(s, t),
    ensures
        dispatched(b, s, t, CommandView::Status { name: Some(name) }),
{
    reveal(dispatching);
    let which = CommandView::Status { name: Some(name) };
    let r = which.rule(b);
    lemma_checking_one(r, s, t, name);
    let x = b.checking_one(s, name);
    let y = b.checking_one(t, name);
    lemma_bind(r, s, t, x, y, dispatching(b, s, which), dispatching(b, t, which));
}

/// `vpn status`.
proof fn lemma_dispatching_status_all(
    b: BackendView,
    s: SessionView,
    t: SessionView,
)
    requires
        later(s, t),
    ensures
        dispatched(b, s, t, CommandView::Status { name: None }),
{
    reveal(dispatching);
    let which = CommandView::Status { name: None };
    let r = which.rule(b);
    lemma_checking_all(r, s, t);
    let x = b.checking_all(s);
    let y = b.checking_all(t);
    lemma_bind(r, s, t, x, y, dispatching(b, s, which), dispatching(b, t, which));
}

/// `vpn current`.
proof fn lemma_dispatching_current(
    b: BackendView,
    s: SessionView,
    t: SessionView,
)
    requires
        later(s, t),
    ensures
        dispatched(b, s, t, CommandView::Current),
{
    reveal(dispatching);
    let which = CommandView::Current;
    let r = which.rule(b);
    lemma_naming_active(r, s, t);
    let x = b.naming_active(s);
    let y = b.naming_active(t);
    lemma_bind(r, s, t, x, y, dispatching(b, s, which), dispatching(b, t, which));
}

/// `vpn probe`.
proof fn lemma_dispatching_probe(
    b: BackendView,
    s: SessionView,
    t: SessionView,
    name: Option<Seq<char>>,
    url: Seq<char>,
    max_time: u64,
    count: u32,
)
    requires
        later(s, t),
    ensures
        dispatched(b, s, t, CommandView::Probe { name, url, max_time, count }),
{
    reveal(dispatching);
    let which = CommandView::Probe { name, url, max_time, count };
    let r = which.rule(b);
    lemma_probing(r, s, t, name, url, max_time, count);
    let x = b.probing(s, name, url, max_time, count);
    let y = b.probing(t, name, url, max_time, count);
    lemma_bind(r, s, t, x, y, dispatching(b, s, which), dispatching(b, t, which));
}

/// `vpn exec`.
proof fn lemma_dispatching_exec(
    b: BackendView,
    s: SessionView,
    t: SessionView,
    name: Seq<char>,
    command: Seq<Seq<char>>,
)
    requires
        later(s, t),
    ensures
        dispatched(b, s, t, CommandView::Exec { name, command }),
{
    reveal(dispatching);
    let which = CommandView::Exec { name, command };
    let r = which.rule(b);
    lemma_executing(r, s, t, name, command);
    let x = b.executing(s, name, command);
    let y = b.executing(t, name, command);
    lemma_bind(r, s, t, x, y, dispatching(b, s, which), dispatching(b, t, which));
}

/// `vpn lint`.
proof fn lemma_dispatching_lint(
    b: BackendView,
    s: SessionView,
    t: SessionView,
    name: Option<Seq<char>>,
)
    requires
        later(s, t),
    ensures
        dispatched(b, s, t, CommandView::Lint { name }),
{
    reveal(dispatching);
    let which = CommandView::Lint { name };
    let r = which.rule(b);
    lemma_linting(r, s, t, name);
    let x = b.linting(s, name);
    let y = b.linting(t, name);
    lemma_bind(r, s, t, x, y, dispatching(b, s, which), dispatching(b, t, which));
}

/// `vpn add`.
proof fn lemma_dispatching_add(
    b: BackendView,
    s: SessionView,
    t: SessionView,
    path: Seq<char>,
    name: Option<Seq<char>>,
    force: bool,
    allow_hooks: bool,
)
    requires
        later(s, t),
    ensures
        dispatched(b, s, t, CommandView::Add { path, name, force, allow_hooks }),
{
    reveal(dispatching);
    let which = CommandView::Add { path, name, force, allow_hooks };
    let r = which.rule(b);
    lemma_adding(r, s, t, path, name, force, allow_hooks);
    let x = b.adding(s, path, name, force, allow_hooks);
    let y = b.adding(t, path, name, force, allow_hooks);
    lemma_bind(r, s, t, x, y, dispatching(b, s, which), dispatching(b, t, which));
}

/// `vpn split`.
proof fn lemma_dispatching_split(
    b: BackendView,
    s: SessionView,
    t: SessionView,
    name: Seq<char>,
    exclude: Seq<Seq<char>>,
    output: Option<Seq<char>>,
    keep_dns: bool,
    force: bool,
)
    requires
        later(s, t),
    ensures
        dispatched(b, s, t, CommandView::Split { name, exclude, output, keep_dns, force }),
{
    reveal(dispatching);
    let which = CommandView::Split { name, exclude, output, keep_dns, force };
    let r = which.rule(b);
    lemma_splitting(r, s, t, name, exclude, output, keep_dns, force);
    let x = b.splitting(s, name, exclude, output, keep_dns, force);
    let y = b.splitting(t, name, exclude, output, keep_dns, force);
    lemma_bind(r, s, t, x, y, dispatching(b, s, which), dispatching(b, t, which));
}

/// `vpn doctor`.
proof fn lemma_dispatching_doctor(
    b: BackendView,
    s: SessionView,
    t: SessionView,
)
    requires
        later(s, t),
    ensures
        dispatched(b, s, t, CommandView::Doctor),
{
    reveal(dispatching);
    let which = CommandView::Doctor;
    let r = which.rule(b);
    lemma_diagnosing(r, s, t);
    let x = b.diagnosing(s);
    let y = b.diagnosing(t);
    lemma_bind(r, s, t, x, y, dispatching(b, s, which), dispatching(b, t, which));
}

/// `vpn recover`.
proof fn lemma_dispatching_recover(
    b: BackendView,
    s: SessionView,
    t: SessionView,
)
    requires
        later(s, t),
    ensures
        dispatched(b, s, t, CommandView::Recover),
{
    reveal(dispatching);
    let which = CommandView::Recover;
    let r = which.rule(b);
    lemma_recovering_and_verifying(r, s, t);
}

/// `vpn verify`.
proof fn lemma_dispatching_verify(
    b: BackendView,
    s: SessionView,
    t: SessionView,
)
    requires
        later(s, t),
    ensures
        dispatched(b, s, t, CommandView::Verify),
{
    reveal(dispatching);
    let which = CommandView::Verify;
    let r = which.rule(b);
    lemma_verifying(r, s, t);
    let x = b.verifying(s);
    let y = b.verifying(t);
    lemma_bind(r, s, t, x, y, dispatching(b, s, which), dispatching(b, t, which));
}

/// `vpn diff`.
proof fn lemma_dispatching_diff(
    b: BackendView,
    s: SessionView,
    t: SessionView,
    url: Seq<char>,
    name: Option<Seq<char>>,
    max_time: u64,
)
    requires
        later(s, t),
    ensures
        dispatched(b, s, t, CommandView::Diff { url, name, max_time }),
{
    reveal(dispatching);
    let which = CommandView::Diff { url, name, max_time };
    let r = which.rule(b);
    lemma_diffing(r, s, t, name, url, max_time);
    let x = b.diffing(s, name, url, max_time);
    let y = b.diffing(t, name, url, max_time);
    lemma_bind(r, s, t, x, y, dispatching(b, s, which), dispatching(b, t, which));
}

/// Executing a command.
proof fn lemma_dispatching(b: BackendView, s: SessionView, t: SessionView, command: CommandView)
    requires
        later(s, t),
    ensures
        steady(
            command.rule(b),
            s,
            t,
            dispatching(b, s, command),
            dispatching(b, t, command),
        ),
{
    assert(dispatched(b, s, t, command)) by {
        lemma_dispatched(b, s, t, command);
    }
}

/// Executing a command.
proof fn lemma_dispatched(b: BackendView, s: SessionView, t: SessionView, command: CommandView)
    requires
        later(s, t),
    ensures
        dispatched(b, s, t, command),
{
    match command {
        CommandView::List => {
            lemma_dispatching_list(b, s, t);
        },
        CommandView::Up { name, lease } => {
            lemma_dispatching_up(b, s, t, name, lease);
        },
        CommandView::Down { name } => {
            lemma_dispatching_down(b, s, t, name);
        },
        CommandView::Status { name } => {
            match name {
                Some(n) => {
                    lemma_dispatching_status_one(b, s, t, n);
                },
                None => {
                    lemma_dispatching_status_all(b, s, t);
                },
            }
        },
        CommandView::Current => {
            lemma_dispatching_current(b, s, t);
        },
        CommandView::Probe { name, url, max_time, count } => {
            lemma_dispatching_probe(b, s, t, name, url, max_time, count);
        },
        CommandView::Exec { name, command } => {
            lemma_dispatching_exec(b, s, t, name, command);
        },
        CommandView::Lint { name } => {
            lemma_dispatching_lint(b, s, t, name);
        },
        CommandView::Add { path, name, force, allow_hooks } => {
            lemma_dispatching_add(b, s, t, path, name, force, allow_hooks);
        },
        CommandView::Split { name, exclude, output, keep_dns, force } => {
            lemma_dispatching_split(b, s, t, name, exclude, output, keep_dns, force);
        },
        CommandView::Doctor => {
            lemma_dispatching_doctor(b, s, t);
        },
        CommandView::Recover => {
            lemma_dispatching_recover(b, s, t);
        },
        CommandView::Verify => {
            lemma_dispatching_verify(b, s, t);
        },
        CommandView::Diff { url, name, max_time } => {
            lemma_dispatching_diff(b, s, t, url, name, max_time);
        },
    }
}

/// Running a command against a backend.
proof fn lemma_commanding(b: BackendView, s: SessionView, t: SessionView, cli: CliView)
    requires
        later(s, t),
    ensures
        steady(cli.command.rule(b), s, t, commanding(s, b, cli), commanding(t, b, cli)),
{
    let r = cli.command.rule(b);
    let fx = commanding(s, b, cli);
    let fy = commanding(t, b, cli);
    if cli.command.mutates() {
        lemma_acquiring(r, s, t, b.config_dir);
        let x = lock::acquiring(s, b.config_dir);
        let y = lock::acquiring(t, b.config_dir);
        lemma_resumed(r, s, t, x, y);
        lemma_dispatching(b, resumed(x, y), y.0, cli.command);
        lemma_bind(r, s, t, x, y, fx, fy);
    } else {
        lemma_dispatching(b, s, t, cli.command);
    }
}

/// Emitting the outcome of a command.
proof fn lemma_concluding(
    r: Rule,
    s: SessionView,
    t: SessionView,
    outcome: Result<ReportView, ErrorView>,
    json: bool,
)
    requires
        later(s, t),
    ensures
        steady(r, s, t, concluding(s, outcome, json), concluding(t, outcome, json)),
{
    let fx = concluding(s, outcome, json);
    let fy = concluding(t, outcome, json);
    lemma_finished(r, s, t, fx, fy);
    match outcome {
        Ok(report) => {
            if !(report is Exec) && json {
                let write = ActionView::EncodeReport(report);
                lemma_encode(r, s, t, write);
                lemma_bind(r, s, t, s.encode(write), t.encode(write), fx, fy);
            }
        },
        Err(_) => {},
    }
}

/// Running a parsed command line.
proof fn lemma_executing_cli(b: BackendView, s: SessionView, t: SessionView, cli: CliView)
    requires
        later(s, t),
        settings::loading(t, cli.resolved_config_dir()).1 matches Some(Ok(file)) ==> b
            == backend_of(cli.settings(file)),
    ensures
        steady(cli.command.rule(b), s, t, executing(s, cli), executing(t, cli)),
{
    let r = cli.command.rule(b);
    let fx = executing(s, cli);
    let fy = executing(t, cli);
    let dir = cli.resolved_config_dir();
    lemma_loading(r, s, t, dir);
    let x1 = settings::loading(s, dir);
    let y1 = settings::loading(t, dir);
    let s1 = resumed(x1, y1);
    lemma_resumed(r, s, t, x1, y1);
    let f1 = if x1.1 is Some {
        fx
    } else {
        fy
    };
    match y1.1 {
        Some(Ok(_)) => {
            lemma_commanding(b, s1, y1.0, cli);
            let x2 = commanding(s1, b, cli);
            let y2 = commanding(y1.0, b, cli);
            lemma_resumed(r, s1, y1.0, x2, y2);
            match y2.1 {
                Some(done) => {
                    lemma_concluding(r, resumed(x2, y2), y2.0, done, cli.json);
                },
                None => {},
            }
            lemma_bind(r, s1, y1.0, x2, y2, f1, fy);
        },
        _ => {},
    }
    lemma_bind(r, s, t, x1, y1, fx, fy);
}

/// Replaying: run again with the same or more replies, the tool has the same
/// result where it had one; and where it stopped for want of a reply, it asks
/// for the same actions again, in the same order, before it goes on.
pub proof fn law_replay(s: SessionView, t: SessionView, cli: CliView)
    requires
        later(s, t),
    ensures
        repeats(executing(s, cli), executing(t, cli)),
{
    let b = match settings::loading(t, cli.resolved_config_dir()).1 {
        Some(Ok(file)) => backend_of(cli.settings(file)),
        _ => BackendView::new(Seq::empty(), false),
    };
    lemma_executing_cli(b, s, t, cli);
}

/// The tool stops without a result only where what it asked for last has no
/// fitting reply.
pub proof fn law_stops_for_a_reply(s: SessionView, cli: CliView)
    ensures
        executing(s, cli).1 is None ==> unanswered(executing(s, cli).0),
{
    lemma_same(s);
    let b = match settings::loading(s, cli.resolved_config_dir()).1 {
        Some(Ok(file)) => backend_of(cli.settings(file)),
        _ => BackendView::new(Seq::empty(), false),
    };
    lemma_executing_cli(b, s, s, cli);
}

/// Whatever the replies, a command asks only for what its rule allows, on top of
/// what had been asked for before.
pub proof fn law_asks_by_rule(s: SessionView, cli: CliView, b: BackendView)
    requires
        settings::loading(s, cli.resolved_config_dir()).1 matches Some(Ok(file)) ==> b
            == backend_of(cli.settings(file)),
    ensures
        extends(cli.command.rule(b), s, executing(s, cli).0),
{
    lemma_same(s);
    lemma_executing_cli(b, s, s, cli);
}

/// Commands that may change tunnels or configs do not run at the same time:
/// whatever the replies, such a command first reads the settings, then makes
/// sure that the config directory is there and takes the lock; it asks for
/// anything else only where the lock was granted.
pub proof fn law_locks_first(s: SessionView, cli: CliView)
    requires
        cli.command.mutates(),
    ensures
        ({
            let dir = cli.resolved_config_dir();
            let start = s.asked.len() as int;
            let end = executing(s, cli).0;
            let first = seq![
                ActionView::ReadFile(config::path_in(dir, "config.toml"@)),
                ActionView::CreateDir(dir),
                ActionView::Lock(config::path_in(dir, lock::LOCK_FILE@)),
            ];
            &&& start < end.asked.len()
            &&& forall|i: int|
                start <= i < end.asked.len() && i < start + 3 ==> #[trigger] end.asked[i]
                    == first[i - start]
            &&& end.asked.len() > start + 3 ==> {
                &&& end.replies.len() > start + 2
                &&& end.replies[start + 2] matches ReplyView::Finished(Ok(_))
            }
        }),
{
    let dir = cli.resolved_config_dir();
    let (s1, loaded) = settings::loading(s, dir);
    assert(s1.asked == s.asked.push(ActionView::ReadFile(config::path_in(dir, "config.toml"@))));
    if let Some(Ok(file)) = loaded {
        let b = backend_of(cli.settings(file));
        let r = cli.command.rule(b);
        let (s2, locked) = lock::acquiring(s1, dir);
        if let Some(Ok(_)) = locked {
            lemma_same(s2);
            lemma_dispatching(b, s2, s2, cli.command);
            let (s3, done) = dispatching(b, s2, cli.command);
            if let Some(outcome) = done {
                lemma_same(s3);
                lemma_concluding(r, s3, s3, outcome, cli.json);
            }
            reveal(extends);
        }
    }
}

/// `list`, `status`, `current`, `lint`, `doctor` and `verify` are read-only:
/// they change no file, run nothing on behalf of the user, and run only programs
/// that look at the state of the machine.
pub proof fn law_read_only(command: CommandView, b: BackendView, a: ActionView)
    requires
        !command.mutates(),
        command.rule(b).allows(a),
    ensures
        !(a is CreateDir || a is WriteFile || a is Restrict || a is Rename || a is RemoveFile
            || a is Lock || a is TryLock || a is RunPassthrough),
        a matches ActionView::Run { program, args } ==> looks(b, program, args),
{
}

/// `lint`, `add` and `split` run no programs at all.
pub proof fn law_files_only(command: CommandView, b: BackendView, a: ActionView)
    requires
        command is Lint || command is Add || command is Split,
        command.rule(b).allows(a),
    ensures
        !(a is Run || a is RunPassthrough),
{
}

/// `sudo` is used only where it is configured, never prompts (`-n`), and runs
/// nothing but `wg` and `wg-quick`: `curl`, `networksetup` and `route` never run
/// privileged. (Where one of the configured programs is itself called `sudo`,
/// that says nothing.)
pub proof fn law_sudo_never_prompts(r: Rule, args: Seq<Seq<char>>)
    requires
        r.runs("sudo"@, args),
        r.b.wg != "sudo"@,
        r.b.wg_quick != "sudo"@,
        r.b.curl != "sudo"@,
    ensures
        r.b.sudo,
        args.len() >= 2,
        args[0] == "-n"@,
        args[1] == r.b.wg || args[1] == r.b.wg_quick,
{
    reveal_strlit("sudo");
    reveal_strlit("networksetup");
    reveal_strlit("route");
    assert("sudo"@.len() != NETWORKSETUP@.len());
    assert("sudo"@.len() != crate::backend::recovery::ROUTE@.len());
}

} // verus!
