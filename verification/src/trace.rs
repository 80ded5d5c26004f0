//! What operations ask for.
//!
//! An operation runs against a [`Session`](crate::session::Session): it asks for
//! actions, one after the other, and goes by the replies. The lemmas here say of
//! each operation what it may ask for, that it stops only for want of a fitting
//! reply, and that with more replies it asks for the same actions again before
//! it goes on. They are brought together in [`crate::laws`].
use vstd::prelude::*;

use crate::backend::recovery::ROUTE;
use crate::backend::{full_command, BackendView};
use crate::config;
use crate::dns;
use crate::dns::{GuardOutcomeView, NETWORKSETUP};
use crate::lock;
use crate::order;
use crate::session::{ActionView, DirListingView, FileTextView, ReplyView, SessionView, Step};
use crate::settings;
use crate::state;
use crate::state::{JournalView, Snapshot};

verus! {

// ---------------------------------------------------------------------------
// What may be asked for
// ---------------------------------------------------------------------------

/// What an operation may ask for.
pub struct Rule {
    /// The backend that the operation belongs to.
    pub b: BackendView,
    /// Whether it may only look, and not change anything.
    pub reading: bool,
    /// Whether it may run programs.
    pub running: bool,
    /// Whether it may bring tunnels up or down.
    pub tunnels: bool,
}

/// Whether a program only looks at the state of the machine: `wg show all dump`
/// (the only one that may need privileges), the questions of `networksetup` and
/// `route`, and the version checks.
pub open spec fn looks(b: BackendView, program: Seq<char>, args: Seq<Seq<char>>) -> bool {
    ||| (program, args) == full_command(b.sudo, b.wg, seq!["show"@, "all"@, "dump"@])
    ||| program == NETWORKSETUP@ && args.len() > 0 && (args[0] == "-listallnetworkservices"@
        || args[0] == "-getdnsservers"@)
    ||| program == ROUTE@ && args == seq!["-n"@, "get"@, "default"@]
    ||| (program == b.wg || program == b.curl) && args == seq!["--version"@]
    ||| program == b.wg_quick && args.len() == 0
    ||| b.sudo && program == "sudo"@ && args == seq!["-n"@, b.wg, "--version"@]
}

/// Whether a text is one of the two verbs of `wg-quick`.
pub open spec fn quick_verb(verb: Seq<char>) -> bool {
    verb == "up"@ || verb == "down"@
}

/// Whether a program brings a tunnel up or down: `wg-quick` with one of its two
/// verbs, with `sudo -n` where so configured.
pub open spec fn switches(b: BackendView, program: Seq<char>, args: Seq<Seq<char>>) -> bool {
    args.len() >= 2 && quick_verb(args[args.len() - 2]) && (program, args) == full_command(
        b.sudo,
        b.wg_quick,
        args.skip(args.len() - 2),
    )
}

/// Whether a program is one of the others that operations act by, none of them
/// privileged: `curl` and the setting of DNS servers.
pub open spec fn acts(b: BackendView, program: Seq<char>, args: Seq<Seq<char>>) -> bool {
    ||| program == NETWORKSETUP@ && args.len() > 0 && args[0] == "-setdnsservers"@
    ||| program == b.curl
}

impl Rule {
    /// Whether a program may be run.
    pub open spec fn runs(self, program: Seq<char>, args: Seq<Seq<char>>) -> bool {
        self.running && (looks(self.b, program, args) || (!self.reading && (acts(
            self.b,
            program,
            args,
        ) || (self.tunnels && switches(self.b, program, args)))))
    }

    /// Whether an action may be asked for.
    pub open spec fn allows(self, a: ActionView) -> bool {
        match a {
            ActionView::Run { program, args } => self.runs(program, args),
            ActionView::RunPassthrough { .. } => self.running && !self.reading,
            ActionView::CreateDir(_) => !self.reading,
            ActionView::WriteFile { .. } => !self.reading,
            ActionView::Restrict { .. } => !self.reading,
            ActionView::Rename { .. } => !self.reading,
            ActionView::RemoveFile(_) => !self.reading,
            ActionView::Lock(_) => !self.reading,
            ActionView::TryLock(_) => !self.reading,
            _ => true,
        }
    }
}

// ---------------------------------------------------------------------------
// How an operation goes on
// ---------------------------------------------------------------------------

/// Whether a reply is one to the action.
pub open spec fn fits(reply: ReplyView, a: ActionView) -> bool {
    match a {
        ActionView::Run { .. } => reply is Ran,
        ActionView::RunPassthrough { .. } => reply is Exited,
        ActionView::Sleep(_) => reply is Slept,
        ActionView::Now => reply is Time,
        ActionView::ListDir(_) => reply is Listing,
        ActionView::ReadFile(_) => reply is Contents,
        ActionView::IsFile(_) => reply is Flag,
        ActionView::Exists(_) => reply is Flag,
        ActionView::FileMode(_) => reply is Mode,
        ActionView::CreateDir(_) => reply is Finished,
        ActionView::WriteFile { .. } => reply is Finished,
        ActionView::Restrict { .. } => reply is Finished,
        ActionView::Rename { .. } => reply is Finished,
        ActionView::RemoveFile(_) => reply is Removed,
        ActionView::Lock(_) => reply is Finished,
        ActionView::TryLock(_) => reply is Taken,
        ActionView::ParseSeconds(_) => reply is Seconds,
        ActionView::EncodeJournal(_) => reply is Json,
        ActionView::DecodeJournal(_) => reply is Decoded,
        ActionView::EncodeReport(_) => reply is Json,
    }
}

/// Whether what was asked for last has no fitting reply.
#[verifier::opaque]
pub open spec fn unanswered(s: SessionView) -> bool {
    &&& s.asked.len() > 0
    &&& s.asked.len() <= s.replies.len() ==> !fits(
        s.replies[s.asked.len() - 1],
        s.asked.last(),
    )
}

/// Whether `t` comes of `s` by asking for actions that the rule allows.
#[verifier::opaque]
pub open spec fn extends(r: Rule, s: SessionView, t: SessionView) -> bool {
    &&& t.replies == s.replies
    &&& s.asked.len() <= t.asked.len()
    &&& forall|i: int| 0 <= i < s.asked.len() ==> #[trigger] t.asked[i] == s.asked[i]
    &&& forall|i: int| s.asked.len() <= i < t.asked.len() ==> r.allows(#[trigger] t.asked[i])
}

/// Whether a step asks for what the rule allows, and is stopped only by an
/// action without a fitting reply.
pub open spec fn sound<T>(r: Rule, s: SessionView, x: Step<T>) -> bool {
    &&& extends(r, s, x.0)
    &&& x.1 is None ==> unanswered(x.0)
}

/// Whether `t` is `s` with the same or more replies.
#[verifier::opaque]
pub open spec fn later(s: SessionView, t: SessionView) -> bool {
    &&& s.asked == t.asked
    &&& s.replies.len() <= t.replies.len()
    &&& forall|i: int| 0 <= i < s.replies.len() ==> #[trigger] t.replies[i] == s.replies[i]
}

/// Whether what `t` has asked for begins with what `s` has asked for.
#[verifier::opaque]
pub open spec fn asks_on(s: SessionView, t: SessionView) -> bool {
    &&& s.asked.len() <= t.asked.len()
    &&& forall|i: int| 0 <= i < s.asked.len() ==> #[trigger] t.asked[i] == s.asked[i]
}

/// Whether the step `y`, made with the same or more replies, repeats the step
/// `x`: it has the same result where `x` has one, and else asks for the same
/// actions first.
pub open spec fn repeats<T>(x: Step<T>, y: Step<T>) -> bool {
    match x.1 {
        Some(v) => y.1 == Some(v) && later(x.0, y.0),
        None => asks_on(x.0, y.0),
    }
}

/// All of the above, of a step made twice.
pub open spec fn steady<T>(
    r: Rule,
    s: SessionView,
    t: SessionView,
    x: Step<T>,
    y: Step<T>,
) -> bool {
    &&& sound(r, s, x)
    &&& sound(r, t, y)
    &&& repeats(x, y)
}

/// Whether both of two steps only hand on the same result.
pub open spec fn finished<T>(s: SessionView, t: SessionView, x: Step<T>, y: Step<T>) -> bool {
    x.0 == s && y.0 == t && x.1 is Some && x.1 == y.1
}

/// The session that goes on beside the second of two steps: that of the first,
/// where it has a result.
pub open spec fn resumed<T>(x: Step<T>, y: Step<T>) -> SessionView {
    if x.1 is Some {
        x.0
    } else {
        y.0
    }
}

/// A session is the same as itself.
pub proof fn lemma_same(s: SessionView)
    ensures
        later(s, s),
{
    reveal(later);
}

/// What goes on goes on with the same or more replies.
pub proof fn lemma_resumed<T>(
    r: Rule,
    s: SessionView,
    t: SessionView,
    x: Step<T>,
    y: Step<T>,
)
    requires
        steady(r, s, t, x, y),
    ensures
        later(resumed(x, y), y.0),
{
    reveal(later);
    reveal(asks_on);
}

/// Handing on the same result asks for nothing.
pub proof fn lemma_finished<T>(
    r: Rule,
    s: SessionView,
    t: SessionView,
    x: Step<T>,
    y: Step<T>,
)
    requires
        later(s, t),
    ensures
        finished(s, t, x, y) ==> steady(r, s, t, x, y),
{
    reveal(extends);
    reveal(asks_on);
}

/// A step, `x` and `y`, followed by the rest of an operation, whose outcome is
/// `fx` and `fy`.
pub proof fn lemma_bind<T, U>(
    r: Rule,
    s: SessionView,
    t: SessionView,
    x: Step<T>,
    y: Step<T>,
    fx: Step<U>,
    fy: Step<U>,
)
    requires
        steady(r, s, t, x, y),
        x.1 is None ==> fx.0 == x.0 && fx.1 is None,
        y.1 is None ==> fy.0 == y.0 && fy.1 is None,
        y.1 is Some ==> ({
            let u = resumed(x, y);
            let fu = if x.1 is Some {
                fx
            } else {
                fy
            };
            steady(r, u, y.0, fu, fy) || finished(u, y.0, fu, fy)
        }),
    ensures
        steady(r, s, t, fx, fy),
{
    reveal(extends);
    reveal(later);
    reveal(asks_on);
    reveal(unanswered);
}

// ---------------------------------------------------------------------------
// Single actions
// ---------------------------------------------------------------------------

/// Running a program.
pub proof fn lemma_run(
    r: Rule,
    s: SessionView,
    t: SessionView,
    program: Seq<char>,
    args: Seq<Seq<char>>,
)
    requires
        later(s, t),
        r.running,
        r.runs(program, args),
    ensures
        steady(r, s, t, s.run(program, args), t.run(program, args)),
{
    reveal(extends);
    reveal(later);
    reveal(asks_on);
    reveal(unanswered);
}

/// Running a program with the standard input and output of the caller.
pub proof fn lemma_run_passthrough(
    r: Rule,
    s: SessionView,
    t: SessionView,
    program: Seq<char>,
    args: Seq<Seq<char>>,
)
    requires
        later(s, t),
        r.running,
        !r.reading,
    ensures
        steady(r, s, t, s.run_passthrough(program, args), t.run_passthrough(program, args)),
{
    reveal(extends);
    reveal(later);
    reveal(asks_on);
    reveal(unanswered);
}

/// Waiting.
pub proof fn lemma_sleep(r: Rule, s: SessionView, t: SessionView, ms: u64)
    requires
        later(s, t),
    ensures
        steady(r, s, t, s.sleep(ms), t.sleep(ms)),
{
    reveal(extends);
    reveal(later);
    reveal(asks_on);
    reveal(unanswered);
}

/// Reading the clock.
pub proof fn lemma_now(r: Rule, s: SessionView, t: SessionView)
    requires
        later(s, t),
    ensures
        steady(r, s, t, s.now(), t.now()),
{
    reveal(extends);
    reveal(later);
    reveal(asks_on);
    reveal(unanswered);
}

/// Listing a directory.
pub proof fn lemma_list_dir(r: Rule, s: SessionView, t: SessionView, path: Seq<char>)
    requires
        later(s, t),
    ensures
        steady(r, s, t, s.list_dir(path), t.list_dir(path)),
{
    reveal(extends);
    reveal(later);
    reveal(asks_on);
    reveal(unanswered);
}

/// Reading a file.
pub proof fn lemma_read_file(r: Rule, s: SessionView, t: SessionView, path: Seq<char>)
    requires
        later(s, t),
    ensures
        steady(r, s, t, s.read_file(path), t.read_file(path)),
{
    reveal(extends);
    reveal(later);
    reveal(asks_on);
    reveal(unanswered);
}

/// Asking whether a path is a regular file.
pub proof fn lemma_is_file(r: Rule, s: SessionView, t: SessionView, path: Seq<char>)
    requires
        later(s, t),
    ensures
        steady(r, s, t, s.is_file(path), t.is_file(path)),
{
    reveal(extends);
    reveal(later);
    reveal(asks_on);
    reveal(unanswered);
}

/// Asking whether a path exists.
pub proof fn lemma_exists_path(r: Rule, s: SessionView, t: SessionView, path: Seq<char>)
    requires
        later(s, t),
    ensures
        steady(r, s, t, s.exists_path(path), t.exists_path(path)),
{
    reveal(extends);
    reveal(later);
    reveal(asks_on);
    reveal(unanswered);
}

/// Reading permission bits.
pub proof fn lemma_file_mode(r: Rule, s: SessionView, t: SessionView, path: Seq<char>)
    requires
        later(s, t),
    ensures
        steady(r, s, t, s.file_mode(path), t.file_mode(path)),
{
    reveal(extends);
    reveal(later);
    reveal(asks_on);
    reveal(unanswered);
}

/// Removing a file.
pub proof fn lemma_remove_file(r: Rule, s: SessionView, t: SessionView, path: Seq<char>)
    requires
        later(s, t),
        !r.reading,
    ensures
        steady(r, s, t, s.remove_file(path), t.remove_file(path)),
{
    reveal(extends);
    reveal(later);
    reveal(asks_on);
    reveal(unanswered);
}

/// Reading numbers of seconds.
pub proof fn lemma_parse_seconds(r: Rule, s: SessionView, t: SessionView, texts: Seq<Seq<char>>)
    requires
        later(s, t),
    ensures
        steady(r, s, t, s.parse_seconds(texts), t.parse_seconds(texts)),
{
    reveal(extends);
    reveal(later);
    reveal(asks_on);
    reveal(unanswered);
}

/// Reading a journal.
pub proof fn lemma_decode_journal(r: Rule, s: SessionView, t: SessionView, json: Seq<char>)
    requires
        later(s, t),
    ensures
        steady(r, s, t, s.decode_journal(json), t.decode_journal(json)),
{
    reveal(extends);
    reveal(later);
    reveal(asks_on);
    reveal(unanswered);
}

/// Changing the file system.
pub proof fn lemma_change(r: Rule, s: SessionView, t: SessionView, a: ActionView)
    requires
        later(s, t),
        !r.reading,
        a is CreateDir || a is WriteFile || a is Restrict || a is Rename || a is Lock,
    ensures
        steady(r, s, t, s.change(a), t.change(a)),
{
    reveal(extends);
    reveal(later);
    reveal(asks_on);
    reveal(unanswered);
}

/// Writing JSON.
pub proof fn lemma_encode(r: Rule, s: SessionView, t: SessionView, a: ActionView)
    requires
        later(s, t),
        a is EncodeJournal || a is EncodeReport,
    ensures
        steady(r, s, t, s.encode(a), t.encode(a)),
{
    reveal(extends);
    reveal(later);
    reveal(asks_on);
    reveal(unanswered);
}

// ---------------------------------------------------------------------------
// Config files and settings
// ---------------------------------------------------------------------------

/// Listing the tunnels.
pub proof fn lemma_discovering(r: Rule, s: SessionView, t: SessionView, dir: Seq<char>)
    requires
        later(s, t),
    ensures
        steady(r, s, t, config::discovering(s, dir), config::discovering(t, dir)),
{
    let fx = config::discovering(s, dir);
    let fy = config::discovering(t, dir);
    lemma_list_dir(r, s, t, dir);
    let x1 = s.list_dir(dir);
    let y1 = t.list_dir(dir);
    lemma_bind(r, s, t, x1, y1, fx, fy);
    lemma_finished(r, s, t, fx, fy);
}

/// Finding a tunnel.
pub proof fn lemma_resolving(
    r: Rule,
    s: SessionView,
    t: SessionView,
    dir: Seq<char>,
    name: Seq<char>,
)
    requires
        later(s, t),
    ensures
        steady(r, s, t, config::resolving(s, dir, name), config::resolving(t, dir, name)),
{
    let fx = config::resolving(s, dir, name);
    let fy = config::resolving(t, dir, name);
    if config::valid_name(name) {
        lemma_is_file(r, s, t, config::conf_path(dir, name));
        let x1 = s.is_file(config::conf_path(dir, name));
        let y1 = t.is_file(config::conf_path(dir, name));
        lemma_bind(r, s, t, x1, y1, fx, fy);
    }
    lemma_finished(r, s, t, fx, fy);
}

/// Reading a config.
pub proof fn lemma_reading_conf(r: Rule, s: SessionView, t: SessionView, path: Seq<char>)
    requires
        later(s, t),
    ensures
        steady(r, s, t, config::reading_conf(s, path), config::reading_conf(t, path)),
{
    let fx = config::reading_conf(s, path);
    let fy = config::reading_conf(t, path);
    lemma_read_file(r, s, t, path);
    let x1 = s.read_file(path);
    let y1 = t.read_file(path);
    lemma_bind(r, s, t, x1, y1, fx, fy);
    lemma_finished(r, s, t, fx, fy);
}

/// Reading the peer identity of a config.
pub proof fn lemma_identifying(r: Rule, s: SessionView, t: SessionView, path: Seq<char>)
    requires
        later(s, t),
    ensures
        steady(r, s, t, config::identifying(s, path), config::identifying(t, path)),
{
    let fx = config::identifying(s, path);
    let fy = config::identifying(t, path);
    lemma_reading_conf(r, s, t, path);
    let x1 = config::reading_conf(s, path);
    let y1 = config::reading_conf(t, path);
    lemma_bind(r, s, t, x1, y1, fx, fy);
    lemma_finished(r, s, t, fx, fy);
}

/// Reading the summary of a config.
pub proof fn lemma_summarizing(r: Rule, s: SessionView, t: SessionView, path: Seq<char>)
    requires
        later(s, t),
    ensures
        steady(r, s, t, config::summarizing(s, path), config::summarizing(t, path)),
{
    let fx = config::summarizing(s, path);
    let fy = config::summarizing(t, path);
    lemma_reading_conf(r, s, t, path);
    let x1 = config::reading_conf(s, path);
    let y1 = config::reading_conf(t, path);
    lemma_bind(r, s, t, x1, y1, fx, fy);
    lemma_finished(r, s, t, fx, fy);
}

/// Loading the settings file.
pub proof fn lemma_loading(r: Rule, s: SessionView, t: SessionView, dir: Seq<char>)
    requires
        later(s, t),
    ensures
        steady(r, s, t, settings::loading(s, dir), settings::loading(t, dir)),
{
    let fx = settings::loading(s, dir);
    let fy = settings::loading(t, dir);
    lemma_read_file(r, s, t, config::path_in(dir, "config.toml"@));
    let x1 = s.read_file(config::path_in(dir, "config.toml"@));
    let y1 = t.read_file(config::path_in(dir, "config.toml"@));
    lemma_bind(r, s, t, x1, y1, fx, fy);
    lemma_finished(r, s, t, fx, fy);
}

/// Taking the lock.
pub proof fn lemma_acquiring(r: Rule, s: SessionView, t: SessionView, dir: Seq<char>)
    requires
        later(s, t),
        !r.reading,
    ensures
        steady(r, s, t, lock::acquiring(s, dir), lock::acquiring(t, dir)),
{
    let fx = lock::acquiring(s, dir);
    let fy = lock::acquiring(t, dir);
    let file = config::path_in(dir, lock::LOCK_FILE@);
    lemma_change(r, s, t, ActionView::CreateDir(dir));
    let x1 = s.change(ActionView::CreateDir(dir));
    let y1 = t.change(ActionView::CreateDir(dir));
    let s1 = resumed(x1, y1);
    lemma_resumed(r, s, t, x1, y1);
    let f1 = if x1.1 is Some {
        fx
    } else {
        fy
    };
    match y1.1 {
        Some(Ok(_)) => {
            lemma_change(r, s1, y1.0, ActionView::Lock(file));
            let x2 = s1.change(ActionView::Lock(file));
            let y2 = y1.0.change(ActionView::Lock(file));
            lemma_bind(r, s1, y1.0, x2, y2, f1, fy);
        },
        _ => {},
    }
    lemma_bind(r, s, t, x1, y1, fx, fy);
    lemma_finished(r, s, t, fx, fy);
}

// ---------------------------------------------------------------------------
// Journals
// ---------------------------------------------------------------------------

/// Writing a journal.
pub proof fn lemma_writing(
    r: Rule,
    s: SessionView,
    t: SessionView,
    config_dir: Seq<char>,
    journal: JournalView,
)
    requires
        later(s, t),
        !r.reading,
    ensures
        steady(
            r,
            s,
            t,
            state::writing(s, config_dir, journal),
            state::writing(t, config_dir, journal),
        ),
{
    let fx = state::writing(s, config_dir, journal);
    let fy = state::writing(t, config_dir, journal);
    let dir = state::state_dir(config_dir);
    let draft = state::draft_path(config_dir, journal.tunnel);
    let dest = state::journal_path(config_dir, journal.tunnel);
    let private_dir = ActionView::Restrict { path: dir, mode: 0o700 };
    let private_draft = ActionView::Restrict { path: draft, mode: 0o600 };
    let rename = ActionView::Rename { from: draft, to: dest };
    lemma_change(r, s, t, ActionView::CreateDir(dir));
    let x1 = s.change(ActionView::CreateDir(dir));
    let y1 = t.change(ActionView::CreateDir(dir));
    let s1 = resumed(x1, y1);
    lemma_resumed(r, s, t, x1, y1);
    let f1 = if x1.1 is Some {
        fx
    } else {
        fy
    };
    match y1.1 {
        Some(Ok(_)) => {
            lemma_change(r, s1, y1.0, private_dir);
            let x2 = s1.change(private_dir);
            let y2 = y1.0.change(private_dir);
            let s2 = resumed(x2, y2);
            lemma_resumed(r, s1, y1.0, x2, y2);
            let f2 = if x2.1 is Some {
                f1
            } else {
                fy
            };
            match y2.1 {
                Some(_) => {
                    lemma_encode(r, s2, y2.0, ActionView::EncodeJournal(journal));
                    let x3 = s2.encode(ActionView::EncodeJournal(journal));
                    let y3 = y2.0.encode(ActionView::EncodeJournal(journal));
                    let s3 = resumed(x3, y3);
                    lemma_resumed(r, s2, y2.0, x3, y3);
                    let f3 = if x3.1 is Some {
                        f2
                    } else {
                        fy
                    };
                    match y3.1 {
                        Some(contents) => {
                            let write = ActionView::WriteFile { path: draft, contents };
                            lemma_change(r, s3, y3.0, write);
                            let x4 = s3.change(write);
                            let y4 = y3.0.change(write);
                            let s4 = resumed(x4, y4);
                            lemma_resumed(r, s3, y3.0, x4, y4);
                            let f4 = if x4.1 is Some {
                                f3
                            } else {
                                fy
                            };
                            match y4.1 {
                                Some(Ok(_)) => {
                                    lemma_change(r, s4, y4.0, private_draft);
                                    let x5 = s4.change(private_draft);
                                    let y5 = y4.0.change(private_draft);
                                    let s5 = resumed(x5, y5);
                                    lemma_resumed(r, s4, y4.0, x5, y5);
                                    let f5 = if x5.1 is Some {
                                        f4
                                    } else {
                                        fy
                                    };
                                    match y5.1 {
                                        Some(_) => {
                                            lemma_change(r, s5, y5.0, rename);
                                            let x6 = s5.change(rename);
                                            let y6 = y5.0.change(rename);
                                            lemma_bind(r, s5, y5.0, x6, y6, f5, fy);
                                        },
                                        None => {},
                                    }
                                    lemma_bind(r, s4, y4.0, x5, y5, f4, fy);
                                },
                                _ => {},
                            }
                            lemma_bind(r, s3, y3.0, x4, y4, f3, fy);
                        },
                        None => {},
                    }
                    lemma_bind(r, s2, y2.0, x3, y3, f2, fy);
                },
                None => {},
            }
            lemma_bind(r, s1, y1.0, x2, y2, f1, fy);
        },
        _ => {},
    }
    lemma_bind(r, s, t, x1, y1, fx, fy);
    lemma_finished(r, s, t, fx, fy);
}

/// Reading the journal in a file.
pub proof fn lemma_reading_file(r: Rule, s: SessionView, t: SessionView, path: Seq<char>)
    requires
        later(s, t),
    ensures
        steady(r, s, t, state::reading_file(s, path), state::reading_file(t, path)),
{
    let fx = state::reading_file(s, path);
    let fy = state::reading_file(t, path);
    lemma_read_file(r, s, t, path);
    let x1 = s.read_file(path);
    let y1 = t.read_file(path);
    let s1 = resumed(x1, y1);
    lemma_resumed(r, s, t, x1, y1);
    let f1 = if x1.1 is Some {
        fx
    } else {
        fy
    };
    match y1.1 {
        Some(FileTextView::Text(json)) => {
            lemma_decode_journal(r, s1, y1.0, json);
            let x2 = s1.decode_journal(json);
            let y2 = y1.0.decode_journal(json);
            lemma_bind(r, s1, y1.0, x2, y2, f1, fy);
        },
        _ => {},
    }
    lemma_bind(r, s, t, x1, y1, fx, fy);
    lemma_finished(r, s, t, fx, fy);
}

/// Reading the journal of a tunnel.
pub proof fn lemma_reading(
    r: Rule,
    s: SessionView,
    t: SessionView,
    dir: Seq<char>,
    tunnel: Seq<char>,
)
    requires
        later(s, t),
    ensures
        steady(r, s, t, state::reading(s, dir, tunnel), state::reading(t, dir, tunnel)),
{
    let fx = state::reading(s, dir, tunnel);
    let fy = state::reading(t, dir, tunnel);
    lemma_reading_file(r, s, t, state::journal_path(dir, tunnel));
    let x1 = state::reading_file(s, state::journal_path(dir, tunnel));
    let y1 = state::reading_file(t, state::journal_path(dir, tunnel));
    lemma_bind(r, s, t, x1, y1, fx, fy);
    lemma_finished(r, s, t, fx, fy);
}

/// Reading the journals in files.
pub proof fn lemma_reading_from(
    r: Rule,
    s: SessionView,
    t: SessionView,
    dir: Seq<char>,
    files: Seq<Seq<char>>,
    i: int,
    found: Seq<JournalView>,
)
    requires
        later(s, t),
    ensures
        steady(
            r,
            s,
            t,
            state::reading_from(s, dir, files, i, found),
            state::reading_from(t, dir, files, i, found),
        ),
    decreases files.len() - i,
{
    let fx = state::reading_from(s, dir, files, i, found);
    let fy = state::reading_from(t, dir, files, i, found);
    if i < files.len() {
        if !state::is_journal_file(files[i]) {
            lemma_reading_from(r, s, t, dir, files, i + 1, found);
            let x1 = state::reading_from(s, dir, files, i + 1, found);
            let y1 = state::reading_from(t, dir, files, i + 1, found);
            lemma_bind(r, s, t, x1, y1, fx, fy);
        } else {
            lemma_reading_file(r, s, t, config::path_in(dir, files[i]));
            let x1 = state::reading_file(s, config::path_in(dir, files[i]));
            let y1 = state::reading_file(t, config::path_in(dir, files[i]));
            let s1 = resumed(x1, y1);
            lemma_resumed(r, s, t, x1, y1);
            let f1 = if x1.1 is Some {
                fx
            } else {
                fy
            };
            match y1.1 {
                Some(journal) => {
                    match journal {
                        Some(j) => {
                            lemma_reading_from(r, s1, y1.0, dir, files, i + 1, found.push(j));
                            let x2 = state::reading_from(s1, dir, files, i + 1, found.push(j));
                            let y2 = state::reading_from(y1.0, dir, files, i + 1, found.push(j));
                            lemma_bind(r, s1, y1.0, x2, y2, f1, fy);
                        },
                        None => {
                            lemma_reading_from(r, s1, y1.0, dir, files, i + 1, found);
                            let x2 = state::reading_from(s1, dir, files, i + 1, found);
                            let y2 = state::reading_from(y1.0, dir, files, i + 1, found);
                            lemma_bind(r, s1, y1.0, x2, y2, f1, fy);
                        },
                    }
                },
                None => {},
            }
            lemma_bind(r, s, t, x1, y1, fx, fy);
        }
    }
    lemma_finished(r, s, t, fx, fy);
}

/// Reading all journals.
pub proof fn lemma_reading_all(r: Rule, s: SessionView, t: SessionView, config_dir: Seq<char>)
    requires
        later(s, t),
    ensures
        steady(r, s, t, state::reading_all(s, config_dir), state::reading_all(t, config_dir)),
{
    let fx = state::reading_all(s, config_dir);
    let fy = state::reading_all(t, config_dir);
    let dir = state::state_dir(config_dir);
    lemma_list_dir(r, s, t, dir);
    let x1 = s.list_dir(dir);
    let y1 = t.list_dir(dir);
    let s1 = resumed(x1, y1);
    lemma_resumed(r, s, t, x1, y1);
    let f1 = if x1.1 is Some {
        fx
    } else {
        fy
    };
    match y1.1 {
        Some(DirListingView::Files(files)) => {
            lemma_reading_from(r, s1, y1.0, dir, files, 0, Seq::empty());
            let x2 = state::reading_from(s1, dir, files, 0, Seq::empty());
            let y2 = state::reading_from(y1.0, dir, files, 0, Seq::empty());
            lemma_bind(r, s1, y1.0, x2, y2, f1, fy);
        },
        Some(DirListingView::Partial { files, .. }) => {
            lemma_reading_from(r, s1, y1.0, dir, files, 0, Seq::empty());
            let x2 = state::reading_from(s1, dir, files, 0, Seq::empty());
            let y2 = state::reading_from(y1.0, dir, files, 0, Seq::empty());
            lemma_bind(r, s1, y1.0, x2, y2, f1, fy);
        },
        _ => {},
    }
    lemma_bind(r, s, t, x1, y1, fx, fy);
    lemma_finished(r, s, t, fx, fy);
}

/// Removing a journal.
pub proof fn lemma_removing(
    r: Rule,
    s: SessionView,
    t: SessionView,
    config_dir: Seq<char>,
    tunnel: Seq<char>,
)
    requires
        later(s, t),
        !r.reading,
    ensures
        steady(
            r,
            s,
            t,
            state::removing(s, config_dir, tunnel),
            state::removing(t, config_dir, tunnel),
        ),
{
    let fx = state::removing(s, config_dir, tunnel);
    let fy = state::removing(t, config_dir, tunnel);
    lemma_remove_file(r, s, t, state::journal_path(config_dir, tunnel));
    let x1 = s.remove_file(state::journal_path(config_dir, tunnel));
    let y1 = t.remove_file(state::journal_path(config_dir, tunnel));
    lemma_bind(r, s, t, x1, y1, fx, fy);
    lemma_finished(r, s, t, fx, fy);
}

// ---------------------------------------------------------------------------
// DNS
// ---------------------------------------------------------------------------

/// Listing the network services.
pub proof fn lemma_listing_services(r: Rule, s: SessionView, t: SessionView)
    requires
        later(s, t),
        r.running,
    ensures
        steady(r, s, t, dns::listing_services(s), dns::listing_services(t)),
{
    let fx = dns::listing_services(s);
    let fy = dns::listing_services(t);
    lemma_run(r, s, t, NETWORKSETUP@, seq!["-listallnetworkservices"@]);
    let x1 = s.run(NETWORKSETUP@, seq!["-listallnetworkservices"@]);
    let y1 = t.run(NETWORKSETUP@, seq!["-listallnetworkservices"@]);
    lemma_bind(r, s, t, x1, y1, fx, fy);
    lemma_finished(r, s, t, fx, fy);
}

/// Reading the DNS servers of a service.
pub proof fn lemma_reading_dns(r: Rule, s: SessionView, t: SessionView, service: Seq<char>)
    requires
        later(s, t),
        r.running,
    ensures
        steady(r, s, t, dns::reading_dns(s, service), dns::reading_dns(t, service)),
{
    let fx = dns::reading_dns(s, service);
    let fy = dns::reading_dns(t, service);
    lemma_run(r, s, t, NETWORKSETUP@, seq!["-getdnsservers"@, service]);
    let x1 = s.run(NETWORKSETUP@, seq!["-getdnsservers"@, service]);
    let y1 = t.run(NETWORKSETUP@, seq!["-getdnsservers"@, service]);
    lemma_bind(r, s, t, x1, y1, fx, fy);
    lemma_finished(r, s, t, fx, fy);
}

/// Looking for stale services.
pub proof fn lemma_stale_from(
    r: Rule,
    s: SessionView,
    t: SessionView,
    names: Seq<Seq<char>>,
    tunnel_dns: Seq<Seq<char>>,
    i: int,
    stale: Seq<Seq<char>>,
)
    requires
        later(s, t),
        r.running,
    ensures
        steady(
            r,
            s,
            t,
            dns::stale_from(s, names, tunnel_dns, i, stale),
            dns::stale_from(t, names, tunnel_dns, i, stale),
        ),
    decreases names.len() - i,
{
    let fx = dns::stale_from(s, names, tunnel_dns, i, stale);
    let fy = dns::stale_from(t, names, tunnel_dns, i, stale);
    if i < names.len() {
        lemma_reading_dns(r, s, t, names[i]);
        let x1 = dns::reading_dns(s, names[i]);
        let y1 = dns::reading_dns(t, names[i]);
        let s1 = resumed(x1, y1);
        lemma_resumed(r, s, t, x1, y1);
        let f1 = if x1.1 is Some {
            fx
        } else {
            fy
        };
        match y1.1 {
            Some(Some(list)) => {
                let next = if dns::any_of(list, tunnel_dns) {
                    stale.push(names[i])
                } else {
                    stale
                };
                lemma_stale_from(r, s1, y1.0, names, tunnel_dns, i + 1, next);
                let x2 = dns::stale_from(s1, names, tunnel_dns, i + 1, next);
                let y2 = dns::stale_from(y1.0, names, tunnel_dns, i + 1, next);
                lemma_bind(r, s1, y1.0, x2, y2, f1, fy);
            },
            _ => {},
        }
        lemma_bind(r, s, t, x1, y1, fx, fy);
    }
    lemma_finished(r, s, t, fx, fy);
}

/// Finding the stale services.
pub proof fn lemma_finding_stale(
    r: Rule,
    s: SessionView,
    t: SessionView,
    tunnel_dns: Seq<Seq<char>>,
)
    requires
        later(s, t),
        r.running,
    ensures
        steady(r, s, t, dns::finding_stale(s, tunnel_dns), dns::finding_stale(t, tunnel_dns)),
{
    let fx = dns::finding_stale(s, tunnel_dns);
    let fy = dns::finding_stale(t, tunnel_dns);
    lemma_listing_services(r, s, t);
    let x1 = dns::listing_services(s);
    let y1 = dns::listing_services(t);
    let s1 = resumed(x1, y1);
    lemma_resumed(r, s, t, x1, y1);
    let f1 = if x1.1 is Some {
        fx
    } else {
        fy
    };
    match y1.1 {
        Some(Some(names)) => {
            lemma_stale_from(r, s1, y1.0, names, tunnel_dns, 0, Seq::empty());
            let x2 = dns::stale_from(s1, names, tunnel_dns, 0, Seq::empty());
            let y2 = dns::stale_from(y1.0, names, tunnel_dns, 0, Seq::empty());
            lemma_bind(r, s1, y1.0, x2, y2, f1, fy);
        },
        _ => {},
    }
    lemma_bind(r, s, t, x1, y1, fx, fy);
    lemma_finished(r, s, t, fx, fy);
}

/// Capturing the DNS of services.
pub proof fn lemma_capture_from(
    r: Rule,
    s: SessionView,
    t: SessionView,
    names: Seq<Seq<char>>,
    tunnel_dns: Seq<Seq<char>>,
    i: int,
    snapshot: Snapshot,
)
    requires
        later(s, t),
        r.running,
    ensures
        steady(
            r,
            s,
            t,
            dns::capture_from(s, names, tunnel_dns, i, snapshot),
            dns::capture_from(t, names, tunnel_dns, i, snapshot),
        ),
    decreases names.len() - i,
{
    let fx = dns::capture_from(s, names, tunnel_dns, i, snapshot);
    let fy = dns::capture_from(t, names, tunnel_dns, i, snapshot);
    if i < names.len() {
        lemma_reading_dns(r, s, t, names[i]);
        let x1 = dns::reading_dns(s, names[i]);
        let y1 = dns::reading_dns(t, names[i]);
        let s1 = resumed(x1, y1);
        lemma_resumed(r, s, t, x1, y1);
        let f1 = if x1.1 is Some {
            fx
        } else {
            fy
        };
        match y1.1 {
            Some(Some(list)) => {
                let next = order::put(snapshot, names[i], dns::without(list, tunnel_dns));
                lemma_capture_from(r, s1, y1.0, names, tunnel_dns, i + 1, next);
                let x2 = dns::capture_from(s1, names, tunnel_dns, i + 1, next);
                let y2 = dns::capture_from(y1.0, names, tunnel_dns, i + 1, next);
                lemma_bind(r, s1, y1.0, x2, y2, f1, fy);
            },
            _ => {},
        }
        lemma_bind(r, s, t, x1, y1, fx, fy);
    }
    lemma_finished(r, s, t, fx, fy);
}

/// Capturing the DNS of every service.
pub proof fn lemma_capturing(r: Rule, s: SessionView, t: SessionView, tunnel_dns: Seq<Seq<char>>)
    requires
        later(s, t),
        r.running,
    ensures
        steady(r, s, t, dns::capturing(s, tunnel_dns), dns::capturing(t, tunnel_dns)),
{
    let fx = dns::capturing(s, tunnel_dns);
    let fy = dns::capturing(t, tunnel_dns);
    lemma_listing_services(r, s, t);
    let x1 = dns::listing_services(s);
    let y1 = dns::listing_services(t);
    let s1 = resumed(x1, y1);
    lemma_resumed(r, s, t, x1, y1);
    let f1 = if x1.1 is Some {
        fx
    } else {
        fy
    };
    match y1.1 {
        Some(Some(names)) => {
            lemma_capture_from(r, s1, y1.0, names, tunnel_dns, 0, Seq::empty());
            let x2 = dns::capture_from(s1, names, tunnel_dns, 0, Seq::empty());
            let y2 = dns::capture_from(y1.0, names, tunnel_dns, 0, Seq::empty());
            lemma_bind(r, s1, y1.0, x2, y2, f1, fy);
        },
        _ => {},
    }
    lemma_bind(r, s, t, x1, y1, fx, fy);
    lemma_finished(r, s, t, fx, fy);
}

/// Setting the DNS of a service.
pub proof fn lemma_setting_dns(
    r: Rule,
    s: SessionView,
    t: SessionView,
    service: Seq<char>,
    servers: Seq<Seq<char>>,
)
    requires
        later(s, t),
        !r.reading,
        r.running,
    ensures
        steady(
            r,
            s,
            t,
            dns::setting_dns(s, service, servers),
            dns::setting_dns(t, service, servers),
        ),
{
    let fx = dns::setting_dns(s, service, servers);
    let fy = dns::setting_dns(t, service, servers);
    lemma_run(r, s, t, NETWORKSETUP@, dns::set_dns_args(service, servers));
    let x1 = s.run(NETWORKSETUP@, dns::set_dns_args(service, servers));
    let y1 = t.run(NETWORKSETUP@, dns::set_dns_args(service, servers));
    lemma_bind(r, s, t, x1, y1, fx, fy);
    lemma_finished(r, s, t, fx, fy);
}

/// Resetting services.
pub proof fn lemma_reset_from(
    r: Rule,
    s: SessionView,
    t: SessionView,
    stale: Seq<Seq<char>>,
    i: int,
    cleared: Seq<Seq<char>>,
    warning: Option<Seq<char>>,
)
    requires
        later(s, t),
        !r.reading,
        r.running,
    ensures
        steady(
            r,
            s,
            t,
            dns::reset_from(s, stale, i, cleared, warning),
            dns::reset_from(t, stale, i, cleared, warning),
        ),
    decreases stale.len() - i,
{
    let fx = dns::reset_from(s, stale, i, cleared, warning);
    let fy = dns::reset_from(t, stale, i, cleared, warning);
    if i < stale.len() {
        lemma_setting_dns(r, s, t, stale[i], Seq::empty());
        let x1 = dns::setting_dns(s, stale[i], Seq::empty());
        let y1 = dns::setting_dns(t, stale[i], Seq::empty());
        let s1 = resumed(x1, y1);
        lemma_resumed(r, s, t, x1, y1);
        let f1 = if x1.1 is Some {
            fx
        } else {
            fy
        };
        match y1.1 {
            Some(ok) => {
                if ok {
                    let next = order::with_text(cleared, stale[i]);
                    lemma_reset_from(r, s1, y1.0, stale, i + 1, next, warning);
                    let x2 = dns::reset_from(s1, stale, i + 1, next, warning);
                    let y2 = dns::reset_from(y1.0, stale, i + 1, next, warning);
                    lemma_bind(r, s1, y1.0, x2, y2, f1, fy);
                } else {
                    let next = Some(dns::reset_warning(stale[i]));
                    lemma_reset_from(r, s1, y1.0, stale, i + 1, cleared, next);
                    let x2 = dns::reset_from(s1, stale, i + 1, cleared, next);
                    let y2 = dns::reset_from(y1.0, stale, i + 1, cleared, next);
                    lemma_bind(r, s1, y1.0, x2, y2, f1, fy);
                }
            },
            None => {},
        }
        lemma_bind(r, s, t, x1, y1, fx, fy);
    }
    lemma_finished(r, s, t, fx, fy);
}

/// Sweeping.
pub proof fn lemma_sweep_from(
    r: Rule,
    s: SessionView,
    t: SessionView,
    tunnel_dns: Seq<Seq<char>>,
    delays: Seq<u64>,
    i: int,
    done: GuardOutcomeView,
    clean: bool,
    dirty: bool,
)
    requires
        later(s, t),
        !r.reading,
        r.running,
    ensures
        steady(
            r,
            s,
            t,
            dns::sweep_from(s, tunnel_dns, delays, i, done, clean, dirty),
            dns::sweep_from(t, tunnel_dns, delays, i, done, clean, dirty),
        ),
    decreases delays.len() - i,
{
    let fx = dns::sweep_from(s, tunnel_dns, delays, i, done, clean, dirty);
    let fy = dns::sweep_from(t, tunnel_dns, delays, i, done, clean, dirty);
    if i < delays.len() {
        if delays[i] > 0 {
            lemma_sleep(r, s, t, delays[i]);
            let x1 = s.sleep(delays[i]);
            let y1 = t.sleep(delays[i]);
            let s1 = resumed(x1, y1);
            lemma_resumed(r, s, t, x1, y1);
            let f1 = if x1.1 is Some {
                fx
            } else {
                fy
            };
            match y1.1 {
                Some(_) => {
                    lemma_finding_stale(r, s1, y1.0, tunnel_dns);
                    let x2 = dns::finding_stale(s1, tunnel_dns);
                    let y2 = dns::finding_stale(y1.0, tunnel_dns);
                    let s2 = resumed(x2, y2);
                    lemma_resumed(r, s1, y1.0, x2, y2);
                    let f2 = if x2.1 is Some {
                        f1
                    } else {
                        fy
                    };
                    match y2.1 {
                        Some(Some(stale)) => {
                            if stale.len() == 0 {
                                if !clean {
                                    lemma_sweep_from(
                                        r,
                                        s2,
                                        y2.0,
                                        tunnel_dns,
                                        delays,
                                        i + 1,
                                        done,
                                        true,
                                        false,
                                    );
                                    let x3 = dns::sweep_from(
                                        s2,
                                        tunnel_dns,
                                        delays,
                                        i + 1,
                                        done,
                                        true,
                                        false,
                                    );
                                    let y3 = dns::sweep_from(
                                        y2.0,
                                        tunnel_dns,
                                        delays,
                                        i + 1,
                                        done,
                                        true,
                                        false,
                                    );
                                    lemma_bind(r, s2, y2.0, x3, y3, f2, fy);
                                }
                            } else {
                                lemma_reset_from(r, s2, y2.0, stale, 0, done.cleared, done.warning);
                                let x3 = dns::reset_from(s2, stale, 0, done.cleared, done.warning);
                                let y3 = dns::reset_from(
                                    y2.0,
                                    stale,
                                    0,
                                    done.cleared,
                                    done.warning,
                                );
                                let s3 = resumed(x3, y3);
                                lemma_resumed(r, s2, y2.0, x3, y3);
                                let f3 = if x3.1 is Some {
                                    f2
                                } else {
                                    fy
                                };
                                match y3.1 {
                                    Some(more) => {
                                        lemma_sweep_from(
                                            r,
                                            s3,
                                            y3.0,
                                            tunnel_dns,
                                            delays,
                                            i + 1,
                                            more,
                                            false,
                                            true,
                                        );
                                        let x4 = dns::sweep_from(
                                            s3,
                                            tunnel_dns,
                                            delays,
                                            i + 1,
                                            more,
                                            false,
                                            true,
                                        );
                                        let y4 = dns::sweep_from(
                                            y3.0,
                                            tunnel_dns,
                                            delays,
                                            i + 1,
                                            more,
                                            false,
                                            true,
                                        );
                                        lemma_bind(r, s3, y3.0, x4, y4, f3, fy);
                                    },
                                    None => {},
                                }
                                lemma_bind(r, s2, y2.0, x3, y3, f2, fy);
                            }
                        },
                        _ => {},
                    }
                    lemma_bind(r, s1, y1.0, x2, y2, f1, fy);
                },
                None => {},
            }
            lemma_bind(r, s, t, x1, y1, fx, fy);
        } else {
            lemma_finding_stale(r, s, t, tunnel_dns);
            let x1 = dns::finding_stale(s, tunnel_dns);
            let y1 = dns::finding_stale(t, tunnel_dns);
            let s1 = resumed(x1, y1);
            lemma_resumed(r, s, t, x1, y1);
            let f1 = if x1.1 is Some {
                fx
            } else {
                fy
            };
            match y1.1 {
                Some(Some(stale)) => {
                    if stale.len() == 0 {
                        if !clean {
                            lemma_sweep_from(
                                r,
                                s1,
                                y1.0,
                                tunnel_dns,
                                delays,
                                i + 1,
                                done,
                                true,
                                false,
                            );
                            let x2 = dns::sweep_from(
                                s1,
                                tunnel_dns,
                                delays,
                                i + 1,
                                done,
                                true,
                                false,
                            );
                            let y2 = dns::sweep_from(
                                y1.0,
                                tunnel_dns,
                                delays,
                                i + 1,
                                done,
                                true,
                                false,
                            );
                            lemma_bind(r, s1, y1.0, x2, y2, f1, fy);
                        }
                    } else {
                        lemma_reset_from(r, s1, y1.0, stale, 0, done.cleared, done.warning);
                        let x2 = dns::reset_from(s1, stale, 0, done.cleared, done.warning);
                        let y2 = dns::reset_from(y1.0, stale, 0, done.cleared, done.warning);
                        let s2 = resumed(x2, y2);
                        lemma_resumed(r, s1, y1.0, x2, y2);
                        let f2 = if x2.1 is Some {
                            f1
                        } else {
                            fy
                        };
                        match y2.1 {
                            Some(more) => {
                                lemma_sweep_from(
                                    r,
                                    s2,
                                    y2.0,
                                    tunnel_dns,
                                    delays,
                                    i + 1,
                                    more,
                                    false,
                                    true,
                                );
                                let x3 = dns::sweep_from(
                                    s2,
                                    tunnel_dns,
                                    delays,
                                    i + 1,
                                    more,
                                    false,
                                    true,
                                );
                                let y3 = dns::sweep_from(
                                    y2.0,
                                    tunnel_dns,
                                    delays,
                                    i + 1,
                                    more,
                                    false,
                                    true,
                                );
                                lemma_bind(r, s2, y2.0, x3, y3, f2, fy);
                            },
                            None => {},
                        }
                        lemma_bind(r, s1, y1.0, x2, y2, f1, fy);
                    }
                },
                _ => {},
            }
            lemma_bind(r, s, t, x1, y1, fx, fy);
        }
    }
    lemma_finished(r, s, t, fx, fy);
}

/// Guarding against stale DNS.
pub proof fn lemma_guarding(
    r: Rule,
    s: SessionView,
    t: SessionView,
    tunnel_dns: Seq<Seq<char>>,
    delays: Seq<u64>,
)
    requires
        later(s, t),
        !r.reading,
        r.running,
    ensures
        steady(
            r,
            s,
            t,
            dns::guarding(s, tunnel_dns, delays),
            dns::guarding(t, tunnel_dns, delays),
        ),
{
    let fx = dns::guarding(s, tunnel_dns, delays);
    let fy = dns::guarding(t, tunnel_dns, delays);
    let nothing = GuardOutcomeView::nothing();
    if tunnel_dns.len() > 0 {
        lemma_sweep_from(r, s, t, tunnel_dns, delays, 0, nothing, false, false);
        let x1 = dns::sweep_from(s, tunnel_dns, delays, 0, nothing, false, false);
        let y1 = dns::sweep_from(t, tunnel_dns, delays, 0, nothing, false, false);
        lemma_bind(r, s, t, x1, y1, fx, fy);
    }
    lemma_finished(r, s, t, fx, fy);
}

/// Setting the services of a snapshot.
pub proof fn lemma_reapply_from(
    r: Rule,
    s: SessionView,
    t: SessionView,
    snapshot: Snapshot,
    i: int,
    restored: Seq<Seq<char>>,
    warning: Option<Seq<char>>,
)
    requires
        later(s, t),
        !r.reading,
        r.running,
    ensures
        steady(
            r,
            s,
            t,
            dns::reapply_from(s, snapshot, i, restored, warning),
            dns::reapply_from(t, snapshot, i, restored, warning),
        ),
    decreases snapshot.len() - i,
{
    let fx = dns::reapply_from(s, snapshot, i, restored, warning);
    let fy = dns::reapply_from(t, snapshot, i, restored, warning);
    if i < snapshot.len() {
        let (service, servers) = snapshot[i];
        lemma_setting_dns(r, s, t, service, servers);
        let x1 = dns::setting_dns(s, service, servers);
        let y1 = dns::setting_dns(t, service, servers);
        let s1 = resumed(x1, y1);
        lemma_resumed(r, s, t, x1, y1);
        let f1 = if x1.1 is Some {
            fx
        } else {
            fy
        };
        match y1.1 {
            Some(ok) => {
                if ok {
                    let next = order::with_text(restored, service);
                    lemma_reapply_from(r, s1, y1.0, snapshot, i + 1, next, warning);
                    let x2 = dns::reapply_from(s1, snapshot, i + 1, next, warning);
                    let y2 = dns::reapply_from(y1.0, snapshot, i + 1, next, warning);
                    lemma_bind(r, s1, y1.0, x2, y2, f1, fy);
                } else {
                    let next = Some(dns::restore_warning(service, servers));
                    lemma_reapply_from(r, s1, y1.0, snapshot, i + 1, restored, next);
                    let x2 = dns::reapply_from(s1, snapshot, i + 1, restored, next);
                    let y2 = dns::reapply_from(y1.0, snapshot, i + 1, restored, next);
                    lemma_bind(r, s1, y1.0, x2, y2, f1, fy);
                }
            },
            None => {},
        }
        lemma_bind(r, s, t, x1, y1, fx, fy);
    }
    lemma_finished(r, s, t, fx, fy);
}

/// Restoring a snapshot.
pub proof fn lemma_restoring(
    r: Rule,
    s: SessionView,
    t: SessionView,
    snapshot: Snapshot,
    tunnel_dns: Seq<Seq<char>>,
    delays: Seq<u64>,
)
    requires
        later(s, t),
        !r.reading,
        r.running,
    ensures
        steady(
            r,
            s,
            t,
            dns::restoring(s, snapshot, tunnel_dns, delays),
            dns::restoring(t, snapshot, tunnel_dns, delays),
        ),
{
    let fx = dns::restoring(s, snapshot, tunnel_dns, delays);
    let fy = dns::restoring(t, snapshot, tunnel_dns, delays);
    lemma_reapply_from(r, s, t, snapshot, 0, Seq::empty(), None);
    let x1 = dns::reapply_from(s, snapshot, 0, Seq::empty(), None);
    let y1 = dns::reapply_from(t, snapshot, 0, Seq::empty(), None);
    let s1 = resumed(x1, y1);
    lemma_resumed(r, s, t, x1, y1);
    let f1 = if x1.1 is Some {
        fx
    } else {
        fy
    };
    match y1.1 {
        Some(_) => {
            lemma_guarding(r, s1, y1.0, tunnel_dns, delays);
            let x2 = dns::guarding(s1, tunnel_dns, delays);
            let y2 = dns::guarding(y1.0, tunnel_dns, delays);
            lemma_bind(r, s1, y1.0, x2, y2, f1, fy);
        },
        None => {},
    }
    lemma_bind(r, s, t, x1, y1, fx, fy);
    lemma_finished(r, s, t, fx, fy);
}

} // verus!
