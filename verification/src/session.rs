//! The dialogue between the tool's decisions and the machine.
//!
//! Nothing in this library touches the machine. An operation that needs a
//! command run, a file read or the time asks for it: it is a function of the
//! replies given so far. Where the replies run out, the operation stops and the
//! last thing it asked for is what has to be done next; with the reply added,
//! the operation is run again from the start and gets further. An operation
//! that finishes has asked for exactly the actions that were performed, in
//! their order.
use vstd::prelude::*;

use crate::output::{Report, ReportView};
use crate::runner::{CommandOutput, CommandOutputView, CommandRunner};
use crate::state::{Journal, JournalView};
use crate::status;

verus! {

/// Something to be done on the machine.
#[derive(Debug, PartialEq, Eq)]
pub enum Action {
    /// Run a program and capture its output.
    Run {
        /// The program.
        program: String,
        /// Its arguments.
        args: Vec<String>,
    },
    /// Run a program with the caller's standard input and output.
    RunPassthrough {
        /// The program.
        program: String,
        /// Its arguments.
        args: Vec<String>,
    },
    /// Wait for a number of milliseconds.
    Sleep(u64),
    /// Read the clock (Unix time in whole seconds).
    Now,
    /// List the names of the files in a directory.
    ListDir(String),
    /// Read a text file.
    ReadFile(String),
    /// Find out whether a path is a regular file.
    IsFile(String),
    /// Find out whether a path exists.
    Exists(String),
    /// Read the permission bits of a file.
    FileMode(String),
    /// Create a directory, and those above it, where missing.
    CreateDir(String),
    /// Write a file, replacing what it held.
    WriteFile {
        /// Path of the file.
        path: String,
        /// What it is to hold.
        contents: String,
    },
    /// Set the permission bits of a file or directory.
    Restrict {
        /// Its path.
        path: String,
        /// The permission bits.
        mode: u32,
    },
    /// Rename a file, replacing the target.
    Rename {
        /// Its path.
        from: String,
        /// Its new path.
        to: String,
    },
    /// Remove a file.
    RemoveFile(String),
    /// Create a lock file where missing and take an exclusive advisory lock on
    /// it, waiting until it is free. The lock is held until the command is done.
    Lock(String),
    /// The same without waiting: the lock is taken only where it is free.
    TryLock(String),
    /// Read each text as a number of seconds, and round it to tenths of a
    /// millisecond.
    ParseSeconds(Vec<String>),
    /// Write a journal as JSON.
    EncodeJournal(Journal),
    /// Read a journal from JSON.
    DecodeJournal(String),
    /// Write a report as JSON.
    EncodeReport(Report),
}

/// An [`Action`] with its texts as sequences of characters.
#[verifier::ext_equal]
pub enum ActionView {
    /// Run a program and capture its output.
    Run {
        /// The program.
        program: Seq<char>,
        /// Its arguments.
        args: Seq<Seq<char>>,
    },
    /// Run a program with the caller's standard input and output.
    RunPassthrough {
        /// The program.
        program: Seq<char>,
        /// Its arguments.
        args: Seq<Seq<char>>,
    },
    /// Wait.
    Sleep(u64),
    /// Read the clock.
    Now,
    /// List a directory.
    ListDir(Seq<char>),
    /// Read a text file.
    ReadFile(Seq<char>),
    /// Whether a path is a regular file.
    IsFile(Seq<char>),
    /// Whether a path exists.
    Exists(Seq<char>),
    /// Read permission bits.
    FileMode(Seq<char>),
    /// Create a directory.
    CreateDir(Seq<char>),
    /// Write a file.
    WriteFile {
        /// Path of the file.
        path: Seq<char>,
        /// What it is to hold.
        contents: Seq<char>,
    },
    /// Set permission bits.
    Restrict {
        /// The path.
        path: Seq<char>,
        /// The permission bits.
        mode: u32,
    },
    /// Rename a file.
    Rename {
        /// Its path.
        from: Seq<char>,
        /// Its new path.
        to: Seq<char>,
    },
    /// Remove a file.
    RemoveFile(Seq<char>),
    /// Take the lock.
    Lock(Seq<char>),
    /// Take the lock where it is free.
    TryLock(Seq<char>),
    /// Read numbers of seconds.
    ParseSeconds(Seq<Seq<char>>),
    /// Write a journal as JSON.
    EncodeJournal(JournalView),
    /// Read a journal from JSON.
    DecodeJournal(Seq<char>),
    /// Write a report as JSON.
    EncodeReport(ReportView),
}

impl DeepView for Action {
    type V = ActionView;

    open spec fn deep_view(&self) -> ActionView {
        match self {
            Action::Run { program, args } => ActionView::Run {
                program: program@,
                args: args.deep_view(),
            },
            Action::RunPassthrough { program, args } => ActionView::RunPassthrough {
                program: program@,
                args: args.deep_view(),
            },
            Action::Sleep(ms) => ActionView::Sleep(*ms),
            Action::Now => ActionView::Now,
            Action::ListDir(path) => ActionView::ListDir(path@),
            Action::ReadFile(path) => ActionView::ReadFile(path@),
            Action::IsFile(path) => ActionView::IsFile(path@),
            Action::Exists(path) => ActionView::Exists(path@),
            Action::FileMode(path) => ActionView::FileMode(path@),
            Action::CreateDir(path) => ActionView::CreateDir(path@),
            Action::WriteFile { path, contents } => ActionView::WriteFile {
                path: path@,
                contents: contents@,
            },
            Action::Restrict { path, mode } => ActionView::Restrict { path: path@, mode: *mode },
            Action::Rename { from, to } => ActionView::Rename { from: from@, to: to@ },
            Action::RemoveFile(path) => ActionView::RemoveFile(path@),
            Action::Lock(path) => ActionView::Lock(path@),
            Action::TryLock(path) => ActionView::TryLock(path@),
            Action::ParseSeconds(texts) => ActionView::ParseSeconds(texts.deep_view()),
            Action::EncodeJournal(journal) => ActionView::EncodeJournal(journal.deep_view()),
            Action::DecodeJournal(json) => ActionView::DecodeJournal(json@),
            Action::EncodeReport(report) => ActionView::EncodeReport(report.deep_view()),
        }
    }
}

/// What listing a directory gave.
#[derive(Debug, PartialEq, Eq)]
pub enum DirListing {
    /// There is no such directory.
    Missing,
    /// It could not be listed, with what the operating system said.
    Failed(String),
    /// It could be listed only in part.
    Partial {
        /// The names that could be read, in no particular order.
        files: Vec<String>,
        /// What the operating system said of the first that could not.
        source: String,
    },
    /// The names of its files, in no particular order.
    Files(Vec<String>),
}

/// A [`DirListing`] with its texts as sequences of characters.
#[verifier::ext_equal]
pub enum DirListingView {
    /// There is no such directory.
    Missing,
    /// It could not be listed.
    Failed(Seq<char>),
    /// It could be listed only in part.
    Partial {
        /// The names that could be read.
        files: Seq<Seq<char>>,
        /// What the operating system said of the first that could not.
        source: Seq<char>,
    },
    /// The names of its files.
    Files(Seq<Seq<char>>),
}

impl DeepView for DirListing {
    type V = DirListingView;

    open spec fn deep_view(&self) -> DirListingView {
        match self {
            DirListing::Missing => DirListingView::Missing,
            DirListing::Failed(source) => DirListingView::Failed(source@),
            DirListing::Partial { files, source } => DirListingView::Partial {
                files: files.deep_view(),
                source: source@,
            },
            DirListing::Files(files) => DirListingView::Files(files.deep_view()),
        }
    }
}

/// What reading a file gave.
#[derive(Debug, PartialEq, Eq)]
pub enum FileText {
    /// There is no such file, with what the operating system said.
    Missing(String),
    /// It could not be read, with what the operating system said.
    Failed(String),
    /// What it holds.
    Text(String),
}

/// A [`FileText`] with its texts as sequences of characters.
pub enum FileTextView {
    /// There is no such file.
    Missing(Seq<char>),
    /// It could not be read.
    Failed(Seq<char>),
    /// What it holds.
    Text(Seq<char>),
}

impl DeepView for FileText {
    type V = FileTextView;

    open spec fn deep_view(&self) -> FileTextView {
        match self {
            FileText::Missing(source) => FileTextView::Missing(source@),
            FileText::Failed(source) => FileTextView::Failed(source@),
            FileText::Text(contents) => FileTextView::Text(contents@),
        }
    }
}

/// What removing a file gave.
#[derive(Debug, PartialEq, Eq)]
pub enum Removal {
    /// The file is gone.
    Removed,
    /// There was no such file.
    Missing,
    /// It could not be removed, with what the operating system said.
    Failed(String),
}

/// A [`Removal`] with its text as a sequence of characters.
pub enum RemovalView {
    /// The file is gone.
    Removed,
    /// There was no such file.
    Missing,
    /// It could not be removed.
    Failed(Seq<char>),
}

impl DeepView for Removal {
    type V = RemovalView;

    open spec fn deep_view(&self) -> RemovalView {
        match self {
            Removal::Removed => RemovalView::Removed,
            Removal::Missing => RemovalView::Missing,
            Removal::Failed(source) => RemovalView::Failed(source@),
        }
    }
}

/// What came of an action.
#[derive(Debug, PartialEq, Eq)]
pub enum Reply {
    /// Of [`Action::Run`]: the captured output, or why the program could not be
    /// launched.
    Ran(Result<CommandOutput, String>),
    /// Of [`Action::RunPassthrough`]: the exit code (`None` if killed by a
    /// signal), or why the program could not be launched.
    Exited(Result<Option<i32>, String>),
    /// Of [`Action::Sleep`].
    Slept,
    /// Of [`Action::Now`].
    Time(u64),
    /// Of [`Action::ListDir`].
    Listing(DirListing),
    /// Of [`Action::ReadFile`].
    Contents(FileText),
    /// Of [`Action::IsFile`] and [`Action::Exists`].
    Flag(bool),
    /// Of [`Action::FileMode`]; `None` if it could not be read.
    Mode(Option<u32>),
    /// Of [`Action::CreateDir`], [`Action::WriteFile`], [`Action::Restrict`],
    /// [`Action::Rename`] and [`Action::Lock`]: why it failed, if it did.
    Finished(Result<(), String>),
    /// Of [`Action::TryLock`]: whether the lock was taken, or why that failed.
    Taken(Result<bool, String>),
    /// Of [`Action::RemoveFile`].
    Removed(Removal),
    /// Of [`Action::ParseSeconds`]: tenths of a millisecond, `None` for a text
    /// that is no number.
    Seconds(Vec<Option<i64>>),
    /// Of [`Action::EncodeJournal`] and [`Action::EncodeReport`].
    Json(String),
    /// Of [`Action::DecodeJournal`]; `None` if the text is no journal.
    Decoded(Option<Journal>),
}

/// A [`Reply`] with its texts as sequences of characters.
#[verifier::ext_equal]
pub enum ReplyView {
    /// Of running a program.
    Ran(Result<CommandOutputView, Seq<char>>),
    /// Of running a program with the caller's standard input and output.
    Exited(Result<Option<i32>, Seq<char>>),
    /// Of waiting.
    Slept,
    /// Of reading the clock.
    Time(u64),
    /// Of listing a directory.
    Listing(DirListingView),
    /// Of reading a file.
    Contents(FileTextView),
    /// Of a question.
    Flag(bool),
    /// Of reading permission bits.
    Mode(Option<u32>),
    /// Of a change to the file system.
    Finished(Result<(), Seq<char>>),
    /// Of taking the lock where it is free.
    Taken(Result<bool, Seq<char>>),
    /// Of removing a file.
    Removed(RemovalView),
    /// Of reading numbers of seconds.
    Seconds(Seq<Option<i64>>),
    /// Of writing JSON.
    Json(Seq<char>),
    /// Of reading a journal.
    Decoded(Option<JournalView>),
}

/// A result whose error is a message, seen through views.
pub open spec fn told<T: DeepView>(r: Result<T, String>) -> Result<T::V, Seq<char>> {
    match r {
        Ok(v) => Ok(v.deep_view()),
        Err(e) => Err(e@),
    }
}

impl DeepView for Reply {
    type V = ReplyView;

    open spec fn deep_view(&self) -> ReplyView {
        match self {
            Reply::Ran(r) => ReplyView::Ran(told(*r)),
            Reply::Exited(r) => ReplyView::Exited(told(*r)),
            Reply::Slept => ReplyView::Slept,
            Reply::Time(now) => ReplyView::Time(*now),
            Reply::Listing(listing) => ReplyView::Listing(listing.deep_view()),
            Reply::Contents(contents) => ReplyView::Contents(contents.deep_view()),
            Reply::Flag(b) => ReplyView::Flag(*b),
            Reply::Mode(mode) => ReplyView::Mode(*mode),
            Reply::Finished(r) => ReplyView::Finished(told(*r)),
            Reply::Taken(r) => ReplyView::Taken(told(*r)),
            Reply::Removed(removal) => ReplyView::Removed(removal.deep_view()),
            Reply::Seconds(tenths) => ReplyView::Seconds(tenths@),
            Reply::Json(json) => ReplyView::Json(json@),
            Reply::Decoded(journal) => ReplyView::Decoded(journal.deep_view()),
        }
    }
}

/// The replies given so far, and what the operation in progress has asked for.
#[derive(Debug, PartialEq, Eq)]
pub struct Session {
    replies: Vec<Reply>,
    asked: Vec<Action>,
}

/// A [`Session`] with its texts as sequences of characters.
#[verifier::ext_equal]
pub struct SessionView {
    /// The replies given so far.
    pub replies: Seq<ReplyView>,
    /// What has been asked for.
    pub asked: Seq<ActionView>,
}

/// What an operation makes of a session: the session after it, and the result,
/// where the replies sufficed.
pub type Step<T> = (SessionView, Option<T>);

impl DeepView for Session {
    type V = SessionView;

    closed spec fn deep_view(&self) -> SessionView {
        SessionView { replies: self.replies.deep_view(), asked: self.asked.deep_view() }
    }
}

impl SessionView {
    /// Ask for an action; the reply is the one given at the same place.
    pub open spec fn ask(self, action: ActionView) -> Step<ReplyView> {
        let n = self.asked.len() as int;
        (
            SessionView { asked: self.asked.push(action), ..self },
            if n < self.replies.len() {
                Some(self.replies[n])
            } else {
                None
            },
        )
    }

    /// Run a program. A reply of another kind counts as none, here and below.
    pub open spec fn run(self, program: Seq<char>, args: Seq<Seq<char>>) -> Step<
        Result<CommandOutputView, Seq<char>>,
    > {
        let (s, reply) = self.ask(ActionView::Run { program, args });
        (
            s,
            match reply {
                Some(ReplyView::Ran(r)) => Some(r),
                _ => None,
            },
        )
    }

    /// Run a program with the caller's standard input and output.
    pub open spec fn run_passthrough(self, program: Seq<char>, args: Seq<Seq<char>>) -> Step<
        Result<Option<i32>, Seq<char>>,
    > {
        let (s, reply) = self.ask(ActionView::RunPassthrough { program, args });
        (
            s,
            match reply {
                Some(ReplyView::Exited(r)) => Some(r),
                _ => None,
            },
        )
    }

    /// Wait.
    pub open spec fn sleep(self, ms: u64) -> Step<()> {
        let (s, reply) = self.ask(ActionView::Sleep(ms));
        (
            s,
            match reply {
                Some(ReplyView::Slept) => Some(()),
                _ => None,
            },
        )
    }

    /// Read the clock.
    pub open spec fn now(self) -> Step<u64> {
        let (s, reply) = self.ask(ActionView::Now);
        (
            s,
            match reply {
                Some(ReplyView::Time(now)) => Some(now),
                _ => None,
            },
        )
    }

    /// List a directory.
    pub open spec fn list_dir(self, path: Seq<char>) -> Step<DirListingView> {
        let (s, reply) = self.ask(ActionView::ListDir(path));
        (
            s,
            match reply {
                Some(ReplyView::Listing(listing)) => Some(listing),
                _ => None,
            },
        )
    }

    /// Read a text file.
    pub open spec fn read_file(self, path: Seq<char>) -> Step<FileTextView> {
        let (s, reply) = self.ask(ActionView::ReadFile(path));
        (
            s,
            match reply {
                Some(ReplyView::Contents(contents)) => Some(contents),
                _ => None,
            },
        )
    }

    /// Whether a path is a regular file.
    pub open spec fn is_file(self, path: Seq<char>) -> Step<bool> {
        let (s, reply) = self.ask(ActionView::IsFile(path));
        (
            s,
            match reply {
                Some(ReplyView::Flag(b)) => Some(b),
                _ => None,
            },
        )
    }

    /// Whether a path exists.
    pub open spec fn exists_path(self, path: Seq<char>) -> Step<bool> {
        let (s, reply) = self.ask(ActionView::Exists(path));
        (
            s,
            match reply {
                Some(ReplyView::Flag(b)) => Some(b),
                _ => None,
            },
        )
    }

    /// Read permission bits.
    pub open spec fn file_mode(self, path: Seq<char>) -> Step<Option<u32>> {
        let (s, reply) = self.ask(ActionView::FileMode(path));
        (
            s,
            match reply {
                Some(ReplyView::Mode(mode)) => Some(mode),
                _ => None,
            },
        )
    }

    /// Make a change to the file system.
    pub open spec fn change(self, action: ActionView) -> Step<Result<(), Seq<char>>> {
        let (s, reply) = self.ask(action);
        (
            s,
            match reply {
                Some(ReplyView::Finished(r)) => Some(r),
                _ => None,
            },
        )
    }

    /// Take a lock where it is free.
    pub open spec fn try_lock(self, path: Seq<char>) -> Step<Result<bool, Seq<char>>> {
        let (s, reply) = self.ask(ActionView::TryLock(path));
        (
            s,
            match reply {
                Some(ReplyView::Taken(r)) => Some(r),
                _ => None,
            },
        )
    }

    /// Remove a file.
    pub open spec fn remove_file(self, path: Seq<char>) -> Step<RemovalView> {
        let (s, reply) = self.ask(ActionView::RemoveFile(path));
        (
            s,
            match reply {
                Some(ReplyView::Removed(removal)) => Some(removal),
                _ => None,
            },
        )
    }

    /// Read numbers of seconds.
    pub open spec fn parse_seconds(self, texts: Seq<Seq<char>>) -> Step<Seq<Option<i64>>> {
        let (s, reply) = self.ask(ActionView::ParseSeconds(texts));
        (
            s,
            match reply {
                Some(ReplyView::Seconds(tenths)) => Some(tenths),
                _ => None,
            },
        )
    }

    /// Write JSON.
    pub open spec fn encode(self, action: ActionView) -> Step<Seq<char>> {
        let (s, reply) = self.ask(action);
        (
            s,
            match reply {
                Some(ReplyView::Json(json)) => Some(json),
                _ => None,
            },
        )
    }

    /// Read a journal.
    pub open spec fn decode_journal(self, json: Seq<char>) -> Step<Option<JournalView>> {
        let (s, reply) = self.ask(ActionView::DecodeJournal(json));
        (
            s,
            match reply {
                Some(ReplyView::Decoded(journal)) => Some(journal),
                _ => None,
            },
        )
    }
}

/// A copy of a result with a message.
fn copy_output(r: &Result<CommandOutput, String>) -> (c: Result<CommandOutput, String>)
    ensures
        told(c) == told(*r),
{
    match r {
        Ok(out) => Ok(out.clone()),
        Err(e) => Err(e.clone()),
    }
}

impl Session {
    /// A session without replies.
    pub fn new() -> (r: Self)
        ensures
            r.deep_view() == (SessionView { replies: Seq::empty(), asked: Seq::empty() }),
    {
        let r = Session { replies: Vec::new(), asked: Vec::new() };
        proof {
            assert(r.deep_view() =~= SessionView { replies: Seq::empty(), asked: Seq::empty() });
        }
        r
    }

    /// What the operation asked for last: where it stopped for want of a reply,
    /// the action to perform.
    pub fn pending(&self) -> (r: Option<&Action>)
        ensures
            r.deep_view() == (if self.deep_view().asked.len() == 0 {
                None
            } else {
                Some(self.deep_view().asked.last())
            }),
    {
        let n: usize = self.asked.len();
        if n == 0 {
            None
        } else {
            proof {
                assert(self.asked.deep_view().last() == self.asked@[n - 1].deep_view());
            }
            Some(&self.asked[n - 1])
        }
    }

    /// Everything that the operation has asked for.
    pub fn asked(&self) -> (r: &Vec<Action>)
        ensures
            r.deep_view() == self.deep_view().asked,
    {
        &self.asked
    }

    /// Give the reply to what was asked for last, and get ready to run the
    /// operation again.
    pub fn answer(&mut self, reply: Reply)
        ensures
            final(self).deep_view().asked == Seq::<ActionView>::empty(),
            final(self).deep_view().replies == ({
                let n = old(self).deep_view().asked.len() - 1;
                let replies = old(self).deep_view().replies;
                if 0 <= n < replies.len() {
                    replies.take(n)
                } else {
                    replies
                }
            }).push(reply.deep_view()),
    {
        let ghost replies = self.replies.deep_view();
        let n: usize = self.asked.len();
        if n > 0 && n - 1 < self.replies.len() {
            self.replies.truncate(n - 1);
            proof {
                assert(self.replies.deep_view() =~= replies.take(n - 1));
            }
        }
        let ghost kept = self.replies.deep_view();
        let ghost r = reply.deep_view();
        self.replies.push(reply);
        self.asked = Vec::new();
        proof {
            assert(self.replies.deep_view() =~= kept.push(r));
            assert(self.asked.deep_view() =~= Seq::<ActionView>::empty());
        }
    }

    /// Ask for an action; the index of its reply, where there is one.
    fn ask(&mut self, action: Action) -> (r: Option<usize>)
        ensures
            final(self).deep_view() == old(self).deep_view().ask(action.deep_view()).0,
            match r {
                Some(i) => i < final(self).replies@.len() && old(self).deep_view().ask(
                    action.deep_view(),
                ).1 == Some(final(self).replies@[i as int].deep_view()),
                None => old(self).deep_view().ask(action.deep_view()).1 is None,
            },
    {
        let ghost before = self.deep_view();
        let ghost a = action.deep_view();
        let n: usize = self.asked.len();
        self.asked.push(action);
        proof {
            assert(self.asked.deep_view() =~= before.asked.push(a));
            assert(self.deep_view() =~= before.ask(a).0);
        }
        if n < self.replies.len() {
            proof {
                assert(before.replies[n as int] == self.replies@[n as int].deep_view());
            }
            Some(n)
        } else {
            None
        }
    }

    /// Run a program and capture its output.
    pub fn run(&mut self, program: &str, args: Vec<String>) -> (r: Option<
        Result<CommandOutput, String>,
    >)
        ensures
            (
                final(self).deep_view(),
                match r {
                    Some(x) => Some(told(x)),
                    None => None,
                },
            ) == old(self).deep_view().run(program@, args.deep_view()),
    {
        match self.ask(Action::Run { program: program.to_owned(), args }) {
            Some(i) => match &self.replies[i] {
                Reply::Ran(x) => Some(copy_output(x)),
                _ => None,
            },
            None => None,
        }
    }

    /// Run a program with the caller's standard input and output.
    pub fn run_passthrough(&mut self, program: &str, args: Vec<String>) -> (r: Option<
        Result<Option<i32>, String>,
    >)
        ensures
            (
                final(self).deep_view(),
                match r {
                    Some(x) => Some(told(x)),
                    None => None,
                },
            ) == old(self).deep_view().run_passthrough(program@, args.deep_view()),
    {
        match self.ask(Action::RunPassthrough { program: program.to_owned(), args }) {
            Some(i) => match &self.replies[i] {
                Reply::Exited(x) => match x {
                    Ok(code) => Some(Ok(*code)),
                    Err(e) => Some(Err(e.clone())),
                },
                _ => None,
            },
            None => None,
        }
    }

    /// Wait for a number of milliseconds.
    pub fn sleep(&mut self, ms: u64) -> (r: Option<()>)
        ensures
            (final(self).deep_view(), r) == old(self).deep_view().sleep(ms),
    {
        match self.ask(Action::Sleep(ms)) {
            Some(i) => match &self.replies[i] {
                Reply::Slept => Some(()),
                _ => None,
            },
            None => None,
        }
    }

    /// Read the clock.
    pub fn now(&mut self) -> (r: Option<u64>)
        ensures
            (final(self).deep_view(), r) == old(self).deep_view().now(),
    {
        match self.ask(Action::Now) {
            Some(i) => match &self.replies[i] {
                Reply::Time(now) => Some(*now),
                _ => None,
            },
            None => None,
        }
    }

    /// List the names of the files in a directory.
    pub fn list_dir(&mut self, path: &str) -> (r: Option<DirListing>)
        ensures
            (final(self).deep_view(), r.deep_view()) == old(self).deep_view().list_dir(path@),
    {
        match self.ask(Action::ListDir(path.to_owned())) {
            Some(i) => match &self.replies[i] {
                Reply::Listing(listing) => match listing {
                    DirListing::Missing => Some(DirListing::Missing),
                    DirListing::Failed(source) => Some(DirListing::Failed(source.clone())),
                    DirListing::Partial { files, source } => Some(
                        DirListing::Partial {
                            files: status::copy_texts(files),
                            source: source.clone(),
                        },
                    ),
                    DirListing::Files(files) => Some(
                        DirListing::Files(status::copy_texts(files)),
                    ),
                },
                _ => None,
            },
            None => None,
        }
    }

    /// Read a text file.
    pub fn read_file(&mut self, path: &str) -> (r: Option<FileText>)
        ensures
            (final(self).deep_view(), r.deep_view()) == old(self).deep_view().read_file(path@),
    {
        match self.ask(Action::ReadFile(path.to_owned())) {
            Some(i) => match &self.replies[i] {
                Reply::Contents(contents) => match contents {
                    FileText::Missing(source) => Some(FileText::Missing(source.clone())),
                    FileText::Failed(source) => Some(FileText::Failed(source.clone())),
                    FileText::Text(held) => Some(FileText::Text(held.clone())),
                },
                _ => None,
            },
            None => None,
        }
    }

    /// Find out whether a path is a regular file.
    pub fn is_file(&mut self, path: &str) -> (r: Option<bool>)
        ensures
            (final(self).deep_view(), r) == old(self).deep_view().is_file(path@),
    {
        match self.ask(Action::IsFile(path.to_owned())) {
            Some(i) => match &self.replies[i] {
                Reply::Flag(b) => Some(*b),
                _ => None,
            },
            None => None,
        }
    }

    /// Find out whether a path exists.
    pub fn exists_path(&mut self, path: &str) -> (r: Option<bool>)
        ensures
            (final(self).deep_view(), r) == old(self).deep_view().exists_path(path@),
    {
        match self.ask(Action::Exists(path.to_owned())) {
            Some(i) => match &self.replies[i] {
                Reply::Flag(b) => Some(*b),
                _ => None,
            },
            None => None,
        }
    }

    /// Read the permission bits of a file.
    pub fn file_mode(&mut self, path: &str) -> (r: Option<Option<u32>>)
        ensures
            (final(self).deep_view(), r) == old(self).deep_view().file_mode(path@),
    {
        match self.ask(Action::FileMode(path.to_owned())) {
            Some(i) => match &self.replies[i] {
                Reply::Mode(mode) => Some(*mode),
                _ => None,
            },
            None => None,
        }
    }

    /// Make a change to the file system.
    pub fn change(&mut self, action: Action) -> (r: Option<Result<(), String>>)
        ensures
            (
                final(self).deep_view(),
                match r {
                    Some(x) => Some(told(x)),
                    None => None,
                },
            ) == old(self).deep_view().change(action.deep_view()),
    {
        match self.ask(action) {
            Some(i) => match &self.replies[i] {
                Reply::Finished(x) => match x {
                    Ok(_) => Some(Ok(())),
                    Err(e) => Some(Err(e.clone())),
                },
                _ => None,
            },
            None => None,
        }
    }

    /// Take a lock where it is free.
    pub fn try_lock(&mut self, path: &str) -> (r: Option<Result<bool, String>>)
        ensures
            (
                final(self).deep_view(),
                match r {
                    Some(x) => Some(told(x)),
                    None => None,
                },
            ) == old(self).deep_view().try_lock(path@),
    {
        match self.ask(Action::TryLock(path.to_owned())) {
            Some(i) => match &self.replies[i] {
                Reply::Taken(x) => match x {
                    Ok(taken) => Some(Ok(*taken)),
                    Err(e) => Some(Err(e.clone())),
                },
                _ => None,
            },
            None => None,
        }
    }

    /// Remove a file.
    pub fn remove_file(&mut self, path: &str) -> (r: Option<Removal>)
        ensures
            (final(self).deep_view(), r.deep_view()) == old(self).deep_view().remove_file(path@),
    {
        match self.ask(Action::RemoveFile(path.to_owned())) {
            Some(i) => match &self.replies[i] {
                Reply::Removed(removal) => match removal {
                    Removal::Removed => Some(Removal::Removed),
                    Removal::Missing => Some(Removal::Missing),
                    Removal::Failed(source) => Some(Removal::Failed(source.clone())),
                },
                _ => None,
            },
            None => None,
        }
    }

    /// Read each text as a number of seconds.
    pub fn parse_seconds(&mut self, texts: Vec<String>) -> (r: Option<Vec<Option<i64>>>)
        ensures
            (
                final(self).deep_view(),
                match r {
                    Some(x) => Some(x@),
                    None => None,
                },
            ) == old(self).deep_view().parse_seconds(texts.deep_view()),
    {
        match self.ask(Action::ParseSeconds(texts)) {
            Some(i) => match &self.replies[i] {
                Reply::Seconds(tenths) => {
                    let mut copy: Vec<Option<i64>> = Vec::new();
                    let mut k: usize = 0;
                    while k < tenths.len()
                        invariant
                            k <= tenths@.len(),
                            copy@ == tenths@.take(k as int),
                        decreases tenths@.len() - k,
                    {
                        copy.push(tenths[k]);
                        k = k + 1;
                    }
                    proof {
                        assert(tenths@.take(tenths@.len() as int) =~= tenths@);
                    }
                    Some(copy)
                },
                _ => None,
            },
            None => None,
        }
    }

    /// Write JSON.
    pub fn encode(&mut self, action: Action) -> (r: Option<String>)
        ensures
            (final(self).deep_view(), r.deep_view()) == old(self).deep_view().encode(
                action.deep_view(),
            ),
    {
        match self.ask(action) {
            Some(i) => match &self.replies[i] {
                Reply::Json(json) => Some(json.clone()),
                _ => None,
            },
            None => None,
        }
    }

    /// Read a journal.
    pub fn decode_journal(&mut self, json: String) -> (r: Option<Option<Journal>>)
        ensures
            (final(self).deep_view(), r.deep_view()) == old(self).deep_view().decode_journal(json@),
    {
        match self.ask(Action::DecodeJournal(json)) {
            Some(i) => match &self.replies[i] {
                Reply::Decoded(journal) => match journal {
                    Some(j) => Some(Some(j.clone())),
                    None => Some(None),
                },
                _ => None,
            },
            None => None,
        }
    }
}

/// Have a runner perform an action, where it is to run a program: the reply
/// holds what the runner returned for that program and those arguments.
pub fn perform<R: CommandRunner>(runner: &R, action: &Action) -> (r: Option<Reply>)
    ensures
        match *action {
            Action::Run { program, args } => exists|p: &str, out: Result<CommandOutput, String>|
                p@ == program@ && r == Some(Reply::Ran(out)) && #[trigger] call_ensures(
                    R::run,
                    (runner, p, &args),
                    out,
                ),
            Action::RunPassthrough { program, args } => exists|
                p: &str,
                out: Result<Option<i32>, String>,
            |
                p@ == program@ && r == Some(Reply::Exited(out)) && #[trigger] call_ensures(
                    R::run_passthrough,
                    (runner, p, &args),
                    out,
                ),
            _ => r is None,
        },
{
    match action {
        Action::Run { program, args } => Some(Reply::Ran(runner.run(program.as_str(), args))),
        Action::RunPassthrough { program, args } => Some(
            Reply::Exited(runner.run_passthrough(program.as_str(), args)),
        ),
        _ => None,
    }
}

} // verus!
