//! Crash-safe host-state journal.
//!
//! An agent driving `vpn` is killed mid-operation as a matter of course
//! (context limits, timeouts, Ctrl-C, a closing lid). WireGuard's own teardown
//! on macOS trusts a backgrounded process's memory to undo host mutations, so a
//! `SIGKILL` at the wrong instant strands the machine — most visibly with the
//! tunnel's DNS resolver left pinned system-wide (see [`crate::dns`]).
//!
//! This module records enough on disk, *before* each mutation, to reconstruct
//! the pre-tunnel host state from a cold start. Every mutating command begins
//! by reconciling these journals against the live system, so a partial
//! operation is always rolled forward or back the next time `vpn` runs — even
//! after `kill -9` or a reboot. The recovery data lives on disk, never in a
//! process that can die with it.
use vstd::prelude::*;

use crate::config;
use crate::error::{so_far, Error, ErrorView};
use crate::order;
use crate::order::TextMap;
use crate::session::{
    Action, ActionView, DirListing, DirListingView, FileText, FileTextView, Removal, RemovalView,
    ReplyView,
    Session, SessionView, Step,
};
use crate::status;
use crate::text;

verus! {

/// Sub-directory of the config dir holding one `<tunnel>.json` journal per
/// in-flight or active tunnel. Not scanned by tunnel discovery (that only
/// looks at `*.conf`).
pub const STATE_DIR: &'static str = "state";

/// Where a mutating operation is in its lifecycle. The journal is written
/// *before* the corresponding host mutation, so a crash leaves a record that
/// [`reconcile_one`] can act on.
#[derive(Debug, Clone, Copy, PartialEq, Eq, Structural)]
pub enum Phase {
    /// `wg-quick up` is about to run or is running: the interface and DNS may
    /// be half-applied.
    UpPending,
    /// The tunnel is fully up and owns the host DNS.
    Active,
    /// `wg-quick down` is about to run or is running: finish the teardown and
    /// restore the host on recovery.
    DownPending,
}

/// Network services with their DNS servers, in the order of the services.
pub type Snapshot = Seq<(Seq<char>, Seq<Seq<char>>)>;

/// The on-disk record for one tunnel.
#[derive(Debug, PartialEq, Eq)]
pub struct Journal {
    /// Tunnel (config) name this journal belongs to.
    pub tunnel: String,
    /// Lifecycle phase at the last write.
    pub phase: Phase,
    /// Kernel interface backing the tunnel once known (e.g. `utun4`).
    pub interface: Option<String>,
    /// Absolute Unix deadline (seconds) after which the tunnel must be torn
    /// down automatically; `None` means no lease.
    pub lease_deadline: Option<u64>,
    /// Per-network-service DNS to restore on teardown, sanitized so it never
    /// contains the tunnel's own resolver. An empty list means "back to
    /// DHCP" for that service.
    pub dns_snapshot: TextMap<Vec<String>>,
    /// The tunnel's own `DNS =` servers, kept so recovery can recognize and
    /// clear the pinned resolver even without the config file.
    pub tunnel_dns: Vec<String>,
}

/// A [`Journal`] with its texts as sequences of characters.
#[verifier::ext_equal]
pub struct JournalView {
    /// Tunnel name.
    pub tunnel: Seq<char>,
    /// Lifecycle phase.
    pub phase: Phase,
    /// Kernel interface.
    pub interface: Option<Seq<char>>,
    /// Lease deadline.
    pub lease_deadline: Option<u64>,
    /// DNS to restore on teardown.
    pub dns_snapshot: Snapshot,
    /// The tunnel's own DNS servers.
    pub tunnel_dns: Seq<Seq<char>>,
}

impl DeepView for Journal {
    type V = JournalView;

    open spec fn deep_view(&self) -> JournalView {
        JournalView {
            tunnel: self.tunnel@,
            phase: self.phase,
            interface: self.interface.deep_view(),
            lease_deadline: self.lease_deadline,
            dns_snapshot: self.dns_snapshot.deep_view(),
            tunnel_dns: self.tunnel_dns.deep_view(),
        }
    }
}

impl order::Ranked for Journal {
    open spec fn ranks_before(a: JournalView, b: JournalView) -> bool {
        order::text_before(a.tunnel, b.tunnel)
    }

    fn precedes(&self, other: &Self) -> (r: bool) {
        order::comes_before(&self.tunnel, &other.tunnel)
    }

    proof fn lemma_rank(a: JournalView, b: JournalView, c: JournalView) {
        <String as order::Ranked>::lemma_rank(a.tunnel, b.tunnel, c.tunnel);
    }
}

/// A copy of a snapshot.
pub fn copy_snapshot(snapshot: &TextMap<Vec<String>>) -> (r: TextMap<Vec<String>>)
    ensures
        r.deep_view() == snapshot.deep_view(),
{
    let from = snapshot.entries();
    let mut entries: Vec<(String, Vec<String>)> = Vec::new();
    let mut i: usize = 0;
    while i < from.len()
        invariant
            i <= from@.len(),
            entries@.len() == i,
            forall|j: int|
                0 <= j < i ==> #[trigger] entries@[j].deep_view()
                    == from@[j].deep_view(),
        decreases from@.len() - i,
    {
        let key = from[i].0.clone();
        let value = status::copy_texts(&from[i].1);
        entries.push((key, value));
        proof {
            assert(entries@[i as int].deep_view() == from@[i as int].deep_view());
        }
        i = i + 1;
    }
    proof {
        assert(entries.deep_view() =~= from.deep_view());
    }
    TextMap::from_entries(entries)
}

impl Clone for Journal {
    fn clone(&self) -> (r: Self)
        ensures
            r.deep_view() == self.deep_view(),
    {
        Journal {
            tunnel: self.tunnel.clone(),
            phase: self.phase,
            interface: status::copy_option(&self.interface),
            lease_deadline: self.lease_deadline,
            dns_snapshot: copy_snapshot(&self.dns_snapshot),
            tunnel_dns: status::copy_texts(&self.tunnel_dns),
        }
    }
}

impl JournalView {
    /// Whether the lease (if any) has expired at `now`.
    pub open spec fn lease_expired(self, now: u64) -> bool {
        match self.lease_deadline {
            Some(deadline) => now >= deadline,
            None => false,
        }
    }
}

impl Journal {
    /// Whether this journal's lease (if any) has expired at `now`.
    pub fn lease_expired(&self, now: u64) -> (r: bool)
        ensures
            r == self.deep_view().lease_expired(now),
    {
        match self.lease_deadline {
            Some(deadline) => now >= deadline,
            None => false,
        }
    }
}

/// The state directory inside `config_dir`.
pub open spec fn state_dir(config_dir: Seq<char>) -> Seq<char> {
    config::path_in(config_dir, STATE_DIR@)
}

/// Path to one tunnel's journal file.
pub open spec fn journal_path(config_dir: Seq<char>, tunnel: Seq<char>) -> Seq<char> {
    config::path_in(state_dir(config_dir), tunnel + ".json"@)
}

/// The state directory inside `config_dir`.
pub fn dir(config_dir: &str) -> (r: String)
    ensures
        r@ == state_dir(config_dir@),
{
    config::join_path(config_dir, STATE_DIR)
}

/// Path to one tunnel's journal file.
pub fn path(config_dir: &str, tunnel: &str) -> (r: String)
    ensures
        r@ == journal_path(config_dir@, tunnel@),
{
    let parent = dir(config_dir);
    let mut file = tunnel.to_owned();
    file.append(".json");
    config::join_path(&parent, &file)
}

/// What reconciliation decided for a single journal, given the live system.
#[derive(Debug, Clone, Copy, PartialEq, Eq, Structural)]
pub enum Reconciliation {
    /// Journal matches reality (active, within lease) — leave it untouched.
    Healthy,
    /// The tunnel must be brought back to a clean host state. `tear_down` is
    /// `true` when a live interface still needs `wg-quick down` first; either
    /// way the DNS snapshot is restored and the journal cleared afterwards.
    Recover {
        /// Whether a live interface still needs tearing down.
        tear_down: bool,
        /// Why recovery is happening (for reporting).
        reason: RecoverReason,
    },
}

/// Why a journal needs recovery.
#[derive(Debug, Clone, Copy, PartialEq, Eq, Structural)]
pub enum RecoverReason {
    /// `Active` but the interface vanished (crash/reboot killed the tunnel).
    InterfaceGone,
    /// Crash during `up` — interface and DNS may be half-applied.
    InterruptedUp,
    /// Crash during `down` — finish the teardown.
    InterruptedDown,
    /// Lease deadline passed; tear the tunnel down.
    LeaseExpired,
}

impl RecoverReason {
    /// What is said of each reason.
    pub open spec fn description(self) -> Seq<char> {
        match self {
            RecoverReason::InterfaceGone => "tunnel interface vanished (crash or reboot)"@,
            RecoverReason::InterruptedUp => "interrupted while bringing the tunnel up"@,
            RecoverReason::InterruptedDown => "interrupted while bringing the tunnel down"@,
            RecoverReason::LeaseExpired => "lease expired"@,
        }
    }

    /// A short human explanation for reports.
    pub fn describe(&self) -> (r: &'static str)
        ensures
            r@ == self.description(),
    {
        match self {
            RecoverReason::InterfaceGone => "tunnel interface vanished (crash or reboot)",
            RecoverReason::InterruptedUp => "interrupted while bringing the tunnel up",
            RecoverReason::InterruptedDown => "interrupted while bringing the tunnel down",
            RecoverReason::LeaseExpired => "lease expired",
        }
    }
}

/// What to do with a journal.
pub open spec fn decision(journal: JournalView, live: bool, now: u64) -> Reconciliation {
    match journal.phase {
        Phase::Active => if !live {
            Reconciliation::Recover { tear_down: false, reason: RecoverReason::InterfaceGone }
        } else if journal.lease_expired(now) {
            Reconciliation::Recover { tear_down: true, reason: RecoverReason::LeaseExpired }
        } else {
            Reconciliation::Healthy
        },
        Phase::UpPending => Reconciliation::Recover {
            tear_down: live,
            reason: RecoverReason::InterruptedUp,
        },
        Phase::DownPending => Reconciliation::Recover {
            tear_down: live,
            reason: RecoverReason::InterruptedDown,
        },
    }
}

/// Decide what to do with one journal given whether its interface is live and
/// the current time. Pure and total — the whole reconcile policy in one place.
pub fn reconcile_one(journal: &Journal, live: bool, now: u64) -> (r: Reconciliation)
    ensures
        r == decision(journal.deep_view(), live, now),
{
    match journal.phase {
        Phase::Active => {
            if !live {
                Reconciliation::Recover { tear_down: false, reason: RecoverReason::InterfaceGone }
            } else if journal.lease_expired(now) {
                Reconciliation::Recover { tear_down: true, reason: RecoverReason::LeaseExpired }
            } else {
                Reconciliation::Healthy
            }
        },
        Phase::UpPending => Reconciliation::Recover {
            tear_down: live,
            reason: RecoverReason::InterruptedUp,
        },
        Phase::DownPending => Reconciliation::Recover {
            tear_down: live,
            reason: RecoverReason::InterruptedDown,
        },
    }
}

// ---------------------------------------------------------------------------
// Journals on disk
// ---------------------------------------------------------------------------

/// Path to the file that a journal is written to before it replaces the old
/// one.
pub open spec fn draft_path(config_dir: Seq<char>, tunnel: Seq<char>) -> Seq<char> {
    config::path_in(state_dir(config_dir), "."@ + tunnel + ".json.tmp"@)
}

/// Writing a journal: a draft is written and made private, then renamed over
/// the journal, which therefore is always whole. Failing to set permission bits
/// is not an error.
pub open spec fn writing(s: SessionView, config_dir: Seq<char>, journal: JournalView) -> Step<
    Result<(), ErrorView>,
> {
    let dir = state_dir(config_dir);
    let draft = draft_path(config_dir, journal.tunnel);
    let dest = journal_path(config_dir, journal.tunnel);
    let (s, created) = s.change(ActionView::CreateDir(dir));
    match created {
        None => (s, None),
        Some(Err(source)) => (s, Some(Err(ErrorView::ConfigDir(dir, source)))),
        Some(Ok(_)) => {
            let (s, private_dir) = s.change(ActionView::Restrict { path: dir, mode: 0o700 });
            if private_dir is None {
                (s, None)
            } else {
                let (s, json) = s.encode(ActionView::EncodeJournal(journal));
                match json {
                    None => (s, None),
                    Some(contents) => {
                        let (s, written) = s.change(
                            ActionView::WriteFile { path: draft, contents },
                        );
                        match written {
                            None => (s, None),
                            Some(Err(source)) => (
                                s,
                                Some(Err(ErrorView::Write { path: draft, source })),
                            ),
                            Some(Ok(_)) => {
                                let (s, private_file) = s.change(
                                    ActionView::Restrict { path: draft, mode: 0o600 },
                                );
                                if private_file is None {
                                    (s, None)
                                } else {
                                    let (s, renamed) = s.change(
                                        ActionView::Rename { from: draft, to: dest },
                                    );
                                    (
                                        s,
                                        match renamed {
                                            None => None,
                                            Some(Err(source)) => Some(
                                                Err(ErrorView::Write { path: dest, source }),
                                            ),
                                            Some(Ok(_)) => Some(Ok(())),
                                        },
                                    )
                                }
                            },
                        }
                    },
                }
            }
        },
    }
}

/// Atomically write `journal` (temp file + rename), creating the state
/// directory `0700` and the file `0600`.
pub fn write(session: &mut Session, config_dir: &str, journal: &Journal) -> (r: Option<
    Result<(), Error>,
>)
    ensures
        (final(session).deep_view(), so_far(r)) == writing(
            old(session).deep_view(),
            config_dir@,
            journal.deep_view(),
        ),
{
    let parent = dir(config_dir);
    match session.change(Action::CreateDir(parent.clone()))? {
        Err(source) => {
            return Some(Err(Error::ConfigDir(parent, source)));
        },
        Ok(_) => {},
    }
    let _ = session.change(Action::Restrict { path: parent.clone(), mode: 0o700 })?;
    let contents = session.encode(Action::EncodeJournal(journal.clone()))?;
    let mut file = ".".to_owned();
    file.append(&journal.tunnel);
    file.append(".json.tmp");
    let draft = config::join_path(&parent, &file);
    match session.change(Action::WriteFile { path: draft.clone(), contents })? {
        Err(source) => {
            return Some(Err(Error::Write { path: draft, source }));
        },
        Ok(_) => {},
    }
    let _ = session.change(Action::Restrict { path: draft.clone(), mode: 0o600 })?;
    let dest = path(config_dir, &journal.tunnel);
    match session.change(Action::Rename { from: draft, to: dest.clone() })? {
        Err(source) => Some(Err(Error::Write { path: dest, source })),
        Ok(_) => Some(Ok(())),
    }
}

/// Reading the journal in a file; a file that is absent, unreadable or corrupt
/// holds none.
pub open spec fn reading_file(s: SessionView, path: Seq<char>) -> Step<Option<JournalView>> {
    let (s, contents) = s.read_file(path);
    match contents {
        None => (s, None),
        Some(FileTextView::Text(json)) => s.decode_journal(json),
        Some(_) => (s, Some(None)),
    }
}

/// Read the journal in a file.
fn read_journal_file(session: &mut Session, path: &str) -> (r: Option<Option<Journal>>)
    ensures
        (final(session).deep_view(), r.deep_view()) == reading_file(
            old(session).deep_view(),
            path@,
        ),
{
    match session.read_file(path)? {
        FileText::Text(json) => session.decode_journal(json),
        _ => Some(None),
    }
}

/// Reading the journal of a tunnel.
pub open spec fn reading(s: SessionView, config_dir: Seq<char>, tunnel: Seq<char>) -> Step<
    Option<JournalView>,
> {
    reading_file(s, journal_path(config_dir, tunnel))
}

/// Read one tunnel's journal, or `None` if it is absent or unreadable/corrupt
/// (a corrupt journal must never wedge the tool — reconciliation treats it as
/// "no record").
pub fn read(session: &mut Session, config_dir: &str, tunnel: &str) -> (r: Option<Option<Journal>>)
    ensures
        (final(session).deep_view(), r.deep_view()) == reading(
            old(session).deep_view(),
            config_dir@,
            tunnel@,
        ),
{
    let file = path(config_dir, tunnel);
    read_journal_file(session, &file)
}

/// Whether a file of the state directory may hold a journal.
pub open spec fn is_journal_file(file: Seq<char>) -> bool {
    config::stem_and_extension(file).1 == Some("json"@)
}

/// Reading the journals in the files from `i` on, after those read already.
pub open spec fn reading_from(
    s: SessionView,
    dir: Seq<char>,
    files: Seq<Seq<char>>,
    i: int,
    found: Seq<JournalView>,
) -> Step<Seq<JournalView>>
    decreases files.len() - i,
{
    if i >= files.len() {
        (s, Some(order::sorted::<Journal>(found)))
    } else if !is_journal_file(files[i]) {
        reading_from(s, dir, files, i + 1, found)
    } else {
        let (s, journal) = reading_file(s, config::path_in(dir, files[i]));
        match journal {
            None => (s, None),
            Some(Some(j)) => reading_from(s, dir, files, i + 1, found.push(j)),
            Some(None) => reading_from(s, dir, files, i + 1, found),
        }
    }
}

/// Reading all journals of the state directory, which come sorted by tunnel
/// name. A directory that cannot be listed holds none, and of one that can be
/// listed in part, that part counts.
pub open spec fn reading_all(s: SessionView, config_dir: Seq<char>) -> Step<Seq<JournalView>> {
    let dir = state_dir(config_dir);
    let (s, listing) = s.list_dir(dir);
    match listing {
        None => (s, None),
        Some(DirListingView::Files(files)) => reading_from(s, dir, files, 0, Seq::empty()),
        Some(DirListingView::Partial { files, .. }) => reading_from(s, dir, files, 0, Seq::empty()),
        Some(_) => (s, Some(Seq::empty())),
    }
}

/// All readable journals in the state directory, sorted by tunnel name.
pub fn read_all(session: &mut Session, config_dir: &str) -> (r: Option<Vec<Journal>>)
    ensures
        (final(session).deep_view(), r.deep_view()) == reading_all(
            old(session).deep_view(),
            config_dir@,
        ),
{
    let ghost start = session.deep_view();
    let parent = dir(config_dir);
    let mut found: Vec<Journal> = Vec::new();
    proof {
        assert(found.deep_view() =~= Seq::<JournalView>::empty());
    }
    let files = match session.list_dir(&parent)? {
        DirListing::Files(files) => files,
        DirListing::Partial { files, .. } => files,
        _ => {
            return Some(found);
        },
    };
    let ghost f = files.deep_view();
    let mut i: usize = 0;
    while i < files.len()
        invariant
            parent@ == state_dir(config_dir@),
            f == files.deep_view(),
            i <= files@.len(),
            reading_all(start, config_dir@) == reading_from(
                session.deep_view(),
                parent@,
                f,
                i as int,
                found.deep_view(),
            ),
            start == old(session).deep_view(),
        decreases files@.len() - i,
    {
        let ghost before = found.deep_view();
        proof {
            assert(f[i as int] == files@[i as int]@);
        }
        let (_, extension) = config::split_extension(&files[i]);
        let is_json = match &extension {
            Some(x) => text::same(x, "json"),
            None => false,
        };
        if is_json {
            let file = config::join_path(&parent, &files[i]);
            match read_journal_file(session, &file)? {
                Some(journal) => {
                    let ghost j = journal.deep_view();
                    found.push(journal);
                    proof {
                        assert(found.deep_view() =~= before.push(j));
                    }
                },
                None => {},
            }
        }
        i = i + 1;
    }
    Some(order::sort(found))
}

/// Removing the journal of a tunnel; that it is missing is success.
pub open spec fn removing(s: SessionView, config_dir: Seq<char>, tunnel: Seq<char>) -> Step<
    Result<(), ErrorView>,
> {
    let path = journal_path(config_dir, tunnel);
    let (s, removal) = s.remove_file(path);
    (
        s,
        match removal {
            None => None,
            Some(RemovalView::Failed(source)) => Some(Err(ErrorView::Write { path, source })),
            Some(_) => Some(Ok(())),
        },
    )
}

/// Delete one tunnel's journal. Missing is success (idempotent teardown).
pub fn remove(session: &mut Session, config_dir: &str, tunnel: &str) -> (r: Option<
    Result<(), Error>,
>)
    ensures
        (final(session).deep_view(), so_far(r)) == removing(
            old(session).deep_view(),
            config_dir@,
            tunnel@,
        ),
{
    let file = path(config_dir, tunnel);
    match session.remove_file(&file)? {
        Removal::Failed(source) => Some(Err(Error::Write { path: file, source })),
        _ => Some(Ok(())),
    }
}

// ---------------------------------------------------------------------------
// Laws
// ---------------------------------------------------------------------------

/// A journal is left alone exactly if the tunnel is active, live and within its
/// lease, and an interface that is not live is never torn down.
pub proof fn law_reconcile(journal: JournalView, live: bool, now: u64)
    ensures
        decision(journal, live, now) is Healthy <==> journal.phase is Active && live
            && !journal.lease_expired(now),
        decision(journal, live, now) matches Reconciliation::Recover { tear_down, .. } ==> (
        tear_down ==> live),
{
}

/// What is read is what was written: a journal that was written is found, as it
/// was encoded, under the name that reading it asks for; and reading it gives
/// back the journal where decoding gives back what was encoded.
pub proof fn law_read_after_write(
    s: SessionView,
    t: SessionView,
    config_dir: Seq<char>,
    journal: JournalView,
    json: Seq<char>,
)
    requires
        writing(s, config_dir, journal).1 matches Some(Ok(_)),
        s.replies[s.asked.len() + 2int] == ReplyView::Json(json),
        t.replies.len() >= t.asked.len() + 2,
        t.replies[t.asked.len() as int] == ReplyView::Contents(FileTextView::Text(json)),
        t.replies[t.asked.len() + 1int] == ReplyView::Decoded(Some(journal)),
    ensures
        ({
            let file = journal_path(config_dir, journal.tunnel);
            let draft = draft_path(config_dir, journal.tunnel);
            let dir = state_dir(config_dir);
            &&& writing(s, config_dir, journal).0.asked == s.asked + seq![
                ActionView::CreateDir(dir),
                ActionView::Restrict { path: dir, mode: 0o700 },
                ActionView::EncodeJournal(journal),
                ActionView::WriteFile { path: draft, contents: json },
                ActionView::Restrict { path: draft, mode: 0o600 },
                ActionView::Rename { from: draft, to: file },
            ]
            &&& reading(t, config_dir, journal.tunnel).0.asked == t.asked + seq![
                ActionView::ReadFile(file),
                ActionView::DecodeJournal(json),
            ]
            &&& reading(t, config_dir, journal.tunnel).1 == Some(Some(journal))
        }),
{
}

/// Writing a journal never writes to the journal's own file: that only changes
/// by the rename at the end, so a journal is whole whenever the tool dies. This
/// leaves out a tunnel named by an absolute path, which is no tunnel's name.
pub proof fn law_write_is_atomic(s: SessionView, config_dir: Seq<char>, journal: JournalView)
    requires
        journal.tunnel.len() > 0 ==> journal.tunnel[0] != '/',
    ensures
        ({
            let (end, _) = writing(s, config_dir, journal);
            &&& end.asked.len() <= s.asked.len() + 6
            &&& forall|i: int|
                s.asked.len() <= i < end.asked.len() ==> (match #[trigger] end.asked[i] {
                    ActionView::WriteFile { path, .. } => path != journal_path(
                        config_dir,
                        journal.tunnel,
                    ),
                    ActionView::RemoveFile(_) => false,
                    ActionView::Rename { from, to } => i == s.asked.len() + 5 && from == draft_path(
                        config_dir,
                        journal.tunnel,
                    ) && to == journal_path(config_dir, journal.tunnel),
                    _ => true,
                })
        }),
{
    reveal_strlit(".");
    reveal_strlit(".json");
    reveal_strlit(".json.tmp");
    reveal_strlit("/");
    let file = journal_path(config_dir, journal.tunnel);
    let draft = draft_path(config_dir, journal.tunnel);
    assert((journal.tunnel + ".json"@)[0] != '/');
    assert(("."@ + journal.tunnel + ".json.tmp"@)[0] == '.');
    assert(draft.len() == file.len() + 5);
}

/// A tunnel that is live and must be recovered is torn down.
pub proof fn law_recovery_tears_down(journal: JournalView, now: u64)
    ensures
        decision(journal, true, now) matches Reconciliation::Recover { tear_down, .. } ==> tear_down,
{
}

} // verus!
