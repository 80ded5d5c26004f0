//! Where journals are kept, how they are written, read and removed, and what is decided
//! of them; and how the lock is taken.
use vstd::prelude::*;

use crate::config;
use crate::config_laws;
use crate::error::ErrorView;
use crate::lock::{acquiring, try_acquiring};
use crate::order;
use crate::session::{
    ActionView, DirListingView, FileTextView, RemovalView, ReplyView, SessionView,
};
use crate::state::{
    decision, draft_path, is_journal_file, journal_path, reading, reading_all, reading_file,
    reading_from, removing, state_dir, writing, Journal, JournalView, Phase, RecoverReason,
    Reconciliation,
};
use crate::text;

verus! {

// ---------------------------------------------------------------------------
// Decisions
// ---------------------------------------------------------------------------

/// A lease has expired from its deadline on, and a journal without one never expires.
pub proof fn law_lease_expired(j: JournalView, now: u64)
    ensures
        j.lease_expired(now) <==> j.lease_deadline is Some && now >= j.lease_deadline->0,
{
}

/// A journal is left alone exactly if its tunnel was brought up, is live, and its lease
/// has not expired. Otherwise it is recovered, and the tunnel is taken down exactly if
/// it is live.
pub proof fn law_decision(j: JournalView, live: bool, now: u64)
    ensures
        decision(j, live, now) is Healthy <==> j.phase == Phase::Active && live && !(
        j.lease_deadline matches Some(d) && now >= d),
        decision(j, live, now) matches Reconciliation::Recover { tear_down, reason } ==> {
            &&& tear_down == live
            &&& reason is InterruptedUp <==> j.phase == Phase::UpPending
            &&& reason is InterruptedDown <==> j.phase == Phase::DownPending
            &&& reason is InterfaceGone <==> j.phase == Phase::Active && !live
            &&& reason is LeaseExpired <==> j.phase == Phase::Active && live
        },
{
}

/// What is said of the reasons.
pub proof fn law_reasons()
    ensures
        RecoverReason::InterfaceGone.description() == "tunnel interface vanished (crash or reboot)"@,
        RecoverReason::InterruptedUp.description() == "interrupted while bringing the tunnel up"@,
        RecoverReason::InterruptedDown.description()
            == "interrupted while bringing the tunnel down"@,
        RecoverReason::LeaseExpired.description() == "lease expired"@,
{
}

// ---------------------------------------------------------------------------
// Files
// ---------------------------------------------------------------------------

/// Journals stand in a directory below the configs, one for each tunnel, under its
/// name; a draft stands beside it under a hidden name.
pub proof fn law_journal_paths(dir: Seq<char>, tunnel: Seq<char>)
    ensures
        state_dir(dir) == config::path_in(dir, "state"@),
        journal_path(dir, tunnel) == config::path_in(state_dir(dir), tunnel + ".json"@),
        draft_path(dir, tunnel) == config::path_in(state_dir(dir), "."@ + tunnel + ".json.tmp"@),
{
}

/// A file is a journal exactly if it has a name and `.json` behind it.
pub proof fn law_is_journal_file(file: Seq<char>)
    ensures
        is_journal_file(file) <==> exists|stem: Seq<char>|
            stem.len() > 0 && file == #[trigger] (stem + ".json"@),
{
    reveal_strlit(".json");
    reveal_strlit("json");
    assert(".json"@ =~= seq!['.'] + "json"@);
    if is_journal_file(file) {
        text::lemma_rfind(file, '.');
        let i = text::rfind(file, '.')->0;
        let stem = file.take(i);
        assert(file =~= stem + seq!['.'] + file.skip(i + 1));
        assert(file =~= stem + ".json"@);
    }
    if exists|stem: Seq<char>| stem.len() > 0 && file == #[trigger] (stem + ".json"@) {
        let stem = choose|stem: Seq<char>| stem.len() > 0 && file == #[trigger] (stem + ".json"@);
        assert(file =~= stem + seq!['.'] + "json"@);
        assert(!"json"@.contains('.'));
        config_laws::law_stem_and_extension(stem, "json"@);
    }
}

/// The actions that write a journal: its directory is made and closed to others, a
/// draft is written and closed to others, and then put in place.
pub open spec fn write_actions(dir: Seq<char>, j: JournalView, json: Seq<char>) -> Seq<ActionView> {
    seq![
        ActionView::CreateDir(state_dir(dir)),
        ActionView::Restrict { path: state_dir(dir), mode: 0o700 },
        ActionView::EncodeJournal(j),
        ActionView::WriteFile { path: draft_path(dir, j.tunnel), contents: json },
        ActionView::Restrict { path: draft_path(dir, j.tunnel), mode: 0o600 },
        ActionView::Rename {
            from: draft_path(dir, j.tunnel),
            to: journal_path(dir, j.tunnel),
        },
    ]
}

/// A journal is written with these actions, in this order, and as far as they succeed;
/// only the permissions may fail.
pub proof fn law_writing(
    s: SessionView,
    dir: Seq<char>,
    j: JournalView,
    made: Result<(), Seq<char>>,
    closed: Result<(), Seq<char>>,
    json: Seq<char>,
    written: Result<(), Seq<char>>,
    hidden: Result<(), Seq<char>>,
    renamed: Result<(), Seq<char>>,
)
    requires
        s.asked.len() + 6 <= s.replies.len(),
        ({
            let n = s.asked.len() as int;
            &&& s.replies[n] == ReplyView::Finished(made)
            &&& s.replies[n + 1] == ReplyView::Finished(closed)
            &&& s.replies[n + 2] == ReplyView::Json(json)
            &&& s.replies[n + 3] == ReplyView::Finished(written)
            &&& s.replies[n + 4] == ReplyView::Finished(hidden)
            &&& s.replies[n + 5] == ReplyView::Finished(renamed)
        }),
    ensures
        ({
            let (t, done) = writing(s, dir, j);
            let all = write_actions(dir, j, json);
            match (made, written, renamed) {
                (Err(source), _, _) => t.asked == s.asked + all.take(1) && (done matches Some(
                    Err(e),
                ) && e == ErrorView::ConfigDir(state_dir(dir), source)),
                (Ok(_), Err(source), _) => t.asked == s.asked + all.take(4) && (done matches Some(
                    Err(e),
                ) && e == (ErrorView::Write { path: draft_path(dir, j.tunnel), source })),
                (Ok(_), Ok(_), Err(source)) => t.asked == s.asked + all && (done matches Some(
                    Err(e),
                ) && e == (ErrorView::Write { path: journal_path(dir, j.tunnel), source })),
                (Ok(_), Ok(_), Ok(_)) => t.asked == s.asked + all && (done matches Some(Ok(_))),
            }
        }),
{
    let (t, done) = writing(s, dir, j);
    let all = write_actions(dir, j, json);
    if made is Err {
        assert(t.asked =~= s.asked + all.take(1));
    } else if written is Err {
        assert(t.asked =~= s.asked + all.take(4));
    } else {
        assert(t.asked =~= s.asked + all);
    }
}

/// A journal is read from its file and decoded; there is none where the file is missing
/// or cannot be read, or holds something else.
pub proof fn law_reading(s: SessionView, dir: Seq<char>, tunnel: Seq<char>)
    ensures
        reading(s, dir, tunnel) == reading_file(s, journal_path(dir, tunnel)),
        ({
            let path = journal_path(dir, tunnel);
            let n = s.asked.len() as int;
            let (t, read) = reading(s, dir, tunnel);
            n < s.replies.len() ==> match s.replies[n] {
                ReplyView::Contents(FileTextView::Text(json)) => {
                    &&& t.asked == s.asked.push(ActionView::ReadFile(path)).push(
                        ActionView::DecodeJournal(json),
                    )
                    &&& n + 1 < s.replies.len() ==> match s.replies[n + 1] {
                        ReplyView::Decoded(j) => read == Some(j),
                        _ => read is None,
                    }
                },
                ReplyView::Contents(_) => t.asked == s.asked.push(ActionView::ReadFile(path)) && (
                read matches Some(none) && none is None),
                _ => read is None,
            }
        }),
{
}

/// Every journal in the directory is read, one after the other, and what is no journal
/// is passed over; in the end they are in the order of their tunnels, none lost.
pub proof fn law_reading_from(
    s: SessionView,
    dir: Seq<char>,
    files: Seq<Seq<char>>,
    i: int,
    found: Seq<JournalView>,
)
    requires
        0 <= i <= files.len(),
    ensures
        i == files.len() ==> {
            let (t, all) = reading_from(s, dir, files, i, found);
            &&& t == s
            &&& all matches Some(sorted)
            &&& sorted.to_multiset() == found.to_multiset()
            &&& forall|a: int, b: int|
                0 <= a < b < sorted.len() ==> !order::text_before(
                    (#[trigger] sorted[b]).tunnel,
                    (#[trigger] sorted[a]).tunnel,
                )
        },
        i < files.len() ==> ({
            let (t, one) = reading_file(s, config::path_in(dir, files[i]));
            if !(exists|stem: Seq<char>|
                stem.len() > 0 && files[i] == #[trigger] (stem + ".json"@)) {
                reading_from(s, dir, files, i, found) == reading_from(s, dir, files, i + 1, found)
            } else {
                match one {
                    None => reading_from(s, dir, files, i, found).1 is None,
                    Some(Some(j)) => reading_from(s, dir, files, i, found) == reading_from(
                        t,
                        dir,
                        files,
                        i + 1,
                        found.push(j),
                    ),
                    Some(None) => reading_from(s, dir, files, i, found) == reading_from(
                        t,
                        dir,
                        files,
                        i + 1,
                        found,
                    ),
                }
            }
        }),
{
    if i < files.len() {
        law_is_journal_file(files[i]);
    } else {
        order::lemma_sorted::<Journal>(found);
        let sorted = order::sorted::<Journal>(found);
        assert forall|a: int, b: int| 0 <= a < b < sorted.len() implies !order::text_before(
            (#[trigger] sorted[b]).tunnel,
            (#[trigger] sorted[a]).tunnel,
        ) by {
            assert(!<Journal as order::Ranked>::ranks_before(sorted[b], sorted[a]));
        }
    }
}

/// The journals are those of the files of their directory, also where it could be
/// listed only in part; there are none where it is missing or cannot be listed.
pub proof fn law_reading_all(s: SessionView, dir: Seq<char>)
    ensures
        ({
            let n = s.asked.len() as int;
            let listed = SessionView {
                asked: s.asked.push(ActionView::ListDir(state_dir(dir))),
                ..s
            };
            n < s.replies.len() ==> match s.replies[n] {
                ReplyView::Listing(DirListingView::Files(files)) => reading_all(s, dir)
                    == reading_from(listed, state_dir(dir), files, 0, Seq::empty()),
                ReplyView::Listing(DirListingView::Partial { files, .. }) => reading_all(s, dir)
                    == reading_from(listed, state_dir(dir), files, 0, Seq::empty()),
                ReplyView::Listing(_) => reading_all(s, dir).0 == listed && (reading_all(
                    s,
                    dir,
                ).1 matches Some(all) && all.len() == 0),
                _ => reading_all(s, dir).1 is None,
            }
        }),
{
}

/// A journal is removed with its file; that it was not there is no error.
pub proof fn law_removing(s: SessionView, dir: Seq<char>, tunnel: Seq<char>)
    ensures
        ({
            let n = s.asked.len() as int;
            let (t, done) = removing(s, dir, tunnel);
            &&& t.replies == s.replies
            &&& t.asked == s.asked.push(ActionView::RemoveFile(journal_path(dir, tunnel)))
            &&& n < s.replies.len() ==> match s.replies[n] {
                ReplyView::Removed(RemovalView::Failed(source)) => done matches Some(Err(e)) && e
                    == (ErrorView::Write { path: journal_path(dir, tunnel), source }),
                ReplyView::Removed(_) => done matches Some(Ok(_)),
                _ => done is None,
            }
        }),
{
}

// ---------------------------------------------------------------------------
// The lock
// ---------------------------------------------------------------------------

/// The lock is a file in the config directory, which is made where it is missing; it is
/// taken exactly where taking it is reported to have worked.
pub proof fn law_locking(s: SessionView, dir: Seq<char>)
    ensures
        ({
            let n = s.asked.len() as int;
            let path = config::path_in(dir, ".vpn.lock"@);
            let made = s.asked.push(ActionView::CreateDir(dir));
            n + 1 < s.replies.len() ==> match s.replies[n] {
                ReplyView::Finished(Err(source)) => {
                    let e = ErrorView::ConfigDir(dir, source);
                    &&& acquiring(s, dir).0.asked == made
                    &&& acquiring(s, dir).1 matches Some(Err(e1)) && e1 == e
                    &&& try_acquiring(s, dir).0.asked == made
                    &&& try_acquiring(s, dir).1 matches Some(Err(e2)) && e2 == e
                },
                ReplyView::Finished(Ok(_)) => {
                    &&& acquiring(s, dir).0.asked == made.push(ActionView::Lock(path))
                    &&& try_acquiring(s, dir).0.asked == made.push(ActionView::TryLock(path))
                    &&& match s.replies[n + 1] {
                        ReplyView::Finished(Ok(_)) => acquiring(s, dir).1 matches Some(Ok(_)),
                        ReplyView::Finished(Err(source)) => acquiring(s, dir).1 matches Some(
                            Err(e),
                        ) && e == (ErrorView::Write { path, source }),
                        _ => acquiring(s, dir).1 is None,
                    }
                    &&& match s.replies[n + 1] {
                        ReplyView::Taken(Ok(free)) => try_acquiring(s, dir).1 matches Some(Ok(got))
                            && got == free,
                        ReplyView::Taken(Err(source)) => try_acquiring(s, dir).1 matches Some(
                            Err(e),
                        ) && e == (ErrorView::Write { path, source }),
                        _ => try_acquiring(s, dir).1 is None,
                    }
                },
                _ => acquiring(s, dir).1 is None && try_acquiring(s, dir).1 is None,
            }
        }),
{
}

} // verus!
