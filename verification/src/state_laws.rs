//! Journals on a disk: what reading, writing and removing them makes of each
//! other.
use vstd::prelude::*;

use crate::config;
use crate::session::{ActionView, FileTextView, RemovalView, ReplyView, SessionView};
use crate::state::{
    draft_path, journal_path, reading, removing, state_dir, writing, JournalView,
};

verus! {

// ---------------------------------------------------------------------------
// A disk
// ---------------------------------------------------------------------------

/// The files on a disk, and what each holds.
pub type Files = Map<Seq<char>, Seq<char>>;

/// How journals are written as JSON, and read.
pub struct Codec {
    /// The JSON of a journal.
    pub encode: spec_fn(JournalView) -> Seq<char>,
    /// The journal that a text holds, if it holds one.
    pub decode: spec_fn(Seq<char>) -> Option<JournalView>,
}

/// Whether `reply` is what a machine with these files answers to the action, and
/// `after` are its files then. What is on the disk can be read; a write that
/// fails may leave anything in the file that it was to write, and nowhere else;
/// a rename happens or does not.
pub open spec fn performs(
    codec: Codec,
    files: Files,
    a: ActionView,
    reply: ReplyView,
    after: Files,
) -> bool {
    match a {
        ActionView::ReadFile(path) => after == files && (reply matches ReplyView::Contents(found)
            && if files.contains_key(path) {
            found == FileTextView::Text(files[path])
        } else {
            found is Missing
        }),
        ActionView::EncodeJournal(j) => after == files && reply == ReplyView::Json(
            (codec.encode)(j),
        ),
        ActionView::DecodeJournal(json) => after == files && reply == ReplyView::Decoded(
            (codec.decode)(json),
        ),
        ActionView::WriteFile { path, contents } => if reply matches ReplyView::Finished(Ok(_)) {
            after == files.insert(path, contents)
        } else {
            after.remove(path) == files.remove(path)
        },
        ActionView::Rename { from, to } => if reply matches ReplyView::Finished(Ok(_)) {
            files.contains_key(from) && after == files.insert(to, files[from]).remove(from)
        } else {
            after == files
        },
        ActionView::RemoveFile(path) => if files.contains_key(path) {
            if reply == ReplyView::Removed(RemovalView::Removed) {
                after == files.remove(path)
            } else {
                after == files && (reply matches ReplyView::Removed(r) && r is Failed)
            }
        } else {
            after == files && reply == ReplyView::Removed(RemovalView::Missing)
        },
        _ => after == files,
    }
}

/// Whether the `i`th action from `s` to `t` takes the disk from its `i`th state
/// to the next.
pub open spec fn step_on(
    codec: Codec,
    disk: Seq<Files>,
    s: SessionView,
    t: SessionView,
    i: int,
) -> bool {
    performs(
        codec,
        disk[i],
        t.asked[s.asked.len() + i],
        t.replies[s.asked.len() + i],
        disk[i + 1],
    )
}

/// Whether what was asked from `s` to `t` was done on a disk that went through
/// these states.
pub open spec fn done_on(codec: Codec, disk: Seq<Files>, s: SessionView, t: SessionView) -> bool {
    &&& s.asked.len() <= t.asked.len() <= t.replies.len()
    &&& disk.len() == t.asked.len() - s.asked.len() + 1
    &&& forall|i: int| 0 <= i < disk.len() - 1 ==> #[trigger] step_on(codec, disk, s, t, i)
}

/// Whether a name is one that a file can have.
pub open spec fn plain_name(name: Seq<char>) -> bool {
    forall|i: int| 0 <= i < name.len() ==> #[trigger] name[i] != '/'
}

/// The journal of a tunnel that the files hold.
pub open spec fn held(
    codec: Codec,
    files: Files,
    config_dir: Seq<char>,
    tunnel: Seq<char>,
) -> Option<JournalView> {
    let path = journal_path(config_dir, tunnel);
    if files.contains_key(path) {
        (codec.decode)(files[path])
    } else {
        None
    }
}

// ---------------------------------------------------------------------------
// Paths
// ---------------------------------------------------------------------------

/// Different files in a directory have different paths.
proof fn lemma_paths_apart(dir: Seq<char>, f: Seq<char>, g: Seq<char>)
    requires
        f.len() > 0,
        g.len() > 0,
        f[0] != '/',
        g[0] != '/',
        f != g,
    ensures
        config::path_in(dir, f) != config::path_in(dir, g),
{
    let start = if dir.len() == 0 {
        Seq::empty()
    } else if dir.last() == '/' {
        dir
    } else {
        dir + "/"@
    };
    assert(config::path_in(dir, f) =~= start + f);
    assert(config::path_in(dir, g) =~= start + g);
    if start + f == start + g {
        assert(f =~= (start + f).skip(start.len() as int));
        assert(g =~= (start + g).skip(start.len() as int));
    }
}

/// The journal of a tunnel and its draft are not the journal of another.
proof fn lemma_journals_apart(config_dir: Seq<char>, a: Seq<char>, b: Seq<char>)
    requires
        plain_name(a),
        plain_name(b),
    ensures
        a != b ==> journal_path(config_dir, a) != journal_path(config_dir, b),
        draft_path(config_dir, a) != journal_path(config_dir, b),
{
    reveal_strlit(".");
    reveal_strlit(".json");
    reveal_strlit(".json.tmp");
    let dir = state_dir(config_dir);
    let f = a + ".json"@;
    let g = b + ".json"@;
    let d = "."@ + a + ".json.tmp"@;
    assert(f[0] != '/' && g[0] != '/') by {
        assert(a.len() > 0 ==> f[0] == a[0]);
        assert(b.len() > 0 ==> g[0] == b[0]);
    }
    assert(d[0] == '.');
    if a != b {
        if f == g {
            assert(a =~= f.take(f.len() - 5));
            assert(b =~= g.take(g.len() - 5));
        }
        lemma_paths_apart(dir, f, g);
    }
    assert(d[d.len() - 1] == 'p');
    assert(g[g.len() - 1] == 'n');
    lemma_paths_apart(dir, d, g);
}

// ---------------------------------------------------------------------------
// Each operation
// ---------------------------------------------------------------------------

/// Reading gives the journal that the disk holds, and changes nothing.
pub proof fn law_read_on_disk(
    codec: Codec,
    disk: Seq<Files>,
    s: SessionView,
    config_dir: Seq<char>,
    tunnel: Seq<char>,
)
    requires
        done_on(codec, disk, s, reading(s, config_dir, tunnel).0),
    ensures
        reading(s, config_dir, tunnel).1 == Some(held(codec, disk[0], config_dir, tunnel)),
        disk.last() == disk[0],
{
    let (t, found) = reading(s, config_dir, tunnel);
    let path = journal_path(config_dir, tunnel);
    assert(step_on(codec, disk, s, t, 0));
    if disk[0].contains_key(path) {
        assert(step_on(codec, disk, s, t, 1));
    }
}

/// Writing the journal of one tunnel leaves those of the others alone, whatever
/// becomes of it. Where it succeeds the disk then holds what decoding makes of the
/// journal as it was encoded, and where it fails what it held before.
pub proof fn law_write_on_disk(
    codec: Codec,
    disk: Seq<Files>,
    s: SessionView,
    config_dir: Seq<char>,
    journal: JournalView,
    other: Seq<char>,
)
    requires
        done_on(codec, disk, s, writing(s, config_dir, journal).0),
        plain_name(journal.tunnel),
        plain_name(other),
    ensures
        other != journal.tunnel ==> held(codec, disk.last(), config_dir, other) == held(
            codec,
            disk[0],
            config_dir,
            other,
        ),
        held(codec, disk.last(), config_dir, journal.tunnel) == if (writing(
            s,
            config_dir,
            journal,
        ).1 matches Some(Ok(_))) {
            (codec.decode)((codec.encode)(journal))
        } else {
            held(codec, disk[0], config_dir, journal.tunnel)
        },
{
    let (t, written) = writing(s, config_dir, journal);
    let n = s.asked.len() as int;
    let file = journal_path(config_dir, journal.tunnel);
    let draft = draft_path(config_dir, journal.tunnel);
    let another = journal_path(config_dir, other);
    lemma_journals_apart(config_dir, journal.tunnel, other);
    lemma_journals_apart(config_dir, journal.tunnel, journal.tunnel);
    assert(step_on(codec, disk, s, t, 0));
    assert(t.asked[n] is CreateDir);
    if t.asked.len() > n + 1 {
        assert(step_on(codec, disk, s, t, 1));
        assert(t.asked[n + 1] is Restrict);
    }
    if t.asked.len() > n + 2 {
        assert(step_on(codec, disk, s, t, 2));
        assert(t.asked[n + 2] == ActionView::EncodeJournal(journal));
    }
    if t.asked.len() > n + 3 {
        assert(step_on(codec, disk, s, t, 3));
        let contents = (codec.encode)(journal);
        assert(t.asked[n + 3] == ActionView::WriteFile { path: draft, contents });
        assert(disk[4].remove(draft) == disk[3].remove(draft)) by {
            assert(disk[3].insert(draft, contents).remove(draft) =~= disk[3].remove(draft));
        }
        lemma_kept(disk[3], disk[4], draft, file);
        lemma_kept(disk[3], disk[4], draft, another);
    }
    if t.asked.len() > n + 4 {
        assert(step_on(codec, disk, s, t, 4));
        assert(t.asked[n + 4] is Restrict);
    }
    if t.asked.len() > n + 5 {
        assert(step_on(codec, disk, s, t, 5));
        assert(t.asked[n + 5] == ActionView::Rename { from: draft, to: file });
    }
}

/// What two disks hold alike but for one file, they hold alike of another.
proof fn lemma_kept(a: Files, b: Files, path: Seq<char>, other: Seq<char>)
    requires
        b.remove(path) == a.remove(path),
        path != other,
    ensures
        b.contains_key(other) == a.contains_key(other),
        a.contains_key(other) ==> b[other] == a[other],
{
    assert(b.remove(path).contains_key(other) == b.contains_key(other));
    assert(a.remove(path).contains_key(other) == a.contains_key(other));
    if a.contains_key(other) {
        assert(b.remove(path)[other] == b[other]);
        assert(a.remove(path)[other] == a[other]);
    }
}

/// Removing the journal of one tunnel leaves those of the others alone. Where it
/// succeeds the disk then holds none of the tunnel; and it always succeeds where
/// the disk held no such file, changing nothing.
pub proof fn law_remove_on_disk(
    codec: Codec,
    disk: Seq<Files>,
    s: SessionView,
    config_dir: Seq<char>,
    tunnel: Seq<char>,
    other: Seq<char>,
)
    requires
        done_on(codec, disk, s, removing(s, config_dir, tunnel).0),
        plain_name(tunnel),
        plain_name(other),
    ensures
        other != tunnel ==> held(codec, disk.last(), config_dir, other) == held(
            codec,
            disk[0],
            config_dir,
            other,
        ),
        removing(s, config_dir, tunnel).1 matches Some(Ok(_)) ==> !disk.last().contains_key(
            journal_path(config_dir, tunnel),
        ) && held(codec, disk.last(), config_dir, tunnel) is None,
        !disk[0].contains_key(journal_path(config_dir, tunnel)) ==> (removing(
            s,
            config_dir,
            tunnel,
        ).1 matches Some(Ok(_))) && disk.last() == disk[0],
{
    let (t, _) = removing(s, config_dir, tunnel);
    lemma_journals_apart(config_dir, tunnel, other);
    assert(step_on(codec, disk, s, t, 0));
}

// ---------------------------------------------------------------------------
// One after the other
// ---------------------------------------------------------------------------

/// What was written is read: after a journal was written, reading it gives what
/// decoding makes of the journal as it was encoded, and so gives it back where
/// decoding does; and reading that of another tunnel gives what it gave before.
/// `v` reads the other's before, `s` writes, `t` reads the journal and `u` the
/// other's.
pub proof fn law_journal_round_trip(
    codec: Codec,
    disk: Seq<Files>,
    v: SessionView,
    before: Seq<Files>,
    s: SessionView,
    t: SessionView,
    own: Seq<Files>,
    u: SessionView,
    others: Seq<Files>,
    config_dir: Seq<char>,
    journal: JournalView,
    other: Seq<char>,
)
    requires
        plain_name(journal.tunnel),
        plain_name(other),
        other != journal.tunnel,
        done_on(codec, before, v, reading(v, config_dir, other).0),
        done_on(codec, disk, s, writing(s, config_dir, journal).0),
        done_on(codec, own, t, reading(t, config_dir, journal.tunnel).0),
        done_on(codec, others, u, reading(u, config_dir, other).0),
        disk[0] == before.last(),
        own[0] == disk.last(),
        others[0] == disk.last(),
        writing(s, config_dir, journal).1 matches Some(Ok(_)),
    ensures
        reading(t, config_dir, journal.tunnel).1 == Some((codec.decode)((codec.encode)(journal))),
        (codec.decode)((codec.encode)(journal)) == Some(journal) ==> reading(
            t,
            config_dir,
            journal.tunnel,
        ).1 == Some(Some(journal)),
        reading(u, config_dir, other).1 == reading(v, config_dir, other).1,
{
    law_read_on_disk(codec, before, v, config_dir, other);
    law_write_on_disk(codec, disk, s, config_dir, journal, other);
    law_read_on_disk(codec, own, t, config_dir, journal.tunnel);
    law_read_on_disk(codec, others, u, config_dir, other);
}

/// What was removed is gone: after the journal of a tunnel was removed, reading
/// it gives none, removing it again succeeds and changes nothing, and reading
/// that of another tunnel gives what it gave before. `v` reads the other's
/// before, `s` removes, `t` reads the tunnel's, `again` removes it once more and
/// `u` reads the other's.
pub proof fn law_removal(
    codec: Codec,
    disk: Seq<Files>,
    v: SessionView,
    before: Seq<Files>,
    s: SessionView,
    t: SessionView,
    own: Seq<Files>,
    again: SessionView,
    twice: Seq<Files>,
    u: SessionView,
    others: Seq<Files>,
    config_dir: Seq<char>,
    tunnel: Seq<char>,
    other: Seq<char>,
)
    requires
        plain_name(tunnel),
        plain_name(other),
        other != tunnel,
        done_on(codec, before, v, reading(v, config_dir, other).0),
        done_on(codec, disk, s, removing(s, config_dir, tunnel).0),
        done_on(codec, own, t, reading(t, config_dir, tunnel).0),
        done_on(codec, twice, again, removing(again, config_dir, tunnel).0),
        done_on(codec, others, u, reading(u, config_dir, other).0),
        disk[0] == before.last(),
        own[0] == disk.last(),
        twice[0] == disk.last(),
        others[0] == twice.last(),
        removing(s, config_dir, tunnel).1 matches Some(Ok(_)),
    ensures
        reading(t, config_dir, tunnel).1 == Some(None::<JournalView>),
        removing(again, config_dir, tunnel).1 matches Some(Ok(_)),
        twice.last() == disk.last(),
        reading(u, config_dir, other).1 == reading(v, config_dir, other).1,
{
    law_read_on_disk(codec, before, v, config_dir, other);
    law_remove_on_disk(codec, disk, s, config_dir, tunnel, other);
    law_read_on_disk(codec, own, t, config_dir, tunnel);
    law_remove_on_disk(codec, twice, again, config_dir, tunnel, other);
    law_read_on_disk(codec, others, u, config_dir, other);
}

} // verus!
