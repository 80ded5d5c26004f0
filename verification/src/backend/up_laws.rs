//! What holds of `up`: on a tunnel that is up it only looks, and a lease is
//! recorded whether or not the tunnel was up.
use vstd::prelude::*;

use super::lifecycle::{deadline, declaring_dns, on_interface};
use super::live::finding_live;
use super::trace::{
    lemma_adopting, lemma_checking_journal, lemma_declaring_dns, lemma_dumping, lemma_finding_live,
    lemma_reading_clock, lemma_recording_active, lemma_starting,
};
use super::{full_command, BackendView, Clock, RecoveredView};
use crate::config;
use crate::config::TunnelView;
use crate::session::{ActionView, ReplyView, SessionView};
use crate::state;
use crate::state::{JournalView, Phase, Reconciliation, Snapshot};
use crate::status::{DumpPeerView, TunnelStatusView};
use crate::trace::{
    extends, lemma_reading, lemma_reading_all, lemma_resolving, lemma_same, lemma_writing, Rule,
};

verus! {

// ---------------------------------------------------------------------------
// Only looking
// ---------------------------------------------------------------------------

/// Whether an action runs no program but `wg show all dump`.
pub open spec fn dumps_at_most(b: BackendView, a: ActionView) -> bool {
    match a {
        ActionView::Run { program, args } => (program, args) == full_command(
            b.sudo,
            b.wg,
            seq!["show"@, "all"@, "dump"@],
        ),
        ActionView::RunPassthrough { .. } => false,
        _ => true,
    }
}

/// Whether, from `s` to `t`, no program was run but `wg show all dump`.
#[verifier::opaque]
pub open spec fn only_dumps(b: BackendView, s: SessionView, t: SessionView) -> bool {
    &&& s.asked.len() <= t.asked.len()
    &&& forall|i: int| 0 <= i < s.asked.len() ==> #[trigger] t.asked[i] == s.asked[i]
    &&& forall|i: int|
        s.asked.len() <= i < t.asked.len() ==> dumps_at_most(b, #[trigger] t.asked[i])
}

/// One after the other.
proof fn lemma_only_dumps(b: BackendView, s: SessionView, t: SessionView, u: SessionView)
    requires
        only_dumps(b, s, t),
        only_dumps(b, t, u),
    ensures
        only_dumps(b, s, u),
{
    reveal(only_dumps);
}

/// Nothing at all.
proof fn lemma_no_dumps(b: BackendView, s: SessionView)
    ensures
        only_dumps(b, s, s),
{
    reveal(only_dumps);
}

/// Where no program is run, none but the dump is.
proof fn lemma_runs_nothing(r: Rule, s: SessionView, t: SessionView)
    requires
        extends(r, s, t),
        !r.running,
    ensures
        only_dumps(r.b, s, t),
{
    reveal(only_dumps);
    reveal(extends);
}

/// Reading the live peers runs the dump.
proof fn lemma_one_dump(b: BackendView, s: SessionView)
    ensures
        only_dumps(b, s, b.dumping(s).0),
{
    reveal(only_dumps);
}

/// The journals from `i` on, where none of them has to be recovered.
proof fn lemma_nothing_recovered(
    b: BackendView,
    s: SessionView,
    journals: Seq<JournalView>,
    dump: Seq<DumpPeerView>,
    now: u64,
    i: int,
    recovered: Seq<RecoveredView>,
)
    ensures
        ({
            let x = b.reconciling_from(s, journals, dump, now, i, recovered);
            &&& x.1 matches Some(Ok(done)) ==> done.len() >= recovered.len()
            &&& x.1 matches Some(Ok(done)) ==> (done.len() == recovered.len() ==> only_dumps(
                b,
                s,
                x.0,
            ))
        }),
    decreases journals.len() - i,
{
    if i >= journals.len() {
        lemma_no_dumps(b, s);
    } else {
        let quiet = Rule { b, reading: true, running: false, tunnels: false };
        lemma_same(s);
        lemma_checking_journal(quiet, s, s, journals[i], dump);
        let (s1, live) = b.checking_journal(s, journals[i], dump);
        if let Some(up) = live {
            lemma_runs_nothing(quiet, s, s1);
            match state::decision(journals[i], up, now) {
                Reconciliation::Healthy => {
                    lemma_nothing_recovered(b, s1, journals, dump, now, i + 1, recovered);
                    let x = b.reconciling_from(s1, journals, dump, now, i + 1, recovered);
                    if only_dumps(b, s1, x.0) {
                        lemma_only_dumps(b, s, s1, x.0);
                    }
                },
                Reconciliation::Recover { tear_down, reason } => {
                    let (s2, done) = b.recovering_journal(
                        s1,
                        journals[i],
                        tear_down,
                        reason.description(),
                    );
                    if let Some(one) = done {
                        lemma_nothing_recovered(
                            b,
                            s2,
                            journals,
                            dump,
                            now,
                            i + 1,
                            recovered.push(one),
                        );
                    }
                },
            }
        }
    }
}

/// Reconciling, where there is nothing to recover.
proof fn lemma_reconciling_looks(b: BackendView, s: SessionView)
    requires
        b.reconciling(s).1 matches Some(Ok(recovered)) && recovered.len() == 0,
    ensures
        only_dumps(b, s, b.reconciling(s).0),
{
    let quiet = Rule { b, reading: true, running: false, tunnels: false };
    lemma_same(s);
    lemma_reading_all(quiet, s, s, b.config_dir);
    let (s1, read) = state::reading_all(s, b.config_dir);
    lemma_runs_nothing(quiet, s, s1);
    let journals = read->0;
    if journals.len() > 0 {
        lemma_one_dump(b, s1);
        let (s2, dumped) = b.dumping(s1);
        let dump = dumped->0->Ok_0;
        lemma_same(s2);
        lemma_reading_clock(quiet, s2, s2);
        let (s3, now) = b.reading_clock(s2);
        lemma_runs_nothing(quiet, s2, s3);
        lemma_nothing_recovered(b, s3, journals, dump, now->0, 0, Seq::empty());
        lemma_only_dumps(b, s, s1, s2);
        lemma_only_dumps(b, s, s2, s3);
        lemma_only_dumps(b, s, s3, b.reconciling(s).0);
    }
}

/// `up` on a tunnel that is up, with no journal to recover, only looks: the only
/// program it runs is `wg show all dump`, so `wg-quick` is not run and no DNS
/// setting changes; and it reports `changed: false` and the tunnel as up.
pub proof fn law_up_only_looks(b: BackendView, s: SessionView, name: Seq<char>, lease: Option<u64>)
    requires
        b.reconciling(s).1 matches Some(Ok(recovered)) && recovered.len() == 0,
        b.approaching(s, name).1 matches Some(Ok(found)) && found.2 is Some,
    ensures
        only_dumps(b, s, b.upping(s, name, lease).0),
        b.upping(s, name, lease).1 matches Some(done) ==> done matches Ok(up) && !up.0
            && up.1.up,
{
    let quiet = Rule { b, reading: true, running: false, tunnels: false };
    let silent = Rule { b, reading: false, running: false, tunnels: false };
    lemma_reconciling_looks(b, s);
    let (s1, _) = b.reconciling(s);
    lemma_same(s1);
    lemma_resolving(quiet, s1, s1, b.config_dir, name);
    let (s2, resolved) = config::resolving(s1, b.config_dir, name);
    lemma_runs_nothing(quiet, s1, s2);
    let tunnel = resolved->0->Ok_0;
    lemma_one_dump(b, s2);
    let (s3, dumped) = b.dumping(s2);
    let dump = dumped->0->Ok_0;
    lemma_same(s3);
    lemma_finding_live(quiet, s3, s3, tunnel, dump);
    let (s4, live) = finding_live(s3, tunnel, dump);
    lemma_runs_nothing(quiet, s3, s4);
    let hit = live->0->Ok_0->0;
    lemma_same(s4);
    lemma_adopting(silent, s4, s4, tunnel, hit.interface, lease);
    let (s5, _) = b.adopting(s4, tunnel, hit.interface, lease);
    lemma_runs_nothing(silent, s4, s5);
    lemma_only_dumps(b, s, s1, s2);
    lemma_only_dumps(b, s, s2, s3);
    lemma_only_dumps(b, s, s3, s4);
    lemma_only_dumps(b, s, s4, s5);
}

// ---------------------------------------------------------------------------
// What is recorded
// ---------------------------------------------------------------------------

/// The journal that was recorded last from `s` to `t`, where the last thing that
/// was done is that it replaced the one before.
pub open spec fn recorded(s: SessionView, t: SessionView) -> Option<JournalView> {
    let n = t.asked.len() as int;
    if s.asked.len() + 4 <= n <= t.replies.len() && t.asked[n - 1] is Rename && (
    t.replies[n - 1] matches ReplyView::Finished(Ok(_))) {
        match t.asked[n - 4] {
            ActionView::EncodeJournal(j) => Some(j),
            _ => None,
        }
    } else {
        None
    }
}

/// Whether the machine refused, from `s` to `t`, to change a file or directory.
pub open spec fn refused(s: SessionView, t: SessionView) -> bool {
    exists|i: int|
        s.asked.len() <= i < t.asked.len() && i < t.replies.len() && (
        #[trigger] t.replies[i] matches ReplyView::Finished(Err(_)))
}

/// Whether that is what the machine did last.
spec fn refused_last(s: SessionView, t: SessionView) -> bool {
    let n = t.asked.len() as int;
    &&& s.asked.len() < n <= t.replies.len()
    &&& t.replies[n - 1] matches ReplyView::Finished(Err(_))
}

/// Writing a journal records it, unless the machine refuses.
proof fn lemma_recorded(s: SessionView, config_dir: Seq<char>, journal: JournalView)
    ensures
        ({
            let (t, written) = state::writing(s, config_dir, journal);
            &&& written matches Some(Ok(_)) ==> recorded(s, t) == Some(journal)
            &&& written matches Some(Err(_)) ==> refused_last(s, t)
        }),
{
}

/// So does writing one later on.
proof fn lemma_recorded_after(
    r: Rule,
    s: SessionView,
    t: SessionView,
    config_dir: Seq<char>,
    journal: JournalView,
)
    requires
        extends(r, s, t),
    ensures
        ({
            let (u, written) = state::writing(t, config_dir, journal);
            &&& written matches Some(Ok(_)) ==> recorded(s, u) == Some(journal)
            &&& written matches Some(Err(_)) ==> recorded(s, u) is None && refused(s, u)
        }),
{
    reveal(extends);
    lemma_recorded(t, config_dir, journal);
    let (u, written) = state::writing(t, config_dir, journal);
    if let Some(Err(_)) = written {
        let n = u.asked.len() as int;
        assert(u.replies[n - 1] matches ReplyView::Finished(Err(_)));
    }
}

/// Whether the clock, asked from `s` to `t`, said that it is `now`.
pub open spec fn told_time(b: BackendView, s: SessionView, t: SessionView, now: u64) -> bool {
    match b.clock {
        Clock::Fixed(fixed) => now == fixed,
        Clock::System => exists|i: int|
            s.asked.len() <= i < t.asked.len() && i < t.replies.len() && (#[trigger] t.asked[i]
                == ActionView::Now) && t.replies[i] == ReplyView::Time(now),
    }
}

/// Whether a journal has the deadline of a lease of `secs` seconds, by what the
/// clock said from `s` to `t`.
pub open spec fn leased(
    b: BackendView,
    s: SessionView,
    t: SessionView,
    journal: JournalView,
    secs: u64,
) -> bool {
    exists|now: u64| #[trigger]
        told_time(b, s, t, now) && journal.lease_deadline == Some(deadline(now, secs))
}

/// Reading the clock.
proof fn lemma_told_time(b: BackendView, s: SessionView)
    ensures
        b.reading_clock(s).1 matches Some(now) ==> told_time(b, s, b.reading_clock(s).0, now),
{
    let (t, now) = b.reading_clock(s);
    if now is Some && b.clock is System {
        assert(t.asked[s.asked.len() as int] == ActionView::Now);
    }
}

/// What was read of the clock stays so.
proof fn lemma_leased(
    r: Rule,
    r2: Rule,
    s: SessionView,
    t: SessionView,
    u: SessionView,
    v: SessionView,
    journal: JournalView,
    secs: u64,
)
    requires
        extends(r, s, t),
        extends(r2, u, v),
        leased(r.b, t, u, journal, secs),
    ensures
        leased(r.b, s, v, journal, secs),
{
    reveal(extends);
    let now = choose|now: u64| #[trigger]
        told_time(r.b, t, u, now) && journal.lease_deadline == Some(deadline(now, secs));
    if r.b.clock is System {
        let i = choose|i: int|
            t.asked.len() <= i < u.asked.len() && i < u.replies.len() && (#[trigger] u.asked[i]
                == ActionView::Now) && u.replies[i] == ReplyView::Time(now);
        assert(v.asked[i] == ActionView::Now);
    }
    assert(told_time(r.b, s, v, now));
}

/// The journal of an active tunnel.
proof fn lemma_recording_active_is(
    b: BackendView,
    s: SessionView,
    tunnel: TunnelView,
    interface: Option<Seq<char>>,
    lease: Option<u64>,
    snapshot: Snapshot,
)
    ensures
        ({
            let (t, made) = b.recording_active(s, tunnel, interface, lease, snapshot);
            made matches Some(j) ==> {
                &&& j.tunnel == tunnel.name
                &&& j.phase == Phase::Active
                &&& j.interface == interface
                &&& match lease {
                    Some(secs) => leased(b, s, t, j, secs),
                    None => j.lease_deadline is None,
                }
            }
        }),
{
    let r = Rule { b, reading: true, running: false, tunnels: false };
    let (s1, declared) = declaring_dns(s, tunnel.path);
    lemma_same(s);
    lemma_declaring_dns(r, s, s, tunnel.path);
    let (t, made) = b.recording_active(s, tunnel, interface, lease, snapshot);
    if let Some(secs) = lease {
        if let Some(j) = made {
            lemma_told_time(b, s1);
            let now = b.reading_clock(s1).1->0;
            assert(told_time(b, s1, t, now));
            assert(extends(r, t, t)) by {
                reveal(extends);
            }
            lemma_leased(r, r, s, s1, t, t, j, secs);
        }
    }
}

/// What adopting records.
proof fn lemma_adopting_records(
    b: BackendView,
    s: SessionView,
    tunnel: TunnelView,
    interface: Seq<char>,
    lease: Option<u64>,
)
    ensures
        ({
            let (t, done) = b.adopting(s, tunnel, interface, lease);
            let (_, read) = state::reading(s, b.config_dir, tunnel.name);
            done is Some ==> match recorded(s, t) {
                Some(j) => {
                    &&& read matches Some(Some(known)) ==> lease is Some && j == (JournalView {
                        lease_deadline: j.lease_deadline,
                        ..known
                    })
                    &&& read matches Some(None) ==> j.tunnel == tunnel.name && j.phase
                        == Phase::Active && j.interface == Some(interface)
                    &&& match lease {
                        Some(secs) => leased(b, s, t, j, secs),
                        None => j.lease_deadline is None,
                    }
                },
                None => refused(s, t) || (lease is None && read matches Some(Some(_))),
            }
        }),
{
    let r = Rule { b, reading: false, running: false, tunnels: false };
    let (t, done) = b.adopting(s, tunnel, interface, lease);
    lemma_same(s);
    lemma_reading(r, s, s, b.config_dir, tunnel.name);
    let (s1, read) = state::reading(s, b.config_dir, tunnel.name);
    match read {
        Some(Some(known)) => match lease {
            None => {
                assert(s1.asked.len() <= s.asked.len() + 2);
            },
            Some(secs) => {
                lemma_told_time(b, s1);
                lemma_same(s1);
                lemma_reading_clock(r, s1, s1);
                let (s2, now) = b.reading_clock(s1);
                if let Some(n) = now {
                    let j = JournalView { lease_deadline: Some(deadline(n, secs)), ..known };
                    assert(extends(r, s, s2)) by {
                        reveal(extends);
                    }
                    lemma_recorded_after(r, s, s2, b.config_dir, j);
                    assert(leased(b, s1, s2, j, secs));
                    lemma_same(s2);
                    lemma_writing(r, s2, s2, b.config_dir, j);
                    lemma_leased(r, r, s, s1, s2, t, j, secs);
                }
            },
        },
        Some(None) => {
            lemma_recording_active_is(b, s1, tunnel, Some(interface), lease, Seq::empty());
            lemma_same(s1);
            lemma_recording_active(r, s1, s1, tunnel, Some(interface), lease, Seq::empty());
            let (s2, made) = b.recording_active(
                s1,
                tunnel,
                Some(interface),
                lease,
                Seq::empty(),
            );
            if let Some(j) = made {
                assert(extends(r, s, s2)) by {
                    reveal(extends);
                }
                lemma_recorded_after(r, s, s2, b.config_dir, j);
                lemma_same(s2);
                lemma_writing(r, s2, s2, b.config_dir, j);
                if let Some(secs) = lease {
                    lemma_leased(r, r, s, s1, s2, t, j, secs);
                }
            }
        },
        None => {},
    }
}

/// What bringing a tunnel up records.
proof fn lemma_activating_records(
    b: BackendView,
    s: SessionView,
    tunnel: TunnelView,
    lease: Option<u64>,
)
    ensures
        ({
            let (t, done) = b.activating(s, tunnel, lease);
            done matches Some(Ok(status)) ==> {
                &&& recorded(s, t) matches Some(j)
                &&& j.tunnel == tunnel.name
                &&& j.phase == Phase::Active
                &&& j.interface == status.interface
                &&& match lease {
                    Some(secs) => leased(b, s, t, j, secs),
                    None => j.lease_deadline is None,
                }
            }
        }),
{
    let r = Rule { b, reading: false, running: true, tunnels: true };
    let (t, done) = b.activating(s, tunnel, lease);
    if let Some(Ok(status)) = done {
        lemma_same(s);
        lemma_starting(r, s, s, tunnel);
        let (s1, started) = b.starting(s, tunnel);
        let snapshot = started->0->Ok_0;
        lemma_same(s1);
        lemma_dumping(r, s1, s1);
        let (s2, dumped) = b.dumping(s1);
        let dump = dumped->0->Ok_0;
        lemma_same(s2);
        lemma_finding_live(r, s2, s2, tunnel, dump);
        let (s3, live) = finding_live(s2, tunnel, dump);
        let row = live->0->Ok_0;
        let interface = match row {
            Some(hit) => Some(hit.interface),
            None => None,
        };
        assert(extends(r, s, s3)) by {
            reveal(extends);
        }
        lemma_recording_active_is(b, s3, tunnel, interface, lease, snapshot);
        lemma_same(s3);
        lemma_recording_active(r, s3, s3, tunnel, interface, lease, snapshot);
        let (s4, made) = b.recording_active(s3, tunnel, interface, lease, snapshot);
        let j = made->0;
        assert(extends(r, s, s4)) by {
            reveal(extends);
        }
        lemma_recorded_after(r, s, s4, b.config_dir, j);
        lemma_same(s4);
        lemma_writing(r, s4, s4, b.config_dir, j);
        if let Some(secs) = lease {
            lemma_leased(r, r, s, s3, s4, t, j, secs);
        }
    }
}

/// A lease is recorded whether or not the tunnel was up: an `up` that succeeds
/// ends with a journal whose deadline is `secs` seconds after what the clock
/// said, saturating at the end of time. Of a tunnel that was up and has a
/// journal, nothing else in the journal changes. The one exception is a machine
/// that refuses to change a file or directory, on a tunnel that was up.
pub proof fn law_up_records_lease(b: BackendView, s: SessionView, name: Seq<char>, secs: u64)
    requires
        b.upping(s, name, Some(secs)).1 matches Some(Ok(_)),
    ensures
        ({
            let (s1, approached) = b.approaching(s, name);
            let (tunnel, _, live) = approached->0->Ok_0;
            let (end, _) = b.upping(s, name, Some(secs));
            match recorded(s1, end) {
                Some(j) => {
                    &&& leased(b, s1, end, j, secs)
                    &&& live is Some ==> {
                        let (_, read) = state::reading(s1, b.config_dir, tunnel.name);
                        read matches Some(Some(known)) ==> j == (JournalView {
                            lease_deadline: j.lease_deadline,
                            ..known
                        })
                    }
                },
                None => live is Some && refused(s1, end),
            }
        }),
{
    let (s1, approached) = b.approaching(s, name);
    let (tunnel, _, live) = approached->0->Ok_0;
    match live {
        Some(hit) => {
            lemma_adopting_records(b, s1, tunnel, hit.interface, Some(secs));
        },
        None => {
            lemma_activating_records(b, s1, tunnel, Some(secs));
        },
    }
}

/// Without a lease, `up` on a tunnel that is up and has a journal leaves the
/// journal as it is: after it is read nothing more is asked for.
pub proof fn law_up_keeps_record(b: BackendView, s: SessionView, name: Seq<char>)
    requires
        b.approaching(s, name).1 matches Some(Ok(found)) && found.2 is Some,
        ({
            let (s1, approached) = b.approaching(s, name);
            state::reading(s1, b.config_dir, approached->0->Ok_0.0.name).1 matches Some(Some(_))
        }),
    ensures
        ({
            let (s1, approached) = b.approaching(s, name);
            b.upping(s, name, None).0 == state::reading(
                s1,
                b.config_dir,
                approached->0->Ok_0.0.name,
            ).0
        }),
{
}

/// `up` twice is `up` once. Where there were no journals, and a first `up` came
/// back with the tunnel up, a second one (which finds the journal that the first
/// recorded, if it recorded one, and the tunnel still in the dumps) runs nothing
/// but `wg show all dump` and reports `changed: false` and the tunnel as up.
pub proof fn law_up_twice(
    b: BackendView,
    s: SessionView,
    t: SessionView,
    name: Seq<char>,
    status: TunnelStatusView,
)
    requires
        state::reading_all(s, b.config_dir).1 matches Some(before) && before.len() == 0,
        b.upping(s, name, None).1 matches Some(Ok(up)) && up.1 == status,
        status.up,
        state::reading_all(t, b.config_dir).1 == Some(
            match recorded(b.approaching(s, name).0, b.upping(s, name, None).0) {
                Some(j) => seq![j],
                None => Seq::empty(),
            },
        ),
        status.interface matches Some(interface) && (b.dumping(
            state::reading_all(t, b.config_dir).0,
        ).1 matches Some(Ok(dump)) ==> on_interface(dump, interface)),
        b.approaching(t, name).1 matches Some(Ok(found)) && found.2 is Some,
    ensures
        only_dumps(b, t, b.upping(t, name, None).0),
        b.upping(t, name, None).1 matches Some(done) ==> done matches Ok(up) && !up.0
            && up.1.up,
{
    let (s1, approached) = b.approaching(s, name);
    let (tunnel, _, live) = approached->0->Ok_0;
    match live {
        Some(hit) => {
            lemma_adopting_records(b, s1, tunnel, hit.interface, None);
        },
        None => {
            lemma_activating_records(b, s1, tunnel, None);
        },
    }
    let (t1, read) = state::reading_all(t, b.config_dir);
    let journals = read->0;
    if journals.len() > 0 {
        let (t2, dumped) = b.dumping(t1);
        let dump = dumped->0->Ok_0;
        let (t3, now) = b.reading_clock(t2);
        let j = journals[0];
        assert(b.checking_journal(t3, j, dump) == (t3, Some(true)));
        reveal_with_fuel(BackendView::reconciling_from, 2);
        let (_, reconciled) = b.reconciling_from(t3, journals, dump, now->0, 0, Seq::empty());
        assert(reconciled matches Some(Ok(recovered)) && recovered.len() == 0);
    }
    law_up_only_looks(b, t, name, None);
}

} // verus!
