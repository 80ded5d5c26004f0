//! Cross-process serialization of state-mutating commands.
//!
//! Two agents driving `vpn` concurrently could interleave `up`/`down`/`probe`
//! and tear down each other's tunnels mid-measurement. An advisory lock on
//! `<config_dir>/.vpn.lock` serializes the mutating commands; read-only
//! commands (`list`, `status`, `current`, `lint`, `doctor`, `verify`) stay
//! lock-free.
use vstd::prelude::*;

use crate::config;
use crate::error::{so_far, Error, ErrorView};
use crate::session::{Action, ActionView, ReplyView, Session, SessionView, Step};

verus! {

/// Name of the lock file inside the config directory (no `.conf` suffix, so
/// tunnel discovery never sees it).
pub const LOCK_FILE: &'static str = ".vpn.lock";

/// Taking the lock.
pub open spec fn acquiring(s: SessionView, config_dir: Seq<char>) -> Step<Result<(), ErrorView>> {
    let (s, created) = s.change(ActionView::CreateDir(config_dir));
    match created {
        None => (s, None),
        Some(Err(source)) => (s, Some(Err(ErrorView::ConfigDir(config_dir, source)))),
        Some(Ok(_)) => {
            let path = config::path_in(config_dir, LOCK_FILE@);
            let (s, locked) = s.change(ActionView::Lock(path));
            (
                s,
                match locked {
                    None => None,
                    Some(Err(source)) => Some(Err(ErrorView::Write { path, source })),
                    Some(Ok(_)) => Some(Ok(())),
                },
            )
        },
    }
}

/// Acquire the lock, blocking until any concurrent `vpn` invocation releases
/// it. Creates the config directory and lock file as needed.
pub fn acquire(session: &mut Session, config_dir: &str) -> (r: Option<Result<(), Error>>)
    ensures
        (final(session).deep_view(), so_far(r)) == acquiring(old(session).deep_view(), config_dir@),
{
    match session.change(Action::CreateDir(config_dir.to_owned()))? {
        Err(source) => {
            return Some(Err(Error::ConfigDir(config_dir.to_owned(), source)));
        },
        Ok(_) => {},
    }
    let path = config::join_path(config_dir, LOCK_FILE);
    match session.change(Action::Lock(path.clone()))? {
        Err(source) => Some(Err(Error::Write { path, source })),
        Ok(_) => Some(Ok(())),
    }
}

/// Taking the lock where it is free.
pub open spec fn try_acquiring(s: SessionView, config_dir: Seq<char>) -> Step<
    Result<bool, ErrorView>,
> {
    let (s, created) = s.change(ActionView::CreateDir(config_dir));
    match created {
        None => (s, None),
        Some(Err(source)) => (s, Some(Err(ErrorView::ConfigDir(config_dir, source)))),
        Some(Ok(_)) => {
            let path = config::path_in(config_dir, LOCK_FILE@);
            let (s, taken) = s.try_lock(path);
            (
                s,
                match taken {
                    None => None,
                    Some(Err(source)) => Some(Err(ErrorView::Write { path, source })),
                    Some(Ok(free)) => Some(Ok(free)),
                },
            )
        },
    }
}

/// Try to acquire the lock without blocking; `false` when another invocation
/// holds it. Creates the config directory and lock file as needed.
pub fn try_acquire(session: &mut Session, config_dir: &str) -> (r: Option<Result<bool, Error>>)
    ensures
        (final(session).deep_view(), so_far(r)) == try_acquiring(
            old(session).deep_view(),
            config_dir@,
        ),
{
    match session.change(Action::CreateDir(config_dir.to_owned()))? {
        Err(source) => {
            return Some(Err(Error::ConfigDir(config_dir.to_owned(), source)));
        },
        Ok(_) => {},
    }
    let path = config::join_path(config_dir, LOCK_FILE);
    match session.try_lock(&path)? {
        Err(source) => Some(Err(Error::Write { path, source })),
        Ok(free) => Some(Ok(free)),
    }
}

// ---------------------------------------------------------------------------
// Laws
// ---------------------------------------------------------------------------

/// The lock files on a machine that are held.
pub type Held = Set<Seq<char>>;

/// Whether `reply` is what a machine answers on which these locks are held, and
/// `after` are held then. An advisory lock is exclusive: it is granted only where
/// it is free, and refused without waiting only where it is not.
pub open spec fn grants(held: Held, a: ActionView, reply: ReplyView, after: Held) -> bool {
    match a {
        ActionView::Lock(path) => if reply matches ReplyView::Finished(Ok(_)) {
            !held.contains(path) && after == held.insert(path)
        } else {
            after == held
        },
        ActionView::TryLock(path) => match reply {
            ReplyView::Taken(Ok(true)) => !held.contains(path) && after == held.insert(path),
            ReplyView::Taken(Ok(false)) => held.contains(path) && after == held,
            _ => after == held,
        },
        _ => after == held,
    }
}

/// Whether that holds of what was asked for last.
pub open spec fn granted_last(held: Held, t: SessionView, after: Held) -> bool {
    let n = t.asked.len() as int;
    0 < n <= t.replies.len() && grants(held, t.asked[n - 1], t.replies[n - 1], after)
}

/// The lock is exclusive until it is released: while `s` holds it, `t` is refused
/// it and changes nothing, and once it was released `u` gets it.
pub proof fn law_lock_is_exclusive(
    config_dir: Seq<char>,
    s: SessionView,
    t: SessionView,
    u: SessionView,
    before: Held,
    held: Held,
    still: Held,
    after: Held,
)
    requires
        acquiring(s, config_dir).1 matches Some(Ok(_)),
        granted_last(before, acquiring(s, config_dir).0, held),
        try_acquiring(t, config_dir).1 matches Some(Ok(_)),
        granted_last(held, try_acquiring(t, config_dir).0, still),
        try_acquiring(u, config_dir).1 matches Some(Ok(_)),
        granted_last(
            still.remove(config::path_in(config_dir, LOCK_FILE@)),
            try_acquiring(u, config_dir).0,
            after,
        ),
    ensures
        try_acquiring(t, config_dir).1 matches Some(Ok(free)) && !free,
        still == held,
        try_acquiring(u, config_dir).1 matches Some(Ok(free)) && free,
        after.contains(config::path_in(config_dir, LOCK_FILE@)),
{
}

} // verus!
