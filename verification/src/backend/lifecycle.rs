//! Bringing tunnels up and down, with the journal as a write-ahead log.
use vstd::prelude::*;

use super::live::{find_live, finding_live, status_from, status_of};
use super::{
    backend_error, failure, Backend, BackendView, DownOutcome, DownOutcomeView, Recovered,
    RecoveredView,
};
use crate::config;
use crate::config::{Tunnel, TunnelView};
use crate::dns;
use crate::dns::{GuardOutcome, GuardOutcomeView};
use crate::error::{so_far, Error, ErrorView};
use crate::order::TextMap;
use crate::session::{Session, SessionView, Step};
use crate::state;
use crate::state::{Journal, JournalView, Phase, Reconciliation, Snapshot};
use crate::status::{DumpPeer, DumpPeerView, TunnelStatus, TunnelStatusView};
use crate::text;

verus! {

/// When a lease that starts at `now` ends.
pub open spec fn deadline(now: u64, lease_secs: u64) -> u64 {
    if now + lease_secs > u64::MAX {
        u64::MAX
    } else {
        (now + lease_secs) as u64
    }
}

/// When a lease that starts at `now` ends.
fn lease_end(now: u64, lease_secs: u64) -> (r: u64)
    ensures
        r == deadline(now, lease_secs),
{
    if lease_secs > u64::MAX - now {
        u64::MAX
    } else {
        now + lease_secs
    }
}

/// Reading the DNS servers that a tunnel's config declares; a config that
/// cannot be read declares none.
pub open spec fn declaring_dns(s: SessionView, path: Seq<char>) -> Step<Seq<Seq<char>>> {
    let (s, summary) = config::summarizing(s, path);
    (
        s,
        match summary {
            None => None,
            Some(Err(_)) => Some(Seq::empty()),
            Some(Ok(v)) => Some(v.dns_servers),
        },
    )
}

/// The DNS servers that a tunnel's config declares.
pub(super) fn declared_dns(session: &mut Session, path: &str) -> (r: Option<Vec<String>>)
    ensures
        (final(session).deep_view(), r.deep_view()) == declaring_dns(
            old(session).deep_view(),
            path@,
        ),
{
    match config::conf_summary(session, path)? {
        Err(_) => Some(text::no_texts()),
        Ok(summary) => Some(summary.dns_servers),
    }
}

/// Whether `names` holds a name other than `name`.
pub open spec fn any_other(names: Seq<Seq<char>>, name: Seq<char>) -> bool {
    exists|i: int| 0 <= i < names.len() && #[trigger] names[i] != name
}

/// Whether `names` holds a name other than `name`.
fn has_other(names: &Vec<String>, name: &str) -> (r: bool)
    ensures
        r == any_other(names.deep_view(), name@),
{
    let ghost v = names.deep_view();
    let mut i: usize = 0;
    while i < names.len()
        invariant
            v == names.deep_view(),
            i <= names@.len(),
            forall|j: int| 0 <= j < i ==> #[trigger] v[j] == name@,
        decreases names@.len() - i,
    {
        proof {
            assert(v[i as int] == names@[i as int]@);
        }
        if !text::same(&names[i], name) {
            return true;
        }
        i = i + 1;
    }
    false
}

/// Whether a peer of the dump is on the interface.
pub open spec fn on_interface(dump: Seq<DumpPeerView>, interface: Seq<char>) -> bool {
    exists|i: int| 0 <= i < dump.len() && (#[trigger] dump[i]).interface == interface
}

/// Whether a peer of the dump is on the interface.
fn has_interface(dump: &Vec<DumpPeer>, interface: &str) -> (r: bool)
    ensures
        r == on_interface(dump.deep_view(), interface@),
{
    let ghost d = dump.deep_view();
    let mut i: usize = 0;
    while i < dump.len()
        invariant
            d == dump.deep_view(),
            i <= dump@.len(),
            forall|j: int| 0 <= j < i ==> (#[trigger] d[j]).interface != interface@,
        decreases dump@.len() - i,
    {
        proof {
            assert(d[i as int] == dump@[i as int].deep_view());
        }
        if text::same(&dump[i].interface, interface) {
            return true;
        }
        i = i + 1;
    }
    false
}

impl BackendView {
    /// Making the `Active` journal of a tunnel. Only a lease needs the time.
    pub open spec fn recording_active(
        self,
        s: SessionView,
        tunnel: TunnelView,
        interface: Option<Seq<char>>,
        lease_secs: Option<u64>,
        dns_snapshot: Snapshot,
    ) -> Step<JournalView> {
        let (s, declared) = declaring_dns(s, tunnel.path);
        match declared {
            None => (s, None),
            Some(tunnel_dns) => {
                let journal = JournalView {
                    tunnel: tunnel.name,
                    phase: Phase::Active,
                    interface,
                    lease_deadline: None,
                    dns_snapshot,
                    tunnel_dns,
                };
                match lease_secs {
                    None => (s, Some(journal)),
                    Some(secs) => {
                        let (s, now) = self.reading_clock(s);
                        (
                            s,
                            match now {
                                None => None,
                                Some(t) => Some(
                                    JournalView {
                                        lease_deadline: Some(deadline(t, secs)),
                                        ..journal
                                    },
                                ),
                            },
                        )
                    },
                }
            },
        }
    }

    /// The write-ahead step before `wg-quick up`: the pre-tunnel DNS is
    /// captured (not for a config without DNS) and recorded as pending.
    pub open spec fn recording_pending(self, s: SessionView, tunnel: TunnelView) -> Step<
        Result<Snapshot, ErrorView>,
    > {
        let (s, declared) = declaring_dns(s, tunnel.path);
        match declared {
            None => (s, None),
            Some(tunnel_dns) => {
                let (s, captured) = if tunnel_dns.len() == 0 {
                    (s, Some(None))
                } else {
                    dns::capturing(s, tunnel_dns)
                };
                match captured {
                    None => (s, None),
                    Some(taken) => {
                        let dns_snapshot = match taken {
                            Some(snapshot) => snapshot,
                            None => Seq::empty(),
                        };
                        let (s, written) = state::writing(
                            s,
                            self.config_dir,
                            JournalView {
                                tunnel: tunnel.name,
                                phase: Phase::UpPending,
                                interface: None,
                                lease_deadline: None,
                                dns_snapshot,
                                tunnel_dns,
                            },
                        );
                        (
                            s,
                            match written {
                                None => None,
                                Some(Err(e)) => Some(Err(e)),
                                Some(Ok(_)) => Some(Ok(dns_snapshot)),
                            },
                        )
                    },
                }
            },
        }
    }

    /// Running `wg-quick` on a target.
    pub open spec fn quick(self, s: SessionView, verb: Seq<char>, target: Seq<char>) -> Step<
        Result<(), ErrorView>,
    > {
        let (s, ran) = self.running(s, self.wg_quick, seq![verb, target]);
        (
            s,
            match ran {
                None => None,
                Some(Err(e)) => Some(Err(e)),
                Some(Ok(out)) => if out.success() {
                    Some(Ok(()))
                } else {
                    Some(Err(failure(self.wg_quick, out)))
                },
            },
        )
    }

    /// Bringing a tunnel up.
    pub open spec fn activating(self, s: SessionView, tunnel: TunnelView, lease_secs: Option<u64>) -> Step<
        Result<TunnelStatusView, ErrorView>,
    > {
        let (s, started) = self.starting(s, tunnel);
        match started {
            None => (s, None),
            Some(Err(e)) => (s, Some(Err(e))),
            Some(Ok(dns_snapshot)) => self.confirming(s, tunnel, lease_secs, dns_snapshot),
        }
    }

    /// Recording a tunnel as pending, then running `wg-quick up`: the snapshot,
    /// where that succeeded.
    pub open spec fn starting(self, s: SessionView, tunnel: TunnelView) -> Step<
        Result<Snapshot, ErrorView>,
    > {
        let (s, pending) = self.recording_pending(s, tunnel);
        match pending {
            None => (s, None),
            Some(Err(e)) => (s, Some(Err(e))),
            Some(Ok(dns_snapshot)) => {
                let (s, upped) = self.quick(s, "up"@, tunnel.path);
                (
                    s,
                    match upped {
                        None => None,
                        Some(Err(e)) => Some(Err(e)),
                        Some(Ok(_)) => Some(Ok(dns_snapshot)),
                    },
                )
            },
        }
    }

    /// Recording that a tunnel that was just brought up is active.
    pub open spec fn confirming(
        self,
        s: SessionView,
        tunnel: TunnelView,
        lease_secs: Option<u64>,
        dns_snapshot: Snapshot,
    ) -> Step<Result<TunnelStatusView, ErrorView>> {
        let (s, dumped) = self.dumping(s);
        match dumped {
            None => (s, None),
            Some(Err(e)) => (s, Some(Err(e))),
            Some(Ok(dump)) => {
                let (s, live) = finding_live(s, tunnel, dump);
                match live {
                    None => (s, None),
                    Some(Err(e)) => (s, Some(Err(e))),
                    Some(Ok(row)) => {
                        let interface = match row {
                            Some(hit) => Some(hit.interface),
                            None => None,
                        };
                        let (s, journal) = self.recording_active(
                            s,
                            tunnel,
                            interface,
                            lease_secs,
                            dns_snapshot,
                        );
                        match journal {
                            None => (s, None),
                            Some(j) => {
                                let (s, written) = state::writing(s, self.config_dir, j);
                                (
                                    s,
                                    match written {
                                        None => None,
                                        Some(Err(e)) => Some(Err(e)),
                                        Some(Ok(_)) => Some(
                                            Ok(status_of(tunnel.name, row, dump)),
                                        ),
                                    },
                                )
                            },
                        }
                    },
                }
            },
        }
    }

    /// Restoring DNS after a teardown. The journal's snapshot is preferred (it
    /// brings back custom static DNS, not just DHCP); without one, the config's
    /// servers are cleared wherever they are still pinned. Nothing is done
    /// while another tunnel is up (it owns the DNS), nor where it cannot be
    /// found out what is up.
    pub open spec fn restoring_dns(
        self,
        s: SessionView,
        tunnel: TunnelView,
        journal: Option<JournalView>,
    ) -> Step<GuardOutcomeView> {
        let from_journal = journal matches Some(j) && j.tunnel_dns.len() > 0;
        let (s, declared) = if from_journal {
            (s, Some(Seq::empty()))
        } else {
            declaring_dns(s, tunnel.path)
        };
        match declared {
            None => (s, None),
            Some(config_dns) => if !from_journal && config_dns.len() == 0 {
                (s, Some(GuardOutcomeView::nothing()))
            } else {
                let (s, active) = self.naming_active(s);
                match active {
                    None => (s, None),
                    Some(Err(_)) => (s, Some(GuardOutcomeView::nothing())),
                    Some(Ok(names)) => if any_other(names, tunnel.name) {
                        (s, Some(GuardOutcomeView::nothing()))
                    } else if from_journal {
                        dns::restoring(
                            s,
                            journal->0.dns_snapshot,
                            journal->0.tunnel_dns,
                            self.dns_sweeps,
                        )
                    } else {
                        dns::guarding(s, config_dns, self.dns_sweeps)
                    },
                }
            },
        }
    }

    /// Tearing a tunnel down: the journal is marked, the interface (where it is
    /// live) taken down, DNS restored and the journal removed.
    pub open spec fn tearing_down(self, s: SessionView, tunnel: TunnelView, live: bool) -> Step<
        Result<(bool, GuardOutcomeView), ErrorView>,
    > {
        let (s, read) = state::reading(s, self.config_dir, tunnel.name);
        match read {
            None => (s, None),
            Some(journal) => {
                let (s, marked) = match journal {
                    Some(j) => state::writing(
                        s,
                        self.config_dir,
                        JournalView { phase: Phase::DownPending, ..j },
                    ),
                    None => (s, Some(Ok(()))),
                };
                if marked is None {
                    (s, None)
                } else {
                    let (s, downed) = if live {
                        self.quick(s, "down"@, tunnel.path)
                    } else {
                        (s, Some(Ok(())))
                    };
                    match downed {
                        None => (s, None),
                        Some(Err(e)) => (s, Some(Err(e))),
                        Some(Ok(_)) => self.cleaning_up(s, tunnel, journal, live),
                    }
                }
            },
        }
    }

    /// What follows once the interface is down.
    pub open spec fn cleaning_up(
        self,
        s: SessionView,
        tunnel: TunnelView,
        journal: Option<JournalView>,
        changed: bool,
    ) -> Step<Result<(bool, GuardOutcomeView), ErrorView>> {
        let (s, restored) = self.restoring_dns(s, tunnel, journal);
        match restored {
            None => (s, None),
            Some(guard) => {
                let (s, removed) = state::removing(s, self.config_dir, tunnel.name);
                (
                    s,
                    match removed {
                        None => None,
                        Some(Err(e)) => Some(Err(e)),
                        Some(Ok(_)) => Some(Ok((changed, guard))),
                    },
                )
            },
        }
    }

    /// Finding out whether the tunnel of a journal is live: by the recorded
    /// interface, else by peer identity via its config.
    pub open spec fn checking_journal(
        self,
        s: SessionView,
        journal: JournalView,
        dump: Seq<DumpPeerView>,
    ) -> Step<bool> {
        if journal.interface matches Some(iface) && on_interface(dump, iface) {
            (s, Some(true))
        } else {
            let (s, resolved) = config::resolving(s, self.config_dir, journal.tunnel);
            match resolved {
                None => (s, None),
                Some(Err(_)) => (s, Some(false)),
                Some(Ok(tunnel)) => {
                    let (s, live) = finding_live(s, tunnel, dump);
                    (
                        s,
                        match live {
                            None => None,
                            Some(Err(_)) => Some(false),
                            Some(Ok(row)) => Some(row is Some),
                        },
                    )
                },
            }
        }
    }

    /// Taking down the interface of a journal, by its config, or by name when
    /// the config is gone. Best effort.
    pub open spec fn downing_journal(self, s: SessionView, journal: JournalView) -> Step<()> {
        let (s, resolved) = config::resolving(s, self.config_dir, journal.tunnel);
        match resolved {
            None => (s, None),
            Some(found) => {
                let target = match found {
                    Ok(tunnel) => Some(tunnel.path),
                    Err(_) => journal.interface,
                };
                match target {
                    None => (s, Some(())),
                    Some(t) => {
                        let (s, downed) = self.quick(s, "down"@, t);
                        (
                            s,
                            if downed is None {
                                None
                            } else {
                                Some(())
                            },
                        )
                    },
                }
            },
        }
    }

    /// Restoring DNS from a journal alone, unless another tunnel is known to be
    /// up.
    pub open spec fn restoring_journal(self, s: SessionView, journal: JournalView) -> Step<
        GuardOutcomeView,
    > {
        if journal.tunnel_dns.len() == 0 {
            (s, Some(GuardOutcomeView::nothing()))
        } else {
            let (s, active) = self.naming_active(s);
            match active {
                None => (s, None),
                Some(found) => if found matches Ok(names) && any_other(names, journal.tunnel) {
                    (s, Some(GuardOutcomeView::nothing()))
                } else {
                    dns::restoring(s, journal.dns_snapshot, journal.tunnel_dns, self.dns_sweeps)
                },
            }
        }
    }

    /// Recovering the host from one journal.
    pub open spec fn recovering_journal(
        self,
        s: SessionView,
        journal: JournalView,
        tear_down: bool,
        reason: Seq<char>,
    ) -> Step<RecoveredView> {
        let (s, downed) = if tear_down {
            self.downing_journal(s, journal)
        } else {
            (s, Some(()))
        };
        if downed is None {
            (s, None)
        } else {
            let (s, restored) = self.restoring_journal(s, journal);
            match restored {
                None => (s, None),
                Some(guard) => {
                    let (s, removed) = state::removing(s, self.config_dir, journal.tunnel);
                    (
                        s,
                        if removed is None {
                            None
                        } else {
                            Some(
                                RecoveredView {
                                    tunnel: journal.tunnel,
                                    reason,
                                    dns_cleared: guard.cleared,
                                    dns_warning: guard.warning,
                                },
                            )
                        },
                    )
                },
            }
        }
    }

    /// Reconciling the journals from `i` on, after what was recovered already.
    pub open spec fn reconciling_from(
        self,
        s: SessionView,
        journals: Seq<JournalView>,
        dump: Seq<DumpPeerView>,
        now: u64,
        i: int,
        recovered: Seq<RecoveredView>,
    ) -> Step<Result<Seq<RecoveredView>, ErrorView>>
        decreases journals.len() - i,
    {
        if i >= journals.len() {
            (s, Some(Ok(recovered)))
        } else {
            let (s, live) = self.checking_journal(s, journals[i], dump);
            match live {
                None => (s, None),
                Some(up) => match state::decision(journals[i], up, now) {
                    Reconciliation::Healthy => self.reconciling_from(
                        s,
                        journals,
                        dump,
                        now,
                        i + 1,
                        recovered,
                    ),
                    Reconciliation::Recover { tear_down, reason } => {
                        let (s, done) = self.recovering_journal(
                            s,
                            journals[i],
                            tear_down,
                            reason.description(),
                        );
                        match done {
                            None => (s, None),
                            Some(one) => self.reconciling_from(
                                s,
                                journals,
                                dump,
                                now,
                                i + 1,
                                recovered.push(one),
                            ),
                        }
                    },
                },
            }
        }
    }

    /// Rolling back what the journals record as partial or expired.
    pub open spec fn reconciling(self, s: SessionView) -> Step<
        Result<Seq<RecoveredView>, ErrorView>,
    > {
        let (s, read) = state::reading_all(s, self.config_dir);
        match read {
            None => (s, None),
            Some(journals) => if journals.len() == 0 {
                (s, Some(Ok(Seq::empty())))
            } else {
                let (s, dumped) = self.dumping(s);
                match dumped {
                    None => (s, None),
                    Some(Err(e)) => (s, Some(Err(e))),
                    Some(Ok(dump)) => {
                        let (s, now) = self.reading_clock(s);
                        match now {
                            None => (s, None),
                            Some(t) => self.reconciling_from(
                                s,
                                journals,
                                dump,
                                t,
                                0,
                                Seq::empty(),
                            ),
                        }
                    },
                }
            },
        }
    }

    /// What every operation on a named tunnel begins with: reconciling, finding
    /// the config, and finding out what is up.
    pub open spec fn approaching(self, s: SessionView, name: Seq<char>) -> Step<
        Result<(TunnelView, Seq<DumpPeerView>, Option<DumpPeerView>), ErrorView>,
    > {
        let (s, reconciled) = self.reconciling(s);
        match reconciled {
            None => (s, None),
            Some(Err(e)) => (s, Some(Err(e))),
            Some(Ok(_)) => {
                let (s, resolved) = config::resolving(s, self.config_dir, name);
                match resolved {
                    None => (s, None),
                    Some(Err(e)) => (s, Some(Err(e))),
                    Some(Ok(tunnel)) => {
                        let (s, dumped) = self.dumping(s);
                        match dumped {
                            None => (s, None),
                            Some(Err(e)) => (s, Some(Err(e))),
                            Some(Ok(dump)) => {
                                let (s, live) = finding_live(s, tunnel, dump);
                                (
                                    s,
                                    match live {
                                        None => None,
                                        Some(Err(e)) => Some(Err(e)),
                                        Some(Ok(row)) => Some(Ok((tunnel, dump, row))),
                                    },
                                )
                            },
                        }
                    },
                }
            },
        }
    }

    /// Recording a tunnel that is up: one that is not tracked, so that a later
    /// crash still self-heals; of one that is, the deadline of a new lease,
    /// where there is one. No host mutation, no capture; failing to write is
    /// not an error.
    pub open spec fn adopting(
        self,
        s: SessionView,
        tunnel: TunnelView,
        interface: Seq<char>,
        lease_secs: Option<u64>,
    ) -> Step<()> {
        let (s, read) = state::reading(s, self.config_dir, tunnel.name);
        match read {
            None => (s, None),
            Some(Some(j)) => match lease_secs {
                None => (s, Some(())),
                Some(secs) => {
                    let (s, now) = self.reading_clock(s);
                    match now {
                        None => (s, None),
                        Some(t) => {
                            let (s, written) = state::writing(
                                s,
                                self.config_dir,
                                JournalView { lease_deadline: Some(deadline(t, secs)), ..j },
                            );
                            (
                                s,
                                if written is None {
                                    None
                                } else {
                                    Some(())
                                },
                            )
                        },
                    }
                },
            },
            Some(None) => {
                let (s, journal) = self.recording_active(
                    s,
                    tunnel,
                    Some(interface),
                    lease_secs,
                    Seq::empty(),
                );
                match journal {
                    None => (s, None),
                    Some(j) => {
                        let (s, written) = state::writing(s, self.config_dir, j);
                        (
                            s,
                            if written is None {
                                None
                            } else {
                                Some(())
                            },
                        )
                    },
                }
            },
        }
    }

    /// `vpn up`.
    pub open spec fn upping(self, s: SessionView, name: Seq<char>, lease_secs: Option<u64>) -> Step<
        Result<(bool, TunnelStatusView), ErrorView>,
    > {
        let (s, approached) = self.approaching(s, name);
        match approached {
            None => (s, None),
            Some(Err(e)) => (s, Some(Err(e))),
            Some(Ok((tunnel, dump, live))) => match live {
                Some(hit) => {
                    let (s, adopted) = self.adopting(s, tunnel, hit.interface, lease_secs);
                    (
                        s,
                        if adopted is None {
                            None
                        } else {
                            Some(Ok((false, status_of(name, live, dump))))
                        },
                    )
                },
                None => {
                    let (s, activated) = self.activating(s, tunnel, lease_secs);
                    (
                        s,
                        match activated {
                            None => None,
                            Some(Err(e)) => Some(Err(e)),
                            Some(Ok(status)) => Some(Ok((true, status))),
                        },
                    )
                },
            },
        }
    }

    /// `vpn down`.
    pub open spec fn downing(self, s: SessionView, name: Seq<char>) -> Step<
        Result<DownOutcomeView, ErrorView>,
    > {
        let (s, approached) = self.approaching(s, name);
        match approached {
            None => (s, None),
            Some(Err(e)) => (s, Some(Err(e))),
            Some(Ok((tunnel, _, live))) => {
                let (s, torn) = self.tearing_down(s, tunnel, live is Some);
                (
                    s,
                    match torn {
                        None => None,
                        Some(Err(e)) => Some(Err(e)),
                        Some(Ok((changed, guard))) => Some(
                            Ok(
                                DownOutcomeView {
                                    changed,
                                    dns_cleared: guard.cleared,
                                    dns_warning: guard.warning,
                                },
                            ),
                        ),
                    },
                )
            },
        }
    }
}

impl Backend {
    /// Build an `Active` journal for `tunnel`, computing the lease deadline
    /// from the clock.
    pub(super) fn active_journal(
        &self,
        session: &mut Session,
        tunnel: &Tunnel,
        interface: Option<String>,
        lease_secs: Option<u64>,
        dns_snapshot: TextMap<Vec<String>>,
    ) -> (r: Option<Journal>)
        ensures
            (final(session).deep_view(), r.deep_view()) == self.deep_view().recording_active(
                old(session).deep_view(),
                tunnel.deep_view(),
                interface.deep_view(),
                lease_secs,
                dns_snapshot.deep_view(),
            ),
    {
        let tunnel_dns = declared_dns(session, &tunnel.path)?;
        let lease_deadline: Option<u64> = match lease_secs {
            None => None,
            Some(secs) => {
                let now: u64 = self.now(session)?;
                Some(lease_end(now, secs))
            },
        };
        Some(
            Journal {
                tunnel: tunnel.name.clone(),
                phase: Phase::Active,
                interface,
                lease_deadline,
                dns_snapshot,
                tunnel_dns,
            },
        )
    }

    /// Snapshot the pre-tunnel DNS (sanitized) and record an `UpPending`
    /// journal, the write-ahead step before `wg-quick up`. Returns the
    /// snapshot for the eventual `Active` record. No system calls when the
    /// config declares no `DNS`.
    pub(super) fn journal_up_pending(&self, session: &mut Session, tunnel: &Tunnel) -> (r: Option<
        Result<TextMap<Vec<String>>, Error>,
    >)
        ensures
            (final(session).deep_view(), so_far(r)) == self.deep_view().recording_pending(
                old(session).deep_view(),
                tunnel.deep_view(),
            ),
    {
        let tunnel_dns = declared_dns(session, &tunnel.path)?;
        proof {
            assert(tunnel_dns.deep_view().len() == tunnel_dns@.len());
        }
        let dns_snapshot: TextMap<Vec<String>> = if tunnel_dns.len() == 0 {
            TextMap::new()
        } else {
            match dns::capture(session, &tunnel_dns)? {
                Some(snapshot) => snapshot,
                None => TextMap::new(),
            }
        };
        let journal = Journal {
            tunnel: tunnel.name.clone(),
            phase: Phase::UpPending,
            interface: None,
            lease_deadline: None,
            dns_snapshot: state::copy_snapshot(&dns_snapshot),
            tunnel_dns,
        };
        match state::write(session, &self.config_dir, &journal)? {
            Err(e) => Some(Err(e)),
            Ok(_) => Some(Ok(dns_snapshot)),
        }
    }

    /// Run `wg-quick` on a config path or interface.
    pub(super) fn run_quick(&self, session: &mut Session, verb: &str, target: &str) -> (r: Option<
        Result<(), Error>,
    >)
        ensures
            (final(session).deep_view(), so_far(r)) == self.deep_view().quick(
                old(session).deep_view(),
                verb@,
                target@,
            ),
    {
        let args = text::list_of_two(verb, target);
        match self.exec(session, &self.wg_quick, &args)? {
            Err(e) => Some(Err(e)),
            Ok(out) => if out.success() {
                Some(Ok(()))
            } else {
                Some(Err(backend_error(&self.wg_quick, &out)))
            },
        }
    }

    /// Bring `tunnel` up with the journal as a write-ahead log: snapshot the
    /// pre-tunnel DNS, record `UpPending`, run `wg-quick up`, then record
    /// `Active` with the resolved interface. A crash at any point leaves a
    /// journal that [`Backend::reconcile`] rolls back. Returns the post-up
    /// status.
    pub(super) fn activate(&self, session: &mut Session, tunnel: &Tunnel, lease_secs: Option<u64>) -> (r:
        Option<Result<TunnelStatus, Error>>)
        ensures
            (final(session).deep_view(), so_far(r)) == self.deep_view().activating(
                old(session).deep_view(),
                tunnel.deep_view(),
                lease_secs,
            ),
    {
        match self.start(session, tunnel)? {
            Ok(dns_snapshot) => self.confirm(session, tunnel, lease_secs, dns_snapshot),
            Err(e) => Some(Err(e)),
        }
    }

    /// The first half of [`Backend::activate`]: everything up to `wg-quick up`
    /// itself. `Ok` exactly where that succeeded.
    pub(super) fn start(&self, session: &mut Session, tunnel: &Tunnel) -> (r: Option<
        Result<TextMap<Vec<String>>, Error>,
    >)
        ensures
            (final(session).deep_view(), so_far(r)) == self.deep_view().starting(
                old(session).deep_view(),
                tunnel.deep_view(),
            ),
    {
        let dns_snapshot = match self.journal_up_pending(session, tunnel)? {
            Ok(snapshot) => snapshot,
            Err(e) => {
                return Some(Err(e));
            },
        };
        match self.run_quick(session, "up", &tunnel.path)? {
            Ok(_) => Some(Ok(dns_snapshot)),
            Err(e) => Some(Err(e)),
        }
    }

    /// The second half of [`Backend::activate`]: record the tunnel that was
    /// just brought up as active.
    pub(super) fn confirm(
        &self,
        session: &mut Session,
        tunnel: &Tunnel,
        lease_secs: Option<u64>,
        dns_snapshot: TextMap<Vec<String>>,
    ) -> (r: Option<Result<TunnelStatus, Error>>)
        ensures
            (final(session).deep_view(), so_far(r)) == self.deep_view().confirming(
                old(session).deep_view(),
                tunnel.deep_view(),
                lease_secs,
                dns_snapshot.deep_view(),
            ),
    {
        let dump = match self.all_dump(session)? {
            Ok(dump) => dump,
            Err(e) => {
                return Some(Err(e));
            },
        };
        let live = match find_live(session, tunnel, &dump)? {
            Ok(live) => live,
            Err(e) => {
                return Some(Err(e));
            },
        };
        let interface = match &live {
            Some(hit) => Some(hit.interface.clone()),
            None => None,
        };
        let journal = self.active_journal(session, tunnel, interface, lease_secs, dns_snapshot)?;
        match state::write(session, &self.config_dir, &journal)? {
            Ok(_) => Some(Ok(status_from(&tunnel.name, &live, &dump))),
            Err(e) => Some(Err(e)),
        }
    }

    /// Restore DNS after a teardown. Prefers the journal's sanitized snapshot
    /// (which brings back custom static DNS, not just DHCP); falls back to
    /// clearing the config's `DNS` servers wherever they are still pinned.
    ///
    /// Skipped when another configured tunnel is still up — that tunnel
    /// legitimately owns the system DNS. Never fails.
    fn restore_dns(&self, session: &mut Session, tunnel: &Tunnel, journal: &Option<Journal>) -> (r:
        Option<GuardOutcome>)
        ensures
            (final(session).deep_view(), r.deep_view()) == self.deep_view().restoring_dns(
                old(session).deep_view(),
                tunnel.deep_view(),
                journal.deep_view(),
            ),
    {
        let from_journal = match journal {
            Some(j) => {
                proof {
                    assert(j.tunnel_dns.deep_view().len() == j.tunnel_dns@.len());
                }
                j.tunnel_dns.len() > 0
            },
            None => false,
        };
        let config_dns = if from_journal {
            text::no_texts()
        } else {
            declared_dns(session, &tunnel.path)?
        };
        proof {
            assert(config_dns.deep_view().len() == config_dns@.len());
        }
        if !from_journal && config_dns.len() == 0 {
            return Some(GuardOutcome::default());
        }
        let active = match self.current(session)? {
            Ok(active) => active,
            Err(_) => {
                return Some(GuardOutcome::default());
            },
        };
        if has_other(&active, &tunnel.name) {
            return Some(GuardOutcome::default());
        }
        match journal {
            Some(j) => if from_journal {
                dns::restore(session, &j.dns_snapshot, &j.tunnel_dns, &self.dns_sweeps)
            } else {
                dns::guard(session, &config_dns, &self.dns_sweeps)
            },
            None => dns::guard(session, &config_dns, &self.dns_sweeps),
        }
    }

    /// Tear `tunnel` down and restore the host DNS. `live` says whether an
    /// interface is currently up (the caller already knows: `down` checks,
    /// `probe`/`exec` know they brought it up), so no extra `wg` dump is made.
    /// Returns `(changed, dns)`. Idempotent: with nothing live it still
    /// restores DNS and clears the journal — what makes `down` a repair.
    pub(super) fn teardown(&self, session: &mut Session, tunnel: &Tunnel, live: bool) -> (r: Option<
        Result<(bool, GuardOutcome), Error>,
    >)
        ensures
            (final(session).deep_view(), so_far(r)) == self.deep_view().tearing_down(
                old(session).deep_view(),
                tunnel.deep_view(),
                live,
            ),
    {
        let journal = state::read(session, &self.config_dir, &tunnel.name)?;
        match &journal {
            Some(j) => {
                let mut pending = j.clone();
                pending.phase = Phase::DownPending;
                let _ = state::write(session, &self.config_dir, &pending)?;
            },
            None => {},
        }
        if live {
            match self.run_quick(session, "down", &tunnel.path)? {
                Ok(_) => {},
                Err(e) => {
                    return Some(Err(e));
                },
            }
        }
        let guard = self.restore_dns(session, tunnel, &journal)?;
        match state::remove(session, &self.config_dir, &tunnel.name)? {
            Ok(_) => Some(Ok((live, guard))),
            Err(e) => Some(Err(e)),
        }
    }

    /// Whether the journal's tunnel is currently live: by recorded interface
    /// name if known, else by peer identity via its config (if it still
    /// exists).
    fn journal_live(&self, session: &mut Session, journal: &Journal, dump: &Vec<DumpPeer>) -> (r:
        Option<bool>)
        ensures
            (final(session).deep_view(), r) == self.deep_view().checking_journal(
                old(session).deep_view(),
                journal.deep_view(),
                dump.deep_view(),
            ),
    {
        match &journal.interface {
            Some(iface) => {
                if has_interface(dump, iface) {
                    return Some(true);
                }
            },
            None => {},
        }
        match config::resolve(session, &self.config_dir, &journal.tunnel)? {
            Err(_) => Some(false),
            Ok(tunnel) => match find_live(session, &tunnel, dump)? {
                Err(_) => Some(false),
                Ok(row) => Some(row.is_some()),
            },
        }
    }

    /// Tear down the interface a journal describes, preferring its config path
    /// (so `wg-quick` restores routes correctly) and falling back to the bare
    /// interface name when the config is gone. Best effort.
    fn tear_down_journal(&self, session: &mut Session, journal: &Journal) -> (r: Option<()>)
        ensures
            (final(session).deep_view(), r) == self.deep_view().downing_journal(
                old(session).deep_view(),
                journal.deep_view(),
            ),
    {
        let target = match config::resolve(session, &self.config_dir, &journal.tunnel)? {
            Ok(tunnel) => Some(tunnel.path),
            Err(_) => match &journal.interface {
                Some(iface) => Some(iface.clone()),
                None => None,
            },
        };
        match target {
            Some(t) => {
                let _ = self.run_quick(session, "down", &t)?;
                Some(())
            },
            None => Some(()),
        }
    }

    /// DNS restore driven purely by a journal (used during reconciliation,
    /// where the config may be absent). Skips when another tunnel is still up.
    fn restore_dns_journal(&self, session: &mut Session, journal: &Journal) -> (r: Option<
        GuardOutcome,
    >)
        ensures
            (final(session).deep_view(), r.deep_view()) == self.deep_view().restoring_journal(
                old(session).deep_view(),
                journal.deep_view(),
            ),
    {
        proof {
            assert(journal.tunnel_dns.deep_view().len() == journal.tunnel_dns@.len());
        }
        if journal.tunnel_dns.len() == 0 {
            return Some(GuardOutcome::default());
        }
        match self.current(session)? {
            Ok(active) => {
                if has_other(&active, &journal.tunnel) {
                    return Some(GuardOutcome::default());
                }
            },
            Err(_) => {},
        }
        dns::restore(session, &journal.dns_snapshot, &journal.tunnel_dns, &self.dns_sweeps)
    }

    /// Recover the host from one journal.
    fn recover_journal(
        &self,
        session: &mut Session,
        journal: &Journal,
        tear_down: bool,
        reason: &str,
    ) -> (r: Option<Recovered>)
        ensures
            (final(session).deep_view(), r.deep_view()) == self.deep_view().recovering_journal(
                old(session).deep_view(),
                journal.deep_view(),
                tear_down,
                reason@,
            ),
    {
        if tear_down {
            self.tear_down_journal(session, journal)?;
        }
        let guard = self.restore_dns_journal(session, journal)?;
        let _ = state::remove(session, &self.config_dir, &journal.tunnel)?;
        Some(
            Recovered {
                tunnel: journal.tunnel.clone(),
                reason: reason.to_owned(),
                dns_cleared: guard.cleared,
                dns_warning: guard.warning,
            },
        )
    }

    /// Roll back any partial or expired tunnel state recorded in the journals,
    /// returning the host to a working configuration. Runs at the start of
    /// every mutating command. Cheap when idle: with no journals it makes no
    /// system calls at all, so ordinary operation is unaffected.
    pub fn reconcile(&self, session: &mut Session) -> (r: Option<Result<Vec<Recovered>, Error>>)
        ensures
            (final(session).deep_view(), so_far(r)) == self.deep_view().reconciling(
                old(session).deep_view(),
            ),
    {
        let ghost whole = self.deep_view().reconciling(session.deep_view());
        let journals = state::read_all(session, &self.config_dir)?;
        let ghost js = journals.deep_view();
        let mut recovered: Vec<Recovered> = Vec::new();
        proof {
            assert(js.len() == journals@.len());
            assert(recovered.deep_view() =~= Seq::<RecoveredView>::empty());
        }
        if journals.len() == 0 {
            return Some(Ok(recovered));
        }
        let dump = match self.all_dump(session)? {
            Ok(dump) => dump,
            Err(e) => {
                return Some(Err(e));
            },
        };
        let ghost d = dump.deep_view();
        let now: u64 = self.now(session)?;
        let mut i: usize = 0;
        while i < journals.len()
            invariant
                js == journals.deep_view(),
                d == dump.deep_view(),
                i <= journals@.len(),
                whole == self.deep_view().reconciling(old(session).deep_view()),
                whole == self.deep_view().reconciling_from(
                    session.deep_view(),
                    js,
                    d,
                    now,
                    i as int,
                    recovered.deep_view(),
                ),
            decreases journals@.len() - i,
        {
            let journal = &journals[i];
            let ghost before = recovered.deep_view();
            proof {
                assert(js[i as int] == journal.deep_view());
            }
            let live = self.journal_live(session, journal, &dump)?;
            match state::reconcile_one(journal, live, now) {
                Reconciliation::Healthy => {},
                Reconciliation::Recover { tear_down, reason } => {
                    let one = self.recover_journal(
                        session,
                        journal,
                        tear_down,
                        reason.describe(),
                    )?;
                    let ghost v = one.deep_view();
                    recovered.push(one);
                    proof {
                        assert(recovered.deep_view() =~= before.push(v));
                    }
                },
            }
            i = i + 1;
        }
        Some(Ok(recovered))
    }

    /// What every operation on a named tunnel begins with: reconcile, find the
    /// config, and find out what is up.
    pub(super) fn approach(&self, session: &mut Session, name: &str) -> (r: Option<
        Result<(Tunnel, Vec<DumpPeer>, Option<DumpPeer>), Error>,
    >)
        ensures
            (final(session).deep_view(), so_far(r)) == self.deep_view().approaching(
                old(session).deep_view(),
                name@,
            ),
    {
        match self.reconcile(session)? {
            Ok(_) => {},
            Err(e) => {
                return Some(Err(e));
            },
        }
        let tunnel = match config::resolve(session, &self.config_dir, name)? {
            Ok(tunnel) => tunnel,
            Err(e) => {
                return Some(Err(e));
            },
        };
        let dump = match self.all_dump(session)? {
            Ok(dump) => dump,
            Err(e) => {
                return Some(Err(e));
            },
        };
        match find_live(session, &tunnel, &dump)? {
            Ok(live) => Some(Ok((tunnel, dump, live))),
            Err(e) => Some(Err(e)),
        }
    }

    /// Record a tunnel that is up but not tracked, or the new lease of one
    /// that is.
    fn adopt(
        &self,
        session: &mut Session,
        tunnel: &Tunnel,
        interface: &str,
        lease_secs: Option<u64>,
    ) -> (r: Option<()>)
        ensures
            (final(session).deep_view(), r) == self.deep_view().adopting(
                old(session).deep_view(),
                tunnel.deep_view(),
                interface@,
                lease_secs,
            ),
    {
        match state::read(session, &self.config_dir, &tunnel.name)? {
            Some(known) => match lease_secs {
                None => Some(()),
                Some(secs) => {
                    let now: u64 = self.now(session)?;
                    let journal = Journal {
                        lease_deadline: Some(lease_end(now, secs)),
                        ..known
                    };
                    let _ = state::write(session, &self.config_dir, &journal)?;
                    Some(())
                },
            },
            None => {
                let journal = self.active_journal(
                    session,
                    tunnel,
                    Some(interface.to_owned()),
                    lease_secs,
                    TextMap::new(),
                )?;
                let _ = state::write(session, &self.config_dir, &journal)?;
                Some(())
            },
        }
    }

    /// Bring a tunnel up. Returns `(changed, status)` where `changed` is `false`
    /// if it was already up.
    pub fn up(&self, session: &mut Session, name: &str) -> (r: Option<
        Result<(bool, TunnelStatus), Error>,
    >)
        ensures
            (final(session).deep_view(), so_far(r)) == self.deep_view().upping(
                old(session).deep_view(),
                name@,
                None,
            ),
    {
        self.up_with_lease(session, name, None)
    }

    /// [`Backend::up`] with an optional lease duration in seconds, which
    /// records a deadline after which reconciliation tears the tunnel down
    /// automatically. A tunnel that is up already gets the new deadline too;
    /// without a lease, what is recorded of it stays as it is.
    pub fn up_with_lease(&self, session: &mut Session, name: &str, lease_secs: Option<u64>) -> (r:
        Option<Result<(bool, TunnelStatus), Error>>)
        ensures
            (final(session).deep_view(), so_far(r)) == self.deep_view().upping(
                old(session).deep_view(),
                name@,
                lease_secs,
            ),
    {
        let (tunnel, dump, live) = match self.approach(session, name)? {
            Ok(found) => found,
            Err(e) => {
                return Some(Err(e));
            },
        };
        match &live {
            Some(hit) => {
                self.adopt(session, &tunnel, &hit.interface, lease_secs)?;
                Some(Ok((false, status_from(name, &live, &dump))))
            },
            None => match self.activate(session, &tunnel, lease_secs)? {
                Ok(status) => Some(Ok((true, status))),
                Err(e) => Some(Err(e)),
            },
        }
    }

    /// Bring a tunnel down and restore the host: tear the interface down (if
    /// live), restore each network service's DNS from the journal snapshot
    /// (falling back to clearing the tunnel's pinned resolver to DHCP), and
    /// clear the journal.
    ///
    /// Runs even when the tunnel is already down, so `vpn down` doubles as an
    /// explicit repair for DNS poisoned by an unclean teardown (crash, or
    /// shutdown with the tunnel up).
    pub fn down(&self, session: &mut Session, name: &str) -> (r: Option<Result<DownOutcome, Error>>)
        ensures
            (final(session).deep_view(), so_far(r)) == self.deep_view().downing(
                old(session).deep_view(),
                name@,
            ),
    {
        let (tunnel, _dump, live) = match self.approach(session, name)? {
            Ok(found) => found,
            Err(e) => {
                return Some(Err(e));
            },
        };
        match self.teardown(session, &tunnel, live.is_some())? {
            Ok((changed, guard)) => Some(
                Ok(
                    DownOutcome {
                        changed,
                        dns_cleared: guard.cleared,
                        dns_warning: guard.warning,
                    },
                ),
            ),
            Err(e) => Some(Err(e)),
        }
    }
}

} // verus!
