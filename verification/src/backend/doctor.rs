//! `vpn doctor`: diagnosing the environment.
use vstd::prelude::*;

use super::configs::{collect_errors, collect_messages, error_messages, messages};
use super::recovery::{distinct_interfaces, interfaces};
use super::{Backend, BackendView, Check, CheckView};
use crate::config;
use crate::config::{Tunnel, TunnelView};
use crate::dns;
use crate::lint;
use crate::lint::LintResultView;
use crate::order;
use crate::session::{Session, SessionView, Step};
use crate::text;

verus! {

/// A check that passed, or not.
pub open spec fn checked(name: Seq<char>, ok: bool, detail: Seq<char>) -> CheckView {
    CheckView { name, ok, detail }
}

/// A check that passed, or not.
fn check(name: &str, ok: bool, detail: String) -> (r: Check)
    ensures
        r.deep_view() == checked(name@, ok, detail@),
{
    Check { name: name.to_owned(), ok, detail }
}

/// Three octal digits.
pub open spec fn octal(mode: nat) -> Seq<char> {
    seq![
        text::digit(mode / 64 % 8),
        text::digit(mode / 8 % 8),
        text::digit(mode % 8),
    ]
}

/// One octal digit.
fn octal_digit(d: u32) -> (c: char)
    requires
        d < 8,
    ensures
        c == text::digit(d as nat),
{
    (48u8 + d as u8) as char
}

/// Three octal digits.
fn text_octal(mode: u32) -> (r: String)
    ensures
        r@ == octal(mode as nat),
{
    let mut r = "".to_owned();
    proof {
        reveal_strlit("");
        assert(r@ =~= Seq::<char>::empty());
    }
    r.push(octal_digit(mode / 64 % 8));
    r.push(octal_digit(mode / 8 % 8));
    r.push(octal_digit(mode % 8));
    proof {
        assert(r@ =~= octal(mode as nat));
    }
    r
}

/// Whether a file of that mode is open to others than its owner: any of the
/// last two octal digits is set.
pub open spec fn open_to_others(mode: u32) -> bool {
    mode % 64 != 0
}

// ---------------------------------------------------------------------------
// The programs
// ---------------------------------------------------------------------------

/// Probing a binary via `--version`, unprivileged.
pub open spec fn checking_version(s: SessionView, label: Seq<char>, program: Seq<char>) -> Step<
    CheckView,
> {
    let (s, ran) = s.run(program, seq!["--version"@]);
    (
        s,
        match ran {
            None => None,
            Some(Ok(out)) => if out.success() {
                let lines = text::lines(out.stdout);
                Some(
                    checked(
                        label,
                        true,
                        text::trim(
                            if lines.len() > 0 {
                                lines[0]
                            } else {
                                "found"@
                            },
                        ),
                    ),
                )
            } else {
                Some(
                    checked(
                        label,
                        false,
                        "'"@ + program + " --version' exited "@ + text::signed_number(
                            match out.code {
                                Some(code) => code as int,
                                None => -1,
                            },
                        ),
                    ),
                )
            },
            Some(Err(source)) => Some(
                checked(label, false, "cannot run '"@ + program + "': "@ + source),
            ),
        },
    )
}

impl BackendView {
    /// Looking for `wg-quick`, which prints its usage when run without
    /// arguments.
    pub open spec fn checking_quick(self, s: SessionView) -> Step<CheckView> {
        let (s, ran) = s.run(self.wg_quick, Seq::empty());
        (
            s,
            match ran {
                None => None,
                Some(Ok(_)) => Some(
                    checked("wg-quick"@, true, "found ("@ + self.wg_quick + ")"@),
                ),
                Some(Err(source)) => Some(
                    checked(
                        "wg-quick"@,
                        false,
                        "cannot run '"@ + self.wg_quick + "': "@ + source
                            + " — install wireguard-tools"@,
                    ),
                ),
            },
        )
    }

    /// Trying passwordless sudo.
    pub open spec fn checking_sudo(self, s: SessionView) -> Step<CheckView> {
        let (s, ran) = s.run("sudo"@, seq!["-n"@, self.wg, "--version"@]);
        (
            s,
            match ran {
                None => None,
                Some(Ok(out)) => if out.success() {
                    Some(checked("sudo"@, true, "passwordless sudo works"@))
                } else {
                    Some(
                        checked(
                            "sudo"@,
                            false,
                            "sudo -n failed: "@ + text::trim(out.stderr)
                                + " — add a NOPASSWD rule for "@ + self.wg_quick + " and "@
                                + self.wg,
                        ),
                    )
                },
                Some(Err(source)) => Some(checked("sudo"@, false, "cannot run sudo: "@ + source)),
            },
        )
    }

    /// Reading the live WireGuard state.
    pub open spec fn checking_state(self, s: SessionView) -> Step<CheckView> {
        let (s, dumped) = self.dumping(s);
        (
            s,
            match dumped {
                None => None,
                Some(Ok(dump)) => Some(
                    checked(
                        "wg state"@,
                        true,
                        "readable ("@ + text::number(
                            order::text_set(interfaces(dump)).len(),
                        )
                            + " live interface(s))"@,
                    ),
                ),
                Some(Err(e)) => Some(checked("wg state"@, false, e.message())),
            },
        )
    }

    /// The checks of the programs: that they are there, that sudo asks for no
    /// password where it is configured, and that the state can be read.
    pub open spec fn checking_programs(self, s: SessionView) -> Step<Seq<CheckView>> {
        let (s, wg) = checking_version(s, "wg"@, self.wg);
        match wg {
            None => (s, None),
            Some(wg) => {
                let (s, quick) = self.checking_quick(s);
                match quick {
                    None => (s, None),
                    Some(quick) => {
                        let (s, curl) = checking_version(s, "curl"@, self.curl);
                        match curl {
                            None => (s, None),
                            Some(curl) => self.checking_access(s, seq![wg, quick, curl]),
                        }
                    },
                }
            },
        }
    }

    /// The checks of the access to the live state.
    pub open spec fn checking_access(self, s: SessionView, checks: Seq<CheckView>) -> Step<
        Seq<CheckView>,
    > {
        let (s, checks) = if self.sudo {
            let (s, sudo) = self.checking_sudo(s);
            (
                s,
                match sudo {
                    None => None,
                    Some(c) => Some(checks.push(c)),
                },
            )
        } else {
            (s, Some(checks))
        };
        match checks {
            None => (s, None),
            Some(checks) => {
                let (s, state) = self.checking_state(s);
                (
                    s,
                    match state {
                        None => None,
                        Some(c) => Some(checks.push(c)),
                    },
                )
            },
        }
    }
}

// ---------------------------------------------------------------------------
// The configs
// ---------------------------------------------------------------------------

/// The check of a config that lints clean, by its permissions.
pub open spec fn judged(tunnel: TunnelView, result: LintResultView, mode: Option<u32>) -> CheckView {
    let name = "config:"@ + tunnel.name;
    match mode {
        Some(m) if open_to_others(m) => checked(
            name,
            false,
            "private key readable by others (mode "@ + octal(m as nat % 512) + ") — chmod 600 '"@
                + tunnel.path + "'"@,
        ),
        _ => if result.findings.len() == 0 {
            checked(name, true, "ok"@)
        } else {
            checked(
                name,
                true,
                "ok ("@ + text::join(messages(result.findings), "; "@) + ")"@,
            )
        },
    }
}

/// Linting one config and verifying that its permissions are owner-only.
pub open spec fn checking_tunnel(s: SessionView, tunnel: TunnelView) -> Step<CheckView> {
    let name = "config:"@ + tunnel.name;
    let (s, summed) = config::summarizing(s, tunnel.path);
    match summed {
        None => (s, None),
        Some(Err(e)) => (s, Some(checked(name, false, e.message()))),
        Some(Ok(summary)) => {
            let result = lint::linted(tunnel.name, summary);
            if !result.ok {
                (
                    s,
                    Some(
                        checked(name, false, text::join(error_messages(result.findings), "; "@)),
                    ),
                )
            } else {
                let (s, mode) = s.file_mode(tunnel.path);
                (
                    s,
                    match mode {
                        None => None,
                        Some(m) => Some(judged(tunnel, result, m)),
                    },
                )
            }
        },
    }
}

/// Checking the configs from `i` on, after the checks made already.
pub open spec fn checking_tunnels_from(
    s: SessionView,
    tunnels: Seq<TunnelView>,
    i: int,
    checks: Seq<CheckView>,
) -> Step<Seq<CheckView>>
    decreases tunnels.len() - i,
{
    if i >= tunnels.len() {
        (s, Some(checks))
    } else {
        let (s, one) = checking_tunnel(s, tunnels[i]);
        match one {
            None => (s, None),
            Some(c) => checking_tunnels_from(s, tunnels, i + 1, checks.push(c)),
        }
    }
}

impl BackendView {
    /// The checks of the configs: discoverable, lint-clean, and private.
    pub open spec fn checking_configs(self, s: SessionView, checks: Seq<CheckView>) -> Step<
        Seq<CheckView>,
    > {
        let (s, discovered) = config::discovering(s, self.config_dir);
        match discovered {
            None => (s, None),
            Some(Err(e)) => (s, Some(checks.push(checked("config dir"@, false, e.message())))),
            Some(Ok(tunnels)) => checking_tunnels_from(
                s,
                tunnels,
                0,
                checks.push(
                    checked(
                        "config dir"@,
                        true,
                        text::number(tunnels.len()) + " tunnel(s) in "@ + self.config_dir,
                    ),
                ),
            ),
        }
    }

    /// The check for network services pinned to any config's `DNS` servers
    /// while no tunnel is up. There is none where no config declares `DNS`,
    /// where `networksetup` is unavailable, or where liveness cannot be
    /// determined.
    pub open spec fn checking_dns(self, s: SessionView) -> Step<Option<CheckView>> {
        let (s, collected) = self.collecting_dns(s);
        match collected {
            None => (s, None),
            Some(declared) => if declared.len() == 0 {
                (s, Some(None))
            } else {
                let (s, named) = self.naming_active(s);
                match named {
                    None => (s, None),
                    Some(Err(_)) => (s, Some(None)),
                    Some(Ok(active)) => if active.len() > 0 {
                        (
                            s,
                            Some(
                                Some(
                                    checked(
                                        "dns"@,
                                        true,
                                        "VPN DNS active while up (owned by "@ + text::join(
                                            active,
                                            ", "@,
                                        ) + ")"@,
                                    ),
                                ),
                            ),
                        )
                    } else {
                        let (s, stale) = dns::finding_stale(s, declared);
                        (
                            s,
                            match stale {
                                None => None,
                                Some(None) => Some(None),
                                Some(Some(services)) => Some(Some(stale_check(services))),
                            },
                        )
                    },
                }
            },
        }
    }

    /// `vpn doctor`.
    pub open spec fn diagnosing(self, s: SessionView) -> Step<Seq<CheckView>> {
        let (s, programs) = self.checking_programs(s);
        match programs {
            None => (s, None),
            Some(checks) => {
                let (s, configs) = self.checking_configs(s, checks);
                match configs {
                    None => (s, None),
                    Some(checks) => {
                        let (s, dns) = self.checking_dns(s);
                        (
                            s,
                            match dns {
                                None => None,
                                Some(None) => Some(checks),
                                Some(Some(c)) => Some(checks.push(c)),
                            },
                        )
                    },
                }
            },
        }
    }
}

/// The check for stale DNS while no tunnel is up.
pub open spec fn stale_check(services: Seq<Seq<char>>) -> CheckView {
    if services.len() == 0 {
        checked("dns"@, true, "no stale VPN DNS on any network service"@)
    } else {
        checked(
            "dns"@,
            false,
            "stale VPN DNS pinned on "@ + text::join(services, ", "@)
                + " — name resolution is broken while tunnels are down; run 'vpn down <name>' to repair, or: networksetup -setdnsservers '<service>' Empty"@,
        )
    }
}

/// Probe a binary via `--version`, unprivileged.
fn check_version(session: &mut Session, label: &str, program: &str) -> (r: Option<Check>)
    ensures
        (final(session).deep_view(), r.deep_view()) == checking_version(
            old(session).deep_view(),
            label@,
            program@,
        ),
{
    let args = text::list_of("--version");
    match session.run(program, args)? {
        Ok(out) => {
            if out.success() {
                let lines = text::text_lines(&out.stdout);
                proof {
                    assert(lines.deep_view().len() == lines@.len());
                }
                let version = if lines.len() > 0 {
                    proof {
                        assert(lines.deep_view()[0] == lines@[0]@);
                    }
                    text::text_trim(&lines[0])
                } else {
                    text::text_trim("found")
                };
                Some(check(label, true, version))
            } else {
                let code: i64 = match out.code {
                    Some(code) => code as i64,
                    None => -1,
                };
                let number = text::text_signed(code);
                let mut detail = "'".to_owned();
                detail.append(program);
                detail.append(" --version' exited ");
                detail.append(&number);
                Some(check(label, false, detail))
            }
        },
        Err(source) => {
            let mut detail = "cannot run '".to_owned();
            detail.append(program);
            detail.append("': ");
            detail.append(&source);
            Some(check(label, false, detail))
        },
    }
}

/// The check of a config that lints clean, by its permissions.
fn judge(tunnel: &Tunnel, result: &lint::LintResult, mode: Option<u32>) -> (r: Check)
    ensures
        r.deep_view() == judged(tunnel.deep_view(), result.deep_view(), mode),
{
    let mut name = "config:".to_owned();
    name.append(&tunnel.name);
    match mode {
        Some(m) => {
            if m % 64 != 0 {
                let shown = text_octal(m % 512);
                let mut detail = "private key readable by others (mode ".to_owned();
                detail.append(&shown);
                detail.append(") — chmod 600 '");
                detail.append(&tunnel.path);
                detail.append("'");
                return check(&name, false, detail);
            }
        },
        None => {},
    }
    proof {
        assert(result.findings.deep_view().len() == result.findings@.len());
    }
    if result.findings.len() == 0 {
        check(&name, true, "ok".to_owned())
    } else {
        let notes = collect_messages(&result.findings);
        let listed = text::text_join(&notes, "; ");
        let mut detail = "ok (".to_owned();
        detail.append(&listed);
        detail.append(")");
        check(&name, true, detail)
    }
}

/// Lint one config and verify its permissions are owner-only.
fn check_tunnel(session: &mut Session, tunnel: &Tunnel) -> (r: Option<Check>)
    ensures
        (final(session).deep_view(), r.deep_view()) == checking_tunnel(
            old(session).deep_view(),
            tunnel.deep_view(),
        ),
{
    let mut name = "config:".to_owned();
    name.append(&tunnel.name);
    let result = match config::conf_summary(session, &tunnel.path)? {
        Ok(summary) => lint::lint(&tunnel.name, &summary),
        Err(e) => {
            return Some(check(&name, false, e.to_string()));
        },
    };
    if !result.ok {
        let errors = collect_errors(&result.findings);
        let listed = text::text_join(&errors, "; ");
        return Some(check(&name, false, listed));
    }
    let mode = session.file_mode(&tunnel.path)?;
    Some(judge(tunnel, &result, mode))
}

/// Add a check to those made already.
fn add_check(checks: &mut Vec<Check>, one: Check)
    ensures
        final(checks).deep_view() == old(checks).deep_view().push(one.deep_view()),
{
    checks.push(one);
    proof {
        assert(checks.deep_view() =~= old(checks).deep_view().push(one.deep_view()));
    }
}

impl Backend {
    /// Look for `wg-quick`.
    fn check_quick(&self, session: &mut Session) -> (r: Option<Check>)
        ensures
            (final(session).deep_view(), r.deep_view()) == self.deep_view().checking_quick(
                old(session).deep_view(),
            ),
    {
        let args = text::no_texts();
        match session.run(&self.wg_quick, args)? {
            Ok(_) => {
                let mut detail = "found (".to_owned();
                detail.append(&self.wg_quick);
                detail.append(")");
                Some(check("wg-quick", true, detail))
            },
            Err(source) => {
                let mut detail = "cannot run '".to_owned();
                detail.append(&self.wg_quick);
                detail.append("': ");
                detail.append(&source);
                detail.append(" — install wireguard-tools");
                Some(check("wg-quick", false, detail))
            },
        }
    }

    /// Try passwordless sudo.
    fn check_sudo(&self, session: &mut Session) -> (r: Option<Check>)
        ensures
            (final(session).deep_view(), r.deep_view()) == self.deep_view().checking_sudo(
                old(session).deep_view(),
            ),
    {
        let args = text::list_of_three("-n", &self.wg, "--version");
        match session.run("sudo", args)? {
            Ok(out) => {
                if out.success() {
                    Some(check("sudo", true, "passwordless sudo works".to_owned()))
                } else {
                    let complaint = text::text_trim(&out.stderr);
                    let mut detail = "sudo -n failed: ".to_owned();
                    detail.append(&complaint);
                    detail.append(" — add a NOPASSWD rule for ");
                    detail.append(&self.wg_quick);
                    detail.append(" and ");
                    detail.append(&self.wg);
                    Some(check("sudo", false, detail))
                }
            },
            Err(source) => {
                let mut detail = "cannot run sudo: ".to_owned();
                detail.append(&source);
                Some(check("sudo", false, detail))
            },
        }
    }

    /// Read the live WireGuard state.
    fn check_state(&self, session: &mut Session) -> (r: Option<Check>)
        ensures
            (final(session).deep_view(), r.deep_view()) == self.deep_view().checking_state(
                old(session).deep_view(),
            ),
    {
        match self.all_dump(session)? {
            Ok(dump) => {
                let found = distinct_interfaces(&dump);
                proof {
                    assert(found.deep_view().len() == found@.len());
                }
                let number = text::text_number(found.len() as u64);
                let mut detail = "readable (".to_owned();
                detail.append(&number);
                detail.append(" live interface(s))");
                Some(check("wg state", true, detail))
            },
            Err(e) => Some(check("wg state", false, e.to_string())),
        }
    }

    /// The checks of the programs and of the access to the live state.
    fn check_programs(&self, session: &mut Session) -> (r: Option<Vec<Check>>)
        ensures
            (final(session).deep_view(), r.deep_view()) == self.deep_view().checking_programs(
                old(session).deep_view(),
            ),
    {
        let wg = check_version(session, "wg", &self.wg)?;
        let quick = self.check_quick(session)?;
        let curl = check_version(session, "curl", &self.curl)?;
        let ghost three = seq![wg.deep_view(), quick.deep_view(), curl.deep_view()];
        let mut checks: Vec<Check> = Vec::new();
        checks.push(wg);
        checks.push(quick);
        checks.push(curl);
        proof {
            assert(checks.deep_view() =~= three);
        }
        if self.sudo {
            let sudo = self.check_sudo(session)?;
            add_check(&mut checks, sudo);
        }
        let state = self.check_state(session)?;
        add_check(&mut checks, state);
        Some(checks)
    }

    /// The checks of the configs.
    fn check_configs(&self, session: &mut Session, made: Vec<Check>) -> (r: Option<Vec<Check>>)
        ensures
            (final(session).deep_view(), r.deep_view()) == self.deep_view().checking_configs(
                old(session).deep_view(),
                made.deep_view(),
            ),
    {
        let ghost whole = self.deep_view().checking_configs(session.deep_view(), made.deep_view());
        let mut checks = made;
        let tunnels = match config::discover(session, &self.config_dir)? {
            Ok(tunnels) => tunnels,
            Err(e) => {
                add_check(&mut checks, check("config dir", false, e.to_string()));
                return Some(checks);
            },
        };
        let ghost t = tunnels.deep_view();
        proof {
            assert(t.len() == tunnels@.len());
        }
        let mut detail = text::text_number(tunnels.len() as u64);
        detail.append(" tunnel(s) in ");
        detail.append(&self.config_dir);
        add_check(&mut checks, check("config dir", true, detail));
        let mut i: usize = 0;
        while i < tunnels.len()
            invariant
                t == tunnels.deep_view(),
                i <= tunnels@.len(),
                whole == self.deep_view().checking_configs(
                    old(session).deep_view(),
                    made.deep_view(),
                ),
                whole == checking_tunnels_from(
                    session.deep_view(),
                    t,
                    i as int,
                    checks.deep_view(),
                ),
            decreases tunnels@.len() - i,
        {
            proof {
                assert(t[i as int] == tunnels@[i as int].deep_view());
            }
            let one = check_tunnel(session, &tunnels[i])?;
            add_check(&mut checks, one);
            i = i + 1;
        }
        Some(checks)
    }

    /// Flag network services pinned to any config's `DNS` servers while no
    /// tunnel is up. In that state the pinned resolver is unreachable, so
    /// name resolution is dead machine-wide until the setting is cleared —
    /// the residue of an unclean `wg-quick` teardown.
    ///
    /// `None` when not applicable: no config declares `DNS`, `networksetup`
    /// is unavailable (not macOS), or liveness cannot be determined (the
    /// `wg state` check already reports that failure).
    fn check_dns(&self, session: &mut Session) -> (r: Option<Option<Check>>)
        ensures
            (final(session).deep_view(), r.deep_view()) == self.deep_view().checking_dns(
                old(session).deep_view(),
            ),
    {
        let declared = self.declared_dns_servers(session)?;
        proof {
            assert(declared.deep_view().len() == declared@.len());
        }
        if declared.len() == 0 {
            return Some(None);
        }
        let active = match self.current(session)? {
            Ok(active) => active,
            Err(_) => {
                return Some(None);
            },
        };
        proof {
            assert(active.deep_view().len() == active@.len());
        }
        if active.len() > 0 {
            let owners = text::text_join(&active, ", ");
            let mut detail = "VPN DNS active while up (owned by ".to_owned();
            detail.append(&owners);
            detail.append(")");
            return Some(Some(check("dns", true, detail)));
        }
        match dns::stale_services(session, &declared)? {
            None => Some(None),
            Some(stale) => {
                proof {
                    assert(stale.deep_view().len() == stale@.len());
                }
                if stale.len() == 0 {
                    let detail = "no stale VPN DNS on any network service".to_owned();
                    Some(Some(check("dns", true, detail)))
                } else {
                    let services = text::text_join(&stale, ", ");
                    let mut detail = "stale VPN DNS pinned on ".to_owned();
                    detail.append(&services);
                    detail.append(
                        " — name resolution is broken while tunnels are down; run 'vpn down <name>' to repair, or: networksetup -setdnsservers '<service>' Empty",
                    );
                    Some(Some(check("dns", false, detail)))
                }
            },
        }
    }

    /// Diagnose the environment: are the backend binaries reachable, does
    /// passwordless sudo work, can WireGuard state be read, and are the
    /// configs valid and private? Failures are embedded in the checks so an
    /// agent can read the full picture and fix its own setup.
    pub fn doctor(&self, session: &mut Session) -> (r: Option<Vec<Check>>)
        ensures
            (final(session).deep_view(), r.deep_view()) == self.deep_view().diagnosing(
                old(session).deep_view(),
            ),
    {
        let programs = self.check_programs(session)?;
        let mut checks = self.check_configs(session, programs)?;
        match self.check_dns(session)? {
            None => {},
            Some(one) => {
                add_check(&mut checks, one);
            },
        }
        Some(checks)
    }
}

// ---------------------------------------------------------------------------
// Laws
// ---------------------------------------------------------------------------

/// A config passes the check exactly if it can be read, lints without errors (so
/// holds no shell hook), and is not known to be open to others than its owner.
pub proof fn law_config_passes(s: SessionView, tunnel: TunnelView)
    ensures
        ({
            let (s1, summed) = config::summarizing(s, tunnel.path);
            let mode = s1.file_mode(tunnel.path).1;
            checking_tunnel(s, tunnel).1 matches Some(check) ==> (check.ok <==> {
                &&& summed matches Some(Ok(_))
                &&& lint::linted(tunnel.name, summed->0->Ok_0).ok
                &&& !(mode matches Some(Some(m)) && open_to_others(m))
            })
        }),
        checking_tunnel(s, tunnel).1 matches Some(check) ==> (config::summarizing(
            s,
            tunnel.path,
        ).1 matches Some(Ok(summary)) ==> (check.ok ==> summary.exec_hooks.len() == 0)),
{
    let summed = config::summarizing(s, tunnel.path).1;
    if let Some(Ok(summary)) = summed {
        lint::law_lint_ok(tunnel.name, summary);
    }
}

} // verus!
