//! Requests and commands through a tunnel: `probe`, `diff` and `exec`.
//!
//! Each brings a tunnel up only if needed and restores the state it found.
use vstd::prelude::*;

use super::live::{find_live, finding_live};
use super::{backend_error, failure, Backend, BackendView, ExecOutcome, ExecOutcomeView};
use crate::config;
use crate::config::{Tunnel, TunnelView};
use crate::diff;
use crate::diff::{Head, HeadView, LocationResult, LocationResultView};
use crate::dns::{GuardOutcome, GuardOutcomeView};
use crate::error::{so_far, Error, ErrorView};
use crate::order;
use crate::order::TextMap;
use crate::probe;
use crate::probe::{ProbeResult, ProbeResultView, Sample, SampleView, Timings};
use crate::runner::{CommandOutput, CommandOutputView};
use crate::session::{Session, SessionView, Step};
use crate::state;
use crate::status;
use crate::text;

verus! {

/// Extra seconds added to a transient (probe/diff) activation's lease, so a
/// killed operation's tunnel is reconciled away shortly after it would have
/// finished rather than lingering.
pub const TRANSIENT_LEASE_BUFFER_SECS: u64 = 60;

/// `n`, or the largest number of seconds there is.
pub open spec fn saturated(n: int) -> u64 {
    if n > u64::MAX {
        u64::MAX
    } else {
        n as u64
    }
}

/// The lease of a tunnel that is up for `n` requests of at most `max_time`
/// seconds each.
pub open spec fn transient_lease(max_time: u64, n: nat) -> u64 {
    saturated(saturated(max_time * n) + TRANSIENT_LEASE_BUFFER_SECS)
}

/// The lease of a tunnel that is up for `n` requests.
fn lease_for(max_time: u64, n: u64) -> (r: u64)
    ensures
        r == transient_lease(max_time, n as nat),
{
    let total: u64 = match max_time.checked_mul(n) {
        Some(total) => total,
        None => u64::MAX,
    };
    if total > u64::MAX - TRANSIENT_LEASE_BUFFER_SECS {
        u64::MAX
    } else {
        total + TRANSIENT_LEASE_BUFFER_SECS
    }
}

/// What is said of a `curl` that could not be launched.
pub open spec fn launch_failure(curl: Seq<char>, source: Seq<char>) -> Seq<char> {
    "failed to run '"@ + curl + "': "@ + source
}

/// What is said of a `curl` that exited non-zero.
pub open spec fn curl_failure(curl: Seq<char>, out: CommandOutputView) -> Seq<char> {
    let complaint = text::trim(out.stderr);
    if complaint.len() == 0 {
        curl + " exited "@ + text::signed_number(
            match out.code {
                Some(code) => code as int,
                None => -1,
            },
        )
    } else {
        complaint
    }
}

/// What is said of a `curl` that could not be launched.
fn describe_launch_failure(curl: &str, source: &str) -> (r: String)
    ensures
        r@ == launch_failure(curl@, source@),
{
    let mut message = "failed to run '".to_owned();
    message.append(curl);
    message.append("': ");
    message.append(source);
    message
}

/// What is said of a `curl` that exited non-zero.
fn describe_curl_failure(curl: &str, out: &CommandOutput) -> (r: String)
    ensures
        r@ == curl_failure(curl@, out.deep_view()),
{
    let complaint = text::text_trim(&out.stderr);
    if complaint.as_str().is_empty() {
        let mut message = curl.to_owned();
        message.append(" exited ");
        let code: i64 = match out.code {
            Some(code) => code as i64,
            None => -1,
        };
        let number = text::text_signed(code);
        message.append(&number);
        message
    } else {
        complaint
    }
}

// ---------------------------------------------------------------------------
// Probe
// ---------------------------------------------------------------------------

/// The arguments of the `curl` of a probe. For trace URLs the small response
/// body is captured, so the exit IP and answering PoP can be reported; other
/// URLs discard the body — it could be arbitrarily large.
pub open spec fn probe_args(url: Seq<char>, timeout: Seq<char>) -> Seq<Seq<char>> {
    seq![
        "-sS"@,
        "-o"@,
        if text::contains_text(url, "cdn-cgi/trace"@) {
            "-"@
        } else {
            "/dev/null"@
        },
        "-w"@,
        "\n"@ + probe::OUTPUT_MARKER@ + probe::CURL_FORMAT@,
        "--max-time"@,
        timeout,
        url,
    ]
}

impl BackendView {
    /// Sending one timed request, unprivileged: curl never goes through sudo.
    pub open spec fn sampling(self, s: SessionView, url: Seq<char>, timeout: Seq<char>) -> Step<
        Result<SampleView, Seq<char>>,
    > {
        let (s, ran) = s.run(self.curl, probe_args(url, timeout));
        match ran {
            None => (s, None),
            Some(Err(source)) => (s, Some(Err(launch_failure(self.curl, source)))),
            Some(Ok(out)) => if !out.success() {
                (s, Some(Err(curl_failure(self.curl, out))))
            } else {
                let (s, parsed) = match probe::probe_times(out.stdout) {
                    Some(fields) => s.parse_seconds(fields),
                    None => (s, Some(Seq::empty())),
                };
                (
                    s,
                    match parsed {
                        None => None,
                        Some(times) => match probe::probe_output(out.stdout, times) {
                            Ok(sample) => Some(Ok(sample)),
                            Err(message) => Some(Err("unexpected curl output: "@ + message)),
                        },
                    },
                )
            },
        }
    }

    /// Sending `n` more requests, after the successes and the first failure so
    /// far.
    pub open spec fn sampling_times(
        self,
        s: SessionView,
        url: Seq<char>,
        timeout: Seq<char>,
        n: nat,
        successes: Seq<SampleView>,
        first_error: Option<Seq<char>>,
    ) -> Step<(Seq<SampleView>, Option<Seq<char>>)>
        decreases n,
    {
        if n == 0 {
            (s, Some((successes, first_error)))
        } else {
            let (s, sampled) = self.sampling(s, url, timeout);
            match sampled {
                None => (s, None),
                Some(Ok(sample)) => self.sampling_times(
                    s,
                    url,
                    timeout,
                    (n - 1) as nat,
                    successes.push(sample),
                    first_error,
                ),
                Some(Err(message)) => self.sampling_times(
                    s,
                    url,
                    timeout,
                    (n - 1) as nat,
                    successes,
                    if first_error is None {
                        Some(message)
                    } else {
                        first_error
                    },
                ),
            }
        }
    }
}

/// The timings of the samples.
pub open spec fn timings_of(samples: Seq<SampleView>) -> Seq<Timings> {
    samples.map_values(|x: SampleView| x.timings)
}

/// The result of a probe of `count` requests, given those that succeeded and
/// the first failure.
pub open spec fn probe_summary(
    base: ProbeResultView,
    count: u32,
    successes: Seq<SampleView>,
    first_error: Option<Seq<char>>,
) -> ProbeResultView {
    let failures = (count - successes.len()) as u32;
    let counted = ProbeResultView {
        samples: count,
        failures,
        error: if failures > 0 {
            first_error
        } else {
            base.error
        },
        ..base
    };
    match probe::stats(timings_of(successes)) {
        Some((stats, median)) => {
            let sample = successes[median as int];
            ProbeResultView {
                ok: true,
                stats: Some(stats),
                timings: Some(sample.timings),
                remote_ip: sample.remote_ip,
                http_code: sample.http_code,
                exit: sample.trace,
                ..counted
            }
        },
        None => counted,
    }
}

/// The warning that a torn-down tunnel leaves in a report.
pub open spec fn teardown_warning(torn: Result<(bool, GuardOutcomeView), ErrorView>) -> Option<
    Seq<char>,
> {
    match torn {
        Ok((_, guard)) => guard.note(),
        Err(e) => Some("failed to restore tunnel state: "@ + e.message()),
    }
}

impl BackendView {
    /// Bringing a tunnel up for a probe: whether it is up now, or what
    /// `wg-quick` said. Journaling is best-effort — a disk hiccup must never
    /// fail a probe.
    pub open spec fn activating_probe(
        self,
        s: SessionView,
        tunnel: TunnelView,
        max_time: u64,
        count: u32,
    ) -> Step<Result<Option<ErrorView>, ErrorView>> {
        let (s, pending) = self.recording_pending(s, tunnel);
        match pending {
            None => (s, None),
            Some(recorded) => {
                let snapshot = match recorded {
                    Ok(taken) => taken,
                    Err(_) => Seq::empty(),
                };
                let (s, ran) = self.running(s, self.wg_quick, seq!["up"@, tunnel.path]);
                match ran {
                    None => (s, None),
                    Some(Err(e)) => (s, Some(Err(e))),
                    Some(Ok(out)) => if !out.success() {
                        (s, Some(Ok(Some(failure(self.wg_quick, out)))))
                    } else {
                        let (s, journal) = self.recording_active(
                            s,
                            tunnel,
                            None,
                            Some(transient_lease(max_time, count as nat)),
                            snapshot,
                        );
                        match journal {
                            None => (s, None),
                            Some(j) => {
                                let (s, written) = state::writing(s, self.config_dir, j);
                                (
                                    s,
                                    if written is None {
                                        None
                                    } else {
                                        Some(Ok(None))
                                    },
                                )
                            },
                        }
                    },
                }
            },
        }
    }

    /// Finding the interface of a tunnel for the report (best effort).
    pub open spec fn naming_interface(self, s: SessionView, tunnel: TunnelView) -> Step<
        Option<Seq<char>>,
    > {
        let (s, dumped) = self.dumping(s);
        match dumped {
            None => (s, None),
            Some(Err(_)) => (s, Some(None)),
            Some(Ok(dump)) => {
                let (s, live) = finding_live(s, tunnel, dump);
                (
                    s,
                    match live {
                        None => None,
                        Some(Ok(Some(hit))) => Some(Some(hit.interface)),
                        Some(_) => Some(None),
                    },
                )
            },
        }
    }

    /// Measuring through a tunnel that is up, and restoring it.
    pub open spec fn measuring(
        self,
        s: SessionView,
        tunnel: TunnelView,
        base: ProbeResultView,
        max_time: u64,
        count: u32,
    ) -> Step<Result<ProbeResultView, ErrorView>> {
        let (s, named) = self.naming_interface(s, tunnel);
        match named {
            None => (s, None),
            Some(interface) => {
                let n: u32 = if count == 0 {
                    1
                } else {
                    count
                };
                let (s, sampled) = self.sampling_times(
                    s,
                    base.url,
                    text::number(max_time as nat),
                    n as nat,
                    Seq::empty(),
                    None,
                );
                match sampled {
                    None => (s, None),
                    Some((successes, first_error)) => {
                        let result = probe_summary(
                            ProbeResultView { interface, ..base },
                            n,
                            successes,
                            first_error,
                        );
                        if !base.activated {
                            (s, Some(Ok(result)))
                        } else {
                            let (s, torn) = self.tearing_down(s, tunnel, true);
                            (
                                s,
                                match torn {
                                    None => None,
                                    Some(r) => Some(
                                        Ok(
                                            ProbeResultView {
                                                warning: teardown_warning(r),
                                                ..result
                                            },
                                        ),
                                    ),
                                },
                            )
                        }
                    },
                }
            },
        }
    }

    /// Probing one tunnel.
    pub open spec fn probing_one(
        self,
        s: SessionView,
        tunnel: TunnelView,
        url: Seq<char>,
        max_time: u64,
        count: u32,
    ) -> Step<Result<ProbeResultView, ErrorView>> {
        let (s, dumped) = self.dumping(s);
        match dumped {
            None => (s, None),
            Some(Err(e)) => (s, Some(Err(e))),
            Some(Ok(dump)) => {
                let (s, live) = finding_live(s, tunnel, dump);
                match live {
                    None => (s, None),
                    Some(Err(e)) => (s, Some(Err(e))),
                    Some(Ok(row)) => {
                        let base = ProbeResultView::new(tunnel.name, url, row is None);
                        if row is Some {
                            self.measuring(s, tunnel, base, max_time, count)
                        } else {
                            let (s, activated) = self.activating_probe(s, tunnel, max_time, count);
                            match activated {
                                None => (s, None),
                                Some(Err(e)) => (s, Some(Err(e))),
                                Some(Ok(Some(e))) => (
                                    s,
                                    Some(
                                        Ok(ProbeResultView { error: Some(e.message()), ..base }),
                                    ),
                                ),
                                Some(Ok(None)) => self.measuring(
                                    s,
                                    tunnel,
                                    base,
                                    max_time,
                                    count,
                                ),
                            }
                        }
                    },
                }
            },
        }
    }

    /// Probing the tunnels from `i` on, after those probed already.
    pub open spec fn probing_from(
        self,
        s: SessionView,
        tunnels: Seq<TunnelView>,
        url: Seq<char>,
        max_time: u64,
        count: u32,
        i: int,
        results: Seq<ProbeResultView>,
    ) -> Step<Result<Seq<ProbeResultView>, ErrorView>>
        decreases tunnels.len() - i,
    {
        if i >= tunnels.len() {
            (s, Some(Ok(order::sorted::<ProbeResult>(results))))
        } else {
            let (s, one) = self.probing_one(s, tunnels[i], url, max_time, count);
            match one {
                None => (s, None),
                Some(Err(e)) => (s, Some(Err(e))),
                Some(Ok(r)) => self.probing_from(
                    s,
                    tunnels,
                    url,
                    max_time,
                    count,
                    i + 1,
                    results.push(r),
                ),
            }
        }
    }

    /// Finding the tunnel of that name, or all tunnels.
    pub open spec fn selecting(self, s: SessionView, name: Option<Seq<char>>) -> Step<
        Result<Seq<TunnelView>, ErrorView>,
    > {
        match name {
            Some(n) => {
                let (s, resolved) = config::resolving(s, self.config_dir, n);
                (
                    s,
                    match resolved {
                        None => None,
                        Some(Err(e)) => Some(Err(e)),
                        Some(Ok(tunnel)) => Some(Ok(seq![tunnel])),
                    },
                )
            },
            None => config::discovering(s, self.config_dir),
        }
    }

    /// Reconciling, then finding the tunnels to work on.
    pub open spec fn reconciling_and_selecting(self, s: SessionView, name: Option<Seq<char>>) -> Step<
        Result<Seq<TunnelView>, ErrorView>,
    > {
        let (s, reconciled) = self.reconciling(s);
        match reconciled {
            None => (s, None),
            Some(Err(e)) => (s, Some(Err(e))),
            Some(Ok(_)) => self.selecting(s, name),
        }
    }

    /// `vpn probe`.
    pub open spec fn probing(
        self,
        s: SessionView,
        name: Option<Seq<char>>,
        url: Seq<char>,
        max_time: u64,
        count: u32,
    ) -> Step<Result<Seq<ProbeResultView>, ErrorView>> {
        let (s, selected) = self.reconciling_and_selecting(s, name);
        match selected {
            None => (s, None),
            Some(Err(e)) => (s, Some(Err(e))),
            Some(Ok(tunnels)) => self.probing_from(
                s,
                tunnels,
                url,
                max_time,
                count,
                0,
                Seq::empty(),
            ),
        }
    }
}

/// A sample in progress, seen through views.
pub open spec fn sampled_so_far(r: Option<Result<Sample, String>>) -> Option<
    Result<SampleView, Seq<char>>,
> {
    match r {
        Some(x) => Some(probe::sampled(x)),
        None => None,
    }
}

/// The tunnels to work on, by name or all.
pub open spec fn named_option(name: Option<&str>) -> Option<Seq<char>> {
    match name {
        Some(n) => Some(n@),
        None => None,
    }
}

/// The warning that a torn-down tunnel leaves in a report.
fn describe_teardown(torn: Result<(bool, GuardOutcome), Error>) -> (r: Option<String>)
    ensures
        r.deep_view() == teardown_warning(crate::error::outcome(torn)),
{
    match torn {
        Ok((_, guard)) => guard.note(),
        Err(e) => {
            let mut message = "failed to restore tunnel state: ".to_owned();
            let detail = e.to_string();
            message.append(&detail);
            Some(message)
        },
    }
}

/// The number of samples never exceeds the number of requests.
proof fn lemma_sampling_count(
    b: BackendView,
    s: SessionView,
    url: Seq<char>,
    timeout: Seq<char>,
    n: nat,
    successes: Seq<SampleView>,
    first_error: Option<Seq<char>>,
)
    ensures
        b.sampling_times(s, url, timeout, n, successes, first_error).1 matches Some(r)
            ==> r.0.len() <= successes.len() + n,
    decreases n,
{
    if n > 0 {
        let (s1, sampled) = b.sampling(s, url, timeout);
        match sampled {
            None => {},
            Some(Ok(sample)) => {
                lemma_sampling_count(
                    b,
                    s1,
                    url,
                    timeout,
                    (n - 1) as nat,
                    successes.push(sample),
                    first_error,
                );
            },
            Some(Err(message)) => {
                lemma_sampling_count(
                    b,
                    s1,
                    url,
                    timeout,
                    (n - 1) as nat,
                    successes,
                    if first_error is None {
                        Some(message)
                    } else {
                        first_error
                    },
                );
            },
        }
    }
}

impl Backend {
    /// Send one timed request.
    ///
    /// Returns the parsed sample on success, or a failure message. Runs
    /// unprivileged: curl never goes through sudo.
    fn probe_sample(&self, session: &mut Session, url: &str, timeout: &str) -> (r: Option<
        Result<Sample, String>,
    >)
        ensures
            (final(session).deep_view(), sampled_so_far(r)) == self.deep_view().sampling(
                old(session).deep_view(),
                url@,
                timeout@,
            ),
    {
        let capture_body = text::text_contains(url, "cdn-cgi/trace");
        let mut write_out = "\n".to_owned();
        write_out.append(probe::OUTPUT_MARKER);
        write_out.append(probe::CURL_FORMAT);
        let mut args = text::list_of_three(
            "-sS",
            "-o",
            if capture_body {
                "-"
            } else {
                "/dev/null"
            },
        );
        text::push_text(&mut args, "-w");
        text::push_text(&mut args, &write_out);
        text::push_text(&mut args, "--max-time");
        text::push_text(&mut args, timeout);
        text::push_text(&mut args, url);
        proof {
            assert(args.deep_view() =~= probe_args(url@, timeout@));
        }
        match session.run(&self.curl, args)? {
            Err(source) => Some(Err(describe_launch_failure(&self.curl, &source))),
            Ok(out) => {
                if !out.success() {
                    return Some(Err(describe_curl_failure(&self.curl, &out)));
                }
                let times: Vec<Option<i64>> = match probe::probe_time_fields(&out.stdout) {
                    Some(fields) => session.parse_seconds(fields)?,
                    None => Vec::new(),
                };
                match probe::parse_probe_output(&out.stdout, &times) {
                    Ok(sample) => Some(Ok(sample)),
                    Err(message) => {
                        let mut complaint = "unexpected curl output: ".to_owned();
                        complaint.append(&message);
                        Some(Err(complaint))
                    },
                }
            },
        }
    }

    /// Send `count` timed requests: the samples, and the first failure.
    fn probe_samples(&self, session: &mut Session, url: &str, timeout: &str, count: u32) -> (r:
        Option<(Vec<Sample>, Option<String>)>)
        ensures
            (final(session).deep_view(), r.deep_view()) == self.deep_view().sampling_times(
                old(session).deep_view(),
                url@,
                timeout@,
                count as nat,
                Seq::empty(),
                None,
            ),
            r matches Some(x) ==> x.0@.len() <= count,
    {
        let ghost whole = self.deep_view().sampling_times(
            session.deep_view(),
            url@,
            timeout@,
            count as nat,
            Seq::empty(),
            None,
        );
        proof {
            lemma_sampling_count(
                self.deep_view(),
                session.deep_view(),
                url@,
                timeout@,
                count as nat,
                Seq::empty(),
                None,
            );
        }
        let mut successes: Vec<Sample> = Vec::new();
        let mut first_error: Option<String> = None;
        let mut left: u32 = count;
        proof {
            assert(successes.deep_view() =~= Seq::<SampleView>::empty());
        }
        while left > 0
            invariant
                left <= count,
                successes@.len() <= count - left,
                whole == self.deep_view().sampling_times(
                    old(session).deep_view(),
                    url@,
                    timeout@,
                    count as nat,
                    Seq::empty(),
                    None,
                ),
                whole == self.deep_view().sampling_times(
                    session.deep_view(),
                    url@,
                    timeout@,
                    left as nat,
                    successes.deep_view(),
                    first_error.deep_view(),
                ),
            decreases left,
        {
            let ghost before = successes.deep_view();
            match self.probe_sample(session, url, timeout)? {
                Ok(sample) => {
                    let ghost v = sample.deep_view();
                    successes.push(sample);
                    proof {
                        assert(successes.deep_view() =~= before.push(v));
                    }
                },
                Err(message) => {
                    if first_error.is_none() {
                        first_error = Some(message);
                    }
                },
            }
            left = left - 1;
        }
        Some((successes, first_error))
    }

    /// Bring a tunnel up for a probe.
    fn activate_probe(&self, session: &mut Session, tunnel: &Tunnel, max_time: u64, count: u32) -> (r:
        Option<Result<Option<Error>, Error>>)
        ensures
            (final(session).deep_view(), so_far(r)) == self.deep_view().activating_probe(
                old(session).deep_view(),
                tunnel.deep_view(),
                max_time,
                count,
            ),
    {
        let snapshot: TextMap<Vec<String>> = match self.journal_up_pending(session, tunnel)? {
            Ok(taken) => taken,
            Err(_) => TextMap::new(),
        };
        let args = text::list_of_two("up", &tunnel.path);
        match self.exec(session, &self.wg_quick, &args)? {
            Err(e) => Some(Err(e)),
            Ok(out) => {
                if !out.success() {
                    return Some(Ok(Some(backend_error(&self.wg_quick, &out))));
                }
                let lease: u64 = lease_for(max_time, count as u64);
                let journal = self.active_journal(session, tunnel, None, Some(lease), snapshot)?;
                let _ = state::write(session, &self.config_dir, &journal)?;
                Some(Ok(None))
            },
        }
    }

    /// The interface of a tunnel for the report.
    fn interface_of(&self, session: &mut Session, tunnel: &Tunnel) -> (r: Option<Option<String>>)
        ensures
            (final(session).deep_view(), r.deep_view()) == self.deep_view().naming_interface(
                old(session).deep_view(),
                tunnel.deep_view(),
            ),
    {
        match self.all_dump(session)? {
            Err(_) => Some(None),
            Ok(dump) => match find_live(session, tunnel, &dump)? {
                Ok(Some(hit)) => Some(Some(hit.interface)),
                _ => Some(None),
            },
        }
    }

    /// Measure through a tunnel that is up, and restore it.
    fn measure(
        &self,
        session: &mut Session,
        tunnel: &Tunnel,
        base: ProbeResult,
        max_time: u64,
        count: u32,
    ) -> (r: Option<Result<ProbeResult, Error>>)
        ensures
            (final(session).deep_view(), so_far(r)) == self.deep_view().measuring(
                old(session).deep_view(),
                tunnel.deep_view(),
                base.deep_view(),
                max_time,
                count,
            ),
    {
        let mut result = base;
        result.interface = self.interface_of(session, tunnel)?;
        let ghost named = result.deep_view();
        let timeout = text::text_number(max_time);
        let n: u32 = if count == 0 {
            1
        } else {
            count
        };
        let (samples, first_error) = self.probe_samples(session, &result.url, &timeout, n)?;
        let ghost successes = samples.deep_view();
        let ghost failed = first_error.deep_view();
        let mut successes_left = samples;
        let mut timings: Vec<Timings> = Vec::new();
        let mut i: usize = 0;
        while i < successes_left.len()
            invariant
                successes == successes_left.deep_view(),
                i <= successes_left@.len(),
                timings@.len() == i,
                forall|j: int| 0 <= j < i ==> #[trigger] timings@[j] == successes[j].timings,
            decreases successes_left@.len() - i,
        {
            proof {
                assert(successes[i as int] == successes_left@[i as int].deep_view());
            }
            timings.push(successes_left[i].timings);
            i = i + 1;
        }
        proof {
            assert(timings@ =~= timings_of(successes));
        }
        result.samples = n;
        result.failures = n - successes_left.len() as u32;
        match probe::compute_stats(&timings) {
            Some((stats, median_idx)) => {
                proof {
                    assert(successes[median_idx as int]
                        == successes_left@[median_idx as int].deep_view());
                }
                let median = successes_left.swap_remove(median_idx);
                result.ok = true;
                result.stats = Some(stats);
                result.timings = Some(median.timings);
                result.remote_ip = median.remote_ip;
                result.http_code = median.http_code;
                result.exit = median.trace;
            },
            None => {},
        }
        if result.failures > 0 {
            result.error = first_error;
        }
        proof {
            assert(result.deep_view() == probe_summary(named, n, successes, failed));
        }
        if result.activated {
            let torn = self.teardown(session, tunnel, true)?;
            result.warning = describe_teardown(torn);
        }
        Some(Ok(result))
    }

    /// Send `count` timed requests through `tunnel` (bringing it up once if
    /// needed), aggregate the samples, and restore the previous up/down state.
    fn probe_one(
        &self,
        session: &mut Session,
        tunnel: &Tunnel,
        url: &str,
        max_time: u64,
        count: u32,
    ) -> (r: Option<Result<ProbeResult, Error>>)
        ensures
            (final(session).deep_view(), so_far(r)) == self.deep_view().probing_one(
                old(session).deep_view(),
                tunnel.deep_view(),
                url@,
                max_time,
                count,
            ),
    {
        let dump = match self.all_dump(session)? {
            Ok(dump) => dump,
            Err(e) => {
                return Some(Err(e));
            },
        };
        let live = match find_live(session, tunnel, &dump)? {
            Ok(live) => live,
            Err(e) => {
                return Some(Err(e));
            },
        };
        let mut result = ProbeResult::new(&tunnel.name, url, live.is_none());
        if live.is_none() {
            match self.activate_probe(session, tunnel, max_time, count)? {
                Err(e) => {
                    return Some(Err(e));
                },
                Ok(Some(e)) => {
                    result.error = Some(e.to_string());
                    return Some(Ok(result));
                },
                Ok(None) => {},
            }
        }
        self.measure(session, tunnel, result, max_time, count)
    }

    /// The tunnel of that name, or all tunnels.
    pub(super) fn select(&self, session: &mut Session, name: Option<&str>) -> (r: Option<
        Result<Vec<Tunnel>, Error>,
    >)
        ensures
            (final(session).deep_view(), so_far(r)) == self.deep_view().selecting(
                old(session).deep_view(),
                named_option(name),
            ),
    {
        match name {
            Some(n) => match config::resolve(session, &self.config_dir, n)? {
                Err(e) => Some(Err(e)),
                Ok(tunnel) => {
                    let ghost v = tunnel.deep_view();
                    let mut tunnels: Vec<Tunnel> = Vec::new();
                    tunnels.push(tunnel);
                    proof {
                        assert(tunnels.deep_view() =~= seq![v]);
                    }
                    Some(Ok(tunnels))
                },
            },
            None => config::discover(session, &self.config_dir),
        }
    }

    /// Reconcile, then find the tunnels to work on.
    fn reconcile_and_select(&self, session: &mut Session, name: Option<&str>) -> (r: Option<
        Result<Vec<Tunnel>, Error>,
    >)
        ensures
            (final(session).deep_view(), so_far(r)) == self.deep_view().reconciling_and_selecting(
                old(session).deep_view(),
                named_option(name),
            ),
    {
        match self.reconcile(session)? {
            Ok(_) => {},
            Err(e) => {
                return Some(Err(e));
            },
        }
        self.select(session, name)
    }

    /// Probe latency through one tunnel, or through every configured tunnel
    /// when `name` is `None` (sequentially — `count` requests per tunnel).
    ///
    /// Results are sorted successes-first by median total time. Per-tunnel
    /// failures (backend refusal, request failure) are embedded in the results
    /// rather than aborting the sweep; only environment-level errors (missing
    /// tunnel, unspawnable `wg`) return `Err`.
    pub fn probe(
        &self,
        session: &mut Session,
        name: Option<&str>,
        url: &str,
        max_time: u64,
        count: u32,
    ) -> (r: Option<Result<Vec<ProbeResult>, Error>>)
        ensures
            (final(session).deep_view(), so_far(r)) == self.deep_view().probing(
                old(session).deep_view(),
                named_option(name),
                url@,
                max_time,
                count,
            ),
    {
        let ghost whole = self.deep_view().probing(
            session.deep_view(),
            named_option(name),
            url@,
            max_time,
            count,
        );
        let tunnels = match self.reconcile_and_select(session, name)? {
            Ok(tunnels) => tunnels,
            Err(e) => {
                return Some(Err(e));
            },
        };
        let ghost t = tunnels.deep_view();
        let mut results: Vec<ProbeResult> = Vec::new();
        let mut i: usize = 0;
        proof {
            assert(results.deep_view() =~= Seq::<ProbeResultView>::empty());
        }
        while i < tunnels.len()
            invariant
                t == tunnels.deep_view(),
                i <= tunnels@.len(),
                whole == self.deep_view().probing(
                    old(session).deep_view(),
                    named_option(name),
                    url@,
                    max_time,
                    count,
                ),
                whole == self.deep_view().probing_from(
                    session.deep_view(),
                    t,
                    url@,
                    max_time,
                    count,
                    i as int,
                    results.deep_view(),
                ),
            decreases tunnels@.len() - i,
        {
            let ghost before = results.deep_view();
            proof {
                assert(t[i as int] == tunnels@[i as int].deep_view());
            }
            match self.probe_one(session, &tunnels[i], url, max_time, count)? {
                Err(e) => {
                    return Some(Err(e));
                },
                Ok(one) => {
                    let ghost v = one.deep_view();
                    results.push(one);
                    proof {
                        assert(results.deep_view() =~= before.push(v));
                    }
                },
            }
            i = i + 1;
        }
        Some(Ok(order::sort(results)))
    }
}

/// Whether successful probes carry their timings and their statistics.
pub open spec fn timed(results: Seq<ProbeResultView>) -> bool {
    forall|i: int|
        0 <= i < results.len() ==> ((#[trigger] results[i]).ok ==> results[i].timings is Some
            && results[i].stats is Some)
}

impl BackendView {
    /// A successful probe carries its timings.
    proof fn lemma_probe_timed(
        self,
        s: SessionView,
        tunnel: TunnelView,
        url: Seq<char>,
        max_time: u64,
        count: u32,
    )
        ensures
            self.probing_one(s, tunnel, url, max_time, count).1 matches Some(Ok(r)) ==> (r.ok
                ==> r.timings is Some && r.stats is Some),
    {
    }

    /// Successful probes carry their timings.
    proof fn lemma_probes_timed_from(
        self,
        s: SessionView,
        tunnels: Seq<TunnelView>,
        url: Seq<char>,
        max_time: u64,
        count: u32,
        i: int,
        results: Seq<ProbeResultView>,
    )
        requires
            timed(results),
        ensures
            self.probing_from(s, tunnels, url, max_time, count, i, results).1 matches Some(Ok(r))
                ==> timed(r),
        decreases tunnels.len() - i,
    {
        if i >= tunnels.len() {
            let sorted = order::sorted::<ProbeResult>(results);
            order::lemma_sorted::<ProbeResult>(results);
            assert forall|k: int| 0 <= k < sorted.len() && (#[trigger] sorted[k]).ok implies
                sorted[k].timings is Some && sorted[k].stats is Some by {
                broadcast use vstd::seq_lib::group_to_multiset_ensures;

                assert(sorted.contains(sorted[k]));
                assert(sorted.to_multiset().count(sorted[k]) > 0);
                assert(results.contains(sorted[k]));
            }
        } else {
            self.lemma_probe_timed(s, tunnels[i], url, max_time, count);
            let (s1, one) = self.probing_one(s, tunnels[i], url, max_time, count);
            match one {
                Some(Ok(r)) => {
                    self.lemma_probes_timed_from(
                        s1,
                        tunnels,
                        url,
                        max_time,
                        count,
                        i + 1,
                        results.push(r),
                    );
                },
                _ => {},
            }
        }
    }

    /// Successful probes carry their timings and their statistics.
    pub proof fn lemma_probes_timed(
        self,
        s: SessionView,
        name: Option<Seq<char>>,
        url: Seq<char>,
        max_time: u64,
        count: u32,
    )
        ensures
            self.probing(s, name, url, max_time, count).1 matches Some(Ok(r)) ==> timed(r),
    {
        let (s1, selected) = self.reconciling_and_selecting(s, name);
        match selected {
            Some(Ok(tunnels)) => {
                self.lemma_probes_timed_from(
                    s1,
                    tunnels,
                    url,
                    max_time,
                    count,
                    0,
                    Seq::empty(),
                );
            },
            _ => {},
        }
    }
}

// ---------------------------------------------------------------------------
// Diff
// ---------------------------------------------------------------------------

/// The arguments of the `curl` of a diff: headers to standard output, the body
/// discarded.
pub open spec fn diff_args(url: Seq<char>, timeout: Seq<char>) -> Seq<Seq<char>> {
    seq![
        "-sS"@,
        "-m"@,
        timeout,
        "-D"@,
        "-"@,
        "-o"@,
        "/dev/null"@,
        "-w"@,
        "\n"@ + probe::OUTPUT_MARKER@ + "%{http_code}"@,
        url,
    ]
}

/// The result of a location whose fetch failed.
pub open spec fn failed_location(name: Seq<char>, message: Seq<char>) -> LocationResultView {
    LocationResultView {
        name,
        ok: false,
        status: None,
        headers: Seq::empty(),
        exit_ip: None,
        error: Some(message),
    }
}

/// The result of a location.
pub open spec fn location_of(name: Seq<char>, fetched: Result<HeadView, Seq<char>>) -> LocationResultView {
    match fetched {
        Ok(head) => LocationResultView {
            name,
            ok: true,
            status: head.status,
            headers: head.headers,
            exit_ip: None,
            error: None,
        },
        Err(message) => failed_location(name, message),
    }
}

impl BackendView {
    /// Fetching the head of a response, unprivileged.
    pub open spec fn fetching(self, s: SessionView, url: Seq<char>, timeout: Seq<char>) -> Step<
        Result<HeadView, Seq<char>>,
    > {
        let (s, ran) = s.run(self.curl, diff_args(url, timeout));
        (
            s,
            match ran {
                None => None,
                Some(Err(source)) => Some(Err(launch_failure(self.curl, source))),
                Some(Ok(out)) => if out.success() {
                    Some(Ok(diff::head(out.stdout)))
                } else {
                    Some(Err(curl_failure(self.curl, out)))
                },
            },
        )
    }

    /// The fetch attempts from `i` on, after the outcome so far, until one
    /// succeeds. There is no delay before the first attempt.
    pub open spec fn fetching_from(
        self,
        s: SessionView,
        url: Seq<char>,
        timeout: Seq<char>,
        delays: Seq<u64>,
        i: int,
        last: Result<HeadView, Seq<char>>,
    ) -> Step<Result<HeadView, Seq<char>>>
        decreases delays.len() - i,
    {
        if i >= delays.len() || last is Ok {
            (s, Some(last))
        } else {
            let (s, slept) = if i > 0 && delays[i] > 0 {
                s.sleep(delays[i])
            } else {
                (s, Some(()))
            };
            if slept is None {
                (s, None)
            } else {
                let (s, fetched) = self.fetching(s, url, timeout);
                match fetched {
                    None => (s, None),
                    Some(outcome) => self.fetching_from(s, url, timeout, delays, i + 1, outcome),
                }
            }
        }
    }

    /// Comparing through one tunnel.
    pub open spec fn diffing_one(
        self,
        s: SessionView,
        tunnel: TunnelView,
        url: Seq<char>,
        max_time: u64,
    ) -> Step<Result<LocationResultView, ErrorView>> {
        let (s, dumped) = self.dumping(s);
        match dumped {
            None => (s, None),
            Some(Err(e)) => (s, Some(Err(e))),
            Some(Ok(dump)) => {
                let (s, live) = finding_live(s, tunnel, dump);
                match live {
                    None => (s, None),
                    Some(Err(e)) => (s, Some(Err(e))),
                    Some(Ok(row)) => if row is Some {
                        let (s, fetched) = self.fetching_from(
                            s,
                            url,
                            text::number(max_time as nat),
                            seq![0u64],
                            0,
                            Err("no attempt made"@),
                        );
                        (
                            s,
                            match fetched {
                                None => None,
                                Some(f) => Some(Ok(location_of(tunnel.name, f))),
                            },
                        )
                    } else {
                        self.diffing_transient(s, tunnel, url, max_time)
                    },
                }
            },
        }
    }

    /// Comparing through a tunnel that is brought up for it. A just-activated
    /// tunnel may not have finished its handshake, so the fetch is retried.
    /// Once `wg-quick up` has succeeded, the tunnel is taken down again,
    /// whatever comes of the rest.
    pub open spec fn diffing_transient(
        self,
        s: SessionView,
        tunnel: TunnelView,
        url: Seq<char>,
        max_time: u64,
    ) -> Step<Result<LocationResultView, ErrorView>> {
        let (s, started) = self.starting(s, tunnel);
        match started {
            None => (s, None),
            Some(Err(e)) => (s, Some(Ok(failed_location(tunnel.name, e.message())))),
            Some(Ok(dns_snapshot)) => {
                let (s, confirmed) = self.confirming(
                    s,
                    tunnel,
                    Some(transient_lease(max_time, self.diff_retries.len())),
                    dns_snapshot,
                );
                match confirmed {
                    None => (s, None),
                    Some(Err(e)) => self.leaving_location(
                        s,
                        tunnel,
                        failed_location(tunnel.name, e.message()),
                    ),
                    Some(Ok(_)) => {
                        let (s, fetched) = self.fetching_from(
                            s,
                            url,
                            text::number(max_time as nat),
                            self.diff_retries,
                            0,
                            Err("no attempt made"@),
                        );
                        match fetched {
                            None => (s, None),
                            Some(f) => self.leaving_location(
                                s,
                                tunnel,
                                location_of(tunnel.name, f),
                            ),
                        }
                    },
                }
            },
        }
    }

    /// Taking down a tunnel that was brought up for a comparison, which ended
    /// in `result`.
    pub open spec fn leaving_location(
        self,
        s: SessionView,
        tunnel: TunnelView,
        result: LocationResultView,
    ) -> Step<Result<LocationResultView, ErrorView>> {
        let (s, torn) = self.tearing_down(s, tunnel, true);
        (
            s,
            if torn is None {
                None
            } else {
                Some(Ok(result))
            },
        )
    }

    /// Comparing through the tunnels from `i` on, after those compared already.
    pub open spec fn diffing_from(
        self,
        s: SessionView,
        tunnels: Seq<TunnelView>,
        url: Seq<char>,
        max_time: u64,
        i: int,
        results: Seq<LocationResultView>,
    ) -> Step<Result<Seq<LocationResultView>, ErrorView>>
        decreases tunnels.len() - i,
    {
        if i >= tunnels.len() {
            (s, Some(Ok(results)))
        } else {
            let (s, one) = self.diffing_one(s, tunnels[i], url, max_time);
            match one {
                None => (s, None),
                Some(Err(e)) => (s, Some(Err(e))),
                Some(Ok(r)) => self.diffing_from(s, tunnels, url, max_time, i + 1, results.push(r)),
            }
        }
    }

    /// `vpn diff`.
    pub open spec fn diffing(
        self,
        s: SessionView,
        name: Option<Seq<char>>,
        url: Seq<char>,
        max_time: u64,
    ) -> Step<Result<Seq<LocationResultView>, ErrorView>> {
        let (s, selected) = self.reconciling_and_selecting(s, name);
        match selected {
            None => (s, None),
            Some(Err(e)) => (s, Some(Err(e))),
            Some(Ok(tunnels)) => self.diffing_from(s, tunnels, url, max_time, 0, Seq::empty()),
        }
    }
}

/// A fetch, seen through views.
pub open spec fn fetch_view(r: Result<Head, String>) -> Result<HeadView, Seq<char>> {
    match r {
        Ok(head) => Ok(head.deep_view()),
        Err(e) => Err(e@),
    }
}

/// A fetch in progress, seen through views.
pub open spec fn fetched_so_far(r: Option<Result<Head, String>>) -> Option<
    Result<HeadView, Seq<char>>,
> {
    match r {
        Some(x) => Some(fetch_view(x)),
        None => None,
    }
}

/// The result of a location.
fn describe_location(name: &str, fetched: Result<Head, String>) -> (r: LocationResult)
    ensures
        r.deep_view() == location_of(name@, fetch_view(fetched)),
{
    match fetched {
        Ok(head) => LocationResult {
            name: name.to_owned(),
            ok: true,
            status: head.status,
            headers: head.headers,
            exit_ip: None,
            error: None,
        },
        Err(message) => LocationResult {
            name: name.to_owned(),
            ok: false,
            status: None,
            headers: TextMap::new(),
            exit_ip: None,
            error: Some(message),
        },
    }
}

impl Backend {
    /// Run one header-only `curl` and parse the status + headers.
    fn diff_fetch(&self, session: &mut Session, url: &str, timeout: &str) -> (r: Option<
        Result<Head, String>,
    >)
        ensures
            (final(session).deep_view(), fetched_so_far(r)) == self.deep_view().fetching(
                old(session).deep_view(),
                url@,
                timeout@,
            ),
    {
        let mut write_out = "\n".to_owned();
        write_out.append(probe::OUTPUT_MARKER);
        write_out.append("%{http_code}");
        let mut args = text::list_of_three("-sS", "-m", timeout);
        text::push_text(&mut args, "-D");
        text::push_text(&mut args, "-");
        text::push_text(&mut args, "-o");
        text::push_text(&mut args, "/dev/null");
        text::push_text(&mut args, "-w");
        text::push_text(&mut args, &write_out);
        text::push_text(&mut args, url);
        proof {
            assert(args.deep_view() =~= diff_args(url@, timeout@));
        }
        match session.run(&self.curl, args)? {
            Err(source) => Some(Err(describe_launch_failure(&self.curl, &source))),
            Ok(out) => if out.success() {
                Some(Ok(diff::parse_head(&out.stdout)))
            } else {
                Some(Err(describe_curl_failure(&self.curl, &out)))
            },
        }
    }

    /// Fetch on the given schedule until an attempt succeeds.
    fn diff_attempts(
        &self,
        session: &mut Session,
        url: &str,
        max_time: u64,
        delays: &Vec<u64>,
    ) -> (r: Option<Result<Head, String>>)
        ensures
            (final(session).deep_view(), fetched_so_far(r)) == self.deep_view().fetching_from(
                old(session).deep_view(),
                url@,
                text::number(max_time as nat),
                delays@,
                0,
                Err("no attempt made"@),
            ),
    {
        let timeout = text::text_number(max_time);
        let ghost whole = self.deep_view().fetching_from(
            session.deep_view(),
            url@,
            timeout@,
            delays@,
            0,
            Err("no attempt made"@),
        );
        let mut fetched: Result<Head, String> = Err("no attempt made".to_owned());
        let mut i: usize = 0;
        while i < delays.len() && fetched.is_err()
            invariant
                i <= delays@.len(),
                timeout@ == text::number(max_time as nat),
                whole == self.deep_view().fetching_from(
                    old(session).deep_view(),
                    url@,
                    timeout@,
                    delays@,
                    0,
                    Err("no attempt made"@),
                ),
                whole == self.deep_view().fetching_from(
                    session.deep_view(),
                    url@,
                    timeout@,
                    delays@,
                    i as int,
                    fetch_view(fetched),
                ),
            decreases delays@.len() - i,
        {
            let delay: u64 = delays[i];
            if i > 0 && delay > 0 {
                session.sleep(delay)?;
            }
            fetched = self.diff_fetch(session, url, &timeout)?;
            i = i + 1;
        }
        Some(fetched)
    }

    /// Fetch `url` once through `tunnel` (bringing it up if needed, restoring
    /// after) and capture the response status and headers.
    fn diff_one(&self, session: &mut Session, tunnel: &Tunnel, url: &str, max_time: u64) -> (r:
        Option<Result<LocationResult, Error>>)
        ensures
            (final(session).deep_view(), so_far(r)) == self.deep_view().diffing_one(
                old(session).deep_view(),
                tunnel.deep_view(),
                url@,
                max_time,
            ),
    {
        let dump = match self.all_dump(session)? {
            Ok(dump) => dump,
            Err(e) => {
                return Some(Err(e));
            },
        };
        let live = match find_live(session, tunnel, &dump)? {
            Ok(live) => live,
            Err(e) => {
                return Some(Err(e));
            },
        };
        if live.is_some() {
            let mut once: Vec<u64> = Vec::new();
            once.push(0);
            proof {
                assert(once@ =~= seq![0u64]);
            }
            let fetched = self.diff_attempts(session, url, max_time, &once)?;
            return Some(Ok(describe_location(&tunnel.name, fetched)));
        }
        let lease: u64 = lease_for(max_time, self.diff_retries.len() as u64);
        let dns_snapshot = match self.start(session, tunnel)? {
            Ok(snapshot) => snapshot,
            Err(e) => {
                let message = e.to_string();
                return Some(Ok(describe_location(&tunnel.name, Err(message))));
            },
        };
        let fetched = match self.confirm(session, tunnel, Some(lease), dns_snapshot)? {
            Ok(_) => self.diff_attempts(session, url, max_time, &self.diff_retries)?,
            Err(e) => Err(e.to_string()),
        };
        let _ = self.teardown(session, tunnel, true)?;
        Some(Ok(describe_location(&tunnel.name, fetched)))
    }

    /// Fetch `url` through one tunnel, or through every configured tunnel when
    /// `name` is `None`, and return each location's status + headers for
    /// comparison. Each fetch uses the same activate-run-restore care as
    /// `probe`: a tunnel is brought up only if needed and restored afterwards.
    ///
    /// Per-location failures are embedded in the results; only environment
    /// errors (missing tunnel, unspawnable `wg`) return `Err`.
    pub fn diff(&self, session: &mut Session, name: Option<&str>, url: &str, max_time: u64) -> (r:
        Option<Result<Vec<LocationResult>, Error>>)
        ensures
            (final(session).deep_view(), so_far(r)) == self.deep_view().diffing(
                old(session).deep_view(),
                named_option(name),
                url@,
                max_time,
            ),
    {
        let ghost whole = self.deep_view().diffing(
            session.deep_view(),
            named_option(name),
            url@,
            max_time,
        );
        let tunnels = match self.reconcile_and_select(session, name)? {
            Ok(tunnels) => tunnels,
            Err(e) => {
                return Some(Err(e));
            },
        };
        let ghost t = tunnels.deep_view();
        let mut results: Vec<LocationResult> = Vec::new();
        let mut i: usize = 0;
        proof {
            assert(results.deep_view() =~= Seq::<LocationResultView>::empty());
        }
        while i < tunnels.len()
            invariant
                t == tunnels.deep_view(),
                i <= tunnels@.len(),
                whole == self.deep_view().diffing(
                    old(session).deep_view(),
                    named_option(name),
                    url@,
                    max_time,
                ),
                whole == self.deep_view().diffing_from(
                    session.deep_view(),
                    t,
                    url@,
                    max_time,
                    i as int,
                    results.deep_view(),
                ),
            decreases tunnels@.len() - i,
        {
            let ghost before = results.deep_view();
            proof {
                assert(t[i as int] == tunnels@[i as int].deep_view());
            }
            match self.diff_one(session, &tunnels[i], url, max_time)? {
                Err(e) => {
                    return Some(Err(e));
                },
                Ok(one) => {
                    let ghost v = one.deep_view();
                    results.push(one);
                    proof {
                        assert(results.deep_view() =~= before.push(v));
                    }
                },
            }
            i = i + 1;
        }
        Some(Ok(results))
    }
}

// ---------------------------------------------------------------------------
// Exec
// ---------------------------------------------------------------------------

impl BackendView {
    /// Bringing a tunnel up for a command: journaled before, and recorded as
    /// active after (best effort).
    pub open spec fn activating_exec(self, s: SessionView, tunnel: TunnelView) -> Step<
        Result<(), ErrorView>,
    > {
        let (s, pending) = self.recording_pending(s, tunnel);
        match pending {
            None => (s, None),
            Some(Err(e)) => (s, Some(Err(e))),
            Some(Ok(snapshot)) => {
                let (s, upped) = self.quick(s, "up"@, tunnel.path);
                match upped {
                    None => (s, None),
                    Some(Err(e)) => (s, Some(Err(e))),
                    Some(Ok(_)) => {
                        let (s, journal) = self.recording_active(s, tunnel, None, None, snapshot);
                        match journal {
                            None => (s, None),
                            Some(j) => {
                                let (s, written) = state::writing(s, self.config_dir, j);
                                (
                                    s,
                                    if written is None {
                                        None
                                    } else {
                                        Some(Ok(()))
                                    },
                                )
                            },
                        }
                    },
                }
            },
        }
    }

    /// Running a command through a tunnel that is up, and restoring the tunnel
    /// where it was brought up for it. The child always runs unprivileged.
    pub open spec fn running_child(
        self,
        s: SessionView,
        tunnel: TunnelView,
        name: Seq<char>,
        activated: bool,
        command: Seq<Seq<char>>,
    ) -> Step<Result<ExecOutcomeView, ErrorView>> {
        let program = command[0];
        let (s, child) = s.run_passthrough(program, command.skip(1));
        match child {
            None => (s, None),
            Some(exited) => {
                let (s, torn) = if activated {
                    let (s, torn) = self.tearing_down(s, tunnel, true);
                    (
                        s,
                        match torn {
                            None => None,
                            Some(r) => Some(teardown_warning(r)),
                        },
                    )
                } else {
                    (s, Some(None))
                };
                (
                    s,
                    match torn {
                        None => None,
                        Some(warning) => match exited {
                            Err(source) => Some(Err(ErrorView::Spawn { program, source })),
                            Ok(code) => Some(
                                Ok(
                                    ExecOutcomeView {
                                        name,
                                        activated,
                                        exit_code: match code {
                                            Some(c) => c,
                                            None => 1i32,
                                        },
                                        warning,
                                    },
                                ),
                            ),
                        },
                    },
                )
            },
        }
    }

    /// `vpn exec`.
    pub open spec fn executing(self, s: SessionView, name: Seq<char>, command: Seq<Seq<char>>) -> Step<
        Result<ExecOutcomeView, ErrorView>,
    > {
        let (s, approached) = self.approaching(s, name);
        match approached {
            None => (s, None),
            Some(Err(e)) => (s, Some(Err(e))),
            Some(Ok((tunnel, _, live))) => if live is Some {
                self.running_child(s, tunnel, name, false, command)
            } else {
                let (s, activated) = self.activating_exec(s, tunnel);
                match activated {
                    None => (s, None),
                    Some(Err(e)) => (s, Some(Err(e))),
                    Some(Ok(_)) => self.running_child(s, tunnel, name, true, command),
                }
            },
        }
    }
}

impl Backend {
    /// Bring a tunnel up for a command. A crash while the child runs still
    /// self-heals on the next `vpn` command.
    fn activate_exec(&self, session: &mut Session, tunnel: &Tunnel) -> (r: Option<
        Result<(), Error>,
    >)
        ensures
            (final(session).deep_view(), so_far(r)) == self.deep_view().activating_exec(
                old(session).deep_view(),
                tunnel.deep_view(),
            ),
    {
        let snapshot = match self.journal_up_pending(session, tunnel)? {
            Ok(snapshot) => snapshot,
            Err(e) => {
                return Some(Err(e));
            },
        };
        match self.run_quick(session, "up", &tunnel.path)? {
            Ok(_) => {},
            Err(e) => {
                return Some(Err(e));
            },
        }
        let journal = self.active_journal(session, tunnel, None, None, snapshot)?;
        let _ = state::write(session, &self.config_dir, &journal)?;
        Some(Ok(()))
    }

    /// Run a command through a tunnel that is up, and restore the tunnel where
    /// it was brought up for it.
    fn run_child(
        &self,
        session: &mut Session,
        tunnel: &Tunnel,
        name: &str,
        activated: bool,
        command: &Vec<String>,
    ) -> (r: Option<Result<ExecOutcome, Error>>)
        requires
            command@.len() > 0,
        ensures
            (final(session).deep_view(), so_far(r)) == self.deep_view().running_child(
                old(session).deep_view(),
                tunnel.deep_view(),
                name@,
                activated,
                command.deep_view(),
            ),
    {
        let mut args = status::copy_texts(command);
        proof {
            assert(args.deep_view().len() == args@.len());
            assert(command.deep_view().len() == command@.len());
            assert(args@[0]@ == args.deep_view()[0]);
        }
        let ghost all = args.deep_view();
        let program = args.remove(0);
        proof {
            assert(args.deep_view() =~= all.skip(1));
        }
        let child = session.run_passthrough(&program, args)?;
        let warning = if activated {
            let torn = self.teardown(session, tunnel, true)?;
            describe_teardown(torn)
        } else {
            None
        };
        match child {
            Err(source) => Some(Err(Error::Spawn { program, source })),
            Ok(code) => {
                let exit_code: i32 = match code {
                    Some(c) => c,
                    None => 1,
                };
                Some(Ok(ExecOutcome { name: name.to_owned(), activated, exit_code, warning }))
            },
        }
    }

    /// Run `command` with the tunnel up, streaming its stdio straight through,
    /// then restore the tunnel's previous up/down state.
    ///
    /// The child always runs unprivileged (never under sudo). A tunnel that
    /// cannot be brought up is a hard error; a child that cannot be spawned is
    /// reported as [`Error::Spawn`] *after* the tunnel state is restored.
    pub fn exec_through(&self, session: &mut Session, name: &str, command: &Vec<String>) -> (r:
        Option<Result<ExecOutcome, Error>>)
        requires
            command@.len() > 0,
        ensures
            (final(session).deep_view(), so_far(r)) == self.deep_view().executing(
                old(session).deep_view(),
                name@,
                command.deep_view(),
            ),
    {
        let (tunnel, _dump, live) = match self.approach(session, name)? {
            Ok(found) => found,
            Err(e) => {
                return Some(Err(e));
            },
        };
        let activated = live.is_none();
        if activated {
            match self.activate_exec(session, &tunnel)? {
                Ok(_) => {},
                Err(e) => {
                    return Some(Err(e));
                },
            }
        }
        self.run_child(session, &tunnel, name, activated, command)
    }
}

} // verus!
