//! What is asked of `curl`, how often, and what is made of its answers.
use vstd::prelude::*;

use super::live::finding_live;
use super::measure::{
    curl_failure, diff_args, failed_location, launch_failure, location_of, probe_args,
    probe_summary, teardown_warning, timings_of, transient_lease,
};
use super::{failure, BackendView};
use crate::config;
use crate::config::TunnelView;
use crate::diff::{head, HeadView, LocationResultView};
use crate::dns::GuardOutcomeView;
use crate::error::ErrorView;
use crate::order;
use crate::probe;
use crate::probe::{ProbeResult, ProbeResultView, SampleView};
use crate::runner::CommandOutputView;
use crate::session::{ActionView, ReplyView, SessionView};
use crate::state;
use crate::text;

verus! {

// ---------------------------------------------------------------------------
// Commands and complaints
// ---------------------------------------------------------------------------

/// The lease of a tunnel that is up for some requests is the time that they may take
/// and a minute, or the end of time where that is beyond it.
pub proof fn law_transient_lease(max_time: u64, n: nat)
    ensures
        max_time * n + 60 <= u64::MAX ==> transient_lease(max_time, n) == max_time * n + 60,
        max_time * n + 60 > u64::MAX ==> transient_lease(max_time, n) == u64::MAX,
{
    assert(max_time * n >= 0) by (nonlinear_arith);
}

/// What is said of a `curl` that could not be launched, and of one that failed: what it
/// complained of, or else its exit code.
pub proof fn law_curl_failure(curl: Seq<char>, out: CommandOutputView, source: Seq<char>)
    ensures
        launch_failure(curl, source) == "failed to run '"@ + curl + "': "@ + source,
        text::trim(out.stderr).len() > 0 ==> curl_failure(curl, out) == text::trim(out.stderr),
        text::trim(out.stderr).len() == 0 ==> (out.code matches Some(code) ==> curl_failure(
            curl,
            out,
        ) == curl + " exited "@ + text::signed_number(code as int)),
        text::trim(out.stderr).len() == 0 && out.code is None ==> curl_failure(curl, out) == curl
            + " exited "@ + text::signed_number(-1),
{
}

/// The commands: silent but for errors, no longer than the limit, the body kept of a
/// trace and discarded otherwise, and the marker written out on a line of its own with
/// what is measured behind it.
pub proof fn law_curl_args(url: Seq<char>, timeout: Seq<char>)
    ensures
        probe_args(url, timeout) == seq![
            "-sS"@,
            "-o"@,
            if exists|a: Seq<char>, b: Seq<char>| url == #[trigger] (a + "cdn-cgi/trace"@ + b) {
                "-"@
            } else {
                "/dev/null"@
            },
            "-w"@,
            "\n"@ + "<<<VPNPROBE>>>"@
                + "%{time_namelookup},%{time_connect},%{time_appconnect},%{time_starttransfer},%{time_total},%{remote_ip},%{http_code}"@,
            "--max-time"@,
            timeout,
            url,
        ],
        diff_args(url, timeout) == seq![
            "-sS"@,
            "-m"@,
            timeout,
            "-D"@,
            "-"@,
            "-o"@,
            "/dev/null"@,
            "-w"@,
            "\n"@ + "<<<VPNPROBE>>>"@ + "%{http_code}"@,
            url,
        ],
{
    crate::text_laws::law_contains_text(url, "cdn-cgi/trace"@);
}

// ---------------------------------------------------------------------------
// Requests
// ---------------------------------------------------------------------------

/// A request is one run of `curl`, never under `sudo`; its times are read where it
/// wrote any, and it failed where it could not be launched, exited with another code
/// than 0, or wrote something else.
pub proof fn law_sampling(b: BackendView, s: SessionView, url: Seq<char>, timeout: Seq<char>)
    ensures
        ({
            let n = s.asked.len() as int;
            let run = ActionView::Run { program: b.curl, args: probe_args(url, timeout) };
            let (t, sampled) = b.sampling(s, url, timeout);
            &&& t.replies == s.replies
            &&& n < s.replies.len() ==> match s.replies[n] {
                ReplyView::Ran(Ok(out)) => if out.code != Some(0i32) {
                    &&& t.asked == s.asked.push(run)
                    &&& sampled matches Some(Err(e)) && e == curl_failure(b.curl, out)
                } else {
                    match probe::probe_times(out.stdout) {
                        Some(fields) => {
                            &&& t.asked == s.asked.push(run).push(ActionView::ParseSeconds(fields))
                            &&& n + 1 < s.replies.len() ==> (s.replies[n + 1] matches
                                ReplyView::Seconds(times) ==> match probe::probe_output(
                                out.stdout,
                                times,
                            ) {
                                Ok(sample) => sampled matches Some(Ok(one)) && one == sample,
                                Err(e) => sampled matches Some(Err(told)) && told
                                    == "unexpected curl output: "@ + e,
                            })
                        },
                        None => {
                            &&& t.asked == s.asked.push(run)
                            &&& sampled is Some
                            &&& match probe::probe_output(out.stdout, Seq::empty()) {
                                Ok(sample) => sampled matches Some(Ok(one)) && one == sample,
                                Err(e) => sampled matches Some(Err(told)) && told
                                    == "unexpected curl output: "@ + e,
                            }
                        },
                    }
                },
                ReplyView::Ran(Err(source)) => {
                    &&& t.asked == s.asked.push(run)
                    &&& sampled matches Some(Err(e)) && e == "failed to run '"@ + b.curl + "': "@
                        + source
                },
                _ => t.asked == s.asked.push(run) && sampled is None,
            }
        }),
{
}

/// Requests follow one another: so many and then some more are as many together. Every
/// one that succeeds counts, and of the failures the first is kept.
pub proof fn law_sampling_times(
    b: BackendView,
    s: SessionView,
    url: Seq<char>,
    timeout: Seq<char>,
    m: nat,
    n: nat,
    successes: Seq<SampleView>,
    first: Option<Seq<char>>,
)
    ensures
        b.sampling_times(s, url, timeout, 0, successes, first) == (s, Some((successes, first))),
        ({
            let (t, one) = b.sampling(s, url, timeout);
            b.sampling_times(s, url, timeout, 1, successes, first) == (
                t,
                match one {
                    None => None,
                    Some(Ok(sample)) => Some((successes.push(sample), first)),
                    Some(Err(e)) => Some(
                        (
                            successes,
                            if first is Some {
                                first
                            } else {
                                Some(e)
                            },
                        ),
                    ),
                },
            )
        }),
        ({
            let (t, done) = b.sampling_times(s, url, timeout, m, successes, first);
            b.sampling_times(s, url, timeout, m + n, successes, first) == match done {
                None => (t, None),
                Some((x, e)) => b.sampling_times(t, url, timeout, n, x, e),
            }
        }),
    decreases m,
{
    let (t, one) = b.sampling(s, url, timeout);
    match one {
        Some(Ok(sample)) => {
            assert(b.sampling_times(t, url, timeout, 0, successes.push(sample), first) == (
                t,
                Some((successes.push(sample), first)),
            ));
            if m > 0 {
                law_sampling_times(
                    b,
                    t,
                    url,
                    timeout,
                    (m - 1) as nat,
                    n,
                    successes.push(sample),
                    first,
                );
            }
        },
        Some(Err(e)) => {
            let kept = if first is None { Some(e) } else { first };
            assert(b.sampling_times(t, url, timeout, 0, successes, kept) == (
                t,
                Some((successes, kept)),
            ));
            if m > 0 {
                law_sampling_times(b, t, url, timeout, (m - 1) as nat, n, successes, kept);
            }
        },
        None => {},
    }
    if m > 0 {
        assert((m + n - 1) as nat == (m - 1) as nat + n);
    }
}

/// The successes and the failures of a probe are its requests, all of them; it is a
/// success where one of them is; what is reported of it beside the statistics is that
/// of the request with the median time, and of the failures the first.
pub proof fn law_probe_summary(
    base: ProbeResultView,
    count: u32,
    successes: Seq<SampleView>,
    first: Option<Seq<char>>,
)
    requires
        successes.len() <= count,
        base == ProbeResultView::new(base.name, base.url, base.activated) || (base
            == ProbeResultView {
            interface: base.interface,
            ..ProbeResultView::new(base.name, base.url, base.activated)
        }),
    ensures
        ({
            let r = probe_summary(base, count, successes, first);
            &&& r.name == base.name && r.url == base.url && r.activated == base.activated
            &&& r.interface == base.interface && r.warning is None
            &&& r.samples == count
            &&& r.failures + successes.len() == count
            &&& r.error == if successes.len() < count {
                first
            } else {
                None
            }
            &&& r.ok <==> successes.len() > 0
            &&& successes.len() == 0 ==> r.stats is None && r.timings is None && r.http_code is None
                && r.remote_ip is None && r.exit is None
            &&& successes.len() > 0 ==> {
                &&& probe::stats(timings_of(successes)) matches Some((st, m))
                &&& r.stats == Some(st)
                &&& r.timings == Some(successes[m as int].timings)
                &&& r.remote_ip == successes[m as int].remote_ip
                &&& r.http_code == successes[m as int].http_code
                &&& r.exit == successes[m as int].trace
            }
        }),
{
    crate::probe_laws::law_statistics(timings_of(successes));
}

/// A probe that was not yet made: nothing measured, and not a success.
pub proof fn law_new_probe(name: Seq<char>, url: Seq<char>, activated: bool)
    ensures
        ({
            let r = ProbeResultView::new(name, url, activated);
            &&& r.name == name && r.url == url && r.activated == activated
            &&& !r.ok && r.samples == 0 && r.failures == 0
            &&& r.stats is None && r.interface is None && r.http_code is None && r.remote_ip is None
            &&& r.exit is None && r.timings is None && r.error is None && r.warning is None
        }),
{
}

/// What a tear-down leaves to say: that the tunnel could not be restored, or what the
/// guard did.
pub proof fn law_teardown_warning(changed: bool, guard: GuardOutcomeView, e: ErrorView)
    ensures
        teardown_warning(Ok((changed, guard))) == guard.note(),
        teardown_warning(Err(e)) == Some("failed to restore tunnel state: "@ + e.message()),
{
}

/// The interface of a tunnel is that of its live peer; there is none to name where
/// there is no live peer, or where the peers cannot be read.
pub proof fn law_naming_interface(b: BackendView, s: SessionView, tunnel: TunnelView)
    ensures
        ({
            let (t, dumped) = b.dumping(s);
            let (u, named) = b.naming_interface(s, tunnel);
            match dumped {
                None => u == t && named is None,
                Some(Err(_)) => u == t && (named matches Some(none) && none is None),
                Some(Ok(dump)) => {
                    let (v, live) = finding_live(t, tunnel, dump);
                    &&& u == v
                    &&& live matches Some(Ok(Some(row))) ==> named == Some(Some(row.interface))
                    &&& live matches Some(Ok(none)) ==> (none is None ==> named == Some(
                        None::<Seq<char>>,
                    ))
                    &&& live matches Some(Err(_)) ==> named == Some(None::<Seq<char>>)
                },
            }
        }),
{
}

/// A tunnel is brought up for a probe whether or not its journal could be written; that
/// `wg-quick` failed is told in the result; and once it is up its lease is recorded,
/// which covers all the requests.
pub proof fn law_activating_probe(
    b: BackendView,
    s: SessionView,
    tunnel: TunnelView,
    max_time: u64,
    count: u32,
)
    ensures
        ({
            let (s1, pending) = b.recording_pending(s, tunnel);
            let (s2, ran) = b.running(s1, b.wg_quick, seq!["up"@, tunnel.path]);
            let (t, done) = b.activating_probe(s, tunnel, max_time, count);
            match pending {
                None => t == s1 && done is None,
                Some(recorded) => match ran {
                    None => t == s2 && done is None,
                    Some(Err(e)) => t == s2 && (done matches Some(Err(told)) && told == e),
                    Some(Ok(out)) => if out.code != Some(0i32) {
                        t == s2 && (done matches Some(Ok(Some(e))) && e == failure(
                            b.wg_quick,
                            out,
                        ))
                    } else {
                        let (s3, journal) = b.recording_active(
                            s2,
                            tunnel,
                            None,
                            Some(transient_lease(max_time, count as nat)),
                            match recorded {
                                Ok(snapshot) => snapshot,
                                Err(_) => Seq::empty(),
                            },
                        );
                        match journal {
                            None => done is None,
                            Some(j) => t == state::writing(s3, b.config_dir, j).0 && (done is Some
                                <==> state::writing(s3, b.config_dir, j).1 is Some) && (
                            done matches Some(r) ==> (r matches Ok(none) && none is None)),
                        }
                    },
                },
            }
        }),
{
}

/// Measuring sends as many requests as asked for, and one where none is asked for,
/// each with the limit; a tunnel that was brought up for it is taken down behind them,
/// and what that leaves to say is the warning.
pub proof fn law_measuring(
    b: BackendView,
    s: SessionView,
    tunnel: TunnelView,
    base: ProbeResultView,
    max_time: u64,
    count: u32,
)
    ensures
        ({
            let (s1, named) = b.naming_interface(s, tunnel);
            let n: u32 = if count == 0 {
                1
            } else {
                count
            };
            let (s2, sampled) = b.sampling_times(
                s1,
                base.url,
                text::number(max_time as nat),
                n as nat,
                Seq::empty(),
                None,
            );
            let (t, done) = b.measuring(s, tunnel, base, max_time, count);
            match (named, sampled) {
                (Some(interface), Some((successes, first))) => {
                    let r = probe_summary(
                        ProbeResultView { interface, ..base },
                        n,
                        successes,
                        first,
                    );
                    let (s3, torn) = b.tearing_down(s2, tunnel, true);
                    &&& !base.activated ==> t == s2 && (done matches Some(Ok(got)) && got == r)
                    &&& base.activated ==> t == s3 && match torn {
                        None => done is None,
                        Some(x) => done matches Some(Ok(got)) && got == (ProbeResultView {
                            warning: teardown_warning(x),
                            ..r
                        }),
                    }
                },
                _ => done is None,
            }
        }),
{
}

/// A tunnel that is up is measured as it is; one that is not is brought up first, and
/// where that failed the failure is the result.
pub proof fn law_probing_one(
    b: BackendView,
    s: SessionView,
    tunnel: TunnelView,
    url: Seq<char>,
    max_time: u64,
    count: u32,
)
    ensures
        ({
            let (s1, dumped) = b.dumping(s);
            let (t, done) = b.probing_one(s, tunnel, url, max_time, count);
            match dumped {
                None => done is None,
                Some(Err(e)) => t == s1 && (done matches Some(Err(told)) && told == e),
                Some(Ok(dump)) => {
                    let (s2, live) = finding_live(s1, tunnel, dump);
                    match live {
                        None => done is None,
                        Some(Err(e)) => t == s2 && (done matches Some(Err(told)) && told == e),
                        Some(Ok(Some(_))) => b.probing_one(s, tunnel, url, max_time, count)
                            == b.measuring(
                            s2,
                            tunnel,
                            ProbeResultView::new(tunnel.name, url, false),
                            max_time,
                            count,
                        ),
                        Some(Ok(None)) => {
                            let base = ProbeResultView::new(tunnel.name, url, true);
                            let (s3, activated) = b.activating_probe(s2, tunnel, max_time, count);
                            match activated {
                                None => done is None,
                                Some(Err(e)) => t == s3 && (done matches Some(Err(told)) && told
                                    == e),
                                Some(Ok(Some(e))) => t == s3 && (done matches Some(Ok(r)) && r == (
                                ProbeResultView { error: Some(e.message()), ..base })),
                                Some(Ok(None)) => b.probing_one(s, tunnel, url, max_time, count)
                                    == b.measuring(s3, tunnel, base, max_time, count),
                            }
                        },
                    }
                },
            }
        }),
{
}

/// `probe` and `diff` reconcile, select the tunnels, and work through them.
pub proof fn law_probe_and_diff(
    b: BackendView,
    s: SessionView,
    name: Option<Seq<char>>,
    url: Seq<char>,
    max_time: u64,
    count: u32,
)
    ensures
        ({
            let (s1, reconciled) = b.reconciling(s);
            let (s2, selected) = b.selecting(s1, name);
            match (reconciled, selected) {
                (Some(Ok(_)), Some(Ok(tunnels))) => {
                    &&& b.probing(s, name, url, max_time, count) == b.probing_from(
                        s2,
                        tunnels,
                        url,
                        max_time,
                        count,
                        0,
                        Seq::empty(),
                    )
                    &&& b.diffing(s, name, url, max_time) == b.diffing_from(
                        s2,
                        tunnels,
                        url,
                        max_time,
                        0,
                        Seq::empty(),
                    )
                },
                (Some(Ok(_)), Some(Err(e))) => {
                    &&& b.probing(s, name, url, max_time, count).0 == s2
                    &&& b.probing(s, name, url, max_time, count).1 matches Some(Err(told)) && told
                        == e
                    &&& b.diffing(s, name, url, max_time).0 == s2
                    &&& b.diffing(s, name, url, max_time).1 matches Some(Err(other)) && other == e
                },
                (Some(Err(e)), _) => {
                    &&& b.probing(s, name, url, max_time, count).0 == s1
                    &&& b.probing(s, name, url, max_time, count).1 matches Some(Err(told)) && told
                        == e
                    &&& b.diffing(s, name, url, max_time).0 == s1
                    &&& b.diffing(s, name, url, max_time).1 matches Some(Err(other)) && other == e
                },
                _ => b.probing(s, name, url, max_time, count).1 is None && b.diffing(
                    s,
                    name,
                    url,
                    max_time,
                ).1 is None,
            }
        }),
{
}

// ---------------------------------------------------------------------------
// Every tunnel once
// ---------------------------------------------------------------------------

/// One name selects that tunnel alone, no name all of them.
pub proof fn law_selecting(b: BackendView, s: SessionView, name: Seq<char>)
    ensures
        b.selecting(s, None) == config::discovering(s, b.config_dir),
        b.selecting(s, Some(name)).0 == config::resolving(s, b.config_dir, name).0,
        match config::resolving(s, b.config_dir, name).1 {
            Some(Ok(tunnel)) => b.selecting(s, Some(name)).1 matches Some(Ok(all)) && all == seq![
                tunnel,
            ],
            Some(Err(e)) => b.selecting(s, Some(name)).1 matches Some(Err(told)) && told == e,
            None => b.selecting(s, Some(name)).1 is None,
        },
{
}

/// A probe is of the tunnel, and activated it exactly if it was not up.
pub proof fn law_probe_of_tunnel(
    b: BackendView,
    s: SessionView,
    tunnel: TunnelView,
    url: Seq<char>,
    max_time: u64,
    count: u32,
)
    ensures
        b.probing_one(s, tunnel, url, max_time, count).1 matches Some(Ok(r)) ==> {
            &&& r.name == tunnel.name && r.url == url
            &&& b.dumping(s).1 matches Some(Ok(dump))
            &&& finding_live(b.dumping(s).0, tunnel, dump).1 matches Some(Ok(row))
            &&& r.activated == row is None
            &&& r.ok ==> r.samples == (if count == 0 {
                1
            } else {
                count
            })
        },
{
    let (s1, dumped) = b.dumping(s);
    if let Some(Ok(dump)) = dumped {
        let (s2, live) = finding_live(s1, tunnel, dump);
        if let Some(Ok(row)) = live {
            let base = ProbeResultView::new(tunnel.name, url, row is None);
            if row is Some {
                lemma_measured(b, s2, tunnel, base, max_time, count);
            } else {
                let (s3, activated) = b.activating_probe(s2, tunnel, max_time, count);
                lemma_measured(b, s3, tunnel, base, max_time, count);
            }
        }
    }
}

/// What measuring leaves of the probe.
proof fn lemma_measured(
    b: BackendView,
    s: SessionView,
    tunnel: TunnelView,
    base: ProbeResultView,
    max_time: u64,
    count: u32,
)
    ensures
        b.measuring(s, tunnel, base, max_time, count).1 matches Some(Ok(r)) ==> r.name == base.name
            && r.url == base.url && r.activated == base.activated && r.samples == (if count == 0 {
            1
        } else {
            count
        }),
{
}

/// Every tunnel is compared, one after the other: each has one result, under its name.
pub proof fn law_diff_every_tunnel(
    b: BackendView,
    s: SessionView,
    tunnels: Seq<TunnelView>,
    url: Seq<char>,
    max_time: u64,
    i: int,
    results: Seq<LocationResultView>,
)
    requires
        0 <= i <= tunnels.len(),
        results.len() == i,
        forall|k: int| 0 <= k < i ==> (#[trigger] results[k]).name == tunnels[k].name,
    ensures
        b.diffing_from(s, tunnels, url, max_time, i, results).1 matches Some(Ok(all)) ==> {
            &&& all.len() == tunnels.len()
            &&& forall|k: int| 0 <= k < all.len() ==> (#[trigger] all[k]).name == tunnels[k].name
            &&& all.take(i) == results
        },
        i < tunnels.len() ==> ({
            let (t, one) = b.diffing_one(s, tunnels[i], url, max_time);
            match one {
                Some(Ok(r)) => b.diffing_from(s, tunnels, url, max_time, i, results)
                    == b.diffing_from(t, tunnels, url, max_time, i + 1, results.push(r)),
                Some(Err(e)) => b.diffing_from(s, tunnels, url, max_time, i, results).0 == t && (
                b.diffing_from(s, tunnels, url, max_time, i, results).1 matches Some(Err(told))
                    && told == e),
                None => b.diffing_from(s, tunnels, url, max_time, i, results).1 is None,
            }
        }),
    decreases tunnels.len() - i,
{
    if i < tunnels.len() {
        let (t, one) = b.diffing_one(s, tunnels[i], url, max_time);
        if let Some(Ok(r)) = one {
            lemma_diff_of_tunnel(b, s, tunnels[i], url, max_time);
            let next = results.push(r);
            law_diff_every_tunnel(b, t, tunnels, url, max_time, i + 1, next);
            if let Some(Ok(all)) = b.diffing_from(s, tunnels, url, max_time, i, results).1 {
                assert(all.take(i) =~= all.take(i + 1).take(i));
                assert(next.take(i) =~= results);
            }
        }
    } else {
        assert(results.take(i) =~= results);
    }
}

/// A result is of the tunnel.
proof fn lemma_diff_of_tunnel(
    b: BackendView,
    s: SessionView,
    tunnel: TunnelView,
    url: Seq<char>,
    max_time: u64,
)
    ensures
        b.diffing_one(s, tunnel, url, max_time).1 matches Some(Ok(r)) ==> r.name == tunnel.name,
{
}

/// Every tunnel is probed, one after the other, and the results are the results of all
/// of them, none lost and none added.
pub proof fn law_probe_every_tunnel(
    b: BackendView,
    s: SessionView,
    tunnels: Seq<TunnelView>,
    url: Seq<char>,
    max_time: u64,
    count: u32,
    i: int,
    results: Seq<ProbeResultView>,
)
    requires
        0 <= i <= tunnels.len(),
        results.len() == i,
        forall|k: int| 0 <= k < i ==> (#[trigger] results[k]).name == tunnels[k].name,
    ensures
        b.probing_from(s, tunnels, url, max_time, count, i, results).1 matches Some(Ok(sorted))
            ==> exists|all: Seq<ProbeResultView>|
            {
                &&& all.len() == tunnels.len()
                &&& forall|k: int| 0 <= k < all.len() ==> (#[trigger] all[k]).name == tunnels[k].name
                &&& sorted.to_multiset() == #[trigger] all.to_multiset()
            },
        i < tunnels.len() ==> ({
            let (t, one) = b.probing_one(s, tunnels[i], url, max_time, count);
            let from_here = b.probing_from(s, tunnels, url, max_time, count, i, results);
            match one {
                Some(Ok(r)) => from_here == b.probing_from(
                    t,
                    tunnels,
                    url,
                    max_time,
                    count,
                    i + 1,
                    results.push(r),
                ),
                Some(Err(e)) => from_here.0 == t && (from_here.1 matches Some(Err(told)) && told
                    == e),
                None => from_here.1 is None,
            }
        }),
    decreases tunnels.len() - i,
{
    if i < tunnels.len() {
        let (t, one) = b.probing_one(s, tunnels[i], url, max_time, count);
        if let Some(Ok(r)) = one {
            law_probe_of_tunnel(b, s, tunnels[i], url, max_time, count);
            law_probe_every_tunnel(b, t, tunnels, url, max_time, count, i + 1, results.push(r));
        }
    } else {
        order::lemma_sorted::<ProbeResult>(results);
    }
}

// ---------------------------------------------------------------------------
// Heads
// ---------------------------------------------------------------------------

/// A head is fetched with one run of `curl`, never under `sudo`.
pub proof fn law_fetching(b: BackendView, s: SessionView, url: Seq<char>, timeout: Seq<char>)
    ensures
        ({
            let n = s.asked.len() as int;
            let (t, fetched) = b.fetching(s, url, timeout);
            &&& t.replies == s.replies
            &&& t.asked == s.asked.push(
                ActionView::Run { program: b.curl, args: diff_args(url, timeout) },
            )
            &&& n < s.replies.len() ==> match s.replies[n] {
                ReplyView::Ran(Ok(out)) => if out.code == Some(0i32) {
                    fetched matches Some(Ok(got)) && got == head(out.stdout)
                } else {
                    fetched matches Some(Err(e)) && e == curl_failure(b.curl, out)
                },
                ReplyView::Ran(Err(source)) => fetched matches Some(Err(e)) && e
                    == "failed to run '"@ + b.curl + "': "@ + source,
                _ => fetched is None,
            }
        }),
{
}

/// A fetch is tried again, after the delay of each attempt but the first, until one
/// succeeds or there are no more; what came of the last attempt is the result.
pub proof fn law_fetching_from(
    b: BackendView,
    s: SessionView,
    url: Seq<char>,
    timeout: Seq<char>,
    delays: Seq<u64>,
    i: int,
    last: Result<HeadView, Seq<char>>,
)
    requires
        0 <= i <= delays.len(),
    ensures
        ({
            let from_here = b.fetching_from(s, url, timeout, delays, i, last);
            &&& i == delays.len() || last is Ok ==> from_here == (s, Some(last))
            &&& i < delays.len() && last is Err && (i == 0 || delays[i] == 0) ==> ({
                let (t, fetched) = b.fetching(s, url, timeout);
                match fetched {
                    None => from_here.1 is None,
                    Some(f) => from_here == b.fetching_from(t, url, timeout, delays, i + 1, f),
                }
            })
            &&& 0 < i < delays.len() && last is Err && delays[i] > 0 && s.asked.len()
                < s.replies.len() && s.replies[s.asked.len() as int] == ReplyView::Slept ==> ({
                let waited = SessionView {
                    asked: s.asked.push(ActionView::Sleep(delays[i])),
                    ..s
                };
                let (t, fetched) = b.fetching(waited, url, timeout);
                match fetched {
                    None => from_here.1 is None,
                    Some(f) => from_here == b.fetching_from(t, url, timeout, delays, i + 1, f),
                }
            })
        }),
{
}

/// A location has the status and the headers of what was fetched, or the failure.
pub proof fn law_location(name: Seq<char>, got: HeadView, message: Seq<char>)
    ensures
        ({
            let r = location_of(name, Ok(got));
            r.name == name && r.ok && r.status == got.status && r.headers == got.headers
                && r.exit_ip is None && r.error is None
        }),
        ({
            let r = location_of(name, Err(message));
            r.name == name && !r.ok && r.status is None && r.headers.len() == 0 && r.exit_ip is None
                && r.error == Some(message)
        }),
        failed_location(name, message) == location_of(name, Err(message)),
{
}

/// Through a tunnel that is up the head is fetched once, and that is all.
pub proof fn law_diff_through_live_tunnel(
    b: BackendView,
    s: SessionView,
    tunnel: TunnelView,
    url: Seq<char>,
    max_time: u64,
)
    requires
        b.dumping(s).1 matches Some(Ok(dump)) && (finding_live(
            b.dumping(s).0,
            tunnel,
            dump,
        ).1 matches Some(Ok(Some(_)))),
    ensures
        ({
            let dump = b.dumping(s).1->0->Ok_0;
            let t = finding_live(b.dumping(s).0, tunnel, dump).0;
            let (u, fetched) = b.fetching(t, url, text::number(max_time as nat));
            let (v, done) = b.diffing_one(s, tunnel, url, max_time);
            &&& v == u
            &&& fetched matches Some(f) ==> (done matches Some(Ok(r)) && r == location_of(
                tunnel.name,
                f,
            ))
        }),
{
    let dump = b.dumping(s).1->0->Ok_0;
    let t = finding_live(b.dumping(s).0, tunnel, dump).0;
    let timeout = text::number(max_time as nat);
    let none: Result<HeadView, Seq<char>> = Err("no attempt made"@);
    law_fetching_from(b, t, url, timeout, seq![0u64], 0, none);
    let (u, fetched) = b.fetching(t, url, timeout);
    if let Some(f) = fetched {
        law_fetching_from(b, u, url, timeout, seq![0u64], 1, f);
    }
}

/// Through a tunnel that is brought up for it the head is fetched with retries, and the
/// tunnel is taken down again whatever came of it; where it could not be brought up the
/// location failed.
pub proof fn law_diff_through_transient_tunnel(
    b: BackendView,
    s: SessionView,
    tunnel: TunnelView,
    url: Seq<char>,
    max_time: u64,
)
    ensures
        ({
            let (s1, started) = b.starting(s, tunnel);
            let (t, done) = b.diffing_transient(s, tunnel, url, max_time);
            match started {
                None => done is None,
                Some(Err(e)) => t == s1 && (done matches Some(Ok(r)) && r == location_of(
                    tunnel.name,
                    Err(e.message()),
                )),
                Some(Ok(snapshot)) => {
                    let (s2, confirmed) = b.confirming(
                        s1,
                        tunnel,
                        Some(transient_lease(max_time, b.diff_retries.len())),
                        snapshot,
                    );
                    match confirmed {
                        None => done is None,
                        Some(Err(e)) => {
                            &&& t == b.tearing_down(s2, tunnel, true).0
                            &&& done matches Some(r) ==> (r matches Ok(x) && x == location_of(
                                tunnel.name,
                                Err(e.message()),
                            ))
                        },
                        Some(Ok(_)) => {
                            let (s3, fetched) = b.fetching_from(
                                s2,
                                url,
                                text::number(max_time as nat),
                                b.diff_retries,
                                0,
                                Err("no attempt made"@),
                            );
                            match fetched {
                                None => done is None,
                                Some(f) => {
                                    &&& t == b.tearing_down(s3, tunnel, true).0
                                    &&& done is Some <==> b.tearing_down(s3, tunnel, true).1 is Some
                                    &&& done matches Some(r) ==> (r matches Ok(x) && x
                                        == location_of(tunnel.name, f))
                                },
                            }
                        },
                    }
                },
            }
        }),
{
}

/// A tunnel that is not up is brought up for a comparison, and errors of looking are
/// errors of it.
pub proof fn law_diffing_one(
    b: BackendView,
    s: SessionView,
    tunnel: TunnelView,
    url: Seq<char>,
    max_time: u64,
)
    ensures
        ({
            let (s1, dumped) = b.dumping(s);
            let (t, done) = b.diffing_one(s, tunnel, url, max_time);
            match dumped {
                None => done is None,
                Some(Err(e)) => t == s1 && (done matches Some(Err(told)) && told == e),
                Some(Ok(dump)) => {
                    let (s2, live) = finding_live(s1, tunnel, dump);
                    match live {
                        None => done is None,
                        Some(Err(e)) => t == s2 && (done matches Some(Err(told)) && told == e),
                        Some(Ok(row)) => row is None ==> b.diffing_one(s, tunnel, url, max_time)
                            == b.diffing_transient(s2, tunnel, url, max_time),
                    }
                },
            }
        }),
{
}

// ---------------------------------------------------------------------------
// Commands through a tunnel
// ---------------------------------------------------------------------------

/// The exit code of `exec` is that of the command, and 1 where it was killed; a command
/// that cannot be launched is an error.
pub proof fn law_exec_exit_code(
    b: BackendView,
    s: SessionView,
    tunnel: TunnelView,
    name: Seq<char>,
    activated: bool,
    command: Seq<Seq<char>>,
)
    requires
        command.len() > 0,
        s.asked.len() < s.replies.len(),
    ensures
        ({
            let done = b.running_child(s, tunnel, name, activated, command).1;
            match s.replies[s.asked.len() as int] {
                ReplyView::Exited(Ok(code)) => done matches Some(r) ==> (r matches Ok(out)
                    && out.name == name && out.activated == activated && out.exit_code
                    == match code {
                    Some(c) => c,
                    None => 1i32,
                } && (!activated ==> out.warning is None)),
                ReplyView::Exited(Err(source)) => done matches Some(r) ==> (r matches Err(e) && e
                    == (ErrorView::Spawn { program: command[0], source })),
                _ => done is None,
            }
        }),
{
}

/// A tunnel is brought up for a command where its journal could be written, and is
/// recorded as up without a lease.
pub proof fn law_activating_exec(b: BackendView, s: SessionView, tunnel: TunnelView)
    ensures
        ({
            let (s1, pending) = b.recording_pending(s, tunnel);
            let (t, done) = b.activating_exec(s, tunnel);
            match pending {
                None => done is None,
                Some(Err(e)) => t == s1 && (done matches Some(Err(told)) && told == e),
                Some(Ok(snapshot)) => {
                    let (s2, upped) = b.quick(s1, "up"@, tunnel.path);
                    match upped {
                        None => done is None,
                        Some(Err(e)) => t == s2 && (done matches Some(Err(told)) && told == e),
                        Some(Ok(_)) => {
                            let (s3, journal) = b.recording_active(s2, tunnel, None, None, snapshot);
                            match journal {
                                None => done is None,
                                Some(j) => t == state::writing(s3, b.config_dir, j).0 && (
                                done is Some <==> state::writing(s3, b.config_dir, j).1 is Some) && (
                                done matches Some(r) ==> r is Ok),
                            }
                        },
                    }
                },
            }
        }),
{
}

/// A command runs through the tunnel as it is where that is up, and through a tunnel
/// that is brought up for it otherwise; where that fails it does not run.
pub proof fn law_executing(
    b: BackendView,
    s: SessionView,
    name: Seq<char>,
    command: Seq<Seq<char>>,
)
    ensures
        ({
            let (s1, found) = b.approaching(s, name);
            let (t, done) = b.executing(s, name, command);
            match found {
                None => done is None,
                Some(Err(e)) => t == s1 && (done matches Some(Err(told)) && told == e),
                Some(Ok((tunnel, _, Some(_)))) => b.executing(s, name, command) == b.running_child(
                    s1,
                    tunnel,
                    name,
                    false,
                    command,
                ),
                Some(Ok((tunnel, _, None))) => {
                    let (s2, activated) = b.activating_exec(s1, tunnel);
                    match activated {
                        None => done is None,
                        Some(Err(e)) => t == s2 && (done matches Some(Err(told)) && told == e),
                        Some(Ok(_)) => b.executing(s, name, command) == b.running_child(
                            s2,
                            tunnel,
                            name,
                            true,
                            command,
                        ),
                    }
                },
            }
        }),
{
}

/// The child is run as it was given, and behind it the tunnel is taken down where it
/// was brought up for it; what that leaves to say is the warning.
pub proof fn law_running_child(
    b: BackendView,
    s: SessionView,
    tunnel: TunnelView,
    name: Seq<char>,
    activated: bool,
    command: Seq<Seq<char>>,
    code: Option<i32>,
)
    requires
        command.len() > 0,
        s.asked.len() < s.replies.len(),
        s.replies[s.asked.len() as int] == ReplyView::Exited(Ok(code)),
    ensures
        ({
            let run = SessionView {
                asked: s.asked.push(
                    ActionView::RunPassthrough {
                        program: command[0],
                        args: command.subrange(1, command.len() as int),
                    },
                ),
                ..s
            };
            let (torn_state, torn) = b.tearing_down(run, tunnel, true);
            let (t, done) = b.running_child(s, tunnel, name, activated, command);
            &&& !activated ==> t == run && done is Some
            &&& activated ==> t == torn_state && (done is Some <==> torn is Some)
            &&& activated ==> (torn matches Some(x) ==> (done matches Some(Ok(out)) && out.warning
                == teardown_warning(x)))
        }),
{
    assert(command.skip(1) =~= command.subrange(1, command.len() as int));
}

} // verus!
