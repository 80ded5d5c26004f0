//! What measuring, config and diagnostic operations ask for; see [`crate::trace`].
use vstd::prelude::*;

use super::configs::{OWNER_ONLY, add_refusal, default_name, linting_from, writing_private};
use super::doctor::{checked, checking_tunnel, checking_tunnels_from, checking_version};
use super::live::finding_live;
use super::measure::{diff_args, probe_args, transient_lease};
use super::split::{allowed_line, rewritten, routed, split_holes, split_name};
use super::trace::{
    lemma_approaching, lemma_collecting_dns, lemma_confirming, lemma_dumping, lemma_finding_live,
    lemma_naming_active, lemma_quick, lemma_reconciling, lemma_recording_active,
    lemma_recording_pending, lemma_running, lemma_starting, lemma_tearing_down,
};
use super::{CheckView, full_command};
use crate::cidr::Cidr4;
use crate::config::TunnelView;
use crate::diff::{HeadView, LocationResultView};
use crate::lint::LintResultView;
use crate::probe::{ProbeResultView, SampleView};
use crate::session::{ActionView, SessionView};
use crate::trace::{
    Rule, later, lemma_bind, lemma_change, lemma_discovering, lemma_exists_path, lemma_file_mode,
    lemma_finding_stale, lemma_finished, lemma_parse_seconds, lemma_reading_conf, lemma_resolving,
    lemma_resumed, lemma_run, lemma_run_passthrough, lemma_sleep, lemma_summarizing, lemma_writing,
    resumed, steady,
};
use crate::config;
use crate::dns;
use crate::lint;
use crate::probe;
use crate::state;
use crate::text;

verus! {

// ---------------------------------------------------------------------------
// Probe
// ---------------------------------------------------------------------------

/// Sending one timed request.
pub proof fn lemma_sampling(
    r: Rule,
    s: SessionView,
    t: SessionView,
    url: Seq<char>,
    timeout: Seq<char>,
)
    requires
        later(s, t),
        !r.reading,
        r.running,
    ensures
        steady(r, s, t, r.b.sampling(s, url, timeout), r.b.sampling(t, url, timeout)),
{
    let fx = r.b.sampling(s, url, timeout);
    let fy = r.b.sampling(t, url, timeout);
    lemma_run(r, s, t, r.b.curl, probe_args(url, timeout));
    let x1 = s.run(r.b.curl, probe_args(url, timeout));
    let y1 = t.run(r.b.curl, probe_args(url, timeout));
    let s1 = resumed(x1, y1);
    lemma_resumed(r, s, t, x1, y1);
    let f1 = if x1.1 is Some {
        fx
    } else {
        fy
    };
    match y1.1 {
        Some(Ok(out)) => {
            if out.success() {
                match probe::probe_times(out.stdout) {
                    Some(fields) => {
                        lemma_parse_seconds(r, s1, y1.0, fields);
                        let x2 = s1.parse_seconds(fields);
                        let y2 = y1.0.parse_seconds(fields);
                        lemma_bind(r, s1, y1.0, x2, y2, f1, fy);
                    },
                    None => {},
                }
            }
        },
        _ => {},
    }
    lemma_bind(r, s, t, x1, y1, fx, fy);
    lemma_finished(r, s, t, fx, fy);
}

/// Sending timed requests.
pub proof fn lemma_sampling_times(
    r: Rule,
    s: SessionView,
    t: SessionView,
    url: Seq<char>,
    timeout: Seq<char>,
    n: nat,
    successes: Seq<SampleView>,
    first_error: Option<Seq<char>>,
)
    requires
        later(s, t),
        !r.reading,
        r.running,
    ensures
        steady(
            r,
            s,
            t,
            r.b.sampling_times(s, url, timeout, n, successes, first_error),
            r.b.sampling_times(t, url, timeout, n, successes, first_error),
        ),
    decreases n,
{
    let fx = r.b.sampling_times(s, url, timeout, n, successes, first_error);
    let fy = r.b.sampling_times(t, url, timeout, n, successes, first_error);
    if n > 0 {
        lemma_sampling(r, s, t, url, timeout);
        let x1 = r.b.sampling(s, url, timeout);
        let y1 = r.b.sampling(t, url, timeout);
        let s1 = resumed(x1, y1);
        lemma_resumed(r, s, t, x1, y1);
        let f1 = if x1.1 is Some {
            fx
        } else {
            fy
        };
        match y1.1 {
            Some(sampled) => {
                let left = (n - 1) as nat;
                match sampled {
                    Ok(sample) => {
                        let next = successes.push(sample);
                        lemma_sampling_times(r, s1, y1.0, url, timeout, left, next, first_error);
                        let x2 = r.b.sampling_times(s1, url, timeout, left, next, first_error);
                        let y2 = r.b.sampling_times(y1.0, url, timeout, left, next, first_error);
                        lemma_bind(r, s1, y1.0, x2, y2, f1, fy);
                    },
                    Err(message) => {
                        let next = if first_error is None {
                            Some(message)
                        } else {
                            first_error
                        };
                        lemma_sampling_times(r, s1, y1.0, url, timeout, left, successes, next);
                        let x2 = r.b.sampling_times(s1, url, timeout, left, successes, next);
                        let y2 = r.b.sampling_times(y1.0, url, timeout, left, successes, next);
                        lemma_bind(r, s1, y1.0, x2, y2, f1, fy);
                    },
                }
            },
            None => {},
        }
        lemma_bind(r, s, t, x1, y1, fx, fy);
    }
    lemma_finished(r, s, t, fx, fy);
}

/// Bringing a tunnel up for a probe.
pub proof fn lemma_activating_probe(
    r: Rule,
    s: SessionView,
    t: SessionView,
    tunnel: TunnelView,
    max_time: u64,
    count: u32,
)
    requires
        later(s, t),
        !r.reading,
        r.running,
        r.tunnels,
    ensures
        steady(
            r,
            s,
            t,
            r.b.activating_probe(s, tunnel, max_time, count),
            r.b.activating_probe(t, tunnel, max_time, count),
        ),
{
    let fx = r.b.activating_probe(s, tunnel, max_time, count);
    let fy = r.b.activating_probe(t, tunnel, max_time, count);
    lemma_recording_pending(r, s, t, tunnel);
    let x1 = r.b.recording_pending(s, tunnel);
    let y1 = r.b.recording_pending(t, tunnel);
    let s1 = resumed(x1, y1);
    lemma_resumed(r, s, t, x1, y1);
    let f1 = if x1.1 is Some {
        fx
    } else {
        fy
    };
    match y1.1 {
        Some(recorded) => {
            let snapshot = match recorded {
                Ok(taken) => taken,
                Err(_) => Seq::empty(),
            };
            let args = seq!["up"@, tunnel.path];
            let (_, full_args) = full_command(r.b.sudo, r.b.wg_quick, args);
            assert(full_args.skip(full_args.len() - 2) =~= args);
            let lease = Some(transient_lease(max_time, count as nat));
            lemma_running(r, s1, y1.0, r.b.wg_quick, args);
            let x2 = r.b.running(s1, r.b.wg_quick, args);
            let y2 = r.b.running(y1.0, r.b.wg_quick, args);
            let s2 = resumed(x2, y2);
            lemma_resumed(r, s1, y1.0, x2, y2);
            let f2 = if x2.1 is Some {
                f1
            } else {
                fy
            };
            match y2.1 {
                Some(Ok(out)) => {
                    if out.success() {
                        lemma_recording_active(r, s2, y2.0, tunnel, None, lease, snapshot);
                        let x3 = r.b.recording_active(s2, tunnel, None, lease, snapshot);
                        let y3 = r.b.recording_active(y2.0, tunnel, None, lease, snapshot);
                        let s3 = resumed(x3, y3);
                        lemma_resumed(r, s2, y2.0, x3, y3);
                        let f3 = if x3.1 is Some {
                            f2
                        } else {
                            fy
                        };
                        match y3.1 {
                            Some(j) => {
                                lemma_writing(r, s3, y3.0, r.b.config_dir, j);
                                let x4 = state::writing(s3, r.b.config_dir, j);
                                let y4 = state::writing(y3.0, r.b.config_dir, j);
                                lemma_bind(r, s3, y3.0, x4, y4, f3, fy);
                            },
                            None => {},
                        }
                        lemma_bind(r, s2, y2.0, x3, y3, f2, fy);
                    }
                },
                _ => {},
            }
            lemma_bind(r, s1, y1.0, x2, y2, f1, fy);
        },
        None => {},
    }
    lemma_bind(r, s, t, x1, y1, fx, fy);
    lemma_finished(r, s, t, fx, fy);
}

/// Finding the interface of a tunnel.
pub proof fn lemma_naming_interface(r: Rule, s: SessionView, t: SessionView, tunnel: TunnelView)
    requires
        later(s, t),
        r.running,
    ensures
        steady(r, s, t, r.b.naming_interface(s, tunnel), r.b.naming_interface(t, tunnel)),
{
    let fx = r.b.naming_interface(s, tunnel);
    let fy = r.b.naming_interface(t, tunnel);
    lemma_dumping(r, s, t);
    let x1 = r.b.dumping(s);
    let y1 = r.b.dumping(t);
    let s1 = resumed(x1, y1);
    lemma_resumed(r, s, t, x1, y1);
    let f1 = if x1.1 is Some {
        fx
    } else {
        fy
    };
    match y1.1 {
        Some(Ok(dump)) => {
            lemma_finding_live(r, s1, y1.0, tunnel, dump);
            let x2 = finding_live(s1, tunnel, dump);
            let y2 = finding_live(y1.0, tunnel, dump);
            lemma_bind(r, s1, y1.0, x2, y2, f1, fy);
        },
        _ => {},
    }
    lemma_bind(r, s, t, x1, y1, fx, fy);
    lemma_finished(r, s, t, fx, fy);
}

/// Measuring through a tunnel, and restoring it.
pub proof fn lemma_measuring(
    r: Rule,
    s: SessionView,
    t: SessionView,
    tunnel: TunnelView,
    base: ProbeResultView,
    max_time: u64,
    count: u32,
)
    requires
        later(s, t),
        !r.reading,
        r.running,
        base.activated ==> r.tunnels,
    ensures
        steady(
            r,
            s,
            t,
            r.b.measuring(s, tunnel, base, max_time, count),
            r.b.measuring(t, tunnel, base, max_time, count),
        ),
{
    let fx = r.b.measuring(s, tunnel, base, max_time, count);
    let fy = r.b.measuring(t, tunnel, base, max_time, count);
    lemma_naming_interface(r, s, t, tunnel);
    let x1 = r.b.naming_interface(s, tunnel);
    let y1 = r.b.naming_interface(t, tunnel);
    let s1 = resumed(x1, y1);
    lemma_resumed(r, s, t, x1, y1);
    let f1 = if x1.1 is Some {
        fx
    } else {
        fy
    };
    match y1.1 {
        Some(_) => {
            let n: u32 = if count == 0 {
                1
            } else {
                count
            };
            let timeout = text::number(max_time as nat);
            lemma_sampling_times(r, s1, y1.0, base.url, timeout, n as nat, Seq::empty(), None);
            let x2 = r.b.sampling_times(s1, base.url, timeout, n as nat, Seq::empty(), None);
            let y2 = r.b.sampling_times(y1.0, base.url, timeout, n as nat, Seq::empty(), None);
            let s2 = resumed(x2, y2);
            lemma_resumed(r, s1, y1.0, x2, y2);
            let f2 = if x2.1 is Some {
                f1
            } else {
                fy
            };
            match y2.1 {
                Some(_) => {
                    if base.activated {
                        lemma_tearing_down(r, s2, y2.0, tunnel, true);
                        let x3 = r.b.tearing_down(s2, tunnel, true);
                        let y3 = r.b.tearing_down(y2.0, tunnel, true);
                        lemma_bind(r, s2, y2.0, x3, y3, f2, fy);
                    }
                },
                None => {},
            }
            lemma_bind(r, s1, y1.0, x2, y2, f1, fy);
        },
        None => {},
    }
    lemma_bind(r, s, t, x1, y1, fx, fy);
    lemma_finished(r, s, t, fx, fy);
}

/// Probing one tunnel.
pub proof fn lemma_probing_one(
    r: Rule,
    s: SessionView,
    t: SessionView,
    tunnel: TunnelView,
    url: Seq<char>,
    max_time: u64,
    count: u32,
)
    requires
        later(s, t),
        !r.reading,
        r.running,
        r.tunnels,
    ensures
        steady(
            r,
            s,
            t,
            r.b.probing_one(s, tunnel, url, max_time, count),
            r.b.probing_one(t, tunnel, url, max_time, count),
        ),
{
    let fx = r.b.probing_one(s, tunnel, url, max_time, count);
    let fy = r.b.probing_one(t, tunnel, url, max_time, count);
    lemma_dumping(r, s, t);
    let x1 = r.b.dumping(s);
    let y1 = r.b.dumping(t);
    let s1 = resumed(x1, y1);
    lemma_resumed(r, s, t, x1, y1);
    let f1 = if x1.1 is Some {
        fx
    } else {
        fy
    };
    match y1.1 {
        Some(Ok(dump)) => {
            lemma_finding_live(r, s1, y1.0, tunnel, dump);
            let x2 = finding_live(s1, tunnel, dump);
            let y2 = finding_live(y1.0, tunnel, dump);
            let s2 = resumed(x2, y2);
            lemma_resumed(r, s1, y1.0, x2, y2);
            let f2 = if x2.1 is Some {
                f1
            } else {
                fy
            };
            match y2.1 {
                Some(Ok(row)) => {
                    let base = ProbeResultView::new(tunnel.name, url, row is None);
                    if row is Some {
                        lemma_measuring(r, s2, y2.0, tunnel, base, max_time, count);
                        let x3 = r.b.measuring(s2, tunnel, base, max_time, count);
                        let y3 = r.b.measuring(y2.0, tunnel, base, max_time, count);
                        lemma_bind(r, s2, y2.0, x3, y3, f2, fy);
                    } else {
                        lemma_activating_probe(r, s2, y2.0, tunnel, max_time, count);
                        let x3 = r.b.activating_probe(s2, tunnel, max_time, count);
                        let y3 = r.b.activating_probe(y2.0, tunnel, max_time, count);
                        let s3 = resumed(x3, y3);
                        lemma_resumed(r, s2, y2.0, x3, y3);
                        let f3 = if x3.1 is Some {
                            f2
                        } else {
                            fy
                        };
                        match y3.1 {
                            Some(Ok(None)) => {
                                lemma_measuring(r, s3, y3.0, tunnel, base, max_time, count);
                                let x4 = r.b.measuring(s3, tunnel, base, max_time, count);
                                let y4 = r.b.measuring(y3.0, tunnel, base, max_time, count);
                                lemma_bind(r, s3, y3.0, x4, y4, f3, fy);
                            },
                            _ => {},
                        }
                        lemma_bind(r, s2, y2.0, x3, y3, f2, fy);
                    }
                },
                _ => {},
            }
            lemma_bind(r, s1, y1.0, x2, y2, f1, fy);
        },
        _ => {},
    }
    lemma_bind(r, s, t, x1, y1, fx, fy);
    lemma_finished(r, s, t, fx, fy);
}

/// Probing tunnels.
pub proof fn lemma_probing_from(
    r: Rule,
    s: SessionView,
    t: SessionView,
    tunnels: Seq<TunnelView>,
    url: Seq<char>,
    max_time: u64,
    count: u32,
    i: int,
    results: Seq<ProbeResultView>,
)
    requires
        later(s, t),
        !r.reading,
        r.running,
        r.tunnels,
    ensures
        steady(
            r,
            s,
            t,
            r.b.probing_from(s, tunnels, url, max_time, count, i, results),
            r.b.probing_from(t, tunnels, url, max_time, count, i, results),
        ),
    decreases tunnels.len() - i,
{
    let fx = r.b.probing_from(s, tunnels, url, max_time, count, i, results);
    let fy = r.b.probing_from(t, tunnels, url, max_time, count, i, results);
    if i < tunnels.len() {
        lemma_probing_one(r, s, t, tunnels[i], url, max_time, count);
        let x1 = r.b.probing_one(s, tunnels[i], url, max_time, count);
        let y1 = r.b.probing_one(t, tunnels[i], url, max_time, count);
        let s1 = resumed(x1, y1);
        lemma_resumed(r, s, t, x1, y1);
        let f1 = if x1.1 is Some {
            fx
        } else {
            fy
        };
        match y1.1 {
            Some(Ok(one)) => {
                lemma_probing_from(
                    r,
                    s1,
                    y1.0,
                    tunnels,
                    url,
                    max_time,
                    count,
                    i + 1,
                    results.push(one),
                );
                let x2 = r.b.probing_from(
                    s1,
                    tunnels,
                    url,
                    max_time,
                    count,
                    i + 1,
                    results.push(one),
                );
                let y2 = r.b.probing_from(
                    y1.0,
                    tunnels,
                    url,
                    max_time,
                    count,
                    i + 1,
                    results.push(one),
                );
                lemma_bind(r, s1, y1.0, x2, y2, f1, fy);
            },
            _ => {},
        }
        lemma_bind(r, s, t, x1, y1, fx, fy);
    }
    lemma_finished(r, s, t, fx, fy);
}

/// Finding the tunnel of a name, or all.
pub proof fn lemma_selecting(r: Rule, s: SessionView, t: SessionView, name: Option<Seq<char>>)
    requires
        later(s, t),
    ensures
        steady(r, s, t, r.b.selecting(s, name), r.b.selecting(t, name)),
{
    let fx = r.b.selecting(s, name);
    let fy = r.b.selecting(t, name);
    match name {
        Some(n) => {
            lemma_resolving(r, s, t, r.b.config_dir, n);
            let x1 = config::resolving(s, r.b.config_dir, n);
            let y1 = config::resolving(t, r.b.config_dir, n);
            lemma_bind(r, s, t, x1, y1, fx, fy);
        },
        None => {
            lemma_discovering(r, s, t, r.b.config_dir);
            let x1 = config::discovering(s, r.b.config_dir);
            let y1 = config::discovering(t, r.b.config_dir);
            lemma_bind(r, s, t, x1, y1, fx, fy);
        },
    }
    lemma_finished(r, s, t, fx, fy);
}

/// Reconciling, then finding the tunnels.
pub proof fn lemma_reconciling_and_selecting(
    r: Rule,
    s: SessionView,
    t: SessionView,
    name: Option<Seq<char>>,
)
    requires
        later(s, t),
        !r.reading,
        r.running,
        r.tunnels,
    ensures
        steady(
            r,
            s,
            t,
            r.b.reconciling_and_selecting(s, name),
            r.b.reconciling_and_selecting(t, name),
        ),
{
    let fx = r.b.reconciling_and_selecting(s, name);
    let fy = r.b.reconciling_and_selecting(t, name);
    lemma_reconciling(r, s, t);
    let x1 = r.b.reconciling(s);
    let y1 = r.b.reconciling(t);
    let s1 = resumed(x1, y1);
    lemma_resumed(r, s, t, x1, y1);
    let f1 = if x1.1 is Some {
        fx
    } else {
        fy
    };
    match y1.1 {
        Some(Ok(_)) => {
            lemma_selecting(r, s1, y1.0, name);
            let x2 = r.b.selecting(s1, name);
            let y2 = r.b.selecting(y1.0, name);
            lemma_bind(r, s1, y1.0, x2, y2, f1, fy);
        },
        _ => {},
    }
    lemma_bind(r, s, t, x1, y1, fx, fy);
    lemma_finished(r, s, t, fx, fy);
}

/// `vpn probe`.
pub proof fn lemma_probing(
    r: Rule,
    s: SessionView,
    t: SessionView,
    name: Option<Seq<char>>,
    url: Seq<char>,
    max_time: u64,
    count: u32,
)
    requires
        later(s, t),
        !r.reading,
        r.running,
        r.tunnels,
    ensures
        steady(
            r,
            s,
            t,
            r.b.probing(s, name, url, max_time, count),
            r.b.probing(t, name, url, max_time, count),
        ),
{
    let fx = r.b.probing(s, name, url, max_time, count);
    let fy = r.b.probing(t, name, url, max_time, count);
    lemma_reconciling_and_selecting(r, s, t, name);
    let x1 = r.b.reconciling_and_selecting(s, name);
    let y1 = r.b.reconciling_and_selecting(t, name);
    let s1 = resumed(x1, y1);
    lemma_resumed(r, s, t, x1, y1);
    let f1 = if x1.1 is Some {
        fx
    } else {
        fy
    };
    match y1.1 {
        Some(Ok(tunnels)) => {
            lemma_probing_from(r, s1, y1.0, tunnels, url, max_time, count, 0, Seq::empty());
            let x2 = r.b.probing_from(s1, tunnels, url, max_time, count, 0, Seq::empty());
            let y2 = r.b.probing_from(y1.0, tunnels, url, max_time, count, 0, Seq::empty());
            lemma_bind(r, s1, y1.0, x2, y2, f1, fy);
        },
        _ => {},
    }
    lemma_bind(r, s, t, x1, y1, fx, fy);
    lemma_finished(r, s, t, fx, fy);
}

// ---------------------------------------------------------------------------
// Diff and exec
// ---------------------------------------------------------------------------

/// Fetching the head of a response.
pub proof fn lemma_fetching(
    r: Rule,
    s: SessionView,
    t: SessionView,
    url: Seq<char>,
    timeout: Seq<char>,
)
    requires
        later(s, t),
        !r.reading,
        r.running,
    ensures
        steady(r, s, t, r.b.fetching(s, url, timeout), r.b.fetching(t, url, timeout)),
{
    let fx = r.b.fetching(s, url, timeout);
    let fy = r.b.fetching(t, url, timeout);
    lemma_run(r, s, t, r.b.curl, diff_args(url, timeout));
    let x1 = s.run(r.b.curl, diff_args(url, timeout));
    let y1 = t.run(r.b.curl, diff_args(url, timeout));
    lemma_bind(r, s, t, x1, y1, fx, fy);
    lemma_finished(r, s, t, fx, fy);
}

/// Fetching until an attempt succeeds.
pub proof fn lemma_fetching_from(
    r: Rule,
    s: SessionView,
    t: SessionView,
    url: Seq<char>,
    timeout: Seq<char>,
    delays: Seq<u64>,
    i: int,
    so_far: Result<HeadView, Seq<char>>,
)
    requires
        later(s, t),
        !r.reading,
        r.running,
    ensures
        steady(
            r,
            s,
            t,
            r.b.fetching_from(s, url, timeout, delays, i, so_far),
            r.b.fetching_from(t, url, timeout, delays, i, so_far),
        ),
    decreases delays.len() - i,
{
    let fx = r.b.fetching_from(s, url, timeout, delays, i, so_far);
    let fy = r.b.fetching_from(t, url, timeout, delays, i, so_far);
    if i < delays.len() && so_far is Err {
        if i > 0 && delays[i] > 0 {
            lemma_sleep(r, s, t, delays[i]);
            let x1 = s.sleep(delays[i]);
            let y1 = t.sleep(delays[i]);
            let s1 = resumed(x1, y1);
            lemma_resumed(r, s, t, x1, y1);
            let f1 = if x1.1 is Some {
                fx
            } else {
                fy
            };
            match y1.1 {
                Some(_) => {
                    lemma_fetching(r, s1, y1.0, url, timeout);
                    let x2 = r.b.fetching(s1, url, timeout);
                    let y2 = r.b.fetching(y1.0, url, timeout);
                    let s2 = resumed(x2, y2);
                    lemma_resumed(r, s1, y1.0, x2, y2);
                    let f2 = if x2.1 is Some {
                        f1
                    } else {
                        fy
                    };
                    match y2.1 {
                        Some(outcome) => {
                            lemma_fetching_from(r, s2, y2.0, url, timeout, delays, i + 1, outcome);
                            let x3 = r.b.fetching_from(s2, url, timeout, delays, i + 1, outcome);
                            let y3 = r.b.fetching_from(y2.0, url, timeout, delays, i + 1, outcome);
                            lemma_bind(r, s2, y2.0, x3, y3, f2, fy);
                        },
                        None => {},
                    }
                    lemma_bind(r, s1, y1.0, x2, y2, f1, fy);
                },
                None => {},
            }
            lemma_bind(r, s, t, x1, y1, fx, fy);
        } else {
            lemma_fetching(r, s, t, url, timeout);
            let x1 = r.b.fetching(s, url, timeout);
            let y1 = r.b.fetching(t, url, timeout);
            let s1 = resumed(x1, y1);
            lemma_resumed(r, s, t, x1, y1);
            let f1 = if x1.1 is Some {
                fx
            } else {
                fy
            };
            match y1.1 {
                Some(outcome) => {
                    lemma_fetching_from(r, s1, y1.0, url, timeout, delays, i + 1, outcome);
                    let x2 = r.b.fetching_from(s1, url, timeout, delays, i + 1, outcome);
                    let y2 = r.b.fetching_from(y1.0, url, timeout, delays, i + 1, outcome);
                    lemma_bind(r, s1, y1.0, x2, y2, f1, fy);
                },
                None => {},
            }
            lemma_bind(r, s, t, x1, y1, fx, fy);
        }
    }
    lemma_finished(r, s, t, fx, fy);
}

/// Comparing through a tunnel that is brought up for it.
pub proof fn lemma_diffing_transient(
    r: Rule,
    s: SessionView,
    t: SessionView,
    tunnel: TunnelView,
    url: Seq<char>,
    max_time: u64,
)
    requires
        later(s, t),
        !r.reading,
        r.running,
        r.tunnels,
    ensures
        steady(
            r,
            s,
            t,
            r.b.diffing_transient(s, tunnel, url, max_time),
            r.b.diffing_transient(t, tunnel, url, max_time),
        ),
{
    let fx = r.b.diffing_transient(s, tunnel, url, max_time);
    let fy = r.b.diffing_transient(t, tunnel, url, max_time);
    let lease = Some(transient_lease(max_time, r.b.diff_retries.len()));
    let timeout = text::number(max_time as nat);
    let none: Result<HeadView, Seq<char>> = Err("no attempt made"@);
    lemma_starting(r, s, t, tunnel);
    let x1 = r.b.starting(s, tunnel);
    let y1 = r.b.starting(t, tunnel);
    let s1 = resumed(x1, y1);
    lemma_resumed(r, s, t, x1, y1);
    let f1 = if x1.1 is Some {
        fx
    } else {
        fy
    };
    match y1.1 {
        Some(Ok(snapshot)) => {
            lemma_confirming(r, s1, y1.0, tunnel, lease, snapshot);
            let x2 = r.b.confirming(s1, tunnel, lease, snapshot);
            let y2 = r.b.confirming(y1.0, tunnel, lease, snapshot);
            let s2 = resumed(x2, y2);
            lemma_resumed(r, s1, y1.0, x2, y2);
            let f2 = if x2.1 is Some {
                f1
            } else {
                fy
            };
            match y2.1 {
                Some(Ok(_)) => {
                    lemma_fetching_from(r, s2, y2.0, url, timeout, r.b.diff_retries, 0, none);
                    let x3 = r.b.fetching_from(s2, url, timeout, r.b.diff_retries, 0, none);
                    let y3 = r.b.fetching_from(y2.0, url, timeout, r.b.diff_retries, 0, none);
                    let s3 = resumed(x3, y3);
                    lemma_resumed(r, s2, y2.0, x3, y3);
                    let f3 = if x3.1 is Some {
                        f2
                    } else {
                        fy
                    };
                    match y3.1 {
                        Some(_) => {
                            lemma_tearing_down(r, s3, y3.0, tunnel, true);
                            let x4 = r.b.tearing_down(s3, tunnel, true);
                            let y4 = r.b.tearing_down(y3.0, tunnel, true);
                            lemma_bind(r, s3, y3.0, x4, y4, f3, fy);
                        },
                        None => {},
                    }
                    lemma_bind(r, s2, y2.0, x3, y3, f2, fy);
                },
                Some(Err(_)) => {
                    lemma_tearing_down(r, s2, y2.0, tunnel, true);
                    let x3 = r.b.tearing_down(s2, tunnel, true);
                    let y3 = r.b.tearing_down(y2.0, tunnel, true);
                    lemma_bind(r, s2, y2.0, x3, y3, f2, fy);
                },
                None => {},
            }
            lemma_bind(r, s1, y1.0, x2, y2, f1, fy);
        },
        _ => {},
    }
    lemma_bind(r, s, t, x1, y1, fx, fy);
    lemma_finished(r, s, t, fx, fy);
}

/// Comparing through one tunnel.
pub proof fn lemma_diffing_one(
    r: Rule,
    s: SessionView,
    t: SessionView,
    tunnel: TunnelView,
    url: Seq<char>,
    max_time: u64,
)
    requires
        later(s, t),
        !r.reading,
        r.running,
        r.tunnels,
    ensures
        steady(
            r,
            s,
            t,
            r.b.diffing_one(s, tunnel, url, max_time),
            r.b.diffing_one(t, tunnel, url, max_time),
        ),
{
    let fx = r.b.diffing_one(s, tunnel, url, max_time);
    let fy = r.b.diffing_one(t, tunnel, url, max_time);
    lemma_dumping(r, s, t);
    let x1 = r.b.dumping(s);
    let y1 = r.b.dumping(t);
    let s1 = resumed(x1, y1);
    lemma_resumed(r, s, t, x1, y1);
    let f1 = if x1.1 is Some {
        fx
    } else {
        fy
    };
    match y1.1 {
        Some(Ok(dump)) => {
            lemma_finding_live(r, s1, y1.0, tunnel, dump);
            let x2 = finding_live(s1, tunnel, dump);
            let y2 = finding_live(y1.0, tunnel, dump);
            let s2 = resumed(x2, y2);
            lemma_resumed(r, s1, y1.0, x2, y2);
            let f2 = if x2.1 is Some {
                f1
            } else {
                fy
            };
            match y2.1 {
                Some(Ok(row)) => {
                    if row is Some {
                        let timeout = text::number(max_time as nat);
                        let none: Result<HeadView, Seq<char>> = Err("no attempt made"@);
                        lemma_fetching_from(r, s2, y2.0, url, timeout, seq![0u64], 0, none);
                        let x3 = r.b.fetching_from(s2, url, timeout, seq![0u64], 0, none);
                        let y3 = r.b.fetching_from(y2.0, url, timeout, seq![0u64], 0, none);
                        lemma_bind(r, s2, y2.0, x3, y3, f2, fy);
                    } else {
                        lemma_diffing_transient(r, s2, y2.0, tunnel, url, max_time);
                        let x3 = r.b.diffing_transient(s2, tunnel, url, max_time);
                        let y3 = r.b.diffing_transient(y2.0, tunnel, url, max_time);
                        lemma_bind(r, s2, y2.0, x3, y3, f2, fy);
                    }
                },
                _ => {},
            }
            lemma_bind(r, s1, y1.0, x2, y2, f1, fy);
        },
        _ => {},
    }
    lemma_bind(r, s, t, x1, y1, fx, fy);
    lemma_finished(r, s, t, fx, fy);
}

/// Comparing through tunnels.
pub proof fn lemma_diffing_from(
    r: Rule,
    s: SessionView,
    t: SessionView,
    tunnels: Seq<TunnelView>,
    url: Seq<char>,
    max_time: u64,
    i: int,
    results: Seq<LocationResultView>,
)
    requires
        later(s, t),
        !r.reading,
        r.running,
        r.tunnels,
    ensures
        steady(
            r,
            s,
            t,
            r.b.diffing_from(s, tunnels, url, max_time, i, results),
            r.b.diffing_from(t, tunnels, url, max_time, i, results),
        ),
    decreases tunnels.len() - i,
{
    let fx = r.b.diffing_from(s, tunnels, url, max_time, i, results);
    let fy = r.b.diffing_from(t, tunnels, url, max_time, i, results);
    if i < tunnels.len() {
        lemma_diffing_one(r, s, t, tunnels[i], url, max_time);
        let x1 = r.b.diffing_one(s, tunnels[i], url, max_time);
        let y1 = r.b.diffing_one(t, tunnels[i], url, max_time);
        let s1 = resumed(x1, y1);
        lemma_resumed(r, s, t, x1, y1);
        let f1 = if x1.1 is Some {
            fx
        } else {
            fy
        };
        match y1.1 {
            Some(Ok(one)) => {
                lemma_diffing_from(r, s1, y1.0, tunnels, url, max_time, i + 1, results.push(one));
                let x2 = r.b.diffing_from(s1, tunnels, url, max_time, i + 1, results.push(one));
                let y2 = r.b.diffing_from(y1.0, tunnels, url, max_time, i + 1, results.push(one));
                lemma_bind(r, s1, y1.0, x2, y2, f1, fy);
            },
            _ => {},
        }
        lemma_bind(r, s, t, x1, y1, fx, fy);
    }
    lemma_finished(r, s, t, fx, fy);
}

/// `vpn diff`.
pub proof fn lemma_diffing(
    r: Rule,
    s: SessionView,
    t: SessionView,
    name: Option<Seq<char>>,
    url: Seq<char>,
    max_time: u64,
)
    requires
        later(s, t),
        !r.reading,
        r.running,
        r.tunnels,
    ensures
        steady(r, s, t, r.b.diffing(s, name, url, max_time), r.b.diffing(t, name, url, max_time)),
{
    let fx = r.b.diffing(s, name, url, max_time);
    let fy = r.b.diffing(t, name, url, max_time);
    lemma_reconciling_and_selecting(r, s, t, name);
    let x1 = r.b.reconciling_and_selecting(s, name);
    let y1 = r.b.reconciling_and_selecting(t, name);
    let s1 = resumed(x1, y1);
    lemma_resumed(r, s, t, x1, y1);
    let f1 = if x1.1 is Some {
        fx
    } else {
        fy
    };
    match y1.1 {
        Some(Ok(tunnels)) => {
            lemma_diffing_from(r, s1, y1.0, tunnels, url, max_time, 0, Seq::empty());
            let x2 = r.b.diffing_from(s1, tunnels, url, max_time, 0, Seq::empty());
            let y2 = r.b.diffing_from(y1.0, tunnels, url, max_time, 0, Seq::empty());
            lemma_bind(r, s1, y1.0, x2, y2, f1, fy);
        },
        _ => {},
    }
    lemma_bind(r, s, t, x1, y1, fx, fy);
    lemma_finished(r, s, t, fx, fy);
}

/// Bringing a tunnel up for a command.
pub proof fn lemma_activating_exec(r: Rule, s: SessionView, t: SessionView, tunnel: TunnelView)
    requires
        later(s, t),
        !r.reading,
        r.running,
        r.tunnels,
    ensures
        steady(r, s, t, r.b.activating_exec(s, tunnel), r.b.activating_exec(t, tunnel)),
{
    let fx = r.b.activating_exec(s, tunnel);
    let fy = r.b.activating_exec(t, tunnel);
    lemma_recording_pending(r, s, t, tunnel);
    let x1 = r.b.recording_pending(s, tunnel);
    let y1 = r.b.recording_pending(t, tunnel);
    let s1 = resumed(x1, y1);
    lemma_resumed(r, s, t, x1, y1);
    let f1 = if x1.1 is Some {
        fx
    } else {
        fy
    };
    match y1.1 {
        Some(Ok(snapshot)) => {
            lemma_quick(r, s1, y1.0, "up"@, tunnel.path);
            let x2 = r.b.quick(s1, "up"@, tunnel.path);
            let y2 = r.b.quick(y1.0, "up"@, tunnel.path);
            let s2 = resumed(x2, y2);
            lemma_resumed(r, s1, y1.0, x2, y2);
            let f2 = if x2.1 is Some {
                f1
            } else {
                fy
            };
            match y2.1 {
                Some(Ok(_)) => {
                    lemma_recording_active(r, s2, y2.0, tunnel, None, None, snapshot);
                    let x3 = r.b.recording_active(s2, tunnel, None, None, snapshot);
                    let y3 = r.b.recording_active(y2.0, tunnel, None, None, snapshot);
                    let s3 = resumed(x3, y3);
                    lemma_resumed(r, s2, y2.0, x3, y3);
                    let f3 = if x3.1 is Some {
                        f2
                    } else {
                        fy
                    };
                    match y3.1 {
                        Some(j) => {
                            lemma_writing(r, s3, y3.0, r.b.config_dir, j);
                            let x4 = state::writing(s3, r.b.config_dir, j);
                            let y4 = state::writing(y3.0, r.b.config_dir, j);
                            lemma_bind(r, s3, y3.0, x4, y4, f3, fy);
                        },
                        None => {},
                    }
                    lemma_bind(r, s2, y2.0, x3, y3, f2, fy);
                },
                _ => {},
            }
            lemma_bind(r, s1, y1.0, x2, y2, f1, fy);
        },
        _ => {},
    }
    lemma_bind(r, s, t, x1, y1, fx, fy);
    lemma_finished(r, s, t, fx, fy);
}

/// Running a command, and restoring the tunnel.
pub proof fn lemma_running_child(
    r: Rule,
    s: SessionView,
    t: SessionView,
    tunnel: TunnelView,
    name: Seq<char>,
    activated: bool,
    command: Seq<Seq<char>>,
)
    requires
        later(s, t),
        !r.reading,
        r.running,
        activated ==> r.tunnels,
    ensures
        steady(
            r,
            s,
            t,
            r.b.running_child(s, tunnel, name, activated, command),
            r.b.running_child(t, tunnel, name, activated, command),
        ),
{
    let fx = r.b.running_child(s, tunnel, name, activated, command);
    let fy = r.b.running_child(t, tunnel, name, activated, command);
    lemma_run_passthrough(r, s, t, command[0], command.skip(1));
    let x1 = s.run_passthrough(command[0], command.skip(1));
    let y1 = t.run_passthrough(command[0], command.skip(1));
    let s1 = resumed(x1, y1);
    lemma_resumed(r, s, t, x1, y1);
    let f1 = if x1.1 is Some {
        fx
    } else {
        fy
    };
    match y1.1 {
        Some(_) => {
            if activated {
                lemma_tearing_down(r, s1, y1.0, tunnel, true);
                let x2 = r.b.tearing_down(s1, tunnel, true);
                let y2 = r.b.tearing_down(y1.0, tunnel, true);
                lemma_bind(r, s1, y1.0, x2, y2, f1, fy);
            }
        },
        None => {},
    }
    lemma_bind(r, s, t, x1, y1, fx, fy);
    lemma_finished(r, s, t, fx, fy);
}

/// `vpn exec`.
pub proof fn lemma_executing(
    r: Rule,
    s: SessionView,
    t: SessionView,
    name: Seq<char>,
    command: Seq<Seq<char>>,
)
    requires
        later(s, t),
        !r.reading,
        r.running,
        r.tunnels,
    ensures
        steady(r, s, t, r.b.executing(s, name, command), r.b.executing(t, name, command)),
{
    let fx = r.b.executing(s, name, command);
    let fy = r.b.executing(t, name, command);
    lemma_approaching(r, s, t, name);
    let x1 = r.b.approaching(s, name);
    let y1 = r.b.approaching(t, name);
    let s1 = resumed(x1, y1);
    lemma_resumed(r, s, t, x1, y1);
    let f1 = if x1.1 is Some {
        fx
    } else {
        fy
    };
    match y1.1 {
        Some(Ok((tunnel, _, live))) => {
            if live is Some {
                lemma_running_child(r, s1, y1.0, tunnel, name, false, command);
                let x2 = r.b.running_child(s1, tunnel, name, false, command);
                let y2 = r.b.running_child(y1.0, tunnel, name, false, command);
                lemma_bind(r, s1, y1.0, x2, y2, f1, fy);
            } else {
                lemma_activating_exec(r, s1, y1.0, tunnel);
                let x2 = r.b.activating_exec(s1, tunnel);
                let y2 = r.b.activating_exec(y1.0, tunnel);
                let s2 = resumed(x2, y2);
                lemma_resumed(r, s1, y1.0, x2, y2);
                let f2 = if x2.1 is Some {
                    f1
                } else {
                    fy
                };
                match y2.1 {
                    Some(Ok(_)) => {
                        lemma_running_child(r, s2, y2.0, tunnel, name, true, command);
                        let x3 = r.b.running_child(s2, tunnel, name, true, command);
                        let y3 = r.b.running_child(y2.0, tunnel, name, true, command);
                        lemma_bind(r, s2, y2.0, x3, y3, f2, fy);
                    },
                    _ => {},
                }
                lemma_bind(r, s1, y1.0, x2, y2, f1, fy);
            }
        },
        _ => {},
    }
    lemma_bind(r, s, t, x1, y1, fx, fy);
    lemma_finished(r, s, t, fx, fy);
}

// ---------------------------------------------------------------------------
// Config files
// ---------------------------------------------------------------------------

/// Linting tunnels.
pub proof fn lemma_linting_from(
    r: Rule,
    s: SessionView,
    t: SessionView,
    tunnels: Seq<TunnelView>,
    i: int,
    results: Seq<LintResultView>,
)
    requires
        later(s, t),
    ensures
        steady(
            r,
            s,
            t,
            linting_from(s, tunnels, i, results),
            linting_from(t, tunnels, i, results),
        ),
    decreases tunnels.len() - i,
{
    let fx = linting_from(s, tunnels, i, results);
    let fy = linting_from(t, tunnels, i, results);
    if i < tunnels.len() {
        lemma_summarizing(r, s, t, tunnels[i].path);
        let x1 = config::summarizing(s, tunnels[i].path);
        let y1 = config::summarizing(t, tunnels[i].path);
        let s1 = resumed(x1, y1);
        lemma_resumed(r, s, t, x1, y1);
        let f1 = if x1.1 is Some {
            fx
        } else {
            fy
        };
        match y1.1 {
            Some(Ok(summary)) => {
                let next = results.push(lint::linted(tunnels[i].name, summary));
                lemma_linting_from(r, s1, y1.0, tunnels, i + 1, next);
                let x2 = linting_from(s1, tunnels, i + 1, next);
                let y2 = linting_from(y1.0, tunnels, i + 1, next);
                lemma_bind(r, s1, y1.0, x2, y2, f1, fy);
            },
            _ => {},
        }
        lemma_bind(r, s, t, x1, y1, fx, fy);
    }
    lemma_finished(r, s, t, fx, fy);
}

/// `vpn lint`.
pub proof fn lemma_linting(r: Rule, s: SessionView, t: SessionView, name: Option<Seq<char>>)
    requires
        later(s, t),
    ensures
        steady(r, s, t, r.b.linting(s, name), r.b.linting(t, name)),
{
    let fx = r.b.linting(s, name);
    let fy = r.b.linting(t, name);
    lemma_selecting(r, s, t, name);
    let x1 = r.b.selecting(s, name);
    let y1 = r.b.selecting(t, name);
    let s1 = resumed(x1, y1);
    lemma_resumed(r, s, t, x1, y1);
    let f1 = if x1.1 is Some {
        fx
    } else {
        fy
    };
    match y1.1 {
        Some(Ok(tunnels)) => {
            lemma_linting_from(r, s1, y1.0, tunnels, 0, Seq::empty());
            let x2 = linting_from(s1, tunnels, 0, Seq::empty());
            let y2 = linting_from(y1.0, tunnels, 0, Seq::empty());
            lemma_bind(r, s1, y1.0, x2, y2, f1, fy);
        },
        _ => {},
    }
    lemma_bind(r, s, t, x1, y1, fx, fy);
    lemma_finished(r, s, t, fx, fy);
}

/// Writing a private file.
pub proof fn lemma_writing_private(
    r: Rule,
    s: SessionView,
    t: SessionView,
    dest: Seq<char>,
    contents: Seq<char>,
    config_dir: Seq<char>,
)
    requires
        later(s, t),
        !r.reading,
    ensures
        steady(
            r,
            s,
            t,
            writing_private(s, dest, contents, config_dir),
            writing_private(t, dest, contents, config_dir),
        ),
{
    let fx = writing_private(s, dest, contents, config_dir);
    let fy = writing_private(t, dest, contents, config_dir);
    let write = ActionView::WriteFile { path: dest, contents };
    let restrict = ActionView::Restrict { path: dest, mode: OWNER_ONLY };
    lemma_change(r, s, t, ActionView::CreateDir(config_dir));
    let x1 = s.change(ActionView::CreateDir(config_dir));
    let y1 = t.change(ActionView::CreateDir(config_dir));
    let s1 = resumed(x1, y1);
    lemma_resumed(r, s, t, x1, y1);
    let f1 = if x1.1 is Some {
        fx
    } else {
        fy
    };
    match y1.1 {
        Some(Ok(_)) => {
            lemma_change(r, s1, y1.0, write);
            let x2 = s1.change(write);
            let y2 = y1.0.change(write);
            let s2 = resumed(x2, y2);
            lemma_resumed(r, s1, y1.0, x2, y2);
            let f2 = if x2.1 is Some {
                f1
            } else {
                fy
            };
            match y2.1 {
                Some(Ok(_)) => {
                    lemma_change(r, s2, y2.0, restrict);
                    let x3 = s2.change(restrict);
                    let y3 = y2.0.change(restrict);
                    lemma_bind(r, s2, y2.0, x3, y3, f2, fy);
                },
                _ => {},
            }
            lemma_bind(r, s1, y1.0, x2, y2, f1, fy);
        },
        _ => {},
    }
    lemma_bind(r, s, t, x1, y1, fx, fy);
    lemma_finished(r, s, t, fx, fy);
}

/// Installing a config.
pub proof fn lemma_installing(
    r: Rule,
    s: SessionView,
    t: SessionView,
    source: Seq<char>,
    name: Seq<char>,
    force: bool,
    result: LintResultView,
)
    requires
        later(s, t),
        !r.reading,
    ensures
        steady(
            r,
            s,
            t,
            r.b.installing(s, source, name, force, result),
            r.b.installing(t, source, name, force, result),
        ),
{
    let fx = r.b.installing(s, source, name, force, result);
    let fy = r.b.installing(t, source, name, force, result);
    let dest = config::conf_path(r.b.config_dir, name);
    lemma_exists_path(r, s, t, dest);
    let x1 = s.exists_path(dest);
    let y1 = t.exists_path(dest);
    let s1 = resumed(x1, y1);
    lemma_resumed(r, s, t, x1, y1);
    let f1 = if x1.1 is Some {
        fx
    } else {
        fy
    };
    match y1.1 {
        Some(there) => {
            if !there || force {
                lemma_reading_conf(r, s1, y1.0, source);
                let x2 = config::reading_conf(s1, source);
                let y2 = config::reading_conf(y1.0, source);
                let s2 = resumed(x2, y2);
                lemma_resumed(r, s1, y1.0, x2, y2);
                let f2 = if x2.1 is Some {
                    f1
                } else {
                    fy
                };
                match y2.1 {
                    Some(Ok(held)) => {
                        lemma_writing_private(r, s2, y2.0, dest, held, r.b.config_dir);
                        let x3 = writing_private(s2, dest, held, r.b.config_dir);
                        let y3 = writing_private(y2.0, dest, held, r.b.config_dir);
                        lemma_bind(r, s2, y2.0, x3, y3, f2, fy);
                    },
                    _ => {},
                }
                lemma_bind(r, s1, y1.0, x2, y2, f1, fy);
            }
        },
        None => {},
    }
    lemma_bind(r, s, t, x1, y1, fx, fy);
    lemma_finished(r, s, t, fx, fy);
}

/// `vpn add`.
pub proof fn lemma_adding(
    r: Rule,
    s: SessionView,
    t: SessionView,
    source: Seq<char>,
    name: Option<Seq<char>>,
    force: bool,
    allow_hooks: bool,
)
    requires
        later(s, t),
        !r.reading,
    ensures
        steady(
            r,
            s,
            t,
            r.b.adding(s, source, name, force, allow_hooks),
            r.b.adding(t, source, name, force, allow_hooks),
        ),
{
    let fx = r.b.adding(s, source, name, force, allow_hooks);
    let fy = r.b.adding(t, source, name, force, allow_hooks);
    let chosen = match name {
        Some(n) => n,
        None => default_name(source),
    };
    if config::valid_name(chosen) {
        lemma_summarizing(r, s, t, source);
        let x1 = config::summarizing(s, source);
        let y1 = config::summarizing(t, source);
        let s1 = resumed(x1, y1);
        lemma_resumed(r, s, t, x1, y1);
        let f1 = if x1.1 is Some {
            fx
        } else {
            fy
        };
        match y1.1 {
            Some(Ok(summary)) => {
                if add_refusal(chosen, source, summary, force, allow_hooks) is None {
                    let result = lint::linted(chosen, summary);
                    lemma_installing(r, s1, y1.0, source, chosen, force, result);
                    let x2 = r.b.installing(s1, source, chosen, force, result);
                    let y2 = r.b.installing(y1.0, source, chosen, force, result);
                    lemma_bind(r, s1, y1.0, x2, y2, f1, fy);
                }
            },
            _ => {},
        }
        lemma_bind(r, s, t, x1, y1, fx, fy);
    }
    lemma_finished(r, s, t, fx, fy);
}

/// Writing a sibling.
pub proof fn lemma_writing_split(
    r: Rule,
    s: SessionView,
    t: SessionView,
    tunnel: TunnelView,
    nets: Seq<Cidr4>,
    out_name: Seq<char>,
    keep_dns: bool,
    force: bool,
)
    requires
        later(s, t),
        !r.reading,
    ensures
        steady(
            r,
            s,
            t,
            r.b.writing_split(s, tunnel, nets, out_name, keep_dns, force),
            r.b.writing_split(t, tunnel, nets, out_name, keep_dns, force),
        ),
{
    let fx = r.b.writing_split(s, tunnel, nets, out_name, keep_dns, force);
    let fy = r.b.writing_split(t, tunnel, nets, out_name, keep_dns, force);
    let dest = config::conf_path(r.b.config_dir, out_name);
    if config::valid_name(out_name) {
        lemma_exists_path(r, s, t, dest);
        let x1 = s.exists_path(dest);
        let y1 = t.exists_path(dest);
        let s1 = resumed(x1, y1);
        lemma_resumed(r, s, t, x1, y1);
        let f1 = if x1.1 is Some {
            fx
        } else {
            fy
        };
        match y1.1 {
            Some(there) => {
                if !there || force {
                    lemma_reading_conf(r, s1, y1.0, tunnel.path);
                    let x2 = config::reading_conf(s1, tunnel.path);
                    let y2 = config::reading_conf(y1.0, tunnel.path);
                    let s2 = resumed(x2, y2);
                    lemma_resumed(r, s1, y1.0, x2, y2);
                    let f2 = if x2.1 is Some {
                        f1
                    } else {
                        fy
                    };
                    match y2.1 {
                        Some(Ok(held)) => {
                            match rewritten(held, allowed_line(nets), keep_dns) {
                                Some(sibling) => {
                                    lemma_writing_private(
                                        r,
                                        s2,
                                        y2.0,
                                        dest,
                                        sibling,
                                        r.b.config_dir,
                                    );
                                    let x3 = writing_private(s2, dest, sibling, r.b.config_dir);
                                    let y3 = writing_private(y2.0, dest, sibling, r.b.config_dir);
                                    lemma_bind(r, s2, y2.0, x3, y3, f2, fy);
                                },
                                None => {},
                            }
                        },
                        _ => {},
                    }
                    lemma_bind(r, s1, y1.0, x2, y2, f1, fy);
                }
            },
            None => {},
        }
        lemma_bind(r, s, t, x1, y1, fx, fy);
    }
    lemma_finished(r, s, t, fx, fy);
}

/// `vpn split`.
pub proof fn lemma_splitting(
    r: Rule,
    s: SessionView,
    t: SessionView,
    name: Seq<char>,
    excludes: Seq<Seq<char>>,
    output: Option<Seq<char>>,
    keep_dns: bool,
    force: bool,
)
    requires
        later(s, t),
        !r.reading,
    ensures
        steady(
            r,
            s,
            t,
            r.b.splitting(s, name, excludes, output, keep_dns, force),
            r.b.splitting(t, name, excludes, output, keep_dns, force),
        ),
{
    let fx = r.b.splitting(s, name, excludes, output, keep_dns, force);
    let fy = r.b.splitting(t, name, excludes, output, keep_dns, force);
    lemma_resolving(r, s, t, r.b.config_dir, name);
    let x1 = config::resolving(s, r.b.config_dir, name);
    let y1 = config::resolving(t, r.b.config_dir, name);
    let s1 = resumed(x1, y1);
    lemma_resumed(r, s, t, x1, y1);
    let f1 = if x1.1 is Some {
        fx
    } else {
        fy
    };
    match y1.1 {
        Some(Ok(tunnel)) => {
            lemma_summarizing(r, s1, y1.0, tunnel.path);
            let x2 = config::summarizing(s1, tunnel.path);
            let y2 = config::summarizing(y1.0, tunnel.path);
            let s2 = resumed(x2, y2);
            lemma_resumed(r, s1, y1.0, x2, y2);
            let f2 = if x2.1 is Some {
                f1
            } else {
                fy
            };
            match y2.1 {
                Some(Ok(summary)) => {
                    match split_holes(summary.endpoint, excludes) {
                        Ok(kept_out) => {
                            let nets = routed(kept_out);
                            let out_name = split_name(name, output);
                            lemma_writing_split(
                                r,
                                s2,
                                y2.0,
                                tunnel,
                                nets,
                                out_name,
                                keep_dns,
                                force,
                            );
                            let x3 = r.b.writing_split(s2, tunnel, nets, out_name, keep_dns, force);
                            let y3 = r.b.writing_split(
                                y2.0,
                                tunnel,
                                nets,
                                out_name,
                                keep_dns,
                                force,
                            );
                            lemma_bind(r, s2, y2.0, x3, y3, f2, fy);
                        },
                        Err(_) => {},
                    }
                },
                _ => {},
            }
            lemma_bind(r, s1, y1.0, x2, y2, f1, fy);
        },
        _ => {},
    }
    lemma_bind(r, s, t, x1, y1, fx, fy);
    lemma_finished(r, s, t, fx, fy);
}

// ---------------------------------------------------------------------------
// Doctor
// ---------------------------------------------------------------------------

/// Probing a binary.
pub proof fn lemma_checking_version(
    r: Rule,
    s: SessionView,
    t: SessionView,
    label: Seq<char>,
    program: Seq<char>,
)
    requires
        later(s, t),
        r.running,
        program == r.b.wg || program == r.b.curl,
    ensures
        steady(r, s, t, checking_version(s, label, program), checking_version(t, label, program)),
{
    let fx = checking_version(s, label, program);
    let fy = checking_version(t, label, program);
    lemma_run(r, s, t, program, seq!["--version"@]);
    let x1 = s.run(program, seq!["--version"@]);
    let y1 = t.run(program, seq!["--version"@]);
    lemma_bind(r, s, t, x1, y1, fx, fy);
    lemma_finished(r, s, t, fx, fy);
}

/// Looking for `wg-quick`.
pub proof fn lemma_checking_quick(r: Rule, s: SessionView, t: SessionView)
    requires
        later(s, t),
        r.running,
    ensures
        steady(r, s, t, r.b.checking_quick(s), r.b.checking_quick(t)),
{
    let fx = r.b.checking_quick(s);
    let fy = r.b.checking_quick(t);
    lemma_run(r, s, t, r.b.wg_quick, Seq::empty());
    let x1 = s.run(r.b.wg_quick, Seq::empty());
    let y1 = t.run(r.b.wg_quick, Seq::empty());
    lemma_bind(r, s, t, x1, y1, fx, fy);
    lemma_finished(r, s, t, fx, fy);
}

/// Trying passwordless sudo.
pub proof fn lemma_checking_sudo(r: Rule, s: SessionView, t: SessionView)
    requires
        later(s, t),
        r.running,
        r.b.sudo,
    ensures
        steady(r, s, t, r.b.checking_sudo(s), r.b.checking_sudo(t)),
{
    let fx = r.b.checking_sudo(s);
    let fy = r.b.checking_sudo(t);
    lemma_run(r, s, t, "sudo"@, seq!["-n"@, r.b.wg, "--version"@]);
    let x1 = s.run("sudo"@, seq!["-n"@, r.b.wg, "--version"@]);
    let y1 = t.run("sudo"@, seq!["-n"@, r.b.wg, "--version"@]);
    lemma_bind(r, s, t, x1, y1, fx, fy);
    lemma_finished(r, s, t, fx, fy);
}

/// Reading the live state.
pub proof fn lemma_checking_state(r: Rule, s: SessionView, t: SessionView)
    requires
        later(s, t),
        r.running,
    ensures
        steady(r, s, t, r.b.checking_state(s), r.b.checking_state(t)),
{
    let fx = r.b.checking_state(s);
    let fy = r.b.checking_state(t);
    lemma_dumping(r, s, t);
    let x1 = r.b.dumping(s);
    let y1 = r.b.dumping(t);
    lemma_bind(r, s, t, x1, y1, fx, fy);
    lemma_finished(r, s, t, fx, fy);
}

/// The checks of the access to the live state.
pub proof fn lemma_checking_access(
    r: Rule,
    s: SessionView,
    t: SessionView,
    checks: Seq<CheckView>,
)
    requires
        later(s, t),
        r.running,
    ensures
        steady(r, s, t, r.b.checking_access(s, checks), r.b.checking_access(t, checks)),
{
    let fx = r.b.checking_access(s, checks);
    let fy = r.b.checking_access(t, checks);
    if r.b.sudo {
        lemma_checking_sudo(r, s, t);
        let x1 = r.b.checking_sudo(s);
        let y1 = r.b.checking_sudo(t);
        let s1 = resumed(x1, y1);
        lemma_resumed(r, s, t, x1, y1);
        let f1 = if x1.1 is Some {
            fx
        } else {
            fy
        };
        match y1.1 {
            Some(_) => {
                lemma_checking_state(r, s1, y1.0);
                let x2 = r.b.checking_state(s1);
                let y2 = r.b.checking_state(y1.0);
                lemma_bind(r, s1, y1.0, x2, y2, f1, fy);
            },
            None => {},
        }
        lemma_bind(r, s, t, x1, y1, fx, fy);
    } else {
        lemma_checking_state(r, s, t);
        let x1 = r.b.checking_state(s);
        let y1 = r.b.checking_state(t);
        lemma_bind(r, s, t, x1, y1, fx, fy);
    }
    lemma_finished(r, s, t, fx, fy);
}

/// The checks of the programs.
pub proof fn lemma_checking_programs(r: Rule, s: SessionView, t: SessionView)
    requires
        later(s, t),
        r.running,
    ensures
        steady(r, s, t, r.b.checking_programs(s), r.b.checking_programs(t)),
{
    let fx = r.b.checking_programs(s);
    let fy = r.b.checking_programs(t);
    lemma_checking_version(r, s, t, "wg"@, r.b.wg);
    let x1 = checking_version(s, "wg"@, r.b.wg);
    let y1 = checking_version(t, "wg"@, r.b.wg);
    let s1 = resumed(x1, y1);
    lemma_resumed(r, s, t, x1, y1);
    let f1 = if x1.1 is Some {
        fx
    } else {
        fy
    };
    match y1.1 {
        Some(wg) => {
            lemma_checking_quick(r, s1, y1.0);
            let x2 = r.b.checking_quick(s1);
            let y2 = r.b.checking_quick(y1.0);
            let s2 = resumed(x2, y2);
            lemma_resumed(r, s1, y1.0, x2, y2);
            let f2 = if x2.1 is Some {
                f1
            } else {
                fy
            };
            match y2.1 {
                Some(quick) => {
                    lemma_checking_version(r, s2, y2.0, "curl"@, r.b.curl);
                    let x3 = checking_version(s2, "curl"@, r.b.curl);
                    let y3 = checking_version(y2.0, "curl"@, r.b.curl);
                    let s3 = resumed(x3, y3);
                    lemma_resumed(r, s2, y2.0, x3, y3);
                    let f3 = if x3.1 is Some {
                        f2
                    } else {
                        fy
                    };
                    match y3.1 {
                        Some(curl) => {
                            lemma_checking_access(r, s3, y3.0, seq![wg, quick, curl]);
                            let x4 = r.b.checking_access(s3, seq![wg, quick, curl]);
                            let y4 = r.b.checking_access(y3.0, seq![wg, quick, curl]);
                            lemma_bind(r, s3, y3.0, x4, y4, f3, fy);
                        },
                        None => {},
                    }
                    lemma_bind(r, s2, y2.0, x3, y3, f2, fy);
                },
                None => {},
            }
            lemma_bind(r, s1, y1.0, x2, y2, f1, fy);
        },
        None => {},
    }
    lemma_bind(r, s, t, x1, y1, fx, fy);
    lemma_finished(r, s, t, fx, fy);
}

/// Checking a config.
pub proof fn lemma_checking_tunnel(r: Rule, s: SessionView, t: SessionView, tunnel: TunnelView)
    requires
        later(s, t),
    ensures
        steady(r, s, t, checking_tunnel(s, tunnel), checking_tunnel(t, tunnel)),
{
    let fx = checking_tunnel(s, tunnel);
    let fy = checking_tunnel(t, tunnel);
    lemma_summarizing(r, s, t, tunnel.path);
    let x1 = config::summarizing(s, tunnel.path);
    let y1 = config::summarizing(t, tunnel.path);
    let s1 = resumed(x1, y1);
    lemma_resumed(r, s, t, x1, y1);
    let f1 = if x1.1 is Some {
        fx
    } else {
        fy
    };
    match y1.1 {
        Some(Ok(summary)) => {
            if lint::linted(tunnel.name, summary).ok {
                lemma_file_mode(r, s1, y1.0, tunnel.path);
                let x2 = s1.file_mode(tunnel.path);
                let y2 = y1.0.file_mode(tunnel.path);
                lemma_bind(r, s1, y1.0, x2, y2, f1, fy);
            }
        },
        _ => {},
    }
    lemma_bind(r, s, t, x1, y1, fx, fy);
    lemma_finished(r, s, t, fx, fy);
}

/// Checking configs.
pub proof fn lemma_checking_tunnels_from(
    r: Rule,
    s: SessionView,
    t: SessionView,
    tunnels: Seq<TunnelView>,
    i: int,
    checks: Seq<CheckView>,
)
    requires
        later(s, t),
    ensures
        steady(
            r,
            s,
            t,
            checking_tunnels_from(s, tunnels, i, checks),
            checking_tunnels_from(t, tunnels, i, checks),
        ),
    decreases tunnels.len() - i,
{
    let fx = checking_tunnels_from(s, tunnels, i, checks);
    let fy = checking_tunnels_from(t, tunnels, i, checks);
    if i < tunnels.len() {
        lemma_checking_tunnel(r, s, t, tunnels[i]);
        let x1 = checking_tunnel(s, tunnels[i]);
        let y1 = checking_tunnel(t, tunnels[i]);
        let s1 = resumed(x1, y1);
        lemma_resumed(r, s, t, x1, y1);
        let f1 = if x1.1 is Some {
            fx
        } else {
            fy
        };
        match y1.1 {
            Some(one) => {
                lemma_checking_tunnels_from(r, s1, y1.0, tunnels, i + 1, checks.push(one));
                let x2 = checking_tunnels_from(s1, tunnels, i + 1, checks.push(one));
                let y2 = checking_tunnels_from(y1.0, tunnels, i + 1, checks.push(one));
                lemma_bind(r, s1, y1.0, x2, y2, f1, fy);
            },
            None => {},
        }
        lemma_bind(r, s, t, x1, y1, fx, fy);
    }
    lemma_finished(r, s, t, fx, fy);
}

/// The checks of the configs.
pub proof fn lemma_checking_configs(
    r: Rule,
    s: SessionView,
    t: SessionView,
    checks: Seq<CheckView>,
)
    requires
        later(s, t),
    ensures
        steady(r, s, t, r.b.checking_configs(s, checks), r.b.checking_configs(t, checks)),
{
    let fx = r.b.checking_configs(s, checks);
    let fy = r.b.checking_configs(t, checks);
    lemma_discovering(r, s, t, r.b.config_dir);
    let x1 = config::discovering(s, r.b.config_dir);
    let y1 = config::discovering(t, r.b.config_dir);
    let s1 = resumed(x1, y1);
    lemma_resumed(r, s, t, x1, y1);
    let f1 = if x1.1 is Some {
        fx
    } else {
        fy
    };
    match y1.1 {
        Some(Ok(tunnels)) => {
            let found = checked(
                "config dir"@,
                true,
                text::number(tunnels.len()) + " tunnel(s) in "@ + r.b.config_dir,
            );
            lemma_checking_tunnels_from(r, s1, y1.0, tunnels, 0, checks.push(found));
            let x2 = checking_tunnels_from(s1, tunnels, 0, checks.push(found));
            let y2 = checking_tunnels_from(y1.0, tunnels, 0, checks.push(found));
            lemma_bind(r, s1, y1.0, x2, y2, f1, fy);
        },
        _ => {},
    }
    lemma_bind(r, s, t, x1, y1, fx, fy);
    lemma_finished(r, s, t, fx, fy);
}

/// The check for stale DNS.
pub proof fn lemma_checking_dns(r: Rule, s: SessionView, t: SessionView)
    requires
        later(s, t),
        r.running,
    ensures
        steady(r, s, t, r.b.checking_dns(s), r.b.checking_dns(t)),
{
    let fx = r.b.checking_dns(s);
    let fy = r.b.checking_dns(t);
    lemma_collecting_dns(r, s, t);
    let x1 = r.b.collecting_dns(s);
    let y1 = r.b.collecting_dns(t);
    let s1 = resumed(x1, y1);
    lemma_resumed(r, s, t, x1, y1);
    let f1 = if x1.1 is Some {
        fx
    } else {
        fy
    };
    match y1.1 {
        Some(declared) => {
            if declared.len() > 0 {
                lemma_naming_active(r, s1, y1.0);
                let x2 = r.b.naming_active(s1);
                let y2 = r.b.naming_active(y1.0);
                let s2 = resumed(x2, y2);
                lemma_resumed(r, s1, y1.0, x2, y2);
                let f2 = if x2.1 is Some {
                    f1
                } else {
                    fy
                };
                match y2.1 {
                    Some(Ok(active)) => {
                        if active.len() == 0 {
                            lemma_finding_stale(r, s2, y2.0, declared);
                            let x3 = dns::finding_stale(s2, declared);
                            let y3 = dns::finding_stale(y2.0, declared);
                            lemma_bind(r, s2, y2.0, x3, y3, f2, fy);
                        }
                    },
                    _ => {},
                }
                lemma_bind(r, s1, y1.0, x2, y2, f1, fy);
            }
        },
        None => {},
    }
    lemma_bind(r, s, t, x1, y1, fx, fy);
    lemma_finished(r, s, t, fx, fy);
}

/// `vpn doctor`.
pub proof fn lemma_diagnosing(r: Rule, s: SessionView, t: SessionView)
    requires
        later(s, t),
        r.running,
    ensures
        steady(r, s, t, r.b.diagnosing(s), r.b.diagnosing(t)),
{
    let fx = r.b.diagnosing(s);
    let fy = r.b.diagnosing(t);
    lemma_checking_programs(r, s, t);
    let x1 = r.b.checking_programs(s);
    let y1 = r.b.checking_programs(t);
    let s1 = resumed(x1, y1);
    lemma_resumed(r, s, t, x1, y1);
    let f1 = if x1.1 is Some {
        fx
    } else {
        fy
    };
    match y1.1 {
        Some(programs) => {
            lemma_checking_configs(r, s1, y1.0, programs);
            let x2 = r.b.checking_configs(s1, programs);
            let y2 = r.b.checking_configs(y1.0, programs);
            let s2 = resumed(x2, y2);
            lemma_resumed(r, s1, y1.0, x2, y2);
            let f2 = if x2.1 is Some {
                f1
            } else {
                fy
            };
            match y2.1 {
                Some(_) => {
                    lemma_checking_dns(r, s2, y2.0);
                    let x3 = r.b.checking_dns(s2);
                    let y3 = r.b.checking_dns(y2.0);
                    lemma_bind(r, s2, y2.0, x3, y3, f2, fy);
                },
                None => {},
            }
            lemma_bind(r, s1, y1.0, x2, y2, f1, fy);
        },
        None => {},
    }
    lemma_bind(r, s, t, x1, y1, fx, fy);
    lemma_finished(r, s, t, fx, fy);
}

} // verus!
