//! Latency probing: timed HTTP requests through a tunnel.
//!
//! A probe brings the tunnel up if needed, issues one or more timed `curl`
//! requests (`--count N`), then restores the tunnel to its prior state.
//! Probing every configured tunnel in sequence compares latency across VPN
//! locations; multi-sample stats smooth out single-request jitter.
//!
//! Times are whole tenths of a millisecond, the precision that is reported.
use vstd::prelude::*;

use crate::order;
use crate::text;

verus! {

/// The curl `--write-out` format used for probes (comma-separated fields, all
/// times in seconds).
pub const CURL_FORMAT: &'static str =
    "%{time_namelookup},%{time_connect},%{time_appconnect},%{time_starttransfer},%{time_total},%{remote_ip},%{http_code}";

/// Separator emitted between the (optional) response body and the write-out
/// metadata, so both can travel over curl's stdout.
pub const OUTPUT_MARKER: &'static str = "<<<VPNPROBE>>>";

// ---------------------------------------------------------------------------
// Exit evidence
// ---------------------------------------------------------------------------

/// Exit-location evidence parsed from a `cdn-cgi/trace` response body.
///
/// `ip` is the address the edge saw the request come from — i.e. the VPN
/// exit's public IP — and `colo`/`loc` identify the answering PoP and its
/// country. Together they prove *where* the probe actually egressed.
#[derive(Debug, PartialEq, Eq)]
pub struct TraceInfo {
    /// Public IP the request appeared to come from (the tunnel exit).
    pub ip: String,
    /// Country code reported by the edge, when present.
    pub loc: Option<String>,
    /// CDN point-of-presence that answered, when present.
    pub colo: Option<String>,
}

/// A [`TraceInfo`] with its texts as sequences of characters.
pub struct TraceInfoView {
    /// Public IP of the tunnel exit.
    pub ip: Seq<char>,
    /// Country code.
    pub loc: Option<Seq<char>>,
    /// CDN point-of-presence.
    pub colo: Option<Seq<char>>,
}

impl DeepView for TraceInfo {
    type V = TraceInfoView;

    open spec fn deep_view(&self) -> TraceInfoView {
        TraceInfoView {
            ip: self.ip@,
            loc: self.loc.deep_view(),
            colo: self.colo.deep_view(),
        }
    }
}

/// The value that a `key=value` line of a trace gives to `key`, where it gives
/// one that is not empty.
pub open spec fn trace_line(line: Seq<char>, key: Seq<char>) -> Option<Seq<char>> {
    match text::split_once(line, '=') {
        Some((k, v)) => if text::trim(k) == key && text::trim(v).len() > 0 {
            Some(text::trim(v))
        } else {
            None
        },
        None => None,
    }
}

/// The last value that the lines of a trace give to `key`.
pub open spec fn trace_value(lines: Seq<Seq<char>>, key: Seq<char>) -> Option<Seq<char>>
    decreases lines.len(),
{
    if lines.len() == 0 {
        None
    } else {
        match trace_line(lines.last(), key) {
            Some(v) => Some(v),
            None => trace_value(lines.drop_last(), key),
        }
    }
}

/// The evidence in a response body. There is none without an `ip=` line.
pub open spec fn trace(body: Seq<char>) -> Option<TraceInfoView> {
    let l = text::lines(body);
    match trace_value(l, "ip"@) {
        Some(ip) => Some(
            TraceInfoView { ip, loc: trace_value(l, "loc"@), colo: trace_value(l, "colo"@) },
        ),
        None => None,
    }
}

/// The last value that the lines of a trace give to `key`.
fn find_trace_value(lines: &Vec<String>, key: &str) -> (r: Option<String>)
    ensures
        r.deep_view() == trace_value(lines.deep_view(), key@),
{
    let ghost l = lines.deep_view();
    let mut n: usize = lines.len();
    proof {
        assert(l.take(n as int) =~= l);
    }
    while n > 0
        invariant
            l == lines.deep_view(),
            n <= lines@.len(),
            trace_value(l, key@) == trace_value(l.take(n as int), key@),
        decreases n,
    {
        proof {
            assert(l.take(n as int).drop_last() =~= l.take(n - 1));
            assert(l.take(n as int).last() == lines@[n - 1]@);
        }
        match text::text_split_once(&lines[n - 1], '=') {
            Some((k, v)) => {
                let name = text::text_trim(&k);
                let value = text::text_trim(&v);
                if text::same(&name, key) && !value.as_str().is_empty() {
                    return Some(value);
                }
            },
            None => {},
        }
        n = n - 1;
    }
    None
}

/// Parse a `cdn-cgi/trace`-style `key=value` body into [`TraceInfo`].
///
/// Returns `None` unless an `ip=` line is present — anything else is not
/// usable exit evidence.
pub fn parse_trace_body(body: &str) -> (r: Option<TraceInfo>)
    ensures
        r.deep_view() == trace(body@),
{
    let lines = text::text_lines(body);
    match find_trace_value(&lines, "ip") {
        Some(ip) => Some(
            TraceInfo {
                ip,
                loc: find_trace_value(&lines, "loc"),
                colo: find_trace_value(&lines, "colo"),
            },
        ),
        None => None,
    }
}

// ---------------------------------------------------------------------------
// Samples
// ---------------------------------------------------------------------------

/// Timing breakdown of a probe request, in tenths of a millisecond. All values
/// are cumulative from the start of the request, matching curl's semantics.
#[derive(Debug, Clone, Copy, PartialEq, Eq, Structural)]
pub struct Timings {
    /// DNS resolution completed.
    pub dns_tenths: i64,
    /// TCP connection established.
    pub connect_tenths: i64,
    /// TLS handshake completed (0 for plain HTTP).
    pub tls_tenths: i64,
    /// First response byte received.
    pub ttfb_tenths: i64,
    /// Request fully completed.
    pub total_tenths: i64,
}

impl DeepView for Timings {
    type V = Timings;

    open spec fn deep_view(&self) -> Timings {
        *self
    }
}

/// One fully parsed probe sample.
#[derive(Debug, PartialEq, Eq)]
pub struct Sample {
    /// Timing breakdown.
    pub timings: Timings,
    /// Server IP the request connected to.
    pub remote_ip: Option<String>,
    /// HTTP status of the response.
    pub http_code: Option<u16>,
    /// Exit-location evidence, when the response body was a trace.
    pub trace: Option<TraceInfo>,
}

/// A [`Sample`] with its texts as sequences of characters.
pub struct SampleView {
    /// Timing breakdown.
    pub timings: Timings,
    /// Server IP.
    pub remote_ip: Option<Seq<char>>,
    /// HTTP status.
    pub http_code: Option<u16>,
    /// Exit-location evidence.
    pub trace: Option<TraceInfoView>,
}

impl DeepView for Sample {
    type V = SampleView;

    open spec fn deep_view(&self) -> SampleView {
        SampleView {
            timings: self.timings,
            remote_ip: self.remote_ip.deep_view(),
            http_code: self.http_code,
            trace: self.trace.deep_view(),
        }
    }
}

/// Curl's stdout cut into the response body and the write-out metadata. Without
/// a marker all of it is metadata.
pub open spec fn body_and_metadata(stdout: Seq<char>) -> (Seq<char>, Seq<char>) {
    match text::rsplit_text(stdout, OUTPUT_MARKER@) {
        Some((body, metadata)) => (body, metadata),
        None => (Seq::empty(), stdout),
    }
}

/// The fields of the write-out metadata.
pub open spec fn metadata_fields(metadata: Seq<char>) -> Seq<Seq<char>> {
    text::split(metadata, ',')
}

/// The five time fields of the write-out metadata, trimmed, where it has seven
/// fields in all.
pub open spec fn time_fields(metadata: Seq<char>) -> Option<Seq<Seq<char>>> {
    let f = metadata_fields(metadata);
    if f.len() == 7 {
        Some(Seq::new(5, |i: int| text::trim(f[i])))
    } else {
        None
    }
}

/// The first field that is not a number, given what reading each as a number of
/// seconds gave.
pub open spec fn first_bad_time(times: Seq<Option<i64>>, i: int) -> Option<int>
    decreases 5 - i,
{
    if i >= 5 {
        None
    } else if i < times.len() && times[i] is Some {
        first_bad_time(times, i + 1)
    } else {
        Some(i)
    }
}

/// The timings, remote IP and HTTP status of the write-out metadata, or what is
/// wrong with it. `times` is what reading the time fields gave, in tenths of a
/// millisecond.
pub open spec fn curl_output(metadata: Seq<char>, times: Seq<Option<i64>>) -> Result<
    (Timings, Option<Seq<char>>, Option<u16>),
    Seq<char>,
> {
    let f = metadata_fields(metadata);
    if f.len() != 7 {
        Err("expected 7 fields, got "@ + text::number(f.len()))
    } else {
        match first_bad_time(times, 0) {
            Some(i) => Err(
                "field "@ + text::number(i as nat) + " is not a number: '"@ + f[i] + "'"@,
            ),
            None => Ok(
                (
                    Timings {
                        dns_tenths: times[0]->0,
                        connect_tenths: times[1]->0,
                        tls_tenths: times[2]->0,
                        ttfb_tenths: times[3]->0,
                        total_tenths: times[4]->0,
                    },
                    if text::trim(f[5]).len() > 0 {
                        Some(text::trim(f[5]))
                    } else {
                        None
                    },
                    match text::parse_number(text::trim(f[6]), 65535) {
                        Some(c) => if c == 0 {
                            None
                        } else {
                            Some(c as u16)
                        },
                        None => None,
                    },
                ),
            ),
        }
    }
}

/// The sample in curl's combined stdout, or what is wrong with it.
pub open spec fn probe_output(stdout: Seq<char>, times: Seq<Option<i64>>) -> Result<
    SampleView,
    Seq<char>,
> {
    let (body, metadata) = body_and_metadata(stdout);
    match curl_output(text::trim(metadata), times) {
        Ok((timings, remote_ip, http_code)) => Ok(
            SampleView { timings, remote_ip, http_code, trace: trace(body) },
        ),
        Err(e) => Err(e),
    }
}

/// The time fields in curl's combined stdout.
pub open spec fn probe_times(stdout: Seq<char>) -> Option<Seq<Seq<char>>> {
    time_fields(text::trim(body_and_metadata(stdout).1))
}

/// Curl's stdout cut into the response body and the write-out metadata.
fn split_body(stdout: &str) -> (r: (String, String))
    ensures
        r.deep_view() == body_and_metadata(stdout@),
{
    match text::text_rsplit_text(stdout, OUTPUT_MARKER) {
        Some((body, metadata)) => (body, metadata),
        None => {
            let none = String::new();
            proof {
                assert(none@ =~= Seq::<char>::empty());
            }
            (none, stdout.to_owned())
        },
    }
}

/// The texts of the five time fields, which have to be read as numbers of
/// seconds before the rest can be read.
pub fn curl_time_fields(metadata: &str) -> (r: Option<Vec<String>>)
    ensures
        r.deep_view() == time_fields(metadata@),
{
    let parts = text::text_split(metadata, ',');
    let ghost f = metadata_fields(metadata@);
    proof {
        assert(parts.deep_view().len() == parts@.len());
    }
    if parts.len() != 7 {
        return None;
    }
    let mut out: Vec<String> = Vec::new();
    let mut i: usize = 0;
    while i < 5
        invariant
            f == parts.deep_view(),
            parts@.len() == 7,
            i <= 5,
            out@.len() == i,
            forall|j: int| 0 <= j < i ==> #[trigger] out@[j]@ == text::trim(f[j]),
        decreases 5 - i,
    {
        proof {
            assert(f[i as int] == parts@[i as int]@);
        }
        out.push(text::text_trim(&parts[i]));
        i = i + 1;
    }
    proof {
        assert(out.deep_view() =~= Seq::new(5, |i: int| text::trim(f[i])));
    }
    Some(out)
}

/// The time fields in curl's combined stdout.
pub fn probe_time_fields(stdout: &str) -> (r: Option<Vec<String>>)
    ensures
        r.deep_view() == probe_times(stdout@),
{
    let (_, metadata) = split_body(stdout);
    let trimmed = text::text_trim(&metadata);
    curl_time_fields(&trimmed)
}

/// What was read of curl's write-out, seen through views.
pub open spec fn curl_read(
    r: Result<(Timings, Option<String>, Option<u16>), String>,
) -> Result<(Timings, Option<Seq<char>>, Option<u16>), Seq<char>> {
    match r {
        Ok(v) => Ok((v.0, v.1.deep_view(), v.2)),
        Err(e) => Err(e@),
    }
}

/// A sample, or the message that says why there is none, seen through views.
pub open spec fn sampled(r: Result<Sample, String>) -> Result<SampleView, Seq<char>> {
    match r {
        Ok(v) => Ok(v.deep_view()),
        Err(e) => Err(e@),
    }
}

/// Parse curl's write-out output per [`CURL_FORMAT`], given what reading its
/// time fields (see [`curl_time_fields`]) gave in tenths of a millisecond.
///
/// Returns the timings plus the remote IP and HTTP status when present, or a
/// human-readable message describing the mismatch.
pub fn parse_curl_output(s: &str, times: &Vec<Option<i64>>) -> (r: Result<
    (Timings, Option<String>, Option<u16>),
    String,
>)
    ensures
        curl_read(r) == curl_output(s@, times@),
{
    let parts = text::text_split(s, ',');
    let ghost f = metadata_fields(s@);
    proof {
        assert(parts.deep_view().len() == parts@.len());
    }
    if parts.len() != 7 {
        let mut message = "expected 7 fields, got ".to_owned();
        let count = text::text_number(parts.len() as u64);
        message.append(&count);
        return Err(message);
    }
    let mut i: usize = 0;
    while i < 5
        invariant
            f == parts.deep_view(),
            f == metadata_fields(s@),
            parts@.len() == 7,
            i <= 5,
            first_bad_time(times@, 0) == first_bad_time(times@, i as int),
            forall|j: int| 0 <= j < i ==> j < times@.len() && #[trigger] times@[j] is Some,
        decreases 5 - i,
    {
        if i >= times.len() || times[i].is_none() {
            let mut message = "field ".to_owned();
            let index = text::text_number(i as u64);
            message.append(&index);
            message.append(" is not a number: '");
            message.append(&parts[i]);
            message.append("'");
            proof {
                assert(f[i as int] == parts@[i as int]@);
            }
            return Err(message);
        }
        i = i + 1;
    }
    proof {
        assert(times@[0] is Some && times@[1] is Some && times@[2] is Some && times@[3] is Some
            && times@[4] is Some);
        assert(f[5] == parts@[5]@);
        assert(f[6] == parts@[6]@);
    }
    let timings = Timings {
        dns_tenths: times[0].unwrap(),
        connect_tenths: times[1].unwrap(),
        tls_tenths: times[2].unwrap(),
        ttfb_tenths: times[3].unwrap(),
        total_tenths: times[4].unwrap(),
    };
    let ip = text::text_trim(&parts[5]);
    let remote_ip = if ip.as_str().is_empty() {
        None
    } else {
        Some(ip)
    };
    let digits = text::text_trim(&parts[6]);
    let http_code: Option<u16> = match text::text_parse(&digits, 65535) {
        Some(c) => if c == 0 {
            None
        } else {
            Some(c as u16)
        },
        None => None,
    };
    Ok((timings, remote_ip, http_code))
}

/// Parse curl's combined stdout: `[body]` + [`OUTPUT_MARKER`] + write-out
/// metadata, given what reading its time fields (see [`probe_time_fields`])
/// gave. A missing marker is tolerated (the whole output is treated as
/// metadata) so plain write-out output still parses.
pub fn parse_probe_output(stdout: &str, times: &Vec<Option<i64>>) -> (r: Result<Sample, String>)
    ensures
        sampled(r) == probe_output(stdout@, times@),
{
    let (body, metadata) = split_body(stdout);
    let trimmed = text::text_trim(&metadata);
    match parse_curl_output(&trimmed, times) {
        Ok((timings, remote_ip, http_code)) => Ok(
            Sample { timings, remote_ip, http_code, trace: parse_trace_body(&body) },
        ),
        Err(e) => Err(e),
    }
}

// ---------------------------------------------------------------------------
// Statistics
// ---------------------------------------------------------------------------

/// Aggregate statistics over a multi-sample probe (`--count N`), in tenths of a
/// millisecond.
#[derive(Debug, Clone, Copy, PartialEq, Eq, Structural)]
pub struct Stats {
    /// Fastest total time across successful samples.
    pub min_total_tenths: i64,
    /// Median total time across successful samples.
    pub median_total_tenths: i64,
    /// Slowest total time across successful samples.
    pub max_total_tenths: i64,
    /// Time-to-first-byte of the median sample.
    pub median_ttfb_tenths: i64,
}

impl DeepView for Stats {
    type V = Stats;

    open spec fn deep_view(&self) -> Stats {
        *self
    }
}

/// The total time of the sample with the given index.
#[derive(Debug, Clone, Copy, PartialEq, Eq, Structural)]
pub struct Timed {
    /// Index of the sample.
    pub index: usize,
    /// Its total time.
    pub total: i64,
}

impl DeepView for Timed {
    type V = Timed;

    open spec fn deep_view(&self) -> Timed {
        *self
    }
}

impl order::Ranked for Timed {
    open spec fn ranks_before(a: Timed, b: Timed) -> bool {
        a.total < b.total
    }

    fn precedes(&self, other: &Self) -> (r: bool) {
        self.total < other.total
    }

    proof fn lemma_rank(a: Timed, b: Timed, c: Timed) {
    }
}

/// The samples with their indices.
pub open spec fn indexed(samples: Seq<Timings>) -> Seq<Timed> {
    Seq::new(
        samples.len(),
        |i: int| Timed { index: i as usize, total: samples[i].total_tenths },
    )
}

/// The samples from the fastest to the slowest, by total time.
pub open spec fn ranked(samples: Seq<Timings>) -> Seq<Timed> {
    order::sorted::<Timed>(indexed(samples))
}

/// The statistics of the samples and the index of the median sample (by total
/// time; upper-middle for even counts).
pub open spec fn stats(samples: Seq<Timings>) -> Option<(Stats, usize)> {
    if samples.len() == 0 {
        None
    } else {
        let r = ranked(samples);
        let median = r[(samples.len() / 2) as int];
        Some(
            (
                Stats {
                    min_total_tenths: r[0].total,
                    median_total_tenths: median.total,
                    max_total_tenths: r[samples.len() - 1].total,
                    median_ttfb_tenths: samples[median.index as int].ttfb_tenths,
                },
                median.index,
            ),
        )
    }
}

/// Each ranked entry is the entry of a sample.
proof fn lemma_ranked(samples: Seq<Timings>, k: int)
    requires
        samples.len() <= usize::MAX,
        0 <= k < samples.len(),
    ensures
        ranked(samples).len() == samples.len(),
        ranked(samples)[k].index < samples.len(),
        ranked(samples)[k].total == samples[ranked(samples)[k].index as int].total_tenths,
{
    broadcast use vstd::seq_lib::group_to_multiset_ensures;

    let s = indexed(samples);
    order::lemma_sorted::<Timed>(s);
    let x = ranked(samples)[k];
    assert(ranked(samples).contains(x));
    assert(ranked(samples).to_multiset().count(x) > 0);
    assert(s.contains(x));
    let i = choose|i: int| 0 <= i < s.len() && s[i] == x;
    assert(x.index == i);
}

/// Compute [`Stats`] over successful samples, returning the stats and the
/// index of the median sample (by total time; upper-middle for even counts).
/// Returns `None` for an empty list.
pub fn compute_stats(samples: &Vec<Timings>) -> (r: Option<(Stats, usize)>)
    ensures
        r == stats(samples@),
        r matches Some(s) ==> s.1 < samples@.len(),
{
    let n: usize = samples.len();
    if n == 0 {
        return None;
    }
    let mut list: Vec<Timed> = Vec::new();
    let mut i: usize = 0;
    while i < n
        invariant
            n == samples@.len(),
            i <= n,
            list@.len() == i,
            forall|j: int| 0 <= j < i ==> #[trigger] list@[j] == indexed(samples@)[j],
        decreases n - i,
    {
        list.push(Timed { index: i, total: samples[i].total_tenths });
        i = i + 1;
    }
    proof {
        assert(list.deep_view() =~= indexed(samples@));
    }
    let order = order::sort(list);
    let ghost o = order.deep_view();
    proof {
        lemma_ranked(samples@, 0);
        lemma_ranked(samples@, n - 1);
        lemma_ranked(samples@, (n / 2) as int);
        assert(o.len() == order@.len());
        assert(o[0] == order@[0]);
        assert(o[n - 1] == order@[n - 1]);
        assert(o[(n / 2) as int] == order@[(n / 2) as int]);
    }
    let median: usize = order[n / 2].index;
    let result = Stats {
        min_total_tenths: order[0].total,
        median_total_tenths: order[n / 2].total,
        max_total_tenths: order[n - 1].total,
        median_ttfb_tenths: samples[median].ttfb_tenths,
    };
    Some((result, median))
}

// ---------------------------------------------------------------------------
// Results
// ---------------------------------------------------------------------------

/// The outcome of probing one tunnel.
#[derive(Debug, PartialEq, Eq)]
pub struct ProbeResult {
    /// Tunnel name.
    pub name: String,
    /// URL that was requested.
    pub url: String,
    /// Whether the probe completed (at least one sample succeeded).
    pub ok: bool,
    /// Whether the tunnel was brought up for this probe (and torn down after).
    pub activated: bool,
    /// Number of requests attempted.
    pub samples: u32,
    /// Number of requests that failed.
    pub failures: u32,
    /// Aggregate timing statistics (present when any sample succeeded).
    pub stats: Option<Stats>,
    /// Interface the tunnel ran on during the probe.
    pub interface: Option<String>,
    /// HTTP status of the median sample's response.
    pub http_code: Option<u16>,
    /// Server IP the median sample actually connected to.
    pub remote_ip: Option<String>,
    /// Exit-location evidence from the median sample (trace URLs only): the
    /// tunnel's public exit IP and the answering PoP.
    pub exit: Option<TraceInfo>,
    /// Timing breakdown of the median sample.
    pub timings: Option<Timings>,
    /// Why the probe failed (first failure message).
    pub error: Option<String>,
    /// Non-fatal problem (e.g. the tunnel state could not be restored).
    pub warning: Option<String>,
}

/// A [`ProbeResult`] with its texts as sequences of characters.
pub struct ProbeResultView {
    /// Tunnel name.
    pub name: Seq<char>,
    /// URL that was requested.
    pub url: Seq<char>,
    /// Whether the probe completed.
    pub ok: bool,
    /// Whether the tunnel was brought up for this probe.
    pub activated: bool,
    /// Number of requests attempted.
    pub samples: u32,
    /// Number of requests that failed.
    pub failures: u32,
    /// Aggregate timing statistics.
    pub stats: Option<Stats>,
    /// Interface the tunnel ran on.
    pub interface: Option<Seq<char>>,
    /// HTTP status of the median sample.
    pub http_code: Option<u16>,
    /// Server IP of the median sample.
    pub remote_ip: Option<Seq<char>>,
    /// Exit-location evidence.
    pub exit: Option<TraceInfoView>,
    /// Timing breakdown of the median sample.
    pub timings: Option<Timings>,
    /// Why the probe failed.
    pub error: Option<Seq<char>>,
    /// Non-fatal problem.
    pub warning: Option<Seq<char>>,
}

impl DeepView for ProbeResult {
    type V = ProbeResultView;

    open spec fn deep_view(&self) -> ProbeResultView {
        ProbeResultView {
            name: self.name@,
            url: self.url@,
            ok: self.ok,
            activated: self.activated,
            samples: self.samples,
            failures: self.failures,
            stats: self.stats,
            interface: self.interface.deep_view(),
            http_code: self.http_code,
            remote_ip: self.remote_ip.deep_view(),
            exit: self.exit.deep_view(),
            timings: self.timings,
            error: self.error.deep_view(),
            warning: self.warning.deep_view(),
        }
    }
}

impl ProbeResultView {
    /// A result with nothing filled in.
    pub open spec fn new(name: Seq<char>, url: Seq<char>, activated: bool) -> ProbeResultView {
        ProbeResultView {
            name,
            url,
            ok: false,
            activated,
            samples: 0,
            failures: 0,
            stats: None,
            interface: None,
            http_code: None,
            remote_ip: None,
            exit: None,
            timings: None,
            error: None,
            warning: None,
        }
    }

    /// Median total time, or `None` (slower than anything) when the probe
    /// failed.
    pub open spec fn total(self) -> Option<i64> {
        match self.timings {
            Some(t) => Some(t.total_tenths),
            None => None,
        }
    }
}

impl ProbeResult {
    /// A not-yet-successful result for `name`; fields are filled in as the
    /// probe progresses.
    pub fn new(name: &str, url: &str, activated: bool) -> (r: Self)
        ensures
            r.deep_view() == ProbeResultView::new(name@, url@, activated),
    {
        ProbeResult {
            name: name.to_owned(),
            url: url.to_owned(),
            ok: false,
            activated,
            samples: 0,
            failures: 0,
            stats: None,
            interface: None,
            http_code: None,
            remote_ip: None,
            exit: None,
            timings: None,
            error: None,
            warning: None,
        }
    }

    /// Median total time in tenths of a millisecond, or `None` (slower than
    /// anything) when the probe failed — so sorting by this value puts failures
    /// last.
    pub fn total_tenths(&self) -> (r: Option<i64>)
        ensures
            r == self.deep_view().total(),
    {
        match self.timings {
            Some(t) => Some(t.total_tenths),
            None => None,
        }
    }
}

/// Whether the time `a` is shorter than `b`, where `None` is longer than any.
pub open spec fn shorter(a: Option<i64>, b: Option<i64>) -> bool {
    match (a, b) {
        (Some(x), Some(y)) => x < y,
        (Some(_), None) => true,
        (None, _) => false,
    }
}

/// Whether the time `a` is shorter than `b`.
fn is_shorter(a: Option<i64>, b: Option<i64>) -> (r: bool)
    ensures
        r == shorter(a, b),
{
    match (a, b) {
        (Some(x), Some(y)) => x < y,
        (Some(_), None) => true,
        (None, _) => false,
    }
}

impl order::Ranked for ProbeResult {
    /// Successes first, then by median total time, then by name.
    open spec fn ranks_before(a: ProbeResultView, b: ProbeResultView) -> bool {
        if a.ok != b.ok {
            a.ok
        } else if a.total() != b.total() {
            shorter(a.total(), b.total())
        } else {
            order::text_before(a.name, b.name)
        }
    }

    fn precedes(&self, other: &Self) -> (r: bool) {
        if self.ok != other.ok {
            return self.ok;
        }
        let a = self.total_tenths();
        let b = other.total_tenths();
        if is_shorter(a, b) {
            true
        } else if is_shorter(b, a) {
            false
        } else {
            order::comes_before(&self.name, &other.name)
        }
    }

    proof fn lemma_rank(a: ProbeResultView, b: ProbeResultView, c: ProbeResultView) {
        <String as order::Ranked>::lemma_rank(a.name, b.name, c.name);
    }
}

// ---------------------------------------------------------------------------
// Laws
// ---------------------------------------------------------------------------

/// The fastest, median and slowest times of the samples: they are times of
/// samples, no sample is faster than the fastest or slower than the slowest,
/// and the median lies between.
pub proof fn law_stats(samples: Seq<Timings>, k: int)
    requires
        0 < samples.len() <= usize::MAX,
        0 <= k < samples.len(),
    ensures
        stats(samples) matches Some(s) && {
            &&& s.1 < samples.len()
            &&& s.0.median_total_tenths == samples[s.1 as int].total_tenths
            &&& s.0.median_ttfb_tenths == samples[s.1 as int].ttfb_tenths
            &&& s.0.min_total_tenths <= samples[k].total_tenths <= s.0.max_total_tenths
            &&& s.0.min_total_tenths <= s.0.median_total_tenths <= s.0.max_total_tenths
        },
{
    broadcast use vstd::seq_lib::group_to_multiset_ensures;

    let n = samples.len() as int;
    let all = indexed(samples);
    let r = ranked(samples);
    order::lemma_sorted::<Timed>(all);
    lemma_ranked(samples, 0);
    lemma_ranked(samples, n - 1);
    lemma_ranked(samples, n / 2);
    let x = all[k];
    assert(all.contains(x));
    assert(all.to_multiset().count(x) > 0);
    assert(r.contains(x));
    let i = choose|i: int| 0 <= i < r.len() && r[i] == x;
    if i > 0 {
        assert(!<Timed as order::Ranked>::ranks_before(r[i], r[0]));
    }
    if i < n - 1 {
        assert(!<Timed as order::Ranked>::ranks_before(r[n - 1], r[i]));
    }
    if n / 2 > 0 {
        assert(!<Timed as order::Ranked>::ranks_before(r[n / 2], r[0]));
    }
    if n / 2 < n - 1 {
        assert(!<Timed as order::Ranked>::ranks_before(r[n - 1], r[n / 2]));
    }
}

} // verus!
