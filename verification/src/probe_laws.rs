//! What a probe measures: what is read of curl's output, which sample is the
//! median, and in which order results stand.
use vstd::prelude::*;

use crate::order;
use crate::probe::{
    body_and_metadata, curl_output, first_bad_time, indexed, probe_output, probe_times, ranked,
    stats, time_fields, trace, trace_line, trace_value, ProbeResult, ProbeResultView, Timed,
    Timings, CURL_FORMAT, OUTPUT_MARKER,
};
use crate::text;
use crate::text_laws;

verus! {

// ---------------------------------------------------------------------------
// The median
// ---------------------------------------------------------------------------

/// Whether `p` lists the samples from the fastest to the slowest, each once; of two
/// that took equally long, the one that was taken first.
pub open spec fn fastest_first(samples: Seq<Timings>, p: Seq<int>) -> bool {
    &&& p.len() == samples.len()
    &&& forall|i: int| 0 <= i < p.len() ==> 0 <= #[trigger] p[i] < samples.len()
    &&& forall|i: int, j: int|
        0 <= i < j < p.len() ==> samples[#[trigger] p[i]].total_tenths < samples[#[trigger]
        p[j]].total_tenths || (samples[p[i]].total_tenths == samples[p[j]].total_tenths && p[i]
            < p[j])
}

/// The statistics are those of the samples listed from the fastest to the slowest:
/// the first, the one in the middle (the upper one of two), and the last; and there
/// are none exactly where there are no samples.
pub proof fn law_statistics(samples: Seq<Timings>)
    requires
        samples.len() <= usize::MAX,
    ensures
        samples.len() == 0 <==> stats(samples) is None,
        stats(samples) matches Some((st, m)) ==> exists|p: Seq<int>|
            {
                let n = samples.len() as int;
                &&& #[trigger] fastest_first(samples, p)
                &&& m == p[n / 2]
                &&& st.min_total_tenths == samples[p[0]].total_tenths
                &&& st.median_total_tenths == samples[p[n / 2]].total_tenths
                &&& st.median_ttfb_tenths == samples[p[n / 2]].ttfb_tenths
                &&& st.max_total_tenths == samples[p[n - 1]].total_tenths
            },
{
    if samples.len() > 0 {
        let n = samples.len() as int;
        let r = ranked(samples);
        let p = r.map_values(|t: Timed| t.index as int);
        lemma_indices(samples, n);
        assert(indexed(samples).take(n) =~= indexed(samples));
        assert(fastest_first(samples, p));
        assert(r[n / 2].index as int == p[n / 2]);
    }
}

/// Whether the entries are those of samples before the `n`th, and in strict order of
/// time and index.
spec fn arranged(samples: Seq<Timings>, r: Seq<Timed>, n: int) -> bool {
    &&& r.len() == n
    &&& forall|i: int|
        0 <= i < r.len() ==> (#[trigger] r[i]).index < n && r[i].total
            == samples[r[i].index as int].total_tenths
    &&& forall|i: int, j: int|
        0 <= i < j < r.len() ==> (#[trigger] r[i]).total < (#[trigger] r[j]).total || (r[i].total
            == r[j].total && r[i].index < r[j].index)
}

/// The first `n` samples, ranked.
proof fn lemma_indices(samples: Seq<Timings>, n: int)
    requires
        0 <= n <= samples.len() <= usize::MAX,
    ensures
        arranged(samples, order::sorted::<Timed>(indexed(samples).take(n)), n),
    decreases n,
{
    let s = indexed(samples).take(n);
    if n > 0 {
        lemma_indices(samples, n - 1);
        assert(s.drop_last() =~= indexed(samples).take(n - 1));
        let before = order::sorted::<Timed>(s.drop_last());
        lemma_placed(samples, before, s.last(), n - 1);
    }
}

/// One more sample, put into its place.
proof fn lemma_placed(samples: Seq<Timings>, r: Seq<Timed>, x: Timed, n: int)
    requires
        0 <= n < samples.len(),
        x.index == n,
        x.total == samples[n].total_tenths,
        forall|i: int|
            0 <= i < r.len() ==> (#[trigger] r[i]).index < n && r[i].total
                == samples[r[i].index as int].total_tenths,
        forall|i: int, j: int|
            0 <= i < j < r.len() ==> (#[trigger] r[i]).total < (#[trigger] r[j]).total || (
            r[i].total == r[j].total && r[i].index < r[j].index),
    ensures
        ({
            let w = order::place::<Timed>(r, x);
            &&& w.len() == r.len() + 1
            &&& forall|i: int| 0 <= i < w.len() ==> #[trigger] w[i] == x || r.contains(w[i])
            &&& forall|i: int|
                0 <= i < w.len() ==> (#[trigger] w[i]).index < n + 1 && w[i].total
                    == samples[w[i].index as int].total_tenths
            &&& forall|i: int, j: int|
                0 <= i < j < w.len() ==> (#[trigger] w[i]).total < (#[trigger] w[j]).total || (
                w[i].total == w[j].total && w[i].index < w[j].index)
        }),
    decreases r.len(),
{
    let w = order::place::<Timed>(r, x);
    if r.len() > 0 && x.total < r.last().total {
        let t = r.drop_last();
        assert forall|i: int| 0 <= i < t.len() implies (#[trigger] t[i]).index < n && t[i].total
            == samples[t[i].index as int].total_tenths by {
            assert(t[i] == r[i]);
        }
        assert forall|i: int, j: int| 0 <= i < j < t.len() implies (#[trigger] t[i]).total < (
        #[trigger] t[j]).total || (t[i].total == t[j].total && t[i].index < t[j].index) by {
            assert(t[i] == r[i] && t[j] == r[j]);
        }
        lemma_placed(samples, t, x, n);
        let v = order::place::<Timed>(t, x);
        assert(w == v.push(r.last()));
        assert forall|i: int| 0 <= i < w.len() implies #[trigger] w[i] == x || r.contains(w[i]) by {
            if i < v.len() {
                assert(w[i] == v[i]);
                if v[i] != x {
                    let k = choose|k: int| 0 <= k < t.len() && t[k] == v[i];
                    assert(r[k] == w[i]);
                }
            } else {
                assert(r[r.len() - 1] == w[i]);
            }
        }
        assert forall|i: int, j: int| 0 <= i < j < w.len() implies (#[trigger] w[i]).total < (
        #[trigger] w[j]).total || (w[i].total == w[j].total && w[i].index < w[j].index) by {
            if j < v.len() {
                assert(w[i] == v[i] && w[j] == v[j]);
            } else {
                assert(w[i] == v[i]);
                if v[i] != x {
                    let k = choose|k: int| 0 <= k < t.len() && t[k] == v[i];
                    assert(r[k] == v[i]);
                    assert(r[r.len() - 1] == r.last());
                }
            }
        }
    } else {
        assert(w == r.push(x));
        assert forall|i: int| 0 <= i < w.len() implies #[trigger] w[i] == x || r.contains(w[i]) by {
            if i < r.len() {
                assert(r[i] == w[i]);
            }
        }
        assert forall|i: int, j: int| 0 <= i < j < w.len() implies (#[trigger] w[i]).total < (
        #[trigger] w[j]).total || (w[i].total == w[j].total && w[i].index < w[j].index) by {
            assert(w[i] == r[i]);
            if j == r.len() {
                let last = r.len() - 1;
                if i < last {
                    assert(r[i].total <= r[last].total);
                }
            }
        }
    }
}

/// The median has its rank: at most half of the samples are faster, and at most half
/// of the others are slower.
pub proof fn law_median_rank(samples: Seq<Timings>)
    requires
        0 < samples.len() <= usize::MAX,
    ensures
        ({
            let n = samples.len() as int;
            let (st, _) = stats(samples)->0;
            let median = st.median_total_tenths;
            let faster = Set::new(
                |i: int| 0 <= i < n && samples[i].total_tenths < median,
            );
            let slower = Set::new(
                |i: int| 0 <= i < n && samples[i].total_tenths > median,
            );
            &&& stats(samples) is Some
            &&& faster.finite() && faster.len() <= n / 2
            &&& slower.finite() && slower.len() <= n - 1 - n / 2
        }),
{
    law_statistics(samples);
    let n = samples.len() as int;
    let (st, m) = stats(samples)->0;
    let median = st.median_total_tenths;
    let p = choose|p: Seq<int>|
        {
            &&& #[trigger] fastest_first(samples, p)
            &&& m == p[n / 2]
            &&& st.min_total_tenths == samples[p[0]].total_tenths
            &&& st.median_total_tenths == samples[p[n / 2]].total_tenths
            &&& st.median_ttfb_tenths == samples[p[n / 2]].ttfb_tenths
            &&& st.max_total_tenths == samples[p[n - 1]].total_tenths
        };
    lemma_everyone_listed(samples, p);
    let faster = Set::new(|i: int| 0 <= i < n && samples[i].total_tenths < median);
    let slower = Set::new(|i: int| 0 <= i < n && samples[i].total_tenths > median);
    let low = p.take(n / 2);
    let high = p.skip(n / 2 + 1);
    assert forall|i: int| faster.contains(i) implies low.to_set().contains(i) by {
        assert(p.contains(i));
        let k = choose|k: int| 0 <= k < p.len() && p[k] == i;
        if k > n / 2 {
            assert(samples[p[n / 2]].total_tenths <= samples[p[k]].total_tenths);
        }
        assert(k < n / 2);
        assert(low[k] == i);
    }
    assert forall|i: int| slower.contains(i) implies high.to_set().contains(i) by {
        assert(p.contains(i));
        let k = choose|k: int| 0 <= k < p.len() && p[k] == i;
        if k < n / 2 {
            assert(samples[p[k]].total_tenths <= samples[p[n / 2]].total_tenths);
        }
        assert(k > n / 2);
        assert(high[k - n / 2 - 1] == i);
    }
    vstd::seq_lib::seq_to_set_is_finite(low);
    vstd::seq_lib::seq_to_set_is_finite(high);
    vstd::set_lib::lemma_len_subset(faster, low.to_set());
    vstd::set_lib::lemma_len_subset(slower, high.to_set());
    low.lemma_cardinality_of_set();
    high.lemma_cardinality_of_set();
}

/// A list of the samples, each once, holds every one of them.
proof fn lemma_everyone_listed(samples: Seq<Timings>, p: Seq<int>)
    requires
        fastest_first(samples, p),
    ensures
        forall|i: int| 0 <= i < samples.len() ==> #[trigger] p.contains(i),
{
    let n = samples.len() as int;
    let all = vstd::set_lib::set_int_range(0, n);
    assert(p.no_duplicates()) by {
        assert forall|i: int, j: int| 0 <= i < p.len() && 0 <= j < p.len() && i != j implies p[i]
            != p[j] by {
            if i < j {
                assert(samples[p[i]].total_tenths < samples[p[j]].total_tenths || p[i] < p[j]);
            } else {
                assert(samples[p[j]].total_tenths < samples[p[i]].total_tenths || p[j] < p[i]);
            }
        }
    }
    p.unique_seq_to_set();
    vstd::set_lib::lemma_int_range(0, n);
    vstd::seq_lib::seq_to_set_is_finite(p);
    assert(p.to_set().subset_of(all)) by {
        assert forall|i: int| p.to_set().contains(i) implies all.contains(i) by {
            let k = choose|k: int| 0 <= k < p.len() && p[k] == i;
            assert(0 <= p[k] < n);
        }
    }
    vstd::set_lib::lemma_subset_equality(p.to_set(), all);
    assert forall|i: int| 0 <= i < n implies #[trigger] p.contains(i) by {
        assert(all.contains(i));
        assert(p.to_set().contains(i));
    }
}

/// The order of results: every success before every failure; of two alike in that,
/// the shorter median total first, and one without a time last; and of two with the
/// same time the one whose name comes first.
pub proof fn law_probe_ranking(a: ProbeResultView, b: ProbeResultView)
    ensures
        ({
            let before = <ProbeResult as order::Ranked>::ranks_before(a, b);
            &&& a.ok && !b.ok ==> before
            &&& !a.ok && b.ok ==> !before
            &&& a.ok == b.ok ==> match (a.timings, b.timings) {
                (Some(x), Some(y)) => before <==> x.total_tenths < y.total_tenths || (
                x.total_tenths == y.total_tenths && order::text_before(a.name, b.name)),
                (Some(_), None) => before,
                (None, Some(_)) => !before,
                (None, None) => before <==> order::text_before(a.name, b.name),
            }
        }),
{
}

// ---------------------------------------------------------------------------
// Curl's output
// ---------------------------------------------------------------------------

/// What curl is asked to write out, and what it is to stand behind.
pub proof fn law_write_out()
    ensures
        OUTPUT_MARKER@ == "<<<VPNPROBE>>>"@,
        CURL_FORMAT@
            == "%{time_namelookup},%{time_connect},%{time_appconnect},%{time_starttransfer},%{time_total},%{remote_ip},%{http_code}"@,
{
}

/// The body stands before the last marker and the metadata behind it; without a
/// marker there is no body.
pub proof fn law_body_and_metadata(stdout: Seq<char>)
    ensures
        ({
            let (body, meta) = body_and_metadata(stdout);
            let marker = "<<<VPNPROBE>>>"@;
            if exists|x: Seq<char>, y: Seq<char>| stdout == #[trigger] (x + marker + y) {
                &&& stdout == body + marker + meta
                &&& forall|x: Seq<char>, y: Seq<char>|
                    stdout == #[trigger] (x + marker + y) ==> x.len() <= body.len()
            } else {
                body.len() == 0 && meta == stdout
            }
        }),
{
    text_laws::law_rsplit_text(stdout, OUTPUT_MARKER@);
}

/// Whether the metadata has these fields: seven texts with commas between them.
pub open spec fn written_out(metadata: Seq<char>, f: Seq<Seq<char>>) -> bool {
    &&& f.len() == 7
    &&& forall|i: int| 0 <= i < 7 ==> !(#[trigger] f[i]).contains(',')
    &&& metadata == text::join(f, seq![','])
}

/// The pieces of joined texts without the separator are the texts.
pub proof fn lemma_pieces(f: Seq<Seq<char>>, c: char)
    requires
        f.len() > 0,
        forall|i: int| 0 <= i < f.len() ==> !(#[trigger] f[i]).contains(c),
    ensures
        text::split(text::join(f, seq![c]), c) == f,
    decreases f.len(),
{
    let rest = f.skip(1);
    if f.len() == 1 {
        text_laws::law_split(f[0], c, Seq::empty());
        assert(f =~= seq![f[0]]);
    } else {
        assert forall|i: int| 0 <= i < rest.len() implies !(#[trigger] rest[i]).contains(c) by {
            assert(rest[i] == f[i + 1]);
        }
        lemma_pieces(rest, c);
        text_laws::law_join(seq![f[0]], rest, seq![c]);
        assert(seq![f[0]] + rest =~= f);
        text_laws::law_split(f[0], c, text::join(rest, seq![c]));
    }
}

/// Of metadata with seven fields, the first five are read as times; the sixth is the
/// address, where it is not blank, and the last the status, any from 1 to 65535 as it
/// is written.
pub proof fn law_metadata(metadata: Seq<char>, f: Seq<Seq<char>>, t: Seq<i64>, code: nat)
    requires
        written_out(metadata, f),
        t.len() == 5,
    ensures
        time_fields(metadata) == Some(Seq::new(5, |i: int| text::trim(f[i]))),
        ({
            let read = curl_output(metadata, t.map_values(|x: i64| Some(x)));
            &&& read matches Ok((timings, ip, status))
            &&& timings == (Timings {
                dns_tenths: t[0],
                connect_tenths: t[1],
                tls_tenths: t[2],
                ttfb_tenths: t[3],
                total_tenths: t[4],
            })
            &&& text::trim(f[5]).len() > 0 ==> ip == Some(text::trim(f[5]))
            &&& text::trim(f[5]).len() == 0 ==> ip is None
            &&& text::trim(f[6]) == text::number(code) ==> match status {
                Some(c) => c == code && 0 < code <= 65535,
                None => code == 0 || code > 65535,
            }
            &&& text::parse_number(text::trim(f[6]), 65535) is None ==> status is None
        }),
{
    lemma_pieces(f, ',');
    text_laws::law_read_number(code, 65535);
    let times = t.map_values(|x: i64| Some(x));
    assert(forall|i: int| 0 <= i < 5 ==> #[trigger] times[i] == Some(t[i]));
    reveal_with_fuel(first_bad_time, 6);
    assert(first_bad_time(times, 0) is None);
}

/// Metadata is refused exactly where it has not seven fields, or one of the times is
/// no number; the first one that is none is named.
pub proof fn law_metadata_refused(metadata: Seq<char>, times: Seq<Option<i64>>)
    requires
        times.len() == 5,
    ensures
        ({
            let f = text::split(metadata, ',');
            let read = curl_output(metadata, times);
            &&& time_fields(metadata) is None <==> f.len() != 7
            &&& read is Err <==> f.len() != 7 || exists|i: int|
                0 <= i < 5 && (#[trigger] times[i]) is None
            &&& f.len() != 7 ==> (read matches Err(e) && e == "expected 7 fields, got "@
                + text::number(f.len()))
            &&& forall|i: int|
                f.len() == 7 && 0 <= i < 5 && (#[trigger] times[i]) is None && (forall|j: int|
                    0 <= j < i ==> (#[trigger] times[j]) is Some) ==> (read matches Err(e) && e
                    == "field "@ + text::number(i as nat) + " is not a number: '"@ + f[i] + "'"@)
        }),
{
    lemma_first_bad(times, 0);
}

/// The first time that is none.
proof fn lemma_first_bad(times: Seq<Option<i64>>, i: int)
    requires
        times.len() == 5,
        0 <= i <= 5,
    ensures
        match first_bad_time(times, i) {
            Some(k) => i <= k < 5 && times[k] is None && forall|j: int|
                i <= j < k ==> (#[trigger] times[j]) is Some,
            None => forall|j: int| i <= j < 5 ==> (#[trigger] times[j]) is Some,
        },
    decreases 5 - i,
{
    if i < 5 && times[i] is Some {
        lemma_first_bad(times, i + 1);
    }
}

/// A sample is what the metadata behind the last marker says, with the evidence of
/// the body before it.
pub proof fn law_sample(stdout: Seq<char>, times: Seq<Option<i64>>)
    ensures
        ({
            let (body, meta) = body_and_metadata(stdout);
            &&& probe_times(stdout) == time_fields(text::trim(meta))
            &&& match curl_output(text::trim(meta), times) {
                Ok(read) => probe_output(stdout, times) matches Ok(sample) && sample.timings
                    == read.0 && sample.remote_ip == read.1 && sample.http_code == read.2
                    && sample.trace == trace(body),
                Err(e) => probe_output(stdout, times) matches Err(told) && told == e,
            }
        }),
{
}

// ---------------------------------------------------------------------------
// Evidence
// ---------------------------------------------------------------------------

/// A line gives a value to a key exactly if it is the key, the first equals sign and
/// the value, but for white space around them, and the value is not blank.
pub proof fn law_trace_line(k: Seq<char>, v: Seq<char>, key: Seq<char>)
    requires
        !k.contains('='),
    ensures
        trace_line(k, key) is None,
        trace_line(k + seq!['='] + v, key) == if text::trim(k) == key && text::trim(v).len() > 0 {
            Some(text::trim(v))
        } else {
            None
        },
{
    text_laws::law_split_once(k, '=', v);
}

/// The last line that gives a value to a key counts.
pub proof fn law_trace_value(a: Seq<Seq<char>>, line: Seq<char>, b: Seq<Seq<char>>, key: Seq<char>)
    ensures
        trace_value(Seq::empty(), key) is None,
        trace_value(a + b, key) == if trace_value(b, key) is Some {
            trace_value(b, key)
        } else {
            trace_value(a, key)
        },
        trace_value(seq![line], key) == trace_line(line, key),
    decreases b.len(),
{
    assert(seq![line].drop_last() =~= Seq::<Seq<char>>::empty());
    assert(trace_value(Seq::empty(), key) is None);
    if b.len() == 0 {
        assert(a + b =~= a);
    } else {
        assert((a + b).drop_last() =~= a + b.drop_last());
        law_trace_value(a, line, b.drop_last(), key);
    }
}

/// A body is evidence exactly if a line gives an address; the country and the
/// point of presence are what lines give to them.
pub proof fn law_evidence(body: Seq<char>)
    ensures
        ({
            let l = text::lines(body);
            match trace(body) {
                Some(info) => trace_value(l, "ip"@) == Some(info.ip) && info.loc == trace_value(
                    l,
                    "loc"@,
                ) && info.colo == trace_value(l, "colo"@),
                None => trace_value(l, "ip"@) is None,
            }
        }),
{
}

} // verus!
