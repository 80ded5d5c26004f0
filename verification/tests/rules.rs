//! The rules that need no machine.
use std::collections::BTreeSet;

use agent_vpn::cidr::{exclude_from_full, parse_ip4, Cidr4};
use agent_vpn::config::{
    exec_hook_name, path_file_name, split_extension, tunnel_from_path, ConfSummary,
};
use agent_vpn::diff::{diff_fields, parse_head, Head, LocationResult};
use agent_vpn::error::Error;
use agent_vpn::lint::{self, Severity};
use agent_vpn::order::TextMap;
use agent_vpn::probe::{
    compute_stats, curl_time_fields, parse_curl_output, parse_probe_output, parse_trace_body,
    probe_time_fields, ProbeResult, Sample, Timings, OUTPUT_MARKER,
};
use agent_vpn::runner::CommandOutput;
use agent_vpn::settings::{self, FileConfig};
use agent_vpn::state::{reconcile_one, Journal, Phase, Reconciliation, RecoverReason};
use agent_vpn::status::{normalize_allowed, parse_all_dump, TunnelStatus};
use agent_vpn::text;

// ---- Networks ----

fn c(s: &str) -> Cidr4 {
    Cidr4::parse(s).unwrap()
}

#[test]
fn parse_and_display_round_trip() {
    assert_eq!(c("100.64.0.0/10").to_string(), "100.64.0.0/10");
    assert_eq!(c("0.0.0.0/0").to_string(), "0.0.0.0/0");
    assert_eq!(c("79.127.160.216").to_string(), "79.127.160.216/32");
    // Host bits are canonicalized away.
    assert_eq!(c("10.1.2.3/8").to_string(), "10.0.0.0/8");
}

#[test]
fn parse_rejects_garbage() {
    assert!(Cidr4::parse("10.0.0.0/33").is_err());
    assert!(Cidr4::parse("10.0.0/8").is_err());
    assert!(Cidr4::parse("10.0.0.256/8").is_err());
    assert!(Cidr4::parse("::/0").is_err());
    assert!(Cidr4::parse("10.0.0.0/x").is_err());
    assert!(parse_ip4("hello").is_err());
}

#[test]
fn containment() {
    assert!(c("0.0.0.0/0").contains(&c("100.64.0.0/10")));
    assert!(c("64.0.0.0/3").contains_ip(parse_ip4("79.127.160.216").unwrap()));
    assert!(!c("100.64.0.0/10").contains(&c("0.0.0.0/0")));
    assert!(c("10.0.0.0/8").contains(&c("10.0.0.0/8")));
    assert!(!c("10.0.0.0/8").contains(&c("11.0.0.0/8")));
}

#[test]
fn halves_split_evenly() {
    let (lo, hi) = c("10.0.0.0/8").halves().unwrap();
    assert_eq!(lo.to_string(), "10.0.0.0/9");
    assert_eq!(hi.to_string(), "10.128.0.0/9");
    assert!(c("1.2.3.4/32").halves().is_none());
}

/// Every exclusion result must exactly tile the space minus the holes.
fn assert_exact_cover(result: &[Cidr4], holes: &[Cidr4]) {
    let covered: u64 = result.iter().map(|n| 1u64 << (32 - n.prefix)).sum();
    let holed: u64 = holes.iter().map(|n| 1u64 << (32 - n.prefix)).sum();
    assert_eq!(covered, (1u64 << 32) - holed, "size must match exactly");
    for hole in holes {
        assert!(
            !result.iter().any(|n| n.contains_ip(hole.base)),
            "hole {hole:?} must not be covered"
        );
    }
}

#[test]
fn exclude_tailscale_range() {
    let holes = [c("100.64.0.0/10")];
    let result = exclude_from_full(&holes);
    let strings: Vec<String> = result.iter().map(|n| n.to_string()).collect();
    assert_eq!(
        strings,
        vec![
            "0.0.0.0/2",
            "64.0.0.0/3",
            "96.0.0.0/6",
            "100.0.0.0/10",
            "100.128.0.0/9",
            "101.0.0.0/8",
            "102.0.0.0/7",
            "104.0.0.0/5",
            "112.0.0.0/4",
            "128.0.0.0/1",
        ]
    );
    assert_exact_cover(&result, &holes);
}

#[test]
fn exclude_tailscale_and_endpoint_matches_reference() {
    // The exact case from live Proton testing: Tailscale CGNAT plus the
    // server endpoint /32 (38 v4 CIDRs, verified against Python's
    // ipaddress module).
    let holes = [c("100.64.0.0/10"), c("79.127.160.216/32")];
    let result = exclude_from_full(&holes);
    assert_eq!(result.len(), 38);
    assert_exact_cover(&result, &holes);
    // Spot-check the endpoint's immediate neighbors survive.
    let ip = parse_ip4("79.127.160.216").unwrap();
    assert!(!result.iter().any(|n| n.contains_ip(ip)));
    assert!(result.iter().any(|n| n.contains_ip(ip - 1)));
    assert!(result.iter().any(|n| n.contains_ip(ip + 1)));
}

#[test]
fn exclude_nothing_is_everything() {
    assert_eq!(exclude_from_full(&[]), vec![c("0.0.0.0/0")]);
}

#[test]
fn exclude_everything_is_nothing() {
    assert!(exclude_from_full(&[c("0.0.0.0/0")]).is_empty());
}

#[test]
fn overlapping_holes_do_not_double_remove() {
    // /10 already inside a /8 hole: result identical to /8 alone.
    let with_both = exclude_from_full(&[c("100.0.0.0/8"), c("100.64.0.0/10")]);
    let with_one = exclude_from_full(&[c("100.0.0.0/8")]);
    assert_eq!(with_both, with_one);
    assert_exact_cover(&with_one, &[c("100.0.0.0/8")]);
}

// ---- Comparing locations ----

fn headers(list: &[(&str, &str)]) -> TextMap<String> {
    let mut map = TextMap::new();
    for (name, value) in list {
        map.insert(name.to_string(), value.to_string());
    }
    map
}

fn head(stdout: &str) -> Head {
    parse_head(stdout)
}

#[test]
fn parse_head_extracts_status_and_lowercased_headers() {
    let out = format!(
        "HTTP/2 200 \nContent-Type: text/html\nCF-Cache-Status: HIT\n\n{OUTPUT_MARKER}200"
    );
    let h = head(&out);
    assert_eq!(h.status, Some(200));
    assert_eq!(h.headers.get("content-type").unwrap(), "text/html");
    assert_eq!(h.headers.get("cf-cache-status").unwrap(), "HIT");
}

#[test]
fn parse_head_tolerates_missing_marker_and_values_with_colons() {
    let h = head("HTTP/1.1 302 Found\nLocation: https://x.example/a:b\n\n");
    assert_eq!(h.status, None);
    assert_eq!(h.headers.get("location").unwrap(), "https://x.example/a:b");
}

fn loc(name: &str, status: u16, hs: &[(&str, &str)]) -> LocationResult {
    LocationResult {
        name: name.to_string(),
        ok: true,
        status: Some(status),
        headers: headers(hs),
        exit_ip: None,
        error: None,
    }
}

#[test]
fn diff_fields_reports_only_varying_fields() {
    let results = vec![
        loc(
            "us",
            200,
            &[("cf-cache-status", "HIT"), ("server", "cloudflare")],
        ),
        loc(
            "br",
            200,
            &[("cf-cache-status", "MISS"), ("server", "cloudflare")],
        ),
    ];
    let diffs = diff_fields(&results);
    assert_eq!(diffs.len(), 1, "only cf-cache-status varies");
    assert_eq!(diffs[0].field, "cf-cache-status");
    assert_eq!(diffs[0].values.get("us").unwrap().as_deref(), Some("HIT"));
    assert_eq!(diffs[0].values.get("br").unwrap().as_deref(), Some("MISS"));
}

#[test]
fn diff_fields_flags_status_and_absent_headers() {
    let results = vec![
        loc("us", 200, &[("x-geo", "us")]),
        loc("au", 302, &[]), // different status, and x-geo absent
    ];
    let diffs = diff_fields(&results);
    let fields: BTreeSet<&str> = diffs.iter().map(|d| d.field.as_str()).collect();
    assert!(fields.contains("status"));
    assert!(fields.contains("x-geo"));
    let geo = diffs.iter().find(|d| d.field == "x-geo").unwrap();
    assert_eq!(*geo.values.get("au").unwrap(), None, "absent header recorded as None");
}

#[test]
fn diff_fields_empty_when_all_identical() {
    let results = vec![
        loc("us", 200, &[("server", "nginx")]),
        loc("br", 200, &[("server", "nginx")]),
    ];
    assert!(diff_fields(&results).is_empty());
}

#[test]
fn diff_fields_ignores_failures_and_needs_two_successes() {
    let mut failed = loc("br", 0, &[]);
    failed.ok = false;
    failed.status = None;
    failed.error = Some("timeout".into());
    let results = vec![loc("us", 200, &[("server", "nginx")]), failed];
    // Only one successful location → nothing to compare.
    assert!(diff_fields(&results).is_empty());
}

// ---- Errors ----

#[test]
fn exit_codes_are_stable() {
    assert_eq!(Error::TunnelNotFound("x".into()).exit_code(), 3);
    assert_eq!(Error::InvalidName("x".into()).exit_code(), 4);
    assert_eq!(
        Error::Backend {
            program: "wg-quick".into(),
            code: 1,
            stderr: "boom".into(),
        }
        .exit_code(),
        5
    );
    assert_eq!(
        Error::Spawn {
            program: "wg".into(),
            source: "nope".into(),
        }
        .exit_code(),
        6
    );
    assert_eq!(
        Error::ConfigDir(
            "/x".into(),
            "denied".into(),
        )
        .exit_code(),
        1
    );
    assert_eq!(
        Error::ConfigParse {
            path: "/x/config.toml".into(),
            message: "bad".into(),
        }
        .exit_code(),
        1
    );
    assert_eq!(
        Error::TunnelConfRead {
            path: "/x/t.conf".into(),
            source: "denied".into(),
        }
        .exit_code(),
        1
    );
    assert_eq!(
        Error::TunnelConfPeer {
            path: "/x/t.conf".into(),
        }
        .exit_code(),
        1
    );
}

#[test]
fn messages_are_descriptive() {
    assert!(Error::TunnelNotFound("home".into())
        .to_string()
        .contains("home"));
    assert!(Error::InvalidName("bad name".into())
        .to_string()
        .contains("bad name"));
    assert!(Error::Backend {
        program: "wg-quick".into(),
        code: 2,
        stderr: "denied".into(),
    }
    .to_string()
    .contains("denied"));
    assert!(Error::Spawn {
        program: "wg".into(),
        source: "nope".into(),
    }
    .to_string()
    .contains("wg"));
    assert!(Error::ConfigDir(
        "/etc/x".into(),
        "gone".into(),
    )
    .to_string()
    .contains("/etc/x"));
    assert!(Error::ConfigParse {
        path: "/etc/vpn/config.toml".into(),
        message: "unknown key 'foo'".into(),
    }
    .to_string()
    .contains("unknown key 'foo'"));
    assert!(Error::TunnelConfRead {
        path: "/x/proton.conf".into(),
        source: "denied".into(),
    }
    .to_string()
    .contains("proton.conf"));
    assert!(Error::TunnelConfPeer {
        path: "/x/proton.conf".into(),
    }
    .to_string()
    .contains("[Peer] PublicKey"));
}

// ---- Lint ----

fn good_summary() -> ConfSummary {
    ConfSummary {
        has_private_key: true,
        peer_public_key: Some("PEER=".to_string()),
        allowed_ips: vec!["0.0.0.0/0".to_string(), "::/0".to_string()],
        endpoint: Some("79.127.160.216:51820".to_string()),
        has_dns: false,
        dns_servers: Vec::new(),
        exec_hooks: Vec::new(),
    }
}

#[test]
fn clean_config_is_ok() {
    let result = lint::lint("proton", &good_summary());
    assert!(result.ok);
    assert!(result.findings.is_empty());
}

#[test]
fn missing_keys_are_errors() {
    let summary = ConfSummary {
        has_private_key: false,
        peer_public_key: None,
        ..good_summary()
    };
    let result = lint::lint("bad", &summary);
    assert!(!result.ok);
    assert_eq!(result.findings.len(), 2);
    assert!(result
        .findings
        .iter()
        .all(|f| f.severity == Severity::Error));
}

#[test]
fn missing_endpoint_is_a_warning_only() {
    let summary = ConfSummary {
        endpoint: None,
        ..good_summary()
    };
    let result = lint::lint("srv", &summary);
    assert!(result.ok, "warnings alone keep ok=true");
    assert_eq!(result.findings[0].severity, Severity::Warning);
    assert!(result.findings[0].message.contains("no Endpoint"));
}

#[test]
fn detects_the_live_routing_loop() {
    // The exact broken config from live testing: split AllowedIPs where
    // 64.0.0.0/3 covered the 79.127.160.216 endpoint.
    let summary = ConfSummary {
        allowed_ips: vec![
            "0.0.0.0/2".to_string(),
            "64.0.0.0/3".to_string(),
            "96.0.0.0/6".to_string(),
            "::/0".to_string(),
        ],
        ..good_summary()
    };
    let result = lint::lint("proton-ts", &summary);
    assert!(!result.ok);
    let msg = &result.findings[0].message;
    assert!(msg.contains("routing loop"));
    assert!(msg.contains("64.0.0.0/3"));
    assert!(msg.contains("79.127.160.216"));
}

#[test]
fn full_tunnel_default_route_is_not_a_loop() {
    // 0.0.0.0/0 covers every endpoint, but wg-quick adds a bypass.
    let result = lint::lint("proton", &good_summary());
    assert!(result.ok);
}

#[test]
fn split_tunnel_excluding_endpoint_is_ok() {
    let summary = ConfSummary {
        allowed_ips: vec![
            "0.0.0.0/2".to_string(),
            "64.0.0.0/5".to_string(), // 64-71: does NOT cover 79.x
            "128.0.0.0/1".to_string(),
            "::/0".to_string(),
        ],
        ..good_summary()
    };
    assert!(lint::lint("split", &summary).ok);
}

#[test]
fn hostname_and_v6_endpoints_skip_the_static_check() {
    for endpoint in ["vpn.example.com:51820", "[2a07:b944::1]:51820"] {
        let summary = ConfSummary {
            endpoint: Some(endpoint.to_string()),
            allowed_ips: vec!["64.0.0.0/3".to_string()],
            ..good_summary()
        };
        assert!(lint::lint("host", &summary).ok, "cannot verify {endpoint}");
    }
}

#[test]
fn unparseable_allowed_entries_are_skipped() {
    let summary = ConfSummary {
        allowed_ips: vec!["not-a-cidr".to_string(), "2a07:b944::/32".to_string()],
        ..good_summary()
    };
    assert!(lint::lint("odd", &summary).ok);
}

#[test]
fn findings_sort_errors_first() {
    let summary = ConfSummary {
        has_private_key: false, // error
        endpoint: None,         // warning
        ..good_summary()
    };
    let result = lint::lint("mixed", &summary);
    assert_eq!(result.findings[0].severity, Severity::Error);
    assert_eq!(result.findings.last().unwrap().severity, Severity::Warning);
}

// ---- Probes ----

/// Each text of seconds as tenths of a millisecond.
fn seconds(fields: Option<Vec<String>>) -> Vec<Option<i64>> {
    fields
        .unwrap_or_default()
        .iter()
        .map(|f| f.trim().parse::<f64>().ok().map(|v| (v * 10_000.0).round() as i64))
        .collect()
}

fn curl_output(s: &str) -> Result<(Timings, Option<String>, Option<u16>), String> {
    parse_curl_output(s, &seconds(curl_time_fields(s)))
}

fn probe_output(s: &str) -> Result<Sample, String> {
    parse_probe_output(s, &seconds(probe_time_fields(s)))
}

#[test]
fn parse_full_output() {
    let (t, ip, code) =
        curl_output("0.004000,0.012000,0.140000,0.290000,0.291000,104.16.132.229,200")
            .unwrap();
    assert_eq!(t.dns_tenths, 40);
    assert_eq!(t.connect_tenths, 120);
    assert_eq!(t.tls_tenths, 1400);
    assert_eq!(t.ttfb_tenths, 2900);
    assert_eq!(t.total_tenths, 2910);
    assert_eq!(ip.as_deref(), Some("104.16.132.229"));
    assert_eq!(code, Some(200));
}

#[test]
fn parse_absent_ip_and_code() {
    let (_, ip, code) = curl_output("0,0,0,0,0,,000").unwrap();
    assert_eq!(ip, None);
    assert_eq!(code, None);
}

#[test]
fn parse_rejects_wrong_field_count() {
    let err = curl_output("1,2,3").unwrap_err();
    assert!(err.contains("expected 7 fields"));
}

#[test]
fn parse_rejects_non_numeric_time() {
    let err = curl_output("a,0,0,0,0,,200").unwrap_err();
    assert!(err.contains("not a number"));
}

#[test]
fn total_ms_is_infinite_for_failures() {
    let r = ProbeResult::new("x", "https://example.com", true);
    assert_eq!(r.total_tenths(), None, "no finite total");
    assert!(!r.ok);
    assert!(r.activated);
    assert_eq!(r.samples, 0);
    assert_eq!(r.failures, 0);
}

fn t(total: i64, ttfb: i64) -> Timings {
    Timings {
        dns_tenths: 10,
        connect_tenths: 20,
        tls_tenths: 30,
        ttfb_tenths: ttfb,
        total_tenths: total,
    }
}

#[test]
fn parse_trace_body_extracts_exit_evidence() {
    let body =
        "fl=123abc\nip=203.0.113.99\nts=1700000000\nloc=US\ncolo=EWR\nvisit_scheme=https\n";
    let trace = parse_trace_body(body).unwrap();
    assert_eq!(trace.ip, "203.0.113.99");
    assert_eq!(trace.loc.as_deref(), Some("US"));
    assert_eq!(trace.colo.as_deref(), Some("EWR"));
}

#[test]
fn parse_trace_body_requires_ip() {
    assert!(parse_trace_body("loc=US\ncolo=EWR\n").is_none());
    assert!(parse_trace_body("").is_none());
    assert!(parse_trace_body("<html>not a trace</html>").is_none());
    assert!(parse_trace_body("ip=\nloc=US\n").is_none());
}

#[test]
fn parse_probe_output_with_body_and_marker() {
    let stdout = format!(
        "ip=1.2.3.4\nloc=JP\ncolo=NRT\n{OUTPUT_MARKER}0.001,0.002,0.003,0.100,0.101,9.9.9.9,200"
    );
    let sample = probe_output(&stdout).unwrap();
    assert_eq!(sample.timings.total_tenths, 1010);
    assert_eq!(sample.remote_ip.as_deref(), Some("9.9.9.9"));
    assert_eq!(sample.http_code, Some(200));
    let trace = sample.trace.unwrap();
    assert_eq!(trace.ip, "1.2.3.4");
    assert_eq!(trace.colo.as_deref(), Some("NRT"));
}

#[test]
fn parse_probe_output_without_marker_is_metadata_only() {
    let sample = probe_output("0.001,0.002,0.003,0.100,0.101,9.9.9.9,200").unwrap();
    assert_eq!(sample.timings.total_tenths, 1010);
    assert!(sample.trace.is_none());
}

#[test]
fn parse_probe_output_empty_body_has_no_trace() {
    let stdout = format!("\n{OUTPUT_MARKER}0,0,0,0,0,,200");
    let sample = probe_output(&stdout).unwrap();
    assert!(sample.trace.is_none());
}

#[test]
fn parse_probe_output_rejects_garbage_metadata() {
    let stdout = format!("ip=1.2.3.4\n{OUTPUT_MARKER}<html>portal</html>");
    assert!(probe_output(&stdout).is_err());
}

#[test]
fn compute_stats_empty_is_none() {
    assert!(compute_stats(&vec![]).is_none());
}

#[test]
fn compute_stats_single_sample() {
    let (stats, idx) = compute_stats(&vec![t(1000, 900)]).unwrap();
    assert_eq!(idx, 0);
    assert_eq!(stats.min_total_tenths, 1000);
    assert_eq!(stats.median_total_tenths, 1000);
    assert_eq!(stats.max_total_tenths, 1000);
    assert_eq!(stats.median_ttfb_tenths, 900);
}

#[test]
fn compute_stats_odd_count_picks_true_median() {
    // Out of order on purpose: 300, 100, 200 -> median 200 at index 2.
    let samples = vec![t(3000, 2900), t(1000, 900), t(2000, 1900)];
    let (stats, idx) = compute_stats(&samples).unwrap();
    assert_eq!(idx, 2);
    assert_eq!(stats.min_total_tenths, 1000);
    assert_eq!(stats.median_total_tenths, 2000);
    assert_eq!(stats.max_total_tenths, 3000);
    assert_eq!(stats.median_ttfb_tenths, 1900);
}

#[test]
fn compute_stats_even_count_picks_upper_middle() {
    let samples = vec![
        t(1000, 900),
        t(4000, 3900),
        t(2000, 1900),
        t(3000, 2900),
    ];
    let (stats, idx) = compute_stats(&samples).unwrap();
    // Sorted totals: 100,200,300,400 -> upper-middle 300 at index 3.
    assert_eq!(idx, 3);
    assert_eq!(stats.median_total_tenths, 3000);
    assert_eq!(stats.min_total_tenths, 1000);
    assert_eq!(stats.max_total_tenths, 4000);
}

// ---- Commands ----

#[test]
fn success_reflects_exit_code() {
    let ok = CommandOutput {
        code: Some(0),
        stdout: String::new(),
        stderr: String::new(),
    };
    assert!(ok.success());
    let bad = CommandOutput {
        code: Some(1),
        stdout: String::new(),
        stderr: String::new(),
    };
    assert!(!bad.success());
    let killed = CommandOutput {
        code: None,
        stdout: String::new(),
        stderr: String::new(),
    };
    assert!(!killed.success());
}

// ---- Settings ----

#[test]
fn parse_full_config() {
    let cfg = settings::parse(
        "# comment\n\
         sudo = true\n\
         wg = \"/opt/homebrew/bin/wg\"\n\
         wg_quick = '/opt/homebrew/bin/wg-quick'\n\
         \n\
         curl = /usr/bin/curl\n",
    )
    .unwrap();
    assert_eq!(cfg.sudo, Some(true));
    assert_eq!(cfg.wg.as_deref(), Some("/opt/homebrew/bin/wg"));
    assert_eq!(cfg.wg_quick.as_deref(), Some("/opt/homebrew/bin/wg-quick"));
    assert_eq!(cfg.curl.as_deref(), Some("/usr/bin/curl"));
}

#[test]
fn parse_empty_is_default() {
    assert_eq!(
        settings::parse("\n#only comments\n   \n").unwrap(),
        FileConfig { sudo: None, wg: None, wg_quick: None, curl: None }
    );
}

#[test]
fn parse_sudo_false() {
    assert_eq!(settings::parse("sudo = false").unwrap().sudo, Some(false));
}

#[test]
fn parse_rejects_missing_equals() {
    let err = settings::parse("sudo true").unwrap_err();
    assert!(err.contains("line 1"));
    assert!(err.contains("key = value"));
}

#[test]
fn parse_rejects_unknown_key() {
    let err = settings::parse("bogus = 1").unwrap_err();
    assert!(err.contains("unknown key 'bogus'"));
}

#[test]
fn parse_rejects_bad_bool() {
    let err = settings::parse("sudo = yes").unwrap_err();
    assert!(err.contains("true") && err.contains("yes"));
}

#[test]
fn unquote_variants() {
    assert_eq!(settings::unquote("\"x\""), "x");
    assert_eq!(settings::unquote("'x'"), "x");
    assert_eq!(settings::unquote("x"), "x");
    assert_eq!(settings::unquote("\"mismatch'"), "\"mismatch'");
    assert_eq!(settings::unquote("\""), "\"");
}


// ---- Reconciliation ----

fn snapshot() -> TextMap<Vec<String>> {
    let mut map = TextMap::new();
    map.insert("Wi-Fi".to_string(), vec!["10.19.16.1".to_string()]);
    map
}

fn journal(phase: Phase) -> Journal {
    Journal {
        tunnel: "proton".to_string(),
        phase,
        interface: Some("utun4".to_string()),
        lease_deadline: None,
        dns_snapshot: snapshot(),
        tunnel_dns: vec!["10.2.0.1".to_string()],
    }
}

#[test]
fn reconcile_active_and_live_within_lease_is_healthy() {
    let mut j = journal(Phase::Active);
    j.lease_deadline = Some(1000);
    assert_eq!(reconcile_one(&j, true, 999), Reconciliation::Healthy);
}

#[test]
fn reconcile_active_but_dead_interface_recovers_without_teardown() {
    let j = journal(Phase::Active);
    assert_eq!(
        reconcile_one(&j, false, 0),
        Reconciliation::Recover {
            tear_down: false,
            reason: RecoverReason::InterfaceGone,
        }
    );
}

#[test]
fn reconcile_expired_lease_tears_down() {
    let mut j = journal(Phase::Active);
    j.lease_deadline = Some(1000);
    assert_eq!(
        reconcile_one(&j, true, 1000),
        Reconciliation::Recover {
            tear_down: true,
            reason: RecoverReason::LeaseExpired,
        }
    );
}

#[test]
fn reconcile_interrupted_up_tears_down_only_if_live() {
    let j = journal(Phase::UpPending);
    assert!(matches!(
        reconcile_one(&j, true, 0),
        Reconciliation::Recover {
            tear_down: true,
            reason: RecoverReason::InterruptedUp
        }
    ));
    assert!(matches!(
        reconcile_one(&j, false, 0),
        Reconciliation::Recover {
            tear_down: false,
            ..
        }
    ));
}

#[test]
fn reconcile_interrupted_down_finishes_teardown() {
    let j = journal(Phase::DownPending);
    assert!(matches!(
        reconcile_one(&j, true, 0),
        Reconciliation::Recover {
            tear_down: true,
            reason: RecoverReason::InterruptedDown
        }
    ));
}

#[test]
fn reconcile_invariants_hold_across_the_whole_input_space() {
    // Exhaustively enumerate every (phase, live, lease, now) combination and
    // assert the two safety invariants of the reconcile decision:
    //   1. Healthy IFF the tunnel is Active, live, and within its lease.
    //   2. We never tear down an interface that is not live.
    // This is the crash-recovery core: if it is sound, no interrupted
    // sequence can leave the host in a state reconcile won't fix.
    let phases = [Phase::UpPending, Phase::Active, Phase::DownPending];
    let leases = [None, Some(500u64)];
    let nows = [0u64, 499, 500, 501, 1_000];
    for phase in phases {
        for &live in &[true, false] {
            for lease in leases {
                for now in nows {
                    let j = Journal {
                        tunnel: "t".to_string(),
                        phase,
                        interface: Some("utun0".to_string()),
                        lease_deadline: lease,
                        dns_snapshot: TextMap::new(),
                        tunnel_dns: Vec::new(),
                    };
                    let decision = reconcile_one(&j, live, now);
                    let expired = lease.is_some_and(|d| now >= d);
                    let expect_healthy = phase == Phase::Active && live && !expired;
                    assert_eq!(
                        matches!(decision, Reconciliation::Healthy),
                        expect_healthy,
                        "phase={phase:?} live={live} lease={lease:?} now={now}"
                    );
                    if let Reconciliation::Recover { tear_down, .. } = decision {
                        assert!(
                            !tear_down || live,
                            "never tear down a dead interface: \
                             phase={phase:?} live={live} lease={lease:?} now={now}"
                        );
                    }
                }
            }
        }
    }
}

#[test]
fn lease_expired_boundary() {
    let mut j = journal(Phase::Active);
    assert!(!j.lease_expired(5));
    j.lease_deadline = Some(10);
    assert!(!j.lease_expired(9));
    assert!(j.lease_expired(10));
    assert!(j.lease_expired(11));
}

// ---- Live status ----

fn normalized(items: &[&str]) -> Vec<String> {
    normalize_allowed(&items.iter().map(|s| s.to_string()).collect())
}

const ALL_DUMP: &str = "utun7\tIFPRIV\tIFPUB\t51820\toff\n\
    utun7\tPEERKEY\t(none)\t203.0.113.1:51820\t0.0.0.0/0,::/0\t1700000000\t1024\t2048\t25\n\
    utun9\tIFPRIV2\tIFPUB2\t51821\toff\n\
    utun9\tPEER2\tPSK\t(none)\t(none)\t0\t0\t0\toff\n";

#[test]
fn down_helper() {
    let s = TunnelStatus::down("home");
    assert!(!s.up);
    assert_eq!(s.name, "home");
    assert!(s.interface.is_none());
    assert!(s.peers.is_empty());
}

#[test]
fn parse_all_dump_extracts_tagged_peers() {
    let peers = parse_all_dump(ALL_DUMP);
    assert_eq!(peers.len(), 2);

    let p0 = &peers[0];
    assert_eq!(p0.interface, "utun7");
    assert_eq!(p0.peer.public_key, "PEERKEY");
    assert_eq!(p0.peer.endpoint.as_deref(), Some("203.0.113.1:51820"));
    assert_eq!(p0.peer.latest_handshake, Some(1_700_000_000));
    assert_eq!(p0.peer.transfer_rx, 1024);
    assert_eq!(p0.peer.transfer_tx, 2048);
    assert_eq!(p0.peer.allowed_ips, vec!["0.0.0.0/0", "::/0"]);

    let p1 = &peers[1];
    assert_eq!(p1.interface, "utun9");
    assert_eq!(p1.peer.endpoint, None);
    assert_eq!(p1.peer.latest_handshake, None);
    assert!(p1.peer.allowed_ips.is_empty());
}

#[test]
fn parse_all_dump_skips_malformed_and_empty() {
    assert!(parse_all_dump("").is_empty());
    assert!(parse_all_dump("just one field\n\nTOO\tFEW\tFIELDS\n").is_empty());
}

#[test]
fn parse_all_dump_defaults_bad_numbers_to_zero() {
    let dump = "wg0\tK\tP\te:1\t10.0.0.0/8\tnotanum\tx\ty\toff\n";
    let peers = parse_all_dump(dump);
    assert_eq!(peers.len(), 1);
    assert_eq!(peers[0].peer.latest_handshake, None);
    assert_eq!(peers[0].peer.transfer_rx, 0);
    assert_eq!(peers[0].peer.transfer_tx, 0);
}

#[test]
fn normalize_allowed_sorts_trims_and_dedups() {
    let norm = normalized(&[" ::/0", "0.0.0.0/0 ", "::/0", ""]);
    assert_eq!(norm, vec!["0.0.0.0/0", "::/0"]);
    // Conf-style with spaces equals dump-style without.
    assert_eq!(
        normalized(&["0.0.0.0/0", " ::/0"]),
        normalized(&["::/0", "0.0.0.0/0"]),
    );
    assert!(normalized(&[]).is_empty());
}

#[test]
fn normalize_allowed_lowercases_ipv6() {
    assert_eq!(
        normalized(&["2A07:B944::2:2/128"]),
        vec!["2a07:b944::2:2/128"]
    );
}

// ---- Further cases ----

#[test]
fn addresses_are_four_octets() {
    assert_eq!(parse_ip4("0.0.0.0"), Ok(0));
    assert_eq!(parse_ip4("255.255.255.255"), Ok(u32::MAX));
    assert_eq!(parse_ip4("79.127.160.216"), Ok(0x4f7f_a0d8));
    for bad in ["", "1.2.3", "1.2.3.4.5", "1.2.3.256", "1.2.3.x", "1..2.3"] {
        assert!(parse_ip4(bad).is_err(), "{bad}");
    }
}

#[test]
fn networks_parse_back_from_their_text() {
    for text in ["0.0.0.0/0", "10.0.0.0/8", "100.64.0.0/10", "1.2.3.4/32"] {
        let net = c(text);
        assert_eq!(net.to_string(), text);
        assert_eq!(Cidr4::parse(&net.to_string()), Ok(net));
    }
    // An address alone is a network of one.
    assert_eq!(Cidr4::parse("1.2.3.4"), Cidr4::parse("1.2.3.4/32"));
}

#[test]
fn what_is_excluded_is_kept_out_and_nothing_else() {
    let holes = [c("10.0.0.0/8"), c("10.1.0.0/16"), c("192.168.1.1/32")];
    let nets = exclude_from_full(&holes);
    for ip in ["9.255.255.255", "11.0.0.0", "192.168.1.0", "192.168.1.2", "0.0.0.0", "255.255.255.255"]
    {
        let ip = parse_ip4(ip).unwrap();
        assert_eq!(nets.iter().filter(|n| n.contains_ip(ip)).count(), 1);
    }
    for ip in ["10.0.0.0", "10.1.2.3", "10.255.255.255", "192.168.1.1"] {
        let ip = parse_ip4(ip).unwrap();
        assert!(!nets.iter().any(|n| n.contains_ip(ip)));
    }
    // In the order of their addresses.
    assert!(nets.windows(2).all(|w| w[0].base < w[1].base));
}

#[test]
fn normalizing_again_changes_nothing() {
    let once = normalized(&["B::/8", " 10.0.0.0/8", "b::/8", ""]);
    assert_eq!(once, vec!["10.0.0.0/8", "b::/8"]);
    assert_eq!(normalize_allowed(&once), once);
}

#[test]
fn stats_are_of_the_samples() {
    let samples = vec![t(500, 50), t(100, 10), t(300, 30), t(300, 31)];
    let (stats, at) = compute_stats(&samples).unwrap();
    assert_eq!((stats.min_total_tenths, stats.max_total_tenths), (100, 500));
    assert_eq!(stats.median_total_tenths, samples[at].total_tenths);
    assert_eq!(stats.median_ttfb_tenths, samples[at].ttfb_tenths);
    // Of equal totals, the later one is in the upper middle.
    assert_eq!(at, 3);
}

#[test]
fn no_difference_between_equal_locations() {
    let same = || loc("us", 200, &[("server", "nginx"), ("age", "1")]);
    assert!(diff_fields(&vec![same(), same()]).is_empty());
    let diffs = diff_fields(&vec![
        loc("us", 200, &[("age", "1")]),
        loc("br", 301, &[("age", "2"), ("via", "x")]),
    ]);
    let fields: Vec<&str> = diffs.iter().map(|d| d.field.as_str()).collect();
    assert_eq!(fields, vec!["status", "age", "via"]);
    assert_eq!(diffs[0].values.get("br").unwrap().as_deref(), Some("301"));
}

#[test]
fn lint_flags_shell_hooks() {
    let summary = ConfSummary { exec_hooks: vec!["PostUp".into()], ..good_summary() };
    let result = lint::lint("hooked", &summary);
    assert!(!result.ok);
    assert!(result.findings[0].message.contains("PostUp"));
}

#[test]
fn hooks_are_recognized_in_any_case() {
    for (key, name) in [
        ("PreUp", "PreUp"),
        ("postup", "PostUp"),
        ("PREDOWN", "PreDown"),
        ("PostDown", "PostDown"),
    ] {
        assert_eq!(exec_hook_name(key).as_deref(), Some(name));
    }
    assert_eq!(exec_hook_name("DNS"), None);
}

#[test]
fn paths_and_file_names() {
    assert_eq!(path_file_name("/a/b.conf").as_deref(), Some("b.conf"));
    assert_eq!(path_file_name("b.conf/").as_deref(), Some("b.conf"));
    assert_eq!(path_file_name("/a/.."), None);
    assert_eq!(split_extension("a.b.conf"), ("a.b".to_string(), Some("conf".to_string())));
    assert_eq!(split_extension(".conf"), (".conf".to_string(), None));
    assert_eq!(split_extension("plain"), ("plain".to_string(), None));
    assert_eq!(tunnel_from_path("/x/home.conf").unwrap().name, "home");
    assert_eq!(tunnel_from_path("/x/has space.conf"), None);
}

#[test]
fn texts_of_any_characters() {
    let snow: Vec<char> = "a☃é".chars().collect();
    assert_eq!(text::chars_of("a☃é"), snow);
    assert_eq!(text::text_of(&snow, 1, 3), "☃é");
    assert_eq!(text::text_trim("\u{a0} ☃ \t"), "☃");
    assert_eq!(text::text_lower("ÀB-Z☃"), "Àb-z☃".to_ascii_lowercase());
    assert_eq!(text::text_lines("a\r\n\nb"), vec!["a", "", "b"]);
    assert_eq!(text::text_parse("+42", 100), Some(42));
    assert_eq!(text::text_parse("101", 100), None);
    assert_eq!(text::text_parse("", 100), None);
    assert_eq!(text::text_signed(i64::MIN), i64::MIN.to_string());
    assert_eq!(text::text_number(u64::MAX), u64::MAX.to_string());
}

#[test]
fn every_error_has_its_message_and_code() {
    let cases = [
        (Error::TunnelNotFound("x".into()), 3, "tunnel 'x' not found in config directory"),
        (
            Error::InvalidName("a b".into()),
            4,
            "invalid tunnel name 'a b' (allowed: letters, digits and _=+.- up to 15 chars)",
        ),
        (
            Error::ConfigDir("/c".into(), "denied".into()),
            1,
            "config directory '/c' could not be read: denied",
        ),
        (
            Error::ConfigParse { path: "/c/config.toml".into(), message: "bad".into() },
            1,
            "config file '/c/config.toml' is invalid: bad",
        ),
        (
            Error::TunnelConfRead { path: "/c/x.conf".into(), source: "gone".into() },
            1,
            "tunnel config '/c/x.conf' could not be read: gone",
        ),
        (
            Error::TunnelConfPeer { path: "/c/x.conf".into() },
            1,
            "tunnel config '/c/x.conf' has no [Peer] PublicKey",
        ),
        (
            Error::Backend { program: "wg".into(), code: -1, stderr: "killed".into() },
            5,
            "wg failed (exit -1): killed",
        ),
        (
            Error::Spawn { program: "wg".into(), source: "missing".into() },
            6,
            "failed to run 'wg': missing (is it installed and on PATH?)",
        ),
    ];
    for (err, code, message) in cases {
        assert_eq!(err.exit_code(), code);
        assert_eq!(err.to_string(), message);
    }
    assert_eq!(Error::Refused("no".into()).exit_code(), 1);
    assert_eq!(Error::Write { path: "/x".into(), source: "full".into() }.exit_code(), 1);
}

#[test]
fn maps_keep_their_keys_in_order() {
    let mut map = TextMap::new();
    for (key, value) in [("b", 1), ("a", 2), ("c", 3), ("b", 4)] {
        map.insert(key.to_string(), value.to_string());
    }
    assert_eq!(map.len(), 3);
    assert!(!map.is_empty());
    assert_eq!(map.get("b").unwrap(), "4");
    assert_eq!(map.get("d"), None);
    let keys: Vec<&str> = map.entries().iter().map(|(k, _)| k.as_str()).collect();
    assert_eq!(keys, vec!["a", "b", "c"]);
}

#[test]
fn recovery_reasons_are_described() {
    assert_eq!(RecoverReason::LeaseExpired.describe(), "lease expired");
    assert_eq!(
        RecoverReason::InterfaceGone.describe(),
        "tunnel interface vanished (crash or reboot)"
    );
}

#[test]
fn differences_do_not_depend_on_the_order_of_locations() {
    let us = || loc("us", 200, &[("server", "a"), ("x-only", "1")]);
    let br = || loc("br", 301, &[("server", "b")]);
    let jp = || loc("jp", 200, &[("server", "a")]);
    let down = || LocationResult { ok: false, status: None, ..loc("nl", 500, &[("server", "z")]) };
    let all = diff_fields(&vec![us(), br(), jp(), down()]);
    let fields: Vec<&str> = all.iter().map(|d| d.field.as_str()).collect();
    assert_eq!(fields, ["status", "server", "x-only"]);
    assert_eq!(diff_fields(&vec![jp(), down(), br(), us()]), all);
    assert_eq!(diff_fields(&vec![br(), jp(), us()]), all);
    assert!(diff_fields(&vec![us(), down()]).is_empty());
}

#[test]
fn a_dump_may_be_read_in_parts() {
    let row = "utun7\tKEY\t(none)\t(none)\t0.0.0.0/0\t0\t1\t2\toff";
    let first = format!("utun7\tIFPRIV\tIFPUB\t51820\toff\r\n{row}\r\n");
    let second = format!("{}\n{row}", row.replace("utun7", "utun8"));
    let mut parts = parse_all_dump(&first);
    assert_eq!(parts.len(), 1);
    parts.extend(parse_all_dump(&second));
    assert_eq!(parse_all_dump(&format!("{first}{second}")), parts);
    assert_eq!(parts.len(), 3);
}
