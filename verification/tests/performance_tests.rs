use riddler::headers::TextMap;
use riddler::http_client::HttpResponseInfo;
use riddler::performance_analyzer::{performance_test_request, performance_test_schedule, TestStep};
use riddler::performance_analyzer::{
    analyze_response, build_metrics, determine_severity, estimate_connection_times, generate_analysis,
    generate_recommendations, generate_summary_report, severity_label, slow_run_indices, PerformanceAnalysis,
    PerformanceSeverity,
};

fn response(body: &str, url: &str) -> HttpResponseInfo {
    HttpResponseInfo {
        status: 200,
        headers: TextMap::new(),
        body: body.to_string(),
        cookies: Vec::new(),
        response_time_ms: 0,
        final_url: url.to_string(),
    }
}

fn run(total: u64) -> PerformanceAnalysis {
    let metrics = build_metrics(&response("", "http://x/"), total);
    PerformanceAnalysis {
        url: "http://x/".to_string(),
        metrics,
        analysis: String::new(),
        recommendations: Vec::new(),
        severity: determine_severity(total),
    }
}

#[test]
fn severity_boundaries() {
    assert_eq!(determine_severity(0), PerformanceSeverity::Excellent);
    assert_eq!(determine_severity(99), PerformanceSeverity::Excellent);
    assert_eq!(determine_severity(100), PerformanceSeverity::Good);
    assert_eq!(determine_severity(500), PerformanceSeverity::Good);
    assert_eq!(determine_severity(501), PerformanceSeverity::Average);
    assert_eq!(determine_severity(1000), PerformanceSeverity::Average);
    assert_eq!(determine_severity(1001), PerformanceSeverity::Poor);
    assert_eq!(determine_severity(3000), PerformanceSeverity::Poor);
    assert_eq!(determine_severity(3001), PerformanceSeverity::Critical);
    assert_eq!(determine_severity(u64::MAX), PerformanceSeverity::Critical);
}

#[test]
fn severity_never_improves_with_time() {
    let rank = |s: PerformanceSeverity| match s {
        PerformanceSeverity::Excellent => 0,
        PerformanceSeverity::Good => 1,
        PerformanceSeverity::Average => 2,
        PerformanceSeverity::Poor => 3,
        PerformanceSeverity::Critical => 4,
    };
    let times = [0u64, 50, 100, 101, 499, 500, 501, 999, 1000, 1001, 2999, 3000, 3001, 7000];
    for w in times.windows(2) {
        assert!(rank(determine_severity(w[0])) <= rank(determine_severity(w[1])));
    }
}

#[test]
fn connection_time_estimates() {
    assert_eq!(estimate_connection_times(0, true), (None, None, None));
    assert_eq!(estimate_connection_times(60, false), (Some(30), Some(15), None));
    assert_eq!(estimate_connection_times(60, true), (Some(30), Some(15), Some(20)));
    assert_eq!(estimate_connection_times(7000, true), (Some(50), Some(50), Some(100)));
}

#[test]
fn metrics_of_a_slow_https_response() {
    let m = build_metrics(&response("hello", "https://x/"), 4000);
    assert_eq!(m.total_time_ms, 4000);
    assert_eq!(m.response_size_bytes, 5);
    assert_eq!(m.dns_resolution_ms, Some(50));
    assert_eq!(m.tcp_connect_ms, Some(50));
    assert_eq!(m.tls_handshake_ms, Some(100));
    assert_eq!(m.request_send_ms, 50);
    assert_eq!(m.first_byte_ms, 1333);
    assert_eq!(m.response_download_ms, 2667);
    assert_eq!(m.network_conditions.latency_factors, vec!["Very high response time".to_string()]);
    assert_eq!(
        m.network_conditions.performance_bottlenecks,
        vec!["Server overload or severe network issues".to_string()]
    );
}

#[test]
fn metrics_of_a_fast_http_response() {
    let m = build_metrics(&response("", "http://x/"), 30);
    assert_eq!(m.tls_handshake_ms, None);
    assert_eq!(m.request_send_ms, 30);
    assert_eq!(m.first_byte_ms, 10);
    assert_eq!(m.response_download_ms, 20);
    assert!(m.network_conditions.latency_factors.is_empty());
    assert!(m.network_conditions.performance_bottlenecks.is_empty());
}

#[test]
fn metrics_latency_bands() {
    let moderate = build_metrics(&response("", "http://x/"), 1500);
    assert_eq!(moderate.network_conditions.latency_factors, vec!["Moderate latency detected".to_string()]);
    assert!(moderate.network_conditions.performance_bottlenecks.is_empty());
    let high = build_metrics(&response("", "http://x/"), 3000);
    assert_eq!(high.network_conditions.latency_factors, vec!["High latency connection".to_string()]);
    assert_eq!(
        high.network_conditions.performance_bottlenecks,
        vec!["Server processing or network issues".to_string()]
    );
    let big = build_metrics(&response(&"z".repeat(1_000_001), "http://x/"), 10);
    assert_eq!(big.network_conditions.latency_factors, vec!["Large response payload".to_string()]);
}

#[test]
fn recommendations_for_a_critical_large_response() {
    let mut m = build_metrics(&response("", "http://x/"), 7000);
    m.response_size_bytes = 2_000_000;
    let r = generate_recommendations(&m, true);
    assert_eq!(r.len(), 12);
    assert_eq!(r[0], "Critical: Investigate server health and network connectivity");
    assert_eq!(r[4], "Implement connection pooling to reduce connection overhead");
    assert_eq!(r[7], "Consider implementing response compression (gzip/brotli)");
    assert_eq!(r[9], "Network bandwidth appears limited - consider optimizing payload size");
    assert_eq!(r[11], "Implement retry logic with exponential backoff");
}

#[test]
fn recommendations_for_a_fast_response() {
    let m = build_metrics(&response("", "http://x/"), 10);
    assert_eq!(generate_recommendations(&m, false), vec![
        "Monitor network conditions and server response times".to_string(),
        "Implement retry logic with exponential backoff".to_string(),
    ]);
}

#[test]
fn analysis_text_of_a_critical_response() {
    let resp = response("hello", "https://x/");
    let m = build_metrics(&resp, 7000);
    let text = generate_analysis(&m, &resp, "0.00", Some("0.00"));
    let expected = "Performance Analysis for HTTP 200 response:\n\n\
• Total Response Time: 7000ms\n\
• Response Size: 5 bytes (0.00 KB)\n\
• Estimated Bandwidth: 0.00 Mbps\n\
\n⚠️  CRITICAL PERFORMANCE ISSUE DETECTED:\n\
Response time exceeds 6 seconds, indicating severe performance problems.\n\
\nIdentified Latency Factors:\n\
• Very high response time\n\
\nPerformance Bottlenecks:\n\
• Server overload or severe network issues\n";
    assert_eq!(text, expected);
}

#[test]
fn analysis_text_of_a_fast_response() {
    let resp = response("", "http://x/");
    let m = build_metrics(&resp, 0);
    let text = generate_analysis(&m, &resp, "0.00", None);
    assert_eq!(
        text,
        "Performance Analysis for HTTP 200 response:\n\n• Total Response Time: 0ms\n• Response Size: 0 bytes (0.00 KB)\n"
    );
}

#[test]
fn summary_of_no_runs() {
    assert_eq!(generate_summary_report(&[], "0.00"), "No performance data available");
}

#[test]
fn summary_counts_every_run_once() {
    let runs = vec![run(50), run(200), run(700), run(2000), run(7000), run(90)];
    let report = generate_summary_report(&runs, "2491.27");
    let expected = "=== PERFORMANCE ANALYSIS SUMMARY ===\n\n\
Total Requests: 6\n\
Average Response Time: 1673ms\n\
Minimum Response Time: 50ms\n\
Maximum Response Time: 7000ms\n\
Standard Deviation: 2491.27ms\n\
\nPerformance Distribution:\n\
• Excellent (<100ms): 2\n\
• Good (100-500ms): 1\n\
• Average (500-1000ms): 1\n\
• Poor (1000-3000ms): 1\n\
• Critical (>3000ms): 1\n\
\nFirst Request: 50ms, Later Requests Average: 1998ms\n\
\n⚠️  CRITICAL PERFORMANCE ISSUES DETECTED!\n\
Some requests exceeded 6 seconds response time.\n";
    assert_eq!(report, expected);
}

#[test]
fn average_lies_between_extremes() {
    let runs = vec![run(300), run(100), run(200)];
    let report = generate_summary_report(&runs, "81.65");
    assert!(report.contains("Average Response Time: 200ms\n"));
    assert!(report.contains("Minimum Response Time: 100ms\n"));
    assert!(report.contains("Maximum Response Time: 300ms\n"));
    assert!(report.contains("Standard Deviation: 81.65ms\n"));
    assert!(!report.contains("CRITICAL"));
}

#[test]
fn cold_start_is_detected() {
    let report = generate_summary_report(&[run(8316), run(300), run(310), run(290)], "3469.95");
    assert!(report.contains("First Request: 8316ms, Later Requests Average: 300ms\n"));
    assert!(report.contains("COLD START EFFECT DETECTED"));
    let warm = generate_summary_report(&[run(600), run(300), run(300)], "141.42");
    assert!(warm.contains("First Request: 600ms, Later Requests Average: 300ms\n"));
    assert!(!warm.contains("COLD START"));
    let single = generate_summary_report(&[run(8316)], "0.00");
    assert!(!single.contains("First Request"));
}

#[test]
fn performance_test_steps() {
    assert_eq!(performance_test_schedule(3), vec![
        TestStep::Run { iteration: 1 },
        TestStep::Pause { millis: 100 },
        TestStep::Run { iteration: 2 },
        TestStep::Pause { millis: 100 },
        TestStep::Run { iteration: 3 },
    ]);
    assert!(performance_test_schedule(0).is_empty());
    let r = performance_test_request("http://x/");
    assert_eq!(r.method, "GET");
    assert_eq!(r.url, "http://x/");
    assert_eq!(r.headers.len(), 0);
    assert!(r.body.is_none());
    assert_eq!(r.timeout_seconds, 30);
    assert!(r.follow_redirects && r.verify_ssl);
}

#[test]
fn severity_labels() {
    assert_eq!(severity_label(PerformanceSeverity::Excellent), "✅ Excellent");
    assert_eq!(severity_label(PerformanceSeverity::Good), "✅ Good");
    assert_eq!(severity_label(PerformanceSeverity::Average), "⚠️ Average");
    assert_eq!(severity_label(PerformanceSeverity::Poor), "⚠️ Poor");
    assert_eq!(severity_label(PerformanceSeverity::Critical), "❌ Critical");
}

#[test]
fn slow_runs_are_picked_out() {
    let runs = vec![run(7000), run(6000), run(100), run(6001)];
    assert_eq!(slow_run_indices(&runs), vec![0, 3]);
    assert!(slow_run_indices(&[]).is_empty());
}

#[test]
fn analysis_of_a_slow_small_response() {
    let resp = response("abc", "https://x/");
    let a = analyze_response("https://x/", &resp, 4000, "0.00", "0.00", true);
    assert_eq!(a.url, "https://x/");
    assert_eq!(a.severity, PerformanceSeverity::Critical);
    assert_eq!(a.metrics.response_size_bytes, 3);
    assert!(a.analysis.contains("• Estimated Bandwidth: 0.00 Mbps\n"));
    assert!(a.analysis.contains("Performance Warning"));
    assert_eq!(a.recommendations.len(), 6);
    assert_eq!(a.recommendations[3], "Network bandwidth appears limited - consider optimizing payload size");
}

#[test]
fn bandwidth_is_not_shown_for_an_empty_body() {
    let resp = response("", "http://x/");
    let a = analyze_response("http://x/", &resp, 50, "0.00", "9.99", true);
    assert!(!a.analysis.contains("Bandwidth"));
    assert_eq!(a.recommendations.len(), 2);
    assert_eq!(a.severity, PerformanceSeverity::Excellent);
}
