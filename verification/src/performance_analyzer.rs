//! Performance classification of responses: timing estimates, latency
//! factors, recommendations, severity and the summary over several runs.
use vstd::prelude::*;

use crate::headers::TextMap;
use crate::http_client::{HttpRequestBuilder, HttpResponseInfo};
use crate::text::{byte_len, chars_of, decimal, push_decimal, push_str, range_starts_with, starts_with, string_of_all};

verus! {

/// How a response time is classified.
#[derive(PartialEq, Eq, Structural, Clone, Copy, Debug)]
pub enum PerformanceSeverity {
    Excellent,
    Good,
    Average,
    Poor,
    Critical,
}

/// Conditions noticed on the network. The estimated bandwidth, a floating
/// point value, is derived from the response size and time by the caller.
pub struct NetworkConditions {
    pub latency_factors: Vec<String>,
    pub performance_bottlenecks: Vec<String>,
}

/// Timing and size figures of one request.
pub struct PerformanceMetrics {
    pub dns_resolution_ms: Option<u64>,
    pub tcp_connect_ms: Option<u64>,
    pub tls_handshake_ms: Option<u64>,
    pub request_send_ms: u64,
    pub first_byte_ms: u64,
    pub response_download_ms: u64,
    pub total_time_ms: u64,
    pub response_size_bytes: usize,
    pub network_conditions: NetworkConditions,
}

/// The analysis of one request.
pub struct PerformanceAnalysis {
    pub url: String,
    pub metrics: PerformanceMetrics,
    pub analysis: String,
    pub recommendations: Vec<String>,
    pub severity: PerformanceSeverity,
}

/// The texts of a list of strings.
pub open spec fn texts(v: Seq<String>) -> Seq<Seq<char>> {
    v.map_values(|s: String| s@)
}

/// The severity of a total response time: below 100 ms excellent, up to
/// 500 good, up to 1000 average, up to 3000 poor, beyond that critical.
pub open spec fn severity_of(total_time_ms: u64) -> PerformanceSeverity {
    if total_time_ms < 100 {
        PerformanceSeverity::Excellent
    } else if total_time_ms <= 500 {
        PerformanceSeverity::Good
    } else if total_time_ms <= 1000 {
        PerformanceSeverity::Average
    } else if total_time_ms <= 3000 {
        PerformanceSeverity::Poor
    } else {
        PerformanceSeverity::Critical
    }
}

/// The severity of a total response time (see `severity_of`).
pub fn determine_severity(total_time_ms: u64) -> (r: PerformanceSeverity)
    ensures
        r == severity_of(total_time_ms),
{
    if total_time_ms < 100 {
        PerformanceSeverity::Excellent
    } else if total_time_ms <= 500 {
        PerformanceSeverity::Good
    } else if total_time_ms <= 1000 {
        PerformanceSeverity::Average
    } else if total_time_ms <= 3000 {
        PerformanceSeverity::Poor
    } else {
        PerformanceSeverity::Critical
    }
}

/// Rough shares of a total time for DNS, TCP connect and TLS handshake:
/// half of the time up to 100 ms, a quarter of it up to 200 ms, and, for
/// https only, a third of it up to 300 ms; nothing for a zero time.
pub fn estimate_connection_times(total_time: u64, is_https: bool) -> (r: (
    Option<u64>,
    Option<u64>,
    Option<u64>,
))
    ensures
        total_time == 0 ==> r == (None::<u64>, None::<u64>, None::<u64>),
        total_time > 0 ==> r == (
            Some((if total_time < 100 { total_time } else { 100 }) / 2),
            Some((if total_time < 200 { total_time } else { 200 }) / 4),
            if is_https {
                Some((if total_time < 300 { total_time } else { 300 }) / 3)
            } else {
                None
            },
        ),
{
    if total_time == 0 {
        return (None, None, None);
    }
    let dns = if total_time < 100 { total_time } else { 100 } / 2;
    let tcp = if total_time < 200 { total_time } else { 200 } / 4;
    let tls = if is_https {
        Some(if total_time < 300 { total_time } else { 300 } / 3)
    } else {
        None
    };
    (Some(dns), Some(tcp), tls)
}

/// The latency factors for a total time and a response size.
pub open spec fn latency_factors_for(total_time: u64, size: nat) -> Seq<Seq<char>> {
    let base = if total_time <= 500 {
        Seq::empty()
    } else if total_time <= 1500 {
        seq!["Moderate latency detected"@]
    } else if total_time <= 3000 {
        seq!["High latency connection"@]
    } else {
        seq!["Very high response time"@]
    };
    if size > 1_000_000 {
        base.push("Large response payload"@)
    } else {
        base
    }
}

/// The bottlenecks for a total time.
pub open spec fn bottlenecks_for(total_time: u64) -> Seq<Seq<char>> {
    if total_time <= 1500 {
        Seq::empty()
    } else if total_time <= 3000 {
        seq!["Server processing or network issues"@]
    } else {
        seq!["Server overload or severe network issues"@]
    }
}

/// `m` holds the figures of `response` when it took `total_time`
/// milliseconds: the body size in UTF-8 bytes, the connection estimates
/// (TLS only for an https final URL), up to 50 ms for sending, a third of
/// the time to the first byte and the rest for the download, and the
/// latency factors and bottlenecks of the time and size.
pub open spec fn is_metrics_of(m: PerformanceMetrics, response: HttpResponseInfo, total_time: u64) -> bool {
    &&& m.response_size_bytes == byte_len(response.body@) as usize
    &&& m.total_time_ms == total_time
    &&& (m.dns_resolution_ms, m.tcp_connect_ms, m.tls_handshake_ms) == (if total_time == 0 {
        (None::<u64>, None::<u64>, None::<u64>)
    } else {
        (
            Some((if total_time < 100 { total_time } else { 100 }) / 2),
            Some((if total_time < 200 { total_time } else { 200 }) / 4),
            if starts_with(response.final_url@, "https"@) {
                Some((if total_time < 300 { total_time } else { 300 }) / 3)
            } else {
                None
            },
        )
    })
    &&& m.request_send_ms == (if total_time < 50 {
        total_time
    } else {
        50
    })
    &&& m.first_byte_ms == total_time / 3
    &&& m.response_download_ms == total_time - total_time / 3
    &&& texts(m.network_conditions.latency_factors@) == latency_factors_for(
        total_time,
        m.response_size_bytes as nat,
    )
    &&& texts(m.network_conditions.performance_bottlenecks@) == bottlenecks_for(total_time)
}

/// The figures of a response that took `total_time` milliseconds (see
/// `is_metrics_of`).
pub fn build_metrics(response: &HttpResponseInfo, total_time: u64) -> (r: PerformanceMetrics)
    ensures
        is_metrics_of(r, *response, total_time),
{
    let response_size = response.body.as_str().len();
    let mut latency_factors: Vec<String> = Vec::new();
    let mut bottlenecks: Vec<String> = Vec::new();
    if total_time <= 500 {
    } else if total_time <= 1500 {
        latency_factors.push("Moderate latency detected".to_owned());
    } else if total_time <= 3000 {
        latency_factors.push("High latency connection".to_owned());
        bottlenecks.push("Server processing or network issues".to_owned());
    } else {
        latency_factors.push("Very high response time".to_owned());
        bottlenecks.push("Server overload or severe network issues".to_owned());
    }
    if response_size > 1_000_000 {
        latency_factors.push("Large response payload".to_owned());
    }
    assert(texts(latency_factors@) =~= latency_factors_for(total_time, response_size as nat));
    assert(texts(bottlenecks@) =~= bottlenecks_for(total_time));
    let url = chars_of(response.final_url.as_str());
    let is_https = range_starts_with(&url, 0, url.len(), &chars_of("https"));
    assert(url@.subrange(0, url@.len() as int) =~= url@);
    let (dns_time, tcp_time, tls_time) = estimate_connection_times(total_time, is_https);
    let first_byte_time = if total_time > 0 {
        total_time / 3
    } else {
        0
    };
    let download_time = total_time - first_byte_time;
    PerformanceMetrics {
        dns_resolution_ms: dns_time,
        tcp_connect_ms: tcp_time,
        tls_handshake_ms: tls_time,
        request_send_ms: if total_time < 50 {
            total_time
        } else {
            50
        },
        first_byte_ms: first_byte_time,
        response_download_ms: download_time,
        total_time_ms: total_time,
        response_size_bytes: response_size,
        network_conditions: NetworkConditions {
            latency_factors,
            performance_bottlenecks: bottlenecks,
        },
    }
}

/// The recommendations for a request's figures. `bandwidth_limited` says
/// whether the estimated bandwidth was below 1 Mbps.
pub open spec fn recommendations_for(
    total_time: u64,
    size: nat,
    bandwidth_limited: bool,
) -> Seq<Seq<char>> {
    let critical = if total_time > 6000 {
        seq![
            "Critical: Investigate server health and network connectivity"@,
            "Consider implementing request timeouts shorter than 6 seconds"@,
            "Check for DNS resolution issues"@,
            "Verify target server is responding properly"@,
        ]
    } else {
        Seq::empty()
    };
    let slow = if total_time > 3000 {
        seq![
            "Implement connection pooling to reduce connection overhead"@,
            "Consider using HTTP/2 or HTTP/3 for better performance"@,
            "Add response caching where appropriate"@,
        ]
    } else {
        Seq::empty()
    };
    let large = if size > 1_000_000 {
        seq![
            "Consider implementing response compression (gzip/brotli)"@,
            "Implement pagination for large data sets"@,
        ]
    } else {
        Seq::empty()
    };
    let limited = if bandwidth_limited {
        seq!["Network bandwidth appears limited - consider optimizing payload size"@]
    } else {
        Seq::empty()
    };
    critical + slow + large + limited + seq![
        "Monitor network conditions and server response times"@,
        "Implement retry logic with exponential backoff"@,
    ]
}

/// The recommendations for a request's figures (see `recommendations_for`).
pub fn generate_recommendations(metrics: &PerformanceMetrics, bandwidth_limited: bool) -> (r: Vec<
    String,
>)
    ensures
        texts(r@) == recommendations_for(
            metrics.total_time_ms,
            metrics.response_size_bytes as nat,
            bandwidth_limited,
        ),
{
    let mut r: Vec<String> = Vec::new();
    if metrics.total_time_ms > 6000 {
        r.push("Critical: Investigate server health and network connectivity".to_owned());
        r.push("Consider implementing request timeouts shorter than 6 seconds".to_owned());
        r.push("Check for DNS resolution issues".to_owned());
        r.push("Verify target server is responding properly".to_owned());
    }
    if metrics.total_time_ms > 3000 {
        r.push("Implement connection pooling to reduce connection overhead".to_owned());
        r.push("Consider using HTTP/2 or HTTP/3 for better performance".to_owned());
        r.push("Add response caching where appropriate".to_owned());
    }
    if metrics.response_size_bytes > 1_000_000 {
        r.push("Consider implementing response compression (gzip/brotli)".to_owned());
        r.push("Implement pagination for large data sets".to_owned());
    }
    if bandwidth_limited {
        r.push(
            "Network bandwidth appears limited - consider optimizing payload size".to_owned(),
        );
    }
    r.push("Monitor network conditions and server response times".to_owned());
    r.push("Implement retry logic with exponential backoff".to_owned());
    assert(texts(r@) =~= recommendations_for(
        metrics.total_time_ms,
        metrics.response_size_bytes as nat,
        bandwidth_limited,
    ));
    r
}

/// Each text as a bullet line.
pub open spec fn bullet_lines(items: Seq<Seq<char>>) -> Seq<char>
    decreases items.len(),
{
    if items.len() == 0 {
        Seq::empty()
    } else {
        bullet_lines(items.drop_last()) + "• "@ + items.last() + "\n"@
    }
}

/// The analysis text of a response. `size_kb` is the response size in KB
/// and `bandwidth` the estimated bandwidth in Mbps, both already formatted.
pub open spec fn analysis_text(
    status: u16,
    total_time: u64,
    size: nat,
    size_kb: Seq<char>,
    bandwidth: Option<Seq<char>>,
    factors: Seq<Seq<char>>,
    bottlenecks: Seq<Seq<char>>,
) -> Seq<char> {
    let head = "Performance Analysis for HTTP "@ + decimal(status as nat) + " response:\n\n"@
        + "• Total Response Time: "@ + decimal(total_time as nat) + "ms\n"@
        + "• Response Size: "@ + decimal(size) + " bytes ("@ + size_kb + " KB)\n"@;
    let with_bandwidth = match bandwidth {
        Some(b) => head + "• Estimated Bandwidth: "@ + b + " Mbps\n"@,
        None => head,
    };
    let with_warning = if total_time > 6000 {
        with_bandwidth + "\n⚠️  CRITICAL PERFORMANCE ISSUE DETECTED:\n"@
            + "Response time exceeds 6 seconds, indicating severe performance problems.\n"@
    } else if total_time > 3000 {
        with_bandwidth + "\n⚠️  Performance Warning:\n"@
            + "Response time exceeds 3 seconds, indicating performance issues.\n"@
    } else {
        with_bandwidth
    };
    let with_factors = if factors.len() > 0 {
        with_warning + "\nIdentified Latency Factors:\n"@ + bullet_lines(factors)
    } else {
        with_warning
    };
    if bottlenecks.len() > 0 {
        with_factors + "\nPerformance Bottlenecks:\n"@ + bullet_lines(bottlenecks)
    } else {
        with_factors
    }
}

/// Appends each text as a bullet line.
fn push_bullet_lines(v: &mut Vec<char>, items: &Vec<String>)
    ensures
        final(v)@ == old(v)@ + bullet_lines(texts(items@)),
{
    let ghost t = texts(items@);
    let mut i: usize = 0;
    assert(t.subrange(0, 0) =~= Seq::<Seq<char>>::empty());
    assert(v@ =~= old(v)@ + bullet_lines(t.subrange(0, 0)));
    while i < items.len()
        invariant
            i <= items@.len(),
            t == texts(items@),
            v@ == old(v)@ + bullet_lines(t.subrange(0, i as int)),
        decreases items@.len() - i,
    {
        push_str(v, "• ");
        push_str(v, items[i].as_str());
        push_str(v, "\n");
        assert(t.subrange(0, i + 1).drop_last() =~= t.subrange(0, i as int));
        assert(v@ =~= old(v)@ + bullet_lines(t.subrange(0, i + 1)));
        i = i + 1;
    }
    assert(t.subrange(0, i as int) =~= t);
}

/// The analysis text of a response (see `analysis_text`). `size_kb` and
/// `bandwidth` are the formatted figures in KB and Mbps.
pub fn generate_analysis(
    metrics: &PerformanceMetrics,
    response: &HttpResponseInfo,
    size_kb: &str,
    bandwidth: Option<&str>,
) -> (r: String)
    ensures
        r@ == analysis_text(
            response.status,
            metrics.total_time_ms,
            metrics.response_size_bytes as nat,
            size_kb@,
            match bandwidth {
                Some(b) => Some(b@),
                None => None,
            },
            texts(metrics.network_conditions.latency_factors@),
            texts(metrics.network_conditions.performance_bottlenecks@),
        ),
{
    let mut v = chars_of("Performance Analysis for HTTP ");
    push_decimal(&mut v, response.status as u64);
    push_str(&mut v, " response:\n\n");
    push_str(&mut v, "• Total Response Time: ");
    push_decimal(&mut v, metrics.total_time_ms);
    push_str(&mut v, "ms\n");
    push_str(&mut v, "• Response Size: ");
    push_decimal(&mut v, metrics.response_size_bytes as u64);
    push_str(&mut v, " bytes (");
    push_str(&mut v, size_kb);
    push_str(&mut v, " KB)\n");
    match bandwidth {
        Some(b) => {
            push_str(&mut v, "• Estimated Bandwidth: ");
            push_str(&mut v, b);
            push_str(&mut v, " Mbps\n");
        },
        None => {},
    }
    if metrics.total_time_ms > 6000 {
        push_str(&mut v, "\n⚠️  CRITICAL PERFORMANCE ISSUE DETECTED:\n");
        push_str(
            &mut v,
            "Response time exceeds 6 seconds, indicating severe performance problems.\n",
        );
    } else if metrics.total_time_ms > 3000 {
        push_str(&mut v, "\n⚠️  Performance Warning:\n");
        push_str(&mut v, "Response time exceeds 3 seconds, indicating performance issues.\n");
    }
    if metrics.network_conditions.latency_factors.len() > 0 {
        push_str(&mut v, "\nIdentified Latency Factors:\n");
        push_bullet_lines(&mut v, &metrics.network_conditions.latency_factors);
    }
    if metrics.network_conditions.performance_bottlenecks.len() > 0 {
        push_str(&mut v, "\nPerformance Bottlenecks:\n");
        push_bullet_lines(&mut v, &metrics.network_conditions.performance_bottlenecks);
    }
    string_of_all(&v)
}

/// Whether a response of `size` bytes in `total_time` milliseconds has an
/// estimated bandwidth: both are positive.
pub open spec fn bandwidth_estimated(total_time: u64, size: nat) -> bool {
    total_time > 0 && size > 0
}

/// The analysis of a response to a request for `url` that took
/// `total_time` milliseconds. `size_kb` is the formatted size in KB,
/// `bandwidth` the formatted estimate in Mbps and `bandwidth_limited`
/// whether that estimate is below 1 Mbps; the bandwidth is shown, and
/// counts for the recommendations, only where it can be estimated.
pub fn analyze_response(
    url: &str,
    response: &HttpResponseInfo,
    total_time: u64,
    size_kb: &str,
    bandwidth: &str,
    bandwidth_limited: bool,
) -> (r: PerformanceAnalysis)
    ensures
        r.url@ == url@,
        is_metrics_of(r.metrics, *response, total_time),
        ({
            let size = r.metrics.response_size_bytes as nat;
            let shown = bandwidth_estimated(total_time, size);
            &&& r.analysis@ == analysis_text(
                response.status,
                total_time,
                size,
                size_kb@,
                if shown {
                    Some(bandwidth@)
                } else {
                    None
                },
                latency_factors_for(total_time, size),
                bottlenecks_for(total_time),
            )
            &&& texts(r.recommendations@) == recommendations_for(
                total_time,
                size,
                shown && bandwidth_limited,
            )
        }),
        r.severity == severity_of(total_time),
{
    let metrics = build_metrics(response, total_time);
    let shown = total_time > 0 && metrics.response_size_bytes > 0;
    let analysis = generate_analysis(
        &metrics,
        response,
        size_kb,
        if shown {
            Some(bandwidth)
        } else {
            None
        },
    );
    let recommendations = generate_recommendations(&metrics, shown && bandwidth_limited);
    let severity = determine_severity(total_time);
    PerformanceAnalysis { url: url.to_owned(), metrics, analysis, recommendations, severity }
}

/// The label a run's severity is shown with.
pub open spec fn severity_label_text(s: PerformanceSeverity) -> Seq<char> {
    match s {
        PerformanceSeverity::Excellent => "✅ Excellent"@,
        PerformanceSeverity::Good => "✅ Good"@,
        PerformanceSeverity::Average => "⚠️ Average"@,
        PerformanceSeverity::Poor => "⚠️ Poor"@,
        PerformanceSeverity::Critical => "❌ Critical"@,
    }
}

/// The label a run's severity is shown with (see `severity_label_text`).
pub fn severity_label(s: PerformanceSeverity) -> (r: String)
    ensures
        r@ == severity_label_text(s),
{
    match s {
        PerformanceSeverity::Excellent => "✅ Excellent".to_owned(),
        PerformanceSeverity::Good => "✅ Good".to_owned(),
        PerformanceSeverity::Average => "⚠️ Average".to_owned(),
        PerformanceSeverity::Poor => "⚠️ Poor".to_owned(),
        PerformanceSeverity::Critical => "❌ Critical".to_owned(),
    }
}

/// The positions of the runs slower than 6000 ms, in order.
pub open spec fn slow_runs(a: Seq<PerformanceAnalysis>) -> Seq<usize>
    decreases a.len(),
{
    if a.len() == 0 {
        Seq::empty()
    } else if a.last().metrics.total_time_ms > 6000 {
        slow_runs(a.drop_last()).push((a.len() - 1) as usize)
    } else {
        slow_runs(a.drop_last())
    }
}

/// The positions of the runs slower than 6000 ms, in order (see
/// `slow_runs`).
pub fn slow_run_indices(analyses: &[PerformanceAnalysis]) -> (r: Vec<usize>)
    ensures
        r@ == slow_runs(analyses@),
{
    let ghost a = analyses@;
    let mut r: Vec<usize> = Vec::new();
    let mut i: usize = 0;
    while i < analyses.len()
        invariant
            a == analyses@,
            i <= a.len(),
            r@ == slow_runs(a.subrange(0, i as int)),
        decreases a.len() - i,
    {
        assert(a.subrange(0, i + 1).drop_last() =~= a.subrange(0, i as int));
        if analyses[i].metrics.total_time_ms > 6000 {
            r.push(i);
        }
        i = i + 1;
    }
    assert(a.subrange(0, i as int) =~= a);
    r
}

/// One step of a performance test.
#[derive(PartialEq, Eq, Structural, Clone, Copy, Debug)]
pub enum TestStep {
    /// Send the test request for iteration `iteration` (counted from 1).
    Run { iteration: u32 },
    /// Wait this many milliseconds.
    Pause { millis: u64 },
}

/// The steps of the first `k` of `iterations` test iterations: each is run,
/// and all but the last are followed by a pause of 100 ms.
pub open spec fn test_steps(k: nat, iterations: nat) -> Seq<TestStep>
    decreases k,
{
    if k == 0 {
        Seq::empty()
    } else {
        test_steps((k - 1) as nat, iterations) + seq![TestStep::Run { iteration: k as u32 }] + (
        if k < iterations {
            seq![TestStep::Pause { millis: 100 }]
        } else {
            Seq::empty()
        })
    }
}

/// The steps of a performance test of `iterations` iterations (see
/// `test_steps`).
pub fn performance_test_schedule(iterations: u32) -> (r: Vec<TestStep>)
    ensures
        r@ == test_steps(iterations as nat, iterations as nat),
{
    let mut r: Vec<TestStep> = Vec::new();
    let mut i: u32 = 0;
    while i < iterations
        invariant
            i <= iterations,
            r@ == test_steps(i as nat, iterations as nat),
        decreases iterations - i,
    {
        r.push(TestStep::Run { iteration: i + 1 });
        if i + 1 < iterations {
            r.push(TestStep::Pause { millis: 100 });
        }
        assert(r@ =~= test_steps((i + 1) as nat, iterations as nat));
        i = i + 1;
    }
    r
}

/// The request each iteration of a performance test sends: GET `url`
/// without headers or body, a 30-second timeout, redirects followed and
/// certificates verified.
pub fn performance_test_request(url: &str) -> (r: HttpRequestBuilder)
    ensures
        r.method@ == "GET"@,
        r.url@ == url@,
        r.headers@.dom().is_empty(),
        r.body is None,
        r.timeout_seconds == 30,
        r.follow_redirects,
        r.verify_ssl,
{
    HttpRequestBuilder {
        method: "GET".to_owned(),
        url: url.to_owned(),
        headers: TextMap::new(),
        body: None,
        timeout_seconds: 30,
        follow_redirects: true,
        verify_ssl: true,
    }
}

// ---------------------------------------------------------------------
// Summary over several runs
// ---------------------------------------------------------------------

/// Sum of the total times.
pub open spec fn time_sum(a: Seq<PerformanceAnalysis>) -> nat
    decreases a.len(),
{
    if a.len() == 0 {
        0
    } else {
        time_sum(a.drop_last()) + a.last().metrics.total_time_ms as nat
    }
}

/// Smallest total time (0 for no runs).
pub open spec fn time_min(a: Seq<PerformanceAnalysis>) -> u64
    decreases a.len(),
{
    if a.len() == 0 {
        0
    } else if a.len() == 1 {
        a[0].metrics.total_time_ms
    } else {
        let m = time_min(a.drop_last());
        if a.last().metrics.total_time_ms < m {
            a.last().metrics.total_time_ms
        } else {
            m
        }
    }
}

/// Largest total time (0 for no runs).
pub open spec fn time_max(a: Seq<PerformanceAnalysis>) -> u64
    decreases a.len(),
{
    if a.len() == 0 {
        0
    } else if a.len() == 1 {
        a[0].metrics.total_time_ms
    } else {
        let m = time_max(a.drop_last());
        if a.last().metrics.total_time_ms > m {
            a.last().metrics.total_time_ms
        } else {
            m
        }
    }
}

/// Number of runs of severity `s`.
pub open spec fn severity_count(a: Seq<PerformanceAnalysis>, s: PerformanceSeverity) -> nat
    decreases a.len(),
{
    if a.len() == 0 {
        0
    } else {
        severity_count(a.drop_last(), s) + (if a.last().severity == s {
            1nat
        } else {
            0nat
        })
    }
}

/// Sum of the total times of the runs after the first.
pub open spec fn later_time_sum(a: Seq<PerformanceAnalysis>) -> nat {
    time_sum(a.subrange(1, a.len() as int))
}

/// The runs show a cold start: there are at least two of them and the first
/// took more than twice the average of the later ones.
pub open spec fn cold_start(a: Seq<PerformanceAnalysis>) -> bool {
    a.len() >= 2 && a[0].metrics.total_time_ms * (a.len() - 1) > 2 * later_time_sum(a)
}

/// The summary report of several runs. `std_dev` is the standard deviation
/// of their times in ms, already formatted.
pub open spec fn summary_report(a: Seq<PerformanceAnalysis>, std_dev: Seq<char>) -> Seq<char> {
    if a.len() == 0 {
        "No performance data available"@
    } else {
        let head = "=== PERFORMANCE ANALYSIS SUMMARY ===\n\n"@ + "Total Requests: "@ + decimal(
            a.len(),
        ) + "\n"@ + "Average Response Time: "@ + decimal(time_sum(a) / a.len()) + "ms\n"@
            + "Minimum Response Time: "@ + decimal(time_min(a) as nat) + "ms\n"@
            + "Maximum Response Time: "@ + decimal(time_max(a) as nat) + "ms\n"@
            + "Standard Deviation: "@ + std_dev + "ms\n"@
            + "\nPerformance Distribution:\n"@ + "• Excellent (<100ms): "@ + decimal(
            severity_count(a, PerformanceSeverity::Excellent),
        ) + "\n"@ + "• Good (100-500ms): "@ + decimal(severity_count(a, PerformanceSeverity::Good))
            + "\n"@ + "• Average (500-1000ms): "@ + decimal(
            severity_count(a, PerformanceSeverity::Average),
        ) + "\n"@ + "• Poor (1000-3000ms): "@ + decimal(
            severity_count(a, PerformanceSeverity::Poor),
        ) + "\n"@ + "• Critical (>3000ms): "@ + decimal(
            severity_count(a, PerformanceSeverity::Critical),
        ) + "\n"@;
        let with_cold = if a.len() >= 2 {
            let first = head + "\nFirst Request: "@ + decimal(a[0].metrics.total_time_ms as nat)
                + "ms, Later Requests Average: "@ + decimal(later_time_sum(a) / ((a.len() - 1) as nat))
                + "ms\n"@;
            if cold_start(a) {
                first + "❄️  COLD START EFFECT DETECTED: the first request took more than twice the later average.\n"@
            } else {
                first
            }
        } else {
            head
        };
        if time_max(a) > 6000 {
            with_cold + "\n⚠️  CRITICAL PERFORMANCE ISSUES DETECTED!\n"@
                + "Some requests exceeded 6 seconds response time.\n"@
        } else {
            with_cold
        }
    }
}

proof fn lemma_time_sum_first(a: Seq<PerformanceAnalysis>)
    requires
        a.len() > 0,
    ensures
        time_sum(a) == a[0].metrics.total_time_ms + later_time_sum(a),
    decreases a.len(),
{
    if a.len() == 1 {
        assert(a.subrange(1, 1).len() == 0);
        assert(a.drop_last().len() == 0);
        assert(time_sum(a.drop_last()) == 0);
        assert(a.last() == a[0]);
    } else {
        let p = a.drop_last();
        lemma_time_sum_first(p);
        assert(p[0] == a[0]);
        assert(a.subrange(1, a.len() as int).drop_last() =~= p.subrange(1, p.len() as int));
        assert(a.subrange(1, a.len() as int).last() == a.last());
    }
}

/// The summary report of several runs (see `summary_report`); the total of
/// the times must fit in a `u64`. `std_dev` is the formatted standard
/// deviation of the times.
pub fn generate_summary_report(analyses: &[PerformanceAnalysis], std_dev: &str) -> (r: String)
    requires
        time_sum(analyses@) <= u64::MAX,
    ensures
        r@ == summary_report(analyses@, std_dev@),
{
    if analyses.len() == 0 {
        return "No performance data available".to_owned();
    }
    let ghost a = analyses@;
    let mut sum: u64 = 0;
    let mut min_time: u64 = analyses[0].metrics.total_time_ms;
    let mut max_time: u64 = analyses[0].metrics.total_time_ms;
    let mut excellent: usize = 0;
    let mut good: usize = 0;
    let mut average: usize = 0;
    let mut poor: usize = 0;
    let mut critical: usize = 0;
    let mut i: usize = 0;
    while i < analyses.len()
        invariant
            0 < analyses@.len(),
            a == analyses@,
            i <= a.len(),
            time_sum(a) <= u64::MAX,
            sum == time_sum(a.subrange(0, i as int)),
            i > 0 ==> min_time == time_min(a.subrange(0, i as int)),
            i > 0 ==> max_time == time_max(a.subrange(0, i as int)),
            i == 0 ==> min_time == a[0].metrics.total_time_ms && max_time
                == a[0].metrics.total_time_ms,
            excellent == severity_count(a.subrange(0, i as int), PerformanceSeverity::Excellent),
            good == severity_count(a.subrange(0, i as int), PerformanceSeverity::Good),
            average == severity_count(a.subrange(0, i as int), PerformanceSeverity::Average),
            poor == severity_count(a.subrange(0, i as int), PerformanceSeverity::Poor),
            critical == severity_count(a.subrange(0, i as int), PerformanceSeverity::Critical),
            excellent <= i && good <= i && average <= i && poor <= i && critical <= i,
        decreases a.len() - i,
    {
        let t = analyses[i].metrics.total_time_ms;
        let ghost prefix = a.subrange(0, i + 1);
        assert(prefix.drop_last() =~= a.subrange(0, i as int));
        proof {
            lemma_time_sum_prefix(a, i + 1);
        }
        sum = sum + t;
        if i == 0 {
            assert(prefix.len() == 1);
        } else {
            if t < min_time {
                min_time = t;
            }
            if t > max_time {
                max_time = t;
            }
        }
        match analyses[i].severity {
            PerformanceSeverity::Excellent => {
                excellent = excellent + 1;
            },
            PerformanceSeverity::Good => {
                good = good + 1;
            },
            PerformanceSeverity::Average => {
                average = average + 1;
            },
            PerformanceSeverity::Poor => {
                poor = poor + 1;
            },
            PerformanceSeverity::Critical => {
                critical = critical + 1;
            },
        }
        i = i + 1;
    }
    assert(a.subrange(0, i as int) =~= a);
    let n = analyses.len();
    let avg = sum / (n as u64);
    let mut v = chars_of("=== PERFORMANCE ANALYSIS SUMMARY ===\n\n");
    push_str(&mut v, "Total Requests: ");
    push_decimal(&mut v, n as u64);
    push_str(&mut v, "\n");
    push_str(&mut v, "Average Response Time: ");
    push_decimal(&mut v, avg);
    push_str(&mut v, "ms\n");
    push_str(&mut v, "Minimum Response Time: ");
    push_decimal(&mut v, min_time);
    push_str(&mut v, "ms\n");
    push_str(&mut v, "Maximum Response Time: ");
    push_decimal(&mut v, max_time);
    push_str(&mut v, "ms\n");
    push_str(&mut v, "Standard Deviation: ");
    push_str(&mut v, std_dev);
    push_str(&mut v, "ms\n");
    push_str(&mut v, "\nPerformance Distribution:\n");
    push_str(&mut v, "• Excellent (<100ms): ");
    push_decimal(&mut v, excellent as u64);
    push_str(&mut v, "\n");
    push_str(&mut v, "• Good (100-500ms): ");
    push_decimal(&mut v, good as u64);
    push_str(&mut v, "\n");
    push_str(&mut v, "• Average (500-1000ms): ");
    push_decimal(&mut v, average as u64);
    push_str(&mut v, "\n");
    push_str(&mut v, "• Poor (1000-3000ms): ");
    push_decimal(&mut v, poor as u64);
    push_str(&mut v, "\n");
    push_str(&mut v, "• Critical (>3000ms): ");
    push_decimal(&mut v, critical as u64);
    push_str(&mut v, "\n");
    if n >= 2 {
        let t0 = analyses[0].metrics.total_time_ms;
        proof {
            lemma_time_sum_first(a);
        }
        let rest = sum - t0;
        push_str(&mut v, "\nFirst Request: ");
        push_decimal(&mut v, t0);
        push_str(&mut v, "ms, Later Requests Average: ");
        push_decimal(&mut v, rest / ((n - 1) as u64));
        push_str(&mut v, "ms\n");
        proof {
            let x: int = t0 as int;
            let y: int = (n - 1) as int;
            assert(y <= 0xffff_ffff_ffff_ffff);
            assert(x * y <= 0xffff_ffff_ffff_ffff * 0xffff_ffff_ffff_ffff) by (nonlinear_arith)
                requires
                    0 <= x <= 0xffff_ffff_ffff_ffff,
                    0 <= y <= 0xffff_ffff_ffff_ffff,
            ;
        }
        let lhs = (t0 as u128) * ((n - 1) as u128);
        if lhs > 2 * (rest as u128) {
            push_str(
                &mut v,
                "❄️  COLD START EFFECT DETECTED: the first request took more than twice the later average.\n",
            );
        }
    }
    if max_time > 6000 {
        push_str(&mut v, "\n⚠️  CRITICAL PERFORMANCE ISSUES DETECTED!\n");
        push_str(&mut v, "Some requests exceeded 6 seconds response time.\n");
    }
    string_of_all(&v)
}

proof fn lemma_time_sum_prefix(a: Seq<PerformanceAnalysis>, i: int)
    requires
        0 <= i <= a.len(),
    ensures
        time_sum(a.subrange(0, i)) <= time_sum(a),
    decreases a.len() - i,
{
    if i < a.len() {
        lemma_time_sum_prefix(a, i + 1);
        assert(a.subrange(0, i + 1).drop_last() =~= a.subrange(0, i));
    } else {
        assert(a.subrange(0, i) =~= a);
    }
}


// ---------------------------------------------------------------------
// Laws
// ---------------------------------------------------------------------

/// Position of a severity on the scale from excellent (0) to critical (4).
pub open spec fn severity_rank(s: PerformanceSeverity) -> int {
    match s {
        PerformanceSeverity::Excellent => 0,
        PerformanceSeverity::Good => 1,
        PerformanceSeverity::Average => 2,
        PerformanceSeverity::Poor => 3,
        PerformanceSeverity::Critical => 4,
    }
}

/// A slower response is never classified better than a faster one.
pub proof fn severity_is_monotone(t1: u64, t2: u64)
    requires
        t1 <= t2,
    ensures
        severity_rank(severity_of(t1)) <= severity_rank(severity_of(t2)),
{
}

/// Every run falls in exactly one class of the distribution: the five
/// counts of the summary add up to the number of runs.
pub proof fn severity_counts_cover_all_runs(a: Seq<PerformanceAnalysis>)
    ensures
        severity_count(a, PerformanceSeverity::Excellent) + severity_count(a, PerformanceSeverity::Good)
            + severity_count(a, PerformanceSeverity::Average) + severity_count(
            a,
            PerformanceSeverity::Poor,
        ) + severity_count(a, PerformanceSeverity::Critical) == a.len(),
    decreases a.len(),
{
    if a.len() > 0 {
        severity_counts_cover_all_runs(a.drop_last());
    }
}

proof fn lemma_time_extremes(a: Seq<PerformanceAnalysis>)
    requires
        a.len() > 0,
    ensures
        forall|i: int|
            0 <= i < a.len() ==> time_min(a) <= #[trigger] a[i].metrics.total_time_ms <= time_max(a),
        time_min(a) * a.len() <= time_sum(a) <= time_max(a) * a.len(),
    decreases a.len(),
{
    if a.len() > 1 {
        let p = a.drop_last();
        lemma_time_extremes(p);
        assert forall|i: int| 0 <= i < a.len() implies time_min(a) <= #[trigger] a[i].metrics.total_time_ms
            <= time_max(a) by {
            if i < p.len() {
                assert(a[i] == p[i]);
            }
        }
        let n = p.len();
        let lo = time_min(a) as int;
        let hi = time_max(a) as int;
        assert(lo <= time_min(p));
        assert(time_max(p) <= hi);
        assert(lo * n <= time_min(p) * n) by (nonlinear_arith)
            requires
                lo <= time_min(p),
                n >= 0,
        ;
        assert(time_max(p) * n <= hi * n) by (nonlinear_arith)
            requires
                time_max(p) <= hi,
                n >= 0,
        ;
        assert(lo * (n + 1) == lo * n + lo) by (nonlinear_arith);
        assert(hi * (n + 1) == hi * n + hi) by (nonlinear_arith);
        assert(time_sum(a) == time_sum(p) + a.last().metrics.total_time_ms);
    } else {
        assert(a.drop_last().len() == 0);
        assert(time_sum(a.drop_last()) == 0);
        assert(a.last() == a[0]);
        assert(time_sum(a) == a[0].metrics.total_time_ms);
        let t = a[0].metrics.total_time_ms as int;
        assert(t * 1 == t);
    }
}

/// The average response time of a summary lies between its minimum and its
/// maximum, and every run's time lies between them too.
pub proof fn average_between_extremes(a: Seq<PerformanceAnalysis>)
    requires
        a.len() > 0,
    ensures
        time_min(a) <= time_sum(a) / a.len() <= time_max(a),
        forall|i: int|
            0 <= i < a.len() ==> time_min(a) <= #[trigger] a[i].metrics.total_time_ms <= time_max(a),
{
    lemma_time_extremes(a);
    let n = a.len() as int;
    let s = time_sum(a) as int;
    let lo = time_min(a) as int;
    let hi = time_max(a) as int;
    assert(lo <= s / n <= hi) by (nonlinear_arith)
        requires
            n > 0,
            lo * n <= s <= hi * n,
    ;
}

/// The diagnosis of slow responses covers exactly the runs over six
/// seconds: each listed position is such a run, and each such run is
/// listed.
pub proof fn slow_runs_are_exactly_the_runs_over_six_seconds(a: Seq<PerformanceAnalysis>)
    requires
        a.len() <= usize::MAX,
    ensures
        forall|k: int|
            0 <= k < slow_runs(a).len() ==> #[trigger] slow_runs(a)[k] < a.len() && a[slow_runs(
                a,
            )[k] as int].metrics.total_time_ms > 6000,
        forall|i: int|
            0 <= i < a.len() && (#[trigger] a[i]).metrics.total_time_ms > 6000 ==> slow_runs(
                a,
            ).contains(i as usize),
    decreases a.len(),
{
    if a.len() > 0 {
        let p = a.drop_last();
        slow_runs_are_exactly_the_runs_over_six_seconds(p);
        let rest = slow_runs(p);
        let all = slow_runs(a);
        assert forall|k: int| 0 <= k < all.len() implies #[trigger] all[k] < a.len() && a[all[k] as int].metrics.total_time_ms
            > 6000 by {
            if k < rest.len() {
                assert(all[k] == rest[k]);
                assert(a[rest[k] as int] == p[rest[k] as int]);
            } else {
                assert(all[k] == (a.len() - 1) as usize);
                assert(a[a.len() - 1] == a.last());
            }
        }
        assert forall|i: int|
            0 <= i < a.len() && (#[trigger] a[i]).metrics.total_time_ms > 6000 implies all.contains(
            i as usize,
        ) by {
            if i < a.len() - 1 {
                assert(p[i] == a[i]);
                assert(rest.contains(i as usize));
                let k = choose|k: int| 0 <= k < rest.len() && rest[k] == i as usize;
                if a.last().metrics.total_time_ms > 6000 {
                    assert(all[k] == rest[k]);
                }
            } else {
                assert(a.last() == a[i]);
                assert(all[rest.len() as int] == (a.len() - 1) as usize);
            }
        }
    }
}

/// The latency factors of a response name its time band first, whatever
/// its size: none up to 500 ms, moderate latency up to 1500, high latency
/// up to 3000, a very high time beyond; a body over a million bytes only
/// adds "Large response payload" after the time band's factor.
pub proof fn latency_factors_start_with_the_time_band(total_time: u64, size: nat)
    ensures
        ({
            let band = latency_factors_for(total_time, 0);
            let f = latency_factors_for(total_time, size);
            &&& total_time <= 500 ==> band.len() == 0
            &&& 500 < total_time <= 1500 ==> band == seq!["Moderate latency detected"@]
            &&& 1500 < total_time <= 3000 ==> band == seq!["High latency connection"@]
            &&& 3000 < total_time ==> band == seq!["Very high response time"@]
            &&& f.len() == band.len() + (if size > 1_000_000 {
                1int
            } else {
                0int
            })
            &&& f.subrange(0, band.len() as int) == band
            &&& size > 1_000_000 ==> f.last() == "Large response payload"@
        }),
{
    let band = latency_factors_for(total_time, 0);
    let f = latency_factors_for(total_time, size);
    assert(f.subrange(0, band.len() as int) =~= band);
}

} // verus!
