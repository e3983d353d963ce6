use sozu_core::metrics::{push_decimal, LogDuration, SessionMetrics};
use sozu_core::ready::{display_ready, ready_to_string, Ready, Readiness};
use sozu_core::text::{ends_with, lex_less, starts_with, str_eq};
use sozu_core::{BackendConnectionStatus, RequiredEvents};

#[test]
fn required_events_sides() {
    let r = RequiredEvents::FrontReadWriteBackNone;
    assert!(r.front_readable() && r.front_writable() && !r.back_readable() && !r.back_writable());
    let r = RequiredEvents::FrontNoneBackReadWrite;
    assert!(!r.front_readable() && !r.front_writable() && r.back_readable() && r.back_writable());
    let r = RequiredEvents::FrontWriteBackRead;
    assert!(!r.front_readable() && r.front_writable() && r.back_readable() && !r.back_writable());
    let r = RequiredEvents::FrontNoneBackNone;
    assert!(!r.front_readable() && !r.front_writable() && !r.back_readable() && !r.back_writable());
}

#[test]
fn readiness_filter_and_display() {
    let mut r = Readiness::new();
    r.event = Ready::readable().union(Ready::hup());
    r.interest = Ready::readable().union(Ready::writable());
    assert_eq!(r.filter_interest(), Ready::readable());
    assert_eq!(ready_to_string(r.event), "R--H");
    assert_eq!(ready_to_string(Ready::all()), "RWEH");
    assert_eq!(ready_to_string(Ready::empty()), "----");
    let mut s = [b'x'; 6];
    display_ready(&mut s, Ready::writable().union(Ready::error()));
    assert_eq!(&s, b"xWExxx");
    r.reset();
    assert!(r.event.is_empty() && r.interest.is_empty());
    let mut e = Ready::all();
    e.remove(Ready::writable());
    assert!(e.is_readable() && !e.is_writable() && e.is_error() && e.is_hup());
    e.insert(Ready::writable());
    assert_eq!(e, Ready::all());
}

#[test]
fn connection_status() {
    assert!(BackendConnectionStatus::Connecting(5).is_connecting());
    assert!(!BackendConnectionStatus::Connected.is_connecting());
}

#[test]
fn metrics_service_and_wait_times() {
    let mut m = SessionMetrics::new(Some(7), 100);
    m.service_start(150);
    assert_eq!(m.wait_time, 57);
    assert_eq!(m.service_time(170), 20);
    m.service_stop(180);
    assert_eq!(m.service_time, 30);
    assert_eq!(m.service_time(1000), 30);
    m.wait_start(200);
    m.service_start(260);
    assert_eq!(m.wait_time, 117);
    assert_eq!(m.response_time(300), 200);
    assert_eq!(m.backend_connection_time(), None);
    m.backend_start(10);
    m.backend_connected(25);
    assert_eq!(m.backend_connection_time(), Some(15));
    assert_eq!(m.backend_response_time(40), Some(15));
    m.backend_stop(30);
    assert_eq!(m.backend_response_time(40), Some(5));
    m.reset();
    assert_eq!(m.start, None);
    assert_eq!(m.response_time(1), 0);
    assert_eq!(m.wait_start, 200);
}

#[test]
fn metrics_clock_going_back_counts_zero() {
    let mut m = SessionMetrics::new(None, 100);
    m.service_start(50);
    assert_eq!(m.wait_time, 0);
    m.service_stop(40);
    assert_eq!(m.service_time, 0);
}

#[test]
fn log_duration_units() {
    assert_eq!(LogDuration(12_000_000_000).to_log_string(), "12s");
    assert_eq!(LogDuration(9_999_000_000).to_log_string(), "9999ms");
    assert_eq!(LogDuration(10_000_000).to_log_string(), "10ms");
    assert_eq!(LogDuration(9_000_000).to_log_string(), "9000\u{3bc}s");
    assert_eq!(LogDuration(10_000).to_log_string(), "10\u{3bc}s");
    assert_eq!(LogDuration(9_999).to_log_string(), "9999ns");
    assert_eq!(LogDuration(0).to_log_string(), "0ns");
}

#[test]
fn decimal_digits() {
    let mut s = String::from("n=");
    push_decimal(&mut s, 1234567890);
    assert_eq!(s, "n=1234567890");
    let mut t = String::new();
    push_decimal(&mut t, u64::MAX);
    assert_eq!(t, u64::MAX.to_string());
}

#[test]
fn string_comparisons() {
    assert!(str_eq("abc", "abc"));
    assert!(!str_eq("abc", "abd"));
    assert!(!str_eq("ab", "abc"));
    assert!(starts_with("/api/x", "/api"));
    assert!(!starts_with("/ap", "/api"));
    assert!(ends_with("a.example.com", ".example.com"));
    assert!(!ends_with("example.org", ".example.com"));
    assert!(lex_less("alpha", "beta"));
    assert!(lex_less("ab", "abc"));
    assert!(!lex_less("abc", "ab"));
    assert!(!lex_less("same", "same"));
}
