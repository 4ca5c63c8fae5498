use riddler::capture::{CaptureAction, CaptureEvent, CaptureLoop, MAX_RETRIES};
use riddler::packet::{format_ipv4, parse_packet, parse_packet_at};

fn frame(ethertype: u16, protocol: u8, dst_port: u16, payload: &[u8]) -> Vec<u8> {
    let mut f = vec![0xaa, 0xbb, 0xcc, 0xdd, 0xee, 0xff, 0x11, 0x22, 0x33, 0x44, 0x55, 0x66];
    f.extend_from_slice(&ethertype.to_be_bytes());
    let total = (20 + 20 + payload.len()) as u16;
    f.extend_from_slice(&[0x45, 0x00]);
    f.extend_from_slice(&total.to_be_bytes());
    f.extend_from_slice(&[0x00, 0x01, 0x40, 0x00, 64, protocol, 0x00, 0x00]);
    f.extend_from_slice(&[10, 0, 0, 2]);
    f.extend_from_slice(&[93, 184, 216, 34]);
    f.extend_from_slice(&54321u16.to_be_bytes());
    f.extend_from_slice(&dst_port.to_be_bytes());
    f.extend_from_slice(&1u32.to_be_bytes());
    f.extend_from_slice(&2u32.to_be_bytes());
    f.extend_from_slice(&[0x50, 0x18, 0xff, 0xff, 0x00, 0x00, 0x00, 0x00]);
    f.extend_from_slice(payload);
    f
}

#[test]
fn ipv4_addresses_are_dotted() {
    assert_eq!(format_ipv4(&[192, 168, 0, 1]), "192.168.0.1");
    assert_eq!(format_ipv4(&[0, 0, 0, 0]), "0.0.0.0");
    assert_eq!(format_ipv4(&[255, 255, 255, 255]), "255.255.255.255");
}

#[test]
fn tcp_frame_gives_its_segment() {
    let f = frame(0x0800, 6, 80, b"GET / HTTP/1.1\r\n");
    let p = parse_packet_at(&f, 1234).unwrap();
    assert_eq!(p.src_ip, "10.0.0.2");
    assert_eq!(p.dst_ip, "93.184.216.34");
    assert_eq!(p.src_port, 54321);
    assert_eq!(p.dst_port, 80);
    assert_eq!(p._protocol, "TCP");
    assert_eq!(p.payload, b"GET / HTTP/1.1\r\n".to_vec());
    assert_eq!(p._timestamp, 1234);
    assert_eq!(p._tcp_seq, Some(1));
    assert_eq!(p._tcp_ack, Some(2));
    assert_eq!(p._tcp_flags, Some(0x18));
}

#[test]
fn tcp_frame_without_payload() {
    let f = frame(0x0800, 6, 443, b"");
    let p = parse_packet(&f).unwrap();
    assert_eq!(p.dst_port, 443);
    assert!(p.payload.is_empty());
}

#[test]
fn udp_frame_is_skipped() {
    assert!(parse_packet_at(&frame(0x0800, 17, 53, b"abc"), 0).is_none());
}

#[test]
fn ipv6_frame_is_skipped() {
    assert!(parse_packet_at(&frame(0x86dd, 6, 80, b"abc"), 0).is_none());
}

#[test]
fn truncated_frames_are_skipped() {
    assert!(parse_packet_at(&[0u8; 10], 0).is_none());
    let f = frame(0x0800, 6, 80, b"");
    assert!(parse_packet_at(&f[..30], 0).is_none());
    assert!(parse_packet_at(&f[..50], 0).is_none());
}

#[test]
fn capture_stops_after_three_consecutive_errors() {
    assert_eq!(MAX_RETRIES, 3);
    let mut l = CaptureLoop::new(1000, 0);
    assert!(matches!(l.step(CaptureEvent::CaptureError), CaptureAction::Retry));
    assert!(matches!(l.step(CaptureEvent::CaptureError), CaptureAction::Retry));
    assert!(matches!(l.step(CaptureEvent::CaptureError), CaptureAction::Stop));
    assert_eq!(l.total_errors, 3);
}

#[test]
fn a_frame_resets_the_retry_count() {
    let mut l = CaptureLoop::new(100_000, 0);
    assert!(matches!(l.step(CaptureEvent::CaptureError), CaptureAction::Retry));
    assert!(matches!(l.step(CaptureEvent::CaptureError), CaptureAction::Retry));
    let f = frame(0x0800, 6, 80, b"GET / HTTP/1.1\r\n");
    assert!(matches!(l.step(CaptureEvent::Frame(f, 5)), CaptureAction::Forward(_)));
    assert_eq!(l.current_retries, 0);
    assert!(matches!(l.step(CaptureEvent::CaptureError), CaptureAction::Retry));
}

#[test]
fn failed_reopen_stops_on_last_retry() {
    let mut l = CaptureLoop::new(1000, 0);
    assert!(matches!(l.step(CaptureEvent::ReinitFailed), CaptureAction::Continue));
    l.step(CaptureEvent::CaptureError);
    l.step(CaptureEvent::CaptureError);
    assert!(matches!(l.step(CaptureEvent::ReinitFailed), CaptureAction::Stop));
}

#[test]
fn forwarded_packets_are_charged_to_the_budget() {
    let f = frame(0x0800, 6, 80, b"GET / HTTP/1.1\r\n");
    // 16 payload bytes, "10.0.0.2" (8) and "93.184.216.34" (13), 100 overhead
    let mut l = CaptureLoop::new(137, 100);
    match l.step(CaptureEvent::Frame(f.clone(), 7)) {
        CaptureAction::Forward(p) => assert_eq!(p._timestamp, 7),
        _ => panic!("expected the packet to be forwarded"),
    }
    assert_eq!(l.current_memory_usage, 137);
    assert!(matches!(l.step(CaptureEvent::Frame(f, 8)), CaptureAction::DropForMemory));
    assert_eq!(l.current_memory_usage, 137);
    assert_eq!(l.packet_count, 2);
}

#[test]
fn budget_too_small_drops_the_first_packet() {
    let f = frame(0x0800, 6, 80, b"GET / HTTP/1.1\r\n");
    let mut l = CaptureLoop::new(136, 100);
    assert!(matches!(l.step(CaptureEvent::Frame(f, 0)), CaptureAction::DropForMemory));
    assert_eq!(l.current_memory_usage, 0);
}

#[test]
fn statistics_are_reported_and_reset() {
    let mut l = CaptureLoop::new(100_000, 0);
    assert!(matches!(l.step(CaptureEvent::StatsDue), CaptureAction::Continue));
    l.step(CaptureEvent::Frame(frame(0x0800, 6, 80, b""), 0));
    l.step(CaptureEvent::Frame(frame(0x0800, 6, 8080, b"hello"), 0));
    l.step(CaptureEvent::Frame(frame(0x0800, 6, 8080, b"POST /x HTTP/1.1"), 0));
    l.step(CaptureEvent::Frame(frame(0x0800, 17, 53, b""), 0));
    match l.step(CaptureEvent::StatsDue) {
        CaptureAction::Report { packets, http } => {
            assert_eq!(packets, 4);
            assert_eq!(http, 2);
        },
        _ => panic!("expected a report"),
    }
    assert_eq!(l.packets_since_stats, 0);
    assert_eq!(l.http_since_stats, 0);
    assert_eq!(l.packet_count, 4);
}

#[test]
fn flags_decide_stop_and_pause() {
    let mut l = CaptureLoop::new(10, 0);
    assert!(l.can_step());
    assert!(matches!(l.step(CaptureEvent::Flags { shutdown: true, releasing: true }), CaptureAction::Stop));
    assert!(matches!(l.step(CaptureEvent::Flags { shutdown: false, releasing: true }), CaptureAction::Pause));
    assert!(matches!(l.step(CaptureEvent::Flags { shutdown: false, releasing: false }), CaptureAction::Continue));
    assert!(matches!(l.step(CaptureEvent::Timeout), CaptureAction::Continue));
}
