use riddler::config::{interface_listed, interface_unspecified, NetworkConfig, StorageConfig};
use riddler::monitor::{ChannelPoll, ExitReason, MonitorSession, PacketDecision, MAX_BATCH_SIZE};
use riddler::network::NetworkPacket;

fn packet(payload: &[u8]) -> NetworkPacket {
    NetworkPacket {
        src_ip: "10.0.0.9".to_string(),
        dst_ip: "10.0.0.1".to_string(),
        src_port: 4000,
        dst_port: 80,
        _protocol: "TCP".to_string(),
        payload: payload.to_vec(),
        _timestamp: 0,
        _tcp_seq: None,
        _tcp_ack: None,
        _tcp_flags: None,
    }
}

#[test]
fn placeholder_interface_is_unspecified() {
    assert!(interface_unspecified("<请用--interface参数指定网络接口>"));
    assert!(!interface_unspecified("eth0"));
    assert!(!interface_unspecified("en0"));
}

#[test]
fn default_configs() {
    let n = NetworkConfig::default_settings();
    assert_eq!(n.interface, "en0");
    assert_eq!(n.monitor_filter, "tcp port 80 or tcp port 443");
    assert_eq!(n.buffer_size, 65536);
    let s = StorageConfig::default_paths();
    assert_eq!(s.cookie_cache_path, "./cookies.json");
    assert_eq!(s.request_log_path, "./requests.log");
    assert_eq!(s.max_cache_size, 1000);
}

#[test]
fn session_rounds_end_on_shutdown() {
    let mut s = MonitorSession::new(false);
    assert_eq!(s.start_round(ChannelPoll::Received(()), false), Some(ExitReason::ShutdownSignal));
    assert_eq!(s.start_round(ChannelPoll::Closed, false), Some(ExitReason::ShutdownChannelClosed));
    assert_eq!(s.start_round(ChannelPoll::Empty, true), Some(ExitReason::MonitorTaskFinished));
    assert_eq!(s.start_round(ChannelPoll::Empty, false), None);
    assert!(MonitorSession::exits_process(ExitReason::ShutdownSignal));
    assert!(!MonitorSession::exits_process(ExitReason::PacketChannelClosed));
}

#[test]
fn session_takes_at_most_a_batch_per_round() {
    let mut s = MonitorSession::new(true);
    assert_eq!(s.start_round(ChannelPoll::Empty, false), None);
    for _ in 0..MAX_BATCH_SIZE {
        assert!(s.wants_packet());
        assert!(matches!(s.take_packet(ChannelPoll::Received(packet(b"\x00\x01"))), PacketDecision::NotHttp));
    }
    assert!(!s.wants_packet());
    assert_eq!(s.packet_count, MAX_BATCH_SIZE);
    assert_eq!(s.start_round(ChannelPoll::Empty, false), None);
    assert!(s.wants_packet());
}

#[test]
fn session_hands_out_http_requests() {
    let mut s = MonitorSession::new(true);
    match s.take_packet(ChannelPoll::Received(packet(b"GET /x HTTP/1.1\r\nHost: h\r\n\r\n"))) {
        PacketDecision::Handle { request, replay } => {
            assert!(replay);
            assert_eq!(request.url, "http://h/x");
            assert_eq!(request.source_ip, "10.0.0.9");
            assert_eq!(request.source_port, 4000);
        },
        _ => panic!("expected a request"),
    }
    assert!(matches!(s.take_packet(ChannelPoll::Empty), PacketDecision::EndOfRound));
    assert!(matches!(
        s.take_packet(ChannelPoll::Closed),
        PacketDecision::Exit(ExitReason::PacketChannelClosed)
    ));
}

#[test]
fn interface_must_be_listed() {
    let names = vec!["lo".to_string(), "eth0".to_string()];
    assert!(interface_listed(&names, "eth0"));
    assert!(!interface_listed(&names, "en0"));
    assert!(!interface_listed(&Vec::new(), "lo"));
}
