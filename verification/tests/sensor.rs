use minilab::sensor::checksum::verify_checksum;
use minilab::sensor::client::{
    client_start, client_step, is_loopback, packet_line, pause_millis, wire_message, ClientAction, ClientEvent,
    GREETING_LEN,
};
use minilab::sensor::packet::{parse_port_5123, parse_port_5124, temperature_bits};
use minilab::sensor::time::{format_time, time_text_or_invalid, timestamp_parts};
use minilab::sensor::writer::{log_due, progress_line, Receipt, WriterAction, WriterLoop};

fn temperature_text(buf: &[u8]) -> String {
    format!("{:.2}", f32::from_bits(temperature_bits(buf)))
}

#[test]
fn test_verify_checksum() {
    assert_eq!(verify_checksum(&[]), false);
    assert_eq!(verify_checksum(&[1, 2, 3]), true);
    assert_eq!(verify_checksum(&[1, 2, 4]), false);
    assert_eq!(verify_checksum(&[250, 10, 4]), true);
}

#[test]
fn test_format_time() {
    assert_eq!(format_time(0), "1970-01-01 00:00:00");
}

#[test]
fn test_parse_5123() {
    let mut buf = vec![0u8; 15];
    buf[8] = 0x3F;
    buf[9] = 0x80;
    buf[13] = 0x0A;
    let temp = temperature_text(&buf);
    let res = parse_port_5123(&buf, &temp);
    assert!(res.contains("5123"));
    assert!(res.contains("Temp: 1.00"));
    assert!(res.contains("Press: 10"));
}

#[test]
fn test_parse_5124() {
    let mut buf = vec![0u8; 21];
    buf[11] = 1;
    let res = parse_port_5124(&buf);
    assert!(res.contains("5124"));
    assert!(res.contains("X: 1"));
}

#[test]
fn checksum_of_single_byte_packet_is_zero() {
    assert!(verify_checksum(&[0]));
    assert!(!verify_checksum(&[1]));
}

#[test]
fn appended_sum_makes_packet_valid() {
    let payload: Vec<u8> = vec![200, 100, 7, 255];
    let sum: u32 = payload.iter().map(|b| *b as u32).sum();
    let mut packet = payload.clone();
    packet.push((sum % 256) as u8);
    assert!(verify_checksum(&packet));
}

#[test]
fn whole_line_of_5124_packet() {
    let mut buf = vec![0u8; 21];
    buf[8..12].copy_from_slice(&(-5i32).to_be_bytes());
    buf[12..16].copy_from_slice(&(123456i32).to_be_bytes());
    buf[16..20].copy_from_slice(&(i32::MIN).to_be_bytes());
    assert_eq!(
        parse_port_5124(&buf),
        "1970-01-01 00:00:00 | 5124 | X: -5 | Y: 123456 | Z: -2147483648"
    );
}

#[test]
fn whole_line_of_5123_packet() {
    let mut buf = vec![0u8; 15];
    buf[0..8].copy_from_slice(&(1_431_648_000_000_000i64).to_be_bytes());
    buf[12..14].copy_from_slice(&(-300i16).to_be_bytes());
    assert_eq!(
        parse_port_5123(&buf, "21.50"),
        "2015-05-15 00:00:00 | 5123 | Temp: 21.50 | Press: -300"
    );
}

#[test]
fn timestamp_split_rounds_toward_zero() {
    assert_eq!(timestamp_parts(1_500_000), (1, 500_000_000));
    assert_eq!(timestamp_parts(-1_000_000), (-1, 0));
    assert_eq!(timestamp_parts(-1_500_000).0, -1);
}

#[test]
fn negative_fraction_is_invalid_time() {
    assert_eq!(format_time(-1), "INVALID_TIME");
    assert_eq!(format_time(-1_500_000), "INVALID_TIME");
    assert_eq!(format_time(-1_000_000), "1969-12-31 23:59:59");
}

#[test]
fn out_of_range_time_is_invalid() {
    assert_eq!(format_time(i64::MAX), "INVALID_TIME");
    assert_eq!(time_text_or_invalid(None), "INVALID_TIME");
    assert_eq!(time_text_or_invalid(Some("x".to_string())), "x");
}

#[test]
fn client_happy_path() {
    let mut a = client_start(true);
    assert_eq!(a, ClientAction::Connect);
    a = client_step(a, &ClientEvent::Succeeded, true, false);
    assert_eq!(a, ClientAction::SendAuth);
    a = client_step(a, &ClientEvent::Succeeded, true, false);
    assert_eq!(a, ClientAction::AwaitGreeting);
    assert_eq!(pause_millis(a), 500);
    a = client_step(a, &ClientEvent::Succeeded, true, false);
    assert_eq!(a, ClientAction::ReadGreeting);
    a = client_step(a, &ClientEvent::Succeeded, true, false);
    assert_eq!(a, ClientAction::SendRequest);
    a = client_step(a, &ClientEvent::Succeeded, true, false);
    assert_eq!(a, ClientAction::ReadPacket);
    a = client_step(a, &ClientEvent::PacketReceived(vec![0u8; 21]), true, false);
    assert_eq!(a, ClientAction::Publish);
    a = client_step(a, &ClientEvent::Succeeded, true, false);
    assert_eq!(a, ClientAction::PauseBetweenRequests);
    assert_eq!(pause_millis(a), 25);
    a = client_step(a, &ClientEvent::Succeeded, false, false);
    assert_eq!(a, ClientAction::Stop);
}

#[test]
fn client_failures() {
    assert_eq!(client_start(false), ClientAction::Stop);
    assert_eq!(
        client_step(ClientAction::Connect, &ClientEvent::Failed, true, false),
        ClientAction::BackOff
    );
    assert_eq!(pause_millis(ClientAction::BackOff), 2000);
    assert_eq!(
        client_step(ClientAction::Connect, &ClientEvent::Failed, true, true),
        ClientAction::Connect
    );
    assert_eq!(
        client_step(ClientAction::ReadPacket, &ClientEvent::PacketReceived(vec![1, 2, 4]), true, false),
        ClientAction::PauseBetweenRequests
    );
    assert_eq!(
        client_step(ClientAction::Publish, &ClientEvent::Failed, true, false),
        ClientAction::Connect
    );
    assert_eq!(
        client_step(ClientAction::Stop, &ClientEvent::Succeeded, true, false),
        ClientAction::Stop
    );
    assert!(is_loopback("127.0.0.1"));
    assert!(!is_loopback("95.163.237.76"));
}

#[test]
fn packet_line_picks_layout_by_port() {
    let buf = vec![0u8; 21];
    assert!(packet_line(5124, &buf, "").contains("| 5124 | X: 0"));
    assert!(packet_line(5123, &buf, "0.00").contains("| 5123 | Temp: 0.00"));
}

#[test]
fn writer_counts_lines() {
    let mut w = WriterLoop::new();
    assert_eq!(w.on_round(true), WriterAction::Receive);
    assert_eq!(w.on_receipt(Receipt::Line), WriterAction::WriteLine);
    assert_eq!(w.on_receipt(Receipt::Timeout), WriterAction::NextRound);
    assert_eq!(w.on_receipt(Receipt::Line), WriterAction::WriteLine);
    assert_eq!(w.count, 2);
    assert_eq!(w.on_receipt(Receipt::Disconnected), WriterAction::Finish);
    assert_eq!(w.on_round(false), WriterAction::DrainAndFinish);
    assert!(log_due(5000));
    assert!(!log_due(4999));
    assert_eq!(progress_line(125, 7), "Running: 02:05 | Total lines: 7");
    assert_eq!(progress_line(6000, 0), "Running: 100:00 | Total lines: 0");
}

#[test]
fn session_writes_key_then_requests_and_publishes_valid_packets() {
    let packets = vec![vec![0u8; 21], vec![1u8, 2, 4], vec![250u8, 10, 4]];
    let mut written = String::new();
    let mut published: Vec<Vec<u8>> = Vec::new();
    let mut a = client_start(true);
    let mut events: Vec<ClientEvent> = Vec::new();
    for _ in 0..4 {
        events.push(ClientEvent::Succeeded);
    }
    for p in &packets {
        events.push(ClientEvent::Succeeded);
        events.push(ClientEvent::PacketReceived(p.clone()));
        if verify_checksum(p) {
            events.push(ClientEvent::Succeeded);
        }
        events.push(ClientEvent::Succeeded);
    }
    for e in &events {
        written.push_str(&wire_message(a));
        let next = client_step(a, e, true, true);
        if let (ClientEvent::PacketReceived(p), ClientAction::Publish) = (e, next) {
            published.push(p.clone());
        }
        a = next;
    }
    assert_eq!(a, ClientAction::SendRequest);
    assert_eq!(written, "isu_ptgetgetget");
    assert_eq!(published, vec![vec![0u8; 21], vec![250u8, 10, 4]]);
    assert_eq!(GREETING_LEN, 7);
    assert_eq!(wire_message(ClientAction::ReadPacket), "");
}
