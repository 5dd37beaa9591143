use std::sync::Arc;

use sulove::connection::GameConnection;
use sulove::dh::HabboDiffieHellman;
use sulove::frame::{FrameError, GameByteFrameDecoder, MAX_PACKET_LENGTH};
use sulove::idle::{IdleState, IdleTimeoutHandler, TickAction, PONG_EVENT_HEADER};
use sulove::message::{ClientMessage, GameByteDecoder};
use sulove::packet_manager::{exception_caught, DispatchPlan, FailureReport, IoFailure, PacketManager};
use sulove::policy::{GamePolicyDecoder, POLICY_XML};
use sulove::rate_limit::{GameMessageRateLimit, RateCounters};
use sulove::rc4::HabboRC4;
use sulove::rsa::HabboRSACrypto;

const E: &str = "10001";
const N: &str = "7d2be5742569abe235b6d2bdab82b610f5862282b9a1a75aac22f672cbf97c339a4af34718beb80c25953e352fe1e2db9283de56df4a1a7290c7f4e82761d45b";
const D: &str = "26f20c7f79d08a2964fb1050f157471cb9b7d56f0520f5f8314ce38f4e45becdc3af6fea95dfca232e980ff56034caa50f8632f74af8a80a989b970498e416c1";

fn framed(payload: &[u8]) -> Vec<u8> {
    let mut out = (payload.len() as u32).to_be_bytes().to_vec();
    out.extend_from_slice(payload);
    out
}

#[test]
fn frame_whole_and_byte_by_byte_agree() {
    let bytes = framed(b"\x00\x2aping");
    let mut all = GameByteFrameDecoder::new();
    let whole = all.decode(&bytes).unwrap().unwrap();
    assert_eq!(whole, b"\x00\x2aping".to_vec());

    let mut one = GameByteFrameDecoder::new();
    let mut got = None;
    for (i, b) in bytes.iter().enumerate() {
        let r = one.decode(&[*b]).unwrap();
        if i + 1 < bytes.len() {
            assert!(r.is_none());
        } else {
            got = r;
        }
    }
    assert_eq!(got.unwrap(), whole);
}

#[test]
fn frame_keeps_following_bytes() {
    let mut bytes = framed(b"ab");
    bytes.extend(framed(b"cde"));
    let mut dec = GameByteFrameDecoder::new();
    assert_eq!(dec.decode(&bytes).unwrap().unwrap(), b"ab".to_vec());
    assert_eq!(dec.decode(&[]).unwrap().unwrap(), b"cde".to_vec());
    assert_eq!(dec.decode(&[]).unwrap(), None);
}

#[test]
fn frame_length_above_maximum_is_refused() {
    let mut dec = GameByteFrameDecoder::new();
    let len = (MAX_PACKET_LENGTH as u32 + 1).to_be_bytes();
    assert_eq!(dec.decode(&len), Err(FrameError::LengthOutOfRange));
    let mut dec = GameByteFrameDecoder::new();
    assert_eq!(dec.decode(&[0xFF, 0xFF, 0xFF, 0xFE]), Err(FrameError::LengthOutOfRange));
    let mut dec = GameByteFrameDecoder::new();
    let len = (MAX_PACKET_LENGTH as u32).to_be_bytes();
    assert_eq!(dec.decode(&len), Ok(None));
}

#[test]
fn frame_empty_payload() {
    let mut dec = GameByteFrameDecoder::new();
    assert_eq!(dec.decode(&[0, 0, 0, 0]).unwrap().unwrap(), Vec::<u8>::new());
    assert_eq!(dec.max_packet_length(), 417792);
}

#[test]
fn byte_decoder_splits_opcode() {
    let dec = GameByteDecoder::new();
    let m = dec.decode(&[0x01, 0x02, 9, 8]).unwrap();
    assert_eq!(m.get_header(), 0x0102);
    assert_eq!(m.get_body(), &vec![9u8, 8]);
    assert!(dec.decode(&[7]).is_none());
}

#[test]
fn policy_probe_answered() {
    let mut p = GamePolicyDecoder::new();
    let (bytes, is_policy) = p.decode(b"<policy-file-request/>\0").unwrap();
    assert!(is_policy);
    assert_eq!(bytes, POLICY_XML.as_bytes().to_vec());
    assert!(bytes.ends_with(b"</cross-domain-policy>\0"));
    assert_eq!(GamePolicyDecoder::get_policy_string(), POLICY_XML);
    let mut p = GamePolicyDecoder::new();
    assert_eq!(p.decode(b"\x00\x00"), Some((b"\x00\x00".to_vec(), false)));
    assert_eq!(p.decode(b"<later"), Some((b"<later".to_vec(), false)));
    assert_eq!(p.decode(b""), None);
}

#[test]
fn connection_policy_never_reaches_framing() {
    let mut c = GameConnection::new(0);
    let mut idle = IdleTimeoutHandler::new(30, 60);
    let out = c.on_read(b"<policy-file-request/>\0", 0, &mut idle);
    assert!(out.close);
    assert_eq!(out.reply.unwrap(), POLICY_XML.as_bytes().to_vec());
    assert!(out.messages.is_empty());
}

#[test]
fn connection_other_first_byte_is_framed() {
    let mut c = GameConnection::new(0);
    let mut idle = IdleTimeoutHandler::new(30, 60);
    let mut bytes = framed(b"\x00\x07hi");
    bytes.extend(framed(b"\x00\x08"));
    let out = c.on_read(&bytes, 0, &mut idle);
    assert!(!out.close);
    assert!(out.reply.is_none());
    assert_eq!(out.messages.len(), 2);
    assert_eq!(out.messages[0].get_header(), 7);
    assert_eq!(out.messages[0].get_body(), &b"hi".to_vec());
    assert_eq!(out.messages[1].get_header(), 8);
    assert!(out.messages[1].get_body().is_empty());
}

#[test]
fn connection_split_reads() {
    let mut c = GameConnection::new(0);
    let mut idle = IdleTimeoutHandler::new(30, 60);
    let bytes = framed(b"\x00\x09abc");
    let out = c.on_read(&bytes[..3], 0, &mut idle);
    assert!(out.messages.is_empty());
    let out = c.on_read(&bytes[3..], 0, &mut idle);
    assert_eq!(out.messages.len(), 1);
    assert_eq!(out.messages[0].get_body(), &b"abc".to_vec());
}

#[test]
fn connection_closes_on_oversized_frame() {
    let mut c = GameConnection::new(0);
    let mut idle = IdleTimeoutHandler::new(30, 60);
    let out = c.on_read(&(MAX_PACKET_LENGTH as u32 + 1).to_be_bytes(), 0, &mut idle);
    assert!(out.close);
    assert!(out.messages.is_empty());
    assert!(c.begin_close());
    assert!(!c.begin_close());
}

#[test]
fn rate_limit_eleven_messages() {
    let limiter = GameMessageRateLimit::new();
    let mut counters = RateCounters::new(1_000);
    let mut delivered = 0;
    for k in 0..11u64 {
        if limiter.decode(&mut counters, 42, 1_000 + k * 50) {
            delivered += 1;
        }
    }
    assert_eq!(delivered, 10);
    // Another opcode has its own counter.
    assert!(limiter.decode(&mut counters, 43, 1_600));
    // After the window the opcode is delivered again.
    assert!(limiter.decode(&mut counters, 42, 2_001));
    assert_eq!(counters.last_reset(), 2_001);
}

#[test]
fn rate_limit_in_pipeline() {
    let mut c = GameConnection::new(0);
    let mut idle = IdleTimeoutHandler::new(30, 60);
    let mut bytes = Vec::new();
    for _ in 0..11 {
        bytes.extend(framed(b"\x00\x2a"));
    }
    let out = c.on_read(&bytes, 10, &mut idle);
    assert_eq!(out.messages.len(), 10);
    let out = c.on_read(&framed(b"\x00\x2a"), 1_500, &mut idle);
    assert_eq!(out.messages.len(), 1);
}

#[test]
fn idle_pong_timeout_closes() {
    let mut h = IdleTimeoutHandler::new(30, 60);
    assert_eq!(h.pong_timeout(), 60_000);
    assert_eq!(h.ping_schedule(), 30_000);
    assert_eq!(h.tick(0), TickAction::Stop);
    assert!(h.initialize(1_000));
    assert!(!h.initialize(5_000));
    assert_eq!(h.tick(31_000), TickAction::SendPing);
    assert_eq!(h.tick(61_000), TickAction::SendPing);
    assert_eq!(h.tick(61_001), TickAction::Close);
}

#[test]
fn idle_pong_resets_deadline() {
    let mut h = IdleTimeoutHandler::new(30, 60);
    h.initialize(0);
    h.on_client_message(&ClientMessage::new(1, vec![]), 59_000);
    assert_eq!(h.tick(60_001), TickAction::Close);
    h.on_client_message(&ClientMessage::new(PONG_EVENT_HEADER, vec![]), 59_999);
    assert_eq!(h.tick(60_001), TickAction::SendPing);
    assert_eq!(h.tick(119_999), TickAction::SendPing);
    assert_eq!(h.tick(120_000), TickAction::Close);
    h.destroy();
    assert_eq!(h.state(), IdleState::Destroyed);
    assert_eq!(h.tick(0), TickAction::Stop);
    assert!(!h.initialize(0));
}

#[test]
fn idle_zero_seconds_is_one_millisecond() {
    let h = IdleTimeoutHandler::new(0, 0);
    assert_eq!(h.ping_schedule(), 1);
    assert_eq!(h.pong_timeout(), 1);
}

#[test]
fn pong_in_pipeline_touches_supervisor() {
    let mut c = GameConnection::new(0);
    let mut idle = IdleTimeoutHandler::new(30, 60);
    idle.initialize(0);
    let pong = PONG_EVENT_HEADER.to_be_bytes();
    c.on_read(&framed(&pong), 50_000, &mut idle);
    assert_eq!(idle.tick(100_000), TickAction::SendPing);
}

#[test]
fn dispatch_plans() {
    let mut pm: PacketManager<&'static str> = PacketManager::new();
    pm.register(42, "ping handler");
    assert_eq!(pm.plan(42, false), DispatchPlan::Inline);
    assert_eq!(pm.plan(42, true), DispatchPlan::Spawn);
    assert_eq!(pm.plan(7, true), DispatchPlan::Drop);
    assert_eq!(pm.get_handler(42), Some(&"ping handler"));
    assert_eq!(pm.get_handler(7), None);
    pm.register_incoming_name(42, "Ping".to_string());
    assert_eq!(pm.get_incoming_packet_name(42), Some(&"Ping".to_string()));
    assert_eq!(pm.get_outgoing_packet_name(42), None);
}

#[test]
fn failure_reports() {
    assert_eq!(exception_caught(IoFailure::ConnectionReset, true), FailureReport::Quiet);
    assert_eq!(exception_caught(IoFailure::BrokenPipe, true), FailureReport::Quiet);
    assert_eq!(exception_caught(IoFailure::InvalidData, true), FailureReport::LogViolation);
    assert_eq!(exception_caught(IoFailure::Other, true), FailureReport::LogError);
    assert_eq!(exception_caught(IoFailure::Other, false), FailureReport::Silent);
}

#[test]
fn end_to_end_handshake_and_message() {
    let key = Arc::new(HabboRSACrypto::new_with_private_key(E, N, D));
    let mut server = HabboDiffieHellman::new(Arc::clone(&key)).unwrap();
    let client = HabboDiffieHellman::new(Arc::clone(&key)).unwrap();
    // The client's prime and generator are taken by the server.
    server
        .do_handshake(&client.get_signed_prime().unwrap(), &client.get_signed_generator().unwrap())
        .unwrap();
    let s_server = server.get_shared_key(&client.get_public_key().unwrap()).unwrap();
    let s_client = client.get_shared_key(&server.get_public_key().unwrap()).unwrap();
    assert_eq!(s_server, s_client);

    let mut conn = GameConnection::new(0);
    conn.activate();
    assert!(conn.install_cipher(&s_server));
    assert!(!conn.install_cipher(b"other"));
    let mut client_rc4 = HabboRC4::new(&s_client);
    let mut payload = b"\x00\x2aping".to_vec();
    client_rc4.parse(&mut payload);
    let mut idle = IdleTimeoutHandler::new(30, 60);
    let out = conn.on_read(&framed(&payload), 5, &mut idle);
    assert_eq!(out.messages.len(), 1);

    let mut pm: PacketManager<Box<dyn Fn(&ClientMessage) -> Vec<u8>>> = PacketManager::new();
    pm.register(42, Box::new(|m: &ClientMessage| m.get_body().clone()));
    let msg = &out.messages[0];
    assert_eq!(msg.get_header(), 42);
    assert_eq!(pm.plan(42, false), DispatchPlan::Inline);
    let handler = pm.get_handler(msg.get_header() as i32).unwrap();
    assert_eq!(handler(msg), b"ping".to_vec());
}

#[test]
fn connection_with_configured_limits() {
    let limiter = GameMessageRateLimit::with_limits(1_000, 2);
    let mut c = GameConnection::with_limits(0, 8, limiter);
    let mut idle = IdleTimeoutHandler::new(30, 60);
    let mut bytes = Vec::new();
    for _ in 0..3 {
        bytes.extend(framed(b"\x00\x01"));
    }
    let out = c.on_read(&bytes, 0, &mut idle);
    assert_eq!(out.messages.len(), 2);
    let out = c.on_read(&framed(b"\x00\x01123456789"), 0, &mut idle);
    assert!(out.close);
    assert!(c.begin_close());
    c.finish_close();
}
