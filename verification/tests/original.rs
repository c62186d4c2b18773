use sipress_core::rtp::packet::{RtpPacket, PT_PCMU, RTP_HEADER_SIZE};
use sipress_core::rtp::stats::RtpStats;
use sipress_core::sip::message::{SipMessage, SipResponse};
use sipress_core::sip::parser::SipParser;
use sipress_core::sip::register::DigestChallenge;
use sipress_core::sip_logger::SipLogger;

#[test]
fn test_encode_decode_roundtrip() {
    let pkt = RtpPacket::new(PT_PCMU, 42, 1000, 0xDEADBEEF, vec![0u8; 160]);
    let bytes = pkt.encode();
    assert_eq!(bytes.len(), RTP_HEADER_SIZE + 160);

    let decoded = RtpPacket::decode(&bytes).unwrap();
    assert_eq!(decoded.sequence, 42);
    assert_eq!(decoded.timestamp, 1000);
    assert_eq!(decoded.ssrc, 0xDEADBEEF);
    assert_eq!(decoded.payload.len(), 160);
}

#[test]
fn test_loss_rate_seq_based() {
    let mut stats = RtpStats::new();
    // packets 100, 101, 103 arrive (102 is lost); the gaps are in 8 kHz ticks
    let t = 0u64;
    stats.on_recv(100, 0, t, 0);
    stats.on_recv(101, 160, t + 20_000, 160);
    stats.on_recv(103, 480, t + 60_000, 320);
    // expected = 103 - 100 + 1 = 4, recv = 3, lost = 1
    let (expected, lost) = stats.expected_and_lost();
    let loss = lost as f64 / expected as f64;
    assert!((loss - 0.25).abs() < 0.01, "loss={}", loss);
}

#[test]
fn sdp_rtp_addr_session_level_c() {
    let raw = "SIP/2.0 200 OK\r\nContent-Length: 100\r\n\r\n\
               v=0\r\n\
               o=- 1 1 IN IP4 10.0.0.1\r\n\
               s=-\r\n\
               c=IN IP4 10.0.0.1\r\n\
               t=0 0\r\n\
               m=audio 20000 RTP/AVP 8\r\n\
               a=rtpmap:8 PCMA/8000\r\n";
    let addr = SipResponse::sdp_rtp_addr(raw, "192.168.1.1");
    assert_eq!(addr, Some("10.0.0.1:20000".to_string()));
}

#[test]
fn sdp_rtp_addr_media_level_c_overrides_session() {
    let raw = "SIP/2.0 200 OK\r\n\r\n\
               v=0\r\n\
               c=IN IP4 10.0.0.1\r\n\
               t=0 0\r\n\
               m=audio 20000 RTP/AVP 8\r\n\
               c=IN IP4 172.16.0.5\r\n\
               a=rtpmap:8 PCMA/8000\r\n";
    let addr = SipResponse::sdp_rtp_addr(raw, "192.168.1.1");
    assert_eq!(addr, Some("172.16.0.5:20000".to_string()));
}

#[test]
fn sdp_rtp_addr_fallback_ip_when_no_c_line() {
    let raw = "SIP/2.0 200 OK\r\n\r\n\
               v=0\r\n\
               t=0 0\r\n\
               m=audio 16000 RTP/AVP 8\r\n";
    let addr = SipResponse::sdp_rtp_addr(raw, "192.168.1.1");
    assert_eq!(addr, Some("192.168.1.1:16000".to_string()));
}

#[test]
fn sdp_rtp_addr_zero_ip_uses_fallback() {
    let raw = "SIP/2.0 200 OK\r\n\r\n\
               v=0\r\n\
               c=IN IP4 0.0.0.0\r\n\
               m=audio 16000 RTP/AVP 8\r\n";
    let addr = SipResponse::sdp_rtp_addr(raw, "10.1.1.1");
    assert_eq!(addr, Some("10.1.1.1:16000".to_string()));
}

#[test]
fn sdp_rtp_port_basic() {
    let raw = "SIP/2.0 200 OK\r\n\r\nm=audio 18000 RTP/AVP 8\r\n";
    assert_eq!(SipResponse::sdp_rtp_port(raw), Some(18000));
}

#[test]
fn invite_contains_required_headers() {
    let msg = SipMessage::invite(
        "abc@test", "1000", "10.0.0.1:5060", "2001",
        "10.0.0.2:5060", "10.0.0.1:5070", 1,
        "z9hG4bK-test", "tag123", "UDP", 16000,
    );
    assert!(msg.starts_with("INVITE sip:2001@10.0.0.2:5060 SIP/2.0\r\n"));
    assert!(msg.contains("Call-ID: abc@test\r\n"));
    assert!(msg.contains("CSeq: 1 INVITE\r\n"));
    assert!(msg.contains("From: <sip:1000@10.0.0.1:5060>;tag=tag123\r\n"));
    assert!(msg.contains("To: <sip:2001@10.0.0.2:5060>\r\n"));
    assert!(msg.contains("m=audio 16000 RTP/AVP 8\r\n"));
    assert!(msg.contains("Content-Type: application/sdp\r\n"));
}

#[test]
fn ack_uses_contact_uri_when_provided() {
    let msg = SipMessage::ack(
        "abc@test", "1000", "10.0.0.1", "2001", "srv-tag",
        "10.0.0.2:5060", "10.0.0.1:5070", 1,
        "z9hG4bK-ack", "tag123", "UDP",
        Some("sip:2001@10.0.0.2:5061"),
    );
    assert!(msg.starts_with("ACK sip:2001@10.0.0.2:5061 SIP/2.0\r\n"));
}

#[test]
fn ack_falls_back_to_to_uri() {
    let msg = SipMessage::ack(
        "abc@test", "1000", "10.0.0.1", "2001", "srv-tag",
        "10.0.0.2:5060", "10.0.0.1:5070", 1,
        "z9hG4bK-ack", "tag123", "UDP", None,
    );
    assert!(msg.starts_with("ACK sip:2001@10.0.0.2:5060 SIP/2.0\r\n"));
}

#[test]
fn bye_contains_correct_cseq() {
    let msg = SipMessage::bye(
        "abc@test", "1000", "10.0.0.1", "2001", "srv-tag",
        "10.0.0.2:5060", "10.0.0.1:5070", 2,
        "z9hG4bK-bye", "tag123", "UDP", None,
    );
    assert!(msg.contains("CSeq: 2 BYE\r\n"));
    assert!(msg.contains(";tag=srv-tag\r\n"));
}

#[test]
fn cancel_preserves_branch() {
    let msg = SipMessage::cancel(
        "abc@test", "1000", "10.0.0.1", "2001",
        "10.0.0.2:5060", "10.0.0.1:5070", 1,
        "z9hG4bK-orig", "tag123", "UDP",
    );
    assert!(msg.starts_with("CANCEL sip:2001@10.0.0.2:5060 SIP/2.0\r\n"));
    assert!(msg.contains("branch=z9hG4bK-orig"));
    assert!(msg.contains("CSeq: 1 CANCEL\r\n"));
}

#[test]
fn ok_for_server_bye_echoes_headers() {
    let bye_req = "BYE sip:1000@10.0.0.1:5070 SIP/2.0\r\n\
                   Via: SIP/2.0/UDP 10.0.0.2:5060;branch=z9hG4bK-srv\r\n\
                   From: <sip:2001@10.0.0.2>;tag=srv-tag\r\n\
                   To: <sip:1000@10.0.0.1>;tag=my-tag\r\n\
                   Call-ID: test123@10.0.0.2\r\n\
                   CSeq: 5 BYE\r\n\
                   Content-Length: 0\r\n\
                   \r\n";
    let ok = SipMessage::ok_for_server_bye(bye_req);
    assert!(ok.starts_with("SIP/2.0 200 OK\r\n"));
    assert!(ok.contains("Call-ID: test123@10.0.0.2\r\n"));
    assert!(ok.contains("CSeq: 5 BYE\r\n"));
    assert!(ok.contains("tag=srv-tag"));
    assert!(ok.contains("tag=my-tag"));
}

#[test]
fn ok_for_reinvite_includes_sdp() {
    let reinvite = "INVITE sip:1000@10.0.0.1:5070 SIP/2.0\r\n\
                    Via: SIP/2.0/UDP 10.0.0.2:5060;branch=z9hG4bK-ri\r\n\
                    From: <sip:2001@10.0.0.2>;tag=srv-tag\r\n\
                    To: <sip:1000@10.0.0.1>;tag=my-tag\r\n\
                    Call-ID: test123@10.0.0.2\r\n\
                    CSeq: 3 INVITE\r\n\
                    \r\n";
    let ok = SipMessage::ok_for_server_reinvite(reinvite, "10.0.0.1:5070", 18000);
    assert!(ok.starts_with("SIP/2.0 200 OK\r\n"));
    assert!(ok.contains("Content-Type: application/sdp\r\n"));
    assert!(ok.contains("m=audio 18000 RTP/AVP 8\r\n"));
}

#[test]
fn branch_starts_with_magic_cookie() {
    let branch = SipMessage::new_branch();
    assert!(branch.starts_with("z9hG4bK-"), "branch must start with RFC 3261 magic cookie");
}

#[test]
fn tag_is_8_chars() {
    let tag = SipMessage::new_tag();
    assert_eq!(tag.len(), 8);
}

#[test]
fn call_id_contains_domain() {
    let cid = SipMessage::new_call_id("example.com");
    assert!(cid.ends_with("@example.com"));
}

const RESPONSE_200: &str = "\
SIP/2.0 200 OK\r\n\
Via: SIP/2.0/UDP 192.168.1.10:5060;branch=z9hG4bK-abc\r\n\
From: <sip:1000@192.168.1.10>;tag=aabbccdd\r\n\
To: <sip:2001@192.168.1.100>;tag=server123\r\n\
Call-ID: abc123@192.168.1.10\r\n\
CSeq: 1 INVITE\r\n\
Contact: <sip:2001@192.168.1.100>\r\n\
Content-Length: 0\r\n\
\r\n";

#[test]
fn test_status_code() {
    assert_eq!(SipParser::status_code(RESPONSE_200), Some(200));
}

#[test]
fn test_call_id() {
    assert_eq!(
        SipParser::call_id(RESPONSE_200),
        Some("abc123@192.168.1.10".to_string())
    );
}

#[test]
fn test_to_tag() {
    assert_eq!(SipParser::to_tag(RESPONSE_200), Some("server123".to_string()));
}

#[test]
fn test_from_tag() {
    assert_eq!(SipParser::from_tag(RESPONSE_200), Some("aabbccdd".to_string()));
}

#[test]
fn test_cseq_method() {
    assert_eq!(SipParser::cseq_method(RESPONSE_200), Some("INVITE".to_string()));
}

#[test]
fn parse_digest_challenge() {
    let raw = "SIP/2.0 401 Unauthorized\r\n\
               Via: SIP/2.0/UDP 1.2.3.4:5060\r\n\
               WWW-Authenticate: Digest realm=\"sip.example.com\", \
               nonce=\"abc123\", algorithm=MD5, qop=\"auth\"\r\n\
               \r\n";
    let c = DigestChallenge::parse(raw).expect("should parse");
    assert_eq!(c.realm, "sip.example.com");
    assert_eq!(c.nonce, "abc123");
    assert_eq!(c.algorithm, "MD5");
    assert_eq!(c.qop.as_deref(), Some("auth"));
}

#[test]
fn build_auth_response() {
    let c = DigestChallenge {
        realm: "sip.example.com".into(),
        nonce: "abc123".into(),
        algorithm: "MD5".into(),
        qop: None,
        opaque: None,
    };
    let h = c.build_authorization("alice", "secret", "REGISTER", "sip:1.2.3.4:5060");
    assert!(h.contains("username=\"alice\""));
    assert!(h.contains("response=\""));
}

#[test]
fn test_timestamp_format() {
    let ts = SipLogger::secs_to_datetime(0);
    assert_eq!(ts, "19700101_000000");

    // 2024-05-01 14:30:22 UTC = 1714573822
    let ts2 = SipLogger::secs_to_datetime(1714573822);
    assert_eq!(ts2, "20240501_143022");
}
