use sipress_core::agent::{
    accept_invite, add_call, answer_invite, answer_reinvite, ack_call, agent_call_id, agent_request, bye_call,
    build_bye_from_dialog, build_bye_from_dialog_with_branch, call_expired, call_timeout_secs, cancel_call,
    end_expired_call, pick_dummy_rtp_port, reg_step, register_answer, register_refresh_secs, AgentCall,
    AgentRequest, RegAction, RegAnswer, RegContext, RegEvent, RegRunner, RegState,
};
use sipress_core::caller::{
    all_done, classify_message, concurrent_calls, find_dialog, handle_request, handle_response,
    may_start_call, next_callee, pick_callee, retain_in_progress, scan_dialog, start_call,
    CallerSettings, RequestAction, ResponseAction, ScanAction, SipEvent,
};
use sipress_core::config::{check_agent_accounts, check_caller_transport, AgentAccount, StartError, Transport};
use sipress_core::registrar::{
    first_answer, is_provisional, parse_expires, parse_status_code, second_answer, FirstAnswer,
    RegisterStatus,
};
use sipress_core::reporter::{format_from_lower, OutputFormat};
use sipress_core::sip::dialog::{Dialog, DialogState};
use sipress_core::sip::parser::SipParser;
use sipress_core::sip::register::{md5_hex, DigestChallenge};
use sipress_core::sip_logger::{year_fits, Direction, SipLogger, SipRole};
use sipress_core::stats::{DetailedStats, LiveStats};
use std::str::FromStr;
use std::time::Instant;

fn settings() -> CallerSettings {
    CallerSettings {
        caller_number: "1000".to_string(),
        local_domain: "10.0.0.1".to_string(),
        server_addr: "10.0.0.2:5060".to_string(),
        local_addr: "10.0.0.1:5070".to_string(),
        enable_rtp: true,
        rtp_base_port: 16000,
        call_duration_secs: 30,
        callee_prefix: "2".to_string(),
        callee_range: 99,
        callee_fixed: None,
        max_concurrent_calls: 2,
        max_total_calls: Some(3),
    }
}

#[test]
fn md5_of_empty_string() {
    assert_eq!(md5_hex(""), "d41d8cd98f00b204e9800998ecf8427e");
    assert_eq!(md5_hex("abc"), "900150983cd24fb0d6963f7d28e17f72");
}

#[test]
fn digest_response_rfc2617_example() {
    // RFC 2617 §3.5 with qop=auth: the response for cnonce 0a4f113b
    let c = DigestChallenge {
        realm: "testrealm@host.com".into(),
        nonce: "dcd98b7102dd2f0e8b11d0f600bfb0c093".into(),
        algorithm: "MD5".into(),
        qop: Some("auth".into()),
        opaque: Some("5ccc069c403ebaf9f0171e9517f40e41".into()),
    };
    let h = c.build_authorization_with_cnonce("Mufasa", "Circle Of Life", "GET", "/dir/index.html", 0x0a4f113b);
    assert!(h.contains("response=\"6629fae49393a05397450978507c4ef1\""), "{}", h);
    assert!(h.contains("cnonce=\"0a4f113b\""));
    assert!(h.contains(", opaque=\"5ccc069c403ebaf9f0171e9517f40e41\""));
}

#[test]
fn random_cnonce_is_eight_hex_digits() {
    let c = DigestChallenge {
        realm: "r".into(),
        nonce: "n".into(),
        algorithm: "MD5".into(),
        qop: Some("auth".into()),
        opaque: None,
    };
    let h = c.build_authorization("u", "p", "REGISTER", "sip:x");
    let i = h.find("cnonce=\"").unwrap() + 8;
    let cn = &h[i..i + 8];
    assert!(cn.chars().all(|c| c.is_ascii_hexdigit() && !c.is_ascii_uppercase()));
}

#[test]
fn cseq_method_is_upper_cased() {
    let raw = "SIP/2.0 200 OK\r\nCSeq: 7 invite\r\n\r\n";
    assert_eq!(SipParser::cseq_method(raw), Some("INVITE".to_string()));
}

#[test]
fn new_ids_are_lower_hex() {
    let t = SipMessageIds::tag();
    assert!(t.chars().all(|c| c.is_ascii_hexdigit() && !c.is_ascii_uppercase()));
}

struct SipMessageIds;
impl SipMessageIds {
    fn tag() -> String {
        sipress_core::sip::message::SipMessage::new_tag()
    }
}

#[test]
fn registrar_reads_codes_and_expires() {
    assert_eq!(parse_status_code("SIP/2.0  200   OK\r\n"), Some(200));
    assert_eq!(parse_status_code("garbage"), None);
    assert!(is_provisional("SIP/2.0 180 Ringing\r\n\r\n"));
    assert!(!is_provisional("SIP/2.0 200 OK\r\n\r\n"));
    let r = "SIP/2.0 200 OK\r\nexpires:  3600 \r\nContact: <sip:a@b>;expires=60\r\n\r\n";
    assert_eq!(parse_expires(r), Some(3600));
    let r = "SIP/2.0 200 OK\r\nContact: <sip:a@b>;EXPIRES=120;q=1\r\n\r\n";
    assert_eq!(parse_expires(r), Some(120));
    let r = "SIP/2.0 200 OK\r\nExpires: soon\r\n\r\n";
    assert_eq!(parse_expires(r), None);
}

#[test]
fn registrar_first_answer() {
    match first_answer("SIP/2.0 200 OK\r\nExpires: 300\r\n\r\n", "alice", 600) {
        FirstAnswer::Done(r) => {
            assert_eq!(r.status, RegisterStatus::Registered);
            assert_eq!(r.message, "註冊成功 (alice)");
            assert_eq!(r.expires_secs, Some(300));
            assert_eq!(r.sip_code, Some(200));
        }
        _ => panic!(),
    }
    match first_answer("SIP/2.0 200 OK\r\n\r\n", "alice", 600) {
        FirstAnswer::Done(r) => assert_eq!(r.expires_secs, Some(600)),
        _ => panic!(),
    }
    let chal = "SIP/2.0 401 Unauthorized\r\nWWW-Authenticate: Digest realm=\"r\", nonce=\"n\"\r\n\r\n";
    assert!(matches!(first_answer(chal, "alice", 600), FirstAnswer::Challenged(c) if c.realm == "r"));
    assert!(matches!(first_answer("SIP/2.0 407 Proxy\r\n\r\n", "a", 1), FirstAnswer::BadChallenge(407)));
    match first_answer("SIP/2.0 503 Busy\r\n\r\n", "a", 1) {
        FirstAnswer::Done(r) => {
            assert_eq!(r.status, RegisterStatus::Rejected);
            assert_eq!(r.message, "意外回應 (SIP 503)");
            assert_eq!(r.sip_code, Some(503));
        }
        _ => panic!(),
    }
    match first_answer("hello", "a", 1) {
        FirstAnswer::Done(r) => {
            assert_eq!(r.status, RegisterStatus::NetworkError);
            assert_eq!(r.message, "無法解析回應");
            assert_eq!(r.sip_code, None);
        }
        _ => panic!(),
    }
}

#[test]
fn registrar_second_answer() {
    let r = second_answer("SIP/2.0 403 Forbidden\r\n\r\n", "a", 1);
    assert_eq!(r.status, RegisterStatus::AuthFailed);
    assert_eq!(r.message, "認證失敗 (SIP 403)");
    let r = second_answer("SIP/2.0 480 Unavailable\r\n\r\n", "a", 1);
    assert_eq!(r.status, RegisterStatus::Rejected);
    assert_eq!(r.message, "註冊被拒 (SIP 480)");
    let r = second_answer("nonsense", "a", 1);
    assert_eq!(r.sip_code, Some(0));
    let r = second_answer("SIP/2.0 200 OK\r\n\r\n", "bob", 42);
    assert_eq!(r.status, RegisterStatus::Registered);
    assert_eq!(r.expires_secs, Some(42));
}

#[test]
fn logger_texts() {
    let l = SipLogger::new(SipRole::Agent, 0);
    assert_eq!(l.file_name, "19700101_000000_agent.sip.log");
    assert!(l.header().starts_with("# sipress SIP Log\n# 檔案建立時間：19700101_000000\n# 角色：agent\n"));
    assert_eq!(SipLogger::now_str(3661, 7), "01:01:01.007");
    assert_eq!(
        SipLogger::message_entry(Direction::Send, "X", "1.2.3.4:5060", 0, 0),
        "── 00:00:00.000 >>> 1.2.3.4:5060 [→ SERVER] ──\nX\n\n\n"
    );
    assert_eq!(
        SipLogger::message_entry(Direction::Recv, "Y\n", "p", 0, 0),
        "── 00:00:00.000 <<< p [← SERVER] ──\nY\n\n\n"
    );
    assert_eq!(
        SipLogger::event_entry("c1", "TIMEOUT", 86399, 999),
        "── 23:59:59.999 [EVENT] call-id=c1 → TIMEOUT ──\n\n"
    );
    assert!(SipLogger::summary_entry("s").ends_with("# 壓測結束摘要\n# ════════════════════════════════════\ns\n"));
    assert!(SipLogger::is_leap(2000) && !SipLogger::is_leap(1900) && SipLogger::is_leap(2024));
    assert_eq!(SipLogger::timestamp_for_filename(951782400), "20000229_000000");
}

#[test]
fn output_formats() {
    assert_eq!(OutputFormat::from_str("JSON"), Ok(OutputFormat::Json));
    assert_eq!(OutputFormat::parse("Table"), Ok(OutputFormat::Table));
    assert_eq!(OutputFormat::parse("csv"), Ok(OutputFormat::Csv));
    assert_eq!(OutputFormat::parse("XML"), Err("未知格式: xml".to_string()));
}

#[test]
fn live_stats_balance() {
    let mut l = LiveStats::new();
    l.on_invite();
    l.on_invite();
    l.on_invite();
    l.on_answered();
    l.on_completed();
    l.on_failed();
    assert_eq!(l.calls_active, 1);
    assert_eq!(
        l.calls_active as i128,
        l.calls_initiated as i128 - l.calls_completed as i128 - l.calls_failed as i128 - l.calls_timeout as i128
    );
    l.on_timeout();
    l.on_completed();
    assert_eq!(l.calls_concurrent(), 0);
    l.on_rtp_stop();
    assert_eq!(l.rtp_sessions, 0);
    l.on_rtp_start();
    assert_eq!(l.rtp_sessions, 1);
}

#[test]
fn detailed_stats_record() {
    let mut d = DetailedStats::new();
    d.record_pdd_us(0);
    d.record_pdd_us(1500);
    d.record_setup_us(10);
    assert_eq!(d.pdd_hist.count(), 2);
    assert_eq!(d.setup_hist.count(), 1);
    assert_eq!(d.dur_hist.count(), 0);
    assert_eq!(d.pdd_hist.hist.min(), 1);
    // each value lands in its own bucket: 0 is recorded as 1, 1500 as 1500
    assert_eq!(d.pdd_hist.hist.count_at(1), 1);
    assert_eq!(d.pdd_hist.hist.count_at(1500), 1);
    assert_eq!(d.setup_hist.hist.count_at(10), 1);
    assert!(!d.pdd_hist.hist.is_auto_resize());
    assert_eq!(d.pdd_hist.hist.high(), 60_000_000);
    // 60 s, the highest value tracked, is still counted
    d.record_duration_us(60_000_000);
    assert_eq!(d.dur_hist.count(), 1);
    d.record_fail_code(404);
    d.record_fail_code(503);
    d.record_fail_code(600);
    d.record_fail_code(302);
    assert_eq!((d.fail_4xx, d.fail_5xx, d.fail_6xx), (1, 1, 1));
}

#[test]
fn dialog_lifecycle() {
    let mut d = Dialog::new("c@x".into(), "ft".into(), "z9hG4bK-1".into(), "2001".into(), 16000);
    assert_eq!(d.state, DialogState::Calling);
    d.on_ringing();
    assert_eq!(d.state, DialogState::Ringing);
    assert!(d.ringing_at.is_some());
    d.on_trying();
    assert_eq!(d.state, DialogState::Ringing);
    d.on_ok("tt".into());
    assert!(d.is_answered());
    let answered = d.answered_at;
    d.on_ok("other".into());
    assert_eq!(d.to_tag.as_deref(), Some("tt"));
    assert_eq!(d.answered_at, answered);
    d.on_bye_sent();
    assert_eq!((d.state, d.cseq), (DialogState::Terminating, 2));
    d.on_bye_ok();
    assert_eq!(d.state, DialogState::Completed);
    d.on_error(486);
    assert_eq!(d.state, DialogState::Failed(486));
}

#[test]
fn classify_messages() {
    let ok = "SIP/2.0 200 OK\r\nTo: <sip:2001@h>;tag=t9\r\nCall-ID: c1\r\nCSeq: 1 INVITE\r\n\
              Contact: <sip:2001@10.0.0.2:5062>\r\n\r\nv=0\r\nm=audio 20000 RTP/AVP 8\r\n";
    match classify_message(ok, "10.0.0.2") {
        Some(SipEvent::Response { call_id, code, to_tag, method, remote_rtp_addr, contact_uri }) => {
            assert_eq!(call_id, "c1");
            assert_eq!(code, 200);
            assert_eq!(to_tag.as_deref(), Some("t9"));
            assert_eq!(method.as_deref(), Some("INVITE"));
            assert_eq!(remote_rtp_addr.as_deref(), Some("10.0.0.2:20000"));
            assert_eq!(contact_uri.as_deref(), Some("sip:2001@10.0.0.2:5062"));
        }
        _ => panic!(),
    }
    let bye = "bye sip:1000@h SIP/2.0\r\ni: c2\r\n\r\n";
    match classify_message(bye, "x") {
        Some(SipEvent::IncomingRequest { call_id, method, .. }) => {
            assert_eq!(call_id, "c2");
            assert_eq!(method, "BYE");
        }
        _ => panic!(),
    }
    assert!(classify_message("OPTIONS sip:x SIP/2.0\r\nCall-ID: c\r\n\r\n", "x").is_none());
    assert!(classify_message("SIP/2.0 200 OK\r\n\r\n", "x").is_none());
}

#[test]
fn caller_call_flow() {
    let s = settings();
    let mut live = LiveStats::new();
    let mut ds: Vec<Dialog> = Vec::new();
    assert!(may_start_call(&s, &live, &ds, true));
    assert!(!may_start_call(&s, &live, &ds, false));
    let callee = pick_callee(&s, 42);
    assert_eq!(callee, "242");
    let inv = start_call(&s, &mut ds, &mut live, callee, "c1".into(), "ft".into(), "z9hG4bK-i".into(), 0);
    assert!(inv.starts_with("INVITE sip:242@10.0.0.2:5060 SIP/2.0\r\n"));
    assert!(inv.contains("m=audio 9 RTP/AVP 8\r\n"));
    assert_eq!(live.calls_initiated, 1);
    assert_eq!(concurrent_calls(&ds), 1);
    let i = find_dialog(&ds, "c1").unwrap();

    let a = handle_response(&s, &mut ds[i], &mut live, 180, None, Some("INVITE".into()), None, "b");
    assert!(matches!(a, ResponseAction::Ringing));
    let a = handle_response(&s, &mut ds[i], &mut live, 200, Some("tt".into()), Some("INVITE".into()),
        Some("sip:242@10.0.0.2:5099".into()), "z9hG4bK-ack");
    match a {
        ResponseAction::Answered { ack } => {
            assert!(ack.starts_with("ACK sip:242@10.0.0.2:5099 SIP/2.0\r\n"));
            assert!(ack.contains("branch=z9hG4bK-ack\r\n"));
            assert!(ack.contains("To: <sip:242@10.0.0.2:5060>;tag=tt\r\n"));
        }
        _ => panic!(),
    }
    assert_eq!(ds[i].state, DialogState::Connected);
    assert_eq!(live.calls_answered, 1);

    match scan_dialog(&s, &mut ds[i], &mut live, false, true, false, "z9hG4bK-bye") {
        ScanAction::Bye(b) => {
            assert!(b.starts_with("BYE sip:242@10.0.0.2:5099 SIP/2.0\r\n"));
            assert!(b.contains("CSeq: 2 BYE\r\n"));
        }
        _ => panic!(),
    }
    assert_eq!(ds[i].state, DialogState::Terminating);
    let a = handle_response(&s, &mut ds[i], &mut live, 200, None, Some("BYE".into()), None, "b");
    assert!(matches!(a, ResponseAction::ByeOk));
    assert_eq!(live.calls_completed, 1);
    assert_eq!(live.calls_active, 0);
    retain_in_progress(&mut ds);
    assert!(ds.is_empty());
}

#[test]
fn caller_failures_and_timeouts() {
    let s = settings();
    let mut live = LiveStats::new();
    let mut ds: Vec<Dialog> = Vec::new();
    start_call(&s, &mut ds, &mut live, "2001".into(), "c1".into(), "f1".into(), "z9hG4bK-a".into(), 16000);
    start_call(&s, &mut ds, &mut live, "2002".into(), "c2".into(), "f2".into(), "z9hG4bK-b".into(), 16002);
    assert!(!may_start_call(&s, &live, &ds, true));
    match handle_response(&s, &mut ds[0], &mut live, 486, Some("x".into()), Some("INVITE".into()), None, "new") {
        ResponseAction::Failed { ack, code } => {
            assert_eq!(code, 486);
            assert!(ack.contains("branch=z9hG4bK-a\r\n"));
            assert!(ack.starts_with("ACK sip:2001@10.0.0.2:5060 SIP/2.0\r\n"));
        }
        _ => panic!(),
    }
    match scan_dialog(&s, &mut ds[1], &mut live, true, false, false, "b") {
        ScanAction::Cancel(c) => assert!(c.starts_with("CANCEL sip:2002@10.0.0.2:5060 SIP/2.0\r\n")),
        _ => panic!(),
    }
    assert_eq!((live.calls_failed, live.calls_timeout, live.calls_active), (1, 1, 0));
    assert!(matches!(
        handle_response(&s, &mut ds[1], &mut live, 302, None, Some("INVITE".into()), None, "b"),
        ResponseAction::Ignored
    ));
    retain_in_progress(&mut ds);
    assert_eq!(ds.len(), 0);
    start_call(&s, &mut ds, &mut live, "2003".into(), "c3".into(), "f3".into(), "z9hG4bK-c".into(), 0);
    assert!(!may_start_call(&s, &live, &ds, true));
    assert!(!all_done(&s, &live));
    let callee = next_callee(&s);
    let n: u64 = callee[1..].parse().unwrap();
    assert!(callee.starts_with('2') && n <= 99);
}

#[test]
fn caller_server_requests() {
    let s = settings();
    let mut live = LiveStats::new();
    let mut d = Dialog::new("c@x".into(), "ft".into(), "z9hG4bK-1".into(), "2001".into(), 0);
    live.on_invite();
    let reinvite = "INVITE sip:1000@h SIP/2.0\r\nVia: SIP/2.0/UDP a\r\nCall-ID: c@x\r\nCSeq: 3 INVITE\r\n\r\n";
    match handle_request(&s, &mut d, &mut live, "INVITE", reinvite) {
        RequestAction::Reinvite { reply } => assert!(reply.contains("m=audio 16000 RTP/AVP 8\r\n")),
        _ => panic!(),
    }
    d.on_ok("t".into());
    let bye = "BYE sip:1000@h SIP/2.0\r\nCall-ID: c@x\r\nCSeq: 4 BYE\r\n\r\n";
    match handle_request(&s, &mut d, &mut live, "BYE", bye) {
        RequestAction::Bye { reply, stop_rtp, completed } => {
            assert!(reply.starts_with("SIP/2.0 200 OK\r\n"));
            assert!(stop_rtp && completed);
        }
        _ => panic!(),
    }
    assert_eq!(d.state, DialogState::Completed);
    assert_eq!(live.calls_completed, 1);
    assert!(matches!(handle_request(&s, &mut d, &mut live, "BYE", bye), RequestAction::Bye { completed: false, .. }));
}

fn account() -> AgentAccount {
    AgentAccount {
        extension: "3001".into(),
        username: "u3001".into(),
        password: "pw".into(),
        domain: "example.com".into(),
    }
}

const INVITE: &str = "INVITE sip:3001@10.0.0.1 SIP/2.0\r\n\
Via: SIP/2.0/UDP 10.0.0.2:5060;branch=z9hG4bK-x\r\n\
From: <sip:555@10.0.0.2>;tag=caller1\r\n\
To: <sip:3001@10.0.0.1>\r\n\
Call-ID: inv1@10.0.0.2\r\n\
CSeq: 1 INVITE\r\n\
\r\n\
v=0\r\nc=IN IP4 10.0.0.9\r\nm=audio 30000 RTP/AVP 8\r\n";

#[test]
fn agent_answers_and_hangs_up() {
    let mut live = LiveStats::new();
    assert_eq!(agent_request("INVITE"), AgentRequest::Invite);
    assert_eq!(agent_request("NOTIFY"), AgentRequest::Other);
    assert_eq!(agent_call_id(INVITE).as_deref(), Some("inv1@10.0.0.2"));
    let a = accept_invite(INVITE, "mytag", &mut live);
    assert!(a.trying.starts_with("SIP/2.0 100 Trying\r\n"));
    assert!(a.ringing.contains("To: <sip:3001@10.0.0.1>;tag=mytag\r\n"));
    assert_eq!(a.remote_from_tag, "caller1");
    assert_eq!((live.calls_initiated, live.calls_answered, live.calls_active), (1, 0, 1));
    let ok = answer_invite(INVITE, "10.0.0.1:5070", "mytag", 17000, &mut live);
    assert!(ok.contains("m=audio 17000 RTP/AVP 8\r\n"));
    assert!(ok.contains("Contact: <sip:555@10.0.0.1:5070;transport=udp>\r\n"));
    assert_eq!((live.calls_initiated, live.calls_answered, live.calls_active), (1, 1, 1));

    let mut calls = vec![AgentCall {
        call_id: "inv1@10.0.0.2".into(),
        invite_raw: INVITE.into(),
        local_to_tag: "mytag".into(),
        answered_at: Instant::now(),
        remote_from_tag: a.remote_from_tag.clone(),
        remote_rtp_addr: None,
        ack_received: false,
    }];
    assert_eq!(ack_call(&mut calls, "inv1@10.0.0.2"), Some(0));
    assert!(calls[0].ack_received);
    assert_eq!(call_timeout_secs(calls[0].ack_received), 150);
    assert_eq!(call_timeout_secs(false), 10);

    let bye = build_bye_from_dialog_with_branch(INVITE, "mytag", "caller1", "10.0.0.1:5070", &account(), "z9hG4bK-q");
    assert_eq!(
        bye,
        "BYE sip:555@10.0.0.2 SIP/2.0\r\nVia: SIP/2.0/UDP 10.0.0.1:5070;branch=z9hG4bK-q\r\n\
         Max-Forwards: 70\r\nFrom: <sip:3001@10.0.0.1:5070>;tag=mytag\r\nTo: <sip:555@10.0.0.2>;tag=caller1\r\n\
         Call-ID: inv1@10.0.0.2\r\nCSeq: 1 BYE\r\nContent-Length: 0\r\n\r\n"
    );
    let random = build_bye_from_dialog(INVITE, "mytag", "caller1", "10.0.0.1:5070", &account());
    assert!(random.contains(";branch=z9hG4bK-"));

    let (ok, c) = bye_call(&mut calls, "inv1@10.0.0.2", "BYE x SIP/2.0\r\nCall-ID: inv1@10.0.0.2\r\n\r\n", &mut live);
    assert!(ok.starts_with("SIP/2.0 200 OK\r\n"));
    assert!(c.is_some() && calls.is_empty());
    assert_eq!((live.calls_completed, live.calls_active), (1, 0));
}

#[test]
fn agent_cancel() {
    let mut live = LiveStats::new();
    live.on_invite();
    let mut calls = vec![AgentCall {
        call_id: "inv1@10.0.0.2".into(),
        invite_raw: INVITE.into(),
        local_to_tag: "mytag".into(),
        answered_at: Instant::now(),
        remote_from_tag: "caller1".into(),
        remote_rtp_addr: None,
        ack_received: false,
    }];
    let (_, none) = cancel_call(&mut calls, "other", "CANCEL x SIP/2.0\r\n\r\n", &mut live);
    assert!(none.is_none());
    let (_, r) = cancel_call(&mut calls, "inv1@10.0.0.2", "CANCEL x SIP/2.0\r\n\r\n", &mut live);
    let (_, resp) = r.unwrap();
    assert!(resp.starts_with("SIP/2.0 487 Request Terminated\r\n"));
    assert!(resp.contains(";tag=mytag\r\n"));
    assert_eq!(live.calls_failed, 1);
}

#[test]
fn agent_registration() {
    let mut st = RegState::new();
    let r1 = st.next_request(&account(), "example.com", "10.0.0.2:5060", "10.0.0.1:5070", "ft", "cid", "UDP", 600, "z9hG4bK-r");
    assert_eq!(st.cseq, 1);
    assert!(r1.contains("CSeq: 1 REGISTER\r\n"));
    assert!(!r1.contains("Authorization"));
    st.challenge = DigestChallenge::parse(
        "SIP/2.0 401 Unauthorized\r\nWWW-Authenticate: Digest realm=\"r\", nonce=\"n\"\r\n\r\n",
    );
    let r2 = st.next_request(&account(), "example.com", "10.0.0.2:5060", "10.0.0.1:5070", "ft", "cid", "UDP", 600, "z9hG4bK-s");
    assert!(r2.contains("CSeq: 2 REGISTER\r\n"));
    assert!(r2.contains("Authorization: Digest username=\"u3001\", realm=\"r\", nonce=\"n\", uri=\"sip:10.0.0.2:5060\""));
    assert_eq!(register_refresh_secs(600), 300);
    assert_eq!(register_refresh_secs(100), 60);
    let p = pick_dummy_rtp_port();
    assert!(p % 2 == 0 && (16000..=32000).contains(&p));

    assert!(matches!(register_answer("SIP/2.0 200 OK\r\nCSeq: 1 INVITE\r\n\r\n"), RegAnswer::NotForRegister));
    assert!(matches!(
        register_answer("SIP/2.0 200 OK\r\nCSeq: 2 REGISTER\r\nExpires: 120\r\n\r\n"),
        RegAnswer::Registered(Some(120))
    ));
    assert!(matches!(
        register_answer("SIP/2.0 401 Unauthorized\r\nCSeq: 1 REGISTER\r\nWWW-Authenticate: Digest realm=\"r\", nonce=\"n\"\r\n\r\n"),
        RegAnswer::Challenged(_)
    ));
    assert!(matches!(register_answer("SIP/2.0 401 Unauthorized\r\nCSeq: 1 REGISTER\r\n\r\n"), RegAnswer::BadChallenge));
    assert!(matches!(register_answer("SIP/2.0 500 Oops\r\nCSeq: 1 REGISTER\r\n\r\n"), RegAnswer::Other(500)));
}

#[test]
fn parser_other_fields() {
    let raw = "SIP/2.0 486 Busy Here \r\n\
               v: SIP/2.0/UDP 1.2.3.4:5060;branch=z9hG4bK-1\r\n\
               CSEQ:  42 BYE\r\n\
               m: <sip:bob@5.6.7.8:5062;transport=udp>;expires=60\r\n\
               Content-Length: 17\r\n\
               \r\n\
               Content-Length: 99\r\n";
    assert_eq!(SipParser::cseq_number(raw), Some(42));
    assert_eq!(SipParser::content_length(raw), Some(17));
    assert_eq!(SipParser::reason_phrase(raw), Some("Busy Here".to_string()));
    assert_eq!(SipParser::via(raw), Some("SIP/2.0/UDP 1.2.3.4:5060;branch=z9hG4bK-1".to_string()));
    assert_eq!(
        SipParser::contact(raw),
        Some("<sip:bob@5.6.7.8:5062;transport=udp>;expires=60".to_string())
    );
    assert_eq!(SipParser::contact_uri(raw), Some("sip:bob@5.6.7.8:5062".to_string()));
    assert_eq!(
        SipParser::contact_uri("SIP/2.0 200 OK\r\nContact: sip:carol@9.9.9.9;lr\r\n\r\n"),
        Some("sip:carol@9.9.9.9".to_string())
    );
    assert_eq!(SipParser::sdp_rtp_port("SIP/2.0 200 OK\r\n\r\nm=audio x\r\nm=audio 4000 RTP/AVP 0\r\n"), Some(4000));
    assert_eq!(
        SipParser::sdp_rtp_port("SIP/2.0 200 OK\r\n\r\nm=video 30000 RTP/AVP 96\r\nm=audio 18000 RTP/AVP 8\r\n"),
        Some(18000)
    );
    assert_eq!(SipParser::status_code("SIP/2.0 abc OK\r\n"), None);
}

#[test]
fn caller_trying_keep_and_forced_end() {
    let s = settings();
    let mut live = LiveStats::new();
    let mut ds: Vec<Dialog> = Vec::new();
    start_call(&s, &mut ds, &mut live, "2001".into(), "c1".into(), "f1".into(), "z9hG4bK-a".into(), 0);
    let d = &mut ds[0];
    assert!(matches!(
        handle_response(&s, d, &mut live, 100, None, Some("INVITE".into()), None, "b"),
        ResponseAction::Trying
    ));
    assert_eq!(d.state, DialogState::Trying);
    assert!(matches!(scan_dialog(&s, d, &mut live, false, false, false, "b"), ScanAction::Keep));
    handle_response(&s, d, &mut live, 200, Some("t".into()), Some("INVITE".into()), None, "b");
    // answered, but the call has not lasted its time yet
    assert!(matches!(scan_dialog(&s, d, &mut live, true, false, true, "b"), ScanAction::Keep));
    assert!(matches!(scan_dialog(&s, d, &mut live, false, true, false, "bb"), ScanAction::Bye(_)));
    // our BYE unanswered for too long: the call is taken as completed
    assert!(matches!(scan_dialog(&s, d, &mut live, false, false, true, "b"), ScanAction::ForceEnd));
    assert_eq!(d.state, DialogState::Completed);
    assert_eq!((live.calls_completed, live.calls_active), (1, 0));
    assert!(matches!(
        handle_request(&s, d, &mut live, "OPTIONS", "OPTIONS x SIP/2.0\r\n\r\n"),
        RequestAction::Ignored
    ));
    assert!(all_done(&CallerSettings { max_total_calls: Some(1), ..settings() }, &live));
}

#[test]
fn never_hang_up_when_call_duration_is_zero() {
    let s = CallerSettings { call_duration_secs: 0, ..settings() };
    let mut live = LiveStats::new();
    let mut ds: Vec<Dialog> = Vec::new();
    start_call(&s, &mut ds, &mut live, "2001".into(), "c1".into(), "f1".into(), "z9hG4bK-a".into(), 0);
    handle_response(&s, &mut ds[0], &mut live, 200, None, Some("INVITE".into()), None, "b");
    assert!(matches!(scan_dialog(&s, &mut ds[0], &mut live, false, true, false, "b"), ScanAction::Keep));
    assert_eq!(ds[0].state, DialogState::Connected);
}

#[test]
fn fixed_callee_wins_unless_empty() {
    let s = CallerSettings { callee_fixed: Some("5555".into()), ..settings() };
    assert_eq!(pick_callee(&s, 7), "5555");
    let s = CallerSettings { callee_fixed: Some(String::new()), ..settings() };
    assert_eq!(pick_callee(&s, 7), "27");
}

#[test]
fn decimal_written_reads_back() {
    for n in [0u64, 7, 10, 99, 12345, 4294967295] {
        let text = sipress_core::num::dec_string(n);
        let raw = format!("SIP/2.0 200 OK\r\nCSeq: {} INVITE\r\n\r\n", text);
        assert_eq!(SipParser::cseq_number(&raw), Some(n as u32));
    }
}

#[test]
fn stamps_are_calendar_dates() {
    assert_eq!(SipLogger::secs_to_datetime(946684799), "19991231_235959");
    assert_eq!(SipLogger::secs_to_datetime(946684800), "20000101_000000");
    assert_eq!(SipLogger::secs_to_datetime(4107542400), "21000301_000000");
}

#[test]
fn year_fits_bound() {
    let last_day: u64 = 365 * (u32::MAX as u64 - 1970);
    assert!(year_fits(0));
    assert!(year_fits(1_700_000_000));
    assert!(year_fits(last_day * 86400 + 86399));
    assert!(!year_fits((last_day + 1) * 86400));
    assert!(!year_fits(u64::MAX));
}

#[test]
fn zero_call_limit_starts_nothing_and_ends_at_once() {
    let s = CallerSettings { max_total_calls: Some(0), ..settings() };
    let live = LiveStats::new();
    let ds = Vec::new();
    assert!(!may_start_call(&s, &live, &ds, true));
    assert!(all_done(&s, &live));
}

#[test]
fn start_checks() {
    assert_eq!(check_caller_transport(Transport::Udp), Ok(()));
    assert_eq!(check_caller_transport(Transport::Tcp), Err(StartError::TcpUnsupported));
    assert_eq!(check_agent_accounts(&vec![]), Err(StartError::NoAgentAccounts));
    assert_eq!(check_agent_accounts(&vec![AgentAccount::default()]), Ok(()));
}

fn agent_call(id: &str) -> AgentCall {
    AgentCall {
        call_id: id.into(),
        invite_raw: INVITE.into(),
        local_to_tag: "mytag".into(),
        answered_at: Instant::now(),
        remote_from_tag: "caller1".into(),
        remote_rtp_addr: None,
        ack_received: false,
    }
}

#[test]
fn agent_call_list_is_keyed_by_call_id() {
    let mut calls = Vec::new();
    add_call(&mut calls, agent_call("a"));
    add_call(&mut calls, agent_call("b"));
    let mut again = agent_call("a");
    again.ack_received = true;
    add_call(&mut calls, again);
    assert_eq!(calls.len(), 2);
    assert_eq!(calls[0].call_id, "a");
    assert!(calls[0].ack_received);
}

#[test]
fn agent_ends_expired_calls() {
    assert!(!call_expired(9_999_999, false));
    assert!(call_expired(10_000_000, false));
    assert!(!call_expired(149_999_999, true));
    assert!(call_expired(150_000_000, true));
    let mut live = LiveStats::new();
    live.on_invite();
    let mut calls = vec![agent_call("inv1@10.0.0.2")];
    let (call, bye) = end_expired_call(&mut calls, "inv1@10.0.0.2", "10.0.0.1:5070", &account(), &mut live).unwrap();
    assert_eq!(call.call_id, "inv1@10.0.0.2");
    assert!(bye.starts_with("BYE "));
    assert!(calls.is_empty());
    assert_eq!((live.calls_completed, live.calls_active), (1, 0));
    assert!(end_expired_call(&mut calls, "x", "10.0.0.1:5070", &account(), &mut live).is_none());
    assert_eq!(live.calls_completed, 1);
}

#[test]
fn agent_reinvite_port() {
    let ok = answer_reinvite(INVITE, "10.0.0.1:5070", Some(17002));
    assert!(ok.starts_with("SIP/2.0 200 OK\r\n"));
    assert!(ok.contains("m=audio 17002 RTP/AVP 8\r\n"));
    let ok = answer_reinvite(INVITE, "10.0.0.1:5070", None);
    assert!(ok.contains("m=audio "));
}

fn reg_context() -> RegContext {
    RegContext {
        account: account(),
        domain: "example.com".into(),
        server: "10.0.0.2:5060".into(),
        local_addr: "10.0.0.1:5070".into(),
        from_tag: "ft".into(),
        call_id: "cid".into(),
        transport: "UDP".into(),
    }
}

#[test]
fn agent_registration_steps() {
    let ctx = reg_context();
    let mut st = RegRunner::new();
    match reg_step(&mut st, &ctx, RegEvent::Refresh, "z9hG4bK-1") {
        RegAction::Register(r) => {
            assert!(r.contains("CSeq: 1 REGISTER\r\n"));
            assert!(r.contains("Expires: 600\r\n"));
            assert!(!r.contains("Authorization"));
        }
        _ => panic!("a REGISTER is sent"),
    }
    let chal = register_answer(
        "SIP/2.0 401 Unauthorized\r\nCSeq: 1 REGISTER\r\nWWW-Authenticate: Digest realm=\"r\", nonce=\"n\"\r\n\r\n",
    );
    match reg_step(&mut st, &ctx, RegEvent::Answer(chal), "z9hG4bK-2") {
        RegAction::Register(r) => {
            assert!(r.contains("CSeq: 2 REGISTER\r\n"));
            assert!(r.contains("Authorization: Digest username=\"u3001\""));
        }
        _ => panic!("the challenge is answered"),
    }
    let ok = register_answer("SIP/2.0 200 OK\r\nCSeq: 2 REGISTER\r\nExpires: 120\r\n\r\n");
    assert!(matches!(reg_step(&mut st, &ctx, RegEvent::Answer(ok), "z9hG4bK-3"), RegAction::Registered));
    assert_eq!(st.expires, 120);
    assert_eq!(st.reg.cseq, 2);
    match reg_step(&mut st, &ctx, RegEvent::Stop, "z9hG4bK-4") {
        RegAction::Register(r) => {
            assert!(r.contains("CSeq: 3 REGISTER\r\n"));
            assert!(r.contains("Expires: 0\r\n"));
        }
        _ => panic!("the registration is withdrawn"),
    }
    let other = register_answer("SIP/2.0 403 Forbidden\r\nCSeq: 3 REGISTER\r\n\r\n");
    assert!(matches!(reg_step(&mut st, &ctx, RegEvent::Answer(other), "b"), RegAction::Other(403)));
}

#[test]
fn caller_table_is_keyed_by_call_id() {
    let s = settings();
    let mut live = LiveStats::new();
    let mut ds = Vec::new();
    start_call(&s, &mut ds, &mut live, "2001".into(), "c1".into(), "f1".into(), "z9hG4bK-a".into(), 0);
    start_call(&s, &mut ds, &mut live, "2002".into(), "c2".into(), "f2".into(), "z9hG4bK-b".into(), 0);
    start_call(&s, &mut ds, &mut live, "2003".into(), "c1".into(), "f3".into(), "z9hG4bK-c".into(), 0);
    assert_eq!(ds.len(), 2);
    assert_eq!(ds[0].callee, "2003");
    assert_eq!(ds[1].callee, "2002");
}

#[test]
fn format_names_in_lower_case() {
    assert_eq!(format_from_lower("json"), Ok(OutputFormat::Json));
    assert_eq!(format_from_lower("csv"), Ok(OutputFormat::Csv));
    assert_eq!(format_from_lower("JSON"), Err("未知格式: JSON".to_string()));
}

#[test]
fn dialog_steps_take_the_given_instant() {
    let t0 = Instant::now();
    let mut d = Dialog::new_at("c".into(), "f".into(), "b".into(), "2001".into(), 0, t0);
    assert_eq!(d.invite_sent_at, t0);
    let t1 = Instant::now();
    d.on_ringing_at(t1);
    assert_eq!(d.ringing_at, Some(t1));
    let t2 = Instant::now();
    d.on_ok_at("tt".into(), t2);
    assert_eq!(d.answered_at, Some(t2));
    let t3 = Instant::now();
    d.on_bye_sent_at(t3);
    assert_eq!(d.bye_sent_at, Some(t3));
    let t4 = Instant::now();
    d.on_bye_ok_at(t4);
    assert_eq!((d.state, d.ended_at), (DialogState::Completed, Some(t4)));
}
