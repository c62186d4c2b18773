//! Decisions of the caller side of a load test: what a received message
//! is, how a response or a request from the server moves a call on, when
//! a call is cancelled or hung up, and how a new call starts. The sockets,
//! the clock and the media stay with the caller of these functions.
use vstd::prelude::*;
use rand::Rng;
use crate::text::{
    chars_of, eq_chars, starts, starts_with, words, split_words, lines, split_lines, views,
    to_upper, upper, string_of,
};
use crate::num::{dec, push_dec};
use crate::sip::parser::{
    SipParser, header_value, param_of, status_code_of, opt_str, uri_of_contact,
};
use crate::sip::message::{
    SipMessage, SipResponse, sdp_addr_of, in_dialog_text, request_uri_or, cancel_text, ok_bye_text,
    ok_reinvite_text, sdp_text, invite_text, opt_ref_view,
};
use crate::sip::dialog::{
    Dialog, DialogState, before_answer, tag_view, trying_step, ringing_step, ok_step, bye_sent_step,
    end_step,
};
use crate::stats::{
    LiveStats, after_invite, after_answer, after_complete, after_fail, after_timeout,
};

verus! {

// ─── what a received message is ──────────────────────────────────────

/// The `Call-ID` of a message.
pub open spec fn call_id_of(raw: Seq<char>) -> Option<Seq<char>> {
    header_value(raw, seq!["call-id:"@, "i:"@])
}

/// The `tag` of the `To` header of a message.
pub open spec fn to_tag_of(raw: Seq<char>) -> Option<Seq<char>> {
    match header_value(raw, seq!["to:"@, "t:"@]) {
        Some(v) => param_of(v, ";tag="@),
        None => None,
    }
}

/// The method named by the `CSeq` header, upper-cased.
pub open spec fn cseq_method_of(raw: Seq<char>) -> Option<Seq<char>> {
    match header_value(raw, seq!["cseq:"@]) {
        Some(v) => if words(v).len() > 1 {
            Some(upper(words(v)[1]))
        } else {
            None
        },
        None => None,
    }
}

/// The URI of the `Contact` header.
pub open spec fn contact_uri_of(raw: Seq<char>) -> Option<Seq<char>> {
    match header_value(raw, seq!["contact:"@, "m:"@]) {
        Some(v) => Some(uri_of_contact(v)),
        None => None,
    }
}

/// The method of a request: the first word of its first line,
/// upper-cased (empty when there is none).
pub open spec fn request_method_of(raw: Seq<char>) -> Seq<char> {
    if lines(raw).len() > 0 && words(lines(raw)[0]).len() > 0 {
        upper(words(lines(raw)[0])[0])
    } else {
        Seq::empty()
    }
}

/// A message from the server that concerns a call.
pub enum SipEvent {
    /// A response to one of our requests.
    Response {
        call_id: String,
        code: u16,
        to_tag: Option<String>,
        /// The method of the `CSeq`.
        method: Option<String>,
        /// The RTP address `ip:port` offered by a 200 OK to an INVITE.
        remote_rtp_addr: Option<String>,
        /// The `Contact` URI of a 200 OK.
        contact_uri: Option<String>,
    },
    /// A request from the server: a re-INVITE or a BYE.
    IncomingRequest { call_id: String, method: String, raw: String },
}

pub enum EventView {
    Response {
        call_id: Seq<char>,
        code: u16,
        to_tag: Option<Seq<char>>,
        method: Option<Seq<char>>,
        remote_rtp_addr: Option<Seq<char>>,
        contact_uri: Option<Seq<char>>,
    },
    IncomingRequest { call_id: Seq<char>, method: Seq<char>, raw: Seq<char> },
}

impl View for SipEvent {
    type V = EventView;

    open spec fn view(&self) -> EventView {
        match self {
            SipEvent::Response { call_id, code, to_tag, method, remote_rtp_addr, contact_uri } => {
                EventView::Response {
                    call_id: call_id@,
                    code: *code,
                    to_tag: opt_str(*to_tag),
                    method: opt_str(*method),
                    remote_rtp_addr: opt_str(*remote_rtp_addr),
                    contact_uri: opt_str(*contact_uri),
                }
            },
            SipEvent::IncomingRequest { call_id, method, raw } => EventView::IncomingRequest {
                call_id: call_id@,
                method: method@,
                raw: raw@,
            },
        }
    }
}

/// What a message received from the server at `server_ip` is: a response
/// with a Call-ID and a status code, or a re-INVITE or BYE with a
/// Call-ID; anything else is dropped.
pub open spec fn event_of(raw: Seq<char>, server_ip: Seq<char>) -> Option<EventView> {
    if starts(raw, "SIP/2.0"@) {
        match (call_id_of(raw), status_code_of(raw)) {
            (Some(cid), Some(code)) => {
                let method = cseq_method_of(raw);
                Some(
                    EventView::Response {
                        call_id: cid,
                        code: code as u16,
                        to_tag: to_tag_of(raw),
                        method,
                        remote_rtp_addr: if code == 200 && method == Some("INVITE"@) {
                            sdp_addr_of(raw, server_ip)
                        } else {
                            None
                        },
                        contact_uri: if code == 200 {
                            contact_uri_of(raw)
                        } else {
                            None
                        },
                    },
                )
            },
            _ => None,
        }
    } else {
        let m = request_method_of(raw);
        match call_id_of(raw) {
            Some(cid) => if m == "INVITE"@ || m == "BYE"@ {
                Some(EventView::IncomingRequest { call_id: cid, method: m, raw })
            } else {
                None
            },
            None => None,
        }
    }
}

/// Whether `a` and `b` hold the same characters.
pub fn same_text(a: &str, b: &str) -> (r: bool)
    ensures
        r == (a@ == b@),
{
    let x = chars_of(a);
    let y = chars_of(b);
    eq_chars(&x, &y)
}

/// Whether `o` holds the text `lit`.
pub fn opt_is(o: &Option<String>, lit: &str) -> (r: bool)
    ensures
        r == (opt_str(*o) == Some(lit@)),
{
    match o {
        Some(s) => same_text(s.as_str(), lit),
        None => false,
    }
}

/// The method of request `raw` (first word of the first line, upper-cased).
pub fn request_method(raw: &str) -> (m: String)
    ensures
        m@ == request_method_of(raw@),
{
    let v = chars_of(raw);
    let ls = split_lines(&v);
    if ls.len() == 0 {
        return String::new();
    }
    assert(views(ls@)[0] == ls@[0]@);
    let w = split_words(&ls[0]);
    if w.len() == 0 {
        return String::new();
    }
    assert(views(w@)[0] == w@[0]@);
    to_upper(string_of(&w[0]).as_str())
}

/// Reads a message received from the server (at `server_ip`, the address
/// used when an SDP gives none).
pub fn classify_message(raw: &str, server_ip: &str) -> (r: Option<SipEvent>)
    ensures
        match r {
            Some(e) => event_of(raw@, server_ip@) == Some(e@),
            None => event_of(raw@, server_ip@) is None,
        },
{
    let call_id = SipParser::call_id(raw);
    let v = chars_of(raw);
    let head = chars_of("SIP/2.0");
    if starts_with(&v, &head) {
        let code = SipParser::status_code(raw);
        let to_tag = SipParser::to_tag(raw);
        let method = SipParser::cseq_method(raw);
        let is_invite = opt_is(&method, "INVITE");
        let remote_rtp_addr = match code {
            Some(c) => if c == 200 && is_invite {
                SipResponse::sdp_rtp_addr(raw, server_ip)
            } else {
                None
            },
            None => None,
        };
        let contact_uri = match code {
            Some(c) => if c == 200 {
                SipParser::contact_uri(raw)
            } else {
                None
            },
            None => None,
        };
        match (call_id, code) {
            (Some(call_id), Some(code)) => Some(
                SipEvent::Response { call_id, code, to_tag, method, remote_rtp_addr, contact_uri },
            ),
            _ => None,
        }
    } else {
        let m = request_method(raw);
        match call_id {
            Some(call_id) => if same_text(m.as_str(), "INVITE") || same_text(m.as_str(), "BYE") {
                Some(SipEvent::IncomingRequest { call_id, method: m, raw: raw.to_string() })
            } else {
                None
            },
            None => None,
        }
    }
}

// ─── how responses and requests move a call on ──────────────────────

/// What the caller side needs of its configuration to decide.
pub struct CallerSettings {
    /// Our number (user part of the From URI).
    pub caller_number: String,
    /// Our SIP domain (host part of the From URI).
    pub local_domain: String,
    /// The server, `ip:port`.
    pub server_addr: String,
    /// Our signalling address, `ip:port`.
    pub local_addr: String,
    pub enable_rtp: bool,
    /// First RTP port, offered when a call has none of its own.
    pub rtp_base_port: u16,
    /// How long an answered call lasts before we hang up (0: never).
    pub call_duration_secs: u64,
    /// Prefix of generated callee numbers.
    pub callee_prefix: String,
    /// Generated callee numbers end in 0 to this value.
    pub callee_range: u64,
    /// One number to call every time, when set and not empty.
    pub callee_fixed: Option<String>,
    pub max_concurrent_calls: usize,
    /// Stop starting calls after this many.
    pub max_total_calls: Option<u64>,
}

/// Which way a response moves a call.
pub enum ResponseKind {
    Trying,
    Ringing,
    Answered,
    ByeOk,
    Failed,
    Ignored,
}

/// The kind of a response with status `code` to a request `method`.
pub open spec fn response_kind(code: u16, method: Option<Seq<char>>) -> ResponseKind {
    if code == 100 {
        ResponseKind::Trying
    } else if code == 180 || code == 183 {
        ResponseKind::Ringing
    } else if code == 200 && method == Some("INVITE"@) {
        ResponseKind::Answered
    } else if code == 200 && method == Some("BYE"@) {
        ResponseKind::ByeOk
    } else if 400 <= code <= 699 && method != Some("BYE"@) {
        ResponseKind::Failed
    } else {
        ResponseKind::Ignored
    }
}

/// What to do after a response.
pub enum ResponseAction {
    /// 100 Trying: nothing.
    Trying,
    /// 180/183: the post-dial delay can be recorded.
    Ringing,
    /// 200 OK to the INVITE: send this ACK (and start the media).
    Answered { ack: String },
    /// 200 OK to our BYE: the call is over (stop the media).
    ByeOk,
    /// A failure: send this ACK, count the code.
    Failed { ack: String, code: u16 },
    /// Nothing to do.
    Ignored,
}

/// The tag, or empty.
pub open spec fn tag_or_empty(t: Option<Seq<char>>) -> Seq<char> {
    match t {
        Some(x) => x,
        None => Seq::empty(),
    }
}

/// An ACK of the call `d` with `to_tag`, Request-URI `uri` (else the To
/// URI) and `branch`.
pub open spec fn ack_text(
    s: CallerSettings,
    d: Dialog,
    to_tag: Seq<char>,
    uri: Option<Seq<char>>,
    branch: Seq<char>,
) -> Seq<char> {
    in_dialog_text(
        "ACK"@,
        request_uri_or(uri, d.callee@, s.server_addr@),
        d.call_id@,
        s.caller_number@,
        s.local_domain@,
        d.callee@,
        to_tag,
        s.server_addr@,
        s.local_addr@,
        d.cseq,
        branch,
        d.from_tag@,
        "UDP"@,
    )
}

fn tag_text(t: &Option<String>) -> (r: String)
    ensures
        r@ == tag_or_empty(opt_str(*t)),
{
    match t {
        Some(x) => x.clone(),
        None => String::new(),
    }
}

fn opt_as_str(o: &Option<String>) -> (r: Option<&str>)
    ensures
        opt_ref_view(r) == opt_str(*o),
{
    match o {
        Some(x) => Some(x.as_str()),
        None => None,
    }
}

/// Moves call `d` on after a response with status `code`, `To` tag
/// `to_tag`, `CSeq` method `method` and `Contact` URI `contact_uri`; a
/// 2xx ACK goes out with the fresh branch `ack_branch`, a failure ACK with
/// the INVITE's branch.
pub fn handle_response(
    s: &CallerSettings,
    d: &mut Dialog,
    live: &mut LiveStats,
    code: u16,
    to_tag: Option<String>,
    method: Option<String>,
    contact_uri: Option<String>,
    ack_branch: &str,
) -> (r: ResponseAction)
    ensures
        match response_kind(code, opt_str(method)) {
            ResponseKind::Trying => r is Trying && trying_step(*old(d), *final(d)) && *final(live)
                == *old(live),
            ResponseKind::Ringing => r is Ringing && ringing_step(*old(d), *final(d)) && *final(live)
                == *old(live),
            ResponseKind::Answered => {
                &&& r matches ResponseAction::Answered { ack } && ack@ == ack_text(
                    *s,
                    *old(d),
                    tag_or_empty(opt_str(to_tag)),
                    opt_str(contact_uri),
                    ack_branch@,
                )
                &&& ok_step(
                    *old(d),
                    Dialog { remote_contact: old(d).remote_contact, ..*final(d) },
                    tag_or_empty(opt_str(to_tag)),
                )
                &&& tag_view(final(d).remote_contact) == opt_str(contact_uri)
                &&& *final(live) == after_answer(*old(live))
            },
            ResponseKind::ByeOk => r is ByeOk && end_step(*old(d), *final(d), DialogState::Completed)
                && *final(live) == after_complete(*old(live)),
            ResponseKind::Failed => {
                &&& r matches ResponseAction::Failed { ack, code: c } && c == code && ack@
                    == ack_text(*s, *old(d), tag_or_empty(opt_str(to_tag)), None, old(d).branch@)
                &&& end_step(*old(d), *final(d), DialogState::Failed(code))
                &&& *final(live) == after_fail(*old(live))
            },
            ResponseKind::Ignored => r is Ignored && *final(d) == *old(d) && *final(live) == *old(
                live,
            ),
        },
{
    let is_invite = opt_is(&method, "INVITE");
    let is_bye = opt_is(&method, "BYE");
    if code == 100 {
        d.on_trying();
        ResponseAction::Trying
    } else if code == 180 || code == 183 {
        d.on_ringing();
        ResponseAction::Ringing
    } else if code == 200 && is_invite {
        let tag = tag_text(&to_tag);
        let ack = SipMessage::ack(
            d.call_id.as_str(),
            s.caller_number.as_str(),
            s.local_domain.as_str(),
            d.callee.as_str(),
            tag.as_str(),
            s.server_addr.as_str(),
            s.local_addr.as_str(),
            d.cseq,
            ack_branch,
            d.from_tag.as_str(),
            "UDP",
            opt_as_str(&contact_uri),
        );
        d.on_ok(tag);
        d.remote_contact = contact_uri;
        live.on_answered();
        ResponseAction::Answered { ack }
    } else if code == 200 && is_bye {
        d.on_bye_ok();
        live.on_completed();
        ResponseAction::ByeOk
    } else if 400 <= code && code <= 699 && !is_bye {
        let tag = tag_text(&to_tag);
        let ack = SipMessage::ack(
            d.call_id.as_str(),
            s.caller_number.as_str(),
            s.local_domain.as_str(),
            d.callee.as_str(),
            tag.as_str(),
            s.server_addr.as_str(),
            s.local_addr.as_str(),
            d.cseq,
            d.branch.as_str(),
            d.from_tag.as_str(),
            "UDP",
            None,
        );
        d.on_error(code);
        live.on_failed();
        ResponseAction::Failed { ack, code }
    } else {
        ResponseAction::Ignored
    }
}

/// What to do after a request from the server.
pub enum RequestAction {
    /// A re-INVITE: send this 200 OK (with our SDP).
    Reinvite { reply: String },
    /// A BYE: send this 200 OK; stop the media when `stop_rtp`; the call
    /// completed when `completed`.
    Bye { reply: String, stop_rtp: bool, completed: bool },
    /// Nothing to do.
    Ignored,
}

/// Answers a request `method` (`INVITE` or `BYE`) from the server in call
/// `d`: a re-INVITE gets 200 OK with our SDP (the call's RTP port, else
/// the first one); a BYE gets 200 OK and ends a connected or terminating
/// call.
pub fn handle_request(s: &CallerSettings, d: &mut Dialog, live: &mut LiveStats, method: &str, raw: &str) -> (r: RequestAction)
    ensures
        method@ == "INVITE"@ ==> (r matches RequestAction::Reinvite { reply } && reply@
            == ok_reinvite_text(
            raw@,
            sdp_text(
                s.local_addr@,
                if old(d).local_rtp_port > 0 {
                    old(d).local_rtp_port
                } else {
                    s.rtp_base_port
                },
                "1000"@,
            ),
        ) && *final(d) == *old(d) && *final(live) == *old(live)),
        method@ != "INVITE"@ && method@ == "BYE"@ ==> {
            let ends = old(d).state == DialogState::Connected || old(d).state
                == DialogState::Terminating;
            &&& r matches RequestAction::Bye { reply, stop_rtp, completed } && reply@ == ok_bye_text(
                raw@,
            ) && stop_rtp == (s.enable_rtp && old(d).state == DialogState::Connected) && completed
                == ends
            &&& ends ==> end_step(*old(d), *final(d), DialogState::Completed) && *final(live)
                == after_complete(*old(live))
            &&& !ends ==> *final(d) == *old(d) && *final(live) == *old(live)
        },
        method@ != "INVITE"@ && method@ != "BYE"@ ==> r is Ignored && *final(d) == *old(d)
            && *final(live) == *old(live),
{
    if same_text(method, "INVITE") {
        let port = if d.local_rtp_port > 0 {
            d.local_rtp_port
        } else {
            s.rtp_base_port
        };
        RequestAction::Reinvite {
            reply: SipMessage::ok_for_server_reinvite(raw, s.local_addr.as_str(), port),
        }
    } else if same_text(method, "BYE") {
        let reply = SipMessage::ok_for_server_bye(raw);
        let stop_rtp = s.enable_rtp && d.state == DialogState::Connected;
        let ends = d.state == DialogState::Connected || d.state == DialogState::Terminating;
        if ends {
            d.on_bye_ok();
            live.on_completed();
        }
        RequestAction::Bye { reply, stop_rtp, completed: ends }
    } else {
        RequestAction::Ignored
    }
}

// ─── timeouts and hang-ups ───────────────────────────────────────────

/// What the periodic scan does to a call.
pub enum ScanAction {
    /// Nothing.
    Keep,
    /// The INVITE went unanswered too long: send this CANCEL; the call
    /// timed out.
    Cancel(String),
    /// The call lasted its time: send this BYE.
    Bye(String),
    /// Our BYE went unanswered too long: the call is taken as completed
    /// (stop the media).
    ForceEnd,
}

/// The CANCEL of call `d`.
pub open spec fn cancel_of(s: CallerSettings, d: Dialog) -> Seq<char> {
    cancel_text(
        d.call_id@,
        s.caller_number@,
        s.local_domain@,
        d.callee@,
        s.server_addr@,
        s.local_addr@,
        d.cseq,
        d.branch@,
        d.from_tag@,
        "UDP"@,
    )
}

/// The BYE of call `d`, with the next CSeq and `branch`.
pub open spec fn bye_of(s: CallerSettings, d: Dialog, branch: Seq<char>) -> Seq<char> {
    in_dialog_text(
        "BYE"@,
        request_uri_or(tag_view(d.remote_contact), d.callee@, s.server_addr@),
        d.call_id@,
        s.caller_number@,
        s.local_domain@,
        d.callee@,
        tag_or_empty(tag_view(d.to_tag)),
        s.server_addr@,
        s.local_addr@,
        (d.cseq + 1) as u32,
        branch,
        d.from_tag@,
        "UDP"@,
    )
}

/// Looks at call `d` in the periodic scan. The caller's clock says
/// whether the INVITE has waited longer than the timeout
/// (`invite_expired`), whether the call has lasted its time since the
/// answer (`call_due`), and whether our BYE has waited longer than the
/// timeout (`bye_expired`). An unanswered call past the timeout is
/// cancelled; a connected call that has lasted its (non-zero) time gets a
/// BYE with `bye_branch`; a BYE past the timeout ends the call.
pub fn scan_dialog(
    s: &CallerSettings,
    d: &mut Dialog,
    live: &mut LiveStats,
    invite_expired: bool,
    call_due: bool,
    bye_expired: bool,
    bye_branch: &str,
) -> (r: ScanAction)
    requires
        old(d).state == DialogState::Connected ==> old(d).cseq < u32::MAX,
    ensures
        before_answer(old(d).state) && invite_expired ==> (r matches ScanAction::Cancel(c) && c@
            == cancel_of(*s, *old(d)) && end_step(*old(d), *final(d), DialogState::TimedOut)
            && *final(live) == after_timeout(*old(live))),
        old(d).state == DialogState::Connected && old(d).answered_at is Some && call_due
            && s.call_duration_secs > 0 ==> (r matches ScanAction::Bye(b) && b@ == bye_of(
            *s,
            *old(d),
            bye_branch@,
        ) && bye_sent_step(*old(d), *final(d)) && *final(live) == *old(live)),
        old(d).state == DialogState::Terminating && old(d).bye_sent_at is Some && bye_expired ==> (
        r is ForceEnd && end_step(*old(d), *final(d), DialogState::Completed) && *final(live)
            == after_complete(*old(live))),
        r is Keep ==> *final(d) == *old(d) && *final(live) == *old(live),
        r is Keep <==> !(before_answer(old(d).state) && invite_expired) && !(old(d).state
            == DialogState::Connected && old(d).answered_at is Some && call_due
            && s.call_duration_secs > 0) && !(old(d).state == DialogState::Terminating
            && old(d).bye_sent_at is Some && bye_expired),
{
    let st = d.state;
    if (st == DialogState::Calling || st == DialogState::Trying || st == DialogState::Ringing) {
        if invite_expired {
            let c = SipMessage::cancel(
                d.call_id.as_str(),
                s.caller_number.as_str(),
                s.local_domain.as_str(),
                d.callee.as_str(),
                s.server_addr.as_str(),
                s.local_addr.as_str(),
                d.cseq,
                d.branch.as_str(),
                d.from_tag.as_str(),
                "UDP",
            );
            d.on_timeout();
            live.on_timeout();
            return ScanAction::Cancel(c);
        }
        ScanAction::Keep
    } else if st == DialogState::Connected {
        if d.answered_at.is_some() && call_due && s.call_duration_secs > 0 {
            let to_tag = tag_text(&d.to_tag);
            let b = SipMessage::bye(
                d.call_id.as_str(),
                s.caller_number.as_str(),
                s.local_domain.as_str(),
                d.callee.as_str(),
                to_tag.as_str(),
                s.server_addr.as_str(),
                s.local_addr.as_str(),
                d.cseq + 1,
                bye_branch,
                d.from_tag.as_str(),
                "UDP",
                opt_as_str(&d.remote_contact),
            );
            d.on_bye_sent();
            return ScanAction::Bye(b);
        }
        ScanAction::Keep
    } else if st == DialogState::Terminating {
        if d.bye_sent_at.is_some() && bye_expired {
            d.on_bye_ok();
            live.on_completed();
            return ScanAction::ForceEnd;
        }
        ScanAction::Keep
    } else {
        ScanAction::Keep
    }
}

// ─── the table of calls ──────────────────────────────────────────────

/// A call still under way (kept in the table).
pub open spec fn in_progress(st: DialogState) -> bool {
    before_answer(st) || st == DialogState::Connected || st == DialogState::Terminating
}

/// A call that counts against the concurrency limit: not yet answered,
/// or connected.
pub open spec fn occupies(st: DialogState) -> bool {
    before_answer(st) || st == DialogState::Connected
}

/// How many of the calls `ds` occupy a slot.
pub open spec fn occupied(ds: Seq<Dialog>) -> nat
    decreases ds.len(),
{
    if ds.len() == 0 {
        0
    } else {
        occupied(ds.drop_last()) + if occupies(ds.last().state) {
            1nat
        } else {
            0nat
        }
    }
}

/// The calls of `ds` still under way, in order.
pub open spec fn kept(ds: Seq<Dialog>) -> Seq<Dialog>
    decreases ds.len(),
{
    if ds.len() == 0 {
        Seq::empty()
    } else if in_progress(ds.last().state) {
        kept(ds.drop_last()).push(ds.last())
    } else {
        kept(ds.drop_last())
    }
}

/// The number of calls that occupy a slot (not yet answered, or
/// connected).
pub fn concurrent_calls(dialogs: &Vec<Dialog>) -> (n: usize)
    ensures
        n == occupied(dialogs@),
{
    let mut n: usize = 0;
    let mut i: usize = 0;
    while i < dialogs.len()
        invariant
            i <= dialogs@.len(),
            n == occupied(dialogs@.take(i as int)),
            n <= i,
        decreases dialogs@.len() - i,
    {
        assert(dialogs@.take(i + 1).drop_last() =~= dialogs@.take(i as int));
        let st = dialogs[i].state;
        if st == DialogState::Calling || st == DialogState::Trying || st == DialogState::Ringing
            || st == DialogState::Connected {
            n = n + 1;
        }
        i = i + 1;
    }
    assert(dialogs@.take(dialogs@.len() as int) =~= dialogs@);
    n
}

/// Drops the calls that are over (completed, failed, timed out,
/// cancelled), keeping the others in order.
pub fn retain_in_progress(dialogs: &mut Vec<Dialog>)
    ensures
        final(dialogs)@ == kept(old(dialogs)@),
        unique_call_ids(old(dialogs)@) ==> unique_call_ids(final(dialogs)@),
{
    proof {
        lemma_kept_unique(dialogs@);
    }
    let mut out: Vec<Dialog> = Vec::new();
    let ghost orig = dialogs@;
    let mut rest: Vec<Dialog> = Vec::new();
    std::mem::swap(&mut rest, dialogs);
    assert(rest@ =~= orig.skip(0));
    while rest.len() > 0
        invariant
            rest@.len() <= orig.len(),
            rest@ == orig.skip(orig.len() - rest@.len()),
            out@ == kept(orig.take(orig.len() - rest@.len())),
        decreases rest@.len(),
    {
        let ghost k = orig.len() - rest@.len();
        let d = rest.remove(0);
        assert(d == orig[k]);
        assert(orig.take(k + 1).drop_last() =~= orig.take(k));
        assert(orig.take(k + 1).last() == orig[k]);
        if d.state == DialogState::Calling || d.state == DialogState::Trying || d.state
            == DialogState::Ringing || d.state == DialogState::Connected || d.state
            == DialogState::Terminating {
            out.push(d);
        }
        assert(rest@ =~= orig.skip(orig.len() - rest@.len()));
    }
    assert(orig.take(orig.len() as int) =~= orig);
    *dialogs = out;
}

/// Position of the call with Call-ID `call_id` (the first one).
pub fn find_dialog(dialogs: &Vec<Dialog>, call_id: &str) -> (r: Option<usize>)
    ensures
        r matches Some(i) ==> i < dialogs@.len() && dialogs@[i as int].call_id@ == call_id@ && forall|
            j: int,
        | 0 <= j < i ==> dialogs@[j].call_id@ != call_id@,
        r is None ==> forall|j: int| 0 <= j < dialogs@.len() ==> dialogs@[j].call_id@ != call_id@,
{
    let mut i: usize = 0;
    while i < dialogs.len()
        invariant
            i <= dialogs@.len(),
            forall|j: int| 0 <= j < i ==> dialogs@[j].call_id@ != call_id@,
        decreases dialogs@.len() - i,
    {
        if same_text(dialogs[i].call_id.as_str(), call_id) {
            return Some(i);
        }
        i = i + 1;
    }
    None
}

/// Where a call with Call-ID `id` sits in `ds`: the first such call, or
/// the end of the table when there is none.
pub open spec fn dialog_slot(ds: Seq<Dialog>, id: Seq<char>) -> int
    decreases ds.len(),
{
    if ds.len() == 0 {
        0
    } else if ds[0].call_id@ == id {
        0
    } else {
        1 + dialog_slot(ds.drop_first(), id)
    }
}

/// `d` put at position `p` of `ds`: in place of the call there, or at the
/// end when `p` is past the last call.
pub open spec fn placed(ds: Seq<Dialog>, p: int, d: Dialog) -> Seq<Dialog> {
    if p < ds.len() {
        ds.update(p, d)
    } else {
        ds.push(d)
    }
}

/// No Call-ID occurs twice in the table.
pub open spec fn unique_call_ids(ds: Seq<Dialog>) -> bool {
    forall|i: int, j: int| 0 <= i < j < ds.len() ==> (#[trigger] ds[i]).call_id@ != (#[trigger] ds[j]).call_id@
}

proof fn lemma_dialog_slot(ds: Seq<Dialog>, id: Seq<char>)
    ensures
        0 <= dialog_slot(ds, id) <= ds.len(),
        forall|j: int| 0 <= j < dialog_slot(ds, id) ==> (#[trigger] ds[j]).call_id@ != id,
        dialog_slot(ds, id) < ds.len() ==> ds[dialog_slot(ds, id)].call_id@ == id,
    decreases ds.len(),
{
    if ds.len() > 0 && ds[0].call_id@ != id {
        lemma_dialog_slot(ds.drop_first(), id);
        assert forall|j: int| 0 <= j < dialog_slot(ds, id) implies (#[trigger] ds[j]).call_id@ != id by {
            if j > 0 {
                assert(ds[j] == ds.drop_first()[j - 1]);
            }
        }
    }
}

proof fn lemma_dialog_slot_unique(ds: Seq<Dialog>, id: Seq<char>, k: int)
    requires
        0 <= k <= ds.len(),
        forall|j: int| 0 <= j < k ==> (#[trigger] ds[j]).call_id@ != id,
        k < ds.len() ==> ds[k].call_id@ == id,
    ensures
        dialog_slot(ds, id) == k,
{
    lemma_dialog_slot(ds, id);
    let i = dialog_slot(ds, id);
    if i < k {
        assert(ds[i].call_id@ != id);
    } else if k < i {
        assert(ds[k].call_id@ != id);
    }
}

/// Putting a call at its Call-ID's place keeps Call-IDs unique.
pub proof fn lemma_placed_unique(ds: Seq<Dialog>, id: Seq<char>, d: Dialog)
    requires
        d.call_id@ == id,
    ensures
        unique_call_ids(ds) ==> unique_call_ids(placed(ds, dialog_slot(ds, id), d)),
{
    lemma_dialog_slot(ds, id);
    let p = dialog_slot(ds, id);
    let r = placed(ds, p, d);
    if unique_call_ids(ds) {
        assert forall|i: int, j: int| 0 <= i < j < r.len() implies (#[trigger] r[i]).call_id@ != (
        #[trigger] r[j]).call_id@ by {
            if p < ds.len() {
                if i == p {
                    assert(ds[j].call_id@ != ds[p].call_id@);
                } else if j == p {
                    assert(ds[i].call_id@ != ds[p].call_id@);
                } else {
                    assert(ds[i].call_id@ != ds[j].call_id@);
                }
            } else {
                if j == ds.len() {
                    assert(ds[i].call_id@ != id);
                } else {
                    assert(ds[i].call_id@ != ds[j].call_id@);
                }
            }
        }
    }
}

/// Dropping the calls no longer under way keeps Call-IDs unique.
pub proof fn lemma_kept_unique(ds: Seq<Dialog>)
    ensures
        unique_call_ids(ds) ==> unique_call_ids(kept(ds)),
        forall|k: int| 0 <= k < kept(ds).len() ==> exists|i: int| 0 <= i < ds.len() && #[trigger] kept(ds)[k] == ds[i],
    decreases ds.len(),
{
    if ds.len() > 0 {
        let q = ds.drop_last();
        lemma_kept_unique(q);
        assert forall|k: int| 0 <= k < kept(ds).len() implies exists|i: int| 0 <= i < ds.len() && #[trigger] kept(ds)[k] == ds[i] by {
            if in_progress(ds.last().state) && k == kept(ds).len() - 1 {
                assert(kept(ds)[k] == ds[ds.len() - 1]);
            } else {
                assert(kept(ds)[k] == kept(q)[k]);
                let i = choose|i: int| 0 <= i < q.len() && kept(q)[k] == q[i];
                assert(ds[i] == q[i]);
            }
        }
        if unique_call_ids(ds) && in_progress(ds.last().state) {
            assert(unique_call_ids(q)) by {
                assert forall|i: int, j: int| 0 <= i < j < q.len() implies (#[trigger] q[i]).call_id@ != (
                #[trigger] q[j]).call_id@ by {
                    assert(q[i] == ds[i] && q[j] == ds[j]);
                }
            }
            let r = kept(ds);
            assert forall|i: int, j: int| 0 <= i < j < r.len() implies (#[trigger] r[i]).call_id@ != (
            #[trigger] r[j]).call_id@ by {
                if j == r.len() - 1 {
                    assert(r[i] == kept(q)[i]);
                    let a = choose|a: int| 0 <= a < q.len() && kept(q)[i] == q[a];
                    assert(ds[a] == q[a]);
                    assert(r[j] == ds[ds.len() - 1]);
                } else {
                    assert(r[i] == kept(q)[i] && r[j] == kept(q)[j]);
                }
            }
        } else if unique_call_ids(ds) {
            assert(unique_call_ids(q)) by {
                assert forall|i: int, j: int| 0 <= i < j < q.len() implies (#[trigger] q[i]).call_id@ != (
                #[trigger] q[j]).call_id@ by {
                    assert(q[i] == ds[i] && q[j] == ds[j]);
                }
            }
        }
    }
}

// ─── starting calls ──────────────────────────────────────────────────

/// `rand::Rng::gen_range(lo..=hi)` on the thread's generator: a number
/// from `lo` to `hi`; which one is left to chance.
#[verifier::external_body]
pub(crate) fn random_between(lo: u64, hi: u64) -> (r: u64)
    requires
        lo <= hi,
    ensures
        lo <= r <= hi,
{
    rand::thread_rng().gen_range(lo..=hi)
}

/// The number to call: the fixed one when set and not empty, else the
/// prefix followed by `n`.
pub open spec fn callee_text(s: CallerSettings, n: u64) -> Seq<char> {
    match s.callee_fixed {
        Some(f) if f@.len() > 0 => f@,
        _ => s.callee_prefix@ + dec(n as nat),
    }
}

/// The number to call, with `n` as the generated ending.
pub fn pick_callee(s: &CallerSettings, n: u64) -> (r: String)
    ensures
        r@ == callee_text(*s, n),
{
    match &s.callee_fixed {
        Some(f) => {
            if f.unicode_len() > 0 {
                return f.clone();
            }
        },
        None => {},
    }
    let mut r = s.callee_prefix.clone();
    push_dec(&mut r, n);
    r
}

/// The number to call next: the fixed one, or the prefix with a random
/// ending from 0 to the range.
pub fn next_callee(s: &CallerSettings) -> (r: String)
    ensures
        exists|n: u64| n <= s.callee_range && r@ == callee_text(*s, n),
{
    let n = random_between(0, s.callee_range);
    pick_callee(s, n)
}

/// The limit on the number of calls has been reached.
pub open spec fn limit_reached(s: CallerSettings, live: LiveStats) -> bool {
    match s.max_total_calls {
        Some(m) => live.calls_initiated >= m,
        None => false,
    }
}

/// Whether the limit on the number of calls has been reached.
pub fn total_limit_reached(s: &CallerSettings, live: &LiveStats) -> (b: bool)
    ensures
        b == limit_reached(*s, *live),
{
    match s.max_total_calls {
        Some(m) => live.calls_initiated >= m,
        None => false,
    }
}

/// Whether a new call starts now: the limit is not reached, the pace and
/// the test duration allow one (`time_ok`, from the caller's clock), and
/// fewer calls than the maximum occupy a slot.
pub fn may_start_call(s: &CallerSettings, live: &LiveStats, dialogs: &Vec<Dialog>, time_ok: bool) -> (b: bool)
    ensures
        b == (!limit_reached(*s, *live) && time_ok && occupied(dialogs@)
            < s.max_concurrent_calls),
{
    if total_limit_reached(s, live) || !time_ok {
        return false;
    }
    concurrent_calls(dialogs) < s.max_concurrent_calls
}

/// Whether the test is over before its time: every call allowed was
/// started and none is under way.
pub fn all_done(s: &CallerSettings, live: &LiveStats) -> (b: bool)
    ensures
        b == (limit_reached(*s, *live) && live.calls_active <= 0),
{
    total_limit_reached(s, live) && live.calls_active <= 0
}

proof fn lemma_occupied_update(ds: Seq<Dialog>, p: int, d: Dialog)
    requires
        0 <= p < ds.len(),
    ensures
        occupied(ds.update(p, d)) <= occupied(ds) + 1,
        !occupies(d.state) ==> occupied(ds.update(p, d)) <= occupied(ds),
    decreases ds.len(),
{
    let u = ds.update(p, d);
    if p == ds.len() - 1 {
        assert(u.drop_last() =~= ds.drop_last());
    } else {
        lemma_occupied_update(ds.drop_last(), p, d);
        assert(u.drop_last() =~= ds.drop_last().update(p, d));
    }
}

/// A call put into the table adds at most one slot.
pub proof fn lemma_placed_slots(ds: Seq<Dialog>, p: int, d: Dialog)
    requires
        0 <= p,
    ensures
        occupied(placed(ds, p, d)) <= occupied(ds) + 1,
{
    if p < ds.len() {
        lemma_occupied_update(ds, p, d);
    } else {
        assert(ds.push(d).drop_last() =~= ds);
    }
}

/// The limits hold as calls start: when the decision lets a call start,
/// the calls occupying a slot, the new one among them, are no more than
/// the concurrency limit, and the calls started, the new one among them,
/// no more than the limit on the number of calls.
pub proof fn lemma_start_respects_limits(s: CallerSettings, live: LiveStats, ds: Seq<Dialog>, d: Dialog)
    requires
        !limit_reached(s, live),
        occupied(ds) < s.max_concurrent_calls,
        d.state == DialogState::Calling,
    ensures
        occupied(placed(ds, dialog_slot(ds, d.call_id@), d)) <= s.max_concurrent_calls,
        s.max_total_calls matches Some(m) ==> after_invite(live).calls_initiated <= m,
{
    lemma_dialog_slot(ds, d.call_id@);
    lemma_placed_slots(ds, dialog_slot(ds, d.call_id@), d);
}

/// One step of a run, as the counters see it: an INVITE goes out only
/// while the limit on the number of calls is not reached; every other step
/// (an answer, an end, an RTP session) leaves the count of calls started
/// as it was.
pub open spec fn run_step_ok(s: CallerSettings, prev: LiveStats, next: LiveStats) -> bool {
    ||| !limit_reached(s, prev) && next == after_invite(prev)
    ||| next.calls_initiated == prev.calls_initiated
}

/// The counters through a run, each state reached from the one before by
/// one step.
pub open spec fn run_ok(s: CallerSettings, run: Seq<LiveStats>) -> bool {
    forall|i: int| 0 <= i < run.len() - 1 ==> #[trigger] run_step_ok(s, run[i], run[i + 1])
}

proof fn lemma_run_prefix(s: CallerSettings, run: Seq<LiveStats>, m: u64, i: int)
    requires
        s.max_total_calls == Some(m),
        0 <= i < run.len(),
        run[0].calls_initiated <= m,
        run_ok(s, run),
    ensures
        run[i].calls_initiated <= m,
        run[i].calls_initiated >= run[0].calls_initiated,
    decreases i,
{
    if i > 0 {
        lemma_run_prefix(s, run, m, i - 1);
        let j = i - 1;
        assert(run_step_ok(s, run[j], run[j + 1]));
        assert(run[j + 1] == run[i]);
    }
}

/// Over a whole run, no more calls are started than the limit allows: from
/// a start within the limit (a fresh test starts at 0), the count of calls
/// started never passes it. With a limit of 0 no INVITE ever goes out, and
/// the test is over from the start as soon as no call is under way.
pub proof fn lemma_run_respects_total_limit(s: CallerSettings, run: Seq<LiveStats>, m: u64)
    requires
        s.max_total_calls == Some(m),
        run.len() > 0,
        run[0].calls_initiated <= m,
        run_ok(s, run),
    ensures
        forall|i: int| 0 <= i < run.len() ==> (#[trigger] run[i]).calls_initiated <= m,
        m == 0 ==> limit_reached(s, run[0]),
        m == 0 ==> forall|i: int| 0 <= i < run.len() - 1 ==> !(#[trigger] run[i + 1] == after_invite(run[i])),
{
    assert forall|i: int| 0 <= i < run.len() implies (#[trigger] run[i]).calls_initiated <= m by {
        lemma_run_prefix(s, run, m, i);
    }
    if m == 0 {
        assert forall|i: int| 0 <= i < run.len() - 1 implies !(#[trigger] run[i + 1] == after_invite(run[i])) by {
            lemma_run_prefix(s, run, m, i);
            lemma_run_prefix(s, run, m, i + 1);
        }
    }
}

/// No step of a call's state machine gives a slot to a call that had none:
/// 100 Trying, 180 Ringing, 200 OK, our BYE, and an end in a state that
/// holds no slot (completed, failed, timed out).
pub proof fn lemma_steps_take_no_slot(a: Dialog, b: Dialog, tag: Seq<char>, st: DialogState)
    requires
        !occupies(st),
    ensures
        trying_step(a, b) ==> (occupies(b.state) ==> occupies(a.state)),
        ringing_step(a, b) ==> (occupies(b.state) ==> occupies(a.state)),
        ok_step(a, b, tag) ==> (occupies(b.state) ==> occupies(a.state)),
        bye_sent_step(a, b) ==> !occupies(b.state),
        end_step(a, b, st) ==> !occupies(b.state),
{
}

/// A table of calls in which no call gained a slot holds no more slots
/// than before.
pub proof fn lemma_no_new_slots(prev: Seq<Dialog>, next: Seq<Dialog>)
    requires
        next.len() == prev.len(),
        forall|i: int| 0 <= i < next.len() ==> (occupies((#[trigger] next[i]).state) ==> occupies(prev[i].state)),
    ensures
        occupied(next) <= occupied(prev),
    decreases next.len(),
{
    if next.len() > 0 {
        let n = next.len() - 1;
        assert forall|i: int| 0 <= i < next.drop_last().len() implies (occupies(
            (#[trigger] next.drop_last()[i]).state,
        ) ==> occupies(prev.drop_last()[i].state)) by {
            assert(next.drop_last()[i] == next[i]);
            assert(prev.drop_last()[i] == prev[i]);
        }
        lemma_no_new_slots(prev.drop_last(), next.drop_last());
        assert(occupies(next[n].state) ==> occupies(prev[n].state));
    }
}

/// Dropping the calls no longer under way frees no slot and takes none.
pub proof fn lemma_kept_slots(ds: Seq<Dialog>)
    ensures
        occupied(kept(ds)) == occupied(ds),
    decreases ds.len(),
{
    if ds.len() > 0 {
        lemma_kept_slots(ds.drop_last());
        if in_progress(ds.last().state) {
            assert(kept(ds).drop_last() =~= kept(ds.drop_last()));
        }
    }
}

/// One step of a run, as the table of calls sees it: a new call (state
/// `Calling`, at its Call-ID's place) is added only while fewer calls than
/// the limit hold a slot; no other step adds slots.
pub open spec fn table_step_ok(s: CallerSettings, prev: Seq<Dialog>, next: Seq<Dialog>) -> bool {
    ||| occupied(prev) < s.max_concurrent_calls && exists|d: Dialog|
        #![trigger placed(prev, dialog_slot(prev, d.call_id@), d)]
        d.state == DialogState::Calling && next == placed(prev, dialog_slot(prev, d.call_id@), d)
    ||| occupied(next) <= occupied(prev)
}

/// The tables of calls through a run, each reached from the one before by
/// one step.
pub open spec fn table_run_ok(s: CallerSettings, run: Seq<Seq<Dialog>>) -> bool {
    forall|i: int| 0 <= i < run.len() - 1 ==> #[trigger] table_step_ok(s, run[i], run[i + 1])
}

proof fn lemma_table_prefix(s: CallerSettings, run: Seq<Seq<Dialog>>, i: int)
    requires
        0 <= i < run.len(),
        occupied(run[0]) <= s.max_concurrent_calls,
        table_run_ok(s, run),
    ensures
        occupied(run[i]) <= s.max_concurrent_calls,
    decreases i,
{
    if i > 0 {
        lemma_table_prefix(s, run, i - 1);
        let j = i - 1;
        assert(table_step_ok(s, run[j], run[j + 1]));
        assert(run[j + 1] == run[i]);
        if !(occupied(run[i]) <= occupied(run[j])) {
            let d = choose|d: Dialog|
                #![trigger placed(run[j], dialog_slot(run[j], d.call_id@), d)]
                d.state == DialogState::Calling && run[i] == placed(
                    run[j],
                    dialog_slot(run[j], d.call_id@),
                    d,
                );
            lemma_dialog_slot(run[j], d.call_id@);
            lemma_placed_slots(run[j], dialog_slot(run[j], d.call_id@), d);
        }
    }
}

/// Over a whole run, no more calls hold a slot (not yet answered, or
/// connected) than the concurrency limit: from a start within the limit (a
/// fresh test starts with none), no table of calls in the run passes it.
pub proof fn lemma_run_respects_concurrency(s: CallerSettings, run: Seq<Seq<Dialog>>)
    requires
        run.len() > 0,
        occupied(run[0]) <= s.max_concurrent_calls,
        table_run_ok(s, run),
    ensures
        forall|i: int| 0 <= i < run.len() ==> occupied(#[trigger] run[i]) <= s.max_concurrent_calls,
{
    assert forall|i: int| 0 <= i < run.len() implies occupied(#[trigger] run[i]) <= s.max_concurrent_calls by {
        lemma_table_prefix(s, run, i);
    }
}

/// Starts a call to `callee`: the INVITE (CSeq 1, our SDP on `rtp_port`,
/// or port 9 when there is none) to send, a new call in state `Calling`
/// in the table (in place of the call with the same Call-ID, if there is
/// one, else at the end: the table is keyed by Call-ID), one more call
/// counted.
pub fn start_call(
    s: &CallerSettings,
    dialogs: &mut Vec<Dialog>,
    live: &mut LiveStats,
    callee: String,
    call_id: String,
    from_tag: String,
    branch: String,
    rtp_port: u16,
) -> (invite: String)
    ensures
        invite@ == invite_text(
            call_id@,
            s.caller_number@,
            s.local_domain@,
            callee@,
            s.server_addr@,
            s.local_addr@,
            1,
            branch@,
            from_tag@,
            "UDP"@,
            sdp_text(
                s.local_addr@,
                if rtp_port > 0 {
                    rtp_port
                } else {
                    9
                },
                "1000"@,
            ),
        ),
        ({
            let p = dialog_slot(old(dialogs)@, call_id@);
            final(dialogs)@ == placed(old(dialogs)@, p, final(dialogs)@[p])
        }),
        unique_call_ids(old(dialogs)@) ==> unique_call_ids(final(dialogs)@),
        ({
            let d = final(dialogs)@[dialog_slot(old(dialogs)@, call_id@)];
            &&& d.call_id@ == call_id@
            &&& d.from_tag@ == from_tag@
            &&& d.branch@ == branch@
            &&& d.callee@ == callee@
            &&& d.local_rtp_port == rtp_port
            &&& d.state == DialogState::Calling
            &&& d.cseq == 1
            &&& d.to_tag is None
            &&& d.answered_at is None
        }),
        *final(live) == after_invite(*old(live)),
{
    let invite = SipMessage::invite(
        call_id.as_str(),
        s.caller_number.as_str(),
        s.local_domain.as_str(),
        callee.as_str(),
        s.server_addr.as_str(),
        s.local_addr.as_str(),
        1,
        branch.as_str(),
        from_tag.as_str(),
        "UDP",
        if rtp_port > 0 {
            rtp_port
        } else {
            9
        },
    );
    let found = find_dialog(dialogs, call_id.as_str());
    proof {
        lemma_dialog_slot(dialogs@, call_id@);
    }
    let ghost id = call_id@;
    let d = Dialog::new(call_id, from_tag, branch, callee, rtp_port);
    match found {
        Some(i) => {
            proof {
                lemma_dialog_slot_unique(dialogs@, id, i as int);
            }
            dialogs.set(i, d);
        },
        None => {
            proof {
                lemma_dialog_slot_unique(dialogs@, id, dialogs@.len() as int);
            }
            dialogs.push(d);
        },
    }
    proof {
        lemma_placed_unique(old(dialogs)@, id, final(dialogs)@[dialog_slot(old(dialogs)@, id)]);
    }
    live.on_invite();
    invite
}


/// Both provisional progress answers, 180 Ringing and 183 Session
/// Progress, ring the call, whatever request they answer: a call not yet
/// ringing or answered (`Calling` or `Trying`) becomes `Ringing` with its
/// ringing time set, which is where the post-dial delay ends.
pub proof fn lemma_progress_rings(code: u16, method: Option<Seq<char>>, a: Dialog, b: Dialog)
    requires
        code == 180 || code == 183,
    ensures
        response_kind(code, method) == ResponseKind::Ringing,
        ringing_step(a, b) && (a.state == DialogState::Calling || a.state == DialogState::Trying) ==> b.state
            == DialogState::Ringing && b.ringing_at is Some && b.answered_at == a.answered_at,
{
}

} // verus!
