//! The callee side: responses to the server's requests, the BYE a callee
//! sends itself, the registration of its account, and the calls it answers.
use crate::caller::{random_between, opt_is, same_text};
use crate::config::AgentAccount;
use crate::num::{dec, dec_string};
use crate::registrar::{parse_expires, expires_of};
use crate::sip::message::{
    byte_len, echo_headers, is_from_line, join_crlf, ok_bye_text, request_headers,
    resp_cseq_method_in, ok_reinvite_text, sdp_build, sdp_text, SipMessage, SipResponse,
};
use crate::sip::parser::{opt_str, status_code_of};
use crate::sip::register::{
    DigestChallenge, RegisterMessage, register_text, authorization_text, challenge_of,
};
use crate::stats::{LiveStats, after_invite, after_answer, after_complete, after_fail};
use crate::text::{
    chars_of, copy_range, find, find_chars, index_of, index_of_any, index_of_any_from,
    index_of_from, lemma_find_from_bounds, lines, lower_all, lower_chars, split_lines,
    starts_ci, starts_with_ci, string_of, string_of_range, trim, trim_end, trim_range, views,
};
use std::time::Instant;
use vstd::prelude::*;

verus! {

/// The response-header view of a request: the five echoed header lines.
pub fn extract_request_headers_for_response(raw: &str) -> (r: (String, String, String, String, String))
    ensures
        r.0@ == join_crlf(request_headers(raw@).vias),
        r.1@ == request_headers(raw@).from,
        r.2@ == request_headers(raw@).to,
        r.3@ == request_headers(raw@).call_id,
        r.4@ == request_headers(raw@).cseq,
{
    SipMessage::extract_request_headers(raw)
}

/// A `To` line with `;tag={tag}` appended, unless `tag` is empty or the line
/// already carries a tag (then it is unchanged).
pub open spec fn with_to_tag(to_line: Seq<char>, tag: Seq<char>) -> Seq<char> {
    if tag.len() == 0 {
        to_line
    } else if find(lower_all(to_line), ";tag="@) is Some {
        to_line
    } else {
        trim_end(to_line) + ";tag="@ + tag
    }
}

pub fn inject_to_tag_if_missing(to_line: &str, tag: &str) -> (s: String)
    ensures
        s@ == with_to_tag(to_line@, tag@),
{
    let mut s = String::new();
    if tag.unicode_len() == 0 {
        s.append(to_line);
        assert(s@ =~= to_line@);
        return s;
    }
    let v = chars_of(to_line);
    let low = lower_chars(&v);
    if find_chars(&low, &chars_of(";tag=")).is_some() {
        s.append(to_line);
        assert(s@ =~= to_line@);
        return s;
    }
    let t = trim_end_chars(&v);
    s.append(string_of(&t).as_str());
    s.append(";tag=");
    s.append(tag);
    s
}

/// `v` without trailing whitespace.
fn trim_end_chars(v: &Vec<char>) -> (r: Vec<char>)
    ensures
        r@ == trim_end(v@),
{
    let mut b = v.len();
    assert(v@.subrange(0, v@.len() as int) =~= v@);
    while b > 0 && crate::text::char_is_ws(v[b - 1])
        invariant
            b <= v@.len(),
            trim_end(v@.subrange(0, b as int)) == trim_end(v@),
        decreases b,
    {
        assert(v@.subrange(0, b as int).drop_last() =~= v@.subrange(0, b - 1));
        b -= 1;
    }
    assert(v@.subrange(0, v@.len() as int) =~= v@);
    copy_range(v, 0, b)
}

/// A response without body: the status line, the request's headers echoed,
/// the `To` line given `extra_to_tag` when it has no tag.
pub open spec fn response_no_body_text(raw: Seq<char>, status_line: Seq<char>, extra_to_tag: Seq<char>) -> Seq<char> {
    let h = request_headers(raw);
    "SIP/2.0 "@ + status_line + "\r\n"@ + join_crlf(h.vias) + "\r\n"@ + h.from + "\r\n"@
        + with_to_tag(h.to, extra_to_tag) + "\r\n"@ + h.call_id + "\r\n"@ + h.cseq
        + "\r\nContent-Length: 0\r\n\r\n"@
}

pub fn build_response_no_body(raw_request: &str, status_line: &str, extra_to_tag: &str) -> (s: String)
    ensures
        s@ == response_no_body_text(raw_request@, status_line@, extra_to_tag@),
{
    let e = echo_headers(raw_request);
    let to = inject_to_tag_if_missing(e.to.as_str(), extra_to_tag);
    let mut s = String::new();
    s.append("SIP/2.0 ");
    s.append(status_line);
    s.append("\r\n");
    s.append(e.via.as_str());
    s.append("\r\n");
    s.append(e.from.as_str());
    s.append("\r\n");
    s.append(to.as_str());
    s.append("\r\n");
    s.append(e.call_id.as_str());
    s.append("\r\n");
    s.append(e.cseq.as_str());
    s.append("\r\nContent-Length: 0\r\n\r\n");
    assert(s@ =~= response_no_body_text(raw_request@, status_line@, extra_to_tag@));
    s
}

/// The user part of a `From` line: between its first `sip:` and the next
/// `@`, or `agent` when it has no `sip:`.
pub open spec fn user_part_of(from: Seq<char>) -> Seq<char> {
    match find(from, "sip:"@) {
        Some(i) => {
            let s = from.skip(i + 4);
            s.take(index_of(s, '@'))
        },
        None => "agent"@,
    }
}

fn user_part(from: &str) -> (r: String)
    ensures
        r@ == user_part_of(from@),
{
    let v = chars_of(from);
    let p = chars_of("sip:");
    proof {
        reveal_strlit("sip:");
    }
    match find_chars(&v, &p) {
        Some(i) => {
            proof {
                lemma_find_from_bounds(v@, p@, 0);
            }
            let n: usize = v.len();
            assert(i + 4 <= n);
            let e = index_of_from(&v, '@', i + 4);
            assert(v@.skip(i + 4).take(e - (i + 4)) =~= v@.subrange(i + 4, e as int));
            string_of_range(&v, i + 4, e)
        },
        None => {
            let mut s = String::new();
            s.append("agent");
            assert(s@ =~= "agent"@);
            s
        },
    }
}

/// A response with an SDP answer (PCMA on `rtp_port`) and a `Contact` at
/// `local_addr`.
pub open spec fn response_with_sdp_text(
    raw: Seq<char>,
    status_line: Seq<char>,
    to_tag: Seq<char>,
    local_addr: Seq<char>,
    rtp_port: u16,
) -> Seq<char> {
    let h = request_headers(raw);
    let sdp = sdp_text(local_addr, rtp_port, "2000"@);
    "SIP/2.0 "@ + status_line + "\r\n"@ + join_crlf(h.vias) + "\r\n"@ + h.from + "\r\n"@
        + with_to_tag(h.to, to_tag) + "\r\n"@ + h.call_id + "\r\n"@ + h.cseq
        + "\r\nContact: <sip:"@ + user_part_of(h.from) + "@"@ + local_addr
        + ";transport=udp>\r\nContent-Type: application/sdp\r\nContent-Length: "@
        + dec(byte_len(sdp) as nat) + "\r\n\r\n"@ + sdp
}

pub fn build_response_with_sdp(
    raw_request: &str,
    status_line: &str,
    to_tag: &str,
    local_addr: &str,
    rtp_port: u16,
) -> (s: String)
    ensures
        s@ == response_with_sdp_text(raw_request@, status_line@, to_tag@, local_addr@, rtp_port),
{
    let e = echo_headers(raw_request);
    let to = inject_to_tag_if_missing(e.to.as_str(), to_tag);
    let sdp = sdp_build(local_addr, rtp_port, "2000");
    let sdp_len = sdp.as_str().len();
    let user = user_part(e.from.as_str());
    let mut s = String::new();
    s.append("SIP/2.0 ");
    s.append(status_line);
    s.append("\r\n");
    s.append(e.via.as_str());
    s.append("\r\n");
    s.append(e.from.as_str());
    s.append("\r\n");
    s.append(to.as_str());
    s.append("\r\n");
    s.append(e.call_id.as_str());
    s.append("\r\n");
    s.append(e.cseq.as_str());
    s.append("\r\nContact: <sip:");
    s.append(user.as_str());
    s.append("@");
    s.append(local_addr);
    s.append(";transport=udp>\r\nContent-Type: application/sdp\r\nContent-Length: ");
    s.append(dec_string(sdp_len as u64).as_str());
    s.append("\r\n\r\n");
    s.append(sdp.as_str());
    assert(s@ =~= response_with_sdp_text(raw_request@, status_line@, to_tag@, local_addr@, rtp_port));
    s
}

/// The characters that end a `tag` value.
pub open spec fn tag_ends() -> Seq<char> {
    seq![';', '>', ' ', '\r', '\n']
}

/// The `tag` parameter of a header line, up to `;`, `>`, space or a line end.
pub open spec fn tag_of(line: Seq<char>) -> Option<Seq<char>> {
    match find(lower_all(line), ";tag="@) {
        None => None,
        Some(i) => {
            let rest = line.skip(i + 5);
            Some(rest.take(index_of_any(rest, tag_ends())))
        },
    }
}

pub fn extract_tag(header_line: &str) -> (r: Option<String>)
    ensures
        opt_str(r) == tag_of(header_line@),
{
    let v = chars_of(header_line);
    let low = lower_chars(&v);
    let needle = chars_of(";tag=");
    proof {
        reveal_strlit(";tag=");
    }
    match find_chars(&low, &needle) {
        None => None,
        Some(i) => {
            proof {
                lemma_find_from_bounds(low@, needle@, 0);
            }
            let n: usize = v.len();
            assert(i + 5 <= n);
            let mut ends: Vec<char> = Vec::new();
            ends.push(';');
            ends.push('>');
            ends.push(' ');
            ends.push('\r');
            ends.push('\n');
            assert(ends@ =~= tag_ends());
            let e = index_of_any_from(&v, &ends, i + 5);
            assert(v@.skip(i + 5).take(e - (i + 5)) =~= v@.subrange(i + 5, e as int));
            Some(string_of_range(&v, i + 5, e))
        },
    }
}

/// The tag of the first `From` line of `ls`, if that line has one.
pub open spec fn from_tag_in(ls: Seq<Seq<char>>) -> Option<Seq<char>>
    decreases ls.len(),
{
    if ls.len() == 0 {
        None
    } else if is_from_line(ls[0]) {
        tag_of(ls[0])
    } else {
        from_tag_in(ls.drop_first())
    }
}

pub fn extract_from_tag(raw: &str) -> (r: Option<String>)
    ensures
        opt_str(r) == from_tag_in(lines(raw@)),
{
    let v = chars_of(raw);
    let ls = split_lines(&v);
    let from_p = chars_of("from:");
    let f_p = chars_of("f:");
    let mut i: usize = 0;
    assert(views(ls@).skip(0) =~= views(ls@));
    while i < ls.len()
        invariant
            i <= ls@.len(),
            from_p@ == "from:"@,
            f_p@ == "f:"@,
            views(ls@) == lines(raw@),
            from_tag_in(views(ls@)) == from_tag_in(views(ls@).skip(i as int)),
        decreases ls@.len() - i,
    {
        let ghost rest = views(ls@).skip(i as int);
        assert(rest.drop_first() =~= views(ls@).skip(i + 1));
        assert(rest[0] == ls@[i as int]@);
        if starts_with_ci(&ls[i], &from_p) || starts_with_ci(&ls[i], &f_p) {
            let line = string_of(&ls[i]);
            return extract_tag(line.as_str());
        }
        i += 1;
    }
    None
}

/// The text inside the first `<...>` of a header line.
pub open spec fn uri_of(line: Seq<char>) -> Option<Seq<char>> {
    let s = index_of(line, '<');
    if s >= line.len() {
        None
    } else {
        let rest = line.skip(s + 1);
        let e = index_of(rest, '>');
        if e >= rest.len() {
            None
        } else {
            Some(rest.take(e))
        }
    }
}

pub fn extract_uri(header_line: &str) -> (r: Option<String>)
    ensures
        opt_str(r) == uri_of(header_line@),
{
    let v = chars_of(header_line);
    let s = index_of_from(&v, '<', 0);
    assert(v@.skip(0) =~= v@);
    if s >= v.len() {
        return None;
    }
    let e = index_of_from(&v, '>', s + 1);
    if e >= v.len() {
        return None;
    }
    assert(v@.skip(s + 1).take(e - (s + 1)) =~= v@.subrange(s + 1, e as int));
    Some(string_of_range(&v, s + 1, e))
}

/// The first `n` characters of a string, all of it when shorter.
pub open spec fn prefix_of(s: Seq<char>, n: nat) -> Seq<char> {
    if s.len() <= n {
        s
    } else {
        s.take(n as int)
    }
}

/// The first ten characters of a Call-ID, for log lines.
pub fn short(call_id: &str) -> (r: String)
    ensures
        r@ == prefix_of(call_id@, 10),
{
    let v = chars_of(call_id);
    if v.len() <= 10 {
        assert(v@.subrange(0, v@.len() as int) =~= v@);
        string_of_range(&v, 0, v.len())
    } else {
        string_of_range(&v, 0, 10)
    }
}

// ─── the BYE a callee sends itself ───────────────────────────────────

/// The value of a header line: what follows its first `:`, trimmed
/// (empty when there is no `:`).
pub open spec fn line_value(line: Seq<char>) -> Seq<char> {
    let c = index_of(line, ':');
    if c < line.len() {
        trim(line.skip(c + 1))
    } else {
        Seq::empty()
    }
}

/// The BYE a callee sends in the call set up by `invite_raw`: to the
/// caller's From URI, from `sip:{extension}@{local_addr}` with our tag,
/// CSeq 1.
pub open spec fn agent_bye_text(
    invite_raw: Seq<char>,
    local_to_tag: Seq<char>,
    remote_from_tag: Seq<char>,
    local_addr: Seq<char>,
    extension: Seq<char>,
    branch: Seq<char>,
) -> Seq<char> {
    let h = request_headers(invite_raw);
    let remote_uri = match uri_of(h.from) {
        Some(u) => u,
        None => Seq::empty(),
    };
    let my_uri = "sip:"@ + extension + "@"@ + local_addr;
    "BYE "@ + remote_uri + " SIP/2.0\r\nVia: SIP/2.0/UDP "@ + local_addr + ";branch="@ + branch
        + "\r\nMax-Forwards: 70\r\nFrom: <"@ + my_uri + ">;tag="@ + local_to_tag + "\r\nTo: <"@
        + remote_uri + ">;tag="@ + remote_from_tag + "\r\nCall-ID: "@ + line_value(h.call_id)
        + "\r\nCSeq: 1 BYE\r\nContent-Length: 0\r\n\r\n"@
}

fn line_value_exec(line: &str) -> (r: String)
    ensures
        r@ == line_value(line@),
{
    let v = chars_of(line);
    let c = index_of_from(&v, ':', 0);
    assert(v@.skip(0) =~= v@);
    if c >= v.len() {
        return String::new();
    }
    assert(v@.skip(c + 1) =~= v@.subrange(c + 1, v@.len() as int));
    string_of(&trim_range(&v, c + 1, v.len()))
}

/// The BYE a callee sends in the call set up by `invite_raw`, with
/// `branch`.
pub fn build_bye_from_dialog_with_branch(
    invite_raw: &str,
    local_to_tag: &str,
    remote_from_tag: &str,
    local_addr: &str,
    account: &AgentAccount,
    branch: &str,
) -> (s: String)
    ensures
        s@ == agent_bye_text(
            invite_raw@,
            local_to_tag@,
            remote_from_tag@,
            local_addr@,
            account.extension@,
            branch@,
        ),
{
    let e = echo_headers(invite_raw);
    let call_id = line_value_exec(e.call_id.as_str());
    let remote_uri = match extract_uri(e.from.as_str()) {
        Some(u) => u,
        None => String::new(),
    };
    let mut s = String::new();
    s.append("BYE ");
    s.append(remote_uri.as_str());
    s.append(" SIP/2.0\r\nVia: SIP/2.0/UDP ");
    s.append(local_addr);
    s.append(";branch=");
    s.append(branch);
    s.append("\r\nMax-Forwards: 70\r\nFrom: <");
    s.append("sip:");
    s.append(account.extension.as_str());
    s.append("@");
    s.append(local_addr);
    s.append(">;tag=");
    s.append(local_to_tag);
    s.append("\r\nTo: <");
    s.append(remote_uri.as_str());
    s.append(">;tag=");
    s.append(remote_from_tag);
    s.append("\r\nCall-ID: ");
    s.append(call_id.as_str());
    s.append("\r\nCSeq: 1 BYE\r\nContent-Length: 0\r\n\r\n");
    assert(s@ =~= agent_bye_text(
        invite_raw@,
        local_to_tag@,
        remote_from_tag@,
        local_addr@,
        account.extension@,
        branch@,
    ));
    s
}

/// The BYE a callee sends in the call set up by `invite_raw`, with a new
/// random branch.
pub fn build_bye_from_dialog(
    invite_raw: &str,
    local_to_tag: &str,
    remote_from_tag: &str,
    local_addr: &str,
    account: &AgentAccount,
) -> (s: String)
    ensures
        exists|branch: Seq<char>|
            s@ == agent_bye_text(
                invite_raw@,
                local_to_tag@,
                remote_from_tag@,
                local_addr@,
                account.extension@,
                branch,
            ),
{
    let branch = SipMessage::new_branch();
    build_bye_from_dialog_with_branch(
        invite_raw,
        local_to_tag,
        remote_from_tag,
        local_addr,
        account,
        branch.as_str(),
    )
}

/// An even RTP port from 16000 to 32000, chosen at random, offered when no
/// port of our own could be had.
pub fn pick_dummy_rtp_port() -> (p: u16)
    ensures
        16000 <= p <= 32000,
        p % 2 == 0,
{
    let p = random_between(16000, 31999);
    if p % 2 == 0 {
        p as u16
    } else {
        (p + 1) as u16
    }
}

/// Seconds an answered call waits for the ACK.
pub const ACK_TIMEOUT_SECS: u64 = 10;

/// Seconds an acknowledged call waits for the caller's BYE.
pub const BYE_TIMEOUT_SECS: u64 = 150;

/// Seconds after the answer before the callee hangs up itself: 10 while
/// the ACK is awaited, 150 once it came.
pub fn call_timeout_secs(ack_received: bool) -> (t: u64)
    ensures
        t == (if ack_received {
            BYE_TIMEOUT_SECS
        } else {
            ACK_TIMEOUT_SECS
        }),
{
    if ack_received {
        BYE_TIMEOUT_SECS
    } else {
        ACK_TIMEOUT_SECS
    }
}

/// Seconds between registrations: half the granted lifetime, at least 60.
pub fn register_refresh_secs(expires: u32) -> (t: u64)
    ensures
        t == (if expires / 2 > 60 {
            (expires / 2) as u64
        } else {
            60u64
        }),
{
    let h = (expires / 2) as u64;
    if h > 60 {
        h
    } else {
        60
    }
}

// ─── the Call-ID of a request ────────────────────────────────────────

/// The `Call-ID` (or `i:`) of the first line of `ls` that has one, any
/// case, anywhere in the message.
pub open spec fn agent_call_id_in(ls: Seq<Seq<char>>) -> Option<Seq<char>>
    decreases ls.len(),
{
    if ls.len() == 0 {
        None
    } else if starts_ci(ls[0], "call-id:"@) || starts_ci(ls[0], "i:"@) {
        Some(line_value(ls[0]))
    } else {
        agent_call_id_in(ls.drop_first())
    }
}

/// The Call-ID of a request received by the callee.
pub fn agent_call_id(raw: &str) -> (r: Option<String>)
    ensures
        opt_str(r) == agent_call_id_in(lines(raw@)),
{
    let v = chars_of(raw);
    let ls = split_lines(&v);
    let long = chars_of("call-id:");
    let short_p = chars_of("i:");
    let mut i: usize = 0;
    assert(views(ls@).skip(0) =~= views(ls@));
    while i < ls.len()
        invariant
            i <= ls@.len(),
            views(ls@) == lines(raw@),
            long@ == "call-id:"@,
            short_p@ == "i:"@,
            agent_call_id_in(lines(raw@)) == agent_call_id_in(views(ls@).skip(i as int)),
        decreases ls@.len() - i,
    {
        let ghost rest = views(ls@).skip(i as int);
        assert(rest.drop_first() =~= views(ls@).skip(i + 1));
        assert(rest[0] == ls@[i as int]@);
        if starts_with_ci(&ls[i], &long) || starts_with_ci(&ls[i], &short_p) {
            let line = string_of(&ls[i]);
            return Some(line_value_exec(line.as_str()));
        }
        i += 1;
    }
    None
}

// ─── registration of the callee's account ───────────────────────────

/// The registration of one account: the last CSeq used and the last
/// Digest challenge received.
pub struct RegState {
    pub cseq: u32,
    pub challenge: Option<DigestChallenge>,
}

/// `a + 1` modulo 2^32.
pub open spec fn next_cseq(a: u32) -> u32 {
    ((a + 1) % 0x1_0000_0000) as u32
}

/// The `Authorization` value of a REGISTER to `server`, when a challenge
/// was received, with client nonce `cnonce`.
pub open spec fn register_auth(
    ch: Option<DigestChallenge>,
    username: Seq<char>,
    password: Seq<char>,
    server: Seq<char>,
    cnonce: u32,
) -> Option<Seq<char>> {
    match ch {
        Some(c) => Some(authorization_text(c@, username, password, "REGISTER"@, "sip:"@ + server, cnonce)),
        None => None,
    }
}

impl RegState {
    pub fn new() -> (r: Self)
        ensures
            r.cseq == 0,
            r.challenge is None,
    {
        RegState { cseq: 0, challenge: None }
    }

    /// The next REGISTER of `account` (to `server`, from `local_addr`,
    /// for `expires` seconds, with `branch`): the next CSeq, and an
    /// `Authorization` answering the last challenge, if any.
    pub fn next_request(
        &mut self,
        account: &AgentAccount,
        domain: &str,
        server: &str,
        local_addr: &str,
        from_tag: &str,
        call_id: &str,
        transport: &str,
        expires: u32,
        branch: &str,
    ) -> (r: String)
        ensures
            final(self).cseq == next_cseq(old(self).cseq),
            final(self).challenge == old(self).challenge,
            exists|cnonce: u32|
                r@ == register_text(
                    account.username@,
                    domain@,
                    server@,
                    local_addr@,
                    next_cseq(old(self).cseq),
                    branch@,
                    from_tag@,
                    call_id@,
                    transport@,
                    expires,
                    register_auth(
                        old(self).challenge,
                        account.username@,
                        account.password@,
                        server@,
                        cnonce,
                    ),
                ),
    {
        self.cseq = self.cseq.wrapping_add(1);
        let mut uri = String::new();
        uri.append("sip:");
        uri.append(server);
        match &self.challenge {
            Some(c) => {
                let auth = c.build_authorization(
                    account.username.as_str(),
                    account.password.as_str(),
                    "REGISTER",
                    uri.as_str(),
                );
                let r = RegisterMessage::build(
                    account.username.as_str(),
                    domain,
                    server,
                    local_addr,
                    self.cseq,
                    branch,
                    from_tag,
                    call_id,
                    transport,
                    expires,
                    Some(auth.as_str()),
                );
                proof {
                    assert(uri@ =~= "sip:"@ + server@);
                    let cn = choose|cn: u32|
                        auth@ == authorization_text(
                            c@,
                            account.username@,
                            account.password@,
                            "REGISTER"@,
                            uri@,
                            cn,
                        );
                    assert(r@ == register_text(
                        account.username@,
                        domain@,
                        server@,
                        local_addr@,
                        next_cseq(old(self).cseq),
                        branch@,
                        from_tag@,
                        call_id@,
                        transport@,
                        expires,
                        register_auth(old(self).challenge, account.username@, account.password@, server@, cn),
                    ));
                }
                r
            },
            None => {
                let r = RegisterMessage::build(
                    account.username.as_str(),
                    domain,
                    server,
                    local_addr,
                    self.cseq,
                    branch,
                    from_tag,
                    call_id,
                    transport,
                    expires,
                    None,
                );
                assert(r@ == register_text(
                    account.username@,
                    domain@,
                    server@,
                    local_addr@,
                    next_cseq(old(self).cseq),
                    branch@,
                    from_tag@,
                    call_id@,
                    transport@,
                    expires,
                    register_auth(old(self).challenge, account.username@, account.password@, server@, 0),
                ));
                r
            },
        }
    }
}

/// What a response means to the callee's registration.
pub enum RegAnswer {
    /// Not a response to REGISTER.
    NotForRegister,
    /// 200 OK, with the lifetime it grants, if it gives one.
    Registered(Option<u32>),
    /// 401 or 407 with a challenge to answer.
    Challenged(DigestChallenge),
    /// 401 or 407 whose challenge could not be read.
    BadChallenge,
    /// Another status code (0 when unreadable).
    Other(u16),
}

/// The status code of a response, 0 when unreadable.
pub open spec fn status_or_zero(raw: Seq<char>) -> nat {
    match status_code_of(raw) {
        Some(c) => c,
        None => 0,
    }
}

/// Reads a response received by the callee as an answer to its REGISTER.
pub fn register_answer(raw: &str) -> (r: RegAnswer)
    ensures
        resp_cseq_method_in(lines(raw@)) != Some("REGISTER"@) ==> r is NotForRegister,
        resp_cseq_method_in(lines(raw@)) == Some("REGISTER"@) ==> {
            let code = status_or_zero(raw@);
            &&& code == 200 ==> (r matches RegAnswer::Registered(e) && (match e {
                Some(n) => expires_of(raw@) == Some(n as nat),
                None => expires_of(raw@) is None,
            }))
            &&& (code == 401 || code == 407) ==> (match challenge_of(raw@) {
                Some(c) => r matches RegAnswer::Challenged(ch) && ch@ == c,
                None => r is BadChallenge,
            })
            &&& code != 200 && code != 401 && code != 407 ==> r == RegAnswer::Other(code as u16)
        },
{
    let code = match SipResponse::status_code(raw) {
        Some(c) => c,
        None => 0,
    };
    let method = SipResponse::cseq_method(raw);
    if !opt_is(&method, "REGISTER") {
        return RegAnswer::NotForRegister;
    }
    if code == 200 {
        RegAnswer::Registered(parse_expires(raw))
    } else if code == 401 || code == 407 {
        match DigestChallenge::parse(raw) {
            Some(c) => RegAnswer::Challenged(c),
            None => RegAnswer::BadChallenge,
        }
    } else {
        RegAnswer::Other(code)
    }
}

// ─── calls received by the callee ────────────────────────────────────

/// What a request received by the callee asks for.
#[derive(Debug, Clone, Copy, PartialEq, Eq, Structural)]
pub enum AgentRequest {
    Invite,
    Ack,
    Bye,
    Cancel,
    Options,
    Other,
}

pub open spec fn agent_request_of(method: Seq<char>) -> AgentRequest {
    if method == "INVITE"@ {
        AgentRequest::Invite
    } else if method == "ACK"@ {
        AgentRequest::Ack
    } else if method == "BYE"@ {
        AgentRequest::Bye
    } else if method == "CANCEL"@ {
        AgentRequest::Cancel
    } else if method == "OPTIONS"@ {
        AgentRequest::Options
    } else {
        AgentRequest::Other
    }
}

/// The kind of a request, from its (upper-case) method.
pub fn agent_request(method: &str) -> (r: AgentRequest)
    ensures
        r == agent_request_of(method@),
{
    if same_text(method, "INVITE") {
        AgentRequest::Invite
    } else if same_text(method, "ACK") {
        AgentRequest::Ack
    } else if same_text(method, "BYE") {
        AgentRequest::Bye
    } else if same_text(method, "CANCEL") {
        AgentRequest::Cancel
    } else if same_text(method, "OPTIONS") {
        AgentRequest::Options
    } else {
        AgentRequest::Other
    }
}

/// A call the callee has answered.
pub struct AgentCall {
    pub call_id: String,
    /// The INVITE that set it up.
    pub invite_raw: String,
    /// Our tag in the `To` header.
    pub local_to_tag: String,
    pub answered_at: Instant,
    /// The caller's tag in the `From` header.
    pub remote_from_tag: String,
    /// The caller's RTP address from the INVITE's SDP.
    pub remote_rtp_addr: Option<String>,
    pub ack_received: bool,
}

/// The first responses to a new INVITE: 100 Trying, 180 Ringing with our
/// tag; and the caller's tag.
pub struct AcceptedInvite {
    pub trying: String,
    pub ringing: String,
    pub remote_from_tag: String,
}

/// Takes up a new INVITE `raw` with our tag `local_to_tag`: the call counts
/// as started; 100 Trying and 180 Ringing go back.
pub fn accept_invite(raw: &str, local_to_tag: &str, live: &mut LiveStats) -> (a: AcceptedInvite)
    ensures
        a.trying@ == response_no_body_text(raw@, "100 Trying"@, ""@),
        a.ringing@ == response_no_body_text(raw@, "180 Ringing"@, local_to_tag@),
        a.remote_from_tag@ == (match from_tag_in(lines(raw@)) {
            Some(t) => t,
            None => Seq::empty(),
        }),
        *final(live) == after_invite(*old(live)),
{
    live.on_invite();
    let remote_from_tag = match extract_from_tag(raw) {
        Some(t) => t,
        None => String::new(),
    };
    let trying = build_response_no_body(raw, "100 Trying", "");
    let ringing = build_response_no_body(raw, "180 Ringing", local_to_tag);
    AcceptedInvite { trying, ringing, remote_from_tag }
}

/// Answers the INVITE `raw` once our RTP port is known: 200 OK with our
/// tag and our SDP; the call counts as answered.
pub fn answer_invite(
    raw: &str,
    local_addr: &str,
    local_to_tag: &str,
    rtp_port: u16,
    live: &mut LiveStats,
) -> (ok: String)
    ensures
        ok@ == response_with_sdp_text(raw@, "200 OK"@, local_to_tag@, local_addr@, rtp_port),
        *final(live) == after_answer(*old(live)),
{
    let ok = build_response_with_sdp(raw, "200 OK", local_to_tag, local_addr, rtp_port);
    live.on_answered();
    ok
}

/// No Call-ID occurs twice in the list of calls.
pub open spec fn unique_agent_ids(cs: Seq<AgentCall>) -> bool {
    forall|i: int, j: int| 0 <= i < j < cs.len() ==> (#[trigger] cs[i]).call_id@ != (#[trigger] cs[j]).call_id@
}

proof fn lemma_update_same_id_unique(cs: Seq<AgentCall>, i: int, c: AgentCall)
    requires
        0 <= i < cs.len(),
        cs[i].call_id@ == c.call_id@,
    ensures
        unique_agent_ids(cs) ==> unique_agent_ids(cs.update(i, c)),
{
    let u = cs.update(i, c);
    if unique_agent_ids(cs) {
        assert forall|a: int, b: int| 0 <= a < b < u.len() implies (#[trigger] u[a]).call_id@ != (
        #[trigger] u[b]).call_id@ by {
            assert(cs[a].call_id@ != cs[b].call_id@);
        }
    }
}

proof fn lemma_remove_unique(cs: Seq<AgentCall>, i: int)
    requires
        0 <= i < cs.len(),
    ensures
        unique_agent_ids(cs) ==> unique_agent_ids(cs.remove(i)),
{
    let u = cs.remove(i);
    if unique_agent_ids(cs) {
        assert forall|a: int, b: int| 0 <= a < b < u.len() implies (#[trigger] u[a]).call_id@ != (
        #[trigger] u[b]).call_id@ by {
            let a2 = if a < i { a } else { a + 1 };
            let b2 = if b < i { b } else { b + 1 };
            assert(u[a] == cs[a2] && u[b] == cs[b2]);
            assert(cs[a2].call_id@ != cs[b2].call_id@);
        }
    }
}

/// Keeps call `c` under its Call-ID: in place of the call with that
/// Call-ID, if there is one, else at the end of the list.
pub fn add_call(calls: &mut Vec<AgentCall>, c: AgentCall)
    ensures
        (exists|i: int|
            0 <= i < old(calls)@.len() && old(calls)@[i].call_id@ == c.call_id@) ==> (exists|i: int|
            0 <= i < old(calls)@.len() && old(calls)@[i].call_id@ == c.call_id@ && (forall|j: int|
                0 <= j < i ==> old(calls)@[j].call_id@ != c.call_id@) && final(calls)@ == old(
                calls,
            )@.update(i, c)),
        (forall|j: int| 0 <= j < old(calls)@.len() ==> old(calls)@[j].call_id@ != c.call_id@)
            ==> final(calls)@ == old(calls)@.push(c),
        unique_agent_ids(old(calls)@) ==> unique_agent_ids(final(calls)@),
{
    let ghost id = c.call_id@;
    match find_call(calls, c.call_id.as_str()) {
        Some(i) => {
            proof {
                lemma_update_same_id_unique(calls@, i as int, c);
            }
            calls.set(i, c);
        },
        None => {
            proof {
                let u = calls@.push(c);
                if unique_agent_ids(calls@) {
                    assert forall|a: int, b: int| 0 <= a < b < u.len() implies (#[trigger] u[a]).call_id@
                        != (#[trigger] u[b]).call_id@ by {
                        if b == calls@.len() {
                            assert(calls@[a].call_id@ != id);
                        } else {
                            assert(calls@[a].call_id@ != calls@[b].call_id@);
                        }
                    }
                }
            }
            calls.push(c);
        },
    }
}

/// Position of the call with Call-ID `call_id` (the first one).
pub fn find_call(calls: &Vec<AgentCall>, call_id: &str) -> (r: Option<usize>)
    ensures
        r matches Some(i) ==> i < calls@.len() && calls@[i as int].call_id@ == call_id@ && forall|
            j: int,
        | 0 <= j < i ==> calls@[j].call_id@ != call_id@,
        r is None ==> forall|j: int| 0 <= j < calls@.len() ==> calls@[j].call_id@ != call_id@,
{
    let mut i: usize = 0;
    while i < calls.len()
        invariant
            i <= calls@.len(),
            forall|j: int| 0 <= j < i ==> calls@[j].call_id@ != call_id@,
        decreases calls@.len() - i,
    {
        if same_text(calls[i].call_id.as_str(), call_id) {
            return Some(i);
        }
        i = i + 1;
    }
    None
}

/// An ACK arrived for call `call_id`: the first call with that id, if
/// any, is marked acknowledged; its position is returned.
pub fn ack_call(calls: &mut Vec<AgentCall>, call_id: &str) -> (r: Option<usize>)
    ensures
        r matches Some(i) ==> i < old(calls)@.len() && old(calls)@[i as int].call_id@ == call_id@
            && (forall|j: int| 0 <= j < i ==> old(calls)@[j].call_id@ != call_id@)
            && final(calls)@ == old(calls)@.update(
            i as int,
            AgentCall { ack_received: true, ..old(calls)@[i as int] },
        ),
        r is None ==> final(calls)@ == old(calls)@ && forall|j: int|
            0 <= j < old(calls)@.len() ==> old(calls)@[j].call_id@ != call_id@,
        unique_agent_ids(old(calls)@) ==> unique_agent_ids(final(calls)@),
{
    match find_call(calls, call_id) {
        Some(i) => {
            proof {
                lemma_update_same_id_unique(
                    calls@,
                    i as int,
                    AgentCall { ack_received: true, ..calls@[i as int] },
                );
            }
            let mut c = calls.remove(i);
            c.ack_received = true;
            calls.insert(i, c);
            assert(final(calls)@ =~= old(calls)@.update(
                i as int,
                AgentCall { ack_received: true, ..old(calls)@[i as int] },
            ));
            Some(i)
        },
        None => None,
    }
}

/// Takes call `call_id` out of the table (the first one with that id).
pub fn take_call(calls: &mut Vec<AgentCall>, call_id: &str) -> (r: Option<AgentCall>)
    ensures
        r matches Some(c) ==> exists|i: int|
            0 <= i < old(calls)@.len() && old(calls)@[i] == c && c.call_id@ == call_id@
                && final(calls)@ == old(calls)@.remove(i),
        r is None ==> final(calls)@ == old(calls)@ && forall|j: int|
            0 <= j < old(calls)@.len() ==> old(calls)@[j].call_id@ != call_id@,
        unique_agent_ids(old(calls)@) ==> unique_agent_ids(final(calls)@),
{
    match find_call(calls, call_id) {
        Some(i) => {
            proof {
                lemma_remove_unique(calls@, i as int);
            }
            Some(calls.remove(i))
        },
        None => None,
    }
}

/// The caller hung up call `call_id` with BYE `raw`: the 200 OK to send,
/// and the call, which counts as completed, if it was in the table.
pub fn bye_call(calls: &mut Vec<AgentCall>, call_id: &str, raw: &str, live: &mut LiveStats) -> (r: (String, Option<AgentCall>))
    ensures
        r.0@ == ok_bye_text(raw@),
        r.1 matches Some(c) ==> exists|i: int|
            0 <= i < old(calls)@.len() && old(calls)@[i] == c && c.call_id@ == call_id@
                && final(calls)@ == old(calls)@.remove(i),
        r.1 matches Some(c) ==> *final(live) == after_complete(*old(live)),
        r.1 is None ==> final(calls)@ == old(calls)@ && *final(live) == *old(live),
        unique_agent_ids(old(calls)@) ==> unique_agent_ids(final(calls)@),
{
    let ok = SipMessage::ok_for_server_bye(raw);
    let c = take_call(calls, call_id);
    if c.is_some() {
        live.on_completed();
    }
    (ok, c)
}

/// The caller cancelled call `call_id` with CANCEL `raw`: the 200 OK to
/// send, and, if the call was in the table, the call and the 487 Request
/// Terminated to its INVITE; the call counts as failed.
pub fn cancel_call(calls: &mut Vec<AgentCall>, call_id: &str, raw: &str, live: &mut LiveStats) -> (r: (String, Option<(AgentCall, String)>))
    ensures
        r.0@ == ok_bye_text(raw@),
        r.1 matches Some((c, resp)) ==> (exists|i: int|
            0 <= i < old(calls)@.len() && old(calls)@[i] == c && c.call_id@ == call_id@
                && final(calls)@ == old(calls)@.remove(i)) && resp@ == response_no_body_text(
            c.invite_raw@,
            "487 Request Terminated"@,
            c.local_to_tag@,
        ) && *final(live) == after_fail(*old(live)),
        r.1 is None ==> final(calls)@ == old(calls)@ && *final(live) == *old(live),
        unique_agent_ids(old(calls)@) ==> unique_agent_ids(final(calls)@),
{
    let ok = SipMessage::ok_for_server_bye(raw);
    match take_call(calls, call_id) {
        Some(c) => {
            let resp = build_response_no_body(
                c.invite_raw.as_str(),
                "487 Request Terminated",
                c.local_to_tag.as_str(),
            );
            live.on_failed();
            (ok, Some((c, resp)))
        },
        None => (ok, None),
    }
}


// ─── the callee's event loop, one step at a time ─────────────────────

/// What stays fixed in one account's registrations.
pub struct RegContext {
    pub account: AgentAccount,
    pub domain: String,
    pub server: String,
    pub local_addr: String,
    pub from_tag: String,
    pub call_id: String,
    pub transport: String,
}

/// The registration state of one account: its CSeq and challenge, and the
/// lifetime it asks for.
pub struct RegRunner {
    pub reg: RegState,
    pub expires: u32,
}

impl RegRunner {
    /// Nothing sent yet; a lifetime of 600 s asked for.
    pub fn new() -> (r: Self)
        ensures
            r.reg.cseq == 0,
            r.reg.challenge is None,
            r.expires == 600,
    {
        RegRunner { reg: RegState::new(), expires: 600 }
    }
}

/// What happens to one account's registration.
pub enum RegEvent {
    /// A response to a REGISTER arrived, read by `register_answer`.
    Answer(RegAnswer),
    /// The time to refresh the registration came.
    Refresh,
    /// A call ended on the callee's own initiative; it registers again to
    /// stay online.
    CallEnded,
    /// The test stops: the registration is withdrawn (lifetime 0).
    Stop,
}

/// What the account does in answer to an event.
pub enum RegAction {
    /// Nothing.
    Nothing,
    /// The registration was granted (the refresh timer starts over).
    Registered,
    /// Send this REGISTER.
    Register(String),
    /// A challenge that could not be read (logged).
    BadChallenge,
    /// Another status code (logged).
    Other(u16),
}

/// `r` is the REGISTER that `reg` sends next for `ctx`, for `expires`
/// seconds with `branch`, whatever client nonce was drawn.
pub open spec fn register_request(r: Seq<char>, ctx: RegContext, reg: RegState, expires: u32, branch: Seq<char>) -> bool {
    exists|cnonce: u32|
        r == register_text(
            ctx.account.username@,
            ctx.domain@,
            ctx.server@,
            ctx.local_addr@,
            next_cseq(reg.cseq),
            branch,
            ctx.from_tag@,
            ctx.call_id@,
            ctx.transport@,
            expires,
            register_auth(reg.challenge, ctx.account.username@, ctx.account.password@, ctx.server@, cnonce),
        )
}

/// One step of an account's registration: the next state and what to do.
/// A granted registration takes the lifetime it grants; a challenge is
/// answered at once; a refresh or the end of a call sends the next
/// REGISTER; stopping sends one with lifetime 0.
pub fn reg_step(st: &mut RegRunner, ctx: &RegContext, ev: RegEvent, branch: &str) -> (a: RegAction)
    ensures
        match ev {
            RegEvent::Answer(RegAnswer::NotForRegister) => a is Nothing && *final(st) == *old(st),
            RegEvent::Answer(RegAnswer::Registered(e)) => a is Registered && final(st).reg == old(st).reg
                && final(st).expires == (match e {
                Some(n) => n,
                None => old(st).expires,
            }),
            RegEvent::Answer(RegAnswer::Challenged(ch)) => a matches RegAction::Register(r)
                && register_request(
                r@,
                *ctx,
                RegState { challenge: Some(ch), ..old(st).reg },
                old(st).expires,
                branch@,
            ) && final(st).reg.cseq == next_cseq(old(st).reg.cseq) && final(st).reg.challenge == Some(ch)
                && final(st).expires == old(st).expires,
            RegEvent::Answer(RegAnswer::BadChallenge) => a is BadChallenge && *final(st) == *old(st),
            RegEvent::Answer(RegAnswer::Other(c)) => a == RegAction::Other(c) && *final(st) == *old(st),
            RegEvent::Refresh | RegEvent::CallEnded => a matches RegAction::Register(r) && register_request(
                r@,
                *ctx,
                old(st).reg,
                old(st).expires,
                branch@,
            ) && final(st).reg.cseq == next_cseq(old(st).reg.cseq) && final(st).reg.challenge == old(
                st,
            ).reg.challenge && final(st).expires == old(st).expires,
            RegEvent::Stop => a matches RegAction::Register(r) && register_request(
                r@,
                *ctx,
                old(st).reg,
                0,
                branch@,
            ) && final(st).reg.cseq == next_cseq(old(st).reg.cseq) && final(st).reg.challenge == old(
                st,
            ).reg.challenge && final(st).expires == old(st).expires,
        },
{
    let expires = match ev {
        RegEvent::Stop => 0,
        _ => st.expires,
    };
    match ev {
        RegEvent::Answer(RegAnswer::NotForRegister) => RegAction::Nothing,
        RegEvent::Answer(RegAnswer::Registered(e)) => {
            match e {
                Some(n) => {
                    st.expires = n;
                },
                None => {},
            }
            RegAction::Registered
        },
        RegEvent::Answer(RegAnswer::Challenged(ch)) => {
            st.reg.challenge = Some(ch);
            let r = st.reg.next_request(
                &ctx.account,
                ctx.domain.as_str(),
                ctx.server.as_str(),
                ctx.local_addr.as_str(),
                ctx.from_tag.as_str(),
                ctx.call_id.as_str(),
                ctx.transport.as_str(),
                expires,
                branch,
            );
            RegAction::Register(r)
        },
        RegEvent::Answer(RegAnswer::BadChallenge) => RegAction::BadChallenge,
        RegEvent::Answer(RegAnswer::Other(c)) => RegAction::Other(c),
        _ => {
            let r = st.reg.next_request(
                &ctx.account,
                ctx.domain.as_str(),
                ctx.server.as_str(),
                ctx.local_addr.as_str(),
                ctx.from_tag.as_str(),
                ctx.call_id.as_str(),
                ctx.transport.as_str(),
                expires,
                branch,
            );
            RegAction::Register(r)
        },
    }
}

/// Whether an answered call has waited too long, `elapsed_us` after the
/// answer: 10 s for the ACK, 150 s for the caller's BYE once acknowledged.
pub fn call_expired(elapsed_us: u64, ack_received: bool) -> (b: bool)
    ensures
        b == (elapsed_us >= call_timeout_secs_of(ack_received) * 1_000_000),
{
    elapsed_us >= call_timeout_secs(ack_received) * 1_000_000
}

/// The wait of `call_timeout_secs`, in seconds.
pub open spec fn call_timeout_secs_of(ack_received: bool) -> u64 {
    if ack_received {
        BYE_TIMEOUT_SECS
    } else {
        ACK_TIMEOUT_SECS
    }
}

/// The callee hangs up call `call_id` itself (its ACK or the caller's BYE
/// did not come in time): the call leaves the table, counts as completed,
/// and the BYE to send goes with it; nothing happens when the call is not
/// in the table.
pub fn end_expired_call(
    calls: &mut Vec<AgentCall>,
    call_id: &str,
    local_addr: &str,
    account: &AgentAccount,
    live: &mut LiveStats,
) -> (r: Option<(AgentCall, String)>)
    ensures
        r matches Some((c, bye)) ==> (exists|i: int|
            0 <= i < old(calls)@.len() && old(calls)@[i] == c && c.call_id@ == call_id@
                && final(calls)@ == old(calls)@.remove(i)) && (exists|branch: Seq<char>|
            bye@ == agent_bye_text(
                c.invite_raw@,
                c.local_to_tag@,
                c.remote_from_tag@,
                local_addr@,
                account.extension@,
                branch,
            )) && *final(live) == after_complete(*old(live)),
        r is None ==> final(calls)@ == old(calls)@ && *final(live) == *old(live) && forall|j: int|
            0 <= j < old(calls)@.len() ==> old(calls)@[j].call_id@ != call_id@,
        unique_agent_ids(old(calls)@) ==> unique_agent_ids(final(calls)@),
{
    match take_call(calls, call_id) {
        Some(c) => {
            let bye = build_bye_from_dialog(
                c.invite_raw.as_str(),
                c.local_to_tag.as_str(),
                c.remote_from_tag.as_str(),
                local_addr,
                account,
            );
            live.on_completed();
            Some((c, bye))
        },
        None => None,
    }
}

/// The 200 OK to a re-INVITE `raw` of a call already in the table: our
/// SDP on the port of the call's RTP session, or, without one, on a port
/// drawn from 16000..32000 (even).
pub fn answer_reinvite(raw: &str, local_addr: &str, session_port: Option<u16>) -> (ok: String)
    ensures
        session_port matches Some(p) ==> ok@ == ok_reinvite_text(raw@, sdp_text(local_addr@, p, "1000"@)),
        session_port is None ==> exists|p: u16|
            16000 <= p <= 32000 && p % 2 == 0 && ok@ == ok_reinvite_text(
                raw@,
                sdp_text(local_addr@, p, "1000"@),
            ),
{
    let port = match session_port {
        Some(p) => p,
        None => pick_dummy_rtp_port(),
    };
    SipMessage::ok_for_server_reinvite(raw, local_addr, port)
}

} // verus!
