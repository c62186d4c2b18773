//! Text of the SIP requests a caller sends (INVITE, ACK, BYE, CANCEL), of the
//! 200 OK answers to requests from the server, and the reading of the
//! server's responses (status, To tag, CSeq method, SDP media address).
use crate::num::{dec, dec_string, parse_uint, parse_uint_range};
use crate::sip::parser::{
    body_start, body_start_exec, opt_str, opt_string, opt_view, param_exec, param_of,
    status_code_exec, status_code_of,
};
use crate::text::{
    chars_of, copy_range, eq_chars, index_of, index_of_from, lines, split_chars, split_lines,
    split_on, split_words, starts, starts_ci, starts_with, starts_with_ci, string_of,
    string_of_range, to_upper, trim, trim_range, upper, views, words,
};
use vstd::prelude::*;
use vstd::utf8::encode_utf8;

verus! {

/// Unicode lower case of a string, as `str::to_lowercase` computes it.
pub uninterp spec fn lowercase(s: Seq<char>) -> Seq<char>;

/// `str::to_lowercase`: the result is named `lowercase` of the argument.
#[verifier::external_body]
pub fn to_lower(s: &str) -> (r: String)
    ensures
        r@ == lowercase(s@),
{
    s.to_lowercase()
}

/// The length in bytes of the UTF-8 encoding of `s`, as `str::len` reports it.
pub open spec fn byte_len(s: Seq<char>) -> usize {
    encode_utf8(s).len() as usize
}

/// The host part of `addr` (`ip:port` gives `ip`): up to the first `:`.
pub open spec fn host_of(addr: Seq<char>) -> Seq<char> {
    addr.take(index_of(addr, ':'))
}

pub fn host_part(addr: &str) -> (r: String)
    ensures
        r@ == host_of(addr@),
{
    let v = chars_of(addr);
    let k = index_of_from(&v, ':', 0);
    assert(v@.skip(0) =~= v@);
    assert(v@.take(k as int) =~= v@.subrange(0, k as int));
    string_of_range(&v, 0, k)
}

/// The SDP offer or answer: G.711 A-law (PCMA, payload type 8) on `rtp_port`
/// at the host of `local`; `version` is the origin session id and version.
pub open spec fn sdp_text(local: Seq<char>, rtp_port: u16, version: Seq<char>) -> Seq<char> {
    let ip = host_of(local);
    "v=0\r\no=sipress "@ + version + " "@ + version + " IN IP4 "@ + ip + "\r\ns=sipress\r\nc=IN IP4 "@
        + ip + "\r\nt=0 0\r\nm=audio "@ + dec(rtp_port as nat)
        + " RTP/AVP 8\r\na=rtpmap:8 PCMA/8000\r\na=ptime:20\r\na=sendrecv\r\n"@
}

pub fn sdp_build(local: &str, rtp_port: u16, version: &str) -> (s: String)
    ensures
        s@ == sdp_text(local@, rtp_port, version@),
{
    let ip = host_part(local);
    let mut s = String::new();
    s.append("v=0\r\no=sipress ");
    s.append(version);
    s.append(" ");
    s.append(version);
    s.append(" IN IP4 ");
    s.append(ip.as_str());
    s.append("\r\ns=sipress\r\nc=IN IP4 ");
    s.append(ip.as_str());
    s.append("\r\nt=0 0\r\nm=audio ");
    s.append(dec_string(rtp_port as u64).as_str());
    s.append(" RTP/AVP 8\r\na=rtpmap:8 PCMA/8000\r\na=ptime:20\r\na=sendrecv\r\n");
    assert(s@ =~= sdp_text(local@, rtp_port, version@));
    s
}

/// Text of an INVITE carrying `sdp`.
pub open spec fn invite_text(
    call_id: Seq<char>,
    from_number: Seq<char>,
    from_domain: Seq<char>,
    to_number: Seq<char>,
    server_addr: Seq<char>,
    local_addr: Seq<char>,
    cseq: u32,
    branch: Seq<char>,
    tag: Seq<char>,
    transport: Seq<char>,
    sdp: Seq<char>,
) -> Seq<char> {
    "INVITE sip:"@ + to_number + "@"@ + server_addr + " SIP/2.0\r\nVia: SIP/2.0/"@ + transport
        + " "@ + local_addr + ";branch="@ + branch + ";rport\r\nMax-Forwards: 70\r\nFrom: <sip:"@
        + from_number + "@"@ + from_domain + ">;tag="@ + tag + "\r\nTo: <sip:"@ + to_number + "@"@
        + server_addr + ">\r\nCall-ID: "@ + call_id + "\r\nCSeq: "@ + dec(cseq as nat)
        + " INVITE\r\nContact: <sip:"@ + from_number + "@"@ + local_addr + ";transport="@
        + lowercase(transport)
        + ">\r\nContent-Type: application/sdp\r\nContent-Length: "@ + dec(byte_len(sdp) as nat)
        + "\r\nUser-Agent: sipress/0.1\r\nAllow: INVITE,ACK,BYE,CANCEL,OPTIONS\r\n\r\n"@ + sdp
}

/// Text of an in-dialog request without body (`method` is `ACK` or `BYE`).
pub open spec fn in_dialog_text(
    method: Seq<char>,
    uri: Seq<char>,
    call_id: Seq<char>,
    from_number: Seq<char>,
    from_domain: Seq<char>,
    to_number: Seq<char>,
    to_tag: Seq<char>,
    server_addr: Seq<char>,
    local_addr: Seq<char>,
    cseq: u32,
    branch: Seq<char>,
    from_tag: Seq<char>,
    transport: Seq<char>,
) -> Seq<char> {
    method + " "@ + uri + " SIP/2.0\r\nVia: SIP/2.0/"@ + transport + " "@ + local_addr + ";branch="@
        + branch + "\r\nMax-Forwards: 70\r\nFrom: <sip:"@ + from_number + "@"@ + from_domain
        + ">;tag="@ + from_tag + "\r\nTo: <sip:"@ + to_number + "@"@ + server_addr + ">;tag="@
        + to_tag + "\r\nCall-ID: "@ + call_id + "\r\nCSeq: "@ + dec(cseq as nat) + " "@ + method
        + "\r\nContent-Length: 0\r\n\r\n"@
}

/// The Request-URI of an ACK or BYE: the given one, else `sip:{to}@{server}`.
pub open spec fn request_uri_or(
    request_uri: Option<Seq<char>>,
    to_number: Seq<char>,
    server_addr: Seq<char>,
) -> Seq<char> {
    match request_uri {
        Some(u) => u,
        None => "sip:"@ + to_number + "@"@ + server_addr,
    }
}

/// Text of a CANCEL for the INVITE sent with `branch`.
pub open spec fn cancel_text(
    call_id: Seq<char>,
    from_number: Seq<char>,
    from_domain: Seq<char>,
    to_number: Seq<char>,
    server_addr: Seq<char>,
    local_addr: Seq<char>,
    cseq: u32,
    branch: Seq<char>,
    from_tag: Seq<char>,
    transport: Seq<char>,
) -> Seq<char> {
    "CANCEL sip:"@ + to_number + "@"@ + server_addr + " SIP/2.0\r\nVia: SIP/2.0/"@ + transport + " "@
        + local_addr + ";branch="@ + branch + "\r\nMax-Forwards: 70\r\nFrom: <sip:"@ + from_number
        + "@"@ + from_domain + ">;tag="@ + from_tag + "\r\nTo: <sip:"@ + to_number + "@"@
        + server_addr + ">\r\nCall-ID: "@ + call_id + "\r\nCSeq: "@ + dec(cseq as nat)
        + " CANCEL\r\nContent-Length: 0\r\n\r\n"@
}

pub open spec fn opt_ref_view(o: Option<&str>) -> Option<Seq<char>> {
    match o {
        Some(s) => Some(s@),
        None => None,
    }
}

fn in_dialog(
    method: &str,
    call_id: &str,
    from_number: &str,
    from_domain: &str,
    to_number: &str,
    to_tag: &str,
    server_addr: &str,
    local_addr: &str,
    cseq: u32,
    branch: &str,
    from_tag: &str,
    transport: &str,
    request_uri: Option<&str>,
) -> (s: String)
    ensures
        s@ == in_dialog_text(
            method@,
            request_uri_or(opt_ref_view(request_uri), to_number@, server_addr@),
            call_id@,
            from_number@,
            from_domain@,
            to_number@,
            to_tag@,
            server_addr@,
            local_addr@,
            cseq,
            branch@,
            from_tag@,
            transport@,
        ),
{
    let mut uri = String::new();
    match request_uri {
        Some(u) => uri.append(u),
        None => {
            uri.append("sip:");
            uri.append(to_number);
            uri.append("@");
            uri.append(server_addr);
        },
    }
    assert(uri@ =~= request_uri_or(opt_ref_view(request_uri), to_number@, server_addr@));
    let mut s = String::new();
    s.append(method);
    s.append(" ");
    s.append(uri.as_str());
    s.append(" SIP/2.0\r\nVia: SIP/2.0/");
    s.append(transport);
    s.append(" ");
    s.append(local_addr);
    s.append(";branch=");
    s.append(branch);
    s.append("\r\nMax-Forwards: 70\r\nFrom: <sip:");
    s.append(from_number);
    s.append("@");
    s.append(from_domain);
    s.append(">;tag=");
    s.append(from_tag);
    s.append("\r\nTo: <sip:");
    s.append(to_number);
    s.append("@");
    s.append(server_addr);
    s.append(">;tag=");
    s.append(to_tag);
    s.append("\r\nCall-ID: ");
    s.append(call_id);
    s.append("\r\nCSeq: ");
    s.append(dec_string(cseq as u64).as_str());
    s.append(" ");
    s.append(method);
    s.append("\r\nContent-Length: 0\r\n\r\n");
    assert(s@ =~= in_dialog_text(
        method@,
        request_uri_or(opt_ref_view(request_uri), to_number@, server_addr@),
        call_id@,
        from_number@,
        from_domain@,
        to_number@,
        to_tag@,
        server_addr@,
        local_addr@,
        cseq,
        branch@,
        from_tag@,
        transport@,
    ));
    s
}

/// Builder of the requests a caller sends.
pub struct SipMessage;

impl SipMessage {
    /// An INVITE offering G.711 A-law on `rtp_port`.
    pub fn invite(
        call_id: &str,
        from_number: &str,
        from_domain: &str,
        to_number: &str,
        server_addr: &str,
        local_addr: &str,
        cseq: u32,
        branch: &str,
        tag: &str,
        transport: &str,
        rtp_port: u16,
    ) -> (s: String)
        ensures
            s@ == invite_text(
                call_id@,
                from_number@,
                from_domain@,
                to_number@,
                server_addr@,
                local_addr@,
                cseq,
                branch@,
                tag@,
                transport@,
                sdp_text(local_addr@, rtp_port, "1000"@),
            ),
    {
        let sdp = Self::minimal_sdp(local_addr, rtp_port);
        let sdp_len = sdp.as_str().len();
        let tl = to_lower(transport);
        let mut s = String::new();
        s.append("INVITE sip:");
        s.append(to_number);
        s.append("@");
        s.append(server_addr);
        s.append(" SIP/2.0\r\nVia: SIP/2.0/");
        s.append(transport);
        s.append(" ");
        s.append(local_addr);
        s.append(";branch=");
        s.append(branch);
        s.append(";rport\r\nMax-Forwards: 70\r\nFrom: <sip:");
        s.append(from_number);
        s.append("@");
        s.append(from_domain);
        s.append(">;tag=");
        s.append(tag);
        s.append("\r\nTo: <sip:");
        s.append(to_number);
        s.append("@");
        s.append(server_addr);
        s.append(">\r\nCall-ID: ");
        s.append(call_id);
        s.append("\r\nCSeq: ");
        s.append(dec_string(cseq as u64).as_str());
        s.append(" INVITE\r\nContact: <sip:");
        s.append(from_number);
        s.append("@");
        s.append(local_addr);
        s.append(";transport=");
        s.append(tl.as_str());
        s.append(">\r\nContent-Type: application/sdp\r\nContent-Length: ");
        s.append(dec_string(sdp_len as u64).as_str());
        s.append("\r\nUser-Agent: sipress/0.1\r\nAllow: INVITE,ACK,BYE,CANCEL,OPTIONS\r\n\r\n");
        s.append(sdp.as_str());
        assert(s@ =~= invite_text(
            call_id@,
            from_number@,
            from_domain@,
            to_number@,
            server_addr@,
            local_addr@,
            cseq,
            branch@,
            tag@,
            transport@,
            sdp@,
        ));
        s
    }

    /// An ACK; `request_uri` is the Contact URI of a 2xx, `None` for a
    /// non-2xx (then `sip:{to}@{server}`).
    pub fn ack(
        call_id: &str,
        from_number: &str,
        from_domain: &str,
        to_number: &str,
        to_tag: &str,
        server_addr: &str,
        local_addr: &str,
        cseq: u32,
        branch: &str,
        from_tag: &str,
        transport: &str,
        request_uri: Option<&str>,
    ) -> (s: String)
        ensures
            s@ == in_dialog_text(
                "ACK"@,
                request_uri_or(opt_ref_view(request_uri), to_number@, server_addr@),
                call_id@,
                from_number@,
                from_domain@,
                to_number@,
                to_tag@,
                server_addr@,
                local_addr@,
                cseq,
                branch@,
                from_tag@,
                transport@,
            ),
    {
        in_dialog(
            "ACK",
            call_id,
            from_number,
            from_domain,
            to_number,
            to_tag,
            server_addr,
            local_addr,
            cseq,
            branch,
            from_tag,
            transport,
            request_uri,
        )
    }

    /// A BYE; `request_uri` is the Contact URI of the 200 OK, `None` gives
    /// `sip:{to}@{server}`.
    pub fn bye(
        call_id: &str,
        from_number: &str,
        from_domain: &str,
        to_number: &str,
        to_tag: &str,
        server_addr: &str,
        local_addr: &str,
        cseq: u32,
        branch: &str,
        from_tag: &str,
        transport: &str,
        request_uri: Option<&str>,
    ) -> (s: String)
        ensures
            s@ == in_dialog_text(
                "BYE"@,
                request_uri_or(opt_ref_view(request_uri), to_number@, server_addr@),
                call_id@,
                from_number@,
                from_domain@,
                to_number@,
                to_tag@,
                server_addr@,
                local_addr@,
                cseq,
                branch@,
                from_tag@,
                transport@,
            ),
    {
        in_dialog(
            "BYE",
            call_id,
            from_number,
            from_domain,
            to_number,
            to_tag,
            server_addr,
            local_addr,
            cseq,
            branch,
            from_tag,
            transport,
            request_uri,
        )
    }

    /// A CANCEL for the INVITE sent with `branch`.
    pub fn cancel(
        call_id: &str,
        from_number: &str,
        from_domain: &str,
        to_number: &str,
        server_addr: &str,
        local_addr: &str,
        cseq: u32,
        branch: &str,
        from_tag: &str,
        transport: &str,
    ) -> (s: String)
        ensures
            s@ == cancel_text(
                call_id@,
                from_number@,
                from_domain@,
                to_number@,
                server_addr@,
                local_addr@,
                cseq,
                branch@,
                from_tag@,
                transport@,
            ),
    {
        let mut s = String::new();
        s.append("CANCEL sip:");
        s.append(to_number);
        s.append("@");
        s.append(server_addr);
        s.append(" SIP/2.0\r\nVia: SIP/2.0/");
        s.append(transport);
        s.append(" ");
        s.append(local_addr);
        s.append(";branch=");
        s.append(branch);
        s.append("\r\nMax-Forwards: 70\r\nFrom: <sip:");
        s.append(from_number);
        s.append("@");
        s.append(from_domain);
        s.append(">;tag=");
        s.append(from_tag);
        s.append("\r\nTo: <sip:");
        s.append(to_number);
        s.append("@");
        s.append(server_addr);
        s.append(">\r\nCall-ID: ");
        s.append(call_id);
        s.append("\r\nCSeq: ");
        s.append(dec_string(cseq as u64).as_str());
        s.append(" CANCEL\r\nContent-Length: 0\r\n\r\n");
        assert(s@ =~= cancel_text(
            call_id@,
            from_number@,
            from_domain@,
            to_number@,
            server_addr@,
            local_addr@,
            cseq,
            branch@,
            from_tag@,
            transport@,
        ));
        s
    }

    /// The SDP offer: PCMA on `rtp_port` at the host of `local_ip`.
    pub fn minimal_sdp(local_ip: &str, rtp_port: u16) -> (s: String)
        ensures
            s@ == sdp_text(local_ip@, rtp_port, "1000"@),
    {
        sdp_build(local_ip, rtp_port, "1000")
    }
}

/// A lower-case hexadecimal digit.
pub open spec fn is_lower_hex(c: char) -> bool {
    ('0' <= c && c <= '9') || ('a' <= c && c <= 'f')
}

/// `uuid::Uuid::new_v4().simple().to_string()`: a fresh random version-4
/// UUID written as 32 lower-case hexadecimal digits, the version digit `4`
/// at index 12. Which UUID comes out is left open: it is random.
#[verifier::external_body]
fn random_uuid_hex() -> (r: String)
    ensures
        r@.len() == 32,
        forall|i: int| 0 <= i < 32 ==> is_lower_hex(#[trigger] r@[i]),
        r@[12] == '4',
{
    uuid::Uuid::new_v4().simple().to_string()
}

/// The header lines a response copies from a request: every `Via` line,
/// and the first `From`, `To`, `Call-ID` and `CSeq` lines.
pub struct RequestHeaders {
    pub vias: Seq<Seq<char>>,
    pub from: Seq<char>,
    pub to: Seq<char>,
    pub call_id: Seq<char>,
    pub cseq: Seq<char>,
}

pub open spec fn is_via_line(l: Seq<char>) -> bool {
    starts_ci(l, "via:"@) || starts_ci(l, "v:"@)
}

pub open spec fn is_from_line(l: Seq<char>) -> bool {
    starts_ci(l, "from:"@) || starts_ci(l, "f:"@)
}

pub open spec fn is_to_line(l: Seq<char>) -> bool {
    starts_ci(l, "to:"@) || starts_ci(l, "t:"@)
}

pub open spec fn is_call_id_line(l: Seq<char>) -> bool {
    starts_ci(l, "call-id:"@) || starts_ci(l, "i:"@)
}

pub open spec fn is_cseq_line(l: Seq<char>) -> bool {
    starts_ci(l, "cseq:"@)
}

/// One line's effect on the collected headers.
pub open spec fn collect_step(h: RequestHeaders, l: Seq<char>) -> RequestHeaders {
    if is_via_line(l) {
        RequestHeaders { vias: h.vias.push(l), ..h }
    } else if h.from.len() == 0 && is_from_line(l) {
        RequestHeaders { from: l, ..h }
    } else if h.to.len() == 0 && is_to_line(l) {
        RequestHeaders { to: l, ..h }
    } else if h.call_id.len() == 0 && is_call_id_line(l) {
        RequestHeaders { call_id: l, ..h }
    } else if h.cseq.len() == 0 && is_cseq_line(l) {
        RequestHeaders { cseq: l, ..h }
    } else {
        h
    }
}

pub open spec fn collect(ls: Seq<Seq<char>>, h: RequestHeaders) -> RequestHeaders
    decreases ls.len(),
{
    if ls.len() == 0 {
        h
    } else {
        collect(ls.drop_first(), collect_step(h, ls[0]))
    }
}

pub open spec fn no_headers() -> RequestHeaders {
    RequestHeaders {
        vias: seq![],
        from: seq![],
        to: seq![],
        call_id: seq![],
        cseq: seq![],
    }
}

/// The headers of `raw` that a response echoes.
pub open spec fn request_headers(raw: Seq<char>) -> RequestHeaders {
    collect(lines(raw), no_headers())
}

/// Lines joined with `\r\n` between them.
pub open spec fn join_crlf(ls: Seq<Seq<char>>) -> Seq<char>
    decreases ls.len(),
{
    if ls.len() == 0 {
        seq![]
    } else if ls.len() == 1 {
        ls[0]
    } else {
        join_crlf(ls.drop_last()) + "\r\n"@ + ls.last()
    }
}

pub fn join_lines(ls: &Vec<Vec<char>>) -> (s: String)
    ensures
        s@ == join_crlf(views(ls@)),
{
    let mut s = String::new();
    let mut i: usize = 0;
    while i < ls.len()
        invariant
            i <= ls@.len(),
            s@ == join_crlf(views(ls@).take(i as int)),
        decreases ls@.len() - i,
    {
        let ghost prev = views(ls@).take(i as int);
        if i > 0 {
            s.append("\r\n");
        }
        s.append(string_of(&ls[i]).as_str());
        i += 1;
        proof {
            let cur = views(ls@).take(i as int);
            assert(cur.drop_last() =~= prev);
            if i == 1 {
                assert(s@ =~= cur[0]);
            }
        }
    }
    assert(views(ls@).take(ls@.len() as int) =~= views(ls@));
    s
}

/// The echoed header lines of a request, in the order
/// (vias joined with `\r\n`, From, To, Call-ID, CSeq).
pub struct EchoHeaders {
    pub via: String,
    pub from: String,
    pub to: String,
    pub call_id: String,
    pub cseq: String,
}

pub open spec fn echo_matches(e: EchoHeaders, raw: Seq<char>) -> bool {
    let h = request_headers(raw);
    &&& e.via@ == join_crlf(h.vias)
    &&& e.from@ == h.from
    &&& e.to@ == h.to
    &&& e.call_id@ == h.call_id
    &&& e.cseq@ == h.cseq
}

/// Collects the headers a response echoes from request `raw`.
pub fn echo_headers(raw: &str) -> (e: EchoHeaders)
    ensures
        echo_matches(e, raw@),
{
    let v = chars_of(raw);
    let ls = split_lines(&v);
    let via_p = chars_of("via:");
    let v_p = chars_of("v:");
    let from_p = chars_of("from:");
    let f_p = chars_of("f:");
    let to_p = chars_of("to:");
    let t_p = chars_of("t:");
    let cid_p = chars_of("call-id:");
    let i_p = chars_of("i:");
    let cseq_p = chars_of("cseq:");
    let mut vias: Vec<Vec<char>> = Vec::new();
    let mut from: Vec<char> = Vec::new();
    let mut to: Vec<char> = Vec::new();
    let mut call_id: Vec<char> = Vec::new();
    let mut cseq: Vec<char> = Vec::new();
    let mut i: usize = 0;
    assert(views(ls@).skip(0) =~= views(ls@));
    assert(views(vias@) =~= Seq::<Seq<char>>::empty());
    assert(from@ =~= Seq::<char>::empty());
    assert(to@ =~= Seq::<char>::empty());
    assert(call_id@ =~= Seq::<char>::empty());
    assert(cseq@ =~= Seq::<char>::empty());
    assert(RequestHeaders {
        vias: views(vias@),
        from: from@,
        to: to@,
        call_id: call_id@,
        cseq: cseq@,
    } == no_headers());
    while i < ls.len()
        invariant
            i <= ls@.len(),
            via_p@ == "via:"@,
            v_p@ == "v:"@,
            from_p@ == "from:"@,
            f_p@ == "f:"@,
            to_p@ == "to:"@,
            t_p@ == "t:"@,
            cid_p@ == "call-id:"@,
            i_p@ == "i:"@,
            cseq_p@ == "cseq:"@,
            collect(views(ls@), no_headers()) == collect(
                views(ls@).skip(i as int),
                RequestHeaders {
                    vias: views(vias@),
                    from: from@,
                    to: to@,
                    call_id: call_id@,
                    cseq: cseq@,
                },
            ),
        decreases ls@.len() - i,
    {
        let ghost h = RequestHeaders {
            vias: views(vias@),
            from: from@,
            to: to@,
            call_id: call_id@,
            cseq: cseq@,
        };
        let ghost rest = views(ls@).skip(i as int);
        assert(rest.drop_first() =~= views(ls@).skip(i + 1));
        let l = &ls[i];
        assert(rest[0] == l@);
        if starts_with_ci(l, &via_p) || starts_with_ci(l, &v_p) {
            vias.push(copy_range(l, 0, l.len()));
            assert(l@.subrange(0, l@.len() as int) =~= l@);
            assert(views(vias@) =~= h.vias.push(l@));
        } else if from.len() == 0 && (starts_with_ci(l, &from_p) || starts_with_ci(l, &f_p)) {
            from = copy_range(l, 0, l.len());
            assert(l@.subrange(0, l@.len() as int) =~= l@);
        } else if to.len() == 0 && (starts_with_ci(l, &to_p) || starts_with_ci(l, &t_p)) {
            to = copy_range(l, 0, l.len());
            assert(l@.subrange(0, l@.len() as int) =~= l@);
        } else if call_id.len() == 0 && (starts_with_ci(l, &cid_p) || starts_with_ci(l, &i_p)) {
            call_id = copy_range(l, 0, l.len());
            assert(l@.subrange(0, l@.len() as int) =~= l@);
        } else if cseq.len() == 0 && starts_with_ci(l, &cseq_p) {
            cseq = copy_range(l, 0, l.len());
            assert(l@.subrange(0, l@.len() as int) =~= l@);
        }
        i += 1;
    }
    EchoHeaders {
        via: join_lines(&vias),
        from: string_of(&from),
        to: string_of(&to),
        call_id: string_of(&call_id),
        cseq: string_of(&cseq),
    }
}

/// A 200 OK to the server's BYE (or CANCEL): the request's headers echoed, no body.
pub open spec fn ok_bye_text(raw: Seq<char>) -> Seq<char> {
    let h = request_headers(raw);
    "SIP/2.0 200 OK\r\n"@ + join_crlf(h.vias) + "\r\n"@ + h.from + "\r\n"@ + h.to + "\r\n"@
        + h.call_id + "\r\n"@ + h.cseq + "\r\nContent-Length: 0\r\n\r\n"@
}

/// A 200 OK to the server's re-INVITE: the request's headers echoed, with
/// an SDP answer.
pub open spec fn ok_reinvite_text(raw: Seq<char>, sdp: Seq<char>) -> Seq<char> {
    let h = request_headers(raw);
    "SIP/2.0 200 OK\r\n"@ + join_crlf(h.vias) + "\r\n"@ + h.from + "\r\n"@ + h.to + "\r\n"@
        + h.call_id + "\r\n"@ + h.cseq + "\r\nContent-Type: application/sdp\r\nContent-Length: "@
        + dec(byte_len(sdp) as nat) + "\r\n\r\n"@ + sdp
}

impl SipMessage {
    /// A branch parameter: the RFC 3261 magic cookie `z9hG4bK-` and 32
    /// random lower-case hexadecimal digits.
    pub fn new_branch() -> (s: String)
        ensures
            s@.len() == 40,
            s@.take(8) == "z9hG4bK-"@,
            forall|i: int| 8 <= i < 40 ==> is_lower_hex(#[trigger] s@[i]),
    {
        let h = random_uuid_hex();
        let mut s = String::new();
        s.append("z9hG4bK-");
        proof {
            reveal_strlit("z9hG4bK-");
        }
        s.append(h.as_str());
        assert(s@.take(8) =~= "z9hG4bK-"@);
        assert forall|i: int| 8 <= i < 40 implies is_lower_hex(#[trigger] s@[i]) by {
            assert(s@[i] == h@[i - 8]);
        }
        s
    }

    /// A tag: 8 random lower-case hexadecimal digits.
    pub fn new_tag() -> (s: String)
        ensures
            s@.len() == 8,
            forall|i: int| 0 <= i < 8 ==> is_lower_hex(#[trigger] s@[i]),
    {
        let h = random_uuid_hex();
        let v = chars_of(h.as_str());
        string_of_range(&v, 0, 8)
    }

    /// A Call-ID: 32 random lower-case hexadecimal digits, `@`, `domain`.
    pub fn new_call_id(domain: &str) -> (s: String)
        ensures
            s@.len() == 33 + domain@.len(),
            forall|i: int| 0 <= i < 32 ==> is_lower_hex(#[trigger] s@[i]),
            s@[32] == '@',
            s@.skip(33) == domain@,
    {
        let h = random_uuid_hex();
        let mut s = String::new();
        s.append(h.as_str());
        s.append("@");
        proof {
            reveal_strlit("@");
        }
        s.append(domain);
        assert(s@.skip(33) =~= domain@);
        assert forall|i: int| 0 <= i < 32 implies is_lower_hex(#[trigger] s@[i]) by {
            assert(s@[i] == h@[i]);
        }
        s
    }

    /// The headers a response echoes from request `raw`, as
    /// (vias joined with `\r\n`, From, To, Call-ID, CSeq).
    pub fn extract_request_headers(raw: &str) -> (r: (String, String, String, String, String))
        ensures
            r.0@ == join_crlf(request_headers(raw@).vias),
            r.1@ == request_headers(raw@).from,
            r.2@ == request_headers(raw@).to,
            r.3@ == request_headers(raw@).call_id,
            r.4@ == request_headers(raw@).cseq,
    {
        let e = echo_headers(raw);
        (e.via, e.from, e.to, e.call_id, e.cseq)
    }

    /// 200 OK to a BYE from the server.
    pub fn ok_for_server_bye(raw_request: &str) -> (s: String)
        ensures
            s@ == ok_bye_text(raw_request@),
    {
        let e = echo_headers(raw_request);
        let mut s = String::new();
        s.append("SIP/2.0 200 OK\r\n");
        s.append(e.via.as_str());
        s.append("\r\n");
        s.append(e.from.as_str());
        s.append("\r\n");
        s.append(e.to.as_str());
        s.append("\r\n");
        s.append(e.call_id.as_str());
        s.append("\r\n");
        s.append(e.cseq.as_str());
        s.append("\r\nContent-Length: 0\r\n\r\n");
        assert(s@ =~= ok_bye_text(raw_request@));
        s
    }

    /// 200 OK to a re-INVITE from the server, answering PCMA on `rtp_port`.
    pub fn ok_for_server_reinvite(raw_request: &str, local_addr: &str, rtp_port: u16) -> (s: String)
        ensures
            s@ == ok_reinvite_text(raw_request@, sdp_text(local_addr@, rtp_port, "1000"@)),
    {
        let e = echo_headers(raw_request);
        let sdp = Self::minimal_sdp(local_addr, rtp_port);
        let sdp_len = sdp.as_str().len();
        let mut s = String::new();
        s.append("SIP/2.0 200 OK\r\n");
        s.append(e.via.as_str());
        s.append("\r\n");
        s.append(e.from.as_str());
        s.append("\r\n");
        s.append(e.to.as_str());
        s.append("\r\n");
        s.append(e.call_id.as_str());
        s.append("\r\n");
        s.append(e.cseq.as_str());
        s.append("\r\nContent-Type: application/sdp\r\nContent-Length: ");
        s.append(dec_string(sdp_len as u64).as_str());
        s.append("\r\n\r\n");
        s.append(sdp.as_str());
        assert(s@ =~= ok_reinvite_text(raw_request@, sdp@));
        s
    }
}

/// The `tag` of the first `To` line of `ls` that carries one.
pub open spec fn resp_to_tag_in(ls: Seq<Seq<char>>) -> Option<Seq<char>>
    decreases ls.len(),
{
    if ls.len() == 0 {
        None
    } else if is_to_line(ls[0]) && param_of(ls[0], ";tag="@) is Some {
        param_of(ls[0], ";tag="@)
    } else {
        resp_to_tag_in(ls.drop_first())
    }
}

/// The method of the first `CSeq` line of `ls`, upper-cased.
pub open spec fn resp_cseq_method_in(ls: Seq<Seq<char>>) -> Option<Seq<char>>
    decreases ls.len(),
{
    if ls.len() == 0 {
        None
    } else if is_cseq_line(ls[0]) {
        let w = words(trim(ls[0].skip(5)));
        if w.len() > 1 {
            Some(upper(w[1]))
        } else {
            None
        }
    } else {
        resp_cseq_method_in(ls.drop_first())
    }
}

/// The port of the first line of `ls` that, trimmed, begins with `m=` and
/// whose second space-separated field reads as a `u16`.
pub open spec fn resp_media_port_in(ls: Seq<Seq<char>>) -> Option<nat>
    decreases ls.len(),
{
    if ls.len() == 0 {
        None
    } else {
        let p = split_on(ls[0], ' ');
        if starts(trim(ls[0]), "m="@) && p.len() >= 2 && parse_uint(p[1], 65535) is Some {
            parse_uint(p[1], 65535)
        } else {
            resp_media_port_in(ls.drop_first())
        }
    }
}

/// The address of a connection line `c=IN IP4 <ip>` (its third
/// space-separated field, trimmed), unless empty or `0.0.0.0`.
pub open spec fn conn_ip_of(l: Seq<char>) -> Option<Seq<char>> {
    let p = split_on(l, ' ');
    if p.len() >= 3 && trim(p[2]).len() > 0 && trim(p[2]) != "0.0.0.0"@ {
        Some(trim(p[2]))
    } else {
        None
    }
}

/// The address given by the first (session-level) `c=` line of `ls`,
/// lines trimmed, else `ip`.
pub open spec fn session_ip(ls: Seq<Seq<char>>, ip: Seq<char>) -> Seq<char>
    decreases ls.len(),
{
    if ls.len() == 0 {
        ip
    } else if starts(trim(ls[0]), "c="@) {
        match conn_ip_of(trim(ls[0])) {
            Some(a) => a,
            None => ip,
        }
    } else {
        session_ip(ls.drop_first(), ip)
    }
}

/// State of the scan over the media sections of an SDP body.
pub struct MediaScan {
    pub ip: Seq<char>,
    pub port: Option<nat>,
    pub in_audio: bool,
}

/// One (trimmed) line's effect: an `m=` line opens a section, audio when it
/// begins `m=audio`, whose port it gives; a `c=` line inside an audio
/// section replaces the address.
pub open spec fn media_step(st: MediaScan, line: Seq<char>) -> MediaScan {
    let l = trim(line);
    let p = split_on(l, ' ');
    let st1 = if starts(l, "m="@) {
        let audio = starts(l, "m=audio"@);
        if audio && p.len() >= 2 && parse_uint(p[1], 65535) is Some {
            MediaScan { ip: st.ip, port: parse_uint(p[1], 65535), in_audio: audio }
        } else {
            MediaScan { ip: st.ip, port: st.port, in_audio: audio }
        }
    } else {
        st
    };
    if st1.in_audio && starts(l, "c="@) && conn_ip_of(l) is Some {
        MediaScan { ip: conn_ip_of(l)->0, ..st1 }
    } else {
        st1
    }
}

pub open spec fn media_scan(ls: Seq<Seq<char>>, st: MediaScan) -> MediaScan
    decreases ls.len(),
{
    if ls.len() == 0 {
        st
    } else {
        media_scan(ls.drop_first(), media_step(st, ls[0]))
    }
}

/// The remote RTP address `ip:port` of an SDP body: the audio port, at the
/// media-level address if the audio section has one, else the session-level
/// one, else `fallback_ip`.
pub open spec fn sdp_addr_of(raw: Seq<char>, fallback_ip: Seq<char>) -> Option<Seq<char>> {
    match body_start(raw) {
        None => None,
        Some(b) => {
            let ls = lines(raw.skip(b));
            let st = media_scan(
                ls,
                MediaScan { ip: session_ip(ls, fallback_ip), port: None, in_audio: false },
            );
            match st.port {
                Some(p) => Some(st.ip + ":"@ + dec(p)),
                None => None,
            }
        },
    }
}

/// The address of `c=` line `l` (already trimmed), if it gives one.
fn conn_ip_exec(l: &Vec<char>) -> (r: Option<Vec<char>>)
    ensures
        opt_view(r) == conn_ip_of(l@),
{
    let p = split_chars(l, ' ');
    if p.len() < 3 {
        return None;
    }
    assert(views(p@)[2] == p@[2]@);
    let ip = trim_range(&p[2], 0, p[2].len());
    assert(p@[2]@.subrange(0, p@[2]@.len() as int) =~= p@[2]@);
    let zero = chars_of("0.0.0.0");
    if ip.len() > 0 && !eq_chars(&ip, &zero) {
        Some(ip)
    } else {
        None
    }
}

/// Reader of the responses a caller receives.
pub struct SipResponse;

impl SipResponse {
    /// The status code of the start line (200, 100, 180, 4xx, ...).
    pub fn status_code(raw: &str) -> (r: Option<u16>)
        ensures
            r matches Some(c) ==> status_code_of(raw@) == Some(c as nat),
            r is None ==> status_code_of(raw@) is None,
    {
        status_code_exec(raw)
    }

    /// The `tag` of the first `To` line that has one.
    pub fn to_tag(raw: &str) -> (r: Option<String>)
        ensures
            opt_str(r) == resp_to_tag_in(lines(raw@)),
    {
        let v = chars_of(raw);
        let ls = split_lines(&v);
        let to_p = chars_of("to:");
        let t_p = chars_of("t:");
        let needle = chars_of(";tag=");
        let mut i: usize = 0;
        assert(views(ls@).skip(0) =~= views(ls@));
        while i < ls.len()
            invariant
                i <= ls@.len(),
                to_p@ == "to:"@,
                t_p@ == "t:"@,
                needle@ == ";tag="@,
                views(ls@) == lines(raw@),
                resp_to_tag_in(views(ls@)) == resp_to_tag_in(views(ls@).skip(i as int)),
            decreases ls@.len() - i,
        {
            let ghost rest = views(ls@).skip(i as int);
            assert(rest.drop_first() =~= views(ls@).skip(i + 1));
            assert(rest[0] == ls@[i as int]@);
            if starts_with_ci(&ls[i], &to_p) || starts_with_ci(&ls[i], &t_p) {
                let t = param_exec(&ls[i], &needle);
                if t.is_some() {
                    return opt_string(t);
                }
            }
            i += 1;
        }
        None
    }

    /// The method of the first `CSeq` line, upper-cased.
    pub fn cseq_method(raw: &str) -> (r: Option<String>)
        ensures
            opt_str(r) == resp_cseq_method_in(lines(raw@)),
    {
        let v = chars_of(raw);
        let ls = split_lines(&v);
        let cseq_p = chars_of("cseq:");
        proof {
            reveal_strlit("cseq:");
        }
        let mut i: usize = 0;
        assert(views(ls@).skip(0) =~= views(ls@));
        while i < ls.len()
            invariant
                i <= ls@.len(),
                cseq_p@ == "cseq:"@,
                cseq_p@.len() == 5,
                views(ls@) == lines(raw@),
                resp_cseq_method_in(views(ls@)) == resp_cseq_method_in(views(ls@).skip(i as int)),
            decreases ls@.len() - i,
        {
            let ghost rest = views(ls@).skip(i as int);
            assert(rest.drop_first() =~= views(ls@).skip(i + 1));
            assert(rest[0] == ls@[i as int]@);
            if starts_with_ci(&ls[i], &cseq_p) {
                let l = &ls[i];
                let val = trim_range(l, 5, l.len());
                assert(l@.subrange(5, l@.len() as int) =~= l@.skip(5));
                let w = split_words(&val);
                if w.len() > 1 {
                    assert(views(w@)[1] == w@[1]@);
                    return Some(to_upper(string_of(&w[1]).as_str()));
                }
                return None;
            }
            i += 1;
        }
        None
    }

    /// The remote RTP address `ip:port` offered in the SDP body; without a
    /// connection address, `fallback_ip` stands for it.
    pub fn sdp_rtp_addr(raw: &str, fallback_ip: &str) -> (r: Option<String>)
        ensures
            opt_str(r) == sdp_addr_of(raw@, fallback_ip@),
    {
        let v = chars_of(raw);
        let b = match body_start_exec(&v) {
            None => return None,
            Some(b) => b,
        };
        let body = copy_range(&v, b, v.len());
        assert(body@ =~= v@.skip(b as int));
        let ls = split_lines(&body);
        let ghost all = views(ls@);
        let c_p = chars_of("c=");
        let m_p = chars_of("m=");
        let ma_p = chars_of("m=audio");
        // session level: the first c= line
        let mut ip = chars_of(fallback_ip);
        let mut found = false;
        let mut i: usize = 0;
        assert(all.skip(0) =~= all);
        while i < ls.len() && !found
            invariant
                i <= ls@.len(),
                all == views(ls@),
                c_p@ == "c="@,
                session_ip(all, fallback_ip@) == if found {
                    ip@
                } else {
                    session_ip(all.skip(i as int), ip@)
                },
            decreases ls@.len() - i + if found { 0int } else { 1int },
        {
            let ghost rest = all.skip(i as int);
            assert(rest.drop_first() =~= all.skip(i + 1));
            assert(rest[0] == ls@[i as int]@);
            let l = trim_range(&ls[i], 0, ls[i].len());
            assert(ls@[i as int]@.subrange(0, ls@[i as int]@.len() as int) =~= ls@[i as int]@);
            if starts_with(&l, &c_p) {
                if let Some(a) = conn_ip_exec(&l) {
                    ip = a;
                }
                found = true;
            } else {
                i += 1;
            }
        }
        assert(all.skip(ls@.len() as int) =~= Seq::<Seq<char>>::empty());
        let ghost sip = session_ip(all, fallback_ip@);
        assert(ip@ == sip);
        // media sections
        let mut port: Option<u16> = None;
        let mut in_audio = false;
        let mut k: usize = 0;
        assert(all.skip(0) =~= all);
        while k < ls.len()
            invariant
                k <= ls@.len(),
                all == views(ls@),
                c_p@ == "c="@,
                m_p@ == "m="@,
                ma_p@ == "m=audio"@,
                media_scan(all, MediaScan { ip: sip, port: None, in_audio: false }) == media_scan(
                    all.skip(k as int),
                    MediaScan {
                        ip: ip@,
                        port: match port {
                            Some(p) => Some(p as nat),
                            None => None,
                        },
                        in_audio,
                    },
                ),
            decreases ls@.len() - k,
        {
            let ghost rest = all.skip(k as int);
            assert(rest.drop_first() =~= all.skip(k + 1));
            assert(rest[0] == ls@[k as int]@);
            let l = trim_range(&ls[k], 0, ls[k].len());
            assert(ls@[k as int]@.subrange(0, ls@[k as int]@.len() as int) =~= ls@[k as int]@);
            if starts_with(&l, &m_p) {
                in_audio = starts_with(&l, &ma_p);
                if in_audio {
                    let p = split_chars(&l, ' ');
                    if p.len() >= 2 {
                        assert(views(p@)[1] == p@[1]@);
                        assert(p@[1]@.subrange(0, p@[1]@.len() as int) =~= p@[1]@);
                        if let Some(n) = parse_uint_range(&p[1], 0, p[1].len(), 65535) {
                            port = Some(n as u16);
                        }
                    }
                }
            }
            if in_audio && starts_with(&l, &c_p) {
                if let Some(a) = conn_ip_exec(&l) {
                    ip = a;
                }
            }
            k += 1;
        }
        assert(all.skip(ls@.len() as int) =~= Seq::<Seq<char>>::empty());
        match port {
            None => None,
            Some(p) => {
                let mut s = string_of(&ip);
                s.append(":");
                s.append(dec_string(p as u64).as_str());
                Some(s)
            },
        }
    }

    /// The port of the first line of the body that, trimmed, begins with
    /// `m=` and gives one.
    pub fn sdp_rtp_port(raw: &str) -> (r: Option<u16>)
        ensures
            r matches Some(c) ==> (body_start(raw@) matches Some(b) && resp_media_port_in(
                lines(raw@.skip(b)),
            ) == Some(c as nat)),
            r is None ==> (body_start(raw@) matches Some(b) ==> resp_media_port_in(
                lines(raw@.skip(b)),
            ) is None),
    {
        let v = chars_of(raw);
        let b = match body_start_exec(&v) {
            None => return None,
            Some(b) => b,
        };
        let body = copy_range(&v, b, v.len());
        assert(body@ =~= v@.skip(b as int));
        let ls = split_lines(&body);
        let ghost all = views(ls@);
        let m_p = chars_of("m=");
        let mut i: usize = 0;
        assert(all.skip(0) =~= all);
        while i < ls.len()
            invariant
                i <= ls@.len(),
                all == views(ls@),
                m_p@ == "m="@,
                body_start(raw@) == Some(b as int),
                all == lines(raw@.skip(b as int)),
                resp_media_port_in(all) == resp_media_port_in(all.skip(i as int)),
            decreases ls@.len() - i,
        {
            let ghost rest = all.skip(i as int);
            assert(rest.drop_first() =~= all.skip(i + 1));
            assert(rest[0] == ls@[i as int]@);
            let t = trim_range(&ls[i], 0, ls[i].len());
            assert(ls@[i as int]@.subrange(0, ls@[i as int]@.len() as int) =~= ls@[i as int]@);
            if starts_with(&t, &m_p) {
                let p = split_chars(&ls[i], ' ');
                if p.len() >= 2 {
                    assert(views(p@)[1] == p@[1]@);
                    assert(p@[1]@.subrange(0, p@[1]@.len() as int) =~= p@[1]@);
                    if let Some(n) = parse_uint_range(&p[1], 0, p[1].len(), 65535) {
                        return Some(n as u16);
                    }
                }
            }
            i += 1;
        }
        None
    }
}


proof fn lemma_collect_vias(ls: Seq<Seq<char>>, h: RequestHeaders)
    ensures
        collect(ls, h).vias == h.vias + ls.filter(|l: Seq<char>| starts_ci(l, "via:"@) || starts_ci(l, "v:"@)),
    decreases ls.len(),
{
    let p = |l: Seq<char>| starts_ci(l, "via:"@) || starts_ci(l, "v:"@);
    if ls.len() == 0 {
        assert(ls.filter(p) =~= Seq::<Seq<char>>::empty());
        assert(h.vias + ls.filter(p) =~= h.vias);
    } else {
        let h2 = collect_step(h, ls[0]);
        lemma_collect_vias(ls.drop_first(), h2);
        assert(ls =~= seq![ls[0]] + ls.drop_first());
        Seq::filter_distributes_over_add(seq![ls[0]], ls.drop_first(), p);
        reveal_with_fuel(Seq::filter, 2);
        assert(seq![ls[0]].drop_last() =~= Seq::<Seq<char>>::empty());
        if p(ls[0]) {
            assert(seq![ls[0]].filter(p) =~= seq![ls[0]]);
            assert(h2.vias == h.vias.push(ls[0]));
            assert(h.vias.push(ls[0]) + ls.drop_first().filter(p) =~= h.vias + (seq![ls[0]]
                + ls.drop_first().filter(p)));
        } else {
            assert(seq![ls[0]].filter(p) =~= Seq::<Seq<char>>::empty());
            assert(h2.vias == h.vias);
            assert(Seq::<Seq<char>>::empty() + ls.drop_first().filter(p) =~= ls.drop_first().filter(p));
        }
    }
}

/// A response echoes every `Via` line of the request, in order (RFC 3261
/// §8.2.6.2): the lines of the request that start with `Via:` or `v:`, in
/// any case, and no other.
pub proof fn lemma_all_vias_echoed(raw: Seq<char>)
    ensures
        request_headers(raw).vias == lines(raw).filter(
            |l: Seq<char>| starts_ci(l, "via:"@) || starts_ci(l, "v:"@),
        ),
{
    lemma_collect_vias(lines(raw), no_headers());
    assert(no_headers().vias + lines(raw).filter(|l: Seq<char>| starts_ci(l, "via:"@) || starts_ci(l, "v:"@))
        =~= lines(raw).filter(|l: Seq<char>| starts_ci(l, "via:"@) || starts_ci(l, "v:"@)));
}

} // verus!
