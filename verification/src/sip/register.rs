//! REGISTER requests and HTTP Digest authentication (RFC 3261 §22.4,
//! RFC 2617): reading a challenge from a 401/407 response and answering it.
use crate::num::{dec, dec_string, hex_fixed, push_hex_fixed};
use crate::sip::message::{lowercase, to_lower};
use crate::sip::parser::opt_str;
use crate::text::{
    chars_of, copy_range, eq_chars, index_of, index_of_from, lines, lower_all, lower_chars,
    split_lines, starts, starts_ci, starts_with, starts_with_ci, string_of, trim, trim_range,
    views,
};
use vstd::prelude::*;
use vstd::utf8::encode_utf8;

verus! {

/// The text of a REGISTER request; `auth` is the value of an
/// `Authorization` header to include.
pub open spec fn register_text(
    username: Seq<char>,
    domain: Seq<char>,
    server: Seq<char>,
    local_addr: Seq<char>,
    cseq: u32,
    branch: Seq<char>,
    from_tag: Seq<char>,
    call_id: Seq<char>,
    transport: Seq<char>,
    expires: u32,
    auth: Option<Seq<char>>,
) -> Seq<char> {
    let auth_line = match auth {
        Some(h) => "Authorization: "@ + h + "\r\n"@,
        None => Seq::empty(),
    };
    "REGISTER sip:"@ + server + " SIP/2.0\r\nVia: SIP/2.0/"@ + transport + " "@ + local_addr
        + ";branch="@ + branch + ";rport\r\nMax-Forwards: 70\r\nFrom: <sip:"@ + username + "@"@
        + domain + ">;tag="@ + from_tag + "\r\nTo: <sip:"@ + username + "@"@ + domain
        + ">\r\nCall-ID: "@ + call_id + "\r\nCSeq: "@ + dec(cseq as nat) + " REGISTER\r\nContact: <sip:"@
        + username + "@"@ + local_addr + ";transport="@ + lowercase(transport) + ">;expires="@
        + dec(expires as nat) + "\r\nExpires: "@ + dec(expires as nat) + "\r\n"@ + auth_line
        + "User-Agent: sipress/0.1\r\nAllow: INVITE,ACK,BYE,CANCEL,OPTIONS,REGISTER\r\nContent-Length: 0\r\n\r\n"@
}

pub open spec fn opt_ref_view(o: Option<&str>) -> Option<Seq<char>> {
    match o {
        Some(s) => Some(s@),
        None => None,
    }
}

/// Builder of REGISTER requests.
pub struct RegisterMessage;

impl RegisterMessage {
    /// A REGISTER for `username@domain`, binding `local_addr` for `expires`
    /// seconds; `auth_header` answers a challenge.
    pub fn build(
        username: &str,
        domain: &str,
        server: &str,
        local_addr: &str,
        cseq: u32,
        branch: &str,
        from_tag: &str,
        call_id: &str,
        transport: &str,
        expires: u32,
        auth_header: Option<&str>,
    ) -> (s: String)
        ensures
            s@ == register_text(
                username@,
                domain@,
                server@,
                local_addr@,
                cseq,
                branch@,
                from_tag@,
                call_id@,
                transport@,
                expires,
                opt_ref_view(auth_header),
            ),
    {
        let mut auth_line = String::new();
        if let Some(h) = auth_header {
            auth_line.append("Authorization: ");
            auth_line.append(h);
            auth_line.append("\r\n");
        }
        let tl = to_lower(transport);
        let exp = dec_string(expires as u64);
        let mut s = String::new();
        s.append("REGISTER sip:");
        s.append(server);
        s.append(" SIP/2.0\r\nVia: SIP/2.0/");
        s.append(transport);
        s.append(" ");
        s.append(local_addr);
        s.append(";branch=");
        s.append(branch);
        s.append(";rport\r\nMax-Forwards: 70\r\nFrom: <sip:");
        s.append(username);
        s.append("@");
        s.append(domain);
        s.append(">;tag=");
        s.append(from_tag);
        s.append("\r\nTo: <sip:");
        s.append(username);
        s.append("@");
        s.append(domain);
        s.append(">\r\nCall-ID: ");
        s.append(call_id);
        s.append("\r\nCSeq: ");
        s.append(dec_string(cseq as u64).as_str());
        s.append(" REGISTER\r\nContact: <sip:");
        s.append(username);
        s.append("@");
        s.append(local_addr);
        s.append(";transport=");
        s.append(tl.as_str());
        s.append(">;expires=");
        s.append(exp.as_str());
        s.append("\r\nExpires: ");
        s.append(exp.as_str());
        s.append("\r\n");
        s.append(auth_line.as_str());
        s.append(
            "User-Agent: sipress/0.1\r\nAllow: INVITE,ACK,BYE,CANCEL,OPTIONS,REGISTER\r\nContent-Length: 0\r\n\r\n",
        );
        assert(s@ =~= register_text(
            username@,
            domain@,
            server@,
            local_addr@,
            cseq,
            branch@,
            from_tag@,
            call_id@,
            transport@,
            expires,
            opt_ref_view(auth_header),
        ));
        s
    }
}

// ─── splitting the challenge parameters ──────────────────────────────

/// State of the split of a challenge at the commas outside quotes.
pub struct CsvState {
    pub parts: Seq<Seq<char>>,
    pub cur: Seq<char>,
    pub in_quote: bool,
}

/// `parts` with `cur` added, trimmed, when it is not blank.
pub open spec fn flush(parts: Seq<Seq<char>>, cur: Seq<char>) -> Seq<Seq<char>> {
    if trim(cur).len() > 0 {
        parts.push(trim(cur))
    } else {
        parts
    }
}

pub open spec fn csv_step(st: CsvState, c: char) -> CsvState {
    if c == '"' {
        CsvState { parts: st.parts, cur: st.cur.push(c), in_quote: !st.in_quote }
    } else if c == ',' && !st.in_quote {
        CsvState { parts: flush(st.parts, st.cur), cur: Seq::empty(), in_quote: st.in_quote }
    } else {
        CsvState { parts: st.parts, cur: st.cur.push(c), in_quote: st.in_quote }
    }
}

pub open spec fn csv_scan(s: Seq<char>) -> CsvState
    decreases s.len(),
{
    if s.len() == 0 {
        CsvState { parts: Seq::empty(), cur: Seq::empty(), in_quote: false }
    } else {
        csv_step(csv_scan(s.drop_last()), s.last())
    }
}

/// The comma-separated parts of `s`, commas inside double quotes kept,
/// each part trimmed, blank parts dropped.
pub open spec fn quoted_csv(s: Seq<char>) -> Seq<Seq<char>> {
    let st = csv_scan(s);
    flush(st.parts, st.cur)
}

pub fn split_quoted_csv(s: &str) -> (r: Vec<String>)
    ensures
        r@.len() == quoted_csv(s@).len(),
        forall|i: int| 0 <= i < r@.len() ==> #[trigger] r@[i]@ == quoted_csv(s@)[i],
{
    let v = chars_of(s);
    let mut parts: Vec<Vec<char>> = Vec::new();
    let mut cur: Vec<char> = Vec::new();
    let mut in_quote = false;
    let mut i: usize = 0;
    assert(v@.take(0) =~= Seq::<char>::empty());
    assert(views(parts@) =~= Seq::<Seq<char>>::empty());
    while i < v.len()
        invariant
            i <= v@.len(),
            csv_scan(v@.take(i as int)) == (CsvState { parts: views(parts@), cur: cur@, in_quote }),
        decreases v@.len() - i,
    {
        let c = v[i];
        assert(v@.take(i + 1).drop_last() =~= v@.take(i as int));
        if c == '"' {
            cur.push(c);
            in_quote = !in_quote;
        } else if c == ',' && !in_quote {
            let t = trim_range(&cur, 0, cur.len());
            assert(cur@.subrange(0, cur@.len() as int) =~= cur@);
            let ghost old_parts = views(parts@);
            if t.len() > 0 {
                parts.push(t);
                assert(views(parts@) =~= old_parts.push(trim(cur@)));
            }
            cur = Vec::new();
            assert(cur@ =~= Seq::<char>::empty());
        } else {
            cur.push(c);
        }
        i += 1;
    }
    assert(v@.take(v@.len() as int) =~= v@);
    let t = trim_range(&cur, 0, cur.len());
    assert(cur@.subrange(0, cur@.len() as int) =~= cur@);
    let ghost old_parts = views(parts@);
    if t.len() > 0 {
        parts.push(t);
        assert(views(parts@) =~= old_parts.push(trim(cur@)));
    }
    let mut r: Vec<String> = Vec::new();
    let mut k: usize = 0;
    while k < parts.len()
        invariant
            k <= parts@.len(),
            views(parts@) == quoted_csv(s@),
            r@.len() == k,
            forall|j: int| 0 <= j < k ==> #[trigger] r@[j]@ == views(parts@)[j],
        decreases parts@.len() - k,
    {
        r.push(string_of(&parts[k]));
        k += 1;
    }
    r
}

// ─── reading a challenge ─────────────────────────────────────────────

/// State of the scan for the challenge header, folded lines included.
pub struct AuthScan {
    pub value: Seq<char>,
    pub joining: bool,
    pub stopped: bool,
}

pub open spec fn is_auth_line(l: Seq<char>) -> bool {
    starts_ci(l, "www-authenticate:"@) || starts_ci(l, "proxy-authenticate:"@)
}

/// One line's effect: a `WWW-Authenticate` or `Proxy-Authenticate` line
/// starts the value (what follows its first colon, trimmed); while joining,
/// a line that begins with a space or tab continues it; any other line
/// ends the scan.
pub open spec fn auth_step(st: AuthScan, l: Seq<char>) -> AuthScan {
    if st.stopped {
        st
    } else if is_auth_line(l) {
        AuthScan { value: trim(l.skip(index_of(l, ':') + 1)), joining: true, stopped: false }
    } else if st.joining && l.len() > 0 && (l[0] == ' ' || l[0] == '\t') {
        AuthScan { value: st.value + seq![' '] + trim(l), joining: true, stopped: false }
    } else if st.joining {
        AuthScan { value: st.value, joining: true, stopped: true }
    } else {
        st
    }
}

pub open spec fn auth_scan(ls: Seq<Seq<char>>, st: AuthScan) -> AuthScan
    decreases ls.len(),
{
    if ls.len() == 0 {
        st
    } else {
        auth_scan(ls.drop_first(), auth_step(st, ls[0]))
    }
}

/// The challenge header value of `raw` (empty when there is none).
pub open spec fn auth_value_of(raw: Seq<char>) -> Seq<char> {
    auth_scan(lines(raw), AuthScan { value: Seq::empty(), joining: false, stopped: false }).value
}

/// What follows the scheme `Digest` (or `digest`), trimmed.
pub open spec fn after_digest(v: Seq<char>) -> Option<Seq<char>> {
    if starts(v, "Digest"@) {
        Some(trim(v.skip(6)))
    } else if starts(v, "digest"@) {
        Some(trim(v.skip(6)))
    } else {
        None
    }
}

/// `s` without leading and trailing double quotes.
pub open spec fn strip_quotes(s: Seq<char>) -> Seq<char>
    decreases s.len(),
{
    if s.len() > 0 && s[0] == '"' {
        strip_quotes(s.drop_first())
    } else if s.len() > 0 && s.last() == '"' {
        strip_quotes(s.drop_last())
    } else {
        s
    }
}

/// The parameters of a Digest challenge as read so far.
pub struct ChallengeView {
    pub realm: Seq<char>,
    pub nonce: Seq<char>,
    pub algorithm: Seq<char>,
    pub qop: Option<Seq<char>>,
    pub opaque: Option<Seq<char>>,
}

/// The key of a `key=value` part, trimmed.
pub open spec fn key_of(part: Seq<char>) -> Seq<char> {
    trim(part.take(index_of(part, '=')))
}

/// The value of a `key=value` part, trimmed and unquoted (empty without `=`).
pub open spec fn val_of(part: Seq<char>) -> Seq<char> {
    let i = index_of(part, '=');
    if i < part.len() {
        strip_quotes(trim(part.skip(i + 1)))
    } else {
        Seq::empty()
    }
}

/// One parameter's effect; keys compare in ASCII lower case, later
/// parameters override earlier ones, unknown keys are ignored.
pub open spec fn param_step(c: ChallengeView, part: Seq<char>) -> ChallengeView {
    let k = lower_all(key_of(part));
    let v = val_of(part);
    if k == "realm"@ {
        ChallengeView { realm: v, ..c }
    } else if k == "nonce"@ {
        ChallengeView { nonce: v, ..c }
    } else if k == "algorithm"@ {
        ChallengeView { algorithm: v, ..c }
    } else if k == "qop"@ {
        ChallengeView { qop: Some(v), ..c }
    } else if k == "opaque"@ {
        ChallengeView { opaque: Some(v), ..c }
    } else {
        c
    }
}

pub open spec fn params_scan(parts: Seq<Seq<char>>, c: ChallengeView) -> ChallengeView
    decreases parts.len(),
{
    if parts.len() == 0 {
        c
    } else {
        params_scan(parts.drop_first(), param_step(c, parts[0]))
    }
}

/// The Digest challenge of a 401/407 response: present when the response
/// has a challenge header with scheme Digest, a realm and a nonce.
pub open spec fn challenge_of(raw: Seq<char>) -> Option<ChallengeView> {
    let v = auth_value_of(raw);
    if v.len() == 0 {
        None
    } else {
        match after_digest(v) {
            None => None,
            Some(rest) => {
                let c = params_scan(
                    quoted_csv(rest),
                    ChallengeView {
                        realm: Seq::empty(),
                        nonce: Seq::empty(),
                        algorithm: "MD5"@,
                        qop: None,
                        opaque: None,
                    },
                );
                if c.realm.len() == 0 || c.nonce.len() == 0 {
                    None
                } else {
                    Some(c)
                }
            },
        }
    }
}

/// A Digest challenge read from a 401 or 407 response.
#[derive(Debug, Clone)]
pub struct DigestChallenge {
    pub realm: String,
    pub nonce: String,
    /// Usually `MD5`.
    pub algorithm: String,
    /// `auth`, `auth-int`, or absent.
    pub qop: Option<String>,
    pub opaque: Option<String>,
}

impl View for DigestChallenge {
    type V = ChallengeView;

    open spec fn view(&self) -> ChallengeView {
        ChallengeView {
            realm: self.realm@,
            nonce: self.nonce@,
            algorithm: self.algorithm@,
            qop: opt_str(self.qop),
            opaque: opt_str(self.opaque),
        }
    }
}

/// `s` without leading and trailing double quotes.
fn strip_quotes_chars(v: &Vec<char>) -> (r: Vec<char>)
    ensures
        r@ == strip_quotes(v@),
{
    let mut a: usize = 0;
    let mut b: usize = v.len();
    assert(v@.subrange(0, v@.len() as int) =~= v@);
    while a < b && (v[a] == '"' || v[b - 1] == '"')
        invariant
            a <= b <= v@.len(),
            strip_quotes(v@.subrange(a as int, b as int)) == strip_quotes(v@),
        decreases b - a,
    {
        if v[a] == '"' {
            assert(v@.subrange(a as int, b as int).drop_first() =~= v@.subrange(a + 1, b as int));
            a += 1;
        } else {
            assert(v@.subrange(a as int, b as int).drop_last() =~= v@.subrange(a as int, b - 1));
            b -= 1;
        }
    }
    copy_range(v, a, b)
}

impl DigestChallenge {
    /// Reads the Digest challenge of a 401 or 407 response.
    pub fn parse(raw: &str) -> (r: Option<Self>)
        ensures
            r matches Some(c) ==> challenge_of(raw@) == Some(c@),
            r is None ==> challenge_of(raw@) is None,
    {
        let v = chars_of(raw);
        let ls = split_lines(&v);
        let www = chars_of("www-authenticate:");
        let proxy = chars_of("proxy-authenticate:");
        let mut value: Vec<char> = Vec::new();
        let mut joining = false;
        let mut stopped = false;
        let mut i: usize = 0;
        assert(views(ls@).skip(0) =~= views(ls@));
        assert(value@ =~= Seq::<char>::empty());
        while i < ls.len()
            invariant
                i <= ls@.len(),
                www@ == "www-authenticate:"@,
                proxy@ == "proxy-authenticate:"@,
                views(ls@) == lines(raw@),
                auth_value_of(raw@) == auth_scan(
                    views(ls@).skip(i as int),
                    AuthScan { value: value@, joining, stopped },
                ).value,
            decreases ls@.len() - i,
        {
            let ghost rest = views(ls@).skip(i as int);
            assert(rest.drop_first() =~= views(ls@).skip(i + 1));
            let l = &ls[i];
            assert(rest[0] == l@);
            if stopped {
            } else if starts_with_ci(l, &www) || starts_with_ci(l, &proxy) {
                let c = index_of_from(l, ':', 0);
                assert(l@.skip(0) =~= l@);
                proof {
                    reveal_strlit("www-authenticate:");
                    reveal_strlit("proxy-authenticate:");
                    crate::text::lemma_index_of(l@, ':');
                    if starts_ci(l@, www@) {
                        assert(crate::text::lower(l@[16]) == www@[16]);
                        assert(l@[16] == ':');
                    } else {
                        assert(crate::text::lower(l@[18]) == proxy@[18]);
                        assert(l@[18] == ':');
                    }
                }
                let start = if c < l.len() {
                    c + 1
                } else {
                    l.len()
                };
                assert(l@.subrange(start as int, l@.len() as int) =~= l@.skip(c + 1));
                value = trim_range(l, start, l.len());
                joining = true;
            } else if joining && l.len() > 0 && (l[0] == ' ' || l[0] == '\t') {
                let t = trim_range(l, 0, l.len());
                assert(l@.subrange(0, l@.len() as int) =~= l@);
                let ghost old_value = value@;
                value.push(' ');
                let mut k: usize = 0;
                while k < t.len()
                    invariant
                        k <= t@.len(),
                        value@ == old_value + seq![' '] + t@.take(k as int),
                    decreases t@.len() - k,
                {
                    value.push(t[k]);
                    k += 1;
                    assert(value@ =~= old_value + seq![' '] + t@.take(k as int));
                }
                assert(t@.take(t@.len() as int) =~= t@);
            } else if joining {
                stopped = true;
            }
            i += 1;
        }
        assert(views(ls@).skip(ls@.len() as int) =~= Seq::<Seq<char>>::empty());
        if value.len() == 0 {
            return None;
        }
        let dg = chars_of("Digest");
        let dl = chars_of("digest");
        proof {
            reveal_strlit("Digest");
            reveal_strlit("digest");
        }
        let rest = if starts_with(&value, &dg) || starts_with(&value, &dl) {
            trim_range(&value, 6, value.len())
        } else {
            return None;
        };
        assert(value@.subrange(6, value@.len() as int) =~= value@.skip(6));
        let parts = split_quoted_csv(string_of(&rest).as_str());
        let mut realm = String::new();
        let mut nonce = String::new();
        let mut algorithm = String::new();
        algorithm.append("MD5");
        let mut qop: Option<String> = None;
        let mut opaque: Option<String> = None;
        let realm_k = chars_of("realm");
        let nonce_k = chars_of("nonce");
        let alg_k = chars_of("algorithm");
        let qop_k = chars_of("qop");
        let opaque_k = chars_of("opaque");
        let ghost ps = quoted_csv(rest@);
        let mut j: usize = 0;
        assert(ps.skip(0) =~= ps);
        while j < parts.len()
            invariant
                j <= parts@.len(),
                parts@.len() == ps.len(),
                forall|q: int| 0 <= q < parts@.len() ==> #[trigger] parts@[q]@ == ps[q],
                realm_k@ == "realm"@,
                nonce_k@ == "nonce"@,
                alg_k@ == "algorithm"@,
                qop_k@ == "qop"@,
                opaque_k@ == "opaque"@,
                params_scan(
                    ps,
                    ChallengeView {
                        realm: Seq::empty(),
                        nonce: Seq::empty(),
                        algorithm: "MD5"@,
                        qop: None,
                        opaque: None,
                    },
                ) == params_scan(
                    ps.skip(j as int),
                    ChallengeView {
                        realm: realm@,
                        nonce: nonce@,
                        algorithm: algorithm@,
                        qop: opt_str(qop),
                        opaque: opt_str(opaque),
                    },
                ),
            decreases parts@.len() - j,
        {
            assert(ps.skip(j as int).drop_first() =~= ps.skip(j + 1));
            assert(ps.skip(j as int)[0] == parts@[j as int]@);
            let part = chars_of(parts[j].as_str());
            let e = index_of_from(&part, '=', 0);
            assert(part@.skip(0) =~= part@);
            let k = trim_range(&part, 0, e);
            assert(part@.take(e as int) =~= part@.subrange(0, e as int));
            let kl = lower_chars(&k);
            let val = if e < part.len() {
                let raw_v = trim_range(&part, e + 1, part.len());
                assert(part@.subrange(e + 1, part@.len() as int) =~= part@.skip(e + 1));
                strip_quotes_chars(&raw_v)
            } else {
                Vec::new()
            };
            assert(val@ == val_of(part@));
            if eq_chars(&kl, &realm_k) {
                realm = string_of(&val);
            } else if eq_chars(&kl, &nonce_k) {
                nonce = string_of(&val);
            } else if eq_chars(&kl, &alg_k) {
                algorithm = string_of(&val);
            } else if eq_chars(&kl, &qop_k) {
                qop = Some(string_of(&val));
            } else if eq_chars(&kl, &opaque_k) {
                opaque = Some(string_of(&val));
            }
            j += 1;
        }
        assert(ps.skip(parts@.len() as int) =~= Seq::<Seq<char>>::empty());
        if realm.unicode_len() == 0 || nonce.unicode_len() == 0 {
            return None;
        }
        Some(DigestChallenge { realm, nonce, algorithm, qop, opaque })
    }
}

// ─── answering a challenge ───────────────────────────────────────────

/// The MD5 digest of a byte string, as the `md-5` crate computes it.
pub uninterp spec fn md5_of(data: Seq<u8>) -> Seq<u8>;

/// `md5::Md5::new()`, `update(data)`, `finalize()`: the 16-byte MD5 digest
/// of `data`, named `md5_of`.
#[verifier::external_body]
fn md5_digest(data: &[u8]) -> (r: Vec<u8>)
    ensures
        r@ == md5_of(data@),
        r@.len() == 16,
{
    let mut h = <md5::Md5 as md5::Digest>::new();
    md5::Digest::update(&mut h, data);
    md5::Digest::finalize(h).to_vec()
}

/// `rand::random::<u32>()`: a random number; any value may come back.
#[verifier::external_body]
fn random_u32() -> u32 {
    rand::random::<u32>()
}

/// Bytes as lower-case hexadecimal, two digits each.
pub open spec fn hex_bytes(b: Seq<u8>) -> Seq<char>
    decreases b.len(),
{
    if b.len() == 0 {
        Seq::empty()
    } else {
        hex_bytes(b.drop_last()) + hex_fixed(b.last() as nat, 2)
    }
}

/// The MD5 of the UTF-8 encoding of `s`, in lower-case hexadecimal.
pub open spec fn md5_hex_of(s: Seq<char>) -> Seq<char> {
    hex_bytes(md5_of(encode_utf8(s)))
}

pub fn md5_hex(s: &str) -> (r: String)
    ensures
        r@ == md5_hex_of(s@),
{
    let d = md5_digest(s.as_bytes());
    let mut r = String::new();
    let mut i: usize = 0;
    assert(d@.take(0) =~= Seq::<u8>::empty());
    while i < d.len()
        invariant
            i <= d@.len(),
            d@ == md5_of(encode_utf8(s@)),
            r@ == hex_bytes(d@.take(i as int)),
        decreases d@.len() - i,
    {
        push_hex_fixed(&mut r, d[i] as u64, 2);
        assert(d@.take(i + 1).drop_last() =~= d@.take(i as int));
        i += 1;
    }
    assert(d@.take(d@.len() as int) =~= d@);
    r
}

/// The `qop` value used: the first of a comma-separated list, trimmed.
pub open spec fn first_qop(q: Seq<char>) -> Seq<char> {
    trim(q.take(index_of(q, ',')))
}

/// The `response` digest: MD5(HA1:nonce:nc:cnonce:qop:HA2) with a qop,
/// else MD5(HA1:nonce:HA2) (RFC 2069), where HA1 = MD5(user:realm:password)
/// and HA2 = MD5(method:uri).
pub open spec fn digest_response(
    c: ChallengeView,
    username: Seq<char>,
    password: Seq<char>,
    method: Seq<char>,
    uri: Seq<char>,
    cnonce: Seq<char>,
) -> Seq<char> {
    let ha1 = md5_hex_of(username + ":"@ + c.realm + ":"@ + password);
    let ha2 = md5_hex_of(method + ":"@ + uri);
    match c.qop {
        Some(q) => md5_hex_of(
            ha1 + ":"@ + c.nonce + ":"@ + "00000001"@ + ":"@ + cnonce + ":"@ + first_qop(q) + ":"@
                + ha2,
        ),
        None => md5_hex_of(ha1 + ":"@ + c.nonce + ":"@ + ha2),
    }
}

/// The `Authorization` value answering challenge `c`, with client nonce
/// `cnonce` (eight hexadecimal digits) when the challenge has a qop.
pub open spec fn authorization_text(
    c: ChallengeView,
    username: Seq<char>,
    password: Seq<char>,
    method: Seq<char>,
    uri: Seq<char>,
    cnonce: u32,
) -> Seq<char> {
    let cn = hex_fixed(cnonce as nat, 8);
    let resp = digest_response(c, username, password, method, uri, cn);
    let qop_parts = match c.qop {
        Some(q) => ", qop="@ + first_qop(q) + ", nc=00000001"@ + ", cnonce=\""@ + cn + "\""@,
        None => Seq::empty(),
    };
    let opaque_part = match c.opaque {
        Some(o) => ", opaque=\""@ + o + "\""@,
        None => Seq::empty(),
    };
    "Digest username=\""@ + username + "\", realm=\""@ + c.realm + "\", nonce=\""@ + c.nonce
        + "\", uri=\""@ + uri + "\", response=\""@ + resp + "\", algorithm="@ + c.algorithm
        + qop_parts + opaque_part
}

fn cat3(a: &str, b: &str, c: &str) -> (s: String)
    ensures
        s@ == a@ + ":"@ + b@ + ":"@ + c@,
{
    let mut s = String::new();
    s.append(a);
    s.append(":");
    s.append(b);
    s.append(":");
    s.append(c);
    assert(s@ =~= a@ + ":"@ + b@ + ":"@ + c@);
    s
}

impl DigestChallenge {
    /// The `Authorization` value for this challenge, with client nonce
    /// `cnonce` when the challenge asks for a qop.
    pub fn build_authorization_with_cnonce(
        &self,
        username: &str,
        password: &str,
        method: &str,
        uri: &str,
        cnonce: u32,
    ) -> (s: String)
        ensures
            s@ == authorization_text(self@, username@, password@, method@, uri@, cnonce),
    {
        let ha1 = md5_hex(cat3(username, self.realm.as_str(), password).as_str());
        let mut m = String::new();
        m.append(method);
        m.append(":");
        m.append(uri);
        let ha2 = md5_hex(m.as_str());
        let mut cn = String::new();
        push_hex_fixed(&mut cn, cnonce as u64, 8);
        assert(cn@ =~= hex_fixed(cnonce as nat, 8));
        let mut qop_parts = String::new();
        let resp = match &self.qop {
            Some(q) => {
                let qv = chars_of(q.as_str());
                let k = index_of_from(&qv, ',', 0);
                assert(qv@.skip(0) =~= qv@);
                assert(qv@.take(k as int) =~= qv@.subrange(0, k as int));
                let qop_val = string_of(&trim_range(&qv, 0, k));
                let mut x = String::new();
                x.append(ha1.as_str());
                x.append(":");
                x.append(self.nonce.as_str());
                x.append(":");
                x.append("00000001");
                x.append(":");
                x.append(cn.as_str());
                x.append(":");
                x.append(qop_val.as_str());
                x.append(":");
                x.append(ha2.as_str());
                qop_parts.append(", qop=");
                qop_parts.append(qop_val.as_str());
                qop_parts.append(", nc=00000001");
                qop_parts.append(", cnonce=\"");
                qop_parts.append(cn.as_str());
                qop_parts.append("\"");
                md5_hex(x.as_str())
            },
            None => md5_hex(cat3(ha1.as_str(), self.nonce.as_str(), ha2.as_str()).as_str()),
        };
        let mut opaque_part = String::new();
        if let Some(o) = &self.opaque {
            opaque_part.append(", opaque=\"");
            opaque_part.append(o.as_str());
            opaque_part.append("\"");
        }
        let mut s = String::new();
        s.append("Digest username=\"");
        s.append(username);
        s.append("\", realm=\"");
        s.append(self.realm.as_str());
        s.append("\", nonce=\"");
        s.append(self.nonce.as_str());
        s.append("\", uri=\"");
        s.append(uri);
        s.append("\", response=\"");
        s.append(resp.as_str());
        s.append("\", algorithm=");
        s.append(self.algorithm.as_str());
        s.append(qop_parts.as_str());
        s.append(opaque_part.as_str());
        assert(s@ =~= authorization_text(self@, username@, password@, method@, uri@, cnonce));
        s
    }

    /// The `Authorization` value for this challenge; the client nonce, used
    /// when the challenge asks for a qop, is random.
    pub fn build_authorization(&self, username: &str, password: &str, method: &str, uri: &str) -> (s: String)
        ensures
            exists|cnonce: u32| s@ == authorization_text(self@, username@, password@, method@, uri@, cnonce),
    {
        let cnonce = random_u32();
        self.build_authorization_with_cnonce(username, password, method, uri, cnonce)
    }
}


/// Without a qop (RFC 2069, RFC 2617 §3.2.2.1), the answer to a challenge
/// carries the user, realm, nonce and URI as given, and the response
/// MD5(MD5(user:realm:password):nonce:MD5(method:uri)), in lower-case hex;
/// only an opaque value, when the challenge has one, follows.
pub proof fn lemma_digest_without_qop(
    c: ChallengeView,
    username: Seq<char>,
    password: Seq<char>,
    method: Seq<char>,
    uri: Seq<char>,
    cnonce: u32,
)
    requires
        c.qop is None,
    ensures
        authorization_text(c, username, password, method, uri, cnonce) == "Digest username=\""@
            + username + "\", realm=\""@ + c.realm + "\", nonce=\""@ + c.nonce + "\", uri=\""@ + uri
            + "\", response=\""@ + md5_hex_of(
            md5_hex_of(username + ":"@ + c.realm + ":"@ + password) + ":"@ + c.nonce + ":"@
                + md5_hex_of(method + ":"@ + uri),
        ) + "\", algorithm="@ + c.algorithm + (match c.opaque {
            Some(o) => ", opaque=\""@ + o + "\""@,
            None => Seq::empty(),
        }),
{
    let opaque_part = match c.opaque {
        Some(o) => ", opaque=\""@ + o + "\""@,
        None => Seq::<char>::empty(),
    };
    let a = authorization_text(c, username, password, method, uri, cnonce);
    assert(a =~= "Digest username=\""@ + username + "\", realm=\""@ + c.realm + "\", nonce=\""@
        + c.nonce + "\", uri=\""@ + uri + "\", response=\""@ + md5_hex_of(
        md5_hex_of(username + ":"@ + c.realm + ":"@ + password) + ":"@ + c.nonce + ":"@ + md5_hex_of(
            method + ":"@ + uri,
        ),
    ) + "\", algorithm="@ + c.algorithm + opaque_part);
}

/// With a qop (RFC 2617 §3.2.2.1), the response is
/// MD5(MD5(user:realm:password):nonce:00000001:cnonce:qop:MD5(method:uri)),
/// with the client nonce as eight hex digits and the first qop offered;
/// the qop, the count 00000001 and the client nonce are sent with it.
pub proof fn lemma_digest_with_qop(
    c: ChallengeView,
    username: Seq<char>,
    password: Seq<char>,
    method: Seq<char>,
    uri: Seq<char>,
    cnonce: u32,
    q: Seq<char>,
)
    requires
        c.qop == Some(q),
    ensures
        ({
            let cn = hex_fixed(cnonce as nat, 8);
            let qop = trim(q.take(index_of(q, ',')));
            authorization_text(c, username, password, method, uri, cnonce) == "Digest username=\""@
                + username + "\", realm=\""@ + c.realm + "\", nonce=\""@ + c.nonce + "\", uri=\""@
                + uri + "\", response=\""@ + md5_hex_of(
                md5_hex_of(username + ":"@ + c.realm + ":"@ + password) + ":"@ + c.nonce + ":"@
                    + "00000001"@ + ":"@ + cn + ":"@ + qop + ":"@ + md5_hex_of(method + ":"@ + uri),
            ) + "\", algorithm="@ + c.algorithm + ", qop="@ + qop + ", nc=00000001"@ + ", cnonce=\""@
                + cn + "\""@ + (match c.opaque {
                Some(o) => ", opaque=\""@ + o + "\""@,
                None => Seq::empty(),
            })
        }),
{
    let cn = hex_fixed(cnonce as nat, 8);
    let qop = trim(q.take(index_of(q, ',')));
    let opaque_part = match c.opaque {
        Some(o) => ", opaque=\""@ + o + "\""@,
        None => Seq::<char>::empty(),
    };
    let a = authorization_text(c, username, password, method, uri, cnonce);
    assert(a =~= "Digest username=\""@ + username + "\", realm=\""@ + c.realm + "\", nonce=\""@
        + c.nonce + "\", uri=\""@ + uri + "\", response=\""@ + md5_hex_of(
        md5_hex_of(username + ":"@ + c.realm + ":"@ + password) + ":"@ + c.nonce + ":"@ + "00000001"@
            + ":"@ + cn + ":"@ + qop + ":"@ + md5_hex_of(method + ":"@ + uri),
    ) + "\", algorithm="@ + c.algorithm + ", qop="@ + qop + ", nc=00000001"@ + ", cnonce=\""@ + cn
        + "\""@ + opaque_part);
}

} // verus!
