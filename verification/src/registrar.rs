//! Registration of a callee-side account: what the answers to REGISTER
//! decide (success, a Digest challenge to answer, refusal).
use vstd::prelude::*;
use crate::num::{is_digit, parse_uint, parse_uint_range, dec, push_dec};
use crate::text::{
    chars_of, split_lines, views, lines, words, split_words, trim, trim_range, starts_ci,
    starts_with_ci, index_of, index_of_from, lower_all, lower_chars, find, find_chars,
};
use crate::sip::parser::first_line;
use crate::sip::register::{DigestChallenge, ChallengeView, challenge_of};

verus! {

/// How a registration ended.
#[derive(Debug, Clone, Copy, PartialEq, Eq, Structural)]
pub enum RegisterStatus {
    /// 200 OK.
    Registered,
    /// The credentials were refused (401, 403 or 407 to the authenticated
    /// request).
    AuthFailed,
    /// The server refused the registration otherwise.
    Rejected,
    /// No final answer in time.
    Timeout,
    /// Sending failed, or the answer could not be read.
    NetworkError,
}

/// The outcome of one registration.
#[derive(Debug, Clone)]
pub struct RegisterResult {
    pub status: RegisterStatus,
    /// A message for people, with the status code or the error.
    pub message: String,
    /// The lifetime the server granted, in seconds (on success).
    pub expires_secs: Option<u32>,
    /// The status code that decided, when there was one.
    pub sip_code: Option<u16>,
}

/// The status code of a response: the second whitespace-separated word of
/// its first line, read as a `u16`.
pub open spec fn reg_status_of(raw: Seq<char>) -> Option<nat> {
    match first_line(raw) {
        None => None,
        Some(l) => {
            let w = words(l);
            if w.len() < 2 {
                None
            } else {
                parse_uint(w[1], 65535)
            }
        },
    }
}

/// The status code, or 0 when it cannot be read.
pub open spec fn code_or_zero(raw: Seq<char>) -> nat {
    match reg_status_of(raw) {
        Some(c) => c,
        None => 0,
    }
}

/// The value of an `Expires:` line: what follows its first `:`, trimmed,
/// read as a `u32`.
pub open spec fn expires_value(l: Seq<char>) -> Option<nat> {
    let c = index_of(l, ':');
    if c < l.len() {
        parse_uint(trim(l.skip(c + 1)), u32::MAX as nat)
    } else {
        None
    }
}

/// The first `Expires:` line (any case) of `ls` whose value reads.
pub open spec fn expires_header_in(ls: Seq<Seq<char>>) -> Option<nat>
    decreases ls.len(),
{
    if ls.len() == 0 {
        None
    } else if starts_ci(ls[0], "expires:"@) && expires_value(ls[0]) is Some {
        expires_value(ls[0])
    } else {
        expires_header_in(ls.drop_first())
    }
}

/// The leading decimal digits of `s`.
pub open spec fn digit_prefix(s: Seq<char>) -> Seq<char>
    decreases s.len(),
{
    if s.len() == 0 || !is_digit(s[0]) {
        Seq::empty()
    } else {
        seq![s[0]] + digit_prefix(s.drop_first())
    }
}

/// The `expires=` parameter of a `Contact:` line: the digits right after
/// the first `expires=` (any case), read as a `u32`.
pub open spec fn contact_expires(l: Seq<char>) -> Option<nat> {
    match find(lower_all(l), "expires="@) {
        None => None,
        Some(i) => parse_uint(digit_prefix(l.skip(i + 8)), u32::MAX as nat),
    }
}

/// The first `Contact:` line (any case) of `ls` whose `expires=` reads.
pub open spec fn contact_expires_in(ls: Seq<Seq<char>>) -> Option<nat>
    decreases ls.len(),
{
    if ls.len() == 0 {
        None
    } else if starts_ci(ls[0], "contact:"@) && contact_expires(ls[0]) is Some {
        contact_expires(ls[0])
    } else {
        contact_expires_in(ls.drop_first())
    }
}

/// The lifetime granted by a response: its `Expires` header, else the
/// `expires=` of a `Contact`.
pub open spec fn expires_of(raw: Seq<char>) -> Option<nat> {
    match expires_header_in(lines(raw)) {
        Some(n) => Some(n),
        None => contact_expires_in(lines(raw)),
    }
}

/// The status code of a response to REGISTER (the second word of its
/// first line).
pub fn parse_status_code(raw: &str) -> (r: Option<u16>)
    ensures
        r matches Some(c) ==> reg_status_of(raw@) == Some(c as nat),
        r is None ==> reg_status_of(raw@) is None,
{
    let v = chars_of(raw);
    let ls = split_lines(&v);
    if ls.len() == 0 {
        return None;
    }
    assert(views(ls@)[0] == ls@[0]@);
    let w = split_words(&ls[0]);
    if w.len() < 2 {
        return None;
    }
    assert(views(w@)[1] == w@[1]@);
    assert(w@[1]@.subrange(0, w@[1]@.len() as int) =~= w@[1]@);
    match parse_uint_range(&w[1], 0, w[1].len(), 65535) {
        Some(n) => Some(n as u16),
        None => None,
    }
}

/// Whether `raw` is a provisional response (1xx), which the wait for a
/// final answer passes over.
pub fn is_provisional(raw: &str) -> (b: bool)
    ensures
        b == (100 <= code_or_zero(raw@) < 200),
{
    match parse_status_code(raw) {
        Some(c) => 100 <= c && c < 200,
        None => false,
    }
}

fn expires_value_exec(l: &Vec<char>) -> (r: Option<u32>)
    ensures
        r matches Some(n) ==> expires_value(l@) == Some(n as nat),
        r is None ==> expires_value(l@) is None,
{
    let c = index_of_from(l, ':', 0);
    assert(l@.skip(0) =~= l@);
    if c >= l.len() {
        return None;
    }
    let start = c + 1;
    assert(l@.skip(index_of(l@, ':') + 1) =~= l@.subrange(start as int, l@.len() as int));
    let t = trim_range(l, start, l.len());
    assert(t@.subrange(0, t@.len() as int) =~= t@);
    match parse_uint_range(&t, 0, t.len(), 0xffff_ffff) {
        Some(n) => Some(n as u32),
        None => None,
    }
}

/// The leading digits of `l` from position `from`.
fn digit_prefix_from(l: &Vec<char>, from: usize) -> (r: Vec<char>)
    requires
        from <= l@.len(),
    ensures
        r@ == digit_prefix(l@.skip(from as int)),
{
    let mut j = from;
    while j < l.len() && '0' <= l[j] && l[j] <= '9'
        invariant
            from <= j <= l@.len(),
            digit_prefix(l@.skip(from as int)) == l@.subrange(from as int, j as int)
                + digit_prefix(l@.skip(j as int)),
        decreases l@.len() - j,
    {
        assert(l@.skip(j as int).drop_first() =~= l@.skip(j + 1));
        assert(l@.subrange(from as int, j + 1) =~= l@.subrange(from as int, j as int).push(
            l@[j as int],
        ));
        j += 1;
    }
    assert(digit_prefix(l@.skip(j as int)) =~= Seq::<char>::empty());
    crate::text::copy_range(l, from, j)
}

fn contact_expires_exec(l: &Vec<char>) -> (r: Option<u32>)
    ensures
        r matches Some(n) ==> contact_expires(l@) == Some(n as nat),
        r is None ==> contact_expires(l@) is None,
{
    let n: usize = l.len();
    let low = lower_chars(l);
    let pat = chars_of("expires=");
    proof {
        reveal_strlit("expires=");
    }
    match find_chars(&low, &pat) {
        None => None,
        Some(i) => {
            proof {
                crate::text::lemma_find_from_bounds(low@, pat@, 0);
            }
            let d = digit_prefix_from(l, i + 8);
            assert(d@.subrange(0, d@.len() as int) =~= d@);
            match parse_uint_range(&d, 0, d.len(), 0xffff_ffff) {
                Some(n) => Some(n as u32),
                None => None,
            }
        },
    }
}

/// The lifetime granted by a response to REGISTER: the value of its
/// `Expires` header, else the `expires=` parameter of a `Contact` line
/// (the position of `expires=` is counted in characters).
pub fn parse_expires(raw: &str) -> (r: Option<u32>)
    ensures
        r matches Some(n) ==> expires_of(raw@) == Some(n as nat),
        r is None ==> expires_of(raw@) is None,
{
    let v = chars_of(raw);
    let ls = split_lines(&v);
    let ex = chars_of("expires:");
    let ct = chars_of("contact:");
    proof {
        reveal_strlit("expires:");
        reveal_strlit("contact:");
    }
    let mut i: usize = 0;
    assert(views(ls@).skip(0) =~= views(ls@));
    while i < ls.len()
        invariant
            i <= ls@.len(),
            views(ls@) == lines(raw@),
            ex@ == "expires:"@,
            expires_header_in(lines(raw@)) == expires_header_in(views(ls@).skip(i as int)),
        decreases ls@.len() - i,
    {
        let ghost rest = views(ls@).skip(i as int);
        assert(rest[0] == ls@[i as int]@);
        assert(rest.drop_first() =~= views(ls@).skip(i + 1));
        if starts_with_ci(&ls[i], &ex) {
            if let Some(n) = expires_value_exec(&ls[i]) {
                return Some(n);
            }
        }
        i += 1;
    }
    let mut k: usize = 0;
    assert(views(ls@).skip(0) =~= views(ls@));
    while k < ls.len()
        invariant
            k <= ls@.len(),
            views(ls@) == lines(raw@),
            ct@ == "contact:"@,
            expires_header_in(lines(raw@)) is None,
            contact_expires_in(lines(raw@)) == contact_expires_in(views(ls@).skip(k as int)),
        decreases ls@.len() - k,
    {
        let ghost rest = views(ls@).skip(k as int);
        assert(rest[0] == ls@[k as int]@);
        assert(rest.drop_first() =~= views(ls@).skip(k + 1));
        if starts_with_ci(&ls[k], &ct) {
            if let Some(n) = contact_expires_exec(&ls[k]) {
                return Some(n);
            }
        }
        k += 1;
    }
    None
}

/// The fields of a [`RegisterResult`], as plain values.
pub struct ResultView {
    pub status: RegisterStatus,
    pub message: Seq<char>,
    pub expires_secs: Option<u32>,
    pub sip_code: Option<u16>,
}

impl View for RegisterResult {
    type V = ResultView;

    open spec fn view(&self) -> ResultView {
        ResultView {
            status: self.status,
            message: self.message@,
            expires_secs: self.expires_secs,
            sip_code: self.sip_code,
        }
    }
}

/// What the answer to the first REGISTER leads to.
pub enum FirstAnswer {
    /// The registration is over, with this result.
    Done(RegisterResult),
    /// 401 or 407 with a Digest challenge: send the request again with
    /// credentials.
    Challenged(DigestChallenge),
    /// 401 or 407 whose challenge could not be read; the status code.
    BadChallenge(u16),
}

pub enum FirstAnswerView {
    Done(ResultView),
    Challenged(ChallengeView),
    BadChallenge(u16),
}

impl View for FirstAnswer {
    type V = FirstAnswerView;

    open spec fn view(&self) -> FirstAnswerView {
        match self {
            FirstAnswer::Done(r) => FirstAnswerView::Done(r@),
            FirstAnswer::Challenged(c) => FirstAnswerView::Challenged(c@),
            FirstAnswer::BadChallenge(code) => FirstAnswerView::BadChallenge(*code),
        }
    }
}

/// `prefix` followed by the decimal code and `)`.
pub open spec fn with_code(prefix: Seq<char>, code: nat) -> Seq<char> {
    prefix + dec(code) + ")"@
}

/// A 200 OK: registered, for the lifetime the answer grants (else the one
/// asked for).
pub open spec fn registered(raw: Seq<char>, username: Seq<char>, expires: u32) -> ResultView {
    ResultView {
        status: RegisterStatus::Registered,
        message: "註冊成功 ("@ + username + ")"@,
        expires_secs: Some(
            match expires_of(raw) {
                Some(n) => n as u32,
                None => expires,
            },
        ),
        sip_code: Some(200),
    }
}

/// What the answer `raw` to the first REGISTER of `username` leads to.
pub open spec fn first_answer_of(raw: Seq<char>, username: Seq<char>, expires: u32) -> FirstAnswerView {
    let code = code_or_zero(raw);
    if code == 200 {
        FirstAnswerView::Done(registered(raw, username, expires))
    } else if code == 401 || code == 407 {
        match challenge_of(raw) {
            Some(c) => FirstAnswerView::Challenged(c),
            None => FirstAnswerView::BadChallenge(code as u16),
        }
    } else if code > 0 {
        FirstAnswerView::Done(
            ResultView {
                status: RegisterStatus::Rejected,
                message: with_code("意外回應 (SIP "@, code),
                expires_secs: None,
                sip_code: Some(code as u16),
            },
        )
    } else {
        FirstAnswerView::Done(
            ResultView {
                status: RegisterStatus::NetworkError,
                message: "無法解析回應"@,
                expires_secs: None,
                sip_code: None,
            },
        )
    }
}

/// The result of the answer `raw` to the REGISTER that carried credentials.
pub open spec fn second_answer_of(raw: Seq<char>, username: Seq<char>, expires: u32) -> ResultView {
    let code = code_or_zero(raw);
    if code == 200 {
        registered(raw, username, expires)
    } else if code == 401 || code == 403 || code == 407 {
        ResultView {
            status: RegisterStatus::AuthFailed,
            message: with_code("認證失敗 (SIP "@, code),
            expires_secs: None,
            sip_code: Some(code as u16),
        }
    } else {
        ResultView {
            status: RegisterStatus::Rejected,
            message: with_code("註冊被拒 (SIP "@, code),
            expires_secs: None,
            sip_code: Some(code as u16),
        }
    }
}

fn registered_result(raw: &str, username: &str, expires: u32) -> (r: RegisterResult)
    ensures
        r@ == registered(raw@, username@, expires),
{
    let mut m = String::new();
    m.append("註冊成功 (");
    m.append(username);
    m.append(")");
    let e = match parse_expires(raw) {
        Some(n) => n,
        None => expires,
    };
    RegisterResult { status: RegisterStatus::Registered, message: m, expires_secs: Some(e), sip_code: Some(200) }
}

fn coded_message(prefix: &str, code: u16) -> (m: String)
    ensures
        m@ == with_code(prefix@, code as nat),
{
    let mut m = String::new();
    m.append(prefix);
    push_dec(&mut m, code as u64);
    m.append(")");
    m
}

/// The status code of `raw`, 0 when unreadable.
fn code_of(raw: &str) -> (c: u16)
    ensures
        c as nat == code_or_zero(raw@),
{
    match parse_status_code(raw) {
        Some(c) => c,
        None => 0,
    }
}

/// What the final answer `resp` to the first REGISTER of `username` (which
/// asked for `expires` seconds) leads to.
pub fn first_answer(resp: &str, username: &str, expires: u32) -> (r: FirstAnswer)
    ensures
        r@ == first_answer_of(resp@, username@, expires),
{
    let code = code_of(resp);
    if code == 200 {
        FirstAnswer::Done(registered_result(resp, username, expires))
    } else if code == 401 || code == 407 {
        match DigestChallenge::parse(resp) {
            Some(c) => FirstAnswer::Challenged(c),
            None => FirstAnswer::BadChallenge(code),
        }
    } else if code > 0 {
        FirstAnswer::Done(
            RegisterResult {
                status: RegisterStatus::Rejected,
                message: coded_message("意外回應 (SIP ", code),
                expires_secs: None,
                sip_code: Some(code),
            },
        )
    } else {
        let mut m = String::new();
        m.append("無法解析回應");
        FirstAnswer::Done(
            RegisterResult {
                status: RegisterStatus::NetworkError,
                message: m,
                expires_secs: None,
                sip_code: None,
            },
        )
    }
}

/// The result of the final answer `resp` to the REGISTER that carried
/// credentials.
pub fn second_answer(resp: &str, username: &str, expires: u32) -> (r: RegisterResult)
    ensures
        r@ == second_answer_of(resp@, username@, expires),
{
    let code = code_of(resp);
    if code == 200 {
        registered_result(resp, username, expires)
    } else if code == 401 || code == 403 || code == 407 {
        RegisterResult {
            status: RegisterStatus::AuthFailed,
            message: coded_message("認證失敗 (SIP ", code),
            expires_secs: None,
            sip_code: Some(code),
        }
    } else {
        RegisterResult {
            status: RegisterStatus::Rejected,
            message: coded_message("註冊被拒 (SIP ", code),
            expires_secs: None,
            sip_code: Some(code),
        }
    }
}


/// Once credentials were sent, a 401, 403 or 407 answer means they were
/// refused: an authentication failure with that code, never a plain
/// rejection; any other answer but 200 is a rejection with its code.
pub proof fn lemma_second_answer_refusals(raw: Seq<char>, username: Seq<char>, expires: u32, c: nat)
    requires
        reg_status_of(raw) == Some(c),
        c != 200,
    ensures
        (c == 401 || c == 403 || c == 407) ==> second_answer_of(raw, username, expires) == (ResultView {
            status: RegisterStatus::AuthFailed,
            message: "認證失敗 (SIP "@ + dec(c) + ")"@,
            expires_secs: None,
            sip_code: Some(c as u16),
        }),
        !(c == 401 || c == 403 || c == 407) ==> second_answer_of(raw, username, expires) == (ResultView {
            status: RegisterStatus::Rejected,
            message: "註冊被拒 (SIP "@ + dec(c) + ")"@,
            expires_secs: None,
            sip_code: Some(c as u16),
        }),
{
}


/// A 200 OK to the REGISTER with credentials registers the account, for
/// the lifetime the answer grants, else the one asked for.
pub proof fn lemma_second_answer_registers(raw: Seq<char>, username: Seq<char>, expires: u32)
    requires
        reg_status_of(raw) == Some(200nat),
    ensures
        second_answer_of(raw, username, expires) == (ResultView {
            status: RegisterStatus::Registered,
            message: "註冊成功 ("@ + username + ")"@,
            expires_secs: Some(
                match expires_of(raw) {
                    Some(n) => n as u32,
                    None => expires,
                },
            ),
            sip_code: Some(200),
        }),
{
}

} // verus!
