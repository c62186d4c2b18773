//! Lookup of SIP header values and start-line fields in a raw message.
//! Header names match without regard to ASCII case, and the compact
//! one-letter forms (`i:` for `Call-ID:`, `t:` for `To:`, ...) are accepted.
use crate::num::{parse_uint, parse_uint_range};
use crate::text::{
    chars_of, copy_range, find, find_chars, index_of, index_of_from, lemma_index_of, lemma_index_of_unique, lemma_find_from_bounds,
    lines, lower_all, lower_chars, split_chars, split_lines, split_on, split_words, starts,
    starts_ci, starts_with, starts_with_ci, string_of, string_of_range, to_upper, trim,
    trim_range, upper, views, words,
};
use vstd::prelude::*;

verus! {

/// The value of `line` for the first of `names` (each written in lower case
/// with its colon) that `line` begins with, trimmed.
pub open spec fn header_of_line(line: Seq<char>, names: Seq<Seq<char>>) -> Option<Seq<char>>
    decreases names.len(),
{
    if names.len() == 0 {
        None
    } else if starts_ci(line, names[0]) {
        Some(trim(line.skip(names[0].len() as int)))
    } else {
        header_of_line(line, names.drop_first())
    }
}

/// Scans `ls` up to the first empty line for a header named by `names`.
pub open spec fn header_in(ls: Seq<Seq<char>>, names: Seq<Seq<char>>) -> Option<Seq<char>>
    decreases ls.len(),
{
    if ls.len() == 0 || ls[0].len() == 0 {
        None
    } else {
        match header_of_line(ls[0], names) {
            Some(v) => Some(v),
            None => header_in(ls.drop_first(), names),
        }
    }
}

/// The value of the first header of the header block named by `names`.
pub open spec fn header_value(raw: Seq<char>, names: Seq<Seq<char>>) -> Option<Seq<char>> {
    header_in(lines(raw), names)
}

/// The first line of `raw`, if it has one.
pub open spec fn first_line(raw: Seq<char>) -> Option<Seq<char>> {
    if lines(raw).len() == 0 {
        None
    } else {
        Some(lines(raw)[0])
    }
}

/// The status code of a start line `SIP/2.0 <code> <reason>`: the second
/// space-separated field, read as a `u16`.
pub open spec fn status_code_of(raw: Seq<char>) -> Option<nat> {
    match first_line(raw) {
        None => None,
        Some(l) => {
            let p = split_on(l, ' ');
            if p.len() < 2 {
                None
            } else {
                parse_uint(p[1], 65535)
            }
        },
    }
}

/// Everything after the second space of `l` (empty when there is none).
pub open spec fn after_second_space(l: Seq<char>) -> Seq<char> {
    let i = index_of(l, ' ');
    let r = l.skip(i + 1);
    let j = index_of(r, ' ');
    if j < r.len() {
        r.skip(j + 1)
    } else {
        Seq::empty()
    }
}

/// The reason phrase of a start line: what follows the code, trimmed.
pub open spec fn reason_phrase_of(raw: Seq<char>) -> Option<Seq<char>> {
    match first_line(raw) {
        None => None,
        Some(l) => if index_of(l, ' ') < l.len() {
            Some(trim(after_second_space(l)))
        } else {
            None
        },
    }
}

/// The value of parameter `needle` (`;name=`, lower case) in a header
/// value: what follows the first case-insensitive match, up to the next
/// `;`, trimmed.
pub open spec fn param_of(value: Seq<char>, needle: Seq<char>) -> Option<Seq<char>> {
    match find(lower_all(value), needle) {
        None => None,
        Some(pos) => {
            let rest = value.skip(pos + needle.len());
            Some(trim(rest.take(index_of(rest, ';'))))
        },
    }
}

/// The SIP URI of a `Contact` value: the text inside the first `<...>` up
/// to its first `;` (the URI parameters stripped); without angle brackets,
/// the value up to its first `;`, trimmed.
pub open spec fn uri_of_contact(val: Seq<char>) -> Seq<char> {
    let s = index_of(val, '<');
    let rest = val.skip(s);
    let e = index_of(rest, '>');
    if s < val.len() && e < rest.len() {
        let inner = val.subrange(s + 1, s + e);
        inner.take(index_of(inner, ';'))
    } else {
        trim(val.take(index_of(val, ';')))
    }
}

/// Where the body of a message begins: after the first blank line
/// (`\r\n\r\n`, or else `\n\n`).
pub open spec fn body_start(raw: Seq<char>) -> Option<int> {
    match find(raw, seq!['\r', '\n', '\r', '\n']) {
        Some(i) => Some(i + 4),
        None => match find(raw, seq!['\n', '\n']) {
            Some(i) => Some(i + 2),
            None => None,
        },
    }
}

/// The port of the first `m=audio` line of the SDP lines `ls` whose second
/// space-separated field reads as a `u16`.
pub open spec fn media_port_in(ls: Seq<Seq<char>>) -> Option<nat>
    decreases ls.len(),
{
    if ls.len() == 0 {
        None
    } else {
        let p = split_on(ls[0], ' ');
        if starts(ls[0], seq!['m', '=', 'a', 'u', 'd', 'i', 'o']) && p.len() >= 2 && parse_uint(
            p[1],
            65535,
        ) is Some {
            parse_uint(p[1], 65535)
        } else {
            media_port_in(ls.drop_first())
        }
    }
}

/// The view of an optional vector of characters.
pub open spec fn opt_view(o: Option<Vec<char>>) -> Option<Seq<char>> {
    match o {
        Some(v) => Some(v@),
        None => None,
    }
}

/// The view of an optional string.
pub open spec fn opt_str(o: Option<String>) -> Option<Seq<char>> {
    match o {
        Some(s) => Some(s@),
        None => None,
    }
}

pub fn opt_string(o: Option<Vec<char>>) -> (r: Option<String>)
    ensures
        opt_str(r) == opt_view(o),
{
    match o {
        Some(v) => Some(string_of(&v)),
        None => None,
    }
}

/// The value of `line` for the first matching name, as `header_of_line`.
fn header_of_line_exec(line: &Vec<char>, names: &Vec<Vec<char>>) -> (r: Option<Vec<char>>)
    ensures
        opt_view(r) == header_of_line(line@, views(names@)),
{
    let mut k: usize = 0;
    assert(views(names@).skip(0) =~= views(names@));
    while k < names.len()
        invariant
            k <= names@.len(),
            header_of_line(line@, views(names@)) == header_of_line(
                line@,
                views(names@).skip(k as int),
            ),
        decreases names@.len() - k,
    {
        let ghost rest = views(names@).skip(k as int);
        assert(rest.drop_first() =~= views(names@).skip(k + 1));
        if starts_with_ci(line, &names[k]) {
            let v = trim_range(line, names[k].len(), line.len());
            assert(line@.subrange(names@[k as int]@.len() as int, line@.len() as int)
                =~= line@.skip(names@[k as int]@.len() as int));
            return Some(v);
        }
        k += 1;
    }
    None
}

/// The header named by `names` in the header block of `ls`.
pub fn header_in_exec(ls: &Vec<Vec<char>>, names: &Vec<Vec<char>>) -> (r: Option<Vec<char>>)
    ensures
        opt_view(r) == header_in(views(ls@), views(names@)),
{
    let mut i: usize = 0;
    assert(views(ls@).skip(0) =~= views(ls@));
    while i < ls.len()
        invariant
            i <= ls@.len(),
            header_in(views(ls@), views(names@)) == header_in(
                views(ls@).skip(i as int),
                views(names@),
            ),
        decreases ls@.len() - i,
    {
        let ghost rest = views(ls@).skip(i as int);
        assert(rest.drop_first() =~= views(ls@).skip(i + 1));
        if ls[i].len() == 0 {
            return None;
        }
        let v = header_of_line_exec(&ls[i], names);
        if v.is_some() {
            return v;
        }
        i += 1;
    }
    None
}

/// Two header names, each with its colon.
fn names2(a: &str, b: &str) -> (r: Vec<Vec<char>>)
    ensures
        views(r@) == seq![a@, b@],
{
    let mut r: Vec<Vec<char>> = Vec::new();
    r.push(chars_of(a));
    r.push(chars_of(b));
    assert(views(r@) =~= seq![a@, b@]);
    r
}

fn names1(a: &str) -> (r: Vec<Vec<char>>)
    ensures
        views(r@) == seq![a@],
{
    let mut r: Vec<Vec<char>> = Vec::new();
    r.push(chars_of(a));
    assert(views(r@) =~= seq![a@]);
    r
}

/// Header lookup on a raw message.
pub fn header_value_exec(raw: &str, names: &Vec<Vec<char>>) -> (r: Option<Vec<char>>)
    ensures
        opt_view(r) == header_value(raw@, views(names@)),
{
    let v = chars_of(raw);
    let ls = split_lines(&v);
    header_in_exec(&ls, names)
}

/// The value of parameter `needle` in `value`, as `param_of`.
pub fn param_exec(value: &Vec<char>, needle: &Vec<char>) -> (r: Option<Vec<char>>)
    ensures
        opt_view(r) == param_of(value@, needle@),
{
    let low = lower_chars(value);
    let n: usize = low.len();
    match find_chars(&low, needle) {
        None => None,
        Some(pos) => {
            proof {
                lemma_find_from_bounds(low@, needle@, 0);
                assert(low@.len() == value@.len());
                assert(pos + needle@.len() <= value@.len());
            }
            let start = pos + needle.len();
            let end = index_of_from(value, ';', start);
            let ghost rest = value@.skip(start as int);
            assert(rest.take(index_of(rest, ';')) =~= value@.subrange(start as int, end as int));
            Some(trim_range(value, start, end))
        },
    }
}

/// The first line of `raw`, as characters.
fn first_line_exec(raw: &str) -> (r: Option<Vec<char>>)
    ensures
        opt_view(r) == first_line(raw@),
{
    let v = chars_of(raw);
    let mut ls = split_lines(&v);
    if ls.len() == 0 {
        None
    } else {
        let ghost l0 = views(ls@)[0];
        let l = ls.swap_remove(0);
        assert(l@ == l0);
        Some(l)
    }
}

/// The status code in the start line of `raw` (`SIP/2.0 200 OK` gives 200).
pub fn status_code_exec(raw: &str) -> (r: Option<u16>)
    ensures
        r matches Some(c) ==> status_code_of(raw@) == Some(c as nat),
        r is None ==> status_code_of(raw@) is None,
{
    match first_line_exec(raw) {
        None => None,
        Some(l) => {
            let p = split_chars(&l, ' ');
            if p.len() < 2 {
                return None;
            }
            assert(views(p@)[1] == p@[1]@);
            match parse_uint_range(&p[1], 0, p[1].len(), 65535) {
                Some(n) => {
                    assert(p@[1]@.subrange(0, p@[1]@.len() as int) =~= p@[1]@);
                    Some(n as u16)
                },
                None => {
                    assert(p@[1]@.subrange(0, p@[1]@.len() as int) =~= p@[1]@);
                    None
                },
            }
        },
    }
}

/// The port of the first `m=audio` line of `ls` that gives one.
fn media_port_exec(ls: &Vec<Vec<char>>, from: usize) -> (r: Option<u16>)
    requires
        from <= ls@.len(),
    ensures
        r matches Some(c) ==> media_port_in(views(ls@).skip(from as int)) == Some(c as nat),
        r is None ==> media_port_in(views(ls@).skip(from as int)) is None,
{
    let m = chars_of("m=audio");
    proof {
        reveal_strlit("m=audio");
    }
    assert(m@ =~= seq!['m', '=', 'a', 'u', 'd', 'i', 'o']);
    let mut i = from;
    while i < ls.len()
        invariant
            from <= i <= ls@.len(),
            m@ == seq!['m', '=', 'a', 'u', 'd', 'i', 'o'],
            media_port_in(views(ls@).skip(from as int)) == media_port_in(
                views(ls@).skip(i as int),
            ),
        decreases ls@.len() - i,
    {
        let ghost rest = views(ls@).skip(i as int);
        assert(rest.drop_first() =~= views(ls@).skip(i + 1));
        assert(rest[0] == ls@[i as int]@);
        if starts_with(&ls[i], &m) {
            let p = split_chars(&ls[i], ' ');
            if p.len() >= 2 {
                assert(views(p@)[1] == p@[1]@);
                assert(p@[1]@.subrange(0, p@[1]@.len() as int) =~= p@[1]@);
                if let Some(n) = parse_uint_range(&p[1], 0, p[1].len(), 65535) {
                    return Some(n as u16);
                }
            }
        }
        i += 1;
    }
    None
}

/// Start of the body of `v`, as `body_start`.
pub fn body_start_exec(v: &Vec<char>) -> (r: Option<usize>)
    ensures
        r matches Some(i) ==> body_start(v@) == Some(i as int) && i <= v@.len(),
        r is None ==> body_start(v@) is None,
{
    let mut crlf2: Vec<char> = Vec::new();
    crlf2.push('\r');
    crlf2.push('\n');
    crlf2.push('\r');
    crlf2.push('\n');
    assert(crlf2@ =~= seq!['\r', '\n', '\r', '\n']);
    let mut lf2: Vec<char> = Vec::new();
    lf2.push('\n');
    lf2.push('\n');
    assert(lf2@ =~= seq!['\n', '\n']);
    let n: usize = v.len();
    match find_chars(v, &crlf2) {
        Some(i) => {
            proof {
                lemma_find_from_bounds(v@, crlf2@, 0);
                assert(i + 4 <= v@.len());
            }
            Some(i + 4)
        },
        None => match find_chars(v, &lf2) {
            Some(i) => {
                proof {
                    lemma_find_from_bounds(v@, lf2@, 0);
                    assert(i + 2 <= v@.len());
                }
                Some(i + 2)
            },
            None => None,
        },
    }
}

/// The port of the first `m=` line in the body of `raw`.
pub fn sdp_port_exec(raw: &str) -> (r: Option<u16>)
    ensures
        r matches Some(c) ==> (body_start(raw@) matches Some(b) && media_port_in(
            lines(raw@.skip(b)),
        ) == Some(c as nat)),
        r is None ==> (body_start(raw@) matches Some(b) ==> media_port_in(lines(raw@.skip(b)))
            is None),
{
    let v = chars_of(raw);
    match body_start_exec(&v) {
        None => None,
        Some(b) => {
            let body = copy_range(&v, b, v.len());
            assert(body@ =~= v@.skip(b as int));
            let ls = split_lines(&body);
            assert(views(ls@).skip(0) =~= views(ls@));
            media_port_exec(&ls, 0)
        },
    }
}

/// Parser for SIP messages received from the network.
pub struct SipParser;

impl SipParser {
    /// The status code of the start line (`SIP/2.0 200 OK` gives 200).
    pub fn status_code(raw: &str) -> (r: Option<u16>)
        ensures
            r matches Some(c) ==> status_code_of(raw@) == Some(c as nat),
            r is None ==> status_code_of(raw@) is None,
    {
        status_code_exec(raw)
    }

    /// The `Call-ID` header value.
    pub fn call_id(raw: &str) -> (r: Option<String>)
        ensures
            opt_str(r) == header_value(raw@, seq!["call-id:"@, "i:"@]),
    {
        opt_string(header_value_exec(raw, &names2("call-id:", "i:")))
    }

    /// The `tag` parameter of the `To` header.
    pub fn to_tag(raw: &str) -> (r: Option<String>)
        ensures
            opt_str(r) == match header_value(raw@, seq!["to:"@, "t:"@]) {
                Some(v) => param_of(v, ";tag="@),
                None => None,
            },
    {
        match header_value_exec(raw, &names2("to:", "t:")) {
            None => None,
            Some(v) => opt_string(param_exec(&v, &chars_of(";tag="))),
        }
    }

    /// The `tag` parameter of the `From` header.
    pub fn from_tag(raw: &str) -> (r: Option<String>)
        ensures
            opt_str(r) == match header_value(raw@, seq!["from:"@, "f:"@]) {
                Some(v) => param_of(v, ";tag="@),
                None => None,
            },
    {
        match header_value_exec(raw, &names2("from:", "f:")) {
            None => None,
            Some(v) => opt_string(param_exec(&v, &chars_of(";tag="))),
        }
    }

    /// The method of the `CSeq` header (`1 INVITE` gives `INVITE`), upper-cased.
    pub fn cseq_method(raw: &str) -> (r: Option<String>)
        ensures
            opt_str(r) == match header_value(raw@, seq!["cseq:"@]) {
                Some(v) => if words(v).len() > 1 {
                    Some(upper(words(v)[1]))
                } else {
                    None
                },
                None => None,
            },
    {
        match header_value_exec(raw, &names1("cseq:")) {
            None => None,
            Some(v) => {
                let w = split_words(&v);
                if w.len() > 1 {
                    assert(views(w@)[1] == w@[1]@);
                    Some(to_upper(&string_of(&w[1])))
                } else {
                    None
                }
            },
        }
    }

    /// The sequence number of the `CSeq` header.
    pub fn cseq_number(raw: &str) -> (r: Option<u32>)
        ensures
            r matches Some(n) ==> (header_value(raw@, seq!["cseq:"@]) matches Some(v) && words(
                v,
            ).len() > 0 && parse_uint(words(v)[0], 4294967295) == Some(n as nat)),
            r is None ==> (header_value(raw@, seq!["cseq:"@]) matches Some(v) ==> (words(v).len()
                > 0 ==> parse_uint(words(v)[0], 4294967295) is None)),
    {
        match header_value_exec(raw, &names1("cseq:")) {
            None => None,
            Some(v) => {
                let w = split_words(&v);
                if w.len() == 0 {
                    return None;
                }
                assert(views(w@)[0] == w@[0]@);
                assert(w@[0]@.subrange(0, w@[0]@.len() as int) =~= w@[0]@);
                match parse_uint_range(&w[0], 0, w[0].len(), 4294967295) {
                    Some(n) => Some(n as u32),
                    None => None,
                }
            },
        }
    }

    /// The first `Via` header value.
    pub fn via(raw: &str) -> (r: Option<String>)
        ensures
            opt_str(r) == header_value(raw@, seq!["via:"@, "v:"@]),
    {
        opt_string(header_value_exec(raw, &names2("via:", "v:")))
    }

    /// The `Contact` header value.
    pub fn contact(raw: &str) -> (r: Option<String>)
        ensures
            opt_str(r) == header_value(raw@, seq!["contact:"@, "m:"@]),
    {
        opt_string(header_value_exec(raw, &names2("contact:", "m:")))
    }

    /// The SIP URI of the `Contact` header, without angle brackets or parameters.
    pub fn contact_uri(raw: &str) -> (r: Option<String>)
        ensures
            opt_str(r) == match header_value(raw@, seq!["contact:"@, "m:"@]) {
                Some(v) => Some(uri_of_contact(v)),
                None => None,
            },
    {
        match header_value_exec(raw, &names2("contact:", "m:")) {
            None => None,
            Some(val) => {
                let s = index_of_from(&val, '<', 0);
                assert(val@.skip(0) =~= val@);
                if s < val.len() {
                    proof {
                        lemma_index_of(val@.skip(0), '<');
                        lemma_index_of(val@.skip(s as int), '>');
                        assert(val@.skip(s as int)[0] == '<');
                    }
                    let e = index_of_from(&val, '>', s);
                    if e < val.len() {
                        assert(val@.skip(s as int).take(0) =~= Seq::<char>::empty());
                        let k = index_of_from(&val, ';', s + 1);
                        let stop = if k < e {
                            k
                        } else {
                            e
                        };
                        proof {
                            let inner = val@.subrange(s + 1, e as int);
                            lemma_index_of(val@.skip(s + 1), ';');
                            assert forall|j: int| 0 <= j < stop - (s + 1) implies inner[j] != ';' by {
                                assert(inner[j] == val@.skip(s + 1)[j]);
                            }
                            if stop < e {
                                assert(inner[stop - (s + 1)] == val@.skip(s + 1)[k - (s + 1)]);
                            }
                            lemma_index_of_unique(inner, ';', stop - (s + 1));
                            assert(inner.take(stop - (s + 1)) =~= val@.subrange(s + 1, stop as int));
                        }
                        return Some(string_of_range(&val, s + 1, stop));
                    }
                }
                let k = index_of_from(&val, ';', 0);
                assert(val@.take(k as int) =~= val@.subrange(0, k as int));
                Some(string_of(&trim_range(&val, 0, k)))
            },
        }
    }

    /// The port of the first `m=audio` line of the SDP body.
    pub fn sdp_rtp_port(raw: &str) -> (r: Option<u16>)
        ensures
            r matches Some(c) ==> (body_start(raw@) matches Some(b) && media_port_in(
                lines(raw@.skip(b)),
            ) == Some(c as nat)),
            r is None ==> (body_start(raw@) matches Some(b) ==> media_port_in(
                lines(raw@.skip(b)),
            ) is None),
    {
        sdp_port_exec(raw)
    }

    /// The `Content-Length` header value.
    pub fn content_length(raw: &str) -> (r: Option<usize>)
        ensures
            r matches Some(n) ==> (header_value(raw@, seq!["content-length:"@, "l:"@]) matches Some(
                v,
            ) && parse_uint(trim(v), usize::MAX as nat) == Some(n as nat)),
            r is None ==> (header_value(raw@, seq!["content-length:"@, "l:"@]) matches Some(v)
                ==> parse_uint(trim(v), usize::MAX as nat) is None),
    {
        match header_value_exec(raw, &names2("content-length:", "l:")) {
            None => None,
            Some(v) => {
                let t = trim_range(&v, 0, v.len());
                assert(v@.subrange(0, v@.len() as int) =~= v@);
                assert(t@.subrange(0, t@.len() as int) =~= t@);
                match parse_uint_range(&t, 0, t.len(), usize::MAX as u64) {
                    Some(n) => Some(n as usize),
                    None => None,
                }
            },
        }
    }

    /// The reason phrase of the start line (`SIP/2.0 200 OK` gives `OK`).
    pub fn reason_phrase(raw: &str) -> (r: Option<String>)
        ensures
            opt_str(r) == reason_phrase_of(raw@),
    {
        match first_line_exec(raw) {
            None => None,
            Some(l) => {
                let i = index_of_from(&l, ' ', 0);
                assert(l@.skip(0) =~= l@);
                if i == l.len() {
                    return None;
                }
                let j = index_of_from(&l, ' ', i + 1);
                let ghost r = l@.skip(i + 1);
                assert(l@.skip(i + 1).skip(j - (i + 1)) =~= l@.skip(j as int));
                if j < l.len() {
                    assert(r.skip(j - (i + 1) + 1) =~= l@.subrange(j + 1, l@.len() as int));
                    Some(string_of(&trim_range(&l, j + 1, l.len())))
                } else {
                    assert(l@.subrange(0, 0) =~= Seq::<char>::empty());
                    Some(string_of(&trim_range(&l, 0, 0)))
                }
            },
        }
    }
}

} // verus!
