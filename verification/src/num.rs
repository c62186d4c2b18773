//! Decimal and hexadecimal numbers as text: parsing (`str::parse` for the
//! unsigned types) and formatting (`{}`, `{:0N}`, `{:0Nx}`).
use vstd::prelude::*;

verus! {

pub open spec fn is_digit(c: char) -> bool {
    '0' <= c && c <= '9'
}

pub open spec fn digit_val(c: char) -> nat {
    (c as int - '0' as int) as nat
}

/// The value of a string of decimal digits.
pub open spec fn digits_value(s: Seq<char>) -> nat
    decreases s.len(),
{
    if s.len() == 0 {
        0
    } else {
        digits_value(s.drop_last()) * 10 + digit_val(s.last())
    }
}

pub open spec fn all_digits(s: Seq<char>) -> bool {
    forall|i: int| 0 <= i < s.len() ==> is_digit(#[trigger] s[i])
}

/// `str::parse` for an unsigned integer type whose largest value is `max`:
/// an optional `+`, then at least one decimal digit, nothing else, and a
/// value no larger than `max`.
pub open spec fn parse_uint(s: Seq<char>, max: nat) -> Option<nat> {
    let d = if s.len() > 0 && s[0] == '+' {
        s.drop_first()
    } else {
        s
    };
    if d.len() > 0 && all_digits(d) && digits_value(d) <= max {
        Some(digits_value(d))
    } else {
        None
    }
}

proof fn lemma_digits_value_prefix(s: Seq<char>, k: int)
    requires
        0 <= k <= s.len(),
        all_digits(s),
    ensures
        digits_value(s.take(k)) <= digits_value(s),
    decreases s.len(),
{
    if k < s.len() {
        assert(s.drop_last().take(k) =~= s.take(k));
        lemma_digits_value_prefix(s.drop_last(), k);
    } else {
        assert(s.take(k) =~= s);
    }
}

proof fn lemma_step(acc: nat, d: nat, max: nat)
    requires
        d <= 9,
    ensures
        (acc * 10 + d <= max) <==> (d <= max && acc <= (max - d) / 10),
{
    assert((acc * 10 + d <= max) <==> (d <= max && acc <= (max - d) / 10)) by (nonlinear_arith)
        requires
            d <= 9,
    ;
}

/// `v[lo..hi]` parsed as an unsigned integer no larger than `max`.
pub fn parse_uint_range(v: &Vec<char>, lo: usize, hi: usize, max: u64) -> (r: Option<u64>)
    requires
        lo <= hi <= v@.len(),
    ensures
        r matches Some(n) ==> parse_uint(v@.subrange(lo as int, hi as int), max as nat) == Some(
            n as nat,
        ),
        r is None ==> parse_uint(v@.subrange(lo as int, hi as int), max as nat) is None,
{
    let ghost s = v@.subrange(lo as int, hi as int);
    let mut a = lo;
    if a < hi && v[a] == '+' {
        a += 1;
    }
    let ghost d = v@.subrange(a as int, hi as int);
    assert(d =~= (if s.len() > 0 && s[0] == '+' {
        s.drop_first()
    } else {
        s
    }));
    if a == hi {
        return None;
    }
    let mut acc: u64 = 0;
    let mut i = a;
    while i < hi
        invariant
            lo <= a <= i <= hi <= v@.len(),
            d == v@.subrange(a as int, hi as int),
            s == v@.subrange(lo as int, hi as int),
            d == (if s.len() > 0 && s[0] == '+' {
                s.drop_first()
            } else {
                s
            }),
            d.len() > 0,
            all_digits(v@.subrange(a as int, i as int)),
            acc as nat == digits_value(v@.subrange(a as int, i as int)),
            acc <= max,
        decreases hi - i,
    {
        let c = v[i];
        if !('0' <= c && c <= '9') {
            assert(d[i - a] == c);
            assert(!is_digit(d[i - a]));
            return None;
        }
        let dv = (c as u32 - '0' as u32) as u64;
        assert(v@.subrange(a as int, i + 1).drop_last() =~= v@.subrange(a as int, i as int));
        proof {
            lemma_step(acc as nat, dv as nat, max as nat);
        }
        if dv > max || acc > (max - dv) / 10 {
            proof {
                let t = v@.subrange(a as int, i + 1);
                if all_digits(d) {
                    assert(d.take(i + 1 - a) =~= t);
                    lemma_digits_value_prefix(d, i + 1 - a);
                }
            }
            return None;
        }
        acc = acc * 10 + dv;
        i += 1;
    }
    Some(acc)
}

pub open spec fn digit_char(d: nat) -> char {
    (d + 48) as char
}

/// Decimal digits of `n` (`{}` on an unsigned integer).
pub open spec fn dec(n: nat) -> Seq<char>
    decreases n,
{
    if n < 10 {
        seq![digit_char(n)]
    } else {
        dec(n / 10).push(digit_char(n % 10))
    }
}

proof fn lemma_dec_digits(n: nat)
    ensures
        dec(n).len() > 0,
        all_digits(dec(n)),
        digits_value(dec(n)) == n,
    decreases n,
{
    if n < 10 {
        let t = seq![digit_char(n)];
        assert(t.drop_last() =~= Seq::<char>::empty());
        assert(digits_value(Seq::<char>::empty()) == 0);
        assert(t.last() == digit_char(n));
        assert(digit_val(digit_char(n)) == n);
        assert(digits_value(t) == digits_value(t.drop_last()) * 10 + digit_val(t.last()));
    } else {
        lemma_dec_digits(n / 10);
        let s = dec(n / 10);
        let c = digit_char(n % 10);
        assert(s.push(c).drop_last() =~= s);
        assert(digit_val(c) == n % 10);
        assert(digits_value(s.push(c)) == digits_value(s) * 10 + digit_val(c));
        assert((n / 10) * 10 + n % 10 == n);
        assert(dec(n) == s.push(c));
        assert forall|i: int| 0 <= i < s.push(c).len() implies is_digit(#[trigger] s.push(c)[i]) by {
            if i < s.len() {
                assert(s.push(c)[i] == s[i]);
            }
        }
    }
}

/// What the library writes in decimal reads back as the same number:
/// parsing the digits of `n` (as `str::parse` does) gives `n`.
pub proof fn lemma_parse_dec(n: nat, max: nat)
    requires
        n <= max,
    ensures
        parse_uint(dec(n), max) == Some(n),
{
    lemma_dec_digits(n);
    assert(is_digit(dec(n)[0]));
}

/// `s` left-padded with `0` to at least `w` characters (`{:0w}`).
pub open spec fn zero_pad(s: Seq<char>, w: nat) -> Seq<char> {
    if s.len() >= w {
        s
    } else {
        Seq::new((w - s.len()) as nat, |i: int| '0') + s
    }
}

pub fn digit(d: u64) -> (c: char)
    requires
        d < 10,
    ensures
        c == digit_char(d as nat),
{
    let b = (d as u8) + 48;
    b as char
}

/// Appends the decimal digits of `n`.
pub fn push_dec(s: &mut String, n: u64)
    ensures
        final(s)@ == old(s)@ + dec(n as nat),
    decreases n,
{
    if n >= 10 {
        push_dec(s, n / 10);
    }
    crate::text::push_char(s, digit(n % 10));
}

/// The decimal digits of `n`.
pub fn dec_string(n: u64) -> (s: String)
    ensures
        s@ == dec(n as nat),
{
    let mut s = String::new();
    push_dec(&mut s, n);
    assert(s@ =~= dec(n as nat));
    s
}

/// Appends `n` in decimal, left-padded with `0` to `w` characters.
pub fn push_dec_padded(s: &mut String, n: u64, w: usize)
    ensures
        final(s)@ == old(s)@ + zero_pad(dec(n as nat), w as nat),
{
    let digits = dec_string(n);
    let len = digits.unicode_len();
    let ghost before = s@;
    let mut k: usize = len;
    while k < w
        invariant
            len == dec(n as nat).len(),
            len <= k <= w || (w < len && k == len),
            s@ == before + Seq::new((k - len) as nat, |i: int| '0'),
        decreases w - k,
    {
        crate::text::push_char(s, '0');
        k += 1;
        assert(s@ =~= before + Seq::new((k - len) as nat, |i: int| '0'));
    }
    s.append(digits.as_str());
    proof {
        if len >= w {
            assert(Seq::new(0, |i: int| '0') + dec(n as nat) =~= dec(n as nat));
        }
        assert(s@ =~= before + zero_pad(dec(n as nat), w as nat));
    }
}

/// Lower-case hexadecimal digit.
pub open spec fn hex_char(d: nat) -> char {
    if d < 10 {
        (d + 48) as char
    } else {
        (d + 87) as char
    }
}

/// `n` as exactly `w` lower-case hexadecimal digits (the low `4 * w` bits).
pub open spec fn hex_fixed(n: nat, w: nat) -> Seq<char>
    decreases w,
{
    if w == 0 {
        seq![]
    } else {
        hex_fixed(n / 16, (w - 1) as nat).push(hex_char(n % 16))
    }
}

pub fn hex_digit(d: u64) -> (c: char)
    requires
        d < 16,
    ensures
        c == hex_char(d as nat),
{
    if d < 10 {
        ((d as u8) + 48) as char
    } else {
        ((d as u8) + 87) as char
    }
}

/// Appends the `w` low hexadecimal digits of `n`.
pub fn push_hex_fixed(s: &mut String, n: u64, w: usize)
    ensures
        final(s)@ == old(s)@ + hex_fixed(n as nat, w as nat),
    decreases w,
{
    if w > 0 {
        push_hex_fixed(s, n / 16, w - 1);
        crate::text::push_char(s, hex_digit(n % 16));
    } else {
        assert(old(s)@ + hex_fixed(n as nat, 0) =~= old(s)@);
    }
}

} // verus!
