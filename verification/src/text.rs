//! Character-level text helpers shared by the SIP parsers and builders.
use vstd::prelude::*;

verus! {

/// Rust's `char::is_whitespace`: the Unicode `White_Space` property.
pub open spec fn is_ws(c: char) -> bool {
    ||| ('\u{9}' <= c && c <= '\u{d}')
    ||| c == ' '
    ||| c == '\u{85}'
    ||| c == '\u{a0}'
    ||| c == '\u{1680}'
    ||| ('\u{2000}' <= c && c <= '\u{200a}')
    ||| c == '\u{2028}'
    ||| c == '\u{2029}'
    ||| c == '\u{202f}'
    ||| c == '\u{205f}'
    ||| c == '\u{3000}'
}

pub fn char_is_ws(c: char) -> (b: bool)
    ensures
        b == is_ws(c),
{
    ('\u{9}' <= c && c <= '\u{d}') || c == ' ' || c == '\u{85}' || c == '\u{a0}' || c
        == '\u{1680}' || ('\u{2000}' <= c && c <= '\u{200a}') || c == '\u{2028}' || c
        == '\u{2029}' || c == '\u{202f}' || c == '\u{205f}' || c == '\u{3000}'
}

/// The characters of a string slice, in order.
pub fn chars_of(s: &str) -> (v: Vec<char>)
    ensures
        v@ == s@,
{
    let mut v: Vec<char> = Vec::new();
    for c in it: s.chars()
        invariant
            v@ == it.seq().take(it.index() as int),
            it.seq() == s@,
    {
        v.push(c);
    }
    v
}

} // verus!

verus! {

/// Appends one character to a string (`String::push`).
#[verifier::external_body]
pub fn push_char(s: &mut String, c: char)
    ensures
        final(s)@ == old(s)@.push(c),
{
    s.push(c);
}

/// A string holding exactly the characters `v[lo..hi]`.
pub fn string_of_range(v: &Vec<char>, lo: usize, hi: usize) -> (s: String)
    requires
        lo <= hi <= v@.len(),
    ensures
        s@ == v@.subrange(lo as int, hi as int),
{
    let mut s = String::new();
    let mut i = lo;
    while i < hi
        invariant
            lo <= i <= hi <= v@.len(),
            s@ == v@.subrange(lo as int, i as int),
        decreases hi - i,
    {
        push_char(&mut s, v[i]);
        i += 1;
        assert(s@ =~= v@.subrange(lo as int, i as int));
    }
    s
}

/// A string holding exactly the characters of `v`.
pub fn string_of(v: &Vec<char>) -> (s: String)
    ensures
        s@ == v@,
{
    let s = string_of_range(v, 0, v.len());
    assert(v@.subrange(0, v@.len() as int) =~= v@);
    s
}

/// Leading whitespace removed (`str::trim_start`).
pub open spec fn trim_start(s: Seq<char>) -> Seq<char>
    decreases s.len(),
{
    if s.len() > 0 && is_ws(s[0]) {
        trim_start(s.drop_first())
    } else {
        s
    }
}

/// Trailing whitespace removed (`str::trim_end`).
pub open spec fn trim_end(s: Seq<char>) -> Seq<char>
    decreases s.len(),
{
    if s.len() > 0 && is_ws(s.last()) {
        trim_end(s.drop_last())
    } else {
        s
    }
}

/// Whitespace removed from both ends (`str::trim`).
pub open spec fn trim(s: Seq<char>) -> Seq<char> {
    trim_end(trim_start(s))
}

/// The trimmed characters `trim(v[lo..hi])`.
pub fn trim_range(v: &Vec<char>, lo: usize, hi: usize) -> (r: Vec<char>)
    requires
        lo <= hi <= v@.len(),
    ensures
        r@ == trim(v@.subrange(lo as int, hi as int)),
{
    let ghost whole = v@.subrange(lo as int, hi as int);
    let mut a = lo;
    while a < hi && char_is_ws(v[a])
        invariant
            lo <= a <= hi <= v@.len(),
            whole == v@.subrange(lo as int, hi as int),
            trim_start(v@.subrange(a as int, hi as int)) == trim_start(whole),
        decreases hi - a,
    {
        assert(v@.subrange(a as int, hi as int).drop_first() =~= v@.subrange(a + 1, hi as int));
        a += 1;
    }
    assert(trim_start(v@.subrange(a as int, hi as int)) == v@.subrange(a as int, hi as int));
    let mut b = hi;
    while b > a && char_is_ws(v[b - 1])
        invariant
            lo <= a <= b <= hi <= v@.len(),
            trim_end(v@.subrange(a as int, b as int)) == trim(whole),
        decreases b - a,
    {
        assert(v@.subrange(a as int, b as int).drop_last() =~= v@.subrange(a as int, b - 1));
        b -= 1;
    }
    let mut r: Vec<char> = Vec::new();
    let mut i = a;
    while i < b
        invariant
            a <= i <= b <= v@.len(),
            r@ == v@.subrange(a as int, i as int),
        decreases b - i,
    {
        r.push(v[i]);
        i += 1;
        assert(r@ =~= v@.subrange(a as int, i as int));
    }
    r
}

} // verus!

verus! {

/// Index of the first `c` in `s`, or `s.len()` when there is none.
pub open spec fn index_of(s: Seq<char>, c: char) -> int
    decreases s.len(),
{
    if s.len() == 0 {
        0
    } else if s[0] == c {
        0
    } else {
        1 + index_of(s.drop_first(), c)
    }
}

pub proof fn lemma_index_of(s: Seq<char>, c: char)
    ensures
        0 <= index_of(s, c) <= s.len(),
        forall|j: int| 0 <= j < index_of(s, c) ==> s[j] != c,
        index_of(s, c) < s.len() ==> s[index_of(s, c)] == c,
    decreases s.len(),
{
    if s.len() > 0 && s[0] != c {
        lemma_index_of(s.drop_first(), c);
        assert forall|j: int| 0 <= j < index_of(s, c) implies s[j] != c by {
            if j > 0 {
                assert(s[j] == s.drop_first()[j - 1]);
            }
        }
    }
}

/// `index_of` is the only index with its two defining properties.
pub proof fn lemma_index_of_unique(s: Seq<char>, c: char, k: int)
    requires
        0 <= k <= s.len(),
        forall|j: int| 0 <= j < k ==> s[j] != c,
        k < s.len() ==> s[k] == c,
    ensures
        index_of(s, c) == k,
{
    lemma_index_of(s, c);
    let i = index_of(s, c);
    if i < k {
        assert(s[i] != c);
    } else if k < i {
        assert(s[k] != c);
    }
}

/// A line with one trailing carriage return removed.
pub open spec fn strip_cr(l: Seq<char>) -> Seq<char> {
    if l.len() > 0 && l.last() == '\r' {
        l.drop_last()
    } else {
        l
    }
}

/// The lines of `s` as `str::lines` yields them: split at `\n`, a `\r` just
/// before the `\n` dropped, no empty line after a final `\n`.
pub open spec fn lines(s: Seq<char>) -> Seq<Seq<char>>
    decreases s.len(),
{
    if s.len() == 0 {
        seq![]
    } else {
        let i = index_of(s, '\n');
        if i < s.len() {
            proof {
                lemma_index_of(s, '\n');
            }
            seq![strip_cr(s.take(i))] + lines(s.skip(i + 1))
        } else {
            seq![s]
        }
    }
}

/// The character views of a sequence of character vectors.
pub open spec fn views(v: Seq<Vec<char>>) -> Seq<Seq<char>> {
    Seq::new(v.len(), |i: int| v[i]@)
}

/// `v[lo..hi]`, with one trailing `\r` dropped when `strip` holds.
pub fn copy_range(v: &Vec<char>, lo: usize, hi: usize) -> (r: Vec<char>)
    requires
        lo <= hi <= v@.len(),
    ensures
        r@ == v@.subrange(lo as int, hi as int),
{
    let mut r: Vec<char> = Vec::new();
    let mut i = lo;
    while i < hi
        invariant
            lo <= i <= hi <= v@.len(),
            r@ == v@.subrange(lo as int, i as int),
        decreases hi - i,
    {
        r.push(v[i]);
        i += 1;
        assert(r@ =~= v@.subrange(lo as int, i as int));
    }
    r
}

/// The lines of `v`, as `str::lines` splits them.
pub fn split_lines(v: &Vec<char>) -> (r: Vec<Vec<char>>)
    ensures
        views(r@) == lines(v@),
{
    let n = v.len();
    let mut r: Vec<Vec<char>> = Vec::new();
    let mut pos: usize = 0;
    assert(v@.skip(0) =~= v@);
    assert(views(r@) + lines(v@) =~= lines(v@));
    while pos < n
        invariant
            n == v@.len(),
            pos <= n,
            views(r@) + lines(v@.skip(pos as int)) == lines(v@),
        decreases n - pos,
    {
        let ghost t = v@.skip(pos as int);
        let mut j = pos;
        while j < n && v[j] != '\n'
            invariant
                pos <= j <= n == v@.len(),
                forall|k: int| pos <= k < j ==> v@[k] != '\n',
            decreases n - j,
        {
            j += 1;
        }
        proof {
            lemma_index_of_unique(t, '\n', j - pos);
        }
        let ghost old_r = views(r@);
        if j < n {
            let mut line = copy_range(v, pos, j);
            if j > pos && v[j - 1] == '\r' {
                line.pop();
            }
            proof {
                assert(t.take(j - pos) =~= v@.subrange(pos as int, j as int));
                assert(t.skip(j - pos + 1) =~= v@.skip(j + 1));
            }
            r.push(line);
            pos = j + 1;
        } else {
            let line = copy_range(v, pos, n);
            proof {
                assert(t =~= v@.subrange(pos as int, n as int));
                assert(v@.skip(n as int) =~= Seq::<char>::empty());
            }
            r.push(line);
            pos = n;
        }
        assert(views(r@) =~= old_r.push(views(r@).last()));
        assert(views(r@) + lines(v@.skip(pos as int)) =~= old_r + lines(t));
    }
    assert(v@.skip(n as int) =~= Seq::<char>::empty());
    assert(views(r@) + Seq::<Seq<char>>::empty() =~= views(r@));
    r
}

} // verus!

verus! {

/// ASCII lower case of one character; other characters are unchanged.
pub open spec fn lower(c: char) -> char {
    if 'A' <= c && c <= 'Z' {
        ((c as u32) + 32) as char
    } else {
        c
    }
}

pub fn ascii_lower(c: char) -> (r: char)
    ensures
        r == lower(c),
{
    if 'A' <= c && c <= 'Z' {
        let b = (c as u8) + 32;
        b as char
    } else {
        c
    }
}

/// `s` begins with `p`, comparing the characters of `s` in ASCII lower case.
pub open spec fn starts_ci(s: Seq<char>, p: Seq<char>) -> bool {
    &&& p.len() <= s.len()
    &&& forall|i: int| 0 <= i < p.len() ==> lower(s[i]) == p[i]
}

pub fn starts_with_ci(s: &Vec<char>, p: &Vec<char>) -> (b: bool)
    ensures
        b == starts_ci(s@, p@),
{
    if p.len() > s.len() {
        return false;
    }
    let mut i: usize = 0;
    while i < p.len()
        invariant
            p@.len() <= s@.len(),
            i <= p@.len(),
            forall|k: int| 0 <= k < i ==> lower(s@[k]) == p@[k],
        decreases p@.len() - i,
    {
        if ascii_lower(s[i]) != p[i] {
            return false;
        }
        i += 1;
    }
    true
}

/// `s` begins with `p`, exactly.
pub open spec fn starts(s: Seq<char>, p: Seq<char>) -> bool {
    p.len() <= s.len() && s.take(p.len() as int) == p
}

pub fn starts_with(s: &Vec<char>, p: &Vec<char>) -> (b: bool)
    ensures
        b == starts(s@, p@),
{
    if p.len() > s.len() {
        return false;
    }
    let mut i: usize = 0;
    while i < p.len()
        invariant
            p@.len() <= s@.len(),
            i <= p@.len(),
            forall|k: int| 0 <= k < i ==> s@[k] == p@[k],
        decreases p@.len() - i,
    {
        if s[i] != p[i] {
            assert(s@.take(p@.len() as int)[i as int] != p@[i as int]);
            return false;
        }
        i += 1;
    }
    assert(s@.take(p@.len() as int) =~= p@);
    true
}

/// First position at or after `i` where `p` occurs in `s` (`str::find`).
pub open spec fn find_from(s: Seq<char>, p: Seq<char>, i: int) -> Option<int>
    decreases s.len() - i,
{
    if i < 0 || i + p.len() > s.len() {
        None
    } else if s.subrange(i, i + p.len()) == p {
        Some(i)
    } else if i >= s.len() {
        None
    } else {
        find_from(s, p, i + 1)
    }
}

pub open spec fn find(s: Seq<char>, p: Seq<char>) -> Option<int> {
    find_from(s, p, 0)
}

/// Whether `p` occurs in `v` at position `i`.
pub fn occurs_at(v: &Vec<char>, p: &Vec<char>, i: usize) -> (b: bool)
    requires
        i + p@.len() <= v@.len(),
    ensures
        b == (v@.subrange(i as int, i + p@.len()) == p@),
{
    let mut k: usize = 0;
    while k < p.len()
        invariant
            i + p@.len() <= v@.len(),
            i + p@.len() <= v.len(),
            k <= p@.len(),
            forall|m: int| 0 <= m < k ==> v@[i + m] == p@[m],
        decreases p@.len() - k,
    {
        if v[i + k] != p[k] {
            assert(v@.subrange(i as int, i + p@.len())[k as int] != p@[k as int]);
            return false;
        }
        k += 1;
    }
    assert(v@.subrange(i as int, i + p@.len()) =~= p@);
    true
}

/// First position at or after `start` where `p` occurs in `v`.
pub fn find_chars_from(v: &Vec<char>, p: &Vec<char>, start: usize) -> (r: Option<usize>)
    ensures
        r matches Some(i) ==> find_from(v@, p@, start as int) == Some(i as int),
        r is None ==> find_from(v@, p@, start as int) is None,
{
    if p.len() > v.len() || start > v.len() - p.len() {
        return None;
    }
    let last = v.len() - p.len();
    let mut i = start;
    loop
        invariant
            p@.len() <= v@.len(),
            last == v@.len() - p@.len(),
            start <= i <= last,
            find_from(v@, p@, start as int) == find_from(v@, p@, i as int),
        decreases last - i,
    {
        if occurs_at(v, p, i) {
            return Some(i);
        }
        if i == last {
            assert(find_from(v@, p@, i + 1) is None);
            return None;
        }
        i += 1;
    }
}

pub fn find_chars(v: &Vec<char>, p: &Vec<char>) -> (r: Option<usize>)
    ensures
        r matches Some(i) ==> find(v@, p@) == Some(i as int),
        r is None ==> find(v@, p@) is None,
{
    find_chars_from(v, p, 0)
}

} // verus!

verus! {

/// The pieces of `s` between occurrences of `c` (`str::split` on a char).
pub open spec fn split_on(s: Seq<char>, c: char) -> Seq<Seq<char>>
    decreases s.len(),
{
    let i = index_of(s, c);
    if i >= s.len() {
        seq![s]
    } else {
        proof {
            lemma_index_of(s, c);
        }
        seq![s.take(i)] + split_on(s.skip(i + 1), c)
    }
}

/// Position of the first `c` in `v` at or after `from`, or `v.len()`.
pub fn index_of_from(v: &Vec<char>, c: char, from: usize) -> (r: usize)
    requires
        from <= v@.len(),
    ensures
        r == from + index_of(v@.skip(from as int), c),
        from <= r <= v@.len(),
{
    let mut j = from;
    while j < v.len() && v[j] != c
        invariant
            from <= j <= v@.len(),
            forall|k: int| from <= k < j ==> v@[k] != c,
        decreases v@.len() - j,
    {
        j += 1;
    }
    proof {
        lemma_index_of_unique(v@.skip(from as int), c, j - from);
    }
    j
}

/// The pieces of `v` between occurrences of `c`.
pub fn split_chars(v: &Vec<char>, c: char) -> (r: Vec<Vec<char>>)
    ensures
        views(r@) == split_on(v@, c),
{
    let n = v.len();
    let mut r: Vec<Vec<char>> = Vec::new();
    let mut pos: usize = 0;
    assert(v@.skip(0) =~= v@);
    assert(views(r@) + split_on(v@, c) =~= split_on(v@, c));
    loop
        invariant
            n == v@.len(),
            pos <= n,
            views(r@) + split_on(v@.skip(pos as int), c) == split_on(v@, c),
        decreases n - pos,
    {
        let ghost t = v@.skip(pos as int);
        let ghost old_r = views(r@);
        let j = index_of_from(v, c, pos);
        let piece = copy_range(v, pos, j);
        assert(t.take(j - pos) =~= v@.subrange(pos as int, j as int));
        r.push(piece);
        assert(views(r@) =~= old_r.push(v@.subrange(pos as int, j as int)));
        if j == n {
            assert(t =~= v@.subrange(pos as int, n as int));
            assert(views(r@) =~= old_r + split_on(t, c));
            return r;
        }
        assert(t.skip(j - pos + 1) =~= v@.skip(j + 1));
        assert(views(r@) + split_on(v@.skip(j + 1), c) =~= old_r + split_on(t, c));
        pos = j + 1;
    }
}

/// Index of the first whitespace character of `s`, or `s.len()`.
pub open spec fn index_of_ws(s: Seq<char>) -> int
    decreases s.len(),
{
    if s.len() == 0 {
        0
    } else if is_ws(s[0]) {
        0
    } else {
        1 + index_of_ws(s.drop_first())
    }
}

pub proof fn lemma_index_of_ws(s: Seq<char>)
    ensures
        0 <= index_of_ws(s) <= s.len(),
        forall|j: int| 0 <= j < index_of_ws(s) ==> !is_ws(s[j]),
        index_of_ws(s) < s.len() ==> is_ws(s[index_of_ws(s)]),
    decreases s.len(),
{
    if s.len() > 0 && !is_ws(s[0]) {
        lemma_index_of_ws(s.drop_first());
        assert forall|j: int| 0 <= j < index_of_ws(s) implies !is_ws(s[j]) by {
            if j > 0 {
                assert(s[j] == s.drop_first()[j - 1]);
            }
        }
    }
}

pub proof fn lemma_index_of_ws_unique(s: Seq<char>, k: int)
    requires
        0 <= k <= s.len(),
        forall|j: int| 0 <= j < k ==> !is_ws(s[j]),
        k < s.len() ==> is_ws(s[k]),
    ensures
        index_of_ws(s) == k,
{
    lemma_index_of_ws(s);
    let i = index_of_ws(s);
    if i < k {
        assert(!is_ws(s[i]));
    } else if k < i {
        assert(is_ws(s[k]));
    }
}

pub proof fn lemma_trim_start_shape(s: Seq<char>)
    ensures
        trim_start(s).len() <= s.len(),
        trim_start(s).len() > 0 ==> !is_ws(trim_start(s)[0]),
        s.skip(s.len() - trim_start(s).len()) == trim_start(s),
    decreases s.len(),
{
    if s.len() > 0 && is_ws(s[0]) {
        lemma_trim_start_shape(s.drop_first());
        assert(s.drop_first().skip(s.drop_first().len() - trim_start(s.drop_first()).len())
            =~= s.skip(s.len() - trim_start(s).len()));
    } else {
        assert(s.skip(0) =~= s);
    }
}

/// The whitespace-separated words of `s` (`str::split_whitespace`).
pub open spec fn words(s: Seq<char>) -> Seq<Seq<char>>
    decreases s.len(),
{
    let t = trim_start(s);
    if t.len() == 0 {
        seq![]
    } else {
        let k = index_of_ws(t);
        proof {
            lemma_trim_start_shape(s);
            lemma_index_of_ws(t);
        }
        seq![t.take(k)] + words(t.skip(k))
    }
}

/// The whitespace-separated words of `v`.
pub fn split_words(v: &Vec<char>) -> (r: Vec<Vec<char>>)
    ensures
        views(r@) == words(v@),
{
    let n = v.len();
    let mut r: Vec<Vec<char>> = Vec::new();
    let mut pos: usize = 0;
    assert(v@.skip(0) =~= v@);
    assert(views(r@) + words(v@) =~= words(v@));
    loop
        invariant
            n == v@.len(),
            pos <= n,
            views(r@) + words(v@.skip(pos as int)) == words(v@),
        decreases n - pos,
    {
        let ghost s = v@.skip(pos as int);
        let ghost old_r = views(r@);
        let mut a = pos;
        while a < n && char_is_ws(v[a])
            invariant
                pos <= a <= n == v@.len(),
                trim_start(v@.skip(a as int)) == trim_start(s),
            decreases n - a,
        {
            assert(v@.skip(a as int).drop_first() =~= v@.skip(a + 1));
            a += 1;
        }
        let ghost t = v@.skip(a as int);
        assert(trim_start(t) == t);
        if a == n {
            assert(t =~= Seq::<char>::empty());
            assert(views(r@) + words(s) =~= views(r@));
            assert(views(r@) =~= views(r@) + words(v@.skip(n as int)));
            return r;
        }
        let mut b = a;
        while b < n && !char_is_ws(v[b])
            invariant
                a <= b <= n == v@.len(),
                forall|k: int| a <= k < b ==> !is_ws(v@[k]),
            decreases n - b,
        {
            b += 1;
        }
        proof {
            lemma_index_of_ws_unique(t, b - a);
        }
        let w = copy_range(v, a, b);
        assert(t.take(b - a) =~= v@.subrange(a as int, b as int));
        assert(t.skip(b - a) =~= v@.skip(b as int));
        r.push(w);
        assert(views(r@) =~= old_r.push(v@.subrange(a as int, b as int)));
        assert(views(r@) + words(v@.skip(b as int)) =~= old_r + words(s));
        pos = b;
    }
}

/// Every character of `s` in ASCII lower case.
pub open spec fn lower_all(s: Seq<char>) -> Seq<char> {
    Seq::new(s.len(), |i: int| lower(s[i]))
}

pub fn lower_chars(v: &Vec<char>) -> (r: Vec<char>)
    ensures
        r@ == lower_all(v@),
{
    let mut r: Vec<char> = Vec::new();
    let mut i: usize = 0;
    while i < v.len()
        invariant
            i <= v@.len(),
            r@ == lower_all(v@.take(i as int)),
        decreases v@.len() - i,
    {
        r.push(ascii_lower(v[i]));
        i += 1;
        assert(r@ =~= lower_all(v@.take(i as int)));
    }
    assert(v@.take(v@.len() as int) =~= v@);
    r
}

pub fn eq_chars(a: &Vec<char>, b: &Vec<char>) -> (r: bool)
    ensures
        r == (a@ == b@),
{
    if a.len() != b.len() {
        return false;
    }
    let r = starts_with(a, b);
    assert(a@.take(b@.len() as int) =~= a@);
    r
}

} // verus!

verus! {

pub proof fn lemma_find_from_bounds(s: Seq<char>, p: Seq<char>, i: int)
    ensures
        find_from(s, p, i) matches Some(k) ==> i <= k && k + p.len() <= s.len() && k >= 0,
    decreases s.len() - i,
{
    if !(i < 0 || i + p.len() > s.len()) && s.subrange(i, i + p.len()) != p && i < s.len() {
        lemma_find_from_bounds(s, p, i + 1);
    }
}

/// Unicode upper case of a string, as `str::to_uppercase` computes it.
pub uninterp spec fn upper(s: Seq<char>) -> Seq<char>;

/// `str::to_uppercase`: the result is named `upper` of the argument.
#[verifier::external_body]
pub fn to_upper(s: &str) -> (r: String)
    ensures
        r@ == upper(s@),
{
    s.to_uppercase()
}

} // verus!

verus! {

/// Index of the first character of `s` that occurs in `cs`, or `s.len()`.
pub open spec fn index_of_any(s: Seq<char>, cs: Seq<char>) -> int
    decreases s.len(),
{
    if s.len() == 0 {
        0
    } else if cs.contains(s[0]) {
        0
    } else {
        1 + index_of_any(s.drop_first(), cs)
    }
}

pub proof fn lemma_index_of_any(s: Seq<char>, cs: Seq<char>, k: int)
    requires
        0 <= k <= s.len(),
        forall|j: int| 0 <= j < k ==> !cs.contains(s[j]),
        k < s.len() ==> cs.contains(s[k]),
    ensures
        index_of_any(s, cs) == k,
    decreases s.len(),
{
    if s.len() > 0 && k > 0 {
        assert forall|j: int| 0 <= j < k - 1 implies !cs.contains(s.drop_first()[j]) by {
            assert(s.drop_first()[j] == s[j + 1]);
        }
        lemma_index_of_any(s.drop_first(), cs, k - 1);
    }
}

/// Position of the first character of `v` at or after `from` that occurs
/// in `cs`, or `v.len()`.
pub fn index_of_any_from(v: &Vec<char>, cs: &Vec<char>, from: usize) -> (r: usize)
    requires
        from <= v@.len(),
    ensures
        r == from + index_of_any(v@.skip(from as int), cs@),
        from <= r <= v@.len(),
{
    let mut j = from;
    loop
        invariant
            from <= j <= v@.len(),
            forall|k: int| from <= k < j ==> !cs@.contains(v@[k]),
        ensures
            from <= j <= v@.len(),
            forall|k: int| from <= k < j ==> !cs@.contains(v@[k]),
            j < v@.len() ==> cs@.contains(v@[j as int]),
        decreases v@.len() - j,
    {
        if j == v.len() {
            break;
        }
        let mut hit = false;
        let mut m: usize = 0;
        while m < cs.len()
            invariant
                m <= cs@.len(),
                j < v@.len(),
                hit == (exists|q: int| 0 <= q < m && cs@[q] == v@[j as int]),
            decreases cs@.len() - m,
        {
            if cs[m] == v[j] {
                hit = true;
            }
            m += 1;
        }
        if hit {
            assert(cs@.contains(v@[j as int]));
            break;
        }
        j += 1;
    }
    proof {
        let s = v@.skip(from as int);
        assert forall|q: int| 0 <= q < j - from implies !cs@.contains(s[q]) by {
            assert(s[q] == v@[from + q]);
        }
        lemma_index_of_any(s, cs@, j - from);
    }
    j
}

} // verus!
