//! Character and string primitives shared by the tools: Unicode whitespace,
//! trimming, line splitting as `str::lines` does it, and decimal rendering.

use vstd::prelude::*;

verus! {

/// The Unicode `White_Space` property, the set that `char::is_whitespace` tests.
pub open spec fn is_ws(c: char) -> bool {
    let u = c as u32;
    ||| 0x09 <= u <= 0x0d
    ||| u == 0x20
    ||| u == 0x85
    ||| u == 0xa0
    ||| u == 0x1680
    ||| 0x2000 <= u <= 0x200a
    ||| u == 0x2028
    ||| u == 0x2029
    ||| u == 0x202f
    ||| u == 0x205f
    ||| u == 0x3000
}

/// Whether `c` is a Unicode whitespace character.
pub fn is_whitespace(c: char) -> (b: bool)
    ensures
        b == is_ws(c),
{
    let u = c as u32;
    (0x09 <= u && u <= 0x0d) || u == 0x20 || u == 0x85 || u == 0xa0 || u == 0x1680 || (0x2000
        <= u && u <= 0x200a) || u == 0x2028 || u == 0x2029 || u == 0x202f || u == 0x205f || u
        == 0x3000
}

/// Every character of `s` is whitespace.
pub open spec fn all_ws(s: Seq<char>) -> bool {
    forall|i: int| 0 <= i < s.len() ==> is_ws(#[trigger] s[i])
}

/// The non-whitespace characters of `s`, in order.
pub open spec fn strip_ws(s: Seq<char>) -> Seq<char>
    decreases s.len(),
{
    if s.len() == 0 {
        s
    } else if is_ws(s.last()) {
        strip_ws(s.drop_last())
    } else {
        strip_ws(s.drop_last()).push(s.last())
    }
}

/// `s` with its trailing whitespace removed (`str::trim_end`).
pub open spec fn trim_end(s: Seq<char>) -> Seq<char>
    decreases s.len(),
{
    if s.len() > 0 && is_ws(s.last()) {
        trim_end(s.drop_last())
    } else {
        s
    }
}

/// `s` with its leading whitespace removed (`str::trim_start`).
pub open spec fn trim_start(s: Seq<char>) -> Seq<char>
    decreases s.len(),
{
    if s.len() > 0 && is_ws(s[0]) {
        trim_start(s.drop_first())
    } else {
        s
    }
}

/// `s` with whitespace removed from both ends (`str::trim`).
pub open spec fn trim(s: Seq<char>) -> Seq<char> {
    trim_start(trim_end(s))
}

/// Index of the first `'\n'` at or after `i`, or the length when there is none.
pub open spec fn line_end(s: Seq<char>, i: int) -> int
    decreases s.len() - i,
{
    if i >= s.len() || s[i] == '\n' {
        i
    } else {
        line_end(s, i + 1)
    }
}

/// A line that was ended by `'\n'` loses one trailing `'\r'`.
pub open spec fn strip_cr(s: Seq<char>) -> Seq<char> {
    if s.len() > 0 && s.last() == '\r' {
        s.drop_last()
    } else {
        s
    }
}

/// The lines of `s` from position `start` on, as `str::lines` yields them: split at
/// `'\n'`, a `"\r\n"` ending counts as one line ending, and a final line ending
/// does not start an empty line.
pub open spec fn lines_from(s: Seq<char>, start: int) -> Seq<Seq<char>>
    decreases s.len() + 1 - start,
    via lines_from_decreases
{
    if start < 0 || start >= s.len() {
        Seq::empty()
    } else {
        let e = line_end(s, start);
        let raw = s.subrange(start, e);
        let line = if e < s.len() {
            strip_cr(raw)
        } else {
            raw
        };
        seq![line] + lines_from(s, e + 1)
    }
}

#[via_fn]
proof fn lines_from_decreases(s: Seq<char>, start: int) {
    if 0 <= start < s.len() {
        lemma_line_end_bounds(s, start);
    }
}

/// The lines of `s` (`str::lines`).
pub open spec fn lines(s: Seq<char>) -> Seq<Seq<char>> {
    lines_from(s, 0)
}

pub proof fn lemma_line_end_bounds(s: Seq<char>, i: int)
    requires
        0 <= i <= s.len(),
    ensures
        i <= line_end(s, i) <= s.len(),
        line_end(s, i) < s.len() ==> s[line_end(s, i)] == '\n',
        forall|k: int| i <= k < line_end(s, i) ==> s[k] != '\n',
    decreases s.len() - i,
{
    if i < s.len() && s[i] != '\n' {
        lemma_line_end_bounds(s, i + 1);
    }
}

/// The views of a sequence of character vectors.
pub open spec fn views(v: Seq<Vec<char>>) -> Seq<Seq<char>> {
    Seq::new(v.len(), |i: int| v[i]@)
}

/// The characters of `s`.
pub fn to_chars(s: &str) -> (v: Vec<char>)
    ensures
        v@ == s@,
{
    let mut v: Vec<char> = Vec::new();
    for c in it: s.chars()
        invariant
            v@ == it.seq().take(it.index() as int),
            it.seq() == s@,
    {
        v.push(c);
    }
    v
}

/// Appends `c` to `s` by calling `String::push`; the contract claims that
/// the character is added at the end and nothing else changes.
#[verifier::external_body]
pub(crate) fn push_char(s: &mut String, c: char)
    ensures
        final(s)@ == old(s)@.push(c),
{
    s.push(c);
}

/// Appends the characters `v[lo..hi]` to `out`.
pub fn push_range(out: &mut String, v: &Vec<char>, lo: usize, hi: usize)
    requires
        lo <= hi <= v.len(),
    ensures
        final(out)@ == old(out)@ + v@.subrange(lo as int, hi as int),
{
    let mut i = lo;
    while i < hi
        invariant
            lo <= i <= hi <= v.len(),
            out@ == old(out)@ + v@.subrange(lo as int, i as int),
        decreases hi - i,
    {
        push_char(out, v[i]);
        assert(v@.subrange(lo as int, i + 1) == v@.subrange(lo as int, i as int).push(v@[i as int]));
        i += 1;
    }
}

/// Appends all characters of `v` to `out`.
pub fn push_chars(out: &mut String, v: &Vec<char>)
    ensures
        final(out)@ == old(out)@ + v@,
{
    push_range(out, v, 0, v.len());
    assert(v@.subrange(0, v@.len() as int) == v@);
}

/// The characters `v[lo..hi]` as a new vector.
pub fn copy_range(v: &Vec<char>, lo: usize, hi: usize) -> (r: Vec<char>)
    requires
        lo <= hi <= v.len(),
    ensures
        r@ == v@.subrange(lo as int, hi as int),
{
    let mut r: Vec<char> = Vec::new();
    let mut i = lo;
    while i < hi
        invariant
            lo <= i <= hi <= v.len(),
            r@ == v@.subrange(lo as int, i as int),
        decreases hi - i,
    {
        r.push(v[i]);
        assert(v@.subrange(lo as int, i + 1) == v@.subrange(lo as int, i as int).push(v@[i as int]));
        i += 1;
    }
    r
}

pub proof fn lemma_trim_end_take(s: Seq<char>, e: int)
    requires
        0 < e <= s.len(),
        is_ws(s[e - 1]),
    ensures
        trim_end(s.take(e)) == trim_end(s.take(e - 1)),
{
    assert(s.take(e).drop_last() == s.take(e - 1));
}

pub proof fn lemma_trim_start_skip(s: Seq<char>, b: int)
    requires
        0 <= b < s.len(),
        is_ws(s[b]),
    ensures
        trim_start(s.skip(b)) == trim_start(s.skip(b + 1)),
{
    assert(s.skip(b).drop_first() == s.skip(b + 1));
}

pub proof fn lemma_trim_end_len(s: Seq<char>)
    ensures
        trim_end(s).len() <= s.len(),
    decreases s.len(),
{
    if s.len() > 0 && is_ws(s.last()) {
        lemma_trim_end_len(s.drop_last());
    }
}

pub proof fn lemma_trim_start_len(s: Seq<char>)
    ensures
        trim_start(s).len() <= s.len(),
    decreases s.len(),
{
    if s.len() > 0 && is_ws(s[0]) {
        lemma_trim_start_len(s.drop_first());
    }
}

pub proof fn lemma_trim_len(s: Seq<char>)
    ensures
        trim(s).len() <= s.len(),
        trim_end(s).len() <= s.len(),
{
    lemma_trim_end_len(s);
    lemma_trim_start_len(trim_end(s));
}

pub proof fn lemma_strip_ws_add(a: Seq<char>, b: Seq<char>)
    ensures
        strip_ws(a + b) == strip_ws(a) + strip_ws(b),
    decreases b.len(),
{
    if b.len() == 0 {
        assert(a + b == a);
        assert(strip_ws(a) + strip_ws(b) == strip_ws(a));
    } else {
        lemma_strip_ws_add(a, b.drop_last());
        assert((a + b).drop_last() == a + b.drop_last());
        assert((a + b).last() == b.last());
        if !is_ws(b.last()) {
            assert(strip_ws(a) + strip_ws(b.drop_last()).push(b.last()) == (strip_ws(a)
                + strip_ws(b.drop_last())).push(b.last()));
        }
    }
}

pub proof fn lemma_strip_ws_all_ws(s: Seq<char>)
    requires
        all_ws(s),
    ensures
        strip_ws(s) == Seq::<char>::empty(),
    decreases s.len(),
{
    if s.len() > 0 {
        assert(all_ws(s.drop_last()));
        lemma_strip_ws_all_ws(s.drop_last());
    }
}

pub proof fn lemma_strip_ws_trim_end(s: Seq<char>)
    ensures
        strip_ws(trim_end(s)) == strip_ws(s),
    decreases s.len(),
{
    if s.len() > 0 && is_ws(s.last()) {
        lemma_strip_ws_trim_end(s.drop_last());
    }
}

pub proof fn lemma_strip_ws_trim_start(s: Seq<char>)
    ensures
        strip_ws(trim_start(s)) == strip_ws(s),
    decreases s.len(),
{
    if s.len() > 0 && is_ws(s[0]) {
        lemma_strip_ws_trim_start(s.drop_first());
        assert(s == seq![s[0]] + s.drop_first());
        lemma_strip_ws_add(seq![s[0]], s.drop_first());
        assert(seq![s[0]].drop_last() == Seq::<char>::empty());
        assert(seq![s[0]].last() == s[0]);
        reveal_with_fuel(strip_ws, 2);
        assert(strip_ws(seq![s[0]]) == Seq::<char>::empty());
    }
}

pub proof fn lemma_strip_ws_trim(s: Seq<char>)
    ensures
        strip_ws(trim(s)) == strip_ws(s),
        strip_ws(trim_end(s)) == strip_ws(s),
{
    lemma_strip_ws_trim_end(s);
    lemma_strip_ws_trim_start(trim_end(s));
}

/// `s` holds no line feed.
pub open spec fn no_nl(s: Seq<char>) -> bool {
    forall|i: int| 0 <= i < s.len() ==> #[trigger] s[i] != '\n'
}

pub proof fn lemma_trim_end_split(s: Seq<char>)
    ensures
        trim_end(s).len() <= s.len(),
        trim_end(s) == s.take(trim_end(s).len() as int),
        all_ws(s.skip(trim_end(s).len() as int)),
        trim_end(s).len() > 0 ==> !is_ws(trim_end(s).last()),
    decreases s.len(),
{
    if s.len() > 0 && is_ws(s.last()) {
        lemma_trim_end_split(s.drop_last());
        let k = trim_end(s).len() as int;
        assert(s.drop_last().take(k) == s.take(k));
        let w1 = s.drop_last().skip(k);
        assert(s.skip(k) == w1.push(s.last()));
    } else {
        assert(s.take(s.len() as int) == s);
    }
}

pub proof fn lemma_trim_start_split(s: Seq<char>)
    ensures
        trim_start(s).len() <= s.len(),
        trim_start(s) == s.skip(s.len() - trim_start(s).len()),
        all_ws(s.take(s.len() - trim_start(s).len())),
        trim_start(s).len() > 0 ==> !is_ws(trim_start(s)[0]),
    decreases s.len(),
{
    if s.len() > 0 && is_ws(s[0]) {
        lemma_trim_start_split(s.drop_first());
        let k = s.len() - trim_start(s).len();
        assert(s.drop_first().skip(k - 1) == s.skip(k));
        let w1 = s.drop_first().take(k - 1);
        assert(s.take(k) == seq![s[0]] + w1);
    } else {
        assert(s.skip(0) == s);
    }
}

pub proof fn lemma_trim_end_idem(s: Seq<char>)
    ensures
        trim_end(trim_end(s)) == trim_end(s),
{
    lemma_trim_end_split(s);
}

/// Facts about a trimmed line: it is a piece of the line, and when it is not
/// empty it starts and ends with a non-whitespace character.
pub proof fn lemma_trim_facts(s: Seq<char>)
    ensures
        trim(s).len() > 0 ==> !is_ws(trim(s)[0]) && !is_ws(trim(s).last()),
        no_nl(s) ==> no_nl(trim(s)) && no_nl(trim_end(s)),
{
    lemma_trim_end_split(s);
    let te = trim_end(s);
    lemma_trim_start_split(te);
    let t = trim(s);
    if t.len() > 0 {
        assert(t.last() == te.last());
    }
    if no_nl(s) {
        assert forall|i: int| 0 <= i < te.len() implies #[trigger] te[i] != '\n' by {
            assert(te[i] == s[i]);
        }
        assert forall|i: int| 0 <= i < t.len() implies #[trigger] t[i] != '\n' by {
            assert(t[i] == te[i + te.len() - t.len()]);
        }
    }
}

/// Whitespace before a trimmed, non-empty text goes away under `trim`.
pub proof fn lemma_trim_ws_prefix(w: Seq<char>, t: Seq<char>)
    requires
        all_ws(w),
        t.len() > 0,
        !is_ws(t[0]),
        !is_ws(t.last()),
    ensures
        trim(w + t) == t,
    decreases w.len(),
{
    assert((w + t).last() == t.last());
    assert(trim_end(w + t) == w + t);
    if w.len() == 0 {
        assert(w + t == t);
    } else {
        assert((w + t)[0] == w[0]);
        assert((w + t).drop_first() == w.drop_first() + t);
        assert(all_ws(w.drop_first()));
        lemma_trim_ws_prefix(w.drop_first(), t);
        assert((w.drop_first() + t).last() == t.last());
        assert(trim_end(w.drop_first() + t) == w.drop_first() + t);
    }
}

/// `v` without trailing whitespace.
pub fn trim_end_vec(v: &Vec<char>) -> (r: Vec<char>)
    ensures
        r@ == trim_end(v@),
{
    let mut e = v.len();
    assert(v@.take(e as int) == v@);
    while e > 0 && is_whitespace(v[e - 1])
        invariant
            e <= v.len(),
            trim_end(v@) == trim_end(v@.take(e as int)),
        decreases e,
    {
        proof {
            lemma_trim_end_take(v@, e as int);
        }
        e -= 1;
    }
    let r = copy_range(v, 0, e);
    assert(r@ == v@.take(e as int));
    r
}

/// `v` without leading and trailing whitespace.
pub fn trim_vec(v: &Vec<char>) -> (r: Vec<char>)
    ensures
        r@ == trim(v@),
{
    let t = trim_end_vec(v);
    let mut b: usize = 0;
    assert(t@.skip(0) == t@);
    while b < t.len() && is_whitespace(t[b])
        invariant
            b <= t.len(),
            trim_start(t@) == trim_start(t@.skip(b as int)),
        decreases t.len() - b,
    {
        proof {
            lemma_trim_start_skip(t@, b as int);
        }
        b += 1;
    }
    let r = copy_range(&t, b, t.len());
    assert(r@ == t@.skip(b as int));
    r
}

/// The lines of `s`, as `str::lines` splits them.
pub fn split_lines(s: &Vec<char>) -> (res: Vec<Vec<char>>)
    ensures
        views(res@) == lines(s@),
{
    let mut res: Vec<Vec<char>> = Vec::new();
    let mut start: usize = 0;
    let n = s.len();
    while start < n
        invariant
            n == s@.len(),
            start <= n,
            lines(s@) == views(res@) + lines_from(s@, start as int),
        decreases n - start,
    {
        let mut e = start;
        while e < n && s[e] != '\n'
            invariant
                start <= e <= n,
                n == s@.len(),
                line_end(s@, start as int) == line_end(s@, e as int),
            decreases n - e,
        {
            e += 1;
        }
        let line = if e < n && e > start && s[e - 1] == '\r' {
            copy_range(s, start, e - 1)
        } else {
            copy_range(s, start, e)
        };
        proof {
            let raw = s@.subrange(start as int, e as int);
            if e < n && e > start && s[e - 1] == '\r' {
                assert(raw.drop_last() == s@.subrange(start as int, e - 1));
            }
            assert(lines_from(s@, start as int) == seq![line@] + lines_from(s@, e + 1));
            assert(views(res@.push(line)) == views(res@) + seq![line@]);
        }
        res.push(line);
        if e < n {
            start = e + 1;
        } else {
            start = n;
        }
    }
    proof {
        assert(lines_from(s@, start as int) == Seq::<Seq<char>>::empty());
        assert(views(res@) + Seq::<Seq<char>>::empty() == views(res@));
    }
    res
}

/// `s` starts with `p`.
pub open spec fn starts_with(s: Seq<char>, p: Seq<char>) -> bool {
    p.len() <= s.len() && s.take(p.len() as int) == p
}

/// Whether `s` starts with `p`.
pub fn chars_start_with(s: &Vec<char>, p: &Vec<char>) -> (b: bool)
    ensures
        b == starts_with(s@, p@),
{
    if p.len() > s.len() {
        return false;
    }
    let mut i: usize = 0;
    while i < p.len()
        invariant
            p.len() <= s.len(),
            i <= p.len(),
            forall|k: int| 0 <= k < i ==> s@[k] == p@[k],
        decreases p.len() - i,
    {
        if s[i] != p[i] {
            assert(s@.take(p.len() as int)[i as int] != p@[i as int]);
            return false;
        }
        i += 1;
    }
    assert(s@.take(p.len() as int) == p@);
    true
}

/// Whether `a` and `b` hold the same characters.
pub fn chars_eq(a: &Vec<char>, b: &Vec<char>) -> (r: bool)
    ensures
        r == (a@ == b@),
{
    if a.len() != b.len() {
        return false;
    }
    let mut i: usize = 0;
    while i < a.len()
        invariant
            a.len() == b.len(),
            i <= a.len(),
            forall|k: int| 0 <= k < i ==> a@[k] == b@[k],
        decreases a.len() - i,
    {
        if a[i] != b[i] {
            return false;
        }
        i += 1;
    }
    assert(a@ == b@);
    true
}

/// Whether `v` holds a vector with the same characters as `x`.
pub fn contains_chars(v: &Vec<Vec<char>>, x: &Vec<char>) -> (r: bool)
    ensures
        r == views(v@).contains(x@),
{
    let mut i: usize = 0;
    while i < v.len()
        invariant
            i <= v.len(),
            forall|k: int| 0 <= k < i ==> v@[k]@ != x@,
        decreases v.len() - i,
    {
        if chars_eq(&v[i], x) {
            assert(views(v@)[i as int] == x@);
            return true;
        }
        i += 1;
    }
    proof {
        if views(v@).contains(x@) {
            let k = choose|k: int| 0 <= k < views(v@).len() && views(v@)[k] == x@;
            assert(v@[k]@ == x@);
        }
    }
    false
}

/// `a` comes strictly before `b` in lexicographic order of code points (the
/// order of `str` comparison, as UTF-8 keeps code point order).
pub open spec fn seq_lt(a: Seq<char>, b: Seq<char>) -> bool
    decreases a.len(),
{
    if a.len() == 0 {
        b.len() > 0
    } else if b.len() == 0 {
        false
    } else if (a[0] as u32) < (b[0] as u32) {
        true
    } else if a[0] == b[0] {
        seq_lt(a.drop_first(), b.drop_first())
    } else {
        false
    }
}

pub open spec fn seq_le(a: Seq<char>, b: Seq<char>) -> bool {
    seq_lt(a, b) || a == b
}

pub proof fn lemma_seq_lt_total(a: Seq<char>, b: Seq<char>)
    ensures
        seq_lt(a, b) || seq_lt(b, a) || a == b,
        !(seq_lt(a, b) && seq_lt(b, a)),
        !seq_lt(a, a),
    decreases a.len(),
{
    if a.len() > 0 && b.len() > 0 {
        vstd::utf8::char_u32_cast(a[0], a[0] as u32);
        vstd::utf8::char_u32_cast(b[0], b[0] as u32);
        lemma_seq_lt_total(a.drop_first(), b.drop_first());
        if a[0] == b[0] && a.drop_first() == b.drop_first() {
            assert(a == seq![a[0]] + a.drop_first());
            assert(b == seq![b[0]] + b.drop_first());
        }
        lemma_seq_lt_total(a.drop_first(), a.drop_first());
    } else if a.len() == 0 && b.len() == 0 {
        assert(a == b);
    } else if a.len() > 0 {
        lemma_seq_lt_total(a.drop_first(), a.drop_first());
    }
}

pub proof fn lemma_seq_lt_trans(a: Seq<char>, b: Seq<char>, c: Seq<char>)
    requires
        seq_lt(a, b),
        seq_lt(b, c),
    ensures
        seq_lt(a, c),
    decreases a.len(),
{
    if a.len() > 0 && b.len() > 0 && c.len() > 0 {
        if a[0] == b[0] && b[0] == c[0] {
            lemma_seq_lt_trans(a.drop_first(), b.drop_first(), c.drop_first());
        }
    }
}

/// Whether `a` comes strictly before `b`.
pub fn chars_lt(a: &Vec<char>, b: &Vec<char>) -> (r: bool)
    ensures
        r == seq_lt(a@, b@),
{
    let mut i: usize = 0;
    assert(a@.skip(0) == a@);
    assert(b@.skip(0) == b@);
    while i < a.len() && i < b.len() && a[i] == b[i]
        invariant
            i <= a.len(),
            i <= b.len(),
            seq_lt(a@, b@) == seq_lt(a@.skip(i as int), b@.skip(i as int)),
        decreases a.len() - i,
    {
        assert(a@.skip(i as int).drop_first() == a@.skip(i + 1));
        assert(b@.skip(i as int).drop_first() == b@.skip(i + 1));
        i += 1;
    }
    if i == a.len() {
        i < b.len()
    } else if i == b.len() {
        false
    } else {
        (a[i] as u32) < (b[i] as u32)
    }
}

/// `p` occurs in `s` at position `i`.
pub open spec fn occurs_at(s: Seq<char>, p: Seq<char>, i: int) -> bool {
    0 <= i && i + p.len() <= s.len() && s.subrange(i, i + p.len()) == p
}

/// `p` occurs somewhere in `s` (`str::contains`).
pub open spec fn contains_seq(s: Seq<char>, p: Seq<char>) -> bool {
    exists|i: int| occurs_at(s, p, i)
}

/// Whether `p` occurs in `s`.
pub fn chars_contain(s: &Vec<char>, p: &Vec<char>) -> (b: bool)
    ensures
        b == contains_seq(s@, p@),
{
    if p.len() > s.len() {
        assert forall|i: int| !occurs_at(s@, p@, i) by {}
        return false;
    }
    let mut i: usize = 0;
    while i <= s.len() - p.len()
        invariant
            p.len() <= s.len(),
            i <= s.len() - p.len() + 1,
            forall|k: int| 0 <= k < i ==> !occurs_at(s@, p@, k),
        decreases s.len() - p.len() + 1 - i,
    {
        let mut j: usize = 0;
        while j < p.len() && s[i + j] == p[j]
            invariant
                i + p.len() <= s.len(),
                j <= p.len(),
                forall|k: int| 0 <= k < j ==> s@[i + k] == p@[k],
            decreases p.len() - j,
        {
            j += 1;
        }
        if j == p.len() {
            assert(s@.subrange(i as int, i + p.len()) == p@);
            assert(occurs_at(s@, p@, i as int));
            return true;
        }
        assert(s@.subrange(i as int, i + p.len())[j as int] != p@[j as int]);
        i += 1;
    }
    assert forall|k: int| !occurs_at(s@, p@, k) by {
        if 0 <= k && k + p.len() <= s.len() {
            assert(k < i);
        }
    }
    false
}

/// Position of the first non-whitespace character at or after `i`.
pub open spec fn skip_ws(s: Seq<char>, i: int) -> int
    decreases s.len() - i,
{
    if i < 0 || i >= s.len() || !is_ws(s[i]) {
        i
    } else {
        skip_ws(s, i + 1)
    }
}

/// Position of the first whitespace character at or after `i`.
pub open spec fn word_end(s: Seq<char>, i: int) -> int
    decreases s.len() - i,
{
    if i < 0 || i >= s.len() || is_ws(s[i]) {
        i
    } else {
        word_end(s, i + 1)
    }
}

pub proof fn lemma_skip_ws(s: Seq<char>, i: int)
    requires
        0 <= i <= s.len(),
    ensures
        i <= skip_ws(s, i) <= s.len(),
        skip_ws(s, i) < s.len() ==> !is_ws(s[skip_ws(s, i)]),
    decreases s.len() - i,
{
    if i < s.len() && is_ws(s[i]) {
        lemma_skip_ws(s, i + 1);
    }
}

pub proof fn lemma_word_end(s: Seq<char>, i: int)
    requires
        0 <= i <= s.len(),
    ensures
        i <= word_end(s, i) <= s.len(),
    decreases s.len() - i,
{
    if i < s.len() && !is_ws(s[i]) {
        lemma_word_end(s, i + 1);
    }
}

#[via_fn]
proof fn words_from_decreases(s: Seq<char>, i: int) {
    if 0 <= i <= s.len() {
        lemma_skip_ws(s, i);
        let j = skip_ws(s, i);
        if j < s.len() {
            lemma_word_end(s, j + 1);
            assert(word_end(s, j) == word_end(s, j + 1));
        }
    }
}

/// The whitespace-separated words of `s` from position `i` on (`str::split_whitespace`).
pub open spec fn words_from(s: Seq<char>, i: int) -> Seq<Seq<char>>
    decreases s.len() - i,
    via words_from_decreases
{
    if i < 0 || i > s.len() {
        Seq::empty()
    } else {
        let j = skip_ws(s, i);
        if j >= s.len() {
            Seq::empty()
        } else {
            let k = word_end(s, j);
            seq![s.subrange(j, k)] + words_from(s, k)
        }
    }
}

/// The whitespace-separated words of `s`.
pub open spec fn words(s: Seq<char>) -> Seq<Seq<char>> {
    words_from(s, 0)
}

/// The words of `s`.
pub fn split_words(s: &Vec<char>) -> (r: Vec<Vec<char>>)
    ensures
        views(r@) == words(s@),
{
    let mut r: Vec<Vec<char>> = Vec::new();
    let mut i: usize = 0;
    let n = s.len();
    while i < n
        invariant
            n == s@.len(),
            i <= n,
            words(s@) == views(r@) + words_from(s@, i as int),
        decreases n - i,
    {
        let mut j = i;
        while j < n && is_whitespace(s[j])
            invariant
                i <= j <= n,
                n == s@.len(),
                skip_ws(s@, i as int) == skip_ws(s@, j as int),
            decreases n - j,
        {
            j += 1;
        }
        if j >= n {
            i = n;
            assert(words_from(s@, j as int) == Seq::<Seq<char>>::empty());
        } else {
            let mut k = j;
            while k < n && !is_whitespace(s[k])
                invariant
                    j <= k <= n,
                    n == s@.len(),
                    word_end(s@, j as int) == word_end(s@, k as int),
                decreases n - k,
            {
                k += 1;
            }
            let w = copy_range(s, j, k);
            proof {
                assert(words_from(s@, i as int) == seq![w@] + words_from(s@, k as int));
                assert(views(r@.push(w)) == views(r@) + seq![w@]);
            }
            r.push(w);
            i = k;
        }
    }
    proof {
        assert(words_from(s@, n as int) == Seq::<Seq<char>>::empty());
        assert(views(r@) + Seq::<Seq<char>>::empty() == views(r@));
    }
    r
}

/// `ws` joined with `sep` between consecutive pieces (`join`).
pub open spec fn join_with(ws: Seq<Seq<char>>, sep: Seq<char>) -> Seq<char>
    decreases ws.len(),
{
    if ws.len() == 0 {
        Seq::empty()
    } else if ws.len() == 1 {
        ws[0]
    } else {
        join_with(ws.drop_last(), sep) + sep + ws.last()
    }
}

/// Appends `ws` joined with the character `sep`.
pub fn push_joined(out: &mut String, ws: &Vec<Vec<char>>, n: usize, sep: char)
    requires
        n <= ws.len(),
    ensures
        final(out)@ == old(out)@ + join_with(views(ws@).take(n as int), seq![sep]),
{
    let ghost start = out@;
    let mut i: usize = 0;
    while i < n
        invariant
            i <= n <= ws.len(),
            out@ == start + join_with(views(ws@).take(i as int), seq![sep]),
        decreases n - i,
    {
        if i > 0 {
            push_char(out, sep);
        }
        push_chars(out, &ws[i]);
        proof {
            let t = views(ws@).take(i + 1);
            assert(t.drop_last() == views(ws@).take(i as int));
            assert(t.last() == ws@[i as int]@);
            if i == 0 {
                assert(t.len() == 1);
                assert(t[0] == ws@[0]@);
                assert(views(ws@).take(0) == Seq::<Seq<char>>::empty());
            }
        }
        i += 1;
    }
}

/// `s` without its trailing `c`s (`str::trim_end_matches` with a character).
pub open spec fn trim_end_char(s: Seq<char>, c: char) -> Seq<char>
    decreases s.len(),
{
    if s.len() > 0 && s.last() == c {
        trim_end_char(s.drop_last(), c)
    } else {
        s
    }
}

/// `v` without its trailing `c`s.
pub fn trim_end_char_vec(v: &Vec<char>, c: char) -> (r: Vec<char>)
    ensures
        r@ == trim_end_char(v@, c),
{
    let mut e = v.len();
    assert(v@.take(e as int) == v@);
    while e > 0 && v[e - 1] == c
        invariant
            e <= v.len(),
            trim_end_char(v@, c) == trim_end_char(v@.take(e as int), c),
        decreases e,
    {
        assert(v@.take(e as int).drop_last() == v@.take(e - 1));
        e -= 1;
    }
    let r = copy_range(v, 0, e);
    assert(r@ == v@.take(e as int));
    r
}

pub open spec fn is_digit(c: char) -> bool {
    '0' <= c && c <= '9'
}

pub open spec fn digit_value(c: char) -> nat {
    (c as u32 - '0' as u32) as nat
}

/// The number that the decimal digits `s` spell.
pub open spec fn digits_value(s: Seq<char>) -> nat
    decreases s.len(),
{
    if s.len() == 0 {
        0
    } else {
        digits_value(s.drop_last()) * 10 + digit_value(s.last())
    }
}

/// `s` without a leading `+`.
pub open spec fn unsigned_digits(s: Seq<char>) -> Seq<char> {
    if s.len() > 0 && s[0] == '+' {
        s.drop_first()
    } else {
        s
    }
}

pub open spec fn all_digits(d: Seq<char>) -> bool {
    forall|i: int| 0 <= i < d.len() ==> is_digit(#[trigger] d[i])
}

/// What `s.parse::<u64>().unwrap_or(0)` gives: the value of an optional `+`
/// followed by one or more ASCII digits when it fits in a `u64`, else 0.
pub open spec fn parse_u64_or_zero(s: Seq<char>) -> u64 {
    let d = unsigned_digits(s);
    if d.len() > 0 && all_digits(d) && digits_value(d) <= u64::MAX {
        digits_value(d) as u64
    } else {
        0
    }
}

proof fn lemma_digits_value_mono(d: Seq<char>, k: int)
    requires
        0 <= k <= d.len(),
        forall|i: int| 0 <= i < d.len() ==> is_digit(#[trigger] d[i]),
    ensures
        digits_value(d.take(k)) <= digits_value(d),
    decreases d.len() - k,
{
    if k < d.len() {
        lemma_digits_value_mono(d, k + 1);
        assert(d.take(k + 1).drop_last() == d.take(k));
        assert(digits_value(d.take(k)) * 10 + digit_value(d[k]) == digits_value(d.take(k + 1)));
        assert(digits_value(d.take(k)) <= digits_value(d.take(k)) * 10) by (nonlinear_arith);
    } else {
        assert(d.take(k) == d);
    }
}

/// Parses an unsigned decimal number, 0 when `s` is not one or it does not fit.
pub fn parse_u64_or_zero_vec(s: &Vec<char>) -> (r: u64)
    ensures
        r == parse_u64_or_zero(s@),
{
    let start: usize = if s.len() > 0 && s[0] == '+' {
        1
    } else {
        0
    };
    let ghost d = unsigned_digits(s@);
    assert(d == s@.skip(start as int));
    if start >= s.len() {
        return 0;
    }
    let mut v: u64 = 0;
    let mut i: usize = start;
    while i < s.len()
        invariant
            start <= i <= s.len(),
            d == s@.skip(start as int),
            d == unsigned_digits(s@),
            forall|k: int| 0 <= k < i - start ==> is_digit(#[trigger] d[k]),
            v == digits_value(d.take(i - start)),
        decreases s.len() - i,
    {
        let c = s[i];
        assert(d[i - start] == c);
        if !('0' <= c && c <= '9') {
            assert(!is_digit(d[i - start]));
            assert(!all_digits(d));
            return 0;
        }
        let dv = (c as u32 - '0' as u32) as u64;
        assert(d.take(i - start + 1).drop_last() == d.take(i - start));
        assert(d.take(i - start + 1).last() == c);
        match v.checked_mul(10) {
            Some(m) => match m.checked_add(dv) {
                Some(nv) => {
                    v = nv;
                },
                None => {
                    proof {
                        if all_digits(d) {
                            lemma_digits_value_mono(d, i - start + 1);
                            assert(digits_value(d.take(i - start + 1)) == v * 10 + dv);
                            assert(digits_value(d) > u64::MAX);
                        }
                    }
                    return 0;
                },
            },
            None => {
                proof {
                    if all_digits(d) {
                        lemma_digits_value_mono(d, i - start + 1);
                        assert(digits_value(d.take(i - start + 1)) == v * 10 + dv);
                        assert(digits_value(d) > u64::MAX);
                    }
                }
                return 0;
            },
        }
        i += 1;
    }
    assert(d.take(s.len() - start) == d);
    v
}

/// The decimal digit for `d < 10`.
pub open spec fn digit_char(d: nat) -> char {
    if d == 0 { '0' }
    else if d == 1 { '1' }
    else if d == 2 { '2' }
    else if d == 3 { '3' }
    else if d == 4 { '4' }
    else if d == 5 { '5' }
    else if d == 6 { '6' }
    else if d == 7 { '7' }
    else if d == 8 { '8' }
    else { '9' }
}

/// The decimal rendering of `n`, without sign or leading zeros (`{}` of an integer).
pub open spec fn decimal(n: nat) -> Seq<char>
    decreases n,
{
    if n < 10 {
        seq![digit_char(n)]
    } else {
        decimal(n / 10).push(digit_char(n % 10))
    }
}

fn digit(d: usize) -> (c: char)
    requires
        d < 10,
    ensures
        c == digit_char(d as nat),
{
    if d == 0 { '0' }
    else if d == 1 { '1' }
    else if d == 2 { '2' }
    else if d == 3 { '3' }
    else if d == 4 { '4' }
    else if d == 5 { '5' }
    else if d == 6 { '6' }
    else if d == 7 { '7' }
    else if d == 8 { '8' }
    else { '9' }
}

/// Appends the decimal rendering of `n` to `out`.
pub fn push_decimal(out: &mut String, n: usize)
    ensures
        final(out)@ == old(out)@ + decimal(n as nat),
    decreases n,
{
    if n >= 10 {
        push_decimal(out, n / 10);
    }
    push_char(out, digit(n % 10));
    proof {
        if n < 10 {
            assert(old(out)@ + decimal(n as nat) == old(out)@.push(digit_char(n as nat)));
        } else {
            assert(old(out)@ + decimal(n as nat) == (old(out)@ + decimal((n / 10) as nat)).push(
                digit_char((n % 10) as nat),
            ));
        }
    }
}

} // verus!
