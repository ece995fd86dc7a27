//! The lines that formatting changed, for showing a diff.

use crate::text::{lines, split_lines, to_chars, chars_eq, push_chars};
use vstd::prelude::*;

verus! {

/// A line that differs between the original and the formatted text.
#[derive(Debug)]
pub struct LineChange {
    /// Line number, counted from 1.
    pub line: usize,
    /// The line before formatting.
    pub original: String,
    /// The line after formatting.
    pub formatted: String,
}

/// Among the first `n` line pairs of `a` and `b`, those that differ, with
/// their 1-based line numbers.
pub open spec fn changes_upto(a: Seq<Seq<char>>, b: Seq<Seq<char>>, n: nat) -> Seq<(nat, Seq<char>, Seq<char>)>
    decreases n,
{
    if n == 0 {
        Seq::empty()
    } else {
        let r = changes_upto(a, b, (n - 1) as nat);
        if a[n - 1] != b[n - 1] {
            r.push((n, a[n - 1], b[n - 1]))
        } else {
            r
        }
    }
}

/// The changed lines of two texts, pairing their lines one by one as far as
/// the shorter text goes.
pub open spec fn line_changes(original: Seq<char>, formatted: Seq<char>) -> Seq<(nat, Seq<char>, Seq<char>)> {
    let a = lines(original);
    let b = lines(formatted);
    changes_upto(a, b, if a.len() <= b.len() { a.len() } else { b.len() })
}

pub open spec fn change_view(c: LineChange) -> (nat, Seq<char>, Seq<char>) {
    (c.line as nat, c.original@, c.formatted@)
}

pub open spec fn change_views(v: Seq<LineChange>) -> Seq<(nat, Seq<char>, Seq<char>)> {
    Seq::new(v.len(), |i: int| change_view(v[i]))
}

fn chars_to_string(v: &Vec<char>) -> (s: String)
    ensures
        s@ == v@,
{
    let mut s = String::new();
    push_chars(&mut s, v);
    s
}

/// The lines that differ between `original` and `formatted`, line by line.
pub fn line_diffs(original: &str, formatted: &str) -> (r: Vec<LineChange>)
    ensures
        change_views(r@) == line_changes(original@, formatted@),
{
    let a = split_lines(&to_chars(original));
    let b = split_lines(&to_chars(formatted));
    let ghost la = lines(original@);
    let ghost lb = lines(formatted@);
    assert(la.len() == a.len() && lb.len() == b.len());
    let n = if a.len() <= b.len() {
        a.len()
    } else {
        b.len()
    };
    let mut r: Vec<LineChange> = Vec::new();
    let mut i: usize = 0;
    while i < n
        invariant
            i <= n,
            n <= a.len(),
            n <= b.len(),
            la == lines(original@),
            lb == lines(formatted@),
            la.len() == a.len(),
            lb.len() == b.len(),
            forall|k: int| 0 <= k < a.len() ==> #[trigger] a@[k]@ == la[k],
            forall|k: int| 0 <= k < b.len() ==> #[trigger] b@[k]@ == lb[k],
            change_views(r@) == changes_upto(la, lb, i as nat),
        decreases n - i,
    {
        assert(a@[i as int]@ == la[i as int]);
        assert(b@[i as int]@ == lb[i as int]);
        if !chars_eq(&a[i], &b[i]) {
            let ghost before = r@;
            r.push(LineChange { line: i + 1, original: chars_to_string(&a[i]), formatted: chars_to_string(&b[i]) });
            assert(change_views(r@) =~= change_views(before).push(((i + 1) as nat, la[i as int], lb[i as int])));
        }
        i += 1;
    }
    r
}

/// A text compared with itself has no changed lines.
pub proof fn lemma_no_changes_to_itself(s: Seq<char>)
    ensures
        line_changes(s, s).len() == 0,
{
    lemma_changes_upto_same(lines(s), lines(s).len());
}

proof fn lemma_changes_upto_same(a: Seq<Seq<char>>, n: nat)
    requires
        n <= a.len(),
    ensures
        changes_upto(a, a, n).len() == 0,
    decreases n,
{
    if n > 0 {
        lemma_changes_upto_same(a, (n - 1) as nat);
    }
}

} // verus!
