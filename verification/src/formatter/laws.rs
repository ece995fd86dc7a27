//! Properties of the formatter that hold for every source text and every
//! configuration.

use super::{leading, leading_from, is_close_brace, is_close_paren, Depth, init_state, line_level, scan, scan_from, skip_string, sat_sub, lemma_skip_string_ge, format_spec, run, run_from, step, repeat, pending_prefix, FmtState, FormatConfig};
use crate::text::{
    contains_seq, occurs_at, trim_start, all_ws, is_ws, line_end, lines, lines_from, strip_cr, strip_ws, trim, trim_end, lemma_line_end_bounds,
    lemma_strip_ws_add, lemma_strip_ws_all_ws, lemma_strip_ws_trim, lemma_trim_end_split, lemma_trim_facts, lemma_trim_ws_prefix, lemma_trim_end_idem, no_nl,
};
use vstd::prelude::*;

verus! {

/// The non-whitespace characters of all of `ls`, in order.
pub open spec fn strip_all(ls: Seq<Seq<char>>) -> Seq<char>
    decreases ls.len(),
{
    if ls.len() == 0 {
        Seq::empty()
    } else {
        strip_all(ls.drop_last()) + strip_ws(ls.last())
    }
}

proof fn lemma_strip_all_add(a: Seq<Seq<char>>, b: Seq<Seq<char>>)
    ensures
        strip_all(a + b) == strip_all(a) + strip_all(b),
    decreases b.len(),
{
    if b.len() == 0 {
        assert(a + b == a);
        assert(strip_all(a) + strip_all(b) == strip_all(a));
    } else {
        lemma_strip_all_add(a, b.drop_last());
        assert((a + b).drop_last() == a + b.drop_last());
        assert((a + b).last() == b.last());
        assert(strip_all(a) + strip_all(b.drop_last()) + strip_ws(b.last()) == strip_all(a) + (
        strip_all(b.drop_last()) + strip_ws(b.last())));
    }
}

proof fn lemma_all_ws_repeat(s: Seq<char>, n: nat)
    requires
        all_ws(s),
    ensures
        all_ws(repeat(s, n)),
    decreases n,
{
    if n > 0 {
        lemma_all_ws_repeat(s, (n - 1) as nat);
        let r = repeat(s, (n - 1) as nat);
        assert forall|i: int| 0 <= i < (r + s).len() implies is_ws(#[trigger] (r + s)[i]) by {
            if i < r.len() {
                assert((r + s)[i] == r[i]);
            } else {
                assert((r + s)[i] == s[i - r.len()]);
            }
        }
    }
}

proof fn lemma_indent_all_ws(cfg: FormatConfig)
    ensures
        all_ws(cfg.indent_chars()),
{
}

proof fn lemma_newline_strip()
    ensures
        strip_ws(seq!['\n']) == Seq::<char>::empty(),
{
    lemma_strip_ws_all_ws(seq!['\n']);
}

proof fn lemma_step_strip(cfg: FormatConfig, st: FmtState, raw: Seq<char>)
    ensures
        strip_ws(step(cfg, st, raw).0) == strip_ws(raw),
{
    lemma_strip_ws_trim(raw);
    lemma_newline_strip();
    lemma_strip_ws_all_ws(pending_prefix(st));
    let pp = pending_prefix(st);
    if st.depth.comment > 0 {
        let te = trim_end(raw);
        lemma_strip_ws_add(pp, te);
        lemma_strip_ws_add(pp + te, seq!['\n']);
    } else {
        let t = trim(raw);
        if t.len() == 0 {
            assert(strip_ws(t) == Seq::<char>::empty());
        } else {
            let r = repeat(cfg.indent_chars(), super::line_level(st.depth, t));
            lemma_indent_all_ws(cfg);
            lemma_all_ws_repeat(cfg.indent_chars(), super::line_level(st.depth, t));
            lemma_strip_ws_all_ws(r);
            lemma_strip_ws_add(pp, r);
            lemma_strip_ws_add(pp + r, t);
            lemma_strip_ws_add(pp + r + t, seq!['\n']);
        }
    }
}

proof fn lemma_run_strip(cfg: FormatConfig, st0: FmtState, ls: Seq<Seq<char>>)
    ensures
        strip_ws(run_from(cfg, st0, ls).0) == strip_all(ls),
    decreases ls.len(),
{
    if ls.len() > 0 {
        lemma_run_strip(cfg, st0, ls.drop_last());
        let (out, st) = run_from(cfg, st0, ls.drop_last());
        lemma_step_strip(cfg, st, ls.last());
        lemma_strip_ws_add(out, step(cfg, st, ls.last()).0);
    }
}

proof fn lemma_strip_all_lines_from(s: Seq<char>, start: int)
    requires
        0 <= start <= s.len(),
    ensures
        strip_all(lines_from(s, start)) == strip_ws(s.subrange(start, s.len() as int)),
    decreases s.len() + 1 - start,
{
    if start == s.len() {
        assert(s.subrange(start, s.len() as int) == Seq::<char>::empty());
    } else {
        let e = line_end(s, start);
        lemma_line_end_bounds(s, start);
        let raw = s.subrange(start, e);
        let line = if e < s.len() {
            strip_cr(raw)
        } else {
            raw
        };
        assert(lines_from(s, start) == seq![line] + lines_from(s, e + 1));
        lemma_strip_all_add(seq![line], lines_from(s, e + 1));
        assert(seq![line].drop_last() == Seq::<Seq<char>>::empty());
        assert(seq![line].last() == line);
        reveal_with_fuel(strip_all, 2);
        assert(Seq::<char>::empty() + strip_ws(line) == strip_ws(line));
        assert(strip_all(seq![line]) == strip_ws(line));
        if raw.len() > 0 && raw.last() == '\r' && e < s.len() {
            assert(raw == line + seq!['\r']);
            lemma_strip_ws_add(line, seq!['\r']);
            lemma_strip_ws_all_ws(seq!['\r']);
        }
        assert(strip_ws(line) == strip_ws(raw));
        if e < s.len() {
            lemma_strip_all_lines_from(s, e + 1);
            assert(s.subrange(start, s.len() as int) == raw + seq!['\n'] + s.subrange(
                e + 1,
                s.len() as int,
            ));
            lemma_newline_strip();
            lemma_strip_ws_add(raw, seq!['\n']);
            lemma_strip_ws_add(raw + seq!['\n'], s.subrange(e + 1, s.len() as int));
        } else {
            assert(lines_from(s, e + 1) == Seq::<Seq<char>>::empty());
            assert(s.subrange(start, s.len() as int) == raw);
        }
    }
}

/// Formatting changes whitespace only: the non-whitespace characters of the
/// formatted text are those of the source, in the same order.
pub proof fn lemma_format_changes_only_whitespace(cfg: FormatConfig, src: Seq<char>)
    ensures
        strip_ws(format_spec(cfg, src)) == strip_ws(src),
{
    lemma_run_strip(cfg, super::init_state(), lines(src));
    lemma_strip_all_lines_from(src, 0);
    assert(src.subrange(0, src.len() as int) == src);
}

proof fn lemma_skip_string_ws_suffix(p: Seq<char>, w: Seq<char>, j: int)
    requires
        all_ws(w),
        0 <= j,
    ensures
        skip_string(p, j) < p.len() ==> skip_string(p + w, j) == skip_string(p, j),
        skip_string(p, j) >= p.len() ==> skip_string(p + w, j) >= p.len(),
    decreases (p + w).len() + 2 - j,
{
    let s = p + w;
    lemma_skip_string_ge(s, j);
    lemma_skip_string_ge(p, j);
    if j < p.len() {
        assert(s[j] == p[j]);
        if p[j] != '"' {
            if p[j] == '\\' {
                lemma_skip_string_ws_suffix(p, w, j + 2);
            } else {
                lemma_skip_string_ws_suffix(p, w, j + 1);
            }
        }
    }
}

/// Trailing whitespace does not change what a line scan yields.
proof fn lemma_scan_ws_suffix(p: Seq<char>, w: Seq<char>, i: int, d: Depth)
    requires
        all_ws(w),
    ensures
        scan_from(p + w, i, d) == scan_from(p, i, d),
    decreases (p + w).len() + 3 - i,
{
    let s = p + w;
    let n = s.len();
    assert forall|k: int| 0 <= k < n implies (k < p.len() ==> #[trigger] s[k] == p[k]) && (k
        >= p.len() ==> is_ws(s[k])) by {
        if k >= p.len() {
            assert(s[k] == w[k - p.len()]);
        }
    }
    if i < 0 || i >= n {
    } else if i >= p.len() {
        assert(is_ws(s[i]));
        lemma_scan_ws_suffix(p, w, i + 1, d);
    } else {
        lemma_scan_ws_suffix(p, w, i + 1, d);
        lemma_scan_ws_suffix(p, w, i + 2, d);
        lemma_scan_ws_suffix(p, w, i + 3, d);
        lemma_scan_ws_suffix(p, w, i + 4, d);
        if i + 1 < n {
            assert(is_ws(s[i + 1]) || i + 1 < p.len());
        }
        if d.comment > 0 {
            let dm = Depth { comment: (d.comment - 1) as nat, ..d };
            let dp = Depth { comment: d.comment + 1, ..d };
            lemma_scan_ws_suffix(p, w, i + 2, dm);
            lemma_scan_ws_suffix(p, w, i + 2, dp);
        } else {
            let c = s[i];
            lemma_scan_ws_suffix(p, w, i + 2, Depth { comment: d.comment + 1, ..d });
            lemma_scan_ws_suffix(p, w, i + 1, Depth { brace: d.brace + 1, ..d });
            lemma_scan_ws_suffix(p, w, i + 1, Depth { brace: sat_sub(d.brace, 1), ..d });
            lemma_scan_ws_suffix(p, w, i + 1, Depth { paren: d.paren + 1, ..d });
            lemma_scan_ws_suffix(p, w, i + 1, Depth { paren: sat_sub(d.paren, 1), ..d });
            if c == '"' {
                lemma_skip_string_ws_suffix(p, w, i + 1);
                lemma_skip_string_ge(s, i + 1);
                lemma_skip_string_ge(p, i + 1);
                let ks = skip_string(s, i + 1) + 1;
                let kp = skip_string(p, i + 1) + 1;
                lemma_scan_ws_suffix(p, w, ks, d);
                if kp - 1 >= p.len() {
                    assert(scan_from(p, kp, d) == d);
                    assert(scan_from(p, ks, d) == d);
                }
            }
            if i + 3 < n {
                assert(is_ws(s[i + 3]) || i + 3 < p.len());
            }
            if i + 2 < n {
                assert(is_ws(s[i + 2]) || i + 2 < p.len());
            }
        }
    }
}

/// Scanning a line without its trailing whitespace gives the same depths.
proof fn lemma_scan_trim_end(raw: Seq<char>, d: Depth)
    ensures
        scan(trim_end(raw), d) == scan(raw, d),
{
    lemma_trim_end_split(raw);
    let k = trim_end(raw).len() as int;
    assert(raw == trim_end(raw) + raw.skip(k));
    lemma_scan_ws_suffix(trim_end(raw), raw.skip(k), 0, d);
}

/// The lines `ls`, each followed by a line feed.
pub open spec fn join(ls: Seq<Seq<char>>) -> Seq<char>
    decreases ls.len(),
{
    if ls.len() == 0 {
        Seq::empty()
    } else {
        ls[0] + seq!['\n'] + join(ls.drop_first())
    }
}

proof fn lemma_join_add(a: Seq<Seq<char>>, b: Seq<Seq<char>>)
    ensures
        join(a + b) == join(a) + join(b),
    decreases a.len(),
{
    if a.len() == 0 {
        assert(a + b == b);
        assert(join(a) + join(b) == join(b));
    } else {
        assert((a + b)[0] == a[0]);
        assert((a + b).drop_first() == a.drop_first() + b);
        lemma_join_add(a.drop_first(), b);
    }
}

/// A line with no whitespace at its end.
pub open spec fn tidy_line(l: Seq<char>) -> bool {
    l.len() == 0 || !is_ws(l.last())
}

/// A line that `str::lines` gives back unchanged after a line feed: it holds
/// no line feed and does not end with whitespace (a carriage return among it).
pub open spec fn clean_line(l: Seq<char>) -> bool {
    no_nl(l) && tidy_line(l)
}

proof fn lemma_line_end_at(s: Seq<char>, i: int, j: int)
    requires
        0 <= i <= j < s.len(),
        s[j] == '\n',
        forall|k: int| i <= k < j ==> s[k] != '\n',
    ensures
        line_end(s, i) == j,
    decreases j - i,
{
    if i < j {
        lemma_line_end_at(s, i + 1, j);
    }
}

proof fn lemma_lines_join(a: Seq<char>, ls: Seq<Seq<char>>)
    requires
        forall|i: int| 0 <= i < ls.len() ==> clean_line(#[trigger] ls[i]),
    ensures
        lines_from(a + join(ls), a.len() as int) == ls,
    decreases ls.len(),
{
    if ls.len() == 0 {
        assert(a + join(ls) == a);
    } else {
        let l0 = ls[0];
        assert(clean_line(l0));
        assert(is_ws('\r'));
        let a2 = a + l0 + seq!['\n'];
        let s = a + join(ls);
        assert(s == a2 + join(ls.drop_first()));
        let j: int = (a.len() + l0.len()) as int;
        assert forall|k: int| a.len() <= k < j implies s[k] != '\n' by {
            assert(s[k] == l0[k - a.len()]);
        }
        assert(s[j] == '\n');
        lemma_line_end_at(s, a.len() as int, j);
        assert(s.subrange(a.len() as int, j) == l0);
        assert(strip_cr(l0) == l0);
        assert forall|i: int| 0 <= i < ls.drop_first().len() implies clean_line(
            #[trigger] ls.drop_first()[i],
        ) by {
            assert(ls.drop_first()[i] == ls[i + 1]);
        }
        lemma_lines_join(a2, ls.drop_first());
        assert(a2.len() == j + 1);
        assert(ls == seq![l0] + ls.drop_first());
    }
}

pub open spec fn pending_lines(st: FmtState) -> Seq<Seq<char>> {
    if st.pending_blank {
        seq![Seq::<char>::empty()]
    } else {
        Seq::empty()
    }
}

/// The lines, without their line feeds, that `step` writes.
pub open spec fn step_lines(cfg: FormatConfig, st: FmtState, raw: Seq<char>) -> Seq<Seq<char>> {
    if st.depth.comment > 0 {
        pending_lines(st) + seq![trim_end(raw)]
    } else {
        let t = trim(raw);
        if t.len() == 0 {
            Seq::empty()
        } else {
            pending_lines(st) + seq![repeat(cfg.indent_chars(), line_level(st.depth, t)) + t]
        }
    }
}

/// The lines, without their line feeds, that `run_from` writes.
pub open spec fn run_lines(cfg: FormatConfig, st: FmtState, ls: Seq<Seq<char>>) -> Seq<Seq<char>>
    decreases ls.len(),
{
    if ls.len() == 0 {
        Seq::empty()
    } else {
        run_lines(cfg, st, ls.drop_last()) + step_lines(
            cfg,
            run_from(cfg, st, ls.drop_last()).1,
            ls.last(),
        )
    }
}

proof fn lemma_step_join(cfg: FormatConfig, st: FmtState, raw: Seq<char>)
    ensures
        step(cfg, st, raw).0 == join(step_lines(cfg, st, raw)),
{
    reveal_with_fuel(join, 3);
    let pl = pending_lines(st);
    let pp = pending_prefix(st);
    if st.depth.comment > 0 || trim(raw).len() > 0 {
        let x = if st.depth.comment > 0 {
            trim_end(raw)
        } else {
            repeat(cfg.indent_chars(), line_level(st.depth, trim(raw))) + trim(raw)
        };
        lemma_join_add(pl, seq![x]);
        assert(seq![x].drop_first() == Seq::<Seq<char>>::empty());
        assert(join(seq![x]) == x + seq!['\n'] + Seq::<char>::empty());
        if st.pending_blank {
            assert(pl.drop_first() == Seq::<Seq<char>>::empty());
            assert(join(pl) == Seq::<char>::empty() + seq!['\n'] + Seq::<char>::empty());
        }
        assert(join(pl) == pp);
        assert(pp + x + seq!['\n'] == join(pl) + join(seq![x]));
    }
}

proof fn lemma_run_join(cfg: FormatConfig, st: FmtState, ls: Seq<Seq<char>>)
    ensures
        run_from(cfg, st, ls).0 == join(run_lines(cfg, st, ls)),
    decreases ls.len(),
{
    if ls.len() > 0 {
        lemma_run_join(cfg, st, ls.drop_last());
        let st1 = run_from(cfg, st, ls.drop_last()).1;
        lemma_step_join(cfg, st1, ls.last());
        lemma_join_add(run_lines(cfg, st, ls.drop_last()), step_lines(cfg, st1, ls.last()));
    }
}

proof fn lemma_no_nl_repeat(s: Seq<char>, n: nat)
    requires
        no_nl(s),
    ensures
        no_nl(repeat(s, n)),
    decreases n,
{
    if n > 0 {
        lemma_no_nl_repeat(s, (n - 1) as nat);
        let r = repeat(s, (n - 1) as nat);
        assert forall|i: int| 0 <= i < (r + s).len() implies #[trigger] (r + s)[i] != '\n' by {
            if i < r.len() {
                assert((r + s)[i] == r[i]);
            } else {
                assert((r + s)[i] == s[i - r.len()]);
            }
        }
    }
}

proof fn lemma_all_ws_repeat_pub(cfg: FormatConfig, n: nat)
    ensures
        all_ws(repeat(cfg.indent_chars(), n)),
        no_nl(repeat(cfg.indent_chars(), n)),
{
    lemma_all_ws_repeat(cfg.indent_chars(), n);
    lemma_no_nl_repeat(cfg.indent_chars(), n);
}

proof fn lemma_step_lines_clean(cfg: FormatConfig, st: FmtState, raw: Seq<char>)
    requires
        no_nl(raw),
    ensures
        forall|i: int|
            0 <= i < step_lines(cfg, st, raw).len() ==> clean_line(
                #[trigger] step_lines(cfg, st, raw)[i],
            ),
{
    lemma_trim_facts(raw);
    lemma_trim_end_split(raw);
    let sl = step_lines(cfg, st, raw);
    let pl = pending_lines(st);
    if st.depth.comment > 0 {
        assert forall|i: int| 0 <= i < sl.len() implies clean_line(#[trigger] sl[i]) by {
            if i < pl.len() {
                assert(sl[i] == Seq::<char>::empty());
            } else {
                assert(sl[i] == trim_end(raw));
                if trim_end(raw).len() > 0 {
                    assert(!is_ws(trim_end(raw).last()));
                }
            }
        }
    } else {
        let t = trim(raw);
        if t.len() > 0 {
            let r = repeat(cfg.indent_chars(), line_level(st.depth, t));
            lemma_all_ws_repeat_pub(cfg, line_level(st.depth, t));
            let x = r + t;
            assert(x.last() == t.last());
            assert forall|k: int| 0 <= k < x.len() implies #[trigger] x[k] != '\n' by {
                if k < r.len() {
                    assert(x[k] == r[k]);
                } else {
                    assert(x[k] == t[k - r.len()]);
                }
            }
            assert forall|i: int| 0 <= i < sl.len() implies clean_line(#[trigger] sl[i]) by {
                if i < pl.len() {
                    assert(sl[i] == Seq::<char>::empty());
                } else {
                    assert(sl[i] == x);
                }
            }
        }
    }
}

proof fn lemma_run_lines_clean(cfg: FormatConfig, st: FmtState, ls: Seq<Seq<char>>)
    requires
        forall|i: int| 0 <= i < ls.len() ==> no_nl(#[trigger] ls[i]),
    ensures
        forall|i: int|
            0 <= i < run_lines(cfg, st, ls).len() ==> clean_line(
                #[trigger] run_lines(cfg, st, ls)[i],
            ),
    decreases ls.len(),
{
    if ls.len() > 0 {
        assert forall|i: int| 0 <= i < ls.drop_last().len() implies no_nl(
            #[trigger] ls.drop_last()[i],
        ) by {
            assert(ls.drop_last()[i] == ls[i]);
        }
        lemma_run_lines_clean(cfg, st, ls.drop_last());
        let st1 = run_from(cfg, st, ls.drop_last()).1;
        assert(no_nl(ls[ls.len() - 1]));
        lemma_step_lines_clean(cfg, st1, ls.last());
        let a = run_lines(cfg, st, ls.drop_last());
        let b = step_lines(cfg, st1, ls.last());
        assert forall|i: int| 0 <= i < (a + b).len() implies clean_line(#[trigger] (a + b)[i]) by {
            if i < a.len() {
                assert((a + b)[i] == a[i]);
            } else {
                assert((a + b)[i] == b[i - a.len()]);
            }
        }
    }
}

proof fn lemma_lines_from_no_nl(s: Seq<char>, start: int)
    requires
        0 <= start <= s.len(),
    ensures
        forall|i: int|
            0 <= i < lines_from(s, start).len() ==> no_nl(#[trigger] lines_from(s, start)[i]),
    decreases s.len() + 1 - start,
{
    if start < s.len() {
        let e = line_end(s, start);
        lemma_line_end_bounds(s, start);
        let raw = s.subrange(start, e);
        let line = if e < s.len() {
            strip_cr(raw)
        } else {
            raw
        };
        assert forall|k: int| 0 <= k < line.len() implies #[trigger] line[k] != '\n' by {
            assert(line[k] == raw[k]);
            assert(raw[k] == s[start + k]);
        }
        if e < s.len() {
            lemma_lines_from_no_nl(s, e + 1);
        }
        let rest = lines_from(s, e + 1);
        assert(lines_from(s, start) == seq![line] + rest);
        assert forall|i: int| 0 <= i < lines_from(s, start).len() implies no_nl(
            #[trigger] lines_from(s, start)[i],
        ) by {
            if i > 0 {
                assert(lines_from(s, start)[i] == rest[i - 1]);
            }
        }
    }
}

/// A blank line is only ever owed outside comments, after some line was
/// written, and when blank lines are kept.
pub open spec fn pending_ok(cfg: FormatConfig, st: FmtState) -> bool {
    st.pending_blank ==> st.depth.comment == 0 && st.wrote_any && cfg.preserve_blank_lines
}

proof fn lemma_run_pending_ok(cfg: FormatConfig, ls: Seq<Seq<char>>)
    ensures
        pending_ok(cfg, run(cfg, ls).1),
    decreases ls.len(),
{
    if ls.len() > 0 {
        lemma_run_pending_ok(cfg, ls.drop_last());
    }
}

proof fn lemma_run_from_add(cfg: FormatConfig, st: FmtState, a: Seq<Seq<char>>, b: Seq<Seq<char>>)
    ensures
        run_from(cfg, st, a + b) == ({
            let (o1, s1) = run_from(cfg, st, a);
            let (o2, s2) = run_from(cfg, s1, b);
            (o1 + o2, s2)
        }),
    decreases b.len(),
{
    if b.len() == 0 {
        assert(a + b == a);
        assert(run_from(cfg, st, a).0 + Seq::<char>::empty() == run_from(cfg, st, a).0);
    } else {
        lemma_run_from_add(cfg, st, a, b.drop_last());
        assert((a + b).drop_last() == a + b.drop_last());
        assert((a + b).last() == b.last());
        let s1 = run_from(cfg, st, a).1;
        let o1 = run_from(cfg, st, a).0;
        let (o2, s2) = run_from(cfg, s1, b.drop_last());
        let (e, s3) = step(cfg, s2, b.last());
        assert(o1 + o2 + e == o1 + (o2 + e));
    }
}

pub open spec fn settled(st: FmtState) -> FmtState {
    FmtState { pending_blank: false, ..st }
}

proof fn lemma_step_sim(cfg: FormatConfig, st: FmtState, raw: Seq<char>)
    requires
        pending_ok(cfg, st),
    ensures
        run_from(cfg, settled(st), step_lines(cfg, st, raw)) == (
            step(cfg, st, raw).0,
            settled(step(cfg, st, raw).1),
        ),
{
    reveal_with_fuel(run_from, 3);
    let t0 = settled(st);
    let sl = step_lines(cfg, st, raw);
    if st.depth.comment > 0 {
        let x = trim_end(raw);
        assert(sl == seq![x]);
        assert(sl.drop_last() == Seq::<Seq<char>>::empty());
        lemma_trim_end_idem(raw);
        lemma_scan_trim_end(raw, st.depth);
        assert(step(cfg, t0, x).0 == step(cfg, st, raw).0);
        assert(Seq::<char>::empty() + step(cfg, t0, x).0 == step(cfg, t0, x).0);
    } else {
        let t = trim(raw);
        if t.len() > 0 {
            let lvl = line_level(st.depth, t);
            let r = repeat(cfg.indent_chars(), lvl);
            let x = r + t;
            lemma_trim_facts(raw);
            lemma_all_ws_repeat_pub(cfg, lvl);
            lemma_trim_ws_prefix(r, t);
            assert(trim(x) == t);
            let empty = Seq::<char>::empty();
            assert(trim(empty) == empty);
            if st.pending_blank {
                assert(sl == seq![empty, x]);
                assert(sl.drop_last() == seq![empty]);
                assert(sl.drop_last().drop_last() == Seq::<Seq<char>>::empty());
                let t1 = step(cfg, t0, empty).1;
                assert(t1 == FmtState { pending_blank: true, ..t0 });
                assert(step(cfg, t1, x).0 == step(cfg, st, raw).0);
                assert(empty + empty + step(cfg, t1, x).0 == step(cfg, t1, x).0);
            } else {
                assert(sl == seq![x]);
                assert(sl.drop_last() == Seq::<Seq<char>>::empty());
                assert(st == t0);
                assert(step(cfg, t0, x).0 == step(cfg, st, raw).0);
                assert(empty + step(cfg, t0, x).0 == step(cfg, t0, x).0);
            }
        } else {
            assert(sl == Seq::<Seq<char>>::empty());
        }
    }
}

proof fn lemma_run_sim(cfg: FormatConfig, ls: Seq<Seq<char>>)
    ensures
        run(cfg, run_lines(cfg, init_state(), ls)) == (run(cfg, ls).0, settled(run(cfg, ls).1)),
    decreases ls.len(),
{
    if ls.len() == 0 {
        assert(settled(init_state()) == init_state());
    } else {
        let prev = ls.drop_last();
        lemma_run_sim(cfg, prev);
        let st1 = run(cfg, prev).1;
        lemma_run_pending_ok(cfg, prev);
        lemma_step_sim(cfg, st1, ls.last());
        lemma_run_from_add(
            cfg,
            init_state(),
            run_lines(cfg, init_state(), prev),
            step_lines(cfg, st1, ls.last()),
        );
    }
}

/// Formatting is idempotent: formatting formatted text changes nothing.
pub proof fn lemma_format_idempotent(cfg: FormatConfig, src: Seq<char>)
    ensures
        format_spec(cfg, format_spec(cfg, src)) == format_spec(cfg, src),
{
    let ls = lines(src);
    let out = format_spec(cfg, src);
    let l2 = run_lines(cfg, init_state(), ls);
    lemma_run_join(cfg, init_state(), ls);
    assert(out == join(l2));
    lemma_lines_from_no_nl(src, 0);
    lemma_run_lines_clean(cfg, init_state(), ls);
    lemma_lines_join(Seq::<char>::empty(), l2);
    assert(Seq::<char>::empty() + join(l2) == join(l2));
    assert(lines(out) == l2);
    lemma_run_sim(cfg, ls);
}

/// The non-blank lines of `ls`, each without surrounding whitespace, in order.
pub open spec fn content_lines(ls: Seq<Seq<char>>) -> Seq<Seq<char>>
    decreases ls.len(),
{
    if ls.len() == 0 {
        Seq::empty()
    } else if trim(ls.last()).len() == 0 {
        content_lines(ls.drop_last())
    } else {
        content_lines(ls.drop_last()).push(trim(ls.last()))
    }
}

proof fn lemma_content_add(a: Seq<Seq<char>>, b: Seq<Seq<char>>)
    ensures
        content_lines(a + b) == content_lines(a) + content_lines(b),
    decreases b.len(),
{
    if b.len() == 0 {
        assert(a + b == a);
        assert(content_lines(a) + content_lines(b) == content_lines(a));
    } else {
        lemma_content_add(a, b.drop_last());
        assert((a + b).drop_last() == a + b.drop_last());
        assert((a + b).last() == b.last());
        if trim(b.last()).len() > 0 {
            assert(content_lines(a) + content_lines(b.drop_last()).push(trim(b.last())) == (
            content_lines(a) + content_lines(b.drop_last())).push(trim(b.last())));
        }
    }
}

proof fn lemma_content_single(x: Seq<char>)
    ensures
        content_lines(seq![x]) == if trim(x).len() == 0 {
            Seq::<Seq<char>>::empty()
        } else {
            seq![trim(x)]
        },
{
    assert(seq![x].drop_last() == Seq::<Seq<char>>::empty());
    assert(seq![x].last() == x);
    reveal_with_fuel(content_lines, 2);
    assert(Seq::<Seq<char>>::empty().push(trim(x)) == seq![trim(x)]);
}

proof fn lemma_step_content(cfg: FormatConfig, st: FmtState, raw: Seq<char>)
    ensures
        content_lines(step_lines(cfg, st, raw)) == content_lines(seq![raw]),
{
    lemma_content_single(raw);
    let empty = Seq::<char>::empty();
    lemma_content_single(empty);
    assert(trim(empty) == empty);
    let pl = pending_lines(st);
    assert(content_lines(pl) == Seq::<Seq<char>>::empty()) by {
        if st.pending_blank {
            assert(pl == seq![empty]);
        }
    }
    if st.depth.comment > 0 {
        let x = trim_end(raw);
        lemma_trim_end_idem(raw);
        assert(trim(x) == trim(raw));
        lemma_content_single(x);
        lemma_content_add(pl, seq![x]);
        assert(Seq::<Seq<char>>::empty() + content_lines(seq![x]) == content_lines(seq![x]));
    } else {
        let t = trim(raw);
        if t.len() > 0 {
            let lvl = line_level(st.depth, t);
            let r = repeat(cfg.indent_chars(), lvl);
            lemma_trim_facts(raw);
            lemma_all_ws_repeat_pub(cfg, lvl);
            lemma_trim_ws_prefix(r, t);
            lemma_content_single(r + t);
            lemma_content_add(pl, seq![r + t]);
            assert(Seq::<Seq<char>>::empty() + content_lines(seq![r + t]) == content_lines(seq![r + t]));
        }
    }
}

proof fn lemma_run_content(cfg: FormatConfig, ls: Seq<Seq<char>>)
    ensures
        content_lines(run_lines(cfg, init_state(), ls)) == content_lines(ls),
    decreases ls.len(),
{
    if ls.len() > 0 {
        let prev = ls.drop_last();
        lemma_run_content(cfg, prev);
        let st1 = run(cfg, prev).1;
        lemma_step_content(cfg, st1, ls.last());
        lemma_content_add(run_lines(cfg, init_state(), prev), step_lines(cfg, st1, ls.last()));
        assert(ls == prev + seq![ls.last()]);
        lemma_content_add(prev, seq![ls.last()]);
    }
}

/// Formatting neither joins nor splits lines: the non-blank lines of the
/// output, without surrounding whitespace, are those of the source, in order.
pub proof fn lemma_format_keeps_lines(cfg: FormatConfig, src: Seq<char>)
    ensures
        content_lines(lines(format_spec(cfg, src))) == content_lines(lines(src)),
{
    let ls = lines(src);
    let l2 = run_lines(cfg, init_state(), ls);
    lemma_run_join(cfg, init_state(), ls);
    lemma_lines_from_no_nl(src, 0);
    lemma_run_lines_clean(cfg, init_state(), ls);
    lemma_lines_join(Seq::<char>::empty(), l2);
    assert(Seq::<char>::empty() + join(l2) == join(l2));
    lemma_run_content(cfg, ls);
}

proof fn lemma_join_ends_nl(ls: Seq<Seq<char>>)
    ensures
        join(ls).len() == 0 || join(ls).last() == '\n',
    decreases ls.len(),
{
    if ls.len() > 0 {
        lemma_join_ends_nl(ls.drop_first());
        let rest = join(ls.drop_first());
        if rest.len() == 0 {
            assert((ls[0] + seq!['\n'] + rest).last() == '\n');
        } else {
            assert((ls[0] + seq!['\n'] + rest).last() == rest.last());
        }
    }
}

/// The formatted text ends every line with a line feed, and no line of it
/// ends with whitespace.
pub proof fn lemma_format_output_tidy(cfg: FormatConfig, src: Seq<char>)
    ensures
        format_spec(cfg, src).len() == 0 || format_spec(cfg, src).last() == '\n',
        forall|i: int|
            0 <= i < lines(format_spec(cfg, src)).len() ==> tidy_line(
                #[trigger] lines(format_spec(cfg, src))[i],
            ),
{
    let ls = lines(src);
    let l2 = run_lines(cfg, init_state(), ls);
    lemma_run_join(cfg, init_state(), ls);
    lemma_lines_from_no_nl(src, 0);
    lemma_run_lines_clean(cfg, init_state(), ls);
    lemma_lines_join(Seq::<char>::empty(), l2);
    assert(Seq::<char>::empty() + join(l2) == join(l2));
    lemma_join_ends_nl(l2);
    assert forall|i: int| 0 <= i < l2.len() implies tidy_line(#[trigger] l2[i]) by {
        assert(clean_line(l2[i]));
    }
}

/// No two consecutive lines of `ls` are both empty.
pub open spec fn no_double_blank(ls: Seq<Seq<char>>) -> bool {
    forall|j: int| 0 <= j < ls.len() - 1 ==> #[trigger] ls[j].len() > 0 || ls[j + 1].len() > 0
}

/// No line of `ls` starts inside a block comment.
pub open spec fn outside_comments(cfg: FormatConfig, ls: Seq<Seq<char>>) -> bool {
    forall|i: int| 0 <= i < ls.len() ==> #[trigger] run_from(cfg, init_state(), ls.take(i)).1.depth.comment == 0
}

proof fn lemma_run_lines_fold(cfg: FormatConfig, ls: Seq<Seq<char>>)
    requires
        outside_comments(cfg, ls),
    ensures
        no_double_blank(run_lines(cfg, init_state(), ls)),
        run_lines(cfg, init_state(), ls).len() > 0 ==> run_lines(cfg, init_state(), ls).last().len() > 0,
    decreases ls.len(),
{
    if ls.len() > 0 {
        let prev = ls.drop_last();
        assert forall|i: int| 0 <= i < prev.len() implies #[trigger] run_from(cfg, init_state(), prev.take(i)).1.depth.comment == 0 by {
            assert(prev.take(i) == ls.take(i));
            assert(run_from(cfg, init_state(), ls.take(i)).1.depth.comment == 0);
        }
        lemma_run_lines_fold(cfg, prev);
        assert(ls.take(ls.len() - 1) == prev);
        assert(run_from(cfg, init_state(), ls.take(ls.len() - 1)).1.depth.comment == 0);
        let st1 = run_from(cfg, init_state(), prev).1;
        let a = run_lines(cfg, init_state(), prev);
        let b = step_lines(cfg, st1, ls.last());
        let t = trim(ls.last());
        if t.len() > 0 {
            let x = repeat(cfg.indent_chars(), line_level(st1.depth, t)) + t;
            assert(x.len() > 0);
            let c = a + b;
            assert(c.last() == x);
            assert forall|j: int| 0 <= j < c.len() - 1 implies #[trigger] c[j].len() > 0 || c[j + 1].len() > 0 by {
                if j + 1 < a.len() {
                    assert(c[j] == a[j] && c[j + 1] == a[j + 1]);
                } else if j + 1 == c.len() - 1 {
                    assert(c[j + 1] == x);
                } else {
                    // j + 1 == a.len() and a blank line is owed: it follows the
                    // last line written, which is not empty
                    assert(j == a.len() - 1);
                    assert(c[j] == a.last());
                }
            }
        } else {
            assert(b =~= Seq::<Seq<char>>::empty());
            assert(a + b == a);
        }
    }
}

/// Outside block comments, runs of blank lines are folded: when no line of
/// the source starts inside a block comment, the formatted text never has two
/// consecutive empty lines and does not end with an empty line. (Inside a
/// block comment lines are kept as they are, blank ones included.)
pub proof fn lemma_format_folds_blank_lines(cfg: FormatConfig, src: Seq<char>)
    requires
        outside_comments(cfg, lines(src)),
    ensures
        no_double_blank(lines(format_spec(cfg, src))),
        lines(format_spec(cfg, src)).len() > 0 ==> lines(format_spec(cfg, src)).last().len() > 0,
{
    let ls = lines(src);
    let l2 = run_lines(cfg, init_state(), ls);
    lemma_run_join(cfg, init_state(), ls);
    lemma_lines_from_no_nl(src, 0);
    lemma_run_lines_clean(cfg, init_state(), ls);
    lemma_lines_join(Seq::<char>::empty(), l2);
    assert(Seq::<char>::empty() + join(l2) == join(l2));
    lemma_run_lines_fold(cfg, ls);
}

proof fn lemma_run_lines_first(cfg: FormatConfig, ls: Seq<Seq<char>>)
    ensures
        run_lines(cfg, init_state(), ls).len() == 0 ==> ({
            let st = run_from(cfg, init_state(), ls).1;
            !st.wrote_any && !st.pending_blank && st.depth.comment == 0
        }),
        run_lines(cfg, init_state(), ls).len() > 0 ==> run_lines(cfg, init_state(), ls)[0].len() > 0,
    decreases ls.len(),
{
    if ls.len() > 0 {
        let prev = ls.drop_last();
        lemma_run_lines_first(cfg, prev);
        let st1 = run_from(cfg, init_state(), prev).1;
        let a = run_lines(cfg, init_state(), prev);
        let b = step_lines(cfg, st1, ls.last());
        if a.len() > 0 {
            assert((a + b)[0] == a[0]);
        } else {
            assert(a + b == b);
            let t = trim(ls.last());
            if t.len() > 0 {
                let x = repeat(cfg.indent_chars(), line_level(st1.depth, t)) + t;
                assert(b == seq![x]);
            } else {
                assert(b =~= Seq::<Seq<char>>::empty());
            }
        }
    }
}

/// Blank lines at the start of the source are dropped: the formatted text
/// does not start with an empty line.
pub proof fn lemma_format_no_leading_blank_line(cfg: FormatConfig, src: Seq<char>)
    ensures
        lines(format_spec(cfg, src)).len() > 0 ==> lines(format_spec(cfg, src))[0].len() > 0,
{
    let ls = lines(src);
    let l2 = run_lines(cfg, init_state(), ls);
    lemma_run_join(cfg, init_state(), ls);
    lemma_lines_from_no_nl(src, 0);
    lemma_run_lines_clean(cfg, init_state(), ls);
    lemma_lines_join(Seq::<char>::empty(), l2);
    assert(Seq::<char>::empty() + join(l2) == join(l2));
    lemma_run_lines_first(cfg, ls);
}

/// `s` holds no `/*`, the only way a block comment opens.
pub open spec fn no_opener(s: Seq<char>) -> bool {
    forall|k: int| 0 <= k && k + 1 < s.len() && #[trigger] s[k] == '/' ==> s[k + 1] != '*'
}

proof fn lemma_no_opener_of_text(s: Seq<char>)
    requires
        !contains_seq(s, seq!['/', '*']),
    ensures
        no_opener(s),
{
    assert forall|k: int| 0 <= k && k + 1 < s.len() && #[trigger] s[k] == '/' implies s[k + 1] != '*' by {
        if s[k + 1] == '*' {
            assert(s.subrange(k, k + 2) =~= seq!['/', '*']);
            assert(occurs_at(s, seq!['/', '*'], k));
        }
    }
}

proof fn lemma_lines_no_opener(s: Seq<char>, start: int)
    requires
        0 <= start <= s.len(),
        no_opener(s),
    ensures
        forall|i: int|
            0 <= i < lines_from(s, start).len() ==> no_opener(#[trigger] lines_from(s, start)[i]),
    decreases s.len() + 1 - start,
{
    if start < s.len() {
        let e = line_end(s, start);
        lemma_line_end_bounds(s, start);
        let raw = s.subrange(start, e);
        let line = if e < s.len() {
            strip_cr(raw)
        } else {
            raw
        };
        assert forall|k: int| 0 <= k && k + 1 < line.len() && #[trigger] line[k] == '/' implies line[k + 1] != '*' by {
            assert(line[k] == s[start + k]);
            assert(line[k + 1] == s[start + k + 1]);
        }
        if e < s.len() {
            lemma_lines_no_opener(s, e + 1);
        }
        let rest = lines_from(s, e + 1);
        assert(lines_from(s, start) == seq![line] + rest);
        assert forall|i: int| 0 <= i < lines_from(s, start).len() implies no_opener(
            #[trigger] lines_from(s, start)[i],
        ) by {
            if i > 0 {
                assert(lines_from(s, start)[i] == rest[i - 1]);
            }
        }
    }
}

proof fn lemma_trim_end_no_opener(s: Seq<char>)
    requires
        no_opener(s),
    ensures
        no_opener(trim_end(s)),
    decreases s.len(),
{
    if s.len() > 0 && is_ws(s.last()) {
        let d = s.drop_last();
        assert forall|k: int| 0 <= k && k + 1 < d.len() && #[trigger] d[k] == '/' implies d[k + 1] != '*' by {
            assert(d[k] == s[k] && d[k + 1] == s[k + 1]);
        }
        lemma_trim_end_no_opener(d);
    }
}

proof fn lemma_trim_start_no_opener(s: Seq<char>)
    requires
        no_opener(s),
    ensures
        no_opener(trim_start(s)),
    decreases s.len(),
{
    if s.len() > 0 && is_ws(s[0]) {
        let d = s.drop_first();
        assert forall|k: int| 0 <= k && k + 1 < d.len() && #[trigger] d[k] == '/' implies d[k + 1] != '*' by {
            assert(d[k] == s[k + 1] && d[k + 1] == s[k + 2]);
        }
        lemma_trim_start_no_opener(d);
    }
}

proof fn lemma_scan_no_opener(cs: Seq<char>, i: int, d: Depth)
    requires
        no_opener(cs),
        d.comment == 0,
    ensures
        scan_from(cs, i, d).comment == 0,
    decreases cs.len() + 3 - i,
{
    if 0 <= i < cs.len() {
        let c = cs[i];
        if c == '/' && i + 1 < cs.len() && cs[i + 1] == '/' {
        } else if c == '/' && i + 1 < cs.len() && cs[i + 1] == '*' {
            assert(false);
        } else if c == '"' {
            lemma_skip_string_ge(cs, i + 1);
            lemma_scan_no_opener(cs, skip_string(cs, i + 1) + 1, d);
        } else if c == '\'' && i + 3 < cs.len() && cs[i + 1] == '\\' && cs[i + 3] == '\'' {
            lemma_scan_no_opener(cs, i + 4, d);
        } else if c == '\'' && i + 2 < cs.len() && cs[i + 2] == '\'' {
            lemma_scan_no_opener(cs, i + 3, d);
        } else if super::is_open_brace(c) {
            lemma_scan_no_opener(cs, i + 1, Depth { brace: d.brace + 1, ..d });
        } else if super::is_close_brace(c) {
            lemma_scan_no_opener(cs, i + 1, Depth { brace: sat_sub(d.brace, 1), ..d });
        } else if super::is_open_paren(c) {
            lemma_scan_no_opener(cs, i + 1, Depth { paren: d.paren + 1, ..d });
        } else if super::is_close_paren(c) {
            lemma_scan_no_opener(cs, i + 1, Depth { paren: sat_sub(d.paren, 1), ..d });
        } else {
            lemma_scan_no_opener(cs, i + 1, d);
        }
    }
}

proof fn lemma_run_no_opener(cfg: FormatConfig, ls: Seq<Seq<char>>)
    requires
        forall|i: int| 0 <= i < ls.len() ==> no_opener(#[trigger] ls[i]),
    ensures
        run_from(cfg, init_state(), ls).1.depth.comment == 0,
    decreases ls.len(),
{
    if ls.len() > 0 {
        let prev = ls.drop_last();
        assert forall|i: int| 0 <= i < prev.len() implies no_opener(#[trigger] prev[i]) by {
            assert(prev[i] == ls[i]);
        }
        lemma_run_no_opener(cfg, prev);
        let st1 = run_from(cfg, init_state(), prev).1;
        let raw = ls.last();
        assert(no_opener(ls[ls.len() - 1]));
        let t = trim(raw);
        if t.len() > 0 {
            lemma_trim_end_no_opener(raw);
            lemma_trim_start_no_opener(trim_end(raw));
            lemma_scan_no_opener(t, 0, st1.depth);
        }
    }
}

/// A source without `/*` has no line that starts inside a block comment
/// (`/*` inside a string literal or a line comment opens none either, so
/// this is a sufficient condition, not a necessary one).
pub proof fn lemma_no_opener_outside_comments(cfg: FormatConfig, src: Seq<char>)
    requires
        !contains_seq(src, seq!['/', '*']),
    ensures
        outside_comments(cfg, lines(src)),
{
    let ls = lines(src);
    lemma_no_opener_of_text(src);
    lemma_lines_no_opener(src, 0);
    assert forall|i: int| 0 <= i < ls.len() implies #[trigger] run_from(cfg, init_state(), ls.take(i)).1.depth.comment == 0 by {
        let p = ls.take(i);
        assert forall|k: int| 0 <= k < p.len() implies no_opener(#[trigger] p[k]) by {
            assert(p[k] == ls[k]);
        }
        lemma_run_no_opener(cfg, p);
    }
}

/// Whether each line of `ls` is empty.
pub open spec fn empty_flags(ls: Seq<Seq<char>>) -> Seq<bool> {
    Seq::new(ls.len(), |j: int| ls[j].len() == 0)
}

/// After the lines `ls` (outside block comments): whether a line has been
/// written, and whether an empty line is owed before the next one. A blank
/// source line owes one when some line was written before it and blank lines
/// are kept; a non-blank line pays it.
pub open spec fn blank_state(cfg: FormatConfig, ls: Seq<Seq<char>>) -> (bool, bool)
    decreases ls.len(),
{
    if ls.len() == 0 {
        (false, false)
    } else {
        let (w, p) = blank_state(cfg, ls.drop_last());
        if trim(ls.last()).len() == 0 {
            (w, (w && cfg.preserve_blank_lines) || p)
        } else {
            (true, false)
        }
    }
}

/// Which formatted lines are empty (`true`) for the source lines `ls`: for
/// each non-blank source line, in order, its own non-empty line (`false`),
/// preceded by exactly one empty line (`true`) when blank lines are kept, one
/// or more blank source lines came since the previous non-blank line, and
/// there is such a previous line. Blank source lines produce nothing else.
pub open spec fn blank_shape(cfg: FormatConfig, ls: Seq<Seq<char>>) -> Seq<bool>
    decreases ls.len(),
{
    if ls.len() == 0 {
        Seq::empty()
    } else {
        let prev = blank_shape(cfg, ls.drop_last());
        if trim(ls.last()).len() == 0 {
            prev
        } else {
            prev + (if blank_state(cfg, ls.drop_last()).1 {
                seq![true]
            } else {
                Seq::empty()
            }) + seq![false]
        }
    }
}

proof fn lemma_empty_flags_add(a: Seq<Seq<char>>, b: Seq<Seq<char>>)
    ensures
        empty_flags(a + b) == empty_flags(a) + empty_flags(b),
{
    assert(empty_flags(a + b) =~= empty_flags(a) + empty_flags(b));
}

proof fn lemma_run_blank(cfg: FormatConfig, ls: Seq<Seq<char>>)
    requires
        outside_comments(cfg, ls),
    ensures
        (run_from(cfg, init_state(), ls).1.wrote_any, run_from(cfg, init_state(), ls).1.pending_blank)
            == blank_state(cfg, ls),
        empty_flags(run_lines(cfg, init_state(), ls)) == blank_shape(cfg, ls),
    decreases ls.len(),
{
    if ls.len() > 0 {
        let prev = ls.drop_last();
        assert forall|i: int| 0 <= i < prev.len() implies #[trigger] run_from(cfg, init_state(), prev.take(i)).1.depth.comment == 0 by {
            assert(prev.take(i) == ls.take(i));
            assert(run_from(cfg, init_state(), ls.take(i)).1.depth.comment == 0);
        }
        lemma_run_blank(cfg, prev);
        assert(ls.take(ls.len() - 1) == prev);
        assert(run_from(cfg, init_state(), ls.take(ls.len() - 1)).1.depth.comment == 0);
        let st1 = run_from(cfg, init_state(), prev).1;
        let a = run_lines(cfg, init_state(), prev);
        let b = step_lines(cfg, st1, ls.last());
        lemma_empty_flags_add(a, b);
        let t = trim(ls.last());
        if t.len() > 0 {
            let x = repeat(cfg.indent_chars(), line_level(st1.depth, t)) + t;
            assert(x.len() > 0);
            if st1.pending_blank {
                assert(empty_flags(b) =~= seq![true, false]);
                assert(seq![true] + seq![false] == seq![true, false]);
            } else {
                assert(empty_flags(b) =~= seq![false]);
                assert(Seq::<bool>::empty() + seq![false] == seq![false]);
            }
        } else {
            assert(b =~= Seq::<Seq<char>>::empty());
            assert(empty_flags(b) =~= Seq::<bool>::empty());
        }
    }
}

/// Blank lines, outside block comments: a formatted line is empty exactly
/// where `blank_shape` says. Runs of blank source lines between two non-blank
/// lines become exactly one empty line (none when blank lines are not kept),
/// blank lines at the start and at the end are dropped. See
/// `lemma_no_opener_outside_comments` for a source without `/*`.
pub proof fn lemma_format_blank_lines(cfg: FormatConfig, src: Seq<char>)
    requires
        outside_comments(cfg, lines(src)),
    ensures
        empty_flags(lines(format_spec(cfg, src))) == blank_shape(cfg, lines(src)),
{
    let ls = lines(src);
    let l2 = run_lines(cfg, init_state(), ls);
    lemma_run_join(cfg, init_state(), ls);
    lemma_lines_from_no_nl(src, 0);
    lemma_run_lines_clean(cfg, init_state(), ls);
    lemma_lines_join(Seq::<char>::empty(), l2);
    assert(Seq::<char>::empty() + join(l2) == join(l2));
    lemma_run_blank(cfg, ls);
}

proof fn lemma_strip_ws_empty(x: Seq<char>)
    ensures
        strip_ws(x).len() == 0 <==> all_ws(x),
    decreases x.len(),
{
    if x.len() > 0 {
        lemma_strip_ws_empty(x.drop_last());
        if all_ws(x) {
            assert(all_ws(x.drop_last()));
        }
        if all_ws(x.drop_last()) && is_ws(x.last()) {
            assert forall|i: int| 0 <= i < x.len() implies is_ws(#[trigger] x[i]) by {
                if i < x.len() - 1 {
                    assert(x[i] == x.drop_last()[i]);
                }
            }
        }
    }
}

/// The formatted text is empty exactly when the source is blank (holds
/// nothing but whitespace).
pub proof fn lemma_format_empty_iff_blank(cfg: FormatConfig, src: Seq<char>)
    ensures
        format_spec(cfg, src).len() == 0 <==> all_ws(src),
{
    let ls = lines(src);
    let l2 = run_lines(cfg, init_state(), ls);
    let out = format_spec(cfg, src);
    lemma_run_join(cfg, init_state(), ls);
    lemma_lines_from_no_nl(src, 0);
    lemma_run_lines_clean(cfg, init_state(), ls);
    lemma_run_lines_first(cfg, ls);
    lemma_format_changes_only_whitespace(cfg, src);
    lemma_strip_ws_empty(out);
    lemma_strip_ws_empty(src);
    assert(out == join(l2));
    if l2.len() > 0 {
        let l0 = l2[0];
        assert(clean_line(l0));
        assert(out == l0 + seq!['\n'] + join(l2.drop_first()));
        assert(out[l0.len() - 1] == l0.last());
        assert(!all_ws(out));
    } else {
        assert(out.len() == 0);
    }
}

/// No three line feeds in a row in `s`.
pub open spec fn no_triple_newline(s: Seq<char>) -> bool {
    forall|k: int| 0 <= k && k + 2 < s.len() && #[trigger] s[k] == '\n' ==> !(s[k + 1] == '\n' && s[k + 2] == '\n')
}

proof fn lemma_join_no_triple(ls: Seq<Seq<char>>)
    requires
        forall|i: int| 0 <= i < ls.len() ==> no_nl(#[trigger] ls[i]),
        no_double_blank(ls),
    ensures
        no_triple_newline(join(ls)),
        !(join(ls).len() >= 2 && join(ls)[0] == '\n' && join(ls)[1] == '\n'),
    decreases ls.len(),
{
    if ls.len() > 0 {
        let l0 = ls[0];
        let rest = ls.drop_first();
        assert forall|i: int| 0 <= i < rest.len() implies no_nl(#[trigger] rest[i]) by {
            assert(rest[i] == ls[i + 1]);
        }
        assert forall|j: int| 0 <= j < rest.len() - 1 implies #[trigger] rest[j].len() > 0 || rest[j + 1].len() > 0 by {
            assert(rest[j] == ls[j + 1] && rest[j + 1] == ls[j + 2]);
            assert(ls[j + 1].len() > 0 || ls[j + 2].len() > 0);
        }
        lemma_join_no_triple(rest);
        let jr = join(rest);
        let j = join(ls);
        let n0 = l0.len() as int;
        assert(no_nl(ls[0]));
        assert(j == l0 + seq!['\n'] + jr);
        assert forall|k: int| 0 <= k < n0 implies #[trigger] j[k] == l0[k] by {}
        assert(j[n0] == '\n');
        assert forall|k: int| n0 < k < j.len() implies #[trigger] j[k] == jr[k - n0 - 1] by {}
        // a line feed at the start of `jr` means an empty second line
        if jr.len() >= 1 && jr[0] == '\n' {
            assert(rest.len() > 0);
            assert(jr == rest[0] + seq!['\n'] + join(rest.drop_first()));
            if rest[0].len() > 0 {
                assert(no_nl(rest[0]));
                assert(jr[0] == rest[0][0]);
            }
            assert(rest[0].len() == 0);
            assert(ls[1].len() == 0);
        }
        assert forall|k: int| 0 <= k && k + 2 < j.len() && #[trigger] j[k] == '\n' implies !(j[k + 1] == '\n' && j[k + 2] == '\n') by {
            if k < n0 {
                assert(l0[k] != '\n');
            } else if k == n0 {
                if j[k + 1] == '\n' && j[k + 2] == '\n' {
                    assert(jr[0] == '\n' && jr[1] == '\n');
                }
            } else {
                assert(jr[k - n0 - 1] == '\n');
                if j[k + 1] == '\n' && j[k + 2] == '\n' {
                    assert(jr[k - n0] == '\n' && jr[k - n0 + 1] == '\n');
                }
            }
        }
        if j.len() >= 2 && j[0] == '\n' && j[1] == '\n' {
            if n0 > 0 {
                assert(l0[0] != '\n');
            }
            assert(n0 == 0);
            assert(jr[0] == '\n');
            assert(ls[0].len() == 0 && ls[1].len() == 0);
            assert(ls[0].len() > 0 || ls[1].len() > 0);
        }
    }
}

/// Blank lines, in terms of characters: when no line of the source starts
/// inside a block comment, the formatted text does not start with a line
/// feed, holds no three line feeds in a row (no two consecutive empty lines),
/// and does not end with two line feeds (no empty last line). See
/// `lemma_no_opener_outside_comments` for a source without `/*`.
pub proof fn lemma_format_text_blank_lines(cfg: FormatConfig, src: Seq<char>)
    requires
        outside_comments(cfg, lines(src)),
    ensures
        format_spec(cfg, src).len() == 0 || format_spec(cfg, src)[0] != '\n',
        !contains_seq(format_spec(cfg, src), seq!['\n', '\n', '\n']),
        !(format_spec(cfg, src).len() >= 2 && format_spec(cfg, src)[format_spec(cfg, src).len() - 2]
            == '\n' && format_spec(cfg, src).last() == '\n'),
{
    let ls = lines(src);
    let l2 = run_lines(cfg, init_state(), ls);
    let out = format_spec(cfg, src);
    lemma_run_join(cfg, init_state(), ls);
    lemma_lines_from_no_nl(src, 0);
    lemma_run_lines_clean(cfg, init_state(), ls);
    lemma_run_lines_first(cfg, ls);
    lemma_run_lines_fold(cfg, ls);
    assert(out == join(l2));
    assert forall|i: int| 0 <= i < l2.len() implies no_nl(#[trigger] l2[i]) by {
        assert(clean_line(l2[i]));
    }
    lemma_join_no_triple(l2);
    if contains_seq(out, seq!['\n', '\n', '\n']) {
        let k = choose|k: int| occurs_at(out, seq!['\n', '\n', '\n'], k);
        assert(out.subrange(k, k + 3)[0] == out[k]);
        assert(out.subrange(k, k + 3)[1] == out[k + 1]);
        assert(out.subrange(k, k + 3)[2] == out[k + 2]);
        assert(out[k] == '\n');
    }
    if l2.len() > 0 {
        let l0 = l2[0];
        assert(out == l0 + seq!['\n'] + join(l2.drop_first()));
        assert(no_nl(l0));
        assert(out[0] == l0[0]);
        let last = l2.last();
        lemma_join_add(l2.drop_last(), seq![last]);
        assert(l2.drop_last() + seq![last] == l2);
        reveal_with_fuel(join, 2);
        assert(seq![last].drop_first() == Seq::<Seq<char>>::empty());
        assert(join(seq![last]) == last + seq!['\n']);
        assert(no_nl(l2[l2.len() - 1]));
        let pre = join(l2.drop_last());
        assert(out == pre + (last + seq!['\n']));
        assert(out[out.len() - 2] == last[last.len() - 1]);
    } else {
        assert(out.len() == 0);
    }
}

/// The shape of any formatted text: it is empty exactly when the source trims
/// to nothing; otherwise it ends with a line feed; and no line of it ends with
/// whitespace.
pub proof fn lemma_format_output_shape(cfg: FormatConfig, src: Seq<char>)
    ensures
        format_spec(cfg, src).len() == 0 <==> trim(src).len() == 0,
        format_spec(cfg, src).len() == 0 || format_spec(cfg, src).last() == '\n',
        forall|i: int|
            0 <= i < lines(format_spec(cfg, src)).len() ==> tidy_line(
                #[trigger] lines(format_spec(cfg, src))[i],
            ),
{
    lemma_format_empty_iff_blank(cfg, src);
    lemma_format_output_tidy(cfg, src);
    lemma_strip_ws_trim(src);
    lemma_strip_ws_empty(src);
    lemma_strip_ws_empty(trim(src));
    lemma_trim_facts(src);
    if trim(src).len() > 0 {
        assert(!is_ws(trim(src)[0]));
        assert(!all_ws(trim(src)));
    }
}

/// The blank-line laws for a source without `/*` (no block comment): the
/// empty formatted lines are exactly those of `blank_shape`, and the text
/// neither starts with a line feed, nor holds three line feeds in a row, nor
/// ends with two.
pub proof fn lemma_format_blank_lines_without_comments(cfg: FormatConfig, src: Seq<char>)
    requires
        !contains_seq(src, seq!['/', '*']),
    ensures
        empty_flags(lines(format_spec(cfg, src))) == blank_shape(cfg, lines(src)),
        format_spec(cfg, src).len() == 0 || format_spec(cfg, src)[0] != '\n',
        !contains_seq(format_spec(cfg, src), seq!['\n', '\n', '\n']),
        !(format_spec(cfg, src).len() >= 2 && format_spec(cfg, src)[format_spec(cfg, src).len() - 2]
            == '\n' && format_spec(cfg, src).last() == '\n'),
{
    lemma_no_opener_outside_comments(cfg, src);
    lemma_format_blank_lines(cfg, src);
    lemma_format_text_blank_lines(cfg, src);
}

/// Number of closing braces (`}` / `】`) in `s`.
pub open spec fn close_brace_count(s: Seq<char>) -> nat
    decreases s.len(),
{
    if s.len() == 0 {
        0
    } else {
        close_brace_count(s.drop_last()) + if is_close_brace(s.last()) {
            1nat
        } else {
            0nat
        }
    }
}

/// Number of closing parentheses (`)` / `）` / `]`) in `s`.
pub open spec fn close_paren_count(s: Seq<char>) -> nat
    decreases s.len(),
{
    if s.len() == 0 {
        0
    } else {
        close_paren_count(s.drop_last()) + if is_close_paren(s.last()) {
            1nat
        } else {
            0nat
        }
    }
}

/// A character of the run of closers that starts a line.
pub open spec fn closer_or_ws(c: char) -> bool {
    is_close_brace(c) || is_close_paren(c) || is_ws(c)
}

proof fn lemma_leading_from_counts(t: Seq<char>, i: int)
    requires
        0 <= i <= t.len(),
        forall|j: int| 0 <= j < i ==> closer_or_ws(#[trigger] t[j]),
    ensures
        exists|k: int|
            #![trigger t.take(k)]
            {
                &&& i <= k <= t.len()
                &&& forall|j: int| 0 <= j < k ==> closer_or_ws(#[trigger] t[j])
                &&& (k == t.len() || !closer_or_ws(t[k]))
                &&& leading_from(t, i, close_brace_count(t.take(i)), close_paren_count(t.take(i)))
                    == (close_brace_count(t.take(k)), close_paren_count(t.take(k)))
            },
    decreases t.len() - i,
{
    if i == t.len() || !closer_or_ws(t[i]) {
        assert(t.take(i) == t.take(i));
    } else {
        assert(t.take(i + 1).drop_last() == t.take(i));
        assert(t.take(i + 1).last() == t[i]);
        lemma_leading_from_counts(t, i + 1);
    }
}

/// The closers that decide a line's indentation: `leading(t)` counts the
/// closing braces and the closing parentheses in the run of closers and
/// whitespace that starts `t` — all of them, parentheses as much as braces —
/// so the line is indented by the brace depth less the braces it closes, one
/// level more only while parentheses stay open after those it closes.
pub proof fn lemma_leading_counts(t: Seq<char>)
    ensures
        exists|k: int|
            #![trigger t.take(k)]
            {
                &&& 0 <= k <= t.len()
                &&& forall|j: int| 0 <= j < k ==> closer_or_ws(#[trigger] t[j])
                &&& (k == t.len() || !closer_or_ws(t[k]))
                &&& leading(t) == (close_brace_count(t.take(k)), close_paren_count(t.take(k)))
                &&& forall|d: Depth|
                    #[trigger] line_level(d, t) == sat_sub(d.brace, close_brace_count(t.take(k))) + if d.paren
                        > close_paren_count(t.take(k)) {
                        1nat
                    } else {
                        0nat
                    }
            },
{
    assert(t.take(0) == Seq::<char>::empty());
    lemma_leading_from_counts(t, 0);
}

} // verus!
