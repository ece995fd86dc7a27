//! Qi source formatter that only changes whitespace.
//!
//! The formatter works line by line: it never joins or splits lines, it keeps
//! every non-whitespace character, drops trailing whitespace and blank lines at
//! the start, collapses runs of blank lines, and re-indents each line from the
//! depth of the braces and parentheses open before it. A light lexical scan
//! skips string literals, character literals, line comments and nested block
//! comments, so that brackets inside them do not count. Lines that start inside
//! a block comment keep their own indentation.

mod config;
mod diff;
mod writer;

pub use config::FormatConfig;
pub use diff::{LineChange, line_diffs, line_changes, changes_upto, change_view, change_views, lemma_no_changes_to_itself};
pub use writer::CodeWriter;
pub use writer::utf8_len;

pub mod laws;

use crate::text::{strip_cr, line_end, lines_from, is_ws, is_whitespace, trim, trim_end, lines, views, to_chars, push_char, push_chars, trim_vec, trim_end_vec, split_lines};
use vstd::prelude::*;

verus! {

/// Nesting depths carried from one line to the next.
pub struct Depth {
    /// Depth of nested block comments.
    pub comment: nat,
    /// Depth of `{}` / `【】`, which decides the indentation level.
    pub brace: nat,
    /// Depth of `()` / `（）` / `[]`, which marks continuation lines.
    pub paren: nat,
}

pub open spec fn depth_sum(d: Depth) -> nat {
    d.comment + d.brace + d.paren
}

pub open spec fn sat_sub(a: nat, b: nat) -> nat {
    if a >= b {
        (a - b) as nat
    } else {
        0
    }
}

pub open spec fn is_open_brace(c: char) -> bool {
    c == '{' || c == '【'
}

pub open spec fn is_close_brace(c: char) -> bool {
    c == '}' || c == '】'
}

pub open spec fn is_open_paren(c: char) -> bool {
    c == '(' || c == '（' || c == '['
}

pub open spec fn is_close_paren(c: char) -> bool {
    c == ')' || c == '）' || c == ']'
}

/// The position of the closing quote of a string literal whose body starts at
/// `i`, or a position at or past the end when the literal is not closed; a
/// backslash escapes the character after it.
pub open spec fn skip_string(cs: Seq<char>, i: int) -> int
    decreases cs.len() + 2 - i,
{
    if i < 0 || i >= cs.len() || cs[i] == '"' {
        i
    } else if cs[i] == '\\' {
        skip_string(cs, i + 2)
    } else {
        skip_string(cs, i + 1)
    }
}

pub proof fn lemma_skip_string_ge(cs: Seq<char>, i: int)
    ensures
        skip_string(cs, i) >= i,
        0 <= i ==> (skip_string(cs, i) < cs.len() ==> cs[skip_string(cs, i)] == '"'),
        i <= cs.len() + 1 ==> skip_string(cs, i) <= cs.len() + 1,
    decreases cs.len() + 2 - i,
{
    if 0 <= i < cs.len() && cs[i] != '"' {
        if cs[i] == '\\' {
            lemma_skip_string_ge(cs, i + 2);
        } else {
            lemma_skip_string_ge(cs, i + 1);
        }
    }
}

#[via_fn]
proof fn scan_from_decreases(cs: Seq<char>, i: int, d: Depth) {
    lemma_skip_string_ge(cs, i + 1);
}

/// The depths after scanning `cs` from position `i` on, starting from `d`.
/// Inside a block comment only `*/` and a nested `/*` count. Outside, `//`
/// ends the scan, `/*` opens a comment, string literals and the character
/// literals `'x'` and `'\x'` are skipped, and brackets move the depths (a
/// closing bracket never takes a depth below zero).
pub open spec fn scan_from(cs: Seq<char>, i: int, d: Depth) -> Depth
    decreases cs.len() + 3 - i,
    via scan_from_decreases
{
    if i < 0 || i >= cs.len() {
        d
    } else if d.comment > 0 {
        if cs[i] == '*' && i + 1 < cs.len() && cs[i + 1] == '/' {
            scan_from(cs, i + 2, Depth { comment: (d.comment - 1) as nat, ..d })
        } else if cs[i] == '/' && i + 1 < cs.len() && cs[i + 1] == '*' {
            scan_from(cs, i + 2, Depth { comment: d.comment + 1, ..d })
        } else {
            scan_from(cs, i + 1, d)
        }
    } else {
        let c = cs[i];
        if c == '/' && i + 1 < cs.len() && cs[i + 1] == '/' {
            d
        } else if c == '/' && i + 1 < cs.len() && cs[i + 1] == '*' {
            scan_from(cs, i + 2, Depth { comment: d.comment + 1, ..d })
        } else if c == '"' {
            scan_from(cs, skip_string(cs, i + 1) + 1, d)
        } else if c == '\'' && i + 3 < cs.len() && cs[i + 1] == '\\' && cs[i + 3] == '\'' {
            scan_from(cs, i + 4, d)
        } else if c == '\'' && i + 2 < cs.len() && cs[i + 2] == '\'' {
            scan_from(cs, i + 3, d)
        } else if is_open_brace(c) {
            scan_from(cs, i + 1, Depth { brace: d.brace + 1, ..d })
        } else if is_close_brace(c) {
            scan_from(cs, i + 1, Depth { brace: sat_sub(d.brace, 1), ..d })
        } else if is_open_paren(c) {
            scan_from(cs, i + 1, Depth { paren: d.paren + 1, ..d })
        } else if is_close_paren(c) {
            scan_from(cs, i + 1, Depth { paren: sat_sub(d.paren, 1), ..d })
        } else {
            scan_from(cs, i + 1, d)
        }
    }
}

/// The depths after scanning the whole line `cs` from `d`.
pub open spec fn scan(cs: Seq<char>, d: Depth) -> Depth {
    scan_from(cs, 0, d)
}

/// The closing braces and closing parentheses that a line starts with,
/// whitespace between them allowed, counted from position `i` on.
pub open spec fn leading_from(cs: Seq<char>, i: int, b: nat, p: nat) -> (nat, nat)
    decreases cs.len() - i,
{
    if i < 0 || i >= cs.len() {
        (b, p)
    } else if is_close_brace(cs[i]) {
        leading_from(cs, i + 1, b + 1, p)
    } else if is_close_paren(cs[i]) {
        leading_from(cs, i + 1, b, p + 1)
    } else if is_ws(cs[i]) {
        leading_from(cs, i + 1, b, p)
    } else {
        (b, p)
    }
}

pub open spec fn leading(cs: Seq<char>) -> (nat, nat) {
    leading_from(cs, 0, 0, 0)
}

/// The indentation level of a (trimmed, non-blank) line `t` with depths `d`
/// before it: the brace depth less the braces the line closes first, one more
/// inside unclosed parentheses.
pub open spec fn line_level(d: Depth, t: Seq<char>) -> nat {
    let (lb, lp) = leading(t);
    let base = sat_sub(d.brace, lb);
    if sat_sub(d.paren, lp) > 0 {
        base + 1
    } else {
        base
    }
}

/// `s` repeated `n` times.
pub open spec fn repeat(s: Seq<char>, n: nat) -> Seq<char>
    decreases n,
{
    if n == 0 {
        Seq::empty()
    } else {
        repeat(s, (n - 1) as nat) + s
    }
}

/// The formatter's state between lines.
pub struct FmtState {
    pub depth: Depth,
    /// A blank line is owed before the next line that is written.
    pub pending_blank: bool,
    /// Some line has been written.
    pub wrote_any: bool,
}

pub open spec fn init_state() -> FmtState {
    FmtState {
        depth: Depth { comment: 0, brace: 0, paren: 0 },
        pending_blank: false,
        wrote_any: false,
    }
}

pub open spec fn pending_prefix(st: FmtState) -> Seq<char> {
    if st.pending_blank {
        seq!['\n']
    } else {
        Seq::empty()
    }
}

/// What the formatter writes for one source line `raw`, and the state after it.
pub open spec fn step(cfg: FormatConfig, st: FmtState, raw: Seq<char>) -> (Seq<char>, FmtState) {
    if st.depth.comment > 0 {
        (
            pending_prefix(st) + trim_end(raw) + seq!['\n'],
            FmtState { depth: scan(raw, st.depth), pending_blank: false, wrote_any: true },
        )
    } else {
        let t = trim(raw);
        if t.len() == 0 {
            (
                Seq::empty(),
                FmtState {
                    pending_blank: if st.wrote_any && cfg.preserve_blank_lines {
                        true
                    } else {
                        st.pending_blank
                    },
                    ..st
                },
            )
        } else {
            (
                pending_prefix(st) + repeat(cfg.indent_chars(), line_level(st.depth, t)) + t
                    + seq!['\n'],
                FmtState { depth: scan(t, st.depth), pending_blank: false, wrote_any: true },
            )
        }
    }
}

/// The output and final state of formatting the lines `ls`, in order, from state `st`.
pub open spec fn run_from(cfg: FormatConfig, st: FmtState, ls: Seq<Seq<char>>) -> (Seq<char>, FmtState)
    decreases ls.len(),
{
    if ls.len() == 0 {
        (Seq::empty(), st)
    } else {
        let (out, st1) = run_from(cfg, st, ls.drop_last());
        let (e, st2) = step(cfg, st1, ls.last());
        (out + e, st2)
    }
}

/// The output and final state of formatting the lines `ls`, in order.
pub open spec fn run(cfg: FormatConfig, ls: Seq<Seq<char>>) -> (Seq<char>, FmtState) {
    run_from(cfg, init_state(), ls)
}

/// The formatted text of `src`.
pub open spec fn format_spec(cfg: FormatConfig, src: Seq<char>) -> Seq<char> {
    run(cfg, lines(src)).0
}

/// Total number of characters in `ls`.
pub open spec fn total_len(ls: Seq<Seq<char>>) -> nat
    decreases ls.len(),
{
    if ls.len() == 0 {
        0
    } else {
        total_len(ls.drop_last()) + ls.last().len()
    }
}

pub proof fn lemma_total_len_add(a: Seq<Seq<char>>, b: Seq<Seq<char>>)
    ensures
        total_len(a + b) == total_len(a) + total_len(b),
    decreases b.len(),
{
    if b.len() == 0 {
        assert(a + b == a);
    } else {
        lemma_total_len_add(a, b.drop_last());
        assert((a + b).drop_last() == a + b.drop_last());
        assert((a + b).last() == b.last());
    }
}

pub proof fn lemma_total_len_take(ls: Seq<Seq<char>>, k: int)
    requires
        0 <= k <= ls.len(),
    ensures
        total_len(ls.take(k)) <= total_len(ls),
    decreases ls.len() - k,
{
    if k < ls.len() {
        lemma_total_len_take(ls, k + 1);
        assert(ls.take(k + 1).drop_last() == ls.take(k));
    } else {
        assert(ls.take(k) == ls);
    }
}

pub proof fn lemma_total_len_lines_from(s: Seq<char>, start: int)
    requires
        0 <= start <= s.len(),
    ensures
        total_len(lines_from(s, start)) <= s.len() - start,
    decreases s.len() + 1 - start,
{
    if start < s.len() {
        let e = line_end(s, start);
        crate::text::lemma_line_end_bounds(s, start);
        let raw = s.subrange(start, e);
        let line = if e < s.len() {
            strip_cr(raw)
        } else {
            raw
        };
        if e < s.len() {
            lemma_total_len_lines_from(s, e + 1);
        }
        lemma_total_len_add(seq![line], lines_from(s, e + 1));
        assert(seq![line].drop_last() == Seq::<Seq<char>>::empty());
        assert(seq![line].last() == line);
        reveal_with_fuel(total_len, 2);
        assert(total_len(seq![line]) == line.len());
        assert(line.len() <= e - start);
        if e >= s.len() {
            assert(lines_from(s, e + 1) == Seq::<Seq<char>>::empty());
        }
        assert(lines_from(s, start) == seq![line] + lines_from(s, e + 1));
    }
}

/// Nesting depths while the formatter scans.
struct DepthState {
    comment: usize,
    brace: usize,
    paren: usize,
}

impl DepthState {
    closed spec fn view(&self) -> Depth {
        Depth { comment: self.comment as nat, brace: self.brace as nat, paren: self.paren as nat }
    }
}

/// Closing braces and parentheses at the start of a line.
struct LeadingClosers {
    braces: usize,
    parens: usize,
}

/// Counts the closing braces and parentheses that `trimmed` starts with,
/// whitespace between them allowed (as in `};`, `} else {`, `);`).
fn leading_closers(trimmed: &Vec<char>) -> (r: LeadingClosers)
    ensures
        (r.braces as nat, r.parens as nat) == leading(trimmed@),
        r.braces + r.parens <= trimmed.len(),
{
    let n = trimmed.len();
    let mut braces: usize = 0;
    let mut parens: usize = 0;
    let mut i: usize = 0;
    let mut stop = false;
    while i < n && !stop
        invariant
            n == trimmed@.len(),
            i <= n,
            braces + parens <= i,
            (if stop {
                (braces as nat, parens as nat)
            } else {
                leading_from(trimmed@, i as int, braces as nat, parens as nat)
            }) == leading(trimmed@),
        decreases n - i, (if stop { 0int } else { 1int }),
    {
        let c = trimmed[i];
        if c == '}' || c == '】' {
            braces += 1;
            i += 1;
        } else if c == ')' || c == '）' || c == ']' {
            parens += 1;
            i += 1;
        } else if is_whitespace(c) {
            i += 1;
        } else {
            stop = true;
        }
    }
    LeadingClosers { braces, parens }
}

/// Scans one line and updates the comment and bracket depths; brackets inside
/// string literals, character literals and comments do not count.
fn scan_line(line: &Vec<char>, depth: &mut DepthState)
    requires
        depth_sum(old(depth).view()) + line.len() <= usize::MAX,
    ensures
        final(depth).view() == scan(line@, old(depth).view()),
        depth_sum(final(depth).view()) <= depth_sum(old(depth).view()) + line.len(),
{
    let ghost d0 = depth.view();
    let n = line.len();
    let mut i: usize = 0;
    while i < n
        invariant
            n == line@.len(),
            i <= n,
            scan_from(line@, i as int, depth.view()) == scan(line@, d0),
            depth_sum(depth.view()) <= depth_sum(d0) + i,
            depth_sum(d0) + n <= usize::MAX,
        decreases n - i,
    {
        if depth.comment > 0 {
            if line[i] == '*' && n - i > 1 && line[i + 1] == '/' {
                depth.comment = depth.comment - 1;
                i += 2;
            } else if line[i] == '/' && n - i > 1 && line[i + 1] == '*' {
                depth.comment = depth.comment + 1;
                i += 2;
            } else {
                i += 1;
            }
        } else {
            let c = line[i];
            if c == '/' && n - i > 1 && line[i + 1] == '/' {
                i = n;
            } else if c == '/' && n - i > 1 && line[i + 1] == '*' {
                depth.comment = depth.comment + 1;
                i += 2;
            } else if c == '"' {
                let ghost i_open = i;
                i += 1;
                proof {
                    crate::formatter::lemma_skip_string_ge(line@, i as int);
                }
                while i < n && line[i] != '"'
                    invariant
                        n == line@.len(),
                        1 <= i <= n,
                        i > i_open,
                        depth_sum(depth.view()) <= depth_sum(d0) + i,
                        depth_sum(d0) + n <= usize::MAX,
                        scan_from(line@, skip_string(line@, i as int) + 1, depth.view()) == scan(
                            line@,
                            d0,
                        ),
                    decreases n - i,
                {
                    if line[i] == '\\' {
                        if n - i > 1 {
                            i += 2;
                        } else {
                            proof {
                                crate::formatter::lemma_skip_string_ge(line@, i + 2);
                            }
                            i = n;
                        }
                    } else {
                        i += 1;
                    }
                }
                if i < n {
                    i += 1;
                }
            } else if c == '\'' && n - i > 3 && line[i + 1] == '\\' && line[i + 3] == '\'' {
                i += 4;
            } else if c == '\'' && n - i > 2 && line[i + 2] == '\'' {
                i += 3;
            } else if c == '{' || c == '【' {
                depth.brace = depth.brace + 1;
                i += 1;
            } else if c == '}' || c == '】' {
                if depth.brace > 0 {
                    depth.brace = depth.brace - 1;
                }
                i += 1;
            } else if c == '(' || c == '（' || c == '[' {
                depth.paren = depth.paren + 1;
                i += 1;
            } else if c == ')' || c == '）' || c == ']' {
                if depth.paren > 0 {
                    depth.paren = depth.paren - 1;
                }
                i += 1;
            } else {
                i += 1;
            }
        }
    }
}

/// The Qi formatter.
pub struct Formatter {
    config: FormatConfig,
}

impl Formatter {
    /// The configuration this formatter uses.
    pub closed spec fn config(&self) -> FormatConfig {
        self.config
    }

    /// A formatter with the default configuration.
    pub fn new() -> (f: Self)
        ensures
            f.config() == FormatConfig::spec_default(),
    {
        Formatter { config: FormatConfig::default() }
    }

    /// A formatter with the given configuration.
    pub fn with_config(config: FormatConfig) -> (f: Self)
        ensures
            f.config() == config,
    {
        Formatter { config }
    }

    /// Formats a Qi source text. Only whitespace changes: indentation, trailing
    /// whitespace and runs of blank lines; every other character stays as it
    /// was. It never fails.
    pub fn format_file(&self, source: &str) -> (r: Result<String, String>)
        ensures
            r matches Ok(out) && out@ == format_spec(self.config(), source@),
    {
        Ok(self.reindent(source))
    }

    fn reindent(&self, source: &str) -> (out: String)
        ensures
            out@ == format_spec(self.config, source@),
    {
        let cfg = self.config;
        let indent_unit = cfg.indent_str();
        let chars = to_chars(source);
        let ls = split_lines(&chars);
        let mut out = String::new();
        let mut depth = DepthState { comment: 0, brace: 0, paren: 0 };
        let mut pending_blank = false;
        let mut wrote_any = false;
        let ghost all = views(ls@);
        proof {
            lemma_total_len_lines_from(chars@, 0);
            assert(all.take(0) == Seq::<Seq<char>>::empty());
        }
        let mut k: usize = 0;
        while k < ls.len()
            invariant
                all == views(ls@),
                all == lines(chars@),
                total_len(all) <= chars.len(),
                chars.len() <= usize::MAX,
                k <= ls.len(),
                indent_unit@ == cfg.indent_chars(),
                cfg == self.config,
                run(cfg, all.take(k as int)) == (
                    out@,
                    FmtState { depth: depth.view(), pending_blank, wrote_any },
                ),
                depth_sum(depth.view()) <= total_len(all.take(k as int)),
            decreases ls.len() - k,
        {
            let raw = &ls[k];
            let ghost st = FmtState { depth: depth.view(), pending_blank, wrote_any };
            let ghost out0 = out@;
            proof {
                assert(all.take(k + 1).drop_last() == all.take(k as int));
                assert(all.take(k + 1).last() == raw@);
                lemma_total_len_take(all, k + 1);
            }
            if depth.comment > 0 {
                if pending_blank {
                    push_char(&mut out, '\n');
                    pending_blank = false;
                }
                let te = trim_end_vec(raw);
                push_chars(&mut out, &te);
                push_char(&mut out, '\n');
                wrote_any = true;
                scan_line(raw, &mut depth);
                proof {
                    assert(out@ == out0 + (pending_prefix(st) + trim_end(raw@) + seq!['\n']));
                }
            } else {
                let t = trim_vec(raw);
                if t.len() == 0 {
                    if wrote_any && cfg.preserve_blank_lines {
                        pending_blank = true;
                    }
                    proof {
                        assert(out@ == out0 + Seq::<char>::empty());
                    }
                } else {
                    if pending_blank {
                        push_char(&mut out, '\n');
                        pending_blank = false;
                    }
                    let lead = leading_closers(&t);
                    let mut level = if depth.brace >= lead.braces {
                        depth.brace - lead.braces
                    } else {
                        0
                    };
                    if depth.paren >= lead.parens && depth.paren - lead.parens > 0 {
                        level = level + 1;
                    }
                    let ghost out1 = out@;
                    let mut j: usize = 0;
                    while j < level
                        invariant
                            j <= level,
                            indent_unit@ == cfg.indent_chars(),
                            out@ == out1 + repeat(cfg.indent_chars(), j as nat),
                        decreases level - j,
                    {
                        out.append(indent_unit.as_str());
                        j += 1;
                    }
                    push_chars(&mut out, &t);
                    push_char(&mut out, '\n');
                    wrote_any = true;
                    proof {
                        crate::text::lemma_trim_len(raw@);
                    }
                    scan_line(&t, &mut depth);
                    proof {
                        assert(level == line_level(st.depth, t@));
                        assert(out@ == out0 + (pending_prefix(st) + repeat(
                            cfg.indent_chars(),
                            line_level(st.depth, t@),
                        ) + t@ + seq!['\n']));
                    }
                }
            }
            k += 1;
        }
        proof {
            assert(all.take(ls.len() as int) == all);
        }
        out
    }
}

impl Default for Formatter {
    fn default() -> (f: Self)
        ensures
            f.config() == FormatConfig::spec_default(),
    {
        Self::new()
    }
}

} // verus!
