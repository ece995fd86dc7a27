//! The profiler report that a profiled Qi program prints, read back as a table.
//!
//! The report looks like
//!
//! ```text
//! === Qi Profiler (wall-inclusive) ===
//! 函数                         调用次数      总耗时(ms)      每次(µs)     占比%
//! 入口                                1        42.300       42300.000   100.0%
//! === (占比以最大值为 100% 基准；wall-inclusive 含子调用与插桩开销) ===
//! ```
//!
//! Each data row ends with four columns (calls, total ms, µs per call, share);
//! the words before them are the function name. Lines outside the report are
//! the program's own output, except runtime diagnostics starting with `[qi-`.
//! The timing columns are kept as text here; reading them as numbers happens
//! where floating point is available.

use crate::text::{
    chars_contain, chars_start_with, contains_seq, join_with, lines, parse_u64_or_zero,
    parse_u64_or_zero_vec, push_chars, push_joined, split_lines, split_words, starts_with,
    to_chars, trim_end_char, trim_end_char_vec, views, words,
};
use vstd::prelude::*;

verus! {

/// One data row of the report.
#[derive(Debug, Clone)]
pub struct ProfileRow {
    /// The function name (its words joined by single spaces).
    pub name: String,
    /// Number of calls; 0 when the column is not a number.
    pub calls: u64,
    /// Total time in milliseconds, as written.
    pub total_ms: String,
    /// Time per call in microseconds, as written.
    pub avg_us: String,
    /// Share of the largest total, as written without the `%`.
    pub pct: String,
}

/// The report rows and the program's own output.
#[derive(Debug, Clone)]
pub struct ProfileTable {
    pub rows: Vec<ProfileRow>,
    /// The program's output lines, joined by line feeds.
    pub stdout: String,
}

/// A row as plain values: name, calls, total, per call, share.
pub type RowView = (Seq<char>, u64, Seq<char>, Seq<char>, Seq<char>);

pub open spec fn row_view(r: ProfileRow) -> RowView {
    (r.name@, r.calls, r.total_ms@, r.avg_us@, r.pct@)
}

/// The row that the words `toks` (at least five) make.
pub open spec fn row_of(toks: Seq<Seq<char>>) -> RowView {
    let n = toks.len() as int;
    (
        join_with(toks.take(n - 4), seq![' ']),
        parse_u64_or_zero(toks[n - 4]),
        toks[n - 3],
        toks[n - 2],
        trim_end_char(toks[n - 1], '%'),
    )
}

/// Reading state: inside the report or not, rows so far, output lines so far.
pub struct TableState {
    pub in_table: bool,
    pub rows: Seq<RowView>,
    pub out: Seq<Seq<char>>,
}

/// What one line does to the reading state.
pub open spec fn table_step(st: TableState, line: Seq<char>) -> TableState {
    if contains_seq(line, "=== Qi Profiler"@) {
        TableState { in_table: true, ..st }
    } else if !st.in_table {
        if starts_with(line, "[qi-"@) {
            st
        } else {
            TableState { out: st.out.push(line), ..st }
        }
    } else if starts_with(line, "=== ("@) {
        TableState { in_table: false, ..st }
    } else if contains_seq(line, "占比%"@) || contains_seq(line, "函数"@) {
        st
    } else if words(line).len() < 5 {
        st
    } else {
        TableState { rows: st.rows.push(row_of(words(line))), ..st }
    }
}

/// The reading state after the lines `ls`.
pub open spec fn table_run(ls: Seq<Seq<char>>) -> TableState
    decreases ls.len(),
{
    if ls.len() == 0 {
        TableState { in_table: false, rows: Seq::empty(), out: Seq::empty() }
    } else {
        table_step(table_run(ls.drop_last()), ls.last())
    }
}

fn make_row(toks: &Vec<Vec<char>>) -> (r: ProfileRow)
    requires
        toks.len() >= 5,
    ensures
        row_view(r) == row_of(views(toks@)),
{
    let n = toks.len();
    let mut name = String::new();
    push_joined(&mut name, toks, n - 4, ' ');
    let calls = parse_u64_or_zero_vec(&toks[n - 4]);
    let mut total_ms = String::new();
    push_chars(&mut total_ms, &toks[n - 3]);
    let mut avg_us = String::new();
    push_chars(&mut avg_us, &toks[n - 2]);
    let trimmed = trim_end_char_vec(&toks[n - 1], '%');
    let mut pct = String::new();
    push_chars(&mut pct, &trimmed);
    proof {
        assert(Seq::<char>::empty() + toks@[n - 3]@ == toks@[n - 3]@);
        assert(Seq::<char>::empty() + toks@[n - 2]@ == toks@[n - 2]@);
        assert(Seq::<char>::empty() + trimmed@ == trimmed@);
        assert(Seq::<char>::empty() + join_with(views(toks@).take(n - 4), seq![' ']) == join_with(
            views(toks@).take(n - 4),
            seq![' '],
        ));
    }
    ProfileRow { name, calls, total_ms, avg_us, pct }
}

pub open spec fn row_views(v: Seq<ProfileRow>) -> Seq<RowView> {
    v.map_values(|r: ProfileRow| row_view(r))
}

/// Reads the profiler report out of a program's combined output.
pub fn parse_profile_table(output: &str) -> (t: ProfileTable)
    ensures
        row_views(t.rows@) == table_run(lines(output@)).rows,
        t.stdout@ == join_with(table_run(lines(output@)).out, seq!['\n']),
{
    let chars = to_chars(output);
    let ls = split_lines(&chars);
    let header = to_chars("=== Qi Profiler");
    let runtime = to_chars("[qi-");
    let footer = to_chars("=== (");
    let share = to_chars("占比%");
    let function = to_chars("函数");
    let mut in_table = false;
    let mut rows: Vec<ProfileRow> = Vec::new();
    let mut out: Vec<Vec<char>> = Vec::new();
    let ghost all = views(ls@);
    let mut k: usize = 0;
    proof {
        assert(all.take(0) == Seq::<Seq<char>>::empty());
        assert(row_views(rows@) == Seq::<RowView>::empty());
        assert(views(out@) == Seq::<Seq<char>>::empty());
    }
    while k < ls.len()
        invariant
            k <= ls.len(),
            all == views(ls@),
            all == lines(chars@),
            chars@ == output@,
            header@ == "=== Qi Profiler"@,
            runtime@ == "[qi-"@,
            footer@ == "=== ("@,
            share@ == "占比%"@,
            function@ == "函数"@,
            table_run(all.take(k as int)) == (TableState {
                in_table,
                rows: row_views(rows@),
                out: views(out@),
            }),
        decreases ls.len() - k,
    {
        let line = &ls[k];
        proof {
            assert(all.take(k + 1).drop_last() == all.take(k as int));
            assert(all.take(k + 1).last() == line@);
        }
        if chars_contain(line, &header) {
            in_table = true;
        } else if !in_table {
            if !chars_start_with(line, &runtime) {
                let copy = crate::text::copy_range(line, 0, line.len());
                assert(line@.subrange(0, line@.len() as int) == line@);
                proof {
                    assert(views(out@.push(copy)) == views(out@).push(line@));
                }
                out.push(copy);
            }
        } else if chars_start_with(line, &footer) {
            in_table = false;
        } else if chars_contain(line, &share) || chars_contain(line, &function) {
        } else {
            let toks = split_words(line);
            if toks.len() >= 5 {
                let row = make_row(&toks);
                proof {
                    assert(row_views(rows@.push(row)) == row_views(rows@).push(row_view(row)));
                }
                rows.push(row);
            }
        }
        k += 1;
    }
    proof {
        assert(all.take(ls.len() as int) == all);
    }
    let mut stdout = String::new();
    push_joined(&mut stdout, &out, out.len(), '\n');
    proof {
        assert(views(out@).take(out.len() as int) == views(out@));
        assert(Seq::<char>::empty() + join_with(views(out@), seq!['\n']) == join_with(
            views(out@),
            seq!['\n'],
        ));
    }
    ProfileTable { rows, stdout }
}

/// The line that opens the report.
pub open spec fn opens_report(l: Seq<char>) -> bool {
    contains_seq(l, "=== Qi Profiler"@)
}

/// A line that closes the report (when it does not also open one).
pub open spec fn closes_report(l: Seq<char>) -> bool {
    starts_with(l, "=== ("@) && !opens_report(l)
}

/// Line `i` of `ls` lies inside the report: some earlier line opened it and
/// no line between that one and line `i` closed it.
pub open spec fn inside_report(ls: Seq<Seq<char>>, i: int) -> bool {
    exists|j: int|
        0 <= j < i && #[trigger] opens_report(ls[j]) && forall|k: int| j < k < i ==> !#[trigger] closes_report(ls[k])
}

/// The program's own output among `ls`: every line outside the report that
/// neither opens it nor is a runtime diagnostic (`[qi-`), in order.
pub open spec fn program_lines(ls: Seq<Seq<char>>) -> Seq<Seq<char>>
    decreases ls.len(),
{
    if ls.len() == 0 {
        Seq::empty()
    } else {
        let i = ls.len() - 1;
        program_lines(ls.drop_last()) + if !inside_report(ls, i) && !opens_report(ls[i]) && !starts_with(
            ls[i],
            "[qi-"@,
        ) {
            seq![ls[i]]
        } else {
            Seq::empty()
        }
    }
}

/// The data rows among `ls`: every line inside the report that neither opens
/// nor closes it, is no heading (`占比%`, `函数`) and has at least five words,
/// read as a row, in order.
pub open spec fn report_rows(ls: Seq<Seq<char>>) -> Seq<RowView>
    decreases ls.len(),
{
    if ls.len() == 0 {
        Seq::empty()
    } else {
        let i = ls.len() - 1;
        let l = ls[i];
        report_rows(ls.drop_last()) + if inside_report(ls, i) && !opens_report(l) && !closes_report(l)
            && !contains_seq(l, "占比%"@) && !contains_seq(l, "函数"@) && words(l).len() >= 5 {
            seq![row_of(words(l))]
        } else {
            Seq::empty()
        }
    }
}

proof fn lemma_inside_prefix(ls: Seq<Seq<char>>, i: int)
    requires
        0 <= i < ls.len(),
    ensures
        inside_report(ls.drop_last(), i) == inside_report(ls, i),
{
    let d = ls.drop_last();
    if inside_report(d, i) {
        let j = choose|j: int|
            0 <= j < i && #[trigger] opens_report(d[j]) && forall|k: int| j < k < i ==> !#[trigger] closes_report(d[k]);
        assert(ls[j] == d[j]);
        assert forall|k: int| j < k < i implies !#[trigger] closes_report(ls[k]) by {
            assert(ls[k] == d[k]);
        }
    }
    if inside_report(ls, i) {
        let j = choose|j: int|
            0 <= j < i && #[trigger] opens_report(ls[j]) && forall|k: int| j < k < i ==> !#[trigger] closes_report(ls[k]);
        assert(ls[j] == d[j]);
        assert forall|k: int| j < k < i implies !#[trigger] closes_report(d[k]) by {
            assert(ls[k] == d[k]);
        }
    }
}

proof fn lemma_table_run_inside(ls: Seq<Seq<char>>)
    ensures
        table_run(ls).in_table == inside_report(ls, ls.len() as int),
    decreases ls.len(),
{
    if ls.len() > 0 {
        let d = ls.drop_last();
        let n = ls.len() - 1;
        lemma_table_run_inside(d);
        lemma_inside_prefix(ls, n);
        let l = ls[n];
        assert(ls.last() == l);
        if opens_report(l) {
            assert(opens_report(ls[n]));
            assert(inside_report(ls, n + 1));
        } else if !table_run(d).in_table {
            if inside_report(ls, n + 1) {
                let j = choose|j: int|
                    0 <= j < n + 1 && #[trigger] opens_report(ls[j]) && forall|k: int| j < k < n + 1 ==> !#[trigger] closes_report(ls[k]);
                assert(j < n);
                assert(inside_report(ls, n));
            }
        } else if starts_with(l, "=== ("@) {
            assert(closes_report(ls[n]));
            if inside_report(ls, n + 1) {
                let j = choose|j: int|
                    0 <= j < n + 1 && #[trigger] opens_report(ls[j]) && forall|k: int| j < k < n + 1 ==> !#[trigger] closes_report(ls[k]);
                assert(j < n);
                assert(!closes_report(ls[n]));
            }
        } else {
            assert(!closes_report(ls[n]));
            let j = choose|j: int|
                0 <= j < n && #[trigger] opens_report(ls[j]) && forall|k: int| j < k < n ==> !#[trigger] closes_report(ls[k]);
            assert forall|k: int| j < k < n + 1 implies !#[trigger] closes_report(ls[k]) by {
                if k < n {
                    assert(!closes_report(ls[k]));
                }
            }
            assert(inside_report(ls, n + 1));
        }
    }
}

/// What the report reader keeps of a program's output: exactly the lines
/// outside the report, except the line that opens it and runtime diagnostics
/// (`[qi-`), in order; and exactly one row per data line inside the report.
pub proof fn lemma_table_run_keeps(ls: Seq<Seq<char>>)
    ensures
        table_run(ls).out == program_lines(ls),
        table_run(ls).rows == report_rows(ls),
    decreases ls.len(),
{
    if ls.len() > 0 {
        let d = ls.drop_last();
        let n = ls.len() - 1;
        lemma_table_run_keeps(d);
        lemma_table_run_inside(d);
        lemma_inside_prefix(ls, n);
        assert(d.len() == n);
        assert(ls.last() == ls[n]);
        let l = ls[n];
        if !(!inside_report(ls, n) && !opens_report(l) && !starts_with(l, "[qi-"@)) {
            assert(program_lines(d) + Seq::<Seq<char>>::empty() == program_lines(d));
        }
        if !(inside_report(ls, n) && !opens_report(l) && !closes_report(l) && !contains_seq(l, "占比%"@)
            && !contains_seq(l, "函数"@) && words(l).len() >= 5) {
            assert(report_rows(d) + Seq::<RowView>::empty() == report_rows(d));
        }
    }
}

} // verus!
