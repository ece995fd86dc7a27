//! Terminal flame graph: configuration, display widths, and the layout of
//! the bars (name column, bar area, colours, rows left out).

use crate::text::push_char;
use super::compare::name_views;
use vstd::prelude::*;

verus! {

/// Flame graph settings.
#[derive(Debug, Clone, Copy)]
pub struct FlameConfig {
    /// Terminal width in columns.
    pub width: usize,
    /// At most this many functions are drawn.
    pub max_rows: usize,
    /// Use ANSI colours.
    pub color: bool,
    /// Draw the flame graph at all.
    pub show_flame: bool,
}

impl Default for FlameConfig {
    fn default() -> (c: Self)
        ensures
            c.width == 78,
            c.max_rows == 15,
            c.color,
            c.show_flame,
    {
        FlameConfig { width: 78, max_rows: 15, color: true, show_flame: true }
    }
}

/// Columns a character takes on a terminal: one for ASCII, two otherwise.
pub open spec fn char_width(c: char) -> nat {
    if (c as u32) < 0x80 {
        1
    } else {
        2
    }
}

/// Columns a text takes on a terminal.
pub open spec fn text_width(cs: Seq<char>) -> nat
    decreases cs.len(),
{
    if cs.len() == 0 {
        0
    } else {
        char_width(cs[0]) + text_width(cs.drop_first())
    }
}

proof fn lemma_width_le_bytes(cs: Seq<char>)
    ensures
        text_width(cs) <= vstd::utf8::encode_utf8(cs).len(),
    decreases cs.len(),
{
    if cs.len() > 0 {
        lemma_width_le_bytes(cs.drop_first());
    }
}

/// The display width of `s` (CJK characters take two columns).
pub fn display_width(s: &str) -> (w: usize)
    ensures
        w == text_width(s@),
{
    let nbytes = s.as_bytes().len();
    proof {
        lemma_width_le_bytes(s@);
    }
    let cs = crate::text::to_chars(s);
    let mut w: usize = 0;
    let mut i: usize = 0;
    assert(cs@.skip(0) == cs@);
    while i < cs.len()
        invariant
            i <= cs@.len(),
            w + text_width(cs@.skip(i as int)) == text_width(s@),
            cs@ == s@,
            text_width(s@) <= nbytes,
        decreases cs.len() - i,
    {
        assert(cs@.skip(i as int).drop_first() == cs@.skip(i + 1));
        let c = cs[i];
        if (c as u32) < 0x80 {
            w = w + 1;
        } else {
            w = w + 2;
        }
        i += 1;
    }
    w
}

/// Spaces before `s` up to display width `target` (right-aligned); `s` as it is
/// when it is already that wide.
pub open spec fn padded(s: Seq<char>, target: nat) -> Seq<char> {
    if text_width(s) >= target {
        s
    } else {
        Seq::new((target - text_width(s)) as nat, |i: int| ' ') + s
    }
}

proof fn lemma_text_width_add(a: Seq<char>, b: Seq<char>)
    ensures
        text_width(a + b) == text_width(a) + text_width(b),
    decreases a.len(),
{
    if a.len() > 0 {
        assert((a + b).drop_first() == a.drop_first() + b);
        lemma_text_width_add(a.drop_first(), b);
    } else {
        assert(a + b == b);
    }
}

proof fn lemma_spaces_width(n: nat)
    ensures
        text_width(Seq::new(n, |i: int| ' ')) == n,
    decreases n,
{
    if n > 0 {
        assert(Seq::new(n, |i: int| ' ').drop_first() == Seq::new((n - 1) as nat, |i: int| ' '));
        lemma_spaces_width((n - 1) as nat);
    }
}

/// Padding reaches the target display width, and keeps a text that is
/// already as wide or wider.
pub proof fn lemma_padded_width(s: Seq<char>, target: nat)
    ensures
        text_width(padded(s, target)) == if text_width(s) >= target {
            text_width(s)
        } else {
            target
        },
{
    if text_width(s) < target {
        let n = (target - text_width(s)) as nat;
        lemma_text_width_add(Seq::new(n, |i: int| ' '), s);
        lemma_spaces_width(n);
    }
}

/// `s` right-aligned to display width `target`.
pub fn pad_display(s: &str, target: usize) -> (out: String)
    ensures
        out@ == padded(s@, target as nat),
{
    let w = display_width(s);
    if w >= target {
        String::from_str(s)
    } else {
        let mut out = String::new();
        let mut i: usize = 0;
        while i < target - w
            invariant
                i <= target - w,
                out@ == Seq::new(i as nat, |k: int| ' '),
            decreases target - w - i,
        {
            push_char(&mut out, ' ');
            assert(out@ == Seq::new((i + 1) as nat, |k: int| ' '));
            i += 1;
        }
        out.append(s);
        out
    }
}

/// The flame graph settings for a terminal of `term_width` columns: two
/// columns are kept free at the edge.
pub fn flame_config(term_width: usize, max_rows: usize, color: bool, show_flame: bool) -> (c: FlameConfig)
    ensures
        c.width == (if term_width >= 2 { term_width - 2 } else { 0 }),
        c.max_rows == max_rows,
        c.color == color,
        c.show_flame == show_flame,
{
    FlameConfig { width: term_width.saturating_sub(2), max_rows, color, show_flame }
}

/// The widest display width among `names` (0 for none).
pub open spec fn max_width(names: Seq<Seq<char>>) -> nat
    decreases names.len(),
{
    if names.len() == 0 {
        0
    } else {
        let m = max_width(names.drop_last());
        let w = text_width(names.last());
        if w > m {
            w
        } else {
            m
        }
    }
}

/// Width of the name column: the widest name, at most 28 columns; 8 when
/// there is no name.
pub open spec fn name_column(names: Seq<Seq<char>>) -> nat {
    if names.len() == 0 {
        8
    } else if max_width(names) < 28 {
        max_width(names)
    } else {
        28
    }
}

/// The width of the name column for the bars of `names`.
pub fn name_column_width(names: &Vec<String>) -> (w: usize)
    ensures
        w == name_column(name_views(names@)),
{
    if names.len() == 0 {
        return 8;
    }
    let ghost nv = name_views(names@);
    let mut m: usize = 0;
    let mut i: usize = 0;
    while i < names.len()
        invariant
            i <= names.len(),
            nv == name_views(names@),
            m == max_width(nv.take(i as int)),
        decreases names.len() - i,
    {
        let w = display_width(names[i].as_str());
        assert(nv.take(i + 1).drop_last() == nv.take(i as int));
        assert(nv.take(i + 1).last() == names@[i as int]@);
        if w > m {
            m = w;
        }
        i += 1;
    }
    assert(nv.take(names.len() as int) == nv);
    if m < 28 {
        m
    } else {
        28
    }
}

/// Columns left for the bars: the terminal width less the name column and
/// fourteen columns of margin and figures, and none when that is negative.
pub fn bar_area(width: usize, name_w: usize) -> (a: usize)
    requires
        name_w + 14 <= usize::MAX,
    ensures
        a == (if width >= name_w + 14 { width - name_w - 14 } else { 0 }),
{
    width.saturating_sub(name_w + 14)
}

/// The colour of bar `i` of `n`: the seven colours from hot to cold spread
/// evenly over the rows.
pub fn color_index(i: usize, n: usize) -> (c: usize)
    requires
        i * 7 <= usize::MAX,
    ensures
        c == (if (i * 7) / (if n > 1 { n as int } else { 1 }) < 6 {
            (i * 7) / (if n > 1 { n as int } else { 1 })
        } else {
            6
        }),
        c < 7,
{
    let d: usize = if n > 1 {
        n
    } else {
        1
    };
    let q = (i * 7) / d;
    if q < 6 {
        q
    } else {
        6
    }
}

/// The escape sequence of colour `c`, from bright red to blue.
pub fn bar_color(c: usize) -> (s: &'static str)
    requires
        c < 7,
    ensures
        c == 0 ==> s@ == "\x1b[91m"@,
        c == 1 ==> s@ == "\x1b[31m"@,
        c == 2 ==> s@ == "\x1b[33m"@,
        c == 3 ==> s@ == "\x1b[93m"@,
        c == 4 ==> s@ == "\x1b[32m"@,
        c == 5 ==> s@ == "\x1b[36m"@,
        c == 6 ==> s@ == "\x1b[34m"@,
{
    if c == 0 {
        "\x1b[91m"
    } else if c == 1 {
        "\x1b[31m"
    } else if c == 2 {
        "\x1b[33m"
    } else if c == 3 {
        "\x1b[93m"
    } else if c == 4 {
        "\x1b[32m"
    } else if c == 5 {
        "\x1b[36m"
    } else {
        "\x1b[34m"
    }
}

/// How many of `total` rows are left out when at most `shown` are listed.
pub fn rows_left_out(total: usize, shown: usize) -> (n: usize)
    ensures
        n == (if total > shown { total - shown } else { 0 }),
{
    if total > shown {
        total - shown
    } else {
        0
    }
}

} // verus!
