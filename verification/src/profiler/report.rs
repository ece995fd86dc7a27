//! Report text helpers: colour escapes and name truncation by display width.

use super::flame::{char_width, text_width};
use crate::text::push_char;
use vstd::prelude::*;

verus! {

/// Bold, reset and dim escape sequences, or three empty strings without colour.
pub fn ansi(color: bool) -> (r: (&'static str, &'static str, &'static str))
    ensures
        color ==> r.0@ == "\x1b[1m"@ && r.1@ == "\x1b[0m"@ && r.2@ == "\x1b[2m"@,
        !color ==> r.0@.len() == 0 && r.1@.len() == 0 && r.2@.len() == 0,
{
    if color {
        ("\x1b[1m", "\x1b[0m", "\x1b[2m")
    } else {
        proof {
            reveal_strlit("");
        }
        ("", "", "")
    }
}

/// The longest prefix of `cs` (from position `i`, `w` columns already used)
/// that fits in `max` columns, followed by `..` when characters were cut.
pub open spec fn truncated_from(cs: Seq<char>, i: int, w: nat, max: nat) -> Seq<char>
    decreases cs.len() - i,
{
    if i < 0 || i >= cs.len() {
        Seq::empty()
    } else if w + char_width(cs[i]) > max {
        seq!['.', '.']
    } else {
        seq![cs[i]] + truncated_from(cs, i + 1, w + char_width(cs[i]), max)
    }
}

/// `name` cut to at most `max_display` columns, marked with `..` when cut.
pub fn truncate_name(name: &str, max_display: usize) -> (s: String)
    ensures
        s@ == truncated_from(name@, 0, 0, max_display as nat),
{
    let cs = crate::text::to_chars(name);
    let mut w: usize = 0;
    let mut s = String::new();
    let mut i: usize = 0;
    let mut done = false;
    while i < cs.len() && !done
        invariant
            i <= cs@.len(),
            cs@ == name@,
            w <= max_display,
            if done {
                s@ == truncated_from(name@, 0, 0, max_display as nat)
            } else {
                s@ + truncated_from(name@, i as int, w as nat, max_display as nat)
                    == truncated_from(name@, 0, 0, max_display as nat)
            },
        decreases cs.len() - i, (if done { 0int } else { 1int }),
    {
        let ch = cs[i];
        let cw: usize = if (ch as u32) < 0x80 {
            1
        } else {
            2
        };
        if cw > max_display - w {
            push_char(&mut s, '.');
            push_char(&mut s, '.');
            done = true;
        } else {
            w = w + cw;
            push_char(&mut s, ch);
            i += 1;
        }
    }
    proof {
        if !done {
            assert(s@ + Seq::<char>::empty() == s@);
        }
    }
    s
}

proof fn lemma_truncated_from(cs: Seq<char>, i: int, w: nat, max: nat)
    requires
        0 <= i <= cs.len(),
        w <= max,
    ensures
        w + text_width(cs.skip(i)) <= max ==> truncated_from(cs, i, w, max) == cs.skip(i),
        w + text_width(truncated_from(cs, i, w, max)) <= max + 2,
    decreases cs.len() - i,
{
    if i < cs.len() {
        assert(cs.skip(i).drop_first() == cs.skip(i + 1));
        assert(cs.skip(i)[0] == cs[i]);
        if w + char_width(cs[i]) <= max {
            lemma_truncated_from(cs, i + 1, w + char_width(cs[i]), max);
            let rest = truncated_from(cs, i + 1, w + char_width(cs[i]), max);
            assert((seq![cs[i]] + rest).drop_first() == rest);
            assert((seq![cs[i]] + rest)[0] == cs[i]);
            if w + text_width(cs.skip(i)) <= max {
                assert(seq![cs[i]] + cs.skip(i + 1) == cs.skip(i));
            }
        } else {
            reveal_with_fuel(text_width, 3);
            assert(seq!['.', '.'].drop_first() == seq!['.']);
            assert(seq!['.'].drop_first() == Seq::<char>::empty());
        }
    } else {
        assert(cs.skip(i).len() == 0);
    }
}

/// A name that fits in `max_display` columns is kept as it is; any result
/// takes at most two columns more (the `..` that marks a cut).
pub proof fn lemma_truncate_name(name: Seq<char>, max_display: nat)
    ensures
        text_width(name) <= max_display ==> truncated_from(name, 0, 0, max_display) == name,
        text_width(truncated_from(name, 0, 0, max_display)) <= max_display + 2,
{
    lemma_truncated_from(name, 0, 0, max_display);
    assert(name.skip(0) == name);
}

} // verus!
