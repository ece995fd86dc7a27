//! A writer that accumulates formatted code line by line with indentation.

use super::config::FormatConfig;
use super::repeat;
use crate::text::push_char;
use vstd::prelude::*;

verus! {

/// Number of bytes of the UTF-8 encoding of `s` (`str::len`).
pub open spec fn utf8_len(s: Seq<char>) -> nat {
    vstd::utf8::encode_utf8(s).len()
}

/// Accumulates code text; indentation is written at the start of each line.
pub struct CodeWriter {
    buffer: String,
    indent_level: usize,
    config: FormatConfig,
    at_line_start: bool,
    current_line_length: usize,
}

impl CodeWriter {
    /// The text written so far.
    pub closed spec fn buffer(&self) -> Seq<char> {
        self.buffer@
    }

    /// The current indentation level.
    pub closed spec fn level(&self) -> nat {
        self.indent_level as nat
    }

    /// The configuration.
    pub closed spec fn cfg(&self) -> FormatConfig {
        self.config
    }

    /// Nothing has been written on the current line yet.
    pub closed spec fn at_start(&self) -> bool {
        self.at_line_start
    }

    /// Bytes written on the current line, indentation included.
    pub closed spec fn line_len(&self) -> nat {
        self.current_line_length as nat
    }

    /// The indentation written at the start of a line.
    pub open spec fn indent_seq(&self) -> Seq<char> {
        repeat(self.cfg().indent_chars(), self.level())
    }

    /// Writing `text` starts a line: the writer is at the start of a line and
    /// `text` is neither empty nor a lone line feed.
    pub open spec fn starts_line(&self, text: Seq<char>) -> bool {
        self.at_start() && text.len() > 0 && text != seq!['\n']
    }

    /// Bytes that writing `text` adds to the current line.
    pub open spec fn write_cost(&self, text: Seq<char>) -> nat {
        (if self.starts_line(text) {
            utf8_len(self.indent_seq())
        } else {
            0
        }) + utf8_len(text)
    }

    /// Whether the current line can still take `text`: its length stays within
    /// a `usize`.
    pub open spec fn fits(&self, text: Seq<char>) -> bool {
        self.line_len() + self.write_cost(text) <= usize::MAX
    }

    /// `after` is `self` with `text` written (and the indentation before it
    /// when it starts a line).
    pub open spec fn wrote(&self, text: Seq<char>, after: CodeWriter) -> bool {
        &&& after.buffer() == self.buffer() + (if self.starts_line(text) {
            self.indent_seq()
        } else {
            Seq::<char>::empty()
        }) + text
        &&& after.line_len() == self.line_len() + self.write_cost(text)
        &&& after.at_start() == (self.at_start() && !self.starts_line(text))
        &&& after.level() == self.level()
        &&& after.cfg() == self.cfg()
    }

    /// `after` is `self` with the current line ended.
    pub open spec fn ended_line(&self, after: CodeWriter) -> bool {
        &&& after.buffer() == self.buffer().push('\n')
        &&& after.at_start()
        &&& after.line_len() == 0
        &&& after.level() == self.level()
        &&& after.cfg() == self.cfg()
    }

    /// `after` is `self` one indentation level deeper.
    pub open spec fn deeper(&self, after: CodeWriter) -> bool {
        &&& after.level() == self.level() + 1
        &&& after.buffer() == self.buffer()
        &&& after.at_start() == self.at_start()
        &&& after.line_len() == self.line_len()
        &&& after.cfg() == self.cfg()
    }

    /// `after` is `self` one indentation level shallower (or still at zero).
    pub open spec fn shallower(&self, after: CodeWriter) -> bool {
        &&& after.level() == (if self.level() > 0 {
            (self.level() - 1) as nat
        } else {
            0
        })
        &&& after.buffer() == self.buffer()
        &&& after.at_start() == self.at_start()
        &&& after.line_len() == self.line_len()
        &&& after.cfg() == self.cfg()
    }

    /// A writer with nothing written, at indentation level zero.
    pub fn new(config: FormatConfig) -> (w: Self)
        ensures
            w.buffer() == Seq::<char>::empty(),
            w.level() == 0,
            w.cfg() == config,
            w.at_start(),
            w.line_len() == 0,
    {
        CodeWriter {
            buffer: String::new(),
            indent_level: 0,
            config,
            at_line_start: true,
            current_line_length: 0,
        }
    }

    /// Writes `text`, preceded by the indentation when it starts a line.
    /// Fails, writing nothing, only when the length of the current line would
    /// no longer fit in a `usize`.
    pub fn write(&mut self, text: &str) -> (r: Result<(), String>)
        ensures
            r is Ok <==> old(self).fits(text@),
            r is Ok ==> old(self).wrote(text@, *final(self)),
            r is Err ==> *final(self) == *old(self),
    {
        let lone_newline = text.unicode_len() == 1 && text.get_char(0) == '\n';
        proof {
            if text@.len() == 1 && text@[0] == '\n' {
                assert(text@ == seq!['\n']);
            }
        }
        let starts = self.at_line_start && !text.is_empty() && !lone_newline;
        let indent = if starts {
            self.indent_string()
        } else {
            String::new()
        };
        let indent_len = indent.as_str().as_bytes().len();
        let text_len = text.as_bytes().len();
        assert(starts == old(self).starts_line(text@));
        assert(utf8_len(Seq::<char>::empty()) == 0);
        assert(indent_len == if starts { utf8_len(old(self).indent_seq()) } else { 0 });
        assert(text_len == utf8_len(text@));
        if indent_len > usize::MAX - self.current_line_length || text_len > usize::MAX
            - self.current_line_length - indent_len {
            return Err(String::from_str("行长度超出 usize 范围"));
        }
        if starts {
            self.buffer.append(indent.as_str());
            self.current_line_length = self.current_line_length + indent_len;
            self.at_line_start = false;
        }
        self.buffer.append(text);
        self.current_line_length = self.current_line_length + text_len;
        proof {
            if !starts {
                assert(old(self).buffer() + Seq::<char>::empty() == old(self).buffer());
            }
        }
        Ok(())
    }

    /// The indentation of the current level.
    fn indent_string(&self) -> (s: String)
        ensures
            s@ == self.indent_seq(),
    {
        let unit = self.config.indent_str();
        let mut s = String::new();
        let mut j: usize = 0;
        while j < self.indent_level
            invariant
                j <= self.indent_level,
                unit@ == self.config.indent_chars(),
                s@ == repeat(self.config.indent_chars(), j as nat),
            decreases self.indent_level - j,
        {
            s.append(unit.as_str());
            j += 1;
        }
        s
    }

    /// Ends the current line.
    pub fn newline(&mut self) -> (r: Result<(), String>)
        ensures
            r is Ok,
            old(self).ended_line(*final(self)),
    {
        push_char(&mut self.buffer, '\n');
        self.at_line_start = true;
        self.current_line_length = 0;
        Ok(())
    }

    /// Ends the current line if something was written on it, then writes an
    /// empty line.
    pub fn blank_line(&mut self) -> (r: Result<(), String>)
        ensures
            r is Ok,
            final(self).buffer() == if old(self).at_start() {
                old(self).buffer().push('\n')
            } else {
                old(self).buffer().push('\n').push('\n')
            },
            final(self).at_start(),
            final(self).line_len() == 0,
            final(self).level() == old(self).level(),
            final(self).cfg() == old(self).cfg(),
    {
        if !self.at_line_start {
            self.newline()?;
        }
        push_char(&mut self.buffer, '\n');
        self.at_line_start = true;
        self.current_line_length = 0;
        Ok(())
    }

    /// One indentation level deeper.
    pub fn indent(&mut self)
        requires
            old(self).level() < usize::MAX,
        ensures
            old(self).deeper(*final(self)),
    {
        self.indent_level = self.indent_level + 1;
    }

    /// One indentation level shallower; nothing changes at level zero.
    pub fn dedent(&mut self)
        ensures
            old(self).shallower(*final(self)),
    {
        if self.indent_level > 0 {
            self.indent_level = self.indent_level - 1;
        }
    }

    /// The text written.
    pub fn finish(self) -> (s: String)
        ensures
            s@ == self.buffer(),
    {
        self.buffer
    }

    /// Bytes written on the current line.
    pub fn current_line_len(&self) -> (n: usize)
        ensures
            n == self.line_len(),
    {
        self.current_line_length
    }

    /// Whether `additional` more bytes would take the current line past the
    /// maximum width.
    pub fn would_exceed_max_width(&self, additional: usize) -> (b: bool)
        ensures
            b == (self.line_len() + additional > self.cfg().max_width),
    {
        additional > self.config.max_width || self.current_line_length > self.config.max_width
            - additional
    }

    /// Where the call for item `i` of a list starts: from `t` itself for the
    /// first item, from `t` with the separator written for the others.
    pub open spec fn list_item_start(t: CodeWriter, i: int, separator: Seq<char>, s: CodeWriter) -> bool {
        if i == 0 {
            s == t
        } else {
            t.wrote(separator, s)
        }
    }

    /// Writes the items with `writer_fn`, with `separator` written between
    /// consecutive items; stops at the first error and returns it.
    ///
    /// The contract follows the writer through its states: `t[i]` before item
    /// `i` (`t[0]` on entry), `s[i]` where the call of `writer_fn` for item `i`
    /// starts (after the separator, for all but the first item); that call
    /// ends in `t[i + 1]`.
    #[verifier::rlimit(30)]
    pub fn write_list<T, F>(&mut self, items: &[T], separator: &str, writer_fn: F) -> (r: Result<
        (),
        String,
    >) where F: Fn(&mut Self, &T) -> Result<(), String>
        requires
            forall|w: &mut Self, t: &T| writer_fn.requires((w, t)),
        ensures
            items@.len() == 0 ==> r is Ok && *final(self) == *old(self),
            r is Ok ==> exists|t: Seq<CodeWriter>, s: Seq<CodeWriter>|
                #![trigger t.len(), s.len()]
                {
                    &&& t.len() == items@.len() + 1
                    &&& s.len() == items@.len()
                    &&& t[0] == *old(self)
                    &&& t.last() == *final(self)
                    &&& forall|i: int|
                        0 <= i < s.len() ==> Self::list_item_start(t[i], i, separator@, #[trigger] s[i])
                    &&& forall|i: int|
                        0 <= i < s.len() ==> exists|w: &mut CodeWriter|
                            *w == #[trigger] s[i] && *final(w) == t[i + 1] && writer_fn.ensures((w, &items@[i]), Ok::<(), String>(()))
                },
            r is Err ==> exists|t: Seq<CodeWriter>, s: Seq<CodeWriter>|
                #![trigger t.len(), s.len()]
                {
                    &&& 1 <= t.len() <= items@.len()
                    &&& t.len() - 1 <= s.len() <= t.len()
                    &&& t[0] == *old(self)
                    &&& forall|i: int|
                        0 <= i < s.len() ==> Self::list_item_start(t[i], i, separator@, #[trigger] s[i])
                    &&& forall|i: int|
                        0 <= i < t.len() - 1 ==> exists|w: &mut CodeWriter|
                            *w == #[trigger] s[i] && *final(w) == t[i + 1] && writer_fn.ensures((w, &items@[i]), Ok::<(), String>(()))
                    &&& (if s.len() < t.len() {
                        &&& t.len() > 1
                        &&& !t.last().fits(separator@)
                        &&& *final(self) == t.last()
                    } else {
                        exists|w: &mut CodeWriter|
                            {
                                &&& *w == s.last()
                                &&& *final(w) == *final(self)
                                &&& writer_fn.ensures((w, &items@[s.len() - 1]), r)
                            }
                    })
                },
    {
        let ghost mut t: Seq<CodeWriter> = seq![*self];
        let ghost mut s: Seq<CodeWriter> = Seq::empty();
        let mut i: usize = 0;
        while i < items.len()
            invariant
                i <= items.len(),
                forall|w: &mut Self, t: &T| writer_fn.requires((w, t)),
                t.len() == i + 1,
                s.len() == i,
                t[0] == *old(self),
                t[i as int] == *self,
                forall|k: int|
                    0 <= k < s.len() ==> Self::list_item_start(t[k], k, separator@, #[trigger] s[k]),
                forall|k: int|
                    0 <= k < i ==> exists|w: &mut CodeWriter|
                        *w == #[trigger] s[k] && *final(w) == t[k + 1] && writer_fn.ensures((w, &items@[k]), Ok::<(), String>(())),
            decreases items.len() - i,
        {
            let ghost s0 = s;
            if i > 0 {
                match self.write(separator) {
                    Ok(()) => {},
                    Err(e) => {
                        assert(!t.last().fits(separator@));
                        assert(*self == t.last());
                        return Err(e);
                    },
                }
            }
            let ghost before = *self;
            proof {
                s = s.push(before);
                assert forall|k: int| 0 <= k < s.len() implies Self::list_item_start(t[k], k, separator@, #[trigger] s[k]) by {
                    if k < i {
                        assert(s[k] == s0[k]);
                    }
                }
                assert(Self::list_item_start(t[i as int], i as int, separator@, s[i as int]));
            }
            let res = call_item(self, &items[i], &writer_fn);
            if let Err(e) = res {
                assert(s.last() == before);
                assert(exists|w: &mut CodeWriter|
                    *w == s.last() && *final(w) == *self && writer_fn.ensures((w, &items@[s.len() - 1]), res));
                return Err(e);
            }
            proof {
                assert(res->Ok_0 == ());
                let old_t = t;
                t = t.push(*self);
                assert forall|k: int| 0 <= k < i implies #[trigger] s[k] == s0[k] && t[k + 1] == old_t[k + 1] by {}
            }
            i += 1;
        }
        assert(t.last() == *self);
        assert(t.len() == items@.len() + 1 && s.len() == items@.len() && t[0] == *old(self));
        Ok(())
    }

    /// Where the call for item `i` of an inline list starts: from `t` itself
    /// for the first item, otherwise from `t` with the separator and a space
    /// written.
    pub open spec fn inline_item_start(t: CodeWriter, i: int, separator: Seq<char>, s: CodeWriter) -> bool {
        if i == 0 {
            s == t
        } else {
            exists|m: CodeWriter| #[trigger] t.wrote(separator, m) && m.wrote(" "@, s)
        }
    }

    /// Writing the separator and the space after `t` failed and left the
    /// writer as `f`: the separator did not fit, or the space after it.
    pub open spec fn inline_separator_failed(t: CodeWriter, separator: Seq<char>, f: CodeWriter) -> bool {
        ||| (!t.fits(separator) && f == t)
        ||| exists|m: CodeWriter| #[trigger] t.wrote(separator, m) && !m.fits(" "@) && f == m
    }

    /// `t` is `o` with its line ended and one level deeper.
    pub open spec fn opened_block(o: CodeWriter, t: CodeWriter) -> bool {
        exists|a: CodeWriter| #[trigger] o.ended_line(a) && a.deeper(t)
    }

    /// `next` is `u` with the separator written (when `with_separator`) and
    /// the line ended.
    pub open spec fn item_line_end(u: CodeWriter, with_separator: bool, separator: Seq<char>, next: CodeWriter) -> bool {
        exists|v: CodeWriter|
            #![trigger v.ended_line(next)]
            (if with_separator {
                u.wrote(separator, v)
            } else {
                v == u
            }) && v.ended_line(next)
    }

    /// Writes the items with `writer_fn`. On several lines, one item per line
    /// one level deeper, each followed by `separator` (the last one only with a
    /// trailing comma configured), when `force_multiline` is set or there are
    /// more than five items; otherwise on the current line, separated by
    /// `separator` and a space. Nothing is written for no items. Stops at the
    /// first error and returns it.
    ///
    /// On one line, the contract follows the writer as for `write_list`: `t[i]`
    /// before item `i`, `s[i]` where its call of `writer_fn` starts. On several
    /// lines, `t[i]` is where the call for item `i` starts (`t[0]` after the
    /// line feed and the deeper indentation) and `u[i]` where it ends; the
    /// separator and the line feed then lead to `t[i + 1]`, and the writer ends
    /// one level shallower than `t[n]`.
    #[verifier::rlimit(60)]
    pub fn write_multiline_list<T, F>(
        &mut self,
        items: &[T],
        separator: &str,
        force_multiline: bool,
        writer_fn: F,
    ) -> (r: Result<(), String>) where F: Fn(&mut Self, &T) -> Result<(), String>
        requires
            forall|w: &mut Self, t: &T| writer_fn.requires((w, t)),
            old(self).level() < usize::MAX,
        ensures
            items@.len() == 0 ==> r is Ok && *final(self) == *old(self),
            items@.len() > 0 && !(force_multiline || items@.len() > 5) && r is Ok ==> exists|
                t: Seq<CodeWriter>,
                s: Seq<CodeWriter>,
            |
                #![trigger t.len(), s.len()]
                {
                    &&& t.len() == items@.len() + 1
                    &&& s.len() == items@.len()
                    &&& t[0] == *old(self)
                    &&& t.last() == *final(self)
                    &&& forall|i: int|
                        0 <= i < s.len() ==> Self::inline_item_start(t[i], i, separator@, #[trigger] s[i])
                    &&& forall|i: int|
                        0 <= i < s.len() ==> exists|w: &mut CodeWriter|
                            *w == #[trigger] s[i] && *final(w) == t[i + 1] && writer_fn.ensures((w, &items@[i]), Ok::<(), String>(()))
                },
            items@.len() > 0 && !(force_multiline || items@.len() > 5) && r is Err ==> exists|
                t: Seq<CodeWriter>,
                s: Seq<CodeWriter>,
            |
                #![trigger t.len(), s.len()]
                {
                    &&& 1 <= t.len() <= items@.len()
                    &&& t.len() - 1 <= s.len() <= t.len()
                    &&& t[0] == *old(self)
                    &&& forall|i: int|
                        0 <= i < s.len() ==> Self::inline_item_start(t[i], i, separator@, #[trigger] s[i])
                    &&& forall|i: int|
                        0 <= i < t.len() - 1 ==> exists|w: &mut CodeWriter|
                            *w == #[trigger] s[i] && *final(w) == t[i + 1] && writer_fn.ensures((w, &items@[i]), Ok::<(), String>(()))
                    &&& (if s.len() < t.len() {
                        &&& t.len() > 1
                        &&& Self::inline_separator_failed(t.last(), separator@, *final(self))
                    } else {
                        exists|w: &mut CodeWriter|
                            *w == s.last() && *final(w) == *final(self) && writer_fn.ensures((w, &items@[s.len() - 1]), r)
                    })
                },
            items@.len() > 0 && (force_multiline || items@.len() > 5) && r is Ok ==> exists|
                t: Seq<CodeWriter>,
                u: Seq<CodeWriter>,
            |
                #![trigger t.len(), u.len()]
                {
                    &&& t.len() == items@.len() + 1
                    &&& u.len() == items@.len()
                    &&& Self::opened_block(*old(self), t[0])
                    &&& t.last().shallower(*final(self))
                    &&& forall|i: int|
                        0 <= i < u.len() ==> exists|w: &mut CodeWriter|
                            *w == t[i] && *final(w) == #[trigger] u[i] && writer_fn.ensures((w, &items@[i]), Ok::<(), String>(()))
                    &&& forall|i: int|
                        0 <= i < u.len() ==> Self::item_line_end(
                            #[trigger] u[i],
                            i < items@.len() - 1 || u[i].cfg().trailing_comma,
                            separator@,
                            t[i + 1],
                        )
                },
            items@.len() > 0 && (force_multiline || items@.len() > 5) && r is Err ==> exists|
                t: Seq<CodeWriter>,
                u: Seq<CodeWriter>,
            |
                #![trigger t.len(), u.len()]
                {
                    &&& 1 <= t.len() <= items@.len()
                    &&& t.len() - 1 <= u.len() <= t.len()
                    &&& Self::opened_block(*old(self), t[0])
                    &&& forall|i: int|
                        0 <= i < u.len() ==> exists|w: &mut CodeWriter|
                            *w == t[i] && *final(w) == #[trigger] u[i] && writer_fn.ensures((w, &items@[i]), Ok::<(), String>(()))
                    &&& forall|i: int|
                        0 <= i < t.len() - 1 ==> Self::item_line_end(
                            #[trigger] u[i],
                            i < items@.len() - 1 || u[i].cfg().trailing_comma,
                            separator@,
                            t[i + 1],
                        )
                    &&& (if u.len() < t.len() {
                        exists|w: &mut CodeWriter|
                            *w == t.last() && *final(w) == *final(self) && writer_fn.ensures((w, &items@[t.len() - 1]), r)
                    } else {
                        &&& (t.len() - 1 < items@.len() - 1 || u.last().cfg().trailing_comma)
                        &&& !u.last().fits(separator@)
                        &&& *final(self) == u.last()
                    })
                },
    {
        if items.len() == 0 {
            return Ok(());
        }
        let multiline = force_multiline || items.len() > 5;
        if multiline {
            let ghost o = *self;
            self.newline()?;
            let ghost a = *self;
            self.indent();
            assert(o.ended_line(a) && a.deeper(*self));
            let ghost mut t: Seq<CodeWriter> = seq![*self];
            let ghost mut u: Seq<CodeWriter> = Seq::empty();
            let mut i: usize = 0;
            while i < items.len()
                invariant
                    i <= items.len(),
                    forall|w: &mut Self, t: &T| writer_fn.requires((w, t)),
                    t.len() == i + 1,
                    u.len() == i,
                    items@.len() > 0,
                    force_multiline || items@.len() > 5,
                    Self::opened_block(o, t[0]),
                    o == *old(self),
                    t[i as int] == *self,
                    forall|k: int|
                        0 <= k < i ==> exists|w: &mut CodeWriter|
                            *w == #[trigger] t[k] && *final(w) == u[k] && writer_fn.ensures((w, &items@[k]), Ok::<(), String>(())),
                    forall|k: int|
                        0 <= k < i ==> Self::item_line_end(
                            #[trigger] u[k],
                            k < items@.len() - 1 || u[k].cfg().trailing_comma,
                            separator@,
                            t[k + 1],
                        ),
                decreases items.len() - i,
            {
                let ghost u0 = u;
                let ghost t0 = t;
                let res = call_item(self, &items[i], &writer_fn);
                if let Err(e) = res {
                    assert(exists|w: &mut CodeWriter|
                        *w == t.last() && *final(w) == *self && writer_fn.ensures((w, &items@[t.len() - 1]), res));
                    return Err(e);
                }
                proof {
                    assert(res->Ok_0 == ());
                    assert(res == Ok::<(), String>(()));
                    u = u.push(*self);
                    assert forall|k: int| 0 <= k < i implies #[trigger] u[k] == u0[k] by {}
                    assert(exists|w: &mut CodeWriter|
                        *w == t[i as int] && *final(w) == u[i as int] && writer_fn.ensures((w, &items@[i as int]), Ok::<(), String>(())));
                }
                let ghost after_call = *self;
                let with_separator = i < items.len() - 1 || self.config.trailing_comma;
                if with_separator {
                    match self.write(separator) {
                        Ok(()) => {},
                        Err(e) => {
                            assert(u.last() == after_call);
                            return Err(e);
                        },
                    }
                }
                let ghost v = *self;
                self.newline()?;
                proof {
                    t = t.push(*self);
                    assert(Self::item_line_end(u[i as int], with_separator, separator@, t[i + 1])) by {
                        assert(v.ended_line(t[i + 1]));
                    }
                    assert forall|k: int| 0 <= k < i implies #[trigger] u[k] == u0[k] && t[k + 1] == t0[k + 1] && t[k] == t0[k] by {}
                    assert(t[i as int] == t0[i as int]);
                    assert forall|k: int|
                        0 <= k < i + 1 implies exists|w: &mut CodeWriter|
                            *w == #[trigger] t[k] && *final(w) == u[k] && writer_fn.ensures((w, &items@[k]), Ok::<(), String>(())) by {
                        if k < i {
                            assert(u[k] == u0[k] && t[k] == t0[k]);
                            assert(u0[k] == u0[k]);
                        }
                    }
                }
                i += 1;
            }
            let ghost last = *self;
            self.dedent();
            assert(t.last() == last);
        } else {
            let ghost mut t: Seq<CodeWriter> = seq![*self];
            let ghost mut s: Seq<CodeWriter> = Seq::empty();
            let mut i: usize = 0;
            while i < items.len()
                invariant
                    i <= items.len(),
                    forall|w: &mut Self, t: &T| writer_fn.requires((w, t)),
                    t.len() == i + 1,
                    s.len() == i,
                    items@.len() > 0,
                    !(force_multiline || items@.len() > 5),
                    t[0] == *old(self),
                    t[i as int] == *self,
                    forall|k: int|
                        0 <= k < s.len() ==> Self::inline_item_start(t[k], k, separator@, #[trigger] s[k]),
                    forall|k: int|
                        0 <= k < i ==> exists|w: &mut CodeWriter|
                            *w == #[trigger] s[k] && *final(w) == t[k + 1] && writer_fn.ensures((w, &items@[k]), Ok::<(), String>(())),
                decreases items.len() - i,
            {
                let ghost s0 = s;
                if i > 0 {
                    let ghost t_i = *self;
                    match self.write(separator) {
                        Ok(()) => {},
                        Err(e) => {
                            assert(Self::inline_separator_failed(t.last(), separator@, *self));
                            return Err(e);
                        },
                    }
                    let ghost m = *self;
                    match self.write(" ") {
                        Ok(()) => {},
                        Err(e) => {
                            assert(t_i.wrote(separator@, m));
                            assert(Self::inline_separator_failed(t.last(), separator@, *self));
                            return Err(e);
                        },
                    }
                    assert(t_i.wrote(separator@, m) && m.wrote(" "@, *self));
                }
                let ghost before = *self;
                proof {
                    s = s.push(before);
                    assert forall|k: int| 0 <= k < s.len() implies Self::inline_item_start(t[k], k, separator@, #[trigger] s[k]) by {
                        if k < i {
                            assert(s[k] == s0[k]);
                        }
                    }
                }
                let res = call_item(self, &items[i], &writer_fn);
                if let Err(e) = res {
                    assert(s.last() == before);
                    assert(exists|w: &mut CodeWriter|
                        *w == s.last() && *final(w) == *self && writer_fn.ensures((w, &items@[s.len() - 1]), res));
                    return Err(e);
                }
                proof {
                    assert(res->Ok_0 == ());
                    let old_t = t;
                    t = t.push(*self);
                    assert forall|k: int| 0 <= k < i implies #[trigger] s[k] == s0[k] && t[k + 1] == old_t[k + 1] by {}
                }
                i += 1;
            }
            assert(t.last() == *self);
        }
        Ok(())
    }
}

/// Calls `f` on the writer and `item`.
fn call_item<T, F>(w: &mut CodeWriter, item: &T, f: &F) -> (r: Result<(), String>) where
    F: Fn(&mut CodeWriter, &T) -> Result<(), String>,
    requires
        forall|x: &mut CodeWriter, t: &T| f.requires((x, t)),
    ensures
        exists|x: &mut CodeWriter| *x == *old(w) && *final(x) == *final(w) && f.ensures((x, item), r),
{
    f(w, item)
}

} // verus!
