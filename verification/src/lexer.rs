//! The lexer: wraps the whole input text, pulls physical lines on demand,
//! feeds them to the tokenizer, and tracks a 1-based line counter that
//! advances exactly once for every physical line actually read.

use vstd::prelude::*;

use crate::error::{ParseError, ParseErrorView};
use crate::text::chars_to_string;
use crate::tokens::{token_next, Tokens, TokensView};

verus! {

/// Mathematical model of a [`Lexer`]: the whole input, how much of it has
/// been read (`pos`), the tokenizer over the current line, and the number of
/// physical lines read so far (`lnum`).
pub ghost struct LexerView {
    pub input: Seq<char>,
    pub pos: int,
    pub line: TokensView,
    pub lnum: int,
}

/// The read position and the line cursor stay in bounds, and no more lines
/// can have been counted than characters consumed.
pub open spec fn lexer_wf(lx: LexerView) -> bool {
    &&& 0 <= lx.pos <= lx.input.len()
    &&& 0 <= lx.line.cur <= lx.line.buf.len()
    &&& 0 <= lx.lnum <= lx.pos
}

/// How much input is still unconsumed: unread characters plus the rest of the
/// current line. Every word handed out strictly shrinks it.
pub open spec fn lex_measure(lx: LexerView) -> int {
    (lx.input.len() - lx.pos) + (lx.line.buf.len() - lx.line.cur)
}

/// The index just past the physical line starting at `pos`: one past its
/// terminating newline, or the end of the input for an unterminated line.
pub open spec fn line_end(input: Seq<char>, pos: int) -> int
    decreases input.len() - pos,
    when 0 <= pos <= input.len()
{
    if pos >= input.len() {
        pos
    } else if input[pos] == '\n' {
        pos + 1
    } else {
        line_end(input, pos + 1)
    }
}

pub proof fn lemma_line_end_bounds(input: Seq<char>, pos: int)
    requires
        0 <= pos <= input.len(),
    ensures
        pos <= line_end(input, pos) <= input.len(),
        pos < input.len() ==> pos + 1 <= line_end(input, pos),
    decreases input.len() - pos,
{
    if pos < input.len() && input[pos] != '\n' {
        lemma_line_end_bounds(input, pos + 1);
    }
}

/// A tokenizer over an empty line: what the lexer holds at end of input.
pub open spec fn empty_tokens() -> TokensView {
    TokensView { buf: Seq::<char>::empty(), cur: 0 }
}

/// The lexer state after reading the next physical line and handing it to a
/// fresh tokenizer.
pub open spec fn refilled(lx: LexerView) -> LexerView {
    let e = line_end(lx.input, lx.pos);
    LexerView {
        input: lx.input,
        pos: e,
        line: TokensView { buf: lx.input.subrange(lx.pos, e), cur: 0 },
        lnum: lx.lnum + 1,
    }
}

/// What one call of [`Lexer::next_word`] returns and leaves behind: the next
/// word of the current line, refilling across line boundaries until the next
/// word or the end of the input.
pub open spec fn lex_next_word(lx: LexerView) -> (Option<Seq<char>>, LexerView)
    decreases lx.input.len() - lx.pos,
    when lexer_wf(lx)
    via lex_next_word_decreases
{
    let r = token_next(lx.line);
    match r.0 {
        Some(w) => (
            Some(w),
            LexerView { input: lx.input, pos: lx.pos, line: r.1, lnum: lx.lnum },
        ),
        None => {
            if lx.pos >= lx.input.len() {
                (
                    None,
                    LexerView { input: lx.input, pos: lx.pos, line: empty_tokens(), lnum: lx.lnum },
                )
            } else {
                lex_next_word(refilled(lx))
            }
        },
    }
}

#[via_fn]
proof fn lex_next_word_decreases(lx: LexerView) {
    if lexer_wf(lx) && lx.pos < lx.input.len() {
        lemma_line_end_bounds(lx.input, lx.pos);
    }
}

/// `lex_next_word` keeps the input, keeps the state well-formed, never grows
/// the unconsumed measure, and strictly shrinks it when it yields a word.
pub proof fn lemma_next_word_props(lx: LexerView)
    requires
        lexer_wf(lx),
    ensures
        ({
            let (t, lx2) = lex_next_word(lx);
            &&& lexer_wf(lx2)
            &&& lx2.input == lx.input
            &&& lex_measure(lx2) <= lex_measure(lx)
            &&& (t is Some ==> lex_measure(lx2) < lex_measure(lx))
            &&& lx.lnum <= lx2.lnum
            &&& lx.pos <= lx2.pos
        }),
    decreases lx.input.len() - lx.pos,
{
    crate::tokens::lemma_skip_ws_bounds(lx.line.buf, lx.line.cur);
    let i = crate::tokens::skip_ws(lx.line.buf, lx.line.cur);
    if i < lx.line.buf.len() {
        crate::tokens::lemma_word_end_bounds(lx.line.buf, i);
        assert(crate::tokens::word_end(lx.line.buf, i)
            == crate::tokens::word_end(lx.line.buf, i + 1));
    } else {
        if lx.pos < lx.input.len() {
            lemma_line_end_bounds(lx.input, lx.pos);
            lemma_next_word_props(refilled(lx));
        }
    }
}

/// The raw-block capture used for macro bodies: starting from `acc` (the rest
/// of the current line), whole physical lines are appended, line terminators
/// included, until a line of at most one character (an empty or newline-only
/// line) is read or the input is exhausted; that final short line is itself
/// part of the captured text. Returns the captured text, the new read
/// position, and the new line count.
pub open spec fn capture(input: Seq<char>, pos: int, acc: Seq<char>, lnum: int) -> (
    Seq<char>,
    int,
    int,
)
    decreases input.len() - pos,
    when 0 <= pos <= input.len()
    via capture_decreases
{
    let e = line_end(input, pos);
    let acc2 = acc + input.subrange(pos, e);
    let lnum2 = if e > pos {
        lnum + 1
    } else {
        lnum
    };
    if e - pos <= 1 {
        (acc2, e, lnum2)
    } else {
        capture(input, e, acc2, lnum2)
    }
}

#[via_fn]
proof fn capture_decreases(input: Seq<char>, pos: int, acc: Seq<char>, lnum: int) {
    if 0 <= pos <= input.len() {
        lemma_line_end_bounds(input, pos);
    }
}

/// `capture` moves the read position forward, keeps it in bounds, and counts
/// no more new lines than characters consumed.
pub proof fn lemma_capture_props(input: Seq<char>, pos: int, acc: Seq<char>, lnum: int)
    requires
        0 <= pos <= input.len(),
        0 <= lnum <= pos,
    ensures
        ({
            let (body, pos2, lnum2) = capture(input, pos, acc, lnum);
            &&& pos <= pos2 <= input.len()
            &&& lnum <= lnum2 <= pos2
        }),
    decreases input.len() - pos,
{
    lemma_line_end_bounds(input, pos);
    let e = line_end(input, pos);
    if e - pos > 1 {
        lemma_capture_props(input, e, acc + input.subrange(pos, e), lnum + 1);
    }
}

/// The lexer over an in-memory input text.
pub struct Lexer {
    input: Vec<char>,
    pos: usize,
    line: Tokens,
    lnum: usize,
}

impl View for Lexer {
    type V = LexerView;

    closed spec fn view(&self) -> LexerView {
        LexerView { input: self.input@, pos: self.pos as int, line: self.line@, lnum: self.lnum as int }
    }
}

impl Lexer {
    pub open spec fn wf(&self) -> bool {
        lexer_wf(self@)
    }

    /// Starts lexing the given input: nothing read, line counter at zero.
    pub fn new(input: Vec<char>) -> (lx: Lexer)
        ensures
            lx@ == (LexerView { input: input@, pos: 0, line: empty_tokens(), lnum: 0 }),
            lx.wf(),
    {
        let lx = Lexer { input, pos: 0, line: Tokens::empty(), lnum: 0 };
        proof {
            assert(lx@.line.buf =~= empty_tokens().buf);
        }
        lx
    }

    /// The number of physical lines read so far; error reports carry it as
    /// the 1-based line number.
    pub fn lnum(&self) -> (n: usize)
        ensures
            n as int == self@.lnum,
    {
        self.lnum
    }

    /// Appends the next physical line (line terminator included) to `buf` and
    /// returns how many characters were read; the line counter advances
    /// exactly once when anything was read, and not at end of input.
    pub fn read_line(&mut self, buf: &mut Vec<char>) -> (n: usize)
        requires
            old(self).wf(),
        ensures
            final(self).wf(),
            n as int == line_end(old(self)@.input, old(self)@.pos) - old(self)@.pos,
            final(buf)@ == old(buf)@ + old(self)@.input.subrange(
                old(self)@.pos,
                line_end(old(self)@.input, old(self)@.pos),
            ),
            final(self)@ == (LexerView {
                input: old(self)@.input,
                pos: line_end(old(self)@.input, old(self)@.pos),
                line: old(self)@.line,
                lnum: old(self)@.lnum + if n > 0 { 1int } else { 0int },
            }),
    {
        let ghost orig = self@;
        let ghost buf0 = buf@;
        let start = self.pos;
        while self.pos < self.input.len() && self.input[self.pos] != '\n'
            invariant
                orig.pos <= self@.pos <= orig.input.len(),
                self@.input == orig.input,
                self@.line == orig.line,
                self@.lnum == orig.lnum,
                start as int == orig.pos,
                line_end(orig.input, orig.pos) == line_end(self@.input, self@.pos),
                buf@ == buf0 + orig.input.subrange(orig.pos, self@.pos),
            decreases self.input.len() - self.pos,
        {
            buf.push(self.input[self.pos]);
            proof {
                assert(orig.input.subrange(orig.pos, self@.pos + 1)
                    =~= orig.input.subrange(orig.pos, self@.pos).push(orig.input[self@.pos]));
            }
            self.pos = self.pos + 1;
        }
        if self.pos < self.input.len() {
            buf.push(self.input[self.pos]);
            proof {
                assert(orig.input.subrange(orig.pos, self@.pos + 1)
                    =~= orig.input.subrange(orig.pos, self@.pos).push(orig.input[self@.pos]));
            }
            self.pos = self.pos + 1;
        }
        proof {
            assert(self@.pos == line_end(orig.input, orig.pos));
        }
        let n = self.pos - start;
        if n > 0 {
            self.lnum = self.lnum + 1;
        }
        n
    }

    /// Reads the next physical line and replaces the current tokenizer with
    /// one over it; returns how many characters were read.
    pub fn refill(&mut self) -> (n: usize)
        requires
            old(self).wf(),
        ensures
            final(self).wf(),
            n as int == line_end(old(self)@.input, old(self)@.pos) - old(self)@.pos,
            final(self)@ == (LexerView {
                input: old(self)@.input,
                pos: line_end(old(self)@.input, old(self)@.pos),
                line: TokensView {
                    buf: old(self)@.input.subrange(
                        old(self)@.pos,
                        line_end(old(self)@.input, old(self)@.pos),
                    ),
                    cur: 0,
                },
                lnum: old(self)@.lnum + if n > 0 { 1int } else { 0int },
            }),
            old(self)@.pos < old(self)@.input.len() ==> final(self)@ == refilled(old(self)@),
            n == 0 ==> old(self)@.pos == old(self)@.input.len(),
    {
        proof {
            lemma_line_end_bounds(self@.input, self@.pos);
        }
        let mut line: Vec<char> = Vec::new();
        let n = self.read_line(&mut line);
        self.line = Tokens::new(line);
        n
    }

    /// Returns the next word of the input, reading further lines as needed,
    /// or `None` when the input is exhausted at a word boundary.
    pub fn next_word(&mut self) -> (r: Option<String>)
        requires
            old(self).wf(),
        ensures
            final(self).wf(),
            final(self)@ == lex_next_word(old(self)@).1,
            (match r {
                Some(w) => lex_next_word(old(self)@).0 == Some(w@),
                None => lex_next_word(old(self)@).0 is None,
            }),
    {
        let ghost orig = self@;
        loop
            invariant
                self.wf(),
                orig == old(self)@,
                lexer_wf(orig),
                lex_next_word(orig) == lex_next_word(self@),
            decreases self@.input.len() - self@.pos,
        {
            let ghost before = self@;
            match self.line.next() {
                Some(w) => {
                    proof {
                        assert(lex_next_word(before) == (Some(w@), self@));
                    }
                    return Some(w);
                },
                None => {
                    let n = self.refill();
                    if n == 0 {
                        proof {
                            assert(self@.line.buf =~= empty_tokens().buf);
                            assert(lex_next_word(before) == (None::<Seq<char>>, self@));
                        }
                        return None;
                    }
                    proof {
                        lemma_line_end_bounds(before.input, before.pos);
                        assert(self@ == refilled(before));
                        assert(lex_next_word(before) == lex_next_word(self@));
                    }
                },
            }
        }
    }

    /// As [`Lexer::next_word`], but exhausted input is a structured failure
    /// carrying the message `Unexpected end of file` and the line count at
    /// the point consumption failed.
    pub fn next_word_or_err(&mut self) -> (r: Result<String, ParseError>)
        requires
            old(self).wf(),
        ensures
            final(self).wf(),
            final(self)@ == lex_next_word(old(self)@).1,
            (match r {
                Ok(w) => lex_next_word(old(self)@).0 == Some(w@),
                Err(e) => lex_next_word(old(self)@).0 is None && e@ == (ParseErrorView {
                    msg: "Unexpected end of file"@,
                    line: lex_next_word(old(self)@).1.lnum,
                }),
            }),
    {
        match self.next_word() {
            Some(w) => Ok(w),
            None => Err(
                ParseError { msg: "Unexpected end of file".to_owned(), line: self.lnum() },
            ),
        }
    }

    /// Captures the raw text for a macro body: the rest of the current line,
    /// then whole physical lines up to and including the first empty or
    /// newline-only line (or the end of the input).
    pub fn next_subcommands(&mut self) -> (r: String)
        requires
            old(self).wf(),
        ensures
            final(self).wf(),
            ({
                let o = old(self)@;
                let (body, pos2, lnum2) = capture(
                    o.input,
                    o.pos,
                    o.line.buf.subrange(o.line.cur, o.line.buf.len() as int),
                    o.lnum,
                );
                &&& r@ == body
                &&& final(self)@ == (LexerView {
                    input: o.input,
                    pos: pos2,
                    line: empty_tokens(),
                    lnum: lnum2,
                })
            }),
    {
        let ghost orig = self@;
        let ghost acc0 = orig.line.buf.subrange(orig.line.cur, orig.line.buf.len() as int);
        let mut cmds: Vec<char> = self.line.remaining();
        self.line = Tokens::empty();
        proof {
            assert(self@.line =~= empty_tokens());
        }
        loop
            invariant
                self.wf(),
                orig == old(self)@,
                acc0 == orig.line.buf.subrange(orig.line.cur, orig.line.buf.len() as int),
                lexer_wf(orig),
                self@.input == orig.input,
                self@.line == empty_tokens(),
                capture(self@.input, self@.pos, cmds@, self@.lnum) == capture(
                    orig.input,
                    orig.pos,
                    acc0,
                    orig.lnum,
                ),
            decreases self@.input.len() - self@.pos,
        {
            let ghost before = self@;
            let ghost cmds_before = cmds@;
            let n = self.read_line(&mut cmds);
            proof {
                assert(capture(before.input, before.pos, cmds_before, before.lnum) == if n <= 1 {
                    (cmds@, self@.pos, self@.lnum)
                } else {
                    capture(self@.input, self@.pos, cmds@, self@.lnum)
                });
            }
            if n <= 1 {
                return chars_to_string(&cmds);
            }
        }
    }
}

} // verus!
