//! The tokenizer: splits one line of text into whitespace-delimited words,
//! consumed incrementally through a cursor.

use vstd::prelude::*;

use crate::text::{is_whitespace_char, is_ws, push_char};

verus! {

/// Mathematical model of a [`Tokens`] value: the line being tokenized and the
/// cursor position (an index into `buf`, in characters).
pub ghost struct TokensView {
    pub buf: Seq<char>,
    pub cur: int,
}

/// The first index `i >= cur` such that `buf[i]` is not whitespace, or
/// `buf.len()` if the rest of the line is all whitespace.
pub open spec fn skip_ws(buf: Seq<char>, cur: int) -> int
    decreases buf.len() - cur,
    when 0 <= cur <= buf.len()
{
    if cur >= buf.len() {
        cur
    } else if is_ws(buf[cur]) {
        skip_ws(buf, cur + 1)
    } else {
        cur
    }
}

/// The first index `j >= cur` such that `buf[j]` is whitespace, or
/// `buf.len()` if the rest of the line has none.
pub open spec fn word_end(buf: Seq<char>, cur: int) -> int
    decreases buf.len() - cur,
    when 0 <= cur <= buf.len()
{
    if cur >= buf.len() {
        cur
    } else if !is_ws(buf[cur]) {
        word_end(buf, cur + 1)
    } else {
        cur
    }
}

/// What one call of [`Tokens::next`] returns and leaves behind: the next
/// whitespace-delimited word of the line (if any) and the new cursor.
pub open spec fn token_next(t: TokensView) -> (Option<Seq<char>>, TokensView) {
    let i = skip_ws(t.buf, t.cur);
    if i < t.buf.len() {
        let j = word_end(t.buf, i);
        (Some(t.buf.subrange(i, j)), TokensView { buf: t.buf, cur: j })
    } else {
        (None, TokensView { buf: t.buf, cur: i })
    }
}

pub proof fn lemma_skip_ws_bounds(buf: Seq<char>, cur: int)
    requires
        0 <= cur <= buf.len(),
    ensures
        cur <= skip_ws(buf, cur) <= buf.len(),
        skip_ws(buf, cur) < buf.len() ==> !is_ws(buf[skip_ws(buf, cur)]),
    decreases buf.len() - cur,
{
    if cur < buf.len() && is_ws(buf[cur]) {
        lemma_skip_ws_bounds(buf, cur + 1);
    }
}

pub proof fn lemma_word_end_bounds(buf: Seq<char>, cur: int)
    requires
        0 <= cur <= buf.len(),
    ensures
        cur <= word_end(buf, cur) <= buf.len(),
        word_end(buf, cur) < buf.len() ==> is_ws(buf[word_end(buf, cur)]),
    decreases buf.len() - cur,
{
    if cur < buf.len() && !is_ws(buf[cur]) {
        lemma_word_end_bounds(buf, cur + 1);
    }
}

/// One line of text under incremental tokenization.
pub struct Tokens {
    buf: Vec<char>,
    cur: usize,
}

impl View for Tokens {
    type V = TokensView;

    closed spec fn view(&self) -> TokensView {
        TokensView { buf: self.buf@, cur: self.cur as int }
    }
}

impl Tokens {
    /// The cursor never runs past the end of the line.
    pub open spec fn wf(&self) -> bool {
        0 <= self@.cur <= self@.buf.len()
    }

    /// Starts tokenizing the given line, cursor at its beginning.
    pub fn new(buf: Vec<char>) -> (t: Tokens)
        ensures
            t@ == (TokensView { buf: buf@, cur: 0 }),
            t.wf(),
    {
        Tokens { buf, cur: 0 }
    }

    /// A tokenizer over an empty line: yields no words.
    pub fn empty() -> (t: Tokens)
        ensures
            t@ == (TokensView { buf: Seq::<char>::empty(), cur: 0 }),
            t.wf(),
    {
        Tokens::new(Vec::new())
    }

    /// The unconsumed text of the line, from the cursor to its end.
    pub fn remaining(&self) -> (r: Vec<char>)
        requires
            self.wf(),
        ensures
            r@ == self@.buf.subrange(self@.cur, self@.buf.len() as int),
    {
        let mut r: Vec<char> = Vec::new();
        let mut i: usize = self.cur;
        while i < self.buf.len()
            invariant
                self.wf(),
                self@.cur <= i as int <= self@.buf.len(),
                r@ == self@.buf.subrange(self@.cur, i as int),
            decreases self.buf.len() - i,
        {
            r.push(self.buf[i]);
            proof {
                assert(self@.buf.subrange(self@.cur, i + 1int)
                    =~= self@.buf.subrange(self@.cur, i as int).push(self@.buf[i as int]));
            }
            i = i + 1;
        }
        proof {
            assert(r@ =~= self@.buf.subrange(self@.cur, self@.buf.len() as int));
        }
        r
    }

    /// Skips whitespace, then returns the next word of the line, or `None`
    /// (leaving the cursor at the end) when only whitespace is left.
    pub fn next(&mut self) -> (r: Option<String>)
        requires
            old(self).wf(),
        ensures
            final(self).wf(),
            final(self)@ == token_next(old(self)@).1,
            (match r {
                Some(w) => token_next(old(self)@).0 == Some(w@),
                None => token_next(old(self)@).0 is None,
            }),
    {
        let ghost orig = self@;
        while self.cur < self.buf.len() && is_whitespace_char(self.buf[self.cur])
            invariant
                self.wf(),
                self@.buf == orig.buf,
                orig.cur <= self@.cur,
                skip_ws(orig.buf, orig.cur) == skip_ws(self@.buf, self@.cur),
            decreases self.buf.len() - self.cur,
        {
            self.cur = self.cur + 1;
        }
        let ghost i = self@.cur;
        proof {
            assert(i == skip_ws(orig.buf, orig.cur));
        }
        if self.cur < self.buf.len() {
            let mut s = String::new();
            while self.cur < self.buf.len() && !is_whitespace_char(self.buf[self.cur])
                invariant
                    self.wf(),
                    self@.buf == orig.buf,
                    0 <= i <= self@.cur,
                    word_end(orig.buf, i) == word_end(self@.buf, self@.cur),
                    s@ == orig.buf.subrange(i, self@.cur),
                decreases self.buf.len() - self.cur,
            {
                push_char(&mut s, self.buf[self.cur]);
                proof {
                    assert(orig.buf.subrange(i, self@.cur + 1)
                        =~= orig.buf.subrange(i, self@.cur).push(orig.buf[self@.cur]));
                }
                self.cur = self.cur + 1;
            }
            proof {
                assert(self@.cur == word_end(orig.buf, i));
                assert(s@ =~= orig.buf.subrange(i, word_end(orig.buf, i)));
            }
            Some(s)
        } else {
            None
        }
    }
}

} // verus!
