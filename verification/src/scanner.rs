use vstd::prelude::*;

use crate::pattern::{re_match_end, match_end, CompiledPattern};
use vstd::string::StrSliceExecFns;

verus! {

/// Whether a character counts as whitespace (the Unicode White_Space
/// property), a function of the character alone.
pub uninterp spec fn is_space(c: char) -> bool;

/// Relies on char::is_whitespace: true exactly for characters with the
/// Unicode White_Space property.
#[verifier::external_body]
fn char_is_space(c: char) -> (r: bool)
    ensures
        r == is_space(c),
{
    c.is_whitespace()
}

/// The first offset at or after `i` in `s` that does not hold whitespace
/// (the source's length when only whitespace remains).
pub open spec fn ws_end(s: Seq<char>, i: int) -> int
    decreases s.len() - i,
{
    if i < s.len() && is_space(s[i]) {
        ws_end(s, i + 1)
    } else {
        i
    }
}

pub proof fn lemma_ws_end_bounds(s: Seq<char>, i: int)
    requires
        0 <= i <= s.len(),
    ensures
        i <= ws_end(s, i) <= s.len(),
        ws_end(s, i) < s.len() ==> !is_space(s[ws_end(s, i)]),
        ws_end(s, ws_end(s, i)) == ws_end(s, i),
    decreases s.len() - i,
{
    if i < s.len() && is_space(s[i]) {
        lemma_ws_end_bounds(s, i + 1);
    }
}

/// A cursor over an immutable source string. Positions are counted in
/// characters; the cursor never moves backwards and never passes the end.
pub struct Scanner {
    source: String,
    index: usize,
    length: usize,
}

impl Scanner {
    /// The source's character sequence.
    pub closed spec fn src(&self) -> Seq<char> {
        self.source@
    }

    /// The cursor's character offset.
    pub closed spec fn pos(&self) -> int {
        self.index as int
    }

    pub closed spec fn wf(&self) -> bool {
        self.index <= self.length && self.length == self.source@.len()
    }

    /// The cursor of a well-formed scanner sits within its source, whose
    /// length fits the machine.
    pub proof fn lemma_pos_in_bounds(&self)
        requires
            self.wf(),
        ensures
            0 <= self.pos() <= self.src().len(),
            self.src().len() <= usize::MAX,
    {
    }

    pub fn new(source: &str) -> (r: Scanner)
        ensures
            r.wf(),
            r.src() == source@,
            r.pos() == 0,
    {
        let owned = source.to_owned();
        let length = owned.as_str().unicode_len();
        Scanner { source: owned, index: 0, length }
    }

    /// A second cursor over the same source, at the same position.
    pub fn duplicate(&self) -> (r: Scanner)
        requires
            self.wf(),
        ensures
            r.wf(),
            r.src() == self.src(),
            r.pos() == self.pos(),
    {
        Scanner { source: self.source.clone(), index: self.index, length: self.length }
    }

    /// The cursor's offset, capped at the source's length.
    pub fn position(&self) -> (r: usize)
        requires
            self.wf(),
        ensures
            r == self.pos(),
    {
        self.index
    }

    pub fn is_eos(&self) -> (r: bool)
        requires
            self.wf(),
        ensures
            r == (self.pos() == self.src().len()),
    {
        self.index == self.length
    }

    /// Advances the cursor by `n` characters, clamped to the end.
    pub fn skip(&mut self, n: usize)
        requires
            old(self).wf(),
        ensures
            final(self).wf(),
            final(self).src() == old(self).src(),
            final(self).pos() == if old(self).pos() + n <= old(self).src().len() {
                old(self).pos() + n
            } else {
                old(self).src().len() as int
            },
    {
        let remaining = self.length - self.index;
        if n >= remaining {
            self.index = self.length;
        } else {
            self.index = self.index + n;
        }
    }

    /// Everything from the cursor to the end of the source.
    pub fn raw(&self) -> (r: &str)
        requires
            self.wf(),
        ensures
            r@ == self.src().subrange(self.pos(), self.src().len() as int),
    {
        self.source.as_str().substring_char(self.index, self.length)
    }

    /// The remaining text, or `None` at the end of the source.
    pub fn rest(&self) -> (r: Option<&str>)
        requires
            self.wf(),
        ensures
            self.pos() == self.src().len() ==> r is None,
            self.pos() < self.src().len() ==> (r matches Some(s)
                && s@ == self.src().subrange(self.pos(), self.src().len() as int)),
    {
        if self.is_eos() {
            return None;
        }
        Some(self.raw())
    }

    /// Reads the character under the cursor and advances past it, or reports
    /// the end of the source.
    pub fn get_char(&mut self) -> (r: Option<char>)
        requires
            old(self).wf(),
        ensures
            final(self).wf(),
            final(self).src() == old(self).src(),
            old(self).pos() == old(self).src().len() ==> r is None
                && final(self).pos() == old(self).pos(),
            old(self).pos() < old(self).src().len()
                ==> r == Some(old(self).src()[old(self).pos()])
                && final(self).pos() == old(self).pos() + 1,
    {
        if self.index == self.length {
            return None;
        }
        let c = self.source.as_str().get_char(self.index);
        self.index = self.index + 1;
        Some(c)
    }

    /// Counts the whitespace characters under the cursor.
    pub fn leading_chars(&self) -> (r: usize)
        requires
            self.wf(),
        ensures
            r == ws_end(self.src(), self.pos()) - self.pos(),
    {
        let mut j = self.index;
        loop
            invariant
                self.wf(),
                self.index <= j <= self.length,
                ws_end(self.src(), self.pos()) == ws_end(self.src(), j as int),
            ensures
                j == ws_end(self.src(), self.pos()),
            decreases self.length - j,
        {
            if j == self.length {
                break ;
            }
            let c = self.source.as_str().get_char(j);
            if !char_is_space(c) {
                break ;
            }
            j = j + 1;
        }
        j - self.index
    }

    /// Moves the cursor past any whitespace under it.
    pub fn skip_whitespace(&mut self)
        requires
            old(self).wf(),
        ensures
            final(self).wf(),
            final(self).src() == old(self).src(),
            final(self).pos() == ws_end(old(self).src(), old(self).pos()),
    {
        let n = self.leading_chars();
        proof {
            lemma_ws_end_bounds(self.src(), self.pos());
        }
        self.skip(n);
    }

    /// Takes the `n` characters under the cursor as the matched text and
    /// moves the cursor past them and past any whitespace that follows.
    pub fn get_match(&mut self, n: usize) -> (r: String)
        requires
            old(self).wf(),
            old(self).pos() + n <= old(self).src().len(),
        ensures
            final(self).wf(),
            final(self).src() == old(self).src(),
            r@ == old(self).src().subrange(old(self).pos(), old(self).pos() + n),
            final(self).pos() == ws_end(old(self).src(), old(self).pos() + n),
    {
        let matched = self.source.as_str().substring_char(self.index, self.index + n).to_owned();
        self.index = self.index + n;
        self.skip_whitespace();
        matched
    }

    /// Skips leading whitespace, then matches `pattern` against the rest.
    /// On a match the cursor moves past the matched text and any whitespace
    /// after it and the matched text is returned; otherwise only the
    /// whitespace skip remains.
    pub fn scan(&mut self, pattern: &CompiledPattern) -> (r: Option<String>)
        requires
            old(self).wf(),
        ensures
            final(self).wf(),
            final(self).src() == old(self).src(),
            ({
                let p1 = ws_end(old(self).src(), old(self).pos());
                let remaining = old(self).src().subrange(p1, old(self).src().len() as int);
                match re_match_end(pattern@, remaining) {
                    Some(n) => 0 <= n <= remaining.len() && (r matches Some(m) && m@
                        == remaining.subrange(0, n) && final(self).pos() == ws_end(
                        old(self).src(),
                        p1 + n,
                    )),
                    None => r is None && final(self).pos() == p1,
                }
            }),
    {
        self.skip_whitespace();
        let found = match_end(pattern, self.raw());
        match found {
            Some(n) => {
                proof {
                    lemma_ws_end_bounds(old(self).src(), old(self).pos());
                    let p1 = ws_end(old(self).src(), old(self).pos());
                    let remaining = old(self).src().subrange(p1, old(self).src().len() as int);
                    assert(remaining.subrange(0, n as int) =~= old(self).src().subrange(
                        p1,
                        p1 + n,
                    ));
                }
                Some(self.get_match(n))
            },
            None => None,
        }
    }

    /// Skips leading whitespace, then reports whether `pattern` matches the
    /// rest, without consuming a match.
    pub fn check(&mut self, pattern: &CompiledPattern) -> (r: bool)
        requires
            old(self).wf(),
        ensures
            final(self).wf(),
            final(self).src() == old(self).src(),
            final(self).pos() == ws_end(old(self).src(), old(self).pos()),
            r == (re_match_end(
                pattern@,
                old(self).src().subrange(
                    ws_end(old(self).src(), old(self).pos()),
                    old(self).src().len() as int,
                ),
            ) is Some),
    {
        self.skip_whitespace();
        let found = match_end(pattern, self.raw());
        found.is_some()
    }
}

} // verus!
