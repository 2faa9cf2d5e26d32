use vstd::prelude::*;

use crate::pattern::{find_ranges, re_compiles, re_find_ranges, CompiledPattern};
use vstd::string::StrSliceExecFns;

verus! {

/// The tag-boundary patterns this dialect knows.
#[derive(Debug)]
pub enum Pattern {
    Template,
}

/// The tag-boundary pattern's text: `{% ... %}` or `{{ ... }}` with
/// non-greedy interiors, or a bare `{{` / `{%` opener. The second closing
/// brace of `}}` is optional in the pattern as this dialect has it; the
/// slicing that results is preserved as observed behaviour.
pub open spec fn template_pattern() -> Seq<char> {
    r"(\{%.*?%\}|\{\{.*?\}\}?|\{\{|\{%)"@
}

impl Pattern {
    /// The pattern's source text.
    pub fn text(&self) -> (r: &str)
        ensures
            r@ == template_pattern(),
    {
        match self {
            Pattern::Template => r"(\{%.*?%\}|\{\{.*?\}\}?|\{\{|\{%)",
        }
    }

    /// Compiles the pattern; `None` exactly when the pattern compiler
    /// refuses its text.
    pub fn to_regex(&self) -> (r: Option<CompiledPattern>)
        ensures
            (r is Some) == re_compiles(template_pattern()),
            r matches Some(p) ==> p@ == template_pattern(),
    {
        CompiledPattern::new(self.text())
    }
}

/// A sequence of character-offset pairs, seen as mathematical ranges.
pub open spec fn ranges_view(v: Seq<(usize, usize)>) -> Seq<(int, int)> {
    v.map_values(|p: (usize, usize)| (p.0 as int, p.1 as int))
}

/// Ranges that can be matches over a source of length `n`: within bounds,
/// each no later than the next, none overlapping.
pub open spec fn ranges_wf(ms: Seq<(int, int)>, n: int) -> bool {
    &&& forall|i: int| 0 <= i < ms.len() ==> 0 <= (#[trigger] ms[i]).0 <= ms[i].1 <= n
    &&& forall|i: int| 0 < i < ms.len() ==> (#[trigger] ms[i]).0 >= ms[i - 1].1
}

/// The slices that cut a source of length `n` at the matches `ms`, read
/// from position `pos` on: a gap slice before each match where the source
/// is not flush with it, each match itself, and a trailing gap when the
/// last match stops short of the end.
pub open spec fn cover_from(ms: Seq<(int, int)>, pos: int, n: int) -> Seq<(int, int)>
    decreases ms.len(),
{
    if ms.len() == 0 {
        if pos < n {
            seq![(pos, n)]
        } else {
            Seq::empty()
        }
    } else {
        let gap: Seq<(int, int)> = if pos < ms[0].0 {
            seq![(pos, ms[0].0)]
        } else {
            Seq::empty()
        };
        gap + seq![ms[0]] + cover_from(ms.drop_first(), ms[0].1, n)
    }
}

/// The full ordered cover of a source of length `n` cut at the matches
/// `ms`. A source without matches is one slice, even when it is empty.
pub open spec fn slice_cover(ms: Seq<(int, int)>, n: int) -> Seq<(int, int)> {
    if ms.len() == 0 {
        seq![(0int, n)]
    } else {
        cover_from(ms, 0, n)
    }
}

/// The slices of the cover, as the texts they select from `s`.
pub open spec fn slice_texts(s: Seq<char>, c: Seq<(int, int)>) -> Seq<Seq<char>> {
    c.map_values(|r: (int, int)| s.subrange(r.0, r.1))
}

proof fn lemma_cover_from_props(ms: Seq<(int, int)>, pos: int, n: int)
    requires
        0 <= pos <= n,
        forall|i: int| 0 <= i < ms.len() ==> 0 <= (#[trigger] ms[i]).0 <= ms[i].1 <= n,
        forall|i: int| 0 < i < ms.len() ==> (#[trigger] ms[i]).0 >= ms[i - 1].1,
        ms.len() > 0 ==> ms[0].0 >= pos,
    ensures
        ({
            let c = cover_from(ms, pos, n);
            &&& (c.len() == 0 <==> (ms.len() == 0 && pos == n))
            &&& c.len() > 0 ==> c[0].0 == pos && c.last().1 == n
            &&& forall|i: int| 0 <= i < c.len() ==> pos <= (#[trigger] c[i]).0 <= c[i].1 <= n
            &&& forall|i: int| 0 < i < c.len() ==> (#[trigger] c[i]).0 == c[i - 1].1
        }),
    decreases ms.len(),
{
    let c = cover_from(ms, pos, n);
    if ms.len() == 0 {
    } else {
        let rest = ms.drop_first();
        assert(forall|i: int|
            0 <= i < rest.len() ==> 0 <= (#[trigger] rest[i]).0 <= rest[i].1 <= n);
        assert(forall|i: int| 0 < i < rest.len() ==> (#[trigger] rest[i]).0 >= rest[i - 1].1);
        assert(rest.len() > 0 ==> rest[0].0 >= ms[0].1);
        lemma_cover_from_props(rest, ms[0].1, n);
        let tail = cover_from(rest, ms[0].1, n);
        let gap: Seq<(int, int)> = if pos < ms[0].0 {
            seq![(pos, ms[0].0)]
        } else {
            Seq::empty()
        };
        let head = gap + seq![ms[0]];
        assert(c == head + tail);
        assert(head[head.len() - 1] == ms[0]);
        assert forall|i: int| 0 <= i < c.len() implies pos <= (#[trigger] c[i]).0 <= c[i].1
            <= n by {
            if i < head.len() {
                assert(c[i] == head[i]);
            } else {
                assert(c[i] == tail[i - head.len()]);
            }
        }
        assert forall|i: int| 0 < i < c.len() implies (#[trigger] c[i]).0 == c[i - 1].1 by {
            if i < head.len() {
                assert(c[i] == ms[0]);
                assert(c[i - 1] == (pos, ms[0].0));
            } else if i == head.len() {
                assert(c[i - 1] == ms[0]);
                assert(c[i] == tail[0]);
            } else {
                assert(c[i] == tail[i - head.len()]);
                assert(c[i - 1] == tail[i - head.len() - 1]);
            }
        }
        if c.len() > 0 {
            assert(c[0] == head[0]);
            if tail.len() > 0 {
                assert(c.last() == tail.last());
            } else {
                assert(c.last() == ms[0]);
            }
        }
    }
}

/// The cover of well-formed matches is total: it starts at offset zero,
/// ends at the source's length, and each slice begins where the one before
/// it ends.
pub proof fn lemma_cover_contiguous(ms: Seq<(int, int)>, n: int)
    requires
        n >= 0,
        ranges_wf(ms, n),
    ensures
        ({
            let c = slice_cover(ms, n);
            &&& c.len() >= 1
            &&& c[0].0 == 0
            &&& c.last().1 == n
            &&& forall|i: int| 0 <= i < c.len() ==> 0 <= (#[trigger] c[i]).0 <= c[i].1 <= n
            &&& forall|i: int| 0 < i < c.len() ==> (#[trigger] c[i]).0 == c[i - 1].1
        }),
{
    if ms.len() == 0 {
    } else {
        lemma_cover_from_props(ms, 0, n);
    }
}

/// Concatenating the texts of a contiguous cover of `s` from offset `a`
/// yields exactly the text of `s` from `a` on.
proof fn lemma_texts_concat(s: Seq<char>, c: Seq<(int, int)>, a: int)
    requires
        0 <= a <= s.len(),
        c.len() == 0 ==> a == s.len(),
        c.len() > 0 ==> c[0].0 == a && c.last().1 == s.len(),
        forall|i: int| 0 <= i < c.len() ==> 0 <= (#[trigger] c[i]).0 <= c[i].1 <= s.len(),
        forall|i: int| 0 < i < c.len() ==> (#[trigger] c[i]).0 == c[i - 1].1,
    ensures
        slice_texts(s, c).flatten() == s.subrange(a, s.len() as int),
    decreases c.len(),
{
    if c.len() == 0 {
        assert(slice_texts(s, c) =~= Seq::<Seq<char>>::empty());
        assert(Seq::<Seq<char>>::empty().flatten() =~= s.subrange(a, s.len() as int));
    } else {
        let rest = c.drop_first();
        let b = c[0].1;
        lemma_texts_concat(s, rest, b);
        assert(slice_texts(s, c).drop_first() =~= slice_texts(s, rest));
        assert(slice_texts(s, c).first() == s.subrange(a, b));
        assert(slice_texts(s, c).flatten() == s.subrange(a, b) + slice_texts(s, rest).flatten());
        assert(s.subrange(a, b) + s.subrange(b, s.len() as int) =~= s.subrange(
            a,
            s.len() as int,
        ));
    }
}

/// A cursorless view of one template source, to be cut into tag and
/// literal slices. Offsets are counted in characters.
pub struct Tokenizer {
    source: String,
    length: usize,
}

impl Tokenizer {
    /// The source's character sequence.
    pub closed spec fn src(&self) -> Seq<char> {
        self.source@
    }

    pub closed spec fn wf(&self) -> bool {
        self.length == self.source@.len()
    }

    pub fn new(source: &str) -> (r: Tokenizer)
        ensures
            r.wf(),
            r.src() == source@,
    {
        let owned = source.to_owned();
        let length = owned.as_str().unicode_len();
        Tokenizer { source: owned, length }
    }

    /// Cuts the source at every match of `pattern`: the matches and the
    /// gaps around them, merged into one ordered, contiguous cover of the
    /// whole source. The matches arrive already ordered, so each gap is
    /// laid in between in a single pass.
    pub fn matched_slices(&self, pattern: &CompiledPattern) -> (r: Vec<(usize, usize)>)
        requires
            self.wf(),
        ensures
            ranges_view(r@) == slice_cover(
                re_find_ranges(pattern@, self.src()),
                self.src().len() as int,
            ),
            r@.len() >= 1,
            r@[0].0 == 0,
            r@.last().1 == self.src().len(),
            forall|i: int| 0 <= i < r@.len() ==> (#[trigger] r@[i]).0 <= r@[i].1 <= self.src().len(),
            forall|i: int| 0 < i < r@.len() ==> (#[trigger] r@[i]).0 == r@[i - 1].1,
    {
        let m = find_ranges(pattern, self.source.as_str());
        let ghost ms = re_find_ranges(pattern@, self.src());
        let ghost n = self.src().len() as int;
        proof {
            assert(ms =~= ranges_view(m@));
            lemma_cover_contiguous(ms, n);
        }
        let mut out: Vec<(usize, usize)> = Vec::new();
        if m.len() == 0 {
            out.push((0, self.length));
            proof {
                assert(ranges_view(out@) =~= slice_cover(ms, n));
            }
            return out;
        }
        let mut pos: usize = 0;
        let mut i: usize = 0;
        proof {
            assert(ms.skip(0) =~= ms);
        }
        while i < m.len()
            invariant
                self.wf(),
                0 < m@.len(),
                i <= m@.len(),
                ms == ranges_view(m@),
                n == self.src().len() as int,
                ranges_wf(ms, n),
                pos <= n,
                i == 0 ==> pos == 0,
                i > 0 ==> pos == m@[i - 1].1,
                cover_from(ms, 0, n) == ranges_view(out@) + cover_from(
                    ms.skip(i as int),
                    pos as int,
                    n,
                ),
            decreases m@.len() - i,
        {
            let (s, e) = m[i];
            let ghost before = out@;
            if pos < s {
                out.push((pos, s));
            }
            out.push((s, e));
            proof {
                let suffix = ms.skip(i as int);
                assert(suffix[0] == ms[i as int]);
                assert(suffix.drop_first() =~= ms.skip(i + 1));
                if pos < s {
                    assert(ranges_view(out@) =~= ranges_view(before) + seq![
                        (pos as int, s as int),
                    ] + seq![(s as int, e as int)]);
                } else {
                    assert(ranges_view(out@) =~= ranges_view(before) + seq![(s as int, e as int)]);
                }
                assert(cover_from(suffix, pos as int, n) == (if (pos as int) < s {
                    seq![(pos as int, s as int)]
                } else {
                    Seq::<(int, int)>::empty()
                }) + seq![(s as int, e as int)] + cover_from(ms.skip(i + 1), e as int, n));
                assert(ranges_view(out@) + cover_from(ms.skip(i + 1), e as int, n)
                    =~= ranges_view(before) + cover_from(suffix, pos as int, n));
            }
            pos = e;
            i = i + 1;
        }
        let ghost before = out@;
        if pos < self.length {
            out.push((pos, self.length));
        }
        proof {
            assert(ms.skip(ms.len() as int) =~= Seq::<(int, int)>::empty());
            if pos < self.length {
                assert(ranges_view(out@) =~= ranges_view(before) + seq![(pos as int, n)]);
            } else {
                assert(ranges_view(out@) =~= ranges_view(before));
            }
            assert(ranges_view(out@) =~= slice_cover(ms, n));
            let c = slice_cover(ms, n);
            assert forall|i2: int|
                0 <= i2 < out@.len() implies (#[trigger] out@[i2]).0 <= out@[i2].1 <= self.src().len() by {
                assert(ranges_view(out@)[i2] == (out@[i2].0 as int, out@[i2].1 as int));
            }
            assert forall|i2: int|
                0 < i2 < out@.len() implies (#[trigger] out@[i2]).0 == out@[i2 - 1].1 by {
                assert(ranges_view(out@)[i2] == (out@[i2].0 as int, out@[i2].1 as int));
                assert(ranges_view(out@)[i2 - 1] == (out@[i2 - 1].0 as int, out@[i2 - 1].1 as int));
            }
            assert(ranges_view(out@)[0] == (out@[0].0 as int, out@[0].1 as int));
            assert(ranges_view(out@)[out@.len() - 1] == (
                out@.last().0 as int,
                out@.last().1 as int,
            ));
        }
        out
    }

    /// Splits the source into its ordered literal and tag substrings; their
    /// concatenation, in order, is the source again.
    pub fn tokenize(&self, pattern: &CompiledPattern) -> (r: Vec<String>)
        requires
            self.wf(),
        ensures
            r@.map_values(|t: String| t@) == slice_texts(
                self.src(),
                slice_cover(re_find_ranges(pattern@, self.src()), self.src().len() as int),
            ),
            r@.map_values(|t: String| t@).flatten() == self.src(),
            r@.len() >= 1,
    {
        let slices = self.matched_slices(pattern);
        let ghost c = slice_cover(re_find_ranges(pattern@, self.src()), self.src().len() as int);
        let mut out: Vec<String> = Vec::new();
        let mut i: usize = 0;
        while i < slices.len()
            invariant
                self.wf(),
                i <= slices@.len(),
                ranges_view(slices@) == c,
                slices@.len() >= 1,
                slices@[0].0 == 0,
                slices@.last().1 == self.src().len(),
                forall|k: int|
                    0 <= k < slices@.len() ==> (#[trigger] slices@[k]).0 <= slices@[k].1
                        <= self.src().len(),
                forall|k: int|
                    0 < k < slices@.len() ==> (#[trigger] slices@[k]).0 == slices@[k - 1].1,
                out@.len() == i,
                forall|k: int|
                    0 <= k < i ==> (#[trigger] out@[k])@ == self.src().subrange(
                        slices@[k].0 as int,
                        slices@[k].1 as int,
                    ),
            decreases slices@.len() - i,
        {
            let (s, e) = slices[i];
            out.push(self.source.as_str().substring_char(s, e).to_owned());
            i = i + 1;
        }
        proof {
            assert(out@.map_values(|t: String| t@) =~= slice_texts(self.src(), c)) by {
                assert forall|k: int| 0 <= k < out@.len() implies out@.map_values(|t: String| t@)[k]
                    == slice_texts(self.src(), c)[k] by {
                    assert(c[k] == (slices@[k].0 as int, slices@[k].1 as int));
                }
            }
            assert forall|k: int| 0 <= k < c.len() implies 0 <= (#[trigger] c[k]).0 <= c[k].1
                <= self.src().len() by {
                assert(c[k] == (slices@[k].0 as int, slices@[k].1 as int));
            }
            assert forall|k: int| 0 < k < c.len() implies (#[trigger] c[k]).0 == c[k - 1].1 by {
                assert(c[k] == (slices@[k].0 as int, slices@[k].1 as int));
                assert(c[k - 1] == (slices@[k - 1].0 as int, slices@[k - 1].1 as int));
            }
            assert(c[0] == (slices@[0].0 as int, slices@[0].1 as int));
            assert(c[c.len() - 1] == (slices@.last().0 as int, slices@.last().1 as int));
            lemma_texts_concat(self.src(), c, 0);
            assert(self.src().subrange(0, self.src().len() as int) =~= self.src());
        }
        out
    }

    /// The gap before the first match, when the source is not flush with it.
    pub fn missing_first_slice(&self, slices: &Vec<(usize, usize)>) -> (r: Option<
        (usize, usize),
    >)
        requires
            slices@.len() > 0,
        ensures
            r == (if slices@[0].0 != 0 {
                Some((0usize, slices@[0].0))
            } else {
                None::<(usize, usize)>
            }),
    {
        let pos = slices[0].0;
        if pos == 0 {
            return None;
        }
        Some((0, pos))
    }

    /// The gap after the last match, when it stops short of the end.
    pub fn missing_last_slice(&self, slices: &Vec<(usize, usize)>) -> (r: Option<
        (usize, usize),
    >)
        requires
            self.wf(),
            slices@.len() > 0,
            slices@.last().1 <= self.src().len(),
        ensures
            r == (if slices@.last().1 != self.src().len() {
                Some((slices@.last().1, (self.src().len() as usize)))
            } else {
                None::<(usize, usize)>
            }),
    {
        let last = slices[slices.len() - 1];
        if last.1 == self.length {
            return None;
        }
        Some((last.1, self.length))
    }

    /// The gaps between consecutive matches, in order.
    pub fn missing_middle_slices(&self, slices: &Vec<(usize, usize)>) -> (r: Vec<
        (usize, usize),
    >)
        requires
            forall|i: int|
                0 < i < slices@.len() ==> (#[trigger] slices@[i]).0 >= slices@[i - 1].1,
        ensures
            ranges_view(r@) == middle_gaps_from(ranges_view(slices@), 0),
    {
        let mut missing: Vec<(usize, usize)> = Vec::new();
        let ghost ms = ranges_view(slices@);
        if slices.len() == 0 {
            return missing;
        }
        let mut index: usize = 0;
        while index < slices.len() - 1
            invariant
                slices@.len() > 0,
                index <= slices@.len() - 1,
                ms == ranges_view(slices@),
                forall|i: int|
                    0 < i < slices@.len() ==> (#[trigger] slices@[i]).0 >= slices@[i - 1].1,
                middle_gaps_from(ms, 0) == ranges_view(missing@) + middle_gaps_from(
                    ms,
                    index as int,
                ),
            decreases slices@.len() - index,
        {
            let right = slices[index].1;
            let edge = slices[index + 1].0;
            let ghost before = missing@;
            if right != edge {
                missing.push((right, edge));
            }
            proof {
                if right != edge {
                    assert(ranges_view(missing@) =~= ranges_view(before) + seq![
                        (right as int, edge as int),
                    ]);
                } else {
                    assert(ranges_view(missing@) =~= ranges_view(before));
                }
            }
            index = index + 1;
        }
        missing
    }

    /// The complement of a well-formed match list: every stretch of the
    /// source no match selects, as the original assembles it — the middle
    /// gaps first, then the leading gap, then the trailing gap. With no
    /// matches at all, the whole source is the one missing slice.
    pub fn find_missing_slices(&self, slices: &Vec<(usize, usize)>) -> (r: Vec<(usize, usize)>)
        requires
            self.wf(),
            ranges_wf(ranges_view(slices@), self.src().len() as int),
        ensures
            slices@.len() == 0 ==> ranges_view(r@) == seq![(0int, self.src().len() as int)],
            slices@.len() > 0 ==> ranges_view(r@) == middle_gaps_from(ranges_view(slices@), 0)
                + first_gap(ranges_view(slices@)) + last_gap(
                ranges_view(slices@),
                self.src().len() as int,
            ),
    {
        if slices.len() == 0 {
            let mut whole: Vec<(usize, usize)> = Vec::new();
            whole.push((0, self.length));
            proof {
                assert(ranges_view(whole@) =~= seq![(0int, self.src().len() as int)]);
            }
            return whole;
        }
        proof {
            assert forall|i: int|
                0 < i < slices@.len() implies (#[trigger] slices@[i]).0 >= slices@[i - 1].1 by {
                assert(ranges_view(slices@)[i] == (slices@[i].0 as int, slices@[i].1 as int));
                assert(ranges_view(slices@)[i - 1] == (
                    slices@[i - 1].0 as int,
                    slices@[i - 1].1 as int,
                ));
            }
            assert(ranges_view(slices@)[slices@.len() - 1] == (
                slices@.last().0 as int,
                slices@.last().1 as int,
            ));
        }
        let mut missing = self.missing_middle_slices(slices);
        let ghost mids = missing@;
        if let Some(first) = self.missing_first_slice(slices) {
            missing.push(first);
        }
        let ghost with_first = missing@;
        proof {
            assert(ranges_view(with_first) =~= ranges_view(mids) + first_gap(
                ranges_view(slices@),
            ));
        }
        if let Some(last) = self.missing_last_slice(slices) {
            missing.push(last);
        }
        proof {
            assert(ranges_view(missing@) =~= ranges_view(with_first) + last_gap(
                ranges_view(slices@),
                self.src().len() as int,
            ));
        }
        missing
    }
}

/// The gaps between consecutive matches of `ms` from index `i` on.
pub open spec fn middle_gaps_from(ms: Seq<(int, int)>, i: int) -> Seq<(int, int)>
    decreases ms.len() - i,
{
    if i + 1 >= ms.len() || i < 0 {
        Seq::empty()
    } else {
        (if ms[i].1 != ms[i + 1].0 {
            seq![(ms[i].1, ms[i + 1].0)]
        } else {
            Seq::empty()
        }) + middle_gaps_from(ms, i + 1)
    }
}

/// The gap before the first match, when there is one.
pub open spec fn first_gap(ms: Seq<(int, int)>) -> Seq<(int, int)> {
    if ms.len() > 0 && ms[0].0 != 0 {
        seq![(0int, ms[0].0)]
    } else {
        Seq::empty()
    }
}

/// The gap after the last match, when it stops short of `n`.
pub open spec fn last_gap(ms: Seq<(int, int)>, n: int) -> Seq<(int, int)> {
    if ms.len() > 0 && ms.last().1 != n {
        seq![(ms.last().1, n)]
    } else {
        Seq::empty()
    }
}

} // verus!
