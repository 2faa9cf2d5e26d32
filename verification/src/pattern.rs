use vstd::prelude::*;

verus! {

/// Declares regex::Regex, so compiled patterns can stand in fields; its
/// values stay opaque and everything known of them goes through the
/// wrappers below.
#[verifier::external_type_specification]
#[verifier::external_body]
pub struct ExRegex(regex::Regex);

/// A compiled pattern paired with the text it was compiled from. The
/// contracts speak of a pattern only through that text: the view of a
/// `CompiledPattern` is the pattern text's character sequence.
pub struct CompiledPattern {
    regex: regex::Regex,
    text: String,
}

impl View for CompiledPattern {
    type V = Seq<char>;

    closed spec fn view(&self) -> Seq<char> {
        self.text@
    }
}

/// The character offset one past the leftmost match of `pattern` in `text`,
/// or `None` when `pattern` matches nowhere in `text`. The match's own start
/// is not kept: the scanner treats everything from the cursor to the match's
/// end as the matched text.
pub uninterp spec fn re_match_end(pattern: Seq<char>, text: Seq<char>) -> Option<int>;

/// The character-offset ranges of the successive non-overlapping leftmost
/// matches of `pattern` across `text`, in order of position.
pub uninterp spec fn re_find_ranges(pattern: Seq<char>, text: Seq<char>) -> Seq<(int, int)>;

/// Whether the pattern compiler accepts `text`: it succeeds or refuses as a
/// function of the pattern text alone.
pub uninterp spec fn re_compiles(text: Seq<char>) -> bool;

/// Relies on regex::Regex::new: whether the text compiles depends on the
/// text alone, and on success the stored text is the input.
#[verifier::external_body]
fn regex_compile(text: &str) -> (r: Option<CompiledPattern>)
    ensures
        (r is Some) == re_compiles(text@),
        r matches Some(p) ==> p@ == text@,
{
    match regex::Regex::new(text) {
        Ok(regex) => Some(CompiledPattern { regex, text: text.to_owned() }),
        Err(_) => None,
    }
}

/// Relies on regex::Regex::find: the leftmost match ends at a byte offset on
/// a character boundary, at most the haystack's length; the body hands that
/// offset back counted in characters.
#[verifier::external_body]
pub(crate) fn match_end(p: &CompiledPattern, text: &str) -> (r: Option<usize>)
    ensures
        match r {
            Some(n) => re_match_end(p@, text@) == Some(n as int) && n <= text@.len(),
            None => re_match_end(p@, text@) is None,
        },
{
    p.regex.find(text).map(|m| text[..m.end()].chars().count())
}

/// Relies on regex::Regex::find_iter: it yields the successive
/// non-overlapping matches in order of position, each with
/// `start <= end <= len` on character boundaries; the body hands the offsets
/// back counted in characters.
#[verifier::external_body]
pub(crate) fn find_ranges(p: &CompiledPattern, text: &str) -> (r: Vec<(usize, usize)>)
    ensures
        r@.len() == re_find_ranges(p@, text@).len(),
        forall|i: int|
            0 <= i < r@.len() ==> #[trigger] re_find_ranges(p@, text@)[i] == (
            r@[i].0 as int,
            r@[i].1 as int,
            ),
        forall|i: int| 0 <= i < r@.len() ==> (#[trigger] r@[i]).0 <= r@[i].1 <= text@.len(),
        forall|i: int| 0 < i < r@.len() ==> (#[trigger] r@[i]).0 >= r@[i - 1].1,
{
    let mut out: Vec<(usize, usize)> = Vec::new();
    for m in p.regex.find_iter(text) {
        let s = text[..m.start()].chars().count();
        let e = text[..m.end()].chars().count();
        out.push((s, e));
    }
    out
}

impl CompiledPattern {
    /// Compiles pattern text; `None` exactly when the pattern compiler
    /// refuses it.
    pub fn new(text: &str) -> (r: Option<CompiledPattern>)
        ensures
            (r is Some) == re_compiles(text@),
            r matches Some(p) ==> p@ == text@,
    {
        regex_compile(text)
    }
}

} // verus!
