use vstd::prelude::*;

use crate::errors::TemplateError;
use crate::pattern::{re_compiles, re_match_end, CompiledPattern};
use crate::scanner::{ws_end, Scanner};
use vstd::string::StrSliceExecFns;
use vstd::string::StringExecFns;

verus! {

/// The kinds of token a tag's interior can hold.
#[derive(Clone, Copy, Debug, PartialEq, Eq, Structural)]
pub enum Token {
    Comparison,
    Identifier,
    Number,
    String,
    Range,
    Pipe,
    Dot,
    Colon,
    Comma,
    OpenSquare,
    CloseSquare,
    OpenRound,
    CloseRound,
    Question,
    Dash,
}

/// A token kind paired with its exact source lexeme.
pub type LexedToken = (Token, String);

/// The token patterns, in priority order: comparison operators, quoted
/// string literals, numbers, identifiers, the range operator. The first
/// that matches wins.
pub open spec fn matcher_text(k: int) -> Seq<char> {
    if k == 0 {
        r"^(==|!=|<>|<=?|>=?|contains)"@
    } else if k == 1 {
        r"^'[^']*'"@
    } else if k == 2 {
        r#"^"[^"]*""#@
    } else if k == 3 {
        r"^-?\d+(\.\d+)?"@
    } else if k == 4 {
        r"^[a-zA-Z_][\w-]*\??"@
    } else {
        r"^\.\."@
    }
}

/// What matcher `k` yields at offset `p1` of `s`.
pub open spec fn match_at(s: Seq<char>, p1: int, k: int) -> Option<int> {
    re_match_end(matcher_text(k), s.subrange(p1, s.len() as int))
}

/// The first matcher, in priority order, that matches at `p1`; 6 when none
/// does.
pub open spec fn first_matcher(s: Seq<char>, p1: int) -> int {
    if match_at(s, p1, 0) is Some {
        0
    } else if match_at(s, p1, 1) is Some {
        1
    } else if match_at(s, p1, 2) is Some {
        2
    } else if match_at(s, p1, 3) is Some {
        3
    } else if match_at(s, p1, 4) is Some {
        4
    } else if match_at(s, p1, 5) is Some {
        5
    } else {
        6
    }
}

/// The token kind each matcher produces.
pub open spec fn kind_of(k: int) -> Token {
    if k == 0 {
        Token::Comparison
    } else if k == 1 || k == 2 {
        Token::String
    } else if k == 3 {
        Token::Number
    } else if k == 4 {
        Token::Identifier
    } else {
        Token::Range
    }
}

/// The fixed table of single-character tokens.
pub open spec fn special_token(c: char) -> Option<Token> {
    match c {
        '|' => Some(Token::Pipe),
        '.' => Some(Token::Dot),
        ':' => Some(Token::Colon),
        ',' => Some(Token::Comma),
        '[' => Some(Token::OpenSquare),
        ']' => Some(Token::CloseSquare),
        '(' => Some(Token::OpenRound),
        ')' => Some(Token::CloseRound),
        '?' => Some(Token::Question),
        '-' => Some(Token::Dash),
        _ => None,
    }
}

/// One step of the lexer at offset `i` of `s`.
pub enum LexStep {
    /// A token, its lexeme, and the offset the cursor rests at afterwards.
    Tok { kind: Token, lexeme: Seq<char>, next: int },
    /// The text is exhausted (the cursor rests at `next`).
    End { next: int },
    /// The character at `at` begins no token.
    Bad { ch: char, at: int },
}

/// What one lexing step yields at offset `i`: whitespace is skipped, then
/// the first matching pattern wins and its match, read from the cursor to
/// the match's end, is the lexeme (the range operator's lexeme is always
/// `..`); after a pattern match the cursor also passes any whitespace that
/// follows. When no pattern matches, one character is read and looked up
/// in the specials table; a character absent from it is a lexical fault.
/// A pattern match that consumes nothing ends the stream, since no further
/// step could make progress; none of the fixed patterns can match that way
/// (a match end outside the text, which the matcher never reports, is read
/// the same way).
pub open spec fn spec_next(s: Seq<char>, i: int) -> LexStep {
    let p1 = ws_end(s, i);
    let remaining = s.subrange(p1, s.len() as int);
    let k = first_matcher(s, p1);
    if k < 6 {
        let n = match_at(s, p1, k)->0;
        if n <= 0 || n > remaining.len() {
            LexStep::End { next: p1 }
        } else {
            LexStep::Tok {
                kind: kind_of(k),
                lexeme: if k == 5 {
                    ".."@
                } else {
                    remaining.subrange(0, n)
                },
                next: ws_end(s, p1 + n),
            }
        }
    } else if p1 == s.len() {
        LexStep::End { next: p1 }
    } else {
        match special_token(s[p1]) {
            Some(t) => LexStep::Tok { kind: t, lexeme: seq![s[p1]], next: p1 + 1 },
            None => LexStep::Bad { ch: s[p1], at: p1 },
        }
    }
}

/// Every step leaves the cursor within the text, and a token moves it
/// strictly forward.
pub proof fn lemma_spec_next_advances(s: Seq<char>, i: int)
    requires
        0 <= i <= s.len(),
    ensures
        match spec_next(s, i) {
            LexStep::Tok { next, .. } => i < next <= s.len(),
            LexStep::End { next } => i <= next <= s.len(),
            LexStep::Bad { at, .. } => i <= at < s.len(),
        },
{
    crate::scanner::lemma_ws_end_bounds(s, i);
    let p1 = ws_end(s, i);
    let remaining = s.subrange(p1, s.len() as int);
    let k = first_matcher(s, p1);
    if k < 6 {
        let n = match_at(s, p1, k)->0;
        if 0 < n <= remaining.len() {
            crate::scanner::lemma_ws_end_bounds(s, p1 + n);
        }
    }
}

/// The whole lexing of `s` from offset `i` on: the token stream up to the
/// end of the text, or the first lexical fault (its character and offset).
/// A step that failed to move the cursor forward would end the stream; no
/// step does, so that guard only keeps the recursion well-founded.
pub open spec fn lex_from(s: Seq<char>, i: int) -> Result<Seq<(Token, Seq<char>)>, (char, int)>
    decreases s.len() - i,
{
    match spec_next(s, i) {
        LexStep::Tok { kind, lexeme, next } => {
            if i < next <= s.len() {
                match lex_from(s, next) {
                    Ok(rest) => Ok(seq![(kind, lexeme)] + rest),
                    Err(e) => Err(e),
                }
            } else {
                Ok(Seq::empty())
            }
        },
        LexStep::End { .. } => Ok(Seq::empty()),
        LexStep::Bad { ch, at } => Err((ch, at)),
    }
}

/// Relies on char::to_string: the one-character string of `c`.
#[verifier::external_body]
fn char_to_string(c: char) -> (r: String)
    ensures
        r@ == seq![c],
{
    c.to_string()
}

/// A lazy token stream over one tag's interior: one call, one token, until
/// the text is exhausted. It owns its cursor and the compiled token
/// patterns.
pub struct Tokens {
    scanner: Scanner,
    matchers: Vec<CompiledPattern>,
}

impl Tokens {
    /// The scanned text's character sequence.
    pub closed spec fn src(&self) -> Seq<char> {
        self.scanner.src()
    }

    /// The cursor's character offset.
    pub closed spec fn pos(&self) -> int {
        self.scanner.pos()
    }

    pub closed spec fn wf(&self) -> bool {
        &&& self.scanner.wf()
        &&& self.matchers@.len() == 6
        &&& forall|k: int| 0 <= k < 6 ==> (#[trigger] self.matchers@[k])@ == matcher_text(k)
    }

    /// The cursor of a well-formed token stream sits within its text, whose
    /// length fits the machine.
    pub proof fn lemma_pos_in_bounds(&self)
        requires
            self.wf(),
        ensures
            0 <= self.pos() <= self.src().len(),
            self.src().len() <= usize::MAX,
    {
        self.scanner.lemma_pos_in_bounds();
    }

    /// Compiles the token patterns, in priority order, around the given
    /// cursor. The specials need no patterns: they live in a fixed table.
    /// Succeeds whenever the pattern compiler accepts all six patterns.
    pub fn new(scanner: Scanner) -> (r: Result<Tokens, TemplateError>)
        requires
            scanner.wf(),
        ensures
            (forall|k: int| 0 <= k < 6 ==> re_compiles(#[trigger] matcher_text(k))) ==> r is Ok,
            match r {
                Ok(t) => t.wf() && t.src() == scanner.src() && t.pos() == scanner.pos(),
                Err(e) => e == TemplateError::BadPattern,
            },
    {
        let m0 = match CompiledPattern::new(r"^(==|!=|<>|<=?|>=?|contains)") {
            Some(p) => p,
            None => {
                proof {
                    assert(!re_compiles(matcher_text(0)));
                }
                return Err(TemplateError::BadPattern);
            },
        };
        let m1 = match CompiledPattern::new(r"^'[^']*'") {
            Some(p) => p,
            None => {
                proof {
                    assert(!re_compiles(matcher_text(1)));
                }
                return Err(TemplateError::BadPattern);
            },
        };
        let m2 = match CompiledPattern::new(r#"^"[^"]*""#) {
            Some(p) => p,
            None => {
                proof {
                    assert(!re_compiles(matcher_text(2)));
                }
                return Err(TemplateError::BadPattern);
            },
        };
        let m3 = match CompiledPattern::new(r"^-?\d+(\.\d+)?") {
            Some(p) => p,
            None => {
                proof {
                    assert(!re_compiles(matcher_text(3)));
                }
                return Err(TemplateError::BadPattern);
            },
        };
        let m4 = match CompiledPattern::new(r"^[a-zA-Z_][\w-]*\??") {
            Some(p) => p,
            None => {
                proof {
                    assert(!re_compiles(matcher_text(4)));
                }
                return Err(TemplateError::BadPattern);
            },
        };
        let m5 = match CompiledPattern::new(r"^\.\.") {
            Some(p) => p,
            None => {
                proof {
                    assert(!re_compiles(matcher_text(5)));
                }
                return Err(TemplateError::BadPattern);
            },
        };
        let mut matchers: Vec<CompiledPattern> = Vec::new();
        matchers.push(m0);
        matchers.push(m1);
        matchers.push(m2);
        matchers.push(m3);
        matchers.push(m4);
        matchers.push(m5);
        Ok(Tokens { scanner, matchers })
    }

    /// Pairs matcher `k`'s matched text with its token kind; the range
    /// operator's lexeme is always `..`.
    pub fn token_for(&self, k: usize, value: String) -> (r: LexedToken)
        requires
            k < 6,
        ensures
            r.0 == kind_of(k as int),
            r.1@ == if k == 5 {
                ".."@
            } else {
                value@
            },
    {
        if k == 0 {
            (Token::Comparison, value)
        } else if k == 1 || k == 2 {
            (Token::String, value)
        } else if k == 3 {
            (Token::Number, value)
        } else if k == 4 {
            (Token::Identifier, value)
        } else {
            (Token::Range, String::from_str(".."))
        }
    }

    /// Skips whitespace, then tries the matchers in priority order and
    /// reports the first that matches the rest of the text.
    fn find_matcher(&mut self) -> (r: Option<usize>)
        requires
            old(self).wf(),
        ensures
            final(self).wf(),
            final(self).src() == old(self).src(),
            final(self).pos() == ws_end(old(self).src(), old(self).pos()),
            match r {
                Some(k) => k < 6 && first_matcher(final(self).src(), final(self).pos()) == k,
                None => first_matcher(final(self).src(), final(self).pos()) == 6,
            },
    {
        proof {
            old(self).scanner.lemma_pos_in_bounds();
            crate::scanner::lemma_ws_end_bounds(old(self).src(), old(self).pos());
        }
        self.scanner.skip_whitespace();
        let ghost s0 = self.src();
        let ghost p1 = self.pos();
        let mut k: usize = 0;
        while k < 6
            invariant
                self.wf(),
                k <= 6,
                s0 == old(self).src(),
                p1 == ws_end(old(self).src(), old(self).pos()),
                self.src() == s0,
                self.pos() == p1,
                ws_end(s0, p1) == p1,
                forall|j: int| 0 <= j < k ==> match_at(s0, p1, j) is None,
            decreases 6 - k,
        {
            if self.scanner.check(&self.matchers[k]) {
                return Some(k);
            }
            k = k + 1;
        }
        None
    }

    /// Consumes the match that matcher `k` reported and builds its token.
    /// An empty match ends the stream instead: it cannot make progress, and
    /// none of the fixed patterns produces one.
    fn matched_token(&mut self, k: usize) -> (r: Result<Option<LexedToken>, TemplateError>)
        requires
            old(self).wf(),
            k < 6,
            ws_end(old(self).src(), old(self).pos()) == old(self).pos(),
            match_at(old(self).src(), old(self).pos(), k as int) is Some,
        ensures
            final(self).wf(),
            final(self).src() == old(self).src(),
            ({
                let s = old(self).src();
                let p1 = old(self).pos();
                let remaining = s.subrange(p1, s.len() as int);
                let n = match_at(s, p1, k as int)->0;
                if 0 < n <= remaining.len() {
                    (r matches Ok(Some(t)) && t.0 == kind_of(k as int) && t.1@ == (if k == 5 {
                        ".."@
                    } else {
                        remaining.subrange(0, n)
                    }) && final(self).pos() == ws_end(s, p1 + n))
                } else {
                    r == Ok::<Option<LexedToken>, TemplateError>(None) && final(self).pos() == p1
                }
            }),
    {
        let ghost s = old(self).src();
        let ghost p1 = old(self).pos();
        let ghost remaining = s.subrange(p1, s.len() as int);
        let ghost n = match_at(s, p1, k as int)->0;
        let scanned = self.scanner.scan(&self.matchers[k]);
        match scanned {
            Some(text) => {
                proof {
                    assert(text@ == remaining.subrange(0, n));
                    assert(text@.len() == n);
                }
                if text.as_str().unicode_len() == 0 {
                    return Ok(None);
                }
                Ok(Some(self.token_for(k, text)))
            },
            None => {
                proof {
                    assert(false);
                }
                Ok(None)
            },
        }
    }

    /// Reads one character and looks it up in the specials table; a
    /// character outside the table is a lexical fault, reported with its
    /// offset.
    fn matched_special(&mut self) -> (r: Result<Option<LexedToken>, TemplateError>)
        requires
            old(self).wf(),
        ensures
            final(self).wf(),
            final(self).src() == old(self).src(),
            old(self).pos() == old(self).src().len() ==> r == Ok::<
                Option<LexedToken>,
                TemplateError,
            >(None) && final(self).pos() == old(self).pos(),
            old(self).pos() < old(self).src().len() ==> ({
                let c = old(self).src()[old(self).pos()];
                &&& final(self).pos() == old(self).pos() + 1
                &&& match special_token(c) {
                    Some(t) => r matches Ok(Some(lt)) && lt.0 == t && lt.1@ == seq![c],
                    None => r == Err::<Option<LexedToken>, TemplateError>(
                        TemplateError::Lexical { ch: c, at: old(self).pos() as usize },
                    ),
                }
            }),
    {
        let at = self.scanner.position();
        let read = self.scanner.get_char();
        match read {
            None => Ok(None),
            Some(c) => {
                match special_for(c) {
                    Some(t) => Ok(Some((t, char_to_string(c)))),
                    None => Err(TemplateError::Lexical { ch: c, at }),
                }
            },
        }
    }

    /// One lexing step: the next token of the text, `Ok(None)` once the
    /// text is exhausted, or the lexical fault that stopped the stream.
    pub fn next_match(&mut self) -> (r: Result<Option<LexedToken>, TemplateError>)
        requires
            old(self).wf(),
        ensures
            final(self).wf(),
            final(self).src() == old(self).src(),
            match spec_next(old(self).src(), old(self).pos()) {
                LexStep::Tok { kind, lexeme, next } => (r matches Ok(Some(t)) && t.0 == kind
                    && t.1@ == lexeme && final(self).pos() == next),
                LexStep::End { next } => r == Ok::<Option<LexedToken>, TemplateError>(None)
                    && final(self).pos() == next,
                LexStep::Bad { ch, at } => r == Err::<Option<LexedToken>, TemplateError>(
                    TemplateError::Lexical { ch, at: at as usize },
                ) && final(self).pos() == at + 1,
            },
    {
        proof {
            old(self).scanner.lemma_pos_in_bounds();
            crate::scanner::lemma_ws_end_bounds(old(self).src(), old(self).pos());
        }
        let found = self.find_matcher();
        match found {
            Some(k) => self.matched_token(k),
            None => self.matched_special(),
        }
    }
}

/// The lexer for one tag's interior: it owns the scanner its token streams
/// start from.
pub struct Lexer {
    pub scanner: Scanner,
}

impl Lexer {
    pub fn new(source: &str) -> (r: Lexer)
        ensures
            r.scanner.wf(),
            r.scanner.src() == source@,
            r.scanner.pos() == 0,
    {
        Lexer { scanner: Scanner::new(source) }
    }

    /// A token stream starting from the scanner's current position.
    /// `Err` only when the pattern compiler refuses a token pattern, which
    /// the first clause rules out whenever it accepts all six.
    pub fn tokens(&self) -> (r: Result<Tokens, TemplateError>)
        requires
            self.scanner.wf(),
        ensures
            (forall|k: int| 0 <= k < 6 ==> re_compiles(#[trigger] matcher_text(k))) ==> r is Ok,
            match r {
                Ok(t) => t.wf() && t.src() == self.scanner.src() && t.pos()
                    == self.scanner.pos(),
                Err(e) => e == TemplateError::BadPattern,
            },
    {
        Tokens::new(self.scanner.duplicate())
    }
}

/// The single-character token for `c`, if the table holds one.
fn special_for(c: char) -> (r: Option<Token>)
    ensures
        r == special_token(c),
{
    match c {
        '|' => Some(Token::Pipe),
        '.' => Some(Token::Dot),
        ':' => Some(Token::Colon),
        ',' => Some(Token::Comma),
        '[' => Some(Token::OpenSquare),
        ']' => Some(Token::CloseSquare),
        '(' => Some(Token::OpenRound),
        ')' => Some(Token::CloseRound),
        '?' => Some(Token::Question),
        '-' => Some(Token::Dash),
        _ => None,
    }
}

} // verus!
