use vstd::prelude::*;

use crate::errors::TemplateError;
use crate::lexer::{lemma_spec_next_advances, lex_from, matcher_text, LexedToken, Lexer, Token};
use crate::pattern::re_compiles;
use vstd::string::StringExecFns;

verus! {

/// The parser refuses expressions nested more deeply than this, instead of
/// letting recursion exhaust the call stack.
pub const MAX_NESTING: usize = 64;

/// A token sequence seen through its lexemes' character sequences.
pub open spec fn toks_view(ts: Seq<LexedToken>) -> Seq<(Token, Seq<char>)> {
    ts.map_values(|t: LexedToken| (t.0, t.1@))
}

/// What a probe for `token` at `idx` yields: the lexeme under the cursor
/// and the advanced cursor on a match, or nothing and the cursor unmoved.
pub open spec fn consume_spec(ts: Seq<(Token, Seq<char>)>, idx: int, token: Token) -> (
    Option<Seq<char>>,
    int,
) {
    if 0 <= idx < ts.len() && ts[idx].0 == token {
        (Some(ts[idx].1), idx + 1)
    } else {
        (None, idx)
    }
}

/// Where a relative move by `offset` puts the cursor: nowhere when it would
/// pass below zero; at the machine's upper index limit, which is already
/// past any token, when it would pass above it.
pub open spec fn offset_index(idx: int, offset: int) -> Option<int> {
    if idx + offset < 0 {
        None
    } else if idx + offset <= usize::MAX {
        Some(idx + offset)
    } else {
        Some(usize::MAX as int)
    }
}

/// The outcome of one grammar rule: the text it parsed and the cursor after
/// it, a syntax fault at an offset, or exhaustion of the nesting bound.
pub enum ParseStep {
    Parsed { text: Seq<char>, next: int },
    Fail { at: int },
    Deep,
}

/// The expression rule: an identifier heads a variable path, an opening
/// parenthesis heads a range, and a string or number is itself; any other
/// token is a syntax fault. A cursor with no token under it fails the rule
/// too: nested positions need the expression, so there it is a fault, while
/// the public probe reports it as absence instead.
pub open spec fn spec_expression(ts: Seq<(Token, Seq<char>)>, i: int, d: int) -> ParseStep
    decreases d, ts.len() - i, 2int,
{
    if d <= 0 {
        ParseStep::Deep
    } else if !(0 <= i < ts.len()) {
        ParseStep::Fail { at: i }
    } else {
        let k = ts[i].0;
        if k == Token::Identifier {
            spec_variable(ts, i, d - 1)
        } else if k == Token::OpenRound {
            spec_range(ts, i, d - 1)
        } else if k == Token::String || k == Token::Number {
            ParseStep::Parsed { text: ts[i].1, next: i + 1 }
        } else {
            ParseStep::Fail { at: i }
        }
    }
}

/// The variable rule: an identifier, then any number of `[` expression `]`
/// index suffixes, then optionally `.` and a nested variable; the parsed
/// texts are concatenated verbatim.
pub open spec fn spec_variable(ts: Seq<(Token, Seq<char>)>, i: int, d: int) -> ParseStep
    decreases d, ts.len() - i, 1int,
{
    if d <= 0 {
        ParseStep::Deep
    } else if !(0 <= i < ts.len() && ts[i].0 == Token::Identifier) {
        ParseStep::Fail { at: i }
    } else {
        spec_var_tail(ts, ts[i].1, i + 1, d)
    }
}

/// The suffixes a variable path may carry after its head, folded onto the
/// text parsed so far.
pub open spec fn spec_var_tail(ts: Seq<(Token, Seq<char>)>, acc: Seq<char>, i: int, d: int) -> ParseStep
    decreases d, ts.len() - i, 0int,
{
    if d <= 0 {
        ParseStep::Deep
    } else if 0 <= i < ts.len() && ts[i].0 == Token::OpenSquare {
        match spec_expression(ts, i + 1, d - 1) {
            ParseStep::Parsed { text, next } => {
                if 0 <= next < ts.len() && ts[next].0 == Token::CloseSquare {
                    if next + 1 > i {
                        spec_var_tail(ts, acc + ts[i].1 + text + ts[next].1, next + 1, d)
                    } else {
                        ParseStep::Fail { at: next }
                    }
                } else {
                    ParseStep::Fail { at: next }
                }
            },
            other => other,
        }
    } else if 0 <= i < ts.len() && ts[i].0 == Token::Dot {
        match spec_variable(ts, i + 1, d - 1) {
            ParseStep::Parsed { text, next } => ParseStep::Parsed {
                text: acc + ts[i].1 + text,
                next,
            },
            other => other,
        }
    } else {
        ParseStep::Parsed { text: acc, next: i }
    }
}

/// The range rule: `(` expression `..` expression `)`, concatenated
/// verbatim.
pub open spec fn spec_range(ts: Seq<(Token, Seq<char>)>, i: int, d: int) -> ParseStep
    decreases d, ts.len() - i, 1int,
{
    if d <= 0 {
        ParseStep::Deep
    } else if !(0 <= i < ts.len() && ts[i].0 == Token::OpenRound) {
        ParseStep::Fail { at: i }
    } else {
        match spec_expression(ts, i + 1, d - 1) {
            ParseStep::Parsed { text: low, next: n1 } => {
                if 0 <= n1 < ts.len() && ts[n1].0 == Token::Range {
                    match spec_expression(ts, n1 + 1, d - 1) {
                        ParseStep::Parsed { text: high, next: n2 } => {
                            if 0 <= n2 < ts.len() && ts[n2].0 == Token::CloseRound {
                                ParseStep::Parsed {
                                    text: ts[i].1 + low + ts[n1].1 + high + ts[n2].1,
                                    next: n2 + 1,
                                }
                            } else {
                                ParseStep::Fail { at: n2 }
                            }
                        },
                        other => other,
                    }
                } else {
                    ParseStep::Fail { at: n1 }
                }
            },
            other => other,
        }
    }
}

/// A movable cursor over the fully lexed token sequence of one tag's
/// interior.
pub struct Parser {
    tokens: Vec<LexedToken>,
    current_index: usize,
}

impl Parser {
    /// The token sequence, through its lexemes' character sequences.
    pub closed spec fn toks(&self) -> Seq<(Token, Seq<char>)> {
        toks_view(self.tokens@)
    }

    /// The cursor's index.
    pub closed spec fn idx(&self) -> int {
        self.current_index as int
    }

    /// Lexes the whole source up front. `Err` carries the first lexical
    /// fault, or reports a refused token pattern; when the pattern compiler
    /// accepts all six token patterns and the source lexes, success is owed.
    pub fn new(source: &str) -> (r: Result<Parser, TemplateError>)
        ensures
            (forall|k: int| 0 <= k < 6 ==> re_compiles(#[trigger] matcher_text(k))) && lex_from(
                source@,
                0,
            ) is Ok ==> r is Ok,
            r matches Ok(p) ==> (lex_from(source@, 0) matches Ok(ts) && p.toks() == ts && p.idx()
                == 0),
            lex_from(source@, 0) is Err ==> r is Err,
            r matches Err(e) ==> e == TemplateError::BadPattern || (lex_from(source@, 0) matches Err(f)
                && e == TemplateError::Lexical { ch: f.0, at: f.1 as usize }),
    {
        let lexer = Lexer::new(source);
        let mut stream = match lexer.tokens() {
            Ok(t) => t,
            Err(e) => {
                return Err(e);
            },
        };
        let mut collected: Vec<LexedToken> = Vec::new();
        proof {
            if let Ok(rest) = lex_from(source@, 0) {
                assert(toks_view(collected@) + rest =~= rest);
            }
        }
        loop
            invariant
                stream.wf(),
                stream.src() == source@,
                0 <= stream.pos() <= source@.len(),
                lex_from(source@, 0) == (match lex_from(source@, stream.pos()) {
                    Ok(rest) => Ok::<Seq<(Token, Seq<char>)>, (char, int)>(
                        toks_view(collected@) + rest,
                    ),
                    Err(e) => Err::<Seq<(Token, Seq<char>)>, (char, int)>(e),
                }),
            decreases source@.len() - stream.pos(),
        {
            let ghost p = stream.pos();
            let step = stream.next_match();
            proof {
                lemma_spec_next_advances(source@, p);
            }
            match step {
                Ok(Some(t)) => {
                    let ghost tv = (t.0, t.1@);
                    let ghost prev = collected@;
                    collected.push(t);
                    proof {
                        assert(toks_view(collected@) =~= toks_view(prev) + seq![tv]);
                        if let Ok(rest) = lex_from(source@, stream.pos()) {
                            assert(toks_view(prev) + (seq![tv] + rest) =~= toks_view(collected@)
                                + rest);
                        }
                    }
                },
                Ok(None) => {
                    proof {
                        assert(toks_view(collected@) + Seq::<(Token, Seq<char>)>::empty()
                            =~= toks_view(collected@));
                    }
                    return Ok(Parser { tokens: collected, current_index: 0 });
                },
                Err(e) => {
                    return Err(e);
                },
            }
        }
    }

    /// Where a relative move by `offset` would put the cursor; nowhere when
    /// it would pass below index zero.
    pub fn index_with_offset(&self, offset: isize) -> (r: Option<usize>)
        ensures
            match r {
                Some(v) => offset_index(self.idx(), offset as int) == Some(v as int),
                None => offset_index(self.idx(), offset as int) is None,
            },
    {
        let t: i128 = self.current_index as i128 + offset as i128;
        if t < 0 {
            None
        } else if t > usize::MAX as i128 {
            Some(usize::MAX)
        } else {
            Some(t as usize)
        }
    }

    /// Moves the cursor by a signed offset. A move below index zero is
    /// refused and leaves the cursor unchanged; past the end is legal, and
    /// later probes simply find no token there.
    pub fn jump(&mut self, n: isize) -> (r: Result<(), TemplateError>)
        ensures
            final(self).toks() == old(self).toks(),
            match offset_index(old(self).idx(), n as int) {
                Some(v) => r == Ok::<(), TemplateError>(()) && final(self).idx() == v,
                None => r == Err::<(), TemplateError>(TemplateError::CursorUnderflow)
                    && final(self).idx() == old(self).idx(),
            },
    {
        match self.index_with_offset(n) {
            Some(index) => {
                self.current_index = index;
                Ok(())
            },
            None => Err(TemplateError::CursorUnderflow),
        }
    }

    /// A probe-and-commit: when the token under the cursor has the expected
    /// kind, its lexeme is returned and the cursor advances by one;
    /// otherwise nothing is returned and the cursor stays where it was.
    pub fn consume(&mut self, token: Token) -> (r: Option<String>)
        ensures
            final(self).toks() == old(self).toks(),
            ({
                let (res, ni) = consume_spec(old(self).toks(), old(self).idx(), token);
                &&& final(self).idx() == ni
                &&& match res {
                    Some(lex) => (r matches Some(s) && s@ == lex),
                    None => r is None,
                }
            }),
    {
        if self.current_index < self.tokens.len() {
            let pair = &self.tokens[self.current_index];
            if pair.0 == token {
                let value = pair.1.clone();
                self.current_index = self.current_index + 1;
                return Some(value);
            }
        }
        None
    }

    /// The token at `index`, or nothing past the end.
    pub fn token_at(&self, index: usize) -> (r: Option<&LexedToken>)
        ensures
            index < self.toks().len() ==> (r matches Some(t) && t.0 == self.toks()[index as int].0
                && t.1@ == self.toks()[index as int].1),
            index >= self.toks().len() ==> r is None,
    {
        if index < self.tokens.len() {
            Some(&self.tokens[index])
        } else {
            None
        }
    }

    /// The kind of the token at `index`, or nothing past the end.
    pub fn type_at(&self, index: usize) -> (r: Option<Token>)
        ensures
            index < self.toks().len() ==> r == Some(self.toks()[index as int].0),
            index >= self.toks().len() ==> r is None,
    {
        match self.token_at(index) {
            Some(pair) => Some(pair.0),
            None => None,
        }
    }

    /// Whether the token at `index` has the given kind; an index past the
    /// end answers false.
    pub fn is_token(&self, index: usize, token: Token) -> (r: Option<bool>)
        ensures
            r == Some(index < self.toks().len() && self.toks()[index as int].0 == token),
    {
        match self.token_at(index) {
            Some(pair) => Some(pair.0 == token),
            None => Some(false),
        }
    }

    /// Whether the token `offset` places away from the cursor has the given
    /// kind; an offset that leaves the token sequence answers false.
    pub fn is_current_offset(&self, token: Token, offset: isize) -> (r: bool)
        ensures
            r == match offset_index(self.idx(), offset as int) {
                Some(j) => j < self.toks().len() && self.toks()[j].0 == token,
                None => false,
            },
    {
        match self.index_with_offset(offset) {
            Some(index) => {
                match self.is_token(index, token) {
                    Some(b) => b,
                    None => false,
                }
            },
            None => false,
        }
    }

    /// Whether the token under the cursor has the given kind.
    pub fn is_current(&self, token: Token) -> (r: bool)
        ensures
            r == (self.idx() < self.toks().len() && self.toks()[self.idx()].0 == token),
    {
        self.is_current_offset(token, 0)
    }

    /// The expression rule with `d` nesting steps left.
    fn expression_depth(&mut self, d: usize) -> (r: Result<String, TemplateError>)
        ensures
            final(self).toks() == old(self).toks(),
            old(self).idx() <= final(self).idx(),
            old(self).idx() <= old(self).toks().len()
                ==> final(self).idx() <= old(self).toks().len(),
            r is Ok ==> old(self).idx() < final(self).idx() <= old(self).toks().len(),
            match spec_expression(old(self).toks(), old(self).idx(), d as int) {
                ParseStep::Parsed { text, next } => (r matches Ok(s) && s@ == text
                    && final(self).idx() == next),
                ParseStep::Fail { at } => r == Err::<String, TemplateError>(
                    TemplateError::Syntax { at: at as usize },
                ),
                ParseStep::Deep => r == Err::<String, TemplateError>(
                    TemplateError::NestingTooDeep,
                ),
            },
        decreases d,
    {
        if d == 0 {
            return Err(TemplateError::NestingTooDeep);
        }
        let t = self.type_at(self.current_index);
        match t {
            None => Err(TemplateError::Syntax { at: self.current_index }),
            Some(k) => {
                if k == Token::Identifier {
                    self.variable_depth(d - 1)
                } else if k == Token::OpenRound {
                    self.range_depth(d - 1)
                } else if k == Token::String || k == Token::Number {
                    match self.consume(k) {
                        Some(s) => Ok(s),
                        None => {
                            proof {
                                assert(false);
                            }
                            Err(TemplateError::NestingTooDeep)
                        },
                    }
                } else {
                    Err(TemplateError::Syntax { at: self.current_index })
                }
            },
        }
    }

    /// The variable rule with `d` nesting steps left.
    fn variable_depth(&mut self, d: usize) -> (r: Result<String, TemplateError>)
        ensures
            final(self).toks() == old(self).toks(),
            old(self).idx() <= final(self).idx(),
            old(self).idx() <= old(self).toks().len()
                ==> final(self).idx() <= old(self).toks().len(),
            r is Ok ==> old(self).idx() < final(self).idx() <= old(self).toks().len(),
            match spec_variable(old(self).toks(), old(self).idx(), d as int) {
                ParseStep::Parsed { text, next } => (r matches Ok(s) && s@ == text
                    && final(self).idx() == next),
                ParseStep::Fail { at } => r == Err::<String, TemplateError>(
                    TemplateError::Syntax { at: at as usize },
                ),
                ParseStep::Deep => r == Err::<String, TemplateError>(
                    TemplateError::NestingTooDeep,
                ),
            },
        decreases d,
    {
        if d == 0 {
            return Err(TemplateError::NestingTooDeep);
        }
        let ghost ts = self.toks();
        let ghost i0 = self.idx();
        let mut value = match self.consume(Token::Identifier) {
            Some(s) => s,
            None => {
                return Err(TemplateError::Syntax { at: self.current_index });
            },
        };
        while self.is_current(Token::OpenSquare)
            invariant
                1 <= d,
                ts == old(self).toks(),
                i0 == old(self).idx(),
                self.toks() == ts,
                i0 < self.idx() <= ts.len(),
                spec_variable(ts, i0, d as int) == spec_var_tail(ts, value@, self.idx(), d as int),
            decreases ts.len() - self.idx(),
        {
            let open = match self.consume(Token::OpenSquare) {
                Some(s) => s,
                None => {
                    proof {
                        assert(false);
                    }
                    return Err(TemplateError::NestingTooDeep);
                },
            };
            value.append(open.as_str());
            let inner = match self.expression_depth(d - 1) {
                Ok(s) => s,
                Err(e) => {
                    return Err(e);
                },
            };
            value.append(inner.as_str());
            let close = match self.consume(Token::CloseSquare) {
                Some(s) => s,
                None => {
                    return Err(TemplateError::Syntax { at: self.current_index });
                },
            };
            value.append(close.as_str());
        }
        if self.is_current(Token::Dot) {
            let dot = match self.consume(Token::Dot) {
                Some(s) => s,
                None => {
                    proof {
                        assert(false);
                    }
                    return Err(TemplateError::NestingTooDeep);
                },
            };
            value.append(dot.as_str());
            let nested = match self.variable_depth(d - 1) {
                Ok(s) => s,
                Err(e) => {
                    return Err(e);
                },
            };
            value.append(nested.as_str());
        }
        Ok(value)
    }

    /// The range rule with `d` nesting steps left.
    fn range_depth(&mut self, d: usize) -> (r: Result<String, TemplateError>)
        ensures
            final(self).toks() == old(self).toks(),
            old(self).idx() <= final(self).idx(),
            old(self).idx() <= old(self).toks().len()
                ==> final(self).idx() <= old(self).toks().len(),
            r is Ok ==> old(self).idx() < final(self).idx() <= old(self).toks().len(),
            match spec_range(old(self).toks(), old(self).idx(), d as int) {
                ParseStep::Parsed { text, next } => (r matches Ok(s) && s@ == text
                    && final(self).idx() == next),
                ParseStep::Fail { at } => r == Err::<String, TemplateError>(
                    TemplateError::Syntax { at: at as usize },
                ),
                ParseStep::Deep => r == Err::<String, TemplateError>(
                    TemplateError::NestingTooDeep,
                ),
            },
        decreases d,
    {
        if d == 0 {
            return Err(TemplateError::NestingTooDeep);
        }
        let mut value = match self.consume(Token::OpenRound) {
            Some(s) => s,
            None => {
                return Err(TemplateError::Syntax { at: self.current_index });
            },
        };
        let low = match self.expression_depth(d - 1) {
            Ok(s) => s,
            Err(e) => {
                return Err(e);
            },
        };
        value.append(low.as_str());
        let op = match self.consume(Token::Range) {
            Some(s) => s,
            None => {
                return Err(TemplateError::Syntax { at: self.current_index });
            },
        };
        value.append(op.as_str());
        let high = match self.expression_depth(d - 1) {
            Ok(s) => s,
            Err(e) => {
                return Err(e);
            },
        };
        value.append(high.as_str());
        let close = match self.consume(Token::CloseRound) {
            Some(s) => s,
            None => {
                return Err(TemplateError::Syntax { at: self.current_index });
            },
        };
        value.append(close.as_str());
        Ok(value)
    }

    /// Parses one expression at the cursor: a variable path, a range, or a
    /// string or number literal, normalized to its verbatim text. With no
    /// token under the cursor no expression begins there: the probe answers
    /// `Ok(None)` and the cursor stays put; only a present token that cannot
    /// start an expression is a syntax fault.
    pub fn expression(&mut self) -> (r: Result<Option<String>, TemplateError>)
        ensures
            final(self).toks() == old(self).toks(),
            old(self).idx() <= final(self).idx(),
            old(self).idx() <= old(self).toks().len()
                ==> final(self).idx() <= old(self).toks().len(),
            r matches Ok(Some(_)) ==> old(self).idx() < final(self).idx(),
            old(self).idx() >= old(self).toks().len() ==> r == Ok::<Option<String>, TemplateError>(
                None,
            ) && final(self).idx() == old(self).idx(),
            old(self).idx() < old(self).toks().len() ==> match spec_expression(
                old(self).toks(),
                old(self).idx(),
                MAX_NESTING as int,
            ) {
                ParseStep::Parsed { text, next } => (r matches Ok(Some(s)) && s@ == text
                    && final(self).idx() == next),
                ParseStep::Fail { at } => r == Err::<Option<String>, TemplateError>(
                    TemplateError::Syntax { at: at as usize },
                ),
                ParseStep::Deep => r == Err::<Option<String>, TemplateError>(
                    TemplateError::NestingTooDeep,
                ),
            },
    {
        if self.current_index >= self.tokens.len() {
            return Ok(None);
        }
        match self.expression_depth(MAX_NESTING) {
            Ok(s) => Ok(Some(s)),
            Err(e) => Err(e),
        }
    }

    /// Parses one variable path at the cursor.
    pub fn variable(&mut self) -> (r: Result<String, TemplateError>)
        ensures
            final(self).toks() == old(self).toks(),
            old(self).idx() <= final(self).idx(),
            old(self).idx() <= old(self).toks().len()
                ==> final(self).idx() <= old(self).toks().len(),
            r is Ok ==> old(self).idx() < final(self).idx() <= old(self).toks().len(),
            match spec_variable(old(self).toks(), old(self).idx(), MAX_NESTING as int) {
                ParseStep::Parsed { text, next } => (r matches Ok(s) && s@ == text
                    && final(self).idx() == next),
                ParseStep::Fail { at } => r == Err::<String, TemplateError>(
                    TemplateError::Syntax { at: at as usize },
                ),
                ParseStep::Deep => r == Err::<String, TemplateError>(
                    TemplateError::NestingTooDeep,
                ),
            },
    {
        self.variable_depth(MAX_NESTING)
    }

    /// Parses one range expression at the cursor.
    pub fn range(&mut self) -> (r: Result<String, TemplateError>)
        ensures
            final(self).toks() == old(self).toks(),
            old(self).idx() <= final(self).idx(),
            old(self).idx() <= old(self).toks().len()
                ==> final(self).idx() <= old(self).toks().len(),
            r is Ok ==> old(self).idx() < final(self).idx() <= old(self).toks().len(),
            match spec_range(old(self).toks(), old(self).idx(), MAX_NESTING as int) {
                ParseStep::Parsed { text, next } => (r matches Ok(s) && s@ == text
                    && final(self).idx() == next),
                ParseStep::Fail { at } => r == Err::<String, TemplateError>(
                    TemplateError::Syntax { at: at as usize },
                ),
                ParseStep::Deep => r == Err::<String, TemplateError>(
                    TemplateError::NestingTooDeep,
                ),
            },
    {
        self.range_depth(MAX_NESTING)
    }
}

/// Law: a probe for the wrong kind is non-destructive. It answers nothing,
/// leaves the cursor where it was, and a following probe for the kind
/// actually under the cursor still yields that token's lexeme.
pub proof fn lemma_consume_probe(ts: Seq<(Token, Seq<char>)>, idx: int, wrong: Token)
    requires
        0 <= idx < ts.len(),
        ts[idx].0 != wrong,
    ensures
        ({
            let (r1, i1) = consume_spec(ts, idx, wrong);
            &&& r1 is None
            &&& i1 == idx
            &&& consume_spec(ts, i1, ts[idx].0).0 == Some(ts[idx].1)
        }),
{
}

/// Law: a cursor move within bounds is undone by the opposite move: after
/// `jump` by `n` and then by `-n`, the cursor is back at its old index.
pub proof fn lemma_jump_round_trip(idx: int, n: int)
    requires
        0 <= idx <= usize::MAX,
        0 <= idx + n <= usize::MAX,
    ensures
        offset_index(idx, n) == Some(idx + n),
        offset_index(idx + n, -n) == Some(idx),
{
}

} // verus!
