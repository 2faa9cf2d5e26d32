use vstd::prelude::*;

verus! {

/// The failures the front end reports as explicit results instead of aborting.
#[derive(Debug, Clone, Copy, PartialEq, Eq)]
pub enum TemplateError {
    /// A character begins no token: it matches none of the token patterns and
    /// is not one of the single-character specials. Carries the offending
    /// character and its character offset in the scanned text.
    Lexical { ch: char, at: usize },
    /// The token at the given cursor index cannot continue the expression
    /// grammar, or the token stream ended where a token was required.
    Syntax { at: usize },
    /// A relative cursor move would take the index below zero.
    CursorUnderflow,
    /// A scope pop would remove the base frame.
    ScopeUnderflow,
    /// An expression nests more deeply than the parser's fixed bound.
    NestingTooDeep,
    /// A token pattern was rejected by the pattern compiler.
    BadPattern,
}

} // verus!
