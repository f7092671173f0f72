use vstd::prelude::*;

verus! {

/// Why a compilation failed.
#[derive(Debug, PartialEq, Eq)]
pub enum CompileError {
    /// A backslash in a string literal is followed by something other than `"` or `\`.
    UnknownEscape(char),
    /// A string literal ends with a lone backslash.
    UnfinishedEscape,
    /// A character that starts no token.
    UnexpectedCharacter(char),
    /// An integer literal that is not a numeral or does not fit in 64 bits.
    InvalidInteger,
    /// The token stream does not have the expected shape.
    Syntax(SyntaxError),
    /// A variable is used that no earlier `let` of the same test binds.
    UnboundVariable(String),
    /// A value is used where one of another type is needed.
    TypeError,
    /// More variables than the factory can number.
    TooManyVariables,
    /// The control-flow graph of the program has a cycle.
    CyclicControlFlow,
    /// A pass met a form that an earlier pass cannot produce.
    Internal,
}

/// What the parser expected and did not find.
#[derive(Debug, PartialEq, Eq, Clone, Copy)]
pub enum SyntaxError {
    OutOfTokens,
    ExpectedOpenParen,
    ExpectedCloseParen,
    ExpectedDefinition,
    ExpectedTestName,
    ExpectedStatement,
    ExpectedCommandText,
    ExpectedIdentifier,
    ExpectedExpression,
    ExpectedArithmetic,
}

} // verus!
