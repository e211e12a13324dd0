//! The errors of the parser.

use vstd::prelude::*;

verus! {

/// Why a parse failed. Each kind has one fixed message.
#[derive(Debug, Clone, Copy, PartialEq, Eq, Structural)]
pub enum ParseError {
    /// The tokens ran out where one more was needed.
    UnexpectedEof,
    /// A declaration or expression was parsed, and tokens are left over.
    UnexpectedToken,
    /// `unary` or `binary` is not followed by an operator character.
    ExpectedOperator,
    /// A prototype begins with something that cannot name a function.
    ExpectedPrototypeName,
    /// The name of a prototype is not followed by `(`.
    ExpectedPrototypeParen,
    /// A parameter of a prototype is not an identifier.
    ExpectedParameter,
    /// A parameter of a prototype is not followed by `,` or `)`.
    ExpectedParameterSeparator,
    /// A number literal was required.
    ExpectedNumber,
    /// A parenthesized expression does not begin with `(`.
    ExpectedOpeningParen,
    /// A parenthesized expression does not end with `)`.
    ExpectedClosingParen,
    /// An identifier was required.
    ExpectedIdentifier,
    /// An argument of a call is not followed by `,` or `)`.
    ExpectedArgumentSeparator,
    /// A token that is no operator stands where a binary operator is due.
    InvalidOperator,
    /// The condition of an `if` is not followed by `then`.
    ExpectedThen,
    /// The first branch of an `if` is not followed by `else`.
    ExpectedElse,
    /// `for` is not followed by an identifier.
    ExpectedLoopVariable,
    /// The variable of a `for` is not followed by `=`.
    ExpectedLoopAssignment,
    /// The start value of a `for` is not followed by `,`.
    ExpectedLoopSeparator,
    /// The bounds of a `for` are not followed by `in`.
    ExpectedLoopIn,
    /// A binding of a `var` is not an identifier.
    ExpectedBinding,
    /// A binding of a `var` is not followed by `,` or `in`.
    ExpectedBindingSeparator,
    /// No expression begins with the token at hand.
    UnknownExpression,
}

impl ParseError {
    /// The message of this kind of error.
    pub open spec fn message_text(self) -> Seq<char> {
        match self {
            ParseError::UnexpectedEof => "Unexpected end of file."@,
            ParseError::UnexpectedToken => "Unexpected token after parsed expression."@,
            ParseError::ExpectedOperator => "Expected operator in custom operator declaration."@,
            ParseError::ExpectedPrototypeName => "Expected identifier in prototype declaration."@,
            ParseError::ExpectedPrototypeParen => {
                "Expected '(' character in prototype declaration."@
            },
            ParseError::ExpectedParameter => "Expected identifier in parameter declaration."@,
            ParseError::ExpectedParameterSeparator => {
                "Expected ',' or ')' character in prototype declaration."@
            },
            ParseError::ExpectedNumber => "Expected number literal."@,
            ParseError::ExpectedOpeningParen => {
                "Expected '(' character at start of parenthesized expression."@
            },
            ParseError::ExpectedClosingParen => {
                "Expected ')' character at end of parenthesized expression."@
            },
            ParseError::ExpectedIdentifier => "Expected identifier."@,
            ParseError::ExpectedArgumentSeparator => "Expected ',' character in function call."@,
            ParseError::InvalidOperator => "Invalid operator."@,
            ParseError::ExpectedThen => "Expected 'then' keyword."@,
            ParseError::ExpectedElse => "Expected 'else' keyword."@,
            ParseError::ExpectedLoopVariable => "Expected identifier in for loop."@,
            ParseError::ExpectedLoopAssignment => "Expected '=' character in for loop."@,
            ParseError::ExpectedLoopSeparator => "Expected ',' character in for loop."@,
            ParseError::ExpectedLoopIn => "Expected 'in' keyword in for loop."@,
            ParseError::ExpectedBinding => "Expected identifier in 'var..in' declaration."@,
            ParseError::ExpectedBindingSeparator => {
                "Expected comma or 'in' keyword in variable declaration."@
            },
            ParseError::UnknownExpression => "Unknown expression."@,
        }
    }

    /// The message of this kind of error.
    pub fn message(&self) -> (text: &'static str)
        ensures
            text@ == self.message_text(),
    {
        match self {
            ParseError::UnexpectedEof => "Unexpected end of file.",
            ParseError::UnexpectedToken => "Unexpected token after parsed expression.",
            ParseError::ExpectedOperator => "Expected operator in custom operator declaration.",
            ParseError::ExpectedPrototypeName => "Expected identifier in prototype declaration.",
            ParseError::ExpectedPrototypeParen => {
                "Expected '(' character in prototype declaration."
            },
            ParseError::ExpectedParameter => "Expected identifier in parameter declaration.",
            ParseError::ExpectedParameterSeparator => {
                "Expected ',' or ')' character in prototype declaration."
            },
            ParseError::ExpectedNumber => "Expected number literal.",
            ParseError::ExpectedOpeningParen => {
                "Expected '(' character at start of parenthesized expression."
            },
            ParseError::ExpectedClosingParen => {
                "Expected ')' character at end of parenthesized expression."
            },
            ParseError::ExpectedIdentifier => "Expected identifier.",
            ParseError::ExpectedArgumentSeparator => "Expected ',' character in function call.",
            ParseError::InvalidOperator => "Invalid operator.",
            ParseError::ExpectedThen => "Expected 'then' keyword.",
            ParseError::ExpectedElse => "Expected 'else' keyword.",
            ParseError::ExpectedLoopVariable => "Expected identifier in for loop.",
            ParseError::ExpectedLoopAssignment => "Expected '=' character in for loop.",
            ParseError::ExpectedLoopSeparator => "Expected ',' character in for loop.",
            ParseError::ExpectedLoopIn => "Expected 'in' keyword in for loop.",
            ParseError::ExpectedBinding => "Expected identifier in 'var..in' declaration.",
            ParseError::ExpectedBindingSeparator => {
                "Expected comma or 'in' keyword in variable declaration."
            },
            ParseError::UnknownExpression => "Unknown expression.",
        }
    }
}

} // verus!
