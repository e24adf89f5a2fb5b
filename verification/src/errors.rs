//! The closed error taxonomy of the pipeline. Every stage reports its
//! first violation through one of these variants and stops.

use crate::lexer::Token;
use vstd::prelude::*;

verus! {

/// One error kind per way a stage can reject its input.
#[derive(Clone, Copy, Debug, PartialEq, Eq, Structural)]
pub enum CompileError {
    /// The lexer found a position where no token pattern matches.
    BadToken,
    /// The parser needed one more token of the given kind, but the
    /// stream was exhausted.
    MissingToken(Token),
    /// The parser expected one token kind and found another.
    UnexpectedToken { found: Token, expected: Token },
    /// The parser needed the start of an expression or a unary
    /// operator, but the stream was exhausted.
    MissingExpression,
    /// A token was handed to the unary-operator production that is
    /// neither a hyphen nor a tilde.
    BadUnaryOperator,
    /// A constant token's payload is not a decimal numeral that fits in
    /// an `i32`.
    BadInteger,
    /// The parser saw a token that starts no expression form.
    UnknownExpression,
    /// A complete program was parsed but tokens remain.
    TrailingInput,
    /// The lowering walkers met a source-tree shape they cannot lower.
    UnexpectedAstShape,
    /// The stack-assignment pass met a `Stack` node, which may only be
    /// produced by that pass itself.
    StackTooEarly,
    /// The emitter met an operator/shape combination outside its table.
    UnexpectedAssemblyShape,
}

} // verus!
