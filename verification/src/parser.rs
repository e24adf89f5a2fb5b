//! Recursive-descent parsing of the token stream into a source AST.
//!
//! The grammar:
//!
//! ```text
//! program  := function EOF
//! function := "int" Identifier "(" "void" ")" "{" statement "}"
//! statement:= "return" exp ";"
//! exp      := Constant | unop exp | "(" exp ")"
//! unop     := "-" | "~"
//! ```
//!
//! Each production pops the tokens it expects from the front of the
//! stream and stops at the first violation.

use crate::errors::CompileError;
use crate::lexer::{is_dynamic, toks_view, Token, TokenValue, TokenValueV};
use std::collections::VecDeque;
use vstd::prelude::*;

verus! {

/// The operations a source-AST node can be tagged with.
#[derive(Debug, Clone, Copy)]
pub enum Operations {
    Program,
    Function,
    Return,
    Constant,
    Unary,
    Complement,
    Negate,
}

/// A source-AST node: a tagged tree over integer and string leaves.
#[derive(Debug)]
pub enum Node {
    Int(i32),
    Str(String),
    Unary { op: Operations, node: Box<Node> },
    Binary { op: Operations, lhs: Box<Node>, rhs: Box<Node> },
}

/// The mathematical image of a `Node`: strings become character
/// sequences.
pub ghost enum NodeV {
    Int(i32),
    Str(Seq<char>),
    Unary { op: Operations, node: Box<NodeV> },
    Binary { op: Operations, lhs: Box<NodeV>, rhs: Box<NodeV> },
}

/// The image of a source-AST node.
pub open spec fn node_view(n: Node) -> NodeV
    decreases n,
{
    match n {
        Node::Int(v) => NodeV::Int(v),
        Node::Str(s) => NodeV::Str(s@),
        Node::Unary { op, node } => NodeV::Unary { op, node: Box::new(node_view(*node)) },
        Node::Binary { op, lhs, rhs } => NodeV::Binary {
            op,
            lhs: Box::new(node_view(*lhs)),
            rhs: Box::new(node_view(*rhs)),
        },
    }
}

/// The invariant of a lexed token stream: exactly the dynamic kinds
/// carry a payload.
pub open spec fn wf_tokens(ts: Seq<TokenValueV>) -> bool {
    forall|i: int|
        0 <= i < ts.len() ==> (is_dynamic(#[trigger] ts[i].token) <==> ts[i].data is Some)
}

/// Dropping the front of a well-formed stream keeps it well-formed.
pub proof fn lemma_wf_tokens_drop(ts: Seq<TokenValueV>)
    requires
        wf_tokens(ts),
        ts.len() > 0,
    ensures
        wf_tokens(ts.drop_first()),
{
    assert forall|i: int|
        0 <= i < ts.drop_first().len() implies (is_dynamic(
        #[trigger] ts.drop_first()[i].token,
    ) <==> ts.drop_first()[i].data is Some) by {
        assert(ts.drop_first()[i] == ts[i + 1]);
    }
}

/// Whether a token stream satisfies the lexer's payload invariant, so
/// that it may be parsed.
pub fn tokens_well_formed(tokens: &VecDeque<TokenValue>) -> (b: bool)
    ensures
        b == wf_tokens(toks_view(tokens@)),
{
    let mut i: usize = 0;
    let n = tokens.len();
    while i < n
        invariant
            n == tokens@.len(),
            i <= n,
            forall|j: int|
                0 <= j < i ==> (is_dynamic(#[trigger] toks_view(tokens@)[j].token) <==> toks_view(
                    tokens@,
                )[j].data is Some),
        decreases n - i,
    {
        let t = &tokens[i];
        let dynamic = match t.token {
            Token::Identifier => true,
            Token::Constant => true,
            _ => false,
        };
        let has_data = t.data.is_some();
        proof {
            assert(toks_view(tokens@)[i as int] == tokens@[i as int]@);
        }
        if dynamic != has_data {
            proof {
                assert(!(is_dynamic(toks_view(tokens@)[i as int].token) <==> toks_view(
                    tokens@,
                )[i as int].data is Some));
            }
            return false;
        }
        i = i + 1;
    }
    true
}

/// Popping one expected token kind from the front of the stream.
pub open spec fn spec_expect(ts: Seq<TokenValueV>, expected: Token) -> Result<
    Seq<TokenValueV>,
    CompileError,
> {
    if ts.len() == 0 {
        Err(CompileError::MissingToken(expected))
    } else if ts[0].token != expected {
        Err(CompileError::UnexpectedToken { found: ts[0].token, expected })
    } else {
        Ok(ts.drop_first())
    }
}

/// Check that a popped token is of the expected kind.
pub fn check_token(token: &Option<TokenValue>, token_type: Token) -> (r: Result<
    (),
    CompileError,
>)
    ensures
        token is None ==> r == Err::<(), CompileError>(CompileError::MissingToken(token_type)),
        token matches Some(tv) ==> (if tv.token != token_type {
            r == Err::<(), CompileError>(
                CompileError::UnexpectedToken { found: tv.token, expected: token_type },
            )
        } else {
            r is Ok
        }),
{
    match token {
        None => Err(CompileError::MissingToken(token_type)),
        Some(tv) => {
            if tv.token != token_type {
                Err(CompileError::UnexpectedToken { found: tv.token, expected: token_type })
            } else {
                Ok(())
            }
        },
    }
}

/// The digit value of a decimal digit character.
pub open spec fn char_digit(c: char) -> nat {
    if is_digit_char_spec(c) {
        (c as u32 - 48) as nat
    } else {
        0
    }
}

/// A decimal digit (shared with the lexer's notion).
pub open spec fn is_digit_char_spec(c: char) -> bool {
    crate::lexer::is_digit_char(c)
}

/// Every character of `s` is a decimal digit.
pub open spec fn all_digits(s: Seq<char>) -> bool {
    forall|i: int| 0 <= i < s.len() ==> is_digit_char_spec(#[trigger] s[i])
}

/// The value of a decimal numeral.
pub open spec fn dec_val(s: Seq<char>) -> nat
    decreases s.len(),
{
    if s.len() == 0 {
        0
    } else {
        dec_val(s.drop_last()) * 10 + char_digit(s.last())
    }
}

/// A payload parses as an `i32` exactly when it is a nonempty digit
/// string whose value fits.
pub open spec fn is_i32_numeral(s: Seq<char>) -> bool {
    s.len() > 0 && all_digits(s) && dec_val(s) <= i32::MAX
}

/// Parse a decimal numeral into an `i32`.
///
/// Fails with `BadInteger` on an empty string, a non-digit character,
/// or a value above `i32::MAX` (a lexed constant never carries a sign).
pub fn parse_i32(s: &str) -> (r: Result<i32, CompileError>)
    ensures
        r matches Ok(v) ==> is_i32_numeral(s@) && v == dec_val(s@),
        r is Err ==> !is_i32_numeral(s@) && r == Err::<i32, CompileError>(
            CompileError::BadInteger,
        ),
{
    let slen = s.unicode_len();
    if slen == 0 {
        return Err(CompileError::BadInteger);
    }
    let mut acc: u64 = 0;
    let mut over: bool = false;
    let mut i: usize = 0;
    let max: u64 = 0x7fff_ffff;
    while i < slen
        invariant
            slen == s@.len(),
            i <= slen,
            max == i32::MAX,
            forall|j: int| 0 <= j < i ==> is_digit_char_spec(#[trigger] s@[j]),
            !over ==> acc == dec_val(s@.take(i as int)) && acc <= max,
            over ==> dec_val(s@.take(i as int)) > max && acc == max + 1,
        decreases slen - i,
    {
        let c = s.get_char(i);
        let code = c as u32;
        if code < 48 || code > 57 {
            return Err(CompileError::BadInteger);
        }
        let d = (code - 48) as u64;
        proof {
            assert(s@.take(i + 1).drop_last() =~= s@.take(i as int));
            assert(s@.take(i + 1).last() == s@[i as int]);
            assert(char_digit(s@[i as int]) == d);
        }
        acc = acc * 10 + d;
        if acc > max {
            over = true;
            acc = max + 1;
        }
        i = i + 1;
    }
    proof {
        assert(s@.take(slen as int) =~= s@);
    }
    if over {
        Err(CompileError::BadInteger)
    } else {
        Ok(acc as i32)
    }
}

/// The `Identifier` production: pop an identifier and keep its payload.
pub open spec fn spec_identifier(ts: Seq<TokenValueV>) -> Result<
    (NodeV, Seq<TokenValueV>),
    CompileError,
> {
    if ts.len() == 0 {
        Err(CompileError::MissingToken(Token::Identifier))
    } else if ts[0].token != Token::Identifier {
        Err(CompileError::UnexpectedToken { found: ts[0].token, expected: Token::Identifier })
    } else {
        Ok((NodeV::Str(ts[0].data->0), ts.drop_first()))
    }
}

/// Pop an identifier token and turn its payload into a string leaf.
pub fn identifier(tokens: &mut VecDeque<TokenValue>) -> (r: Result<Box<Node>, CompileError>)
    requires
        wf_tokens(toks_view(old(tokens)@)),
    ensures
        ({
            let ts = toks_view(old(tokens)@);
            match spec_identifier(ts) {
                Ok(p) => r matches Ok(node) && node_view(*node) == p.0 && toks_view(
                    final(tokens)@,
                ) == p.1 && wf_tokens(p.1),
                Err(e) => r matches Err(e2) && e2 == e,
            }
        }),
{
    let ghost ts = toks_view(old(tokens)@);
    let token = tokens.pop_front();
    check_token(&token, Token::Identifier)?;
    proof {
        assert(ts[0] == old(tokens)@[0]@);
        assert(toks_view(tokens@) =~= ts.drop_first());
        lemma_wf_tokens_drop(ts);
    }
    match token {
        Some(tv) => {
            match tv.data {
                Some(d) => Ok(Box::new(Node::Str(d))),
                None => {
                    proof {
                        assert(false);
                    }
                    Err(CompileError::BadToken)
                },
            }
        },
        None => {
            proof {
                assert(false);
            }
            Err(CompileError::BadToken)
        },
    }
}

/// The `Constant` production: pop a constant and parse its payload.
pub open spec fn spec_int(ts: Seq<TokenValueV>) -> Result<
    (NodeV, Seq<TokenValueV>),
    CompileError,
> {
    if ts.len() == 0 {
        Err(CompileError::MissingToken(Token::Constant))
    } else if ts[0].token != Token::Constant {
        Err(CompileError::UnexpectedToken { found: ts[0].token, expected: Token::Constant })
    } else if !is_i32_numeral(ts[0].data->0) {
        Err(CompileError::BadInteger)
    } else {
        Ok((NodeV::Int(dec_val(ts[0].data->0) as i32), ts.drop_first()))
    }
}

/// Pop a constant token and turn its payload into an integer leaf.
pub fn int_node(tokens: &mut VecDeque<TokenValue>) -> (r: Result<Box<Node>, CompileError>)
    requires
        wf_tokens(toks_view(old(tokens)@)),
    ensures
        ({
            let ts = toks_view(old(tokens)@);
            match spec_int(ts) {
                Ok(p) => r matches Ok(node) && node_view(*node) == p.0 && toks_view(
                    final(tokens)@,
                ) == p.1 && wf_tokens(p.1),
                Err(e) => r matches Err(e2) && e2 == e,
            }
        }),
{
    let ghost ts = toks_view(old(tokens)@);
    let token = tokens.pop_front();
    check_token(&token, Token::Constant)?;
    proof {
        assert(ts[0] == old(tokens)@[0]@);
        assert(toks_view(tokens@) =~= ts.drop_first());
        lemma_wf_tokens_drop(ts);
    }
    match token {
        Some(tv) => {
            match tv.data {
                Some(d) => {
                    let v = parse_i32(d.as_str())?;
                    Ok(Box::new(Node::Int(v)))
                },
                None => {
                    proof {
                        assert(false);
                    }
                    Err(CompileError::BadToken)
                },
            }
        },
        None => {
            proof {
                assert(false);
            }
            Err(CompileError::BadToken)
        },
    }
}

/// The unary-operator production: `-` is `Negate`, `~` is `Complement`.
pub open spec fn spec_unop(ts: Seq<TokenValueV>) -> Result<
    (Operations, Seq<TokenValueV>),
    CompileError,
> {
    if ts.len() == 0 {
        Err(CompileError::MissingExpression)
    } else if ts[0].token == Token::Hyphen {
        Ok((Operations::Negate, ts.drop_first()))
    } else if ts[0].token == Token::Tilde {
        Ok((Operations::Complement, ts.drop_first()))
    } else {
        Err(CompileError::BadUnaryOperator)
    }
}

/// Pop a unary-operator token.
pub fn unop(tokens: &mut VecDeque<TokenValue>) -> (r: Result<Operations, CompileError>)
    requires
        wf_tokens(toks_view(old(tokens)@)),
    ensures
        ({
            let ts = toks_view(old(tokens)@);
            match spec_unop(ts) {
                Ok(p) => r matches Ok(op) && op == p.0 && toks_view(final(tokens)@) == p.1
                    && wf_tokens(p.1),
                Err(e) => r matches Err(e2) && e2 == e,
            }
        }),
{
    let ghost ts = toks_view(old(tokens)@);
    let token = match tokens.pop_front() {
        Some(tv) => tv,
        None => {
            return Err(CompileError::MissingExpression);
        },
    };
    proof {
        assert(ts[0] == old(tokens)@[0]@);
        assert(toks_view(tokens@) =~= ts.drop_first());
        lemma_wf_tokens_drop(ts);
    }
    match token.token {
        Token::Hyphen => Ok(Operations::Negate),
        Token::Tilde => Ok(Operations::Complement),
        _ => Err(CompileError::BadUnaryOperator),
    }
}

/// The expression production.
///
/// A constant becomes `Unary { Constant, Int }`; a unary operator
/// wraps the expression after it; parentheses group. The first
/// violation is reported: an exhausted stream is `MissingExpression`, a
/// token that starts no expression form is `UnknownExpression`.
pub open spec fn spec_exp(ts: Seq<TokenValueV>) -> Result<
    (NodeV, Seq<TokenValueV>),
    CompileError,
>
    decreases ts.len(),
{
    if ts.len() == 0 {
        Err(CompileError::MissingExpression)
    } else if ts[0].token == Token::Constant {
        match spec_int(ts) {
            Ok(p) => Ok(
                (NodeV::Unary { op: Operations::Constant, node: Box::new(p.0) }, p.1),
            ),
            Err(e) => Err(e),
        }
    } else if ts[0].token == Token::Hyphen || ts[0].token == Token::Tilde {
        let op = if ts[0].token == Token::Hyphen {
            Operations::Negate
        } else {
            Operations::Complement
        };
        match spec_exp(ts.drop_first()) {
            Ok(p) => Ok((NodeV::Unary { op, node: Box::new(p.0) }, p.1)),
            Err(e) => Err(e),
        }
    } else if ts[0].token == Token::OpenParenthesis {
        match spec_exp(ts.drop_first()) {
            Ok(p) => match spec_expect(p.1, Token::CloseParenthesis) {
                Ok(rest) => Ok((p.0, rest)),
                Err(e) => Err(e),
            },
            Err(e) => Err(e),
        }
    } else {
        Err(CompileError::UnknownExpression)
    }
}

/// Parse one expression from the front of the stream.
pub fn exp(tokens: &mut VecDeque<TokenValue>) -> (r: Result<Box<Node>, CompileError>)
    requires
        wf_tokens(toks_view(old(tokens)@)),
    ensures
        ({
            let ts = toks_view(old(tokens)@);
            match spec_exp(ts) {
                Ok(p) => r matches Ok(node) && node_view(*node) == p.0 && toks_view(
                    final(tokens)@,
                ) == p.1 && wf_tokens(p.1),
                Err(e) => r matches Err(e2) && e2 == e,
            }
        }),
    decreases tokens@.len(),
{
    let ghost ts = toks_view(old(tokens)@);
    if tokens.len() == 0 {
        return Err(CompileError::MissingExpression);
    }
    proof {
        assert(ts[0] == old(tokens)@[0]@);
    }
    let front_kind = tokens[0].token;
    match front_kind {
        Token::Constant => {
            let n = int_node(tokens)?;
            Ok(Box::new(Node::Unary { op: Operations::Constant, node: n }))
        },
        Token::Hyphen | Token::Tilde => {
            let op = unop(tokens)?;
            proof {
                assert(toks_view(tokens@) == ts.drop_first());
            }
            let e = exp(tokens)?;
            Ok(Box::new(Node::Unary { op, node: e }))
        },
        Token::OpenParenthesis => {
            let token = tokens.pop_front();
            check_token(&token, Token::OpenParenthesis)?;
            proof {
                assert(toks_view(tokens@) =~= ts.drop_first());
                lemma_wf_tokens_drop(ts);
            }
            let res = exp(tokens)?;
            let ghost after_inner = toks_view(tokens@);
            let token2 = tokens.pop_front();
            match check_token(&token2, Token::CloseParenthesis) {
                Ok(_) => {
                    proof {
                        assert(after_inner[0] == token2->0@);
                        assert(toks_view(tokens@) =~= after_inner.drop_first());
                        lemma_wf_tokens_drop(after_inner);
                    }
                    Ok(res)
                },
                Err(e) => {
                    proof {
                        if after_inner.len() > 0 {
                            assert(after_inner[0] == token2->0@);
                        }
                    }
                    Err(e)
                },
            }
        },
        _ => Err(CompileError::UnknownExpression),
    }
}

/// The statement production: `"return" exp ";"`.
pub open spec fn spec_statement(ts: Seq<TokenValueV>) -> Result<
    (NodeV, Seq<TokenValueV>),
    CompileError,
> {
    match spec_expect(ts, Token::ReturnKeyword) {
        Err(e) => Err(e),
        Ok(r1) => match spec_exp(r1) {
            Err(e) => Err(e),
            Ok(p) => match spec_expect(p.1, Token::Semicolon) {
                Err(e) => Err(e),
                Ok(r3) => Ok(
                    (NodeV::Unary { op: Operations::Return, node: Box::new(p.0) }, r3),
                ),
            },
        },
    }
}

/// Parse one return statement from the front of the stream.
pub fn statement(tokens: &mut VecDeque<TokenValue>) -> (r: Result<Box<Node>, CompileError>)
    requires
        wf_tokens(toks_view(old(tokens)@)),
    ensures
        ({
            let ts = toks_view(old(tokens)@);
            match spec_statement(ts) {
                Ok(p) => r matches Ok(node) && node_view(*node) == p.0 && toks_view(
                    final(tokens)@,
                ) == p.1 && wf_tokens(p.1),
                Err(e) => r matches Err(e2) && e2 == e,
            }
        }),
{
    let ghost ts = toks_view(old(tokens)@);
    let token = tokens.pop_front();
    proof {
        if ts.len() > 0 {
            assert(ts[0] == old(tokens)@[0]@);
            assert(toks_view(tokens@) =~= ts.drop_first());
            lemma_wf_tokens_drop(ts);
        }
    }
    check_token(&token, Token::ReturnKeyword)?;
    let e = exp(tokens)?;
    let ghost after_exp = toks_view(tokens@);
    let token2 = tokens.pop_front();
    proof {
        if after_exp.len() > 0 {
            assert(after_exp[0] == token2->0@);
            assert(toks_view(tokens@) =~= after_exp.drop_first());
            lemma_wf_tokens_drop(after_exp);
        }
    }
    check_token(&token2, Token::Semicolon)?;
    Ok(Box::new(Node::Unary { op: Operations::Return, node: e }))
}

/// The function production:
/// `"int" Identifier "(" "void" ")" "{" statement "}"`.
pub open spec fn spec_function(ts: Seq<TokenValueV>) -> Result<
    (NodeV, Seq<TokenValueV>),
    CompileError,
> {
    match spec_expect(ts, Token::IntKeyword) {
        Err(e) => Err(e),
        Ok(r1) => match spec_identifier(r1) {
            Err(e) => Err(e),
            Ok(pi) => match spec_expect(pi.1, Token::OpenParenthesis) {
                Err(e) => Err(e),
                Ok(r2) => match spec_expect(r2, Token::VoidKeyword) {
                    Err(e) => Err(e),
                    Ok(r3) => match spec_expect(r3, Token::CloseParenthesis) {
                        Err(e) => Err(e),
                        Ok(r4) => match spec_expect(r4, Token::OpenBrace) {
                            Err(e) => Err(e),
                            Ok(r5) => match spec_statement(r5) {
                                Err(e) => Err(e),
                                Ok(ps) => match spec_expect(ps.1, Token::CloseBrace) {
                                    Err(e) => Err(e),
                                    Ok(r6) => Ok(
                                        (
                                            NodeV::Binary {
                                                op: Operations::Function,
                                                lhs: Box::new(pi.0),
                                                rhs: Box::new(ps.0),
                                            },
                                            r6,
                                        ),
                                    ),
                                },
                            },
                        },
                    },
                },
            },
        },
    }
}

/// Parse one function definition from the front of the stream.
pub fn function(tokens: &mut VecDeque<TokenValue>) -> (r: Result<Box<Node>, CompileError>)
    requires
        wf_tokens(toks_view(old(tokens)@)),
    ensures
        ({
            let ts = toks_view(old(tokens)@);
            match spec_function(ts) {
                Ok(p) => r matches Ok(node) && node_view(*node) == p.0 && toks_view(
                    final(tokens)@,
                ) == p.1 && wf_tokens(p.1),
                Err(e) => r matches Err(e2) && e2 == e,
            }
        }),
{
    let ghost ts = toks_view(old(tokens)@);
    let token = tokens.pop_front();
    proof {
        if ts.len() > 0 {
            assert(ts[0] == old(tokens)@[0]@);
            assert(toks_view(tokens@) =~= ts.drop_first());
            lemma_wf_tokens_drop(ts);
        }
    }
    check_token(&token, Token::IntKeyword)?;
    let i = identifier(tokens)?;
    expect_kind(tokens, Token::OpenParenthesis)?;
    expect_kind(tokens, Token::VoidKeyword)?;
    expect_kind(tokens, Token::CloseParenthesis)?;
    expect_kind(tokens, Token::OpenBrace)?;
    let s = statement(tokens)?;
    expect_kind(tokens, Token::CloseBrace)?;
    Ok(Box::new(Node::Binary { op: Operations::Function, lhs: i, rhs: s }))
}

/// Pop the front token and check its kind, as one step.
fn expect_kind(tokens: &mut VecDeque<TokenValue>, expected: Token) -> (r: Result<
    (),
    CompileError,
>)
    requires
        wf_tokens(toks_view(old(tokens)@)),
    ensures
        ({
            let ts = toks_view(old(tokens)@);
            match spec_expect(ts, expected) {
                Ok(rest) => r is Ok && toks_view(final(tokens)@) == rest && wf_tokens(rest),
                Err(e) => r matches Err(e2) && e2 == e,
            }
        }),
{
    let ghost ts = toks_view(old(tokens)@);
    let token = tokens.pop_front();
    proof {
        if ts.len() > 0 {
            assert(ts[0] == old(tokens)@[0]@);
            assert(toks_view(tokens@) =~= ts.drop_first());
            lemma_wf_tokens_drop(ts);
        }
    }
    check_token(&token, expected)
}

/// The program production: one function, then the end of the stream.
pub open spec fn spec_program(ts: Seq<TokenValueV>) -> Result<NodeV, CompileError> {
    match spec_function(ts) {
        Err(e) => Err(e),
        Ok(p) => if p.1.len() == 0 {
            Ok(NodeV::Unary { op: Operations::Program, node: Box::new(p.0) })
        } else {
            Err(CompileError::TrailingInput)
        },
    }
}

/// Parse a whole program: one function, with nothing after it.
pub fn program(tokens: &mut VecDeque<TokenValue>) -> (r: Result<Box<Node>, CompileError>)
    requires
        wf_tokens(toks_view(old(tokens)@)),
    ensures
        ({
            let ts = toks_view(old(tokens)@);
            match spec_program(ts) {
                Ok(n) => r matches Ok(node) && node_view(*node) == n,
                Err(e) => r matches Err(e2) && e2 == e,
            }
        }),
{
    let f = function(tokens)?;
    if tokens.len() != 0 {
        return Err(CompileError::TrailingInput);
    }
    Ok(Box::new(Node::Unary { op: Operations::Program, node: f }))
}

/// Parse the token stream produced by the lexer into a source AST.
///
/// Succeeds exactly when the stream derives the grammar's `program`
/// production with no tokens left over; the result then is the AST of
/// `spec_program`.
pub fn parse(tokens: &mut VecDeque<TokenValue>) -> (r: Result<Box<Node>, CompileError>)
    requires
        wf_tokens(toks_view(old(tokens)@)),
    ensures
        ({
            let ts = toks_view(old(tokens)@);
            match spec_program(ts) {
                Ok(n) => r matches Ok(node) && node_view(*node) == n,
                Err(e) => r matches Err(e2) && e2 == e,
            }
        }),
{
    program(tokens)
}

} // verus!
