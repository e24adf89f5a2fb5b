//! Tokenization of the preprocessed source text.
//!
//! Each token kind has a fixed pattern. At every position the lexer
//! skips whitespace, collects every kind whose pattern matches at the
//! head of the remaining input, and picks the winner by match length,
//! preferring static (keyword and punctuation) kinds over dynamic ones
//! (`Identifier`, `Constant`) on equal length. The chosen lexeme is
//! attached as payload for the dynamic kinds only.

use crate::errors::CompileError;
use std::collections::VecDeque;
use vstd::prelude::*;
use vstd::string::StrSliceExecFns;

verus! {

/// The closed set of token kinds.
#[derive(Clone, PartialEq, Eq, Structural, Debug, Copy)]
pub enum Token {
    Identifier,
    Constant,
    IntKeyword,
    VoidKeyword,
    ReturnKeyword,
    OpenParenthesis,
    CloseParenthesis,
    OpenBrace,
    CloseBrace,
    Semicolon,
    Tilde,
    Hyphen,
    TwoHyphens,
}

/// A token kind together with the payload carried by the dynamic kinds.
#[derive(Debug)]
pub struct TokenValue {
    pub token: Token,
    pub data: Option<String>,
}

/// The mathematical image of a `TokenValue`: the payload as a character
/// sequence.
pub ghost struct TokenValueV {
    pub token: Token,
    pub data: Option<Seq<char>>,
}

impl View for TokenValue {
    type V = TokenValueV;

    open spec fn view(&self) -> TokenValueV {
        TokenValueV {
            token: self.token,
            data: match self.data {
                Some(s) => Some(s@),
                None => None,
            },
        }
    }
}

/// The sequence of token images of a token stream.
pub open spec fn toks_view(ts: Seq<TokenValue>) -> Seq<TokenValueV> {
    Seq::new(ts.len(), |i: int| ts[i]@)
}

/// A word character: a letter, a digit, or an underscore.
pub open spec fn is_word_char(c: char) -> bool {
    c == '_' || ('a' <= c && c <= 'z') || ('A' <= c && c <= 'Z') || ('0' <= c && c <= '9')
}

/// A character that may start an identifier: a letter or an underscore.
pub open spec fn is_word_start(c: char) -> bool {
    c == '_' || ('a' <= c && c <= 'z') || ('A' <= c && c <= 'Z')
}

/// A decimal digit.
pub open spec fn is_digit_char(c: char) -> bool {
    '0' <= c && c <= '9'
}

/// Whitespace separating tokens.
pub open spec fn is_space_char(c: char) -> bool {
    c == ' ' || c == '\t' || c == '\n' || c == '\r' || c == '\x0b' || c == '\x0c'
}

/// Length of the longest prefix of `s` made of word characters.
pub open spec fn word_run_len(s: Seq<char>) -> nat
    decreases s.len(),
{
    if s.len() > 0 && is_word_char(s[0]) {
        1 + word_run_len(s.drop_first())
    } else {
        0
    }
}

/// Length of the longest prefix of `s` made of decimal digits.
pub open spec fn digit_run_len(s: Seq<char>) -> nat
    decreases s.len(),
{
    if s.len() > 0 && is_digit_char(s[0]) {
        1 + digit_run_len(s.drop_first())
    } else {
        0
    }
}

/// How far the pattern `kw` followed by a word boundary matches at the
/// head of `s`: the keyword must be a literal prefix and the character
/// after it, if any, must not be a word character.
pub open spec fn keyword_match(s: Seq<char>, kw: Seq<char>) -> Option<nat> {
    if kw.len() <= s.len() && s.take(kw.len() as int) == kw && (s.len() == kw.len()
        || !is_word_char(s[kw.len() as int])) {
        Some(kw.len())
    } else {
        None
    }
}

/// How far the pattern of kind `t` matches at the head of `s`, if at all.
///
/// `Identifier` matches the maximal word-character run when it starts
/// with a letter or underscore; the run is maximal, so the trailing word
/// boundary always holds. `Constant` matches the maximal digit run, but
/// only when the character after the run is not a word character:
/// otherwise no digit prefix ends at a word boundary and the pattern
/// fails outright. Keywords match their literal spelling followed by a
/// word boundary. Punctuation matches a single character, and `--`
/// matches two.
pub open spec fn tok_match_len(t: Token, s: Seq<char>) -> Option<nat> {
    match t {
        Token::Identifier => if s.len() > 0 && is_word_start(s[0]) {
            Some(word_run_len(s))
        } else {
            None
        },
        Token::Constant => if s.len() > 0 && is_digit_char(s[0]) {
            if digit_run_len(s) < s.len() && is_word_char(s[digit_run_len(s) as int]) {
                None
            } else {
                Some(digit_run_len(s))
            }
        } else {
            None
        },
        Token::IntKeyword => keyword_match(s, "int"@),
        Token::VoidKeyword => keyword_match(s, "void"@),
        Token::ReturnKeyword => keyword_match(s, "return"@),
        Token::OpenParenthesis => if s.len() > 0 && s[0] == '(' {
            Some(1)
        } else {
            None
        },
        Token::CloseParenthesis => if s.len() > 0 && s[0] == ')' {
            Some(1)
        } else {
            None
        },
        Token::OpenBrace => if s.len() > 0 && s[0] == '{' {
            Some(1)
        } else {
            None
        },
        Token::CloseBrace => if s.len() > 0 && s[0] == '}' {
            Some(1)
        } else {
            None
        },
        Token::Semicolon => if s.len() > 0 && s[0] == ';' {
            Some(1)
        } else {
            None
        },
        Token::Tilde => if s.len() > 0 && s[0] == '~' {
            Some(1)
        } else {
            None
        },
        Token::Hyphen => if s.len() > 0 && s[0] == '-' {
            Some(1)
        } else {
            None
        },
        Token::TwoHyphens => if s.len() >= 2 && s[0] == '-' && s[1] == '-' {
            Some(2)
        } else {
            None
        },
    }
}

/// The dynamic kinds carry the matched lexeme as payload.
pub open spec fn is_dynamic(t: Token) -> bool {
    t is Identifier || t is Constant
}

/// The fixed order in which kinds are tried; earlier kinds win exact ties.
pub open spec fn kind_at(i: int) -> Token {
    if i == 0 {
        Token::Identifier
    } else if i == 1 {
        Token::Constant
    } else if i == 2 {
        Token::IntKeyword
    } else if i == 3 {
        Token::VoidKeyword
    } else if i == 4 {
        Token::ReturnKeyword
    } else if i == 5 {
        Token::OpenParenthesis
    } else if i == 6 {
        Token::CloseParenthesis
    } else if i == 7 {
        Token::OpenBrace
    } else if i == 8 {
        Token::CloseBrace
    } else if i == 9 {
        Token::Semicolon
    } else if i == 10 {
        Token::Tilde
    } else if i == 11 {
        Token::Hyphen
    } else {
        Token::TwoHyphens
    }
}

pub const TOKEN_KIND_COUNT: usize = 13;

/// The disambiguation policy on two matching kinds: `a` strictly beats
/// `b` when it matches more input, or matches the same amount and is
/// static while `b` is dynamic.
pub open spec fn beats(a: Token, b: Token, s: Seq<char>) -> bool {
    let la = tok_match_len(a, s)->0;
    let lb = tok_match_len(b, s)->0;
    la > lb || (la == lb && !is_dynamic(a) && is_dynamic(b))
}

/// One step of the selection fold: keep `acc` unless `k` matches and
/// strictly beats it.
pub open spec fn best_step(acc: Option<Token>, k: Token, s: Seq<char>) -> Option<Token> {
    if tok_match_len(k, s) is None {
        acc
    } else {
        match acc {
            None => Some(k),
            Some(b) => if beats(k, b, s) {
                Some(k)
            } else {
                Some(b)
            },
        }
    }
}

/// The winner among the first `i` kinds in the fixed order.
pub open spec fn best_upto(s: Seq<char>, i: nat) -> Option<Token>
    decreases i,
{
    if i == 0 {
        None
    } else {
        best_step(best_upto(s, (i - 1) as nat), kind_at(i - 1), s)
    }
}

/// The kind that tokenizes at the head of `s`, if any pattern matches.
pub open spec fn best_token(s: Seq<char>) -> Option<Token> {
    best_upto(s, TOKEN_KIND_COUNT as nat)
}

/// The token image produced when kind `k` matches the lexeme `lexeme`.
pub open spec fn spec_token_value(k: Token, lexeme: Seq<char>) -> TokenValueV {
    TokenValueV {
        token: k,
        data: if is_dynamic(k) {
            Some(lexeme)
        } else {
            None
        },
    }
}

/// Any match the policy reports consumes at least one character and at
/// most the rest of the input.
pub proof fn lemma_match_len_bounds(t: Token, s: Seq<char>)
    requires
        tok_match_len(t, s) is Some,
    ensures
        1 <= tok_match_len(t, s)->0 <= s.len(),
{
    reveal_strlit("int");
    reveal_strlit("void");
    reveal_strlit("return");
    lemma_word_run_le_len(s);
    lemma_digit_run_le_len(s);
}

/// A word run never exceeds the input, and is positive exactly when the
/// first character is a word character.
pub proof fn lemma_word_run_le_len(s: Seq<char>)
    ensures
        word_run_len(s) <= s.len(),
        s.len() > 0 && is_word_char(s[0]) ==> word_run_len(s) >= 1,
    decreases s.len(),
{
    if s.len() > 0 && is_word_char(s[0]) {
        lemma_word_run_le_len(s.drop_first());
    }
}

/// A digit run never exceeds the input, and is positive exactly when the
/// first character is a digit.
pub proof fn lemma_digit_run_le_len(s: Seq<char>)
    ensures
        digit_run_len(s) <= s.len(),
        s.len() > 0 && is_digit_char(s[0]) ==> digit_run_len(s) >= 1,
    decreases s.len(),
{
    if s.len() > 0 && is_digit_char(s[0]) {
        lemma_digit_run_le_len(s.drop_first());
    }
}

/// The selected kind always matches.
pub proof fn lemma_best_upto_matches(s: Seq<char>, i: nat)
    ensures
        best_upto(s, i) matches Some(k) ==> tok_match_len(k, s) is Some,
    decreases i,
{
    if i > 0 {
        lemma_best_upto_matches(s, (i - 1) as nat);
    }
}

/// The tokenization of a whole text: skip whitespace, take the winning
/// kind's lexeme, and continue after it. `None` means some position
/// matched no pattern.
pub open spec fn spec_lex(s: Seq<char>) -> Option<Seq<TokenValueV>>
    decreases s.len(),
    via spec_lex_decreases
{
    if s.len() == 0 {
        Some(Seq::empty())
    } else if is_space_char(s[0]) {
        spec_lex(s.drop_first())
    } else {
        match best_token(s) {
            None => None,
            Some(k) => {
                let l = tok_match_len(k, s)->0;
                match spec_lex(s.skip(l as int)) {
                    None => None,
                    Some(rest) => Some(seq![spec_token_value(k, s.take(l as int))] + rest),
                }
            },
        }
    }
}

#[via_fn]
proof fn spec_lex_decreases(s: Seq<char>) {
    if s.len() > 0 && !is_space_char(s[0]) {
        match best_token(s) {
            Some(k) => {
                lemma_best_upto_matches(s, TOKEN_KIND_COUNT as nat);
                lemma_match_len_bounds(k, s);
            },
            None => {},
        }
    }
}

fn is_word_char_exec(c: char) -> (b: bool)
    ensures
        b == is_word_char(c),
{
    c == '_' || ('a' <= c && c <= 'z') || ('A' <= c && c <= 'Z') || ('0' <= c && c <= '9')
}

fn is_word_start_exec(c: char) -> (b: bool)
    ensures
        b == is_word_start(c),
{
    c == '_' || ('a' <= c && c <= 'z') || ('A' <= c && c <= 'Z')
}

fn is_digit_char_exec(c: char) -> (b: bool)
    ensures
        b == is_digit_char(c),
{
    '0' <= c && c <= '9'
}

fn is_space_char_exec(c: char) -> (b: bool)
    ensures
        b == is_space_char(c),
{
    c == ' ' || c == '\t' || c == '\n' || c == '\r' || c == '\x0b' || c == '\x0c'
}

fn is_dynamic_exec(t: Token) -> (b: bool)
    ensures
        b == is_dynamic(t),
{
    match t {
        Token::Identifier => true,
        Token::Constant => true,
        _ => false,
    }
}

/// Length of the run of word characters starting at `pos`.
fn word_run(s: &str, pos: usize, slen: usize) -> (n: usize)
    requires
        slen == s@.len(),
        pos <= slen,
    ensures
        n == word_run_len(s@.skip(pos as int)),
        pos + n <= slen,
{
    let mut n: usize = 0;
    while pos + n < slen && is_word_char_exec(s.get_char(pos + n))
        invariant
            slen == s@.len(),
            pos + n <= slen,
            word_run_len(s@.skip(pos as int)) == n + word_run_len(s@.skip(pos + n)),
        decreases slen - pos - n,
    {
        proof {
            let t = s@.skip(pos + n);
            assert(t[0] == s@[pos + n]);
            assert(t.drop_first() =~= s@.skip(pos + n + 1));
        }
        n = n + 1;
    }
    proof {
        assert(word_run_len(s@.skip(pos + n)) == 0);
    }
    n
}

/// Length of the run of decimal digits starting at `pos`.
fn digit_run(s: &str, pos: usize, slen: usize) -> (n: usize)
    requires
        slen == s@.len(),
        pos <= slen,
    ensures
        n == digit_run_len(s@.skip(pos as int)),
        pos + n <= slen,
{
    let mut n: usize = 0;
    while pos + n < slen && is_digit_char_exec(s.get_char(pos + n))
        invariant
            slen == s@.len(),
            pos + n <= slen,
            digit_run_len(s@.skip(pos as int)) == n + digit_run_len(s@.skip(pos + n)),
        decreases slen - pos - n,
    {
        proof {
            let t = s@.skip(pos + n);
            assert(t[0] == s@[pos + n]);
            assert(t.drop_first() =~= s@.skip(pos + n + 1));
        }
        n = n + 1;
    }
    proof {
        assert(digit_run_len(s@.skip(pos + n)) == 0);
    }
    n
}

/// Whether the keyword `kw` followed by a word boundary stands at `pos`.
fn match_keyword(s: &str, pos: usize, slen: usize, kw: &str) -> (r: Option<usize>)
    requires
        slen == s@.len(),
        pos <= slen,
    ensures
        r matches Some(l) ==> keyword_match(s@.skip(pos as int), kw@) == Some(l as nat) && pos + l
            <= slen,
        r is None ==> keyword_match(s@.skip(pos as int), kw@) is None,
{
    let kl = kw.unicode_len();
    if kl > slen - pos {
        return None;
    }
    let mut j: usize = 0;
    while j < kl
        invariant
            slen == s@.len(),
            kl == kw@.len(),
            pos + kl <= slen,
            j <= kl,
            forall|i: int| 0 <= i < j ==> s@[pos + i] == kw@[i],
        decreases kl - j,
    {
        if s.get_char(pos + j) != kw.get_char(j) {
            proof {
                let t = s@.skip(pos as int);
                assert(t.take(kl as int)[j as int] == s@[pos + j]);
                assert(t.take(kl as int) != kw@);
            }
            return None;
        }
        j = j + 1;
    }
    proof {
        let t = s@.skip(pos as int);
        assert(t.take(kl as int) =~= kw@);
    }
    if pos + kl < slen && is_word_char_exec(s.get_char(pos + kl)) {
        proof {
            let t = s@.skip(pos as int);
            assert(t[kl as int] == s@[pos + kl]);
        }
        return None;
    }
    Some(kl)
}

/// How far the pattern of kind `t` matches at `pos`, executing the same
/// policy as `tok_match_len`.
fn match_len(t: Token, s: &str, pos: usize, slen: usize) -> (r: Option<usize>)
    requires
        slen == s@.len(),
        pos <= slen,
    ensures
        r matches Some(l) ==> tok_match_len(t, s@.skip(pos as int)) == Some(l as nat) && 1 <= l
            && pos + l <= slen,
        r is None ==> tok_match_len(t, s@.skip(pos as int)) is None,
{
    proof {
        assert(s@.skip(pos as int).len() == slen - pos);
        if pos < slen {
            assert(s@.skip(pos as int)[0] == s@[pos as int]);
        }
    }
    let r = match t {
        Token::Identifier => {
            if pos < slen && is_word_start_exec(s.get_char(pos)) {
                Some(word_run(s, pos, slen))
            } else {
                None
            }
        },
        Token::Constant => {
            if pos < slen && is_digit_char_exec(s.get_char(pos)) {
                let d = digit_run(s, pos, slen);
                if pos + d < slen && is_word_char_exec(s.get_char(pos + d)) {
                    proof {
                        assert(s@.skip(pos as int)[d as int] == s@[pos + d]);
                    }
                    None
                } else {
                    Some(d)
                }
            } else {
                None
            }
        },
        Token::IntKeyword => match_keyword(s, pos, slen, "int"),
        Token::VoidKeyword => match_keyword(s, pos, slen, "void"),
        Token::ReturnKeyword => match_keyword(s, pos, slen, "return"),
        Token::OpenParenthesis => {
            if pos < slen && s.get_char(pos) == '(' {
                Some(1)
            } else {
                None
            }
        },
        Token::CloseParenthesis => {
            if pos < slen && s.get_char(pos) == ')' {
                Some(1)
            } else {
                None
            }
        },
        Token::OpenBrace => {
            if pos < slen && s.get_char(pos) == '{' {
                Some(1)
            } else {
                None
            }
        },
        Token::CloseBrace => {
            if pos < slen && s.get_char(pos) == '}' {
                Some(1)
            } else {
                None
            }
        },
        Token::Semicolon => {
            if pos < slen && s.get_char(pos) == ';' {
                Some(1)
            } else {
                None
            }
        },
        Token::Tilde => {
            if pos < slen && s.get_char(pos) == '~' {
                Some(1)
            } else {
                None
            }
        },
        Token::Hyphen => {
            if pos < slen && s.get_char(pos) == '-' {
                Some(1)
            } else {
                None
            }
        },
        Token::TwoHyphens => {
            if pos < slen && pos + 1 < slen && s.get_char(pos) == '-' && s.get_char(pos + 1) == '-' {
                proof {
                    assert(s@.skip(pos as int)[1] == s@[pos + 1]);
                }
                Some(2)
            } else {
                None
            }
        },
    };
    proof {
        if r is Some {
            lemma_match_len_bounds(t, s@.skip(pos as int));
        }
    }
    r
}

fn kind_at_exec(i: usize) -> (t: Token)
    requires
        i < TOKEN_KIND_COUNT,
    ensures
        t == kind_at(i as int),
{
    if i == 0 {
        Token::Identifier
    } else if i == 1 {
        Token::Constant
    } else if i == 2 {
        Token::IntKeyword
    } else if i == 3 {
        Token::VoidKeyword
    } else if i == 4 {
        Token::ReturnKeyword
    } else if i == 5 {
        Token::OpenParenthesis
    } else if i == 6 {
        Token::CloseParenthesis
    } else if i == 7 {
        Token::OpenBrace
    } else if i == 8 {
        Token::CloseBrace
    } else if i == 9 {
        Token::Semicolon
    } else if i == 10 {
        Token::Tilde
    } else if i == 11 {
        Token::Hyphen
    } else {
        Token::TwoHyphens
    }
}

/// The winning kind and its match length at `pos`, per the
/// disambiguation policy.
fn best_at(s: &str, pos: usize, slen: usize) -> (r: Option<(Token, usize)>)
    requires
        slen == s@.len(),
        pos <= slen,
    ensures
        r is None ==> best_token(s@.skip(pos as int)) is None,
        r matches Some(p) ==> best_token(s@.skip(pos as int)) == Some(p.0) && tok_match_len(
            p.0,
            s@.skip(pos as int),
        ) == Some(p.1 as nat) && 1 <= p.1 && pos + p.1 <= slen,
{
    let ghost sfx = s@.skip(pos as int);
    let mut best: Option<(Token, usize)> = None;
    let mut i: usize = 0;
    while i < TOKEN_KIND_COUNT
        invariant
            slen == s@.len(),
            pos <= slen,
            sfx == s@.skip(pos as int),
            i <= TOKEN_KIND_COUNT,
            best is None ==> best_upto(sfx, i as nat) is None,
            best matches Some(p) ==> best_upto(sfx, i as nat) == Some(p.0) && tok_match_len(
                p.0,
                sfx,
            ) == Some(p.1 as nat) && 1 <= p.1 && pos + p.1 <= slen,
        decreases TOKEN_KIND_COUNT - i,
    {
        let k = kind_at_exec(i);
        let ml = match_len(k, s, pos, slen);
        proof {
            assert(best_upto(sfx, (i + 1) as nat) == best_step(
                best_upto(sfx, i as nat),
                kind_at(i as int),
                sfx,
            ));
        }
        match ml {
            None => {},
            Some(l) => {
                match best {
                    None => {
                        best = Some((k, l));
                    },
                    Some((bk, bl)) => {
                        if l > bl || (l == bl && !is_dynamic_exec(k) && is_dynamic_exec(bk)) {
                            best = Some((k, l));
                        }
                    },
                }
            },
        }
        i = i + 1;
    }
    best
}

/// The loop invariant of `lex`: what has been produced so far, prepended
/// to the tokenization of the remaining suffix, is the tokenization of
/// the whole text.
pub open spec fn lex_loop_inv(s: Seq<char>, pos: int, produced: Seq<TokenValueV>) -> bool {
    match spec_lex(s.skip(pos)) {
        Some(rest) => spec_lex(s) == Some(produced + rest),
        None => spec_lex(s) is None,
    }
}

/// Tokenize a whole source text.
///
/// Succeeds exactly when every non-whitespace position, scanned left to
/// right, starts a token; the result then is the token stream of
/// `spec_lex`. Fails with `BadToken` otherwise.
pub fn lex(source: &str) -> (r: Result<VecDeque<TokenValue>, CompileError>)
    ensures
        r is Ok <==> spec_lex(source@) is Some,
        r matches Ok(toks) ==> spec_lex(source@) == Some(toks_view(toks@)),
        r matches Err(e) ==> e == CompileError::BadToken,
{
    let slen = source.unicode_len();
    let mut tokens: VecDeque<TokenValue> = VecDeque::new();
    let mut pos: usize = 0;
    proof {
        assert(source@.skip(0) =~= source@);
        assert(toks_view(tokens@) =~= Seq::<TokenValueV>::empty());
    }
    while pos < slen
        invariant
            slen == source@.len(),
            pos <= slen,
            lex_loop_inv(source@, pos as int, toks_view(tokens@)),
        decreases slen - pos,
    {
        let ghost sfx = source@.skip(pos as int);
        proof {
            assert(sfx[0] == source@[pos as int]);
        }
        let c = source.get_char(pos);
        if is_space_char_exec(c) {
            proof {
                assert(sfx.drop_first() =~= source@.skip(pos + 1));
            }
            pos = pos + 1;
        } else {
            match best_at(source, pos, slen) {
                None => {
                    return Err(CompileError::BadToken);
                },
                Some((k, l)) => {
                    let tv = if is_dynamic_exec(k) {
                        let lexeme = source.substring_char(pos, pos + l);
                        TokenValue { token: k, data: Some(lexeme.to_owned()) }
                    } else {
                        TokenValue { token: k, data: None }
                    };
                    proof {
                        assert(sfx.take(l as int) =~= source@.subrange(pos as int, pos + l));
                        assert(tv@ == spec_token_value(k, sfx.take(l as int)));
                        assert(sfx.skip(l as int) =~= source@.skip(pos + l));
                        let produced = toks_view(tokens@);
                        assert(toks_view(tokens@.push(tv)) =~= produced.push(tv@));
                        match spec_lex(source@.skip(pos + l)) {
                            Some(rest) => {
                                assert(spec_lex(sfx) == Some(seq![tv@] + rest));
                                assert(produced + (seq![tv@] + rest) =~= produced.push(tv@) + rest);
                            },
                            None => {
                                assert(spec_lex(sfx) is None);
                            },
                        }
                    }
                    tokens.push_back(tv);
                    pos = pos + l;
                },
            }
        }
    }
    proof {
        assert(source@.skip(pos as int) =~= Seq::<char>::empty());
        assert(spec_lex(source@.skip(pos as int)) == Some(Seq::<TokenValueV>::empty()));
        assert(toks_view(tokens@) + Seq::<TokenValueV>::empty() =~= toks_view(tokens@));
    }
    Ok(tokens)
}

} // verus!
