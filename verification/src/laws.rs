//! The properties the pipeline guarantees across its stages, stated and
//! proved over the spec functions of the other modules.

use crate::lexer::{
    best_token, best_upto, is_space_char, is_word_char, is_word_start, keyword_match, spec_lex,
    spec_token_value, tok_match_len, word_run_len, Token, TokenValueV, TOKEN_KIND_COUNT,
};
use crate::intermediate::{
    spec_create_functions, spec_create_intermediate, spec_fresh_var, spec_get_constant_or_var,
    spec_temp_name, IntermediateNodeV, IntermediateOperations,
};
use crate::errors::CompileError;
use crate::generator::{
    count_pseudos, count_pseudos_seq, find_name, spec_find_size, spec_find_size_seq, spec_fix,
    spec_fix_elems, spec_process, spec_process_seq, spec_split_mov, stacks_within,
    stacks_within_seq, wf_names, AssemblyNodeV,
};
use crate::parser::{
    spec_exp, spec_function, spec_program, spec_statement, NodeV, Operations,
};
use vstd::prelude::*;

verus! {

broadcast use vstd::seq::group_seq_axioms;

/// A word run counts exactly the leading word characters.
proof fn lemma_word_run_exact(s: Seq<char>, n: nat)
    requires
        n <= s.len(),
        forall|i: int| 0 <= i < n ==> is_word_char(#[trigger] s[i]),
        n == s.len() || !is_word_char(s[n as int]),
    ensures
        word_run_len(s) == n,
    decreases n,
{
    if n == 0 {
    } else {
        assert(s.drop_first().len() == s.len() - 1);
        assert(forall|i: int|
            0 <= i < n - 1 ==> #[trigger] s.drop_first()[i] == s[i + 1]);
        if n < s.len() {
            assert(s.drop_first()[n - 1] == s[n as int]);
        }
        lemma_word_run_exact(s.drop_first(), (n - 1) as nat);
    }
}

/// What each kind matches on an input that starts with a keyword
/// followed by a word boundary.
proof fn lemma_keyword_match_shape(s: Seq<char>, kw: Seq<char>)
    requires
        keyword_match(s, kw) is Some,
        kw.len() >= 1,
        forall|i: int| 0 <= i < kw.len() ==> is_word_char(#[trigger] kw[i]),
        is_word_start(kw[0]),
    ensures
        tok_match_len(Token::Identifier, s) == Some(kw.len()),
    decreases kw.len(),
{
    assert(forall|i: int| 0 <= i < kw.len() ==> s[i] == kw[i]);
    lemma_word_run_exact(s, kw.len());
}

/// A keyword pattern fails outright when even the first character
/// differs.
proof fn lemma_keyword_match_none(s: Seq<char>, kw: Seq<char>)
    requires
        kw.len() >= 1,
        s.len() == 0 || s[0] != kw[0],
    ensures
        keyword_match(s, kw) is None,
{
    if kw.len() <= s.len() {
        if s.take(kw.len() as int) == kw {
            assert(s.take(kw.len() as int)[0] == s[0]);
            assert(false);
        }
    }
}

/// The keywords `int`, `void` and `return`, followed by a word
/// boundary, always tokenize as their keyword kind and never as an
/// `Identifier`: the identifier pattern matches no more input there,
/// and on equal length the static kind wins.
pub proof fn lemma_keywords_win(s: Seq<char>)
    ensures
        tok_match_len(Token::IntKeyword, s) is Some ==> best_token(s) == Some(
            Token::IntKeyword,
        ),
        tok_match_len(Token::VoidKeyword, s) is Some ==> best_token(s) == Some(
            Token::VoidKeyword,
        ),
        tok_match_len(Token::ReturnKeyword, s) is Some ==> best_token(s) == Some(
            Token::ReturnKeyword,
        ),
{
    reveal_strlit("int");
    reveal_strlit("void");
    reveal_strlit("return");
    if tok_match_len(Token::IntKeyword, s) is Some {
        lemma_keyword_match_shape(s, "int"@);
        assert(s.take("int"@.len() as int)[0] == s[0]);
        assert(s[0] == 'i');
        lemma_keyword_match_none(s, "void"@);
        lemma_keyword_match_none(s, "return"@);
        reveal_with_fuel(best_upto, 14);
        assert(best_token(s) == Some(Token::IntKeyword));
    }
    if tok_match_len(Token::VoidKeyword, s) is Some {
        lemma_keyword_match_shape(s, "void"@);
        assert(s.take("void"@.len() as int)[0] == s[0]);
        assert(s[0] == 'v');
        lemma_keyword_match_none(s, "int"@);
        lemma_keyword_match_none(s, "return"@);
        reveal_with_fuel(best_upto, 14);
        assert(best_token(s) == Some(Token::VoidKeyword));
    }
    if tok_match_len(Token::ReturnKeyword, s) is Some {
        lemma_keyword_match_shape(s, "return"@);
        assert(s.take("return"@.len() as int)[0] == s[0]);
        assert(s[0] == 'r');
        lemma_keyword_match_none(s, "int"@);
        lemma_keyword_match_none(s, "void"@);
        reveal_with_fuel(best_upto, 14);
        assert(best_token(s) == Some(Token::ReturnKeyword));
    }
}

/// Two hyphens always tokenize as one `TwoHyphens` token, never as two
/// `Hyphen`s; a single hyphen tokenizes as `Hyphen`.
pub proof fn lemma_two_hyphens(s: Seq<char>)
    requires
        s.len() >= 1,
        s[0] == '-',
    ensures
        s.len() >= 2 && s[1] == '-' ==> best_token(s) == Some(Token::TwoHyphens),
        s.len() == 1 || s[1] != '-' ==> best_token(s) == Some(Token::Hyphen),
{
    reveal_strlit("int");
    reveal_strlit("void");
    reveal_strlit("return");
    lemma_keyword_match_none(s, "int"@);
    lemma_keyword_match_none(s, "void"@);
    lemma_keyword_match_none(s, "return"@);
    reveal_with_fuel(best_upto, 14);
}

/// No `Identifier` token of a lexed stream carries a keyword spelling
/// as its payload.
pub proof fn lemma_lex_no_keyword_identifier(s: Seq<char>)
    ensures
        spec_lex(s) matches Some(toks) ==> forall|i: int|
            0 <= i < toks.len() && (#[trigger] toks[i]).token is Identifier ==> toks[i].data
                != Some("int"@) && toks[i].data != Some("void"@) && toks[i].data != Some(
                "return"@,
            ),
    decreases s.len(),
{
    crate::lexer::lemma_best_upto_matches(s, TOKEN_KIND_COUNT as nat);
    if s.len() == 0 {
    } else if is_space_char(s[0]) {
        lemma_lex_no_keyword_identifier(s.drop_first());
    } else {
        match best_token(s) {
            None => {},
            Some(k) => {
                crate::lexer::lemma_match_len_bounds(k, s);
                let l = tok_match_len(k, s)->0;
                lemma_lex_no_keyword_identifier(s.skip(l as int));
                match spec_lex(s.skip(l as int)) {
                    None => {},
                    Some(rest) => {
                        let tv = spec_token_value(k, s.take(l as int));
                        if k is Identifier && (s.take(l as int) == "int"@ || s.take(l as int)
                            == "void"@ || s.take(l as int) == "return"@) {
                            reveal_strlit("int");
                            reveal_strlit("void");
                            reveal_strlit("return");
                            let kw = s.take(l as int);
                            assert(l == word_run_len(s));
                            assert(forall|i: int| 0 <= i < l ==> kw[i] == s[i]);
                            lemma_word_run_boundary(s);
                            assert(keyword_match(s, kw) is Some);
                            if kw == "int"@ {
                                lemma_keywords_win(s);
                            } else if kw == "void"@ {
                                lemma_keywords_win(s);
                            } else {
                                lemma_keywords_win(s);
                            }
                            assert(false);
                        }
                        let toks = spec_lex(s)->0;
                        assert(toks == seq![tv] + rest);
                        assert(forall|i: int|
                            1 <= i < toks.len() ==> #[trigger] toks[i] == rest[i - 1]);
                    },
                }
            },
        }
    }
}

/// The character after a word run, if any, is not a word character.
proof fn lemma_word_run_boundary(s: Seq<char>)
    ensures
        word_run_len(s) < s.len() ==> !is_word_char(s[word_run_len(s) as int]),
        forall|i: int| 0 <= i < word_run_len(s) ==> is_word_char(#[trigger] s[i]),
    decreases s.len(),
{
    if s.len() > 0 && is_word_char(s[0]) {
        crate::lexer::lemma_word_run_le_len(s);
        crate::lexer::lemma_word_run_le_len(s.drop_first());
        lemma_word_run_boundary(s.drop_first());
        assert forall|i: int| 0 <= i < word_run_len(s) implies is_word_char(s[i]) by {
            if i > 0 {
                assert(s[i] == s.drop_first()[i - 1]);
            }
        }
        if word_run_len(s) < s.len() {
            assert(s[word_run_len(s) as int] == s.drop_first()[word_run_len(s.drop_first())
                as int]);
        }
    }
}

/// A well-formed expression: a constant over an integer leaf, or a
/// negation or complement of a well-formed expression.
pub open spec fn wf_exp(n: NodeV) -> bool
    decreases n,
{
    match n {
        NodeV::Unary { op, node } => match op {
            Operations::Constant => *node is Int,
            Operations::Negate => wf_exp(*node),
            Operations::Complement => wf_exp(*node),
            _ => false,
        },
        _ => false,
    }
}

/// A well-formed statement: a return of a well-formed expression.
pub open spec fn wf_statement(n: NodeV) -> bool {
    match n {
        NodeV::Unary { op, node } => op is Return && wf_exp(*node),
        _ => false,
    }
}

/// A well-formed function: a name leaf on the left, a well-formed
/// statement on the right.
pub open spec fn wf_function(n: NodeV) -> bool {
    match n {
        NodeV::Binary { op, lhs, rhs } => op is Function && *lhs is Str && wf_statement(*rhs),
        _ => false,
    }
}

/// A well-formed program: one well-formed function.
pub open spec fn wf_program(n: NodeV) -> bool {
    match n {
        NodeV::Unary { op, node } => op is Program && wf_function(*node),
        _ => false,
    }
}

/// Whatever expression the parser accepts is well-formed.
pub proof fn lemma_exp_wf(ts: Seq<TokenValueV>)
    ensures
        spec_exp(ts) matches Ok(p) ==> wf_exp(p.0),
    decreases ts.len(),
{
    if ts.len() > 0 {
        if ts[0].token == Token::Hyphen || ts[0].token == Token::Tilde || ts[0].token
            == Token::OpenParenthesis {
            lemma_exp_wf(ts.drop_first());
        }
    }
}

/// Parser totality: any token stream accepted without error produces a
/// well-formed program tree.
pub proof fn lemma_parse_wf(ts: Seq<TokenValueV>)
    ensures
        spec_program(ts) matches Ok(n) ==> wf_program(n),
        spec_function(ts) matches Ok(p) ==> wf_function(p.0),
        spec_statement(ts) matches Ok(p) ==> wf_statement(p.0),
{
    match crate::parser::spec_expect(ts, Token::ReturnKeyword) {
        Ok(r1) => {
            lemma_exp_wf(r1);
        },
        Err(_) => {},
    }
    match crate::parser::spec_expect(ts, Token::IntKeyword) {
        Ok(r1) => {
            match crate::parser::spec_identifier(r1) {
                Ok(pi) => {
                    match crate::parser::spec_expect(pi.1, Token::OpenParenthesis) {
                        Ok(r2) => match crate::parser::spec_expect(r2, Token::VoidKeyword) {
                            Ok(r3) => match crate::parser::spec_expect(
                                r3,
                                Token::CloseParenthesis,
                            ) {
                                Ok(r4) => match crate::parser::spec_expect(
                                    r4,
                                    Token::OpenBrace,
                                ) {
                                    Ok(r5) => {
                                        match crate::parser::spec_expect(
                                            r5,
                                            Token::ReturnKeyword,
                                        ) {
                                            Ok(r6) => {
                                                lemma_exp_wf(r6);
                                            },
                                            Err(_) => {},
                                        }
                                    },
                                    Err(_) => {},
                                },
                                Err(_) => {},
                            },
                            Err(_) => {},
                        },
                        Err(_) => {},
                    }
                },
                Err(_) => {},
            }
        },
        Err(_) => {},
    }
}


/// An operand of a three-address instruction: a constant over an
/// integer leaf, or a temporary over a name leaf.
pub open spec fn is_operand(n: IntermediateNodeV) -> bool {
    match n {
        IntermediateNodeV::Unary { op, node } => match op {
            IntermediateOperations::Constant => *node is Int,
            IntermediateOperations::Var => *node is Str,
            _ => false,
        },
        _ => false,
    }
}

/// A three-address instruction: a return of an operand, or a negation
/// or complement from an operand into a temporary.
pub open spec fn wf_instruction(n: IntermediateNodeV) -> bool {
    match n {
        IntermediateNodeV::Unary { op, node } => op is Return && is_operand(*node),
        IntermediateNodeV::Binary { op, lhs, rhs } => (op is Negate || op is Complement)
            && is_operand(*lhs) && (match *rhs {
            IntermediateNodeV::Unary { op: op2, node } => op2 is Var && *node is Str,
            _ => false,
        }),
        _ => false,
    }
}

/// A well-formed three-address program: one function whose name is a
/// string leaf and whose body is a sequence of instructions.
pub open spec fn wf_ir_program(ir: IntermediateNodeV) -> bool {
    match ir {
        IntermediateNodeV::Unary { op, node } => op is Program && (match *node {
            IntermediateNodeV::Binary { op: op2, lhs, rhs } => op2 is Function && *lhs is Str
                && (match *rhs {
                IntermediateNodeV::Sequence(instrs) => forall|i: int|
                    0 <= i < instrs.len() ==> wf_instruction(#[trigger] instrs[i]),
                _ => false,
            }),
            _ => false,
        }),
        _ => false,
    }
}

/// Lowering a well-formed expression or statement yields an operand and
/// emits only well-formed instructions.
proof fn lemma_lowering_shapes(ast: NodeV, counter: nat)
    requires
        wf_exp(ast) || wf_statement(ast),
    ensures
        spec_create_functions(ast, counter) matches Ok(low) ==> is_operand(low.operand) && (
        forall|i: int| 0 <= i < low.emitted.len() ==> wf_instruction(#[trigger] low.emitted[i])),
    decreases ast,
{
    match ast {
        NodeV::Unary { op, node } => match op {
            Operations::Return => {
                lemma_lowering_shapes(*node, counter);
                match spec_create_functions(*node, counter) {
                    Ok(low) => {
                        let src_node = spec_get_constant_or_var(low.operand, low.counter);
                        assert(is_operand(src_node));
                        let pushed = IntermediateNodeV::Unary {
                            op: IntermediateOperations::Return,
                            node: Box::new(src_node),
                        };
                        let whole = spec_create_functions(ast, counter)->Ok_0;
                        assert(whole.emitted == low.emitted.push(pushed));
                        assert(wf_instruction(pushed));
                        assert forall|i: int| 0 <= i < whole.emitted.len() implies
                            wf_instruction(#[trigger] whole.emitted[i]) by {
                            if i < low.emitted.len() {
                                assert(whole.emitted[i] == low.emitted[i]);
                            } else {
                                assert(whole.emitted[i] == pushed);
                            }
                        }
                    },
                    Err(_) => {},
                }
            },
            Operations::Negate | Operations::Complement => {
                lemma_lowering_shapes(*node, counter);
                match spec_create_functions(*node, counter) {
                    Ok(low) => {
                        let src_node = spec_get_constant_or_var(low.operand, low.counter);
                        assert(is_operand(src_node));
                        let dst = spec_fresh_var(low.counter + 1);
                        assert(is_operand(dst));
                        let whole = spec_create_functions(ast, counter)->Ok_0;
                        let pushed = whole.emitted.last();
                        assert(wf_instruction(pushed));
                        assert forall|i: int| 0 <= i < whole.emitted.len() implies
                            wf_instruction(#[trigger] whole.emitted[i]) by {
                            if i < low.emitted.len() {
                                assert(whole.emitted[i] == low.emitted[i]);
                            } else {
                                assert(whole.emitted[i] == pushed);
                            }
                        }
                    },
                    Err(_) => {},
                }
            },
            Operations::Constant => {
                assert(*node is Int);
                match *node {
                    NodeV::Int(v) => {
                        assert(spec_create_intermediate(*node) == Ok::<
                            IntermediateNodeV,
                            crate::errors::CompileError,
                        >(IntermediateNodeV::Int(v)));
                    },
                    _ => {},
                }
            },
            _ => {},
        },
        _ => {},
    }
}

/// Intermediate output: the lowering of a well-formed program is a
/// program over one function whose body holds only `Return`, `Negate`
/// and `Complement` instructions, every operand a constant or a named
/// temporary.
pub proof fn lemma_intermediate_body_wf(prog: NodeV)
    requires
        wf_program(prog),
    ensures
        spec_create_intermediate(prog) matches Ok(ir) ==> wf_ir_program(ir),
{
    reveal_with_fuel(spec_create_intermediate, 4);
    match prog {
        NodeV::Unary { op, node } => {
            match *node {
                NodeV::Binary { op: op2, lhs, rhs } => {
                    lemma_lowering_shapes(*rhs, 0);
                },
                _ => {},
            }
        },
        _ => {},
    }
}

/// The name a `Negate` or `Complement` instruction writes to.
pub open spec fn dst_name(n: IntermediateNodeV) -> Option<Seq<char>> {
    match n {
        IntermediateNodeV::Binary { op, lhs, rhs } => match *rhs {
            IntermediateNodeV::Unary { op: op2, node } => match *node {
                IntermediateNodeV::Str(s) => if op2 is Var {
                    Some(s)
                } else {
                    None
                },
                _ => None,
            },
            _ => None,
        },
        _ => None,
    }
}

/// How many two-operand instructions a sequence holds.
pub open spec fn bin_count(s: Seq<IntermediateNodeV>) -> nat
    decreases s.len(),
{
    if s.len() == 0 {
        0
    } else {
        bin_count(s.drop_last()) + (if s.last() is Binary {
            1nat
        } else {
            0nat
        })
    }
}

/// Prefix counts only grow.
proof fn lemma_bin_count_mono(s: Seq<IntermediateNodeV>, i: int, j: int)
    requires
        0 <= i <= j <= s.len(),
    ensures
        bin_count(s.take(i)) <= bin_count(s.take(j)),
    decreases j - i,
{
    if i < j {
        lemma_bin_count_mono(s, i, j - 1);
        assert(s.take(j).drop_last() =~= s.take(j - 1));
    }
}

/// Each two-operand instruction in lowering order writes to the next
/// fresh temporary: starting the counter at `counter`, the destinations
/// are `temp.(counter+1)`, `temp.(counter+2)`, ... in emission order.
pub proof fn lemma_fresh_dsts(ast: NodeV, counter: nat)
    ensures
        spec_create_functions(ast, counter) matches Ok(low) ==> low.counter == counter
            + bin_count(low.emitted) && (forall|i: int|
            0 <= i < low.emitted.len() && low.emitted[i] is Binary ==> dst_name(
                #[trigger] low.emitted[i],
            ) == Some(spec_temp_name(counter + bin_count(low.emitted.take(i + 1))))),
    decreases ast,
{
    match ast {
        NodeV::Unary { op, node } => match op {
            Operations::Return | Operations::Negate | Operations::Complement => {
                lemma_fresh_dsts(*node, counter);
                match spec_create_functions(*node, counter) {
                    Ok(low) => {
                        let whole = spec_create_functions(ast, counter)->Ok_0;
                        assert(whole.emitted.drop_last() =~= low.emitted);
                        assert forall|i: int|
                            0 <= i < whole.emitted.len() && whole.emitted[i] is Binary implies
                            dst_name(#[trigger] whole.emitted[i]) == Some(
                            spec_temp_name(counter + bin_count(whole.emitted.take(i + 1))),
                        ) by {
                            if i < low.emitted.len() {
                                assert(whole.emitted[i] == low.emitted[i]);
                                assert(whole.emitted.take(i + 1) =~= low.emitted.take(i + 1));
                            } else {
                                assert(whole.emitted.take(i + 1) =~= whole.emitted);
                                if op is Return {
                                } else {
                                    let dst = spec_fresh_var(low.counter + 1);
                                    assert(dst_name(whole.emitted[i]) == Some(
                                        spec_temp_name(low.counter + 1),
                                    ));
                                }
                            }
                        }
                    },
                    Err(_) => {},
                }
            },
            _ => {},
        },
        _ => {},
    }
}

/// Fresh-name uniqueness: no two two-operand instructions of one
/// lowering write to the same temporary; the names are
/// `temp.(counter+1)`, `temp.(counter+2)`, ... in emission order.
pub proof fn lemma_fresh_name_uniqueness(ast: NodeV, counter: nat)
    ensures
        spec_create_functions(ast, counter) matches Ok(low) ==> forall|i: int, j: int|
            0 <= i < j < low.emitted.len() && low.emitted[i] is Binary
                && low.emitted[j] is Binary ==> dst_name(#[trigger] low.emitted[i]) != dst_name(
                #[trigger] low.emitted[j],
            ),
{
    lemma_fresh_dsts(ast, counter);
    match spec_create_functions(ast, counter) {
        Ok(low) => {
            assert forall|i: int, j: int|
                0 <= i < j < low.emitted.len() && low.emitted[i] is Binary
                    && low.emitted[j] is Binary implies dst_name(#[trigger] low.emitted[i])
                != dst_name(#[trigger] low.emitted[j]) by {
                let ki = counter + bin_count(low.emitted.take(i + 1));
                let kj = counter + bin_count(low.emitted.take(j + 1));
                lemma_bin_count_mono(low.emitted, i + 1, j);
                assert(low.emitted.take(j + 1).drop_last() =~= low.emitted.take(j));
                assert(low.emitted.take(j + 1).last() == low.emitted[j]);
                assert(kj > ki);
                if dst_name(low.emitted[i]) == dst_name(low.emitted[j]) {
                    crate::intermediate::lemma_temp_name_injective(ki, kj);
                }
            }
        },
        Err(_) => {},
    }
}


/// The stack pass leaves no `Pseudo` node behind.
proof fn lemma_process_no_pseudo(n: AssemblyNodeV, names: Seq<Seq<char>>)
    ensures
        spec_process(n, names) matches Ok(p) ==> count_pseudos(p.0) == 0,
    decreases n, 1int,
{
    match n {
        AssemblyNodeV::Unary { op, node } => {
            if !(op is Pseudo) {
                lemma_process_no_pseudo(*node, names);
            }
        },
        AssemblyNodeV::Binary { op, lhs, rhs } => {
            lemma_process_no_pseudo(*lhs, names);
            match spec_process(*lhs, names) {
                Ok(pl) => {
                    lemma_process_no_pseudo(*rhs, pl.1);
                },
                Err(_) => {},
            }
        },
        AssemblyNodeV::Sequence(s) => {
            lemma_process_seq_no_pseudo(s, names);
        },
        _ => {},
    }
}

/// The sequence form of `lemma_process_no_pseudo`.
proof fn lemma_process_seq_no_pseudo(s: Seq<AssemblyNodeV>, names: Seq<Seq<char>>)
    ensures
        spec_process_seq(s, names) matches Ok(p) ==> count_pseudos_seq(p.0) == 0,
    decreases s, 0int,
{
    if s.len() > 0 {
        lemma_process_no_pseudo(s.first(), names);
        match spec_process(s.first(), names) {
            Ok(p0) => {
                lemma_process_seq_no_pseudo(s.drop_first(), p0.1);
                match spec_process_seq(s.drop_first(), p0.1) {
                    Ok(pr) => {
                        assert((seq![p0.0] + pr.0).first() == p0.0);
                        assert((seq![p0.0] + pr.0).drop_first() =~= pr.0);
                    },
                    Err(_) => {},
                }
            },
            Err(_) => {},
        }
    }
}

/// After the stack pass: no `Pseudo` node remains, the map's names stay
/// distinct, and every slot lies in `{-4, -8, ..., -4 * size}` — so
/// each distinct former temporary holds a slot of its own.
pub proof fn lemma_pseudo_elimination(n: AssemblyNodeV, names: Seq<Seq<char>>)
    requires
        wf_names(names),
    ensures
        spec_process(n, names) matches Ok(p) ==> count_pseudos(p.0) == 0 && wf_names(p.1)
            && stacks_within(p.0, p.1.len()),
{
    lemma_process_no_pseudo(n, names);
    crate::generator::lemma_process_props(n, names);
    crate::generator::lemma_process_stacks(n, names);
}

/// A move whose both operands are stack slots.
pub open spec fn is_ss_mov(e: AssemblyNodeV) -> bool {
    match e {
        AssemblyNodeV::Binary { op, lhs, rhs } => op is Mov && *lhs is Stack && *rhs is Stack,
        _ => false,
    }
}

/// Splitting one element yields no illegal move.
proof fn lemma_split_no_ss(e: AssemblyNodeV)
    ensures
        forall|i: int| 0 <= i < spec_split_mov(e).len() ==> !is_ss_mov(#[trigger] spec_split_mov(e)[i]),
{
}

/// The scan's output holds no move with both operands on the stack.
proof fn lemma_fix_elems_no_ss(s: Seq<AssemblyNodeV>)
    ensures
        forall|i: int| 0 <= i < spec_fix_elems(s).len() ==> !is_ss_mov(
            #[trigger] spec_fix_elems(s)[i],
        ),
    decreases s.len(),
{
    if s.len() > 0 {
        lemma_split_no_ss(s.first());
        lemma_fix_elems_no_ss(s.drop_first());
        let head = spec_split_mov(s.first());
        let rest = spec_fix_elems(s.drop_first());
        assert forall|i: int| 0 <= i < spec_fix_elems(s).len() implies !is_ss_mov(
            #[trigger] spec_fix_elems(s)[i],
        ) by {
            if i < head.len() {
                assert(spec_fix_elems(s)[i] == head[i]);
            } else {
                assert(spec_fix_elems(s)[i] == rest[i - head.len()]);
            }
        }
    }
}

/// After fixup: the body begins with exactly one `AllocateStack` of the
/// frame size the elements ask for, and no move has both operands on
/// the stack.
pub proof fn lemma_fixup_shape(s: Seq<AssemblyNodeV>)
    ensures
        spec_fix(AssemblyNodeV::Sequence(s)) matches Ok(m) ==> (match m {
            AssemblyNodeV::Sequence(t) => t.len() >= 1 && t[0]
                == AssemblyNodeV::AllocateStack(spec_find_size_seq(s)) && (forall|i: int|
                0 <= i < t.len() ==> !is_ss_mov(#[trigger] t[i])),
            _ => false,
        }),
{
    lemma_fix_elems_no_ss(s);
    let t = seq![AssemblyNodeV::AllocateStack(spec_find_size_seq(s))] + spec_fix_elems(s);
    assert(t[0] == AssemblyNodeV::AllocateStack(spec_find_size_seq(s)));
    assert forall|i: int| 0 <= i < t.len() implies !is_ss_mov(#[trigger] t[i]) by {
        if i > 0 {
            assert(t[i] == spec_fix_elems(s)[i - 1]);
        }
    }
}

/// Whether some `Stack` node with offset `x` stands in the tree.
pub open spec fn has_stack(n: AssemblyNodeV, x: int) -> bool
    decreases n, 1int,
{
    match n {
        AssemblyNodeV::Stack(y) => y == x,
        AssemblyNodeV::Unary { op, node } => has_stack(*node, x),
        AssemblyNodeV::Binary { op, lhs, rhs } => has_stack(*lhs, x) || has_stack(*rhs, x),
        AssemblyNodeV::Sequence(s) => has_stack_seq(s, x),
        _ => false,
    }
}

/// The sequence form of `has_stack`.
pub open spec fn has_stack_seq(s: Seq<AssemblyNodeV>, x: int) -> bool
    decreases s, 0int,
{
    if s.len() == 0 {
        false
    } else {
        has_stack(s.first(), x) || has_stack_seq(s.drop_first(), x)
    }
}

/// A contained slot bounds the frame size from below.
proof fn lemma_has_stack_size(n: AssemblyNodeV, x: int)
    requires
        has_stack(n, x),
    ensures
        spec_find_size(n) >= -x,
    decreases n, 1int,
{
    match n {
        AssemblyNodeV::Unary { op, node } => {
            lemma_has_stack_size(*node, x);
        },
        AssemblyNodeV::Binary { op, lhs, rhs } => {
            if has_stack(*lhs, x) {
                lemma_has_stack_size(*lhs, x);
            } else {
                lemma_has_stack_size(*rhs, x);
            }
        },
        AssemblyNodeV::Sequence(s) => {
            lemma_has_stack_seq_size(s, x);
        },
        _ => {},
    }
}

/// The sequence form of `lemma_has_stack_size`.
proof fn lemma_has_stack_seq_size(s: Seq<AssemblyNodeV>, x: int)
    requires
        has_stack_seq(s, x),
    ensures
        spec_find_size_seq(s) >= -x,
    decreases s, 0int,
{
    assert(s.len() > 0);
    if has_stack_seq(s.drop_first(), x) {
        lemma_has_stack_seq_size(s.drop_first(), x);
        lemma_find_size_drop_first(s);
    } else {
        lemma_has_stack_size(s.first(), x);
        lemma_find_size_seq_ge_elem(s, 0);
    }
}

/// A sequence's frame size is at least any element's.
proof fn lemma_find_size_seq_ge_elem(s: Seq<AssemblyNodeV>, i: int)
    requires
        0 <= i < s.len(),
    ensures
        spec_find_size_seq(s) >= spec_find_size(s[i]),
    decreases s.len(),
{
    if i == s.len() - 1 {
        assert(s.last() == s[i]);
    } else {
        assert(s.drop_last()[i] == s[i]);
        lemma_find_size_seq_ge_elem(s.drop_last(), i);
    }
}

/// A frame size never exceeds a nonnegative bound on the elements.
proof fn lemma_find_size_seq_le(s: Seq<AssemblyNodeV>, x: int)
    requires
        x >= 0,
        forall|i: int| 0 <= i < s.len() ==> spec_find_size(#[trigger] s[i]) <= x,
    ensures
        spec_find_size_seq(s) <= x,
    decreases s.len(),
{
    if s.len() > 0 {
        assert forall|i: int| 0 <= i < s.drop_last().len() implies spec_find_size(
            #[trigger] s.drop_last()[i],
        ) <= x by {
            assert(s.drop_last()[i] == s[i]);
        }
        lemma_find_size_seq_le(s.drop_last(), x);
        assert(s.last() == s[s.len() - 1]);
    }
}

/// A sequence's frame size is at least its tail's.
proof fn lemma_find_size_drop_first(s: Seq<AssemblyNodeV>)
    requires
        s.len() > 0,
    ensures
        spec_find_size_seq(s) >= spec_find_size_seq(s.drop_first()),
        spec_find_size_seq(s) >= 0,
{
    lemma_find_size_seq_nonneg(s);
    assert forall|i: int| 0 <= i < s.drop_first().len() implies spec_find_size(
        #[trigger] s.drop_first()[i],
    ) <= spec_find_size_seq(s) by {
        assert(s.drop_first()[i] == s[i + 1]);
        lemma_find_size_seq_ge_elem(s, i + 1);
    }
    lemma_find_size_seq_le(s.drop_first(), spec_find_size_seq(s));
}

/// Slots within a bound cap the frame size.
proof fn lemma_within_size(n: AssemblyNodeV, b: nat)
    requires
        stacks_within(n, b),
    ensures
        spec_find_size(n) <= 4 * b,
    decreases n, 1int,
{
    match n {
        AssemblyNodeV::Unary { op, node } => {
            lemma_within_size(*node, b);
        },
        AssemblyNodeV::Binary { op, lhs, rhs } => {
            lemma_within_size(*lhs, b);
            lemma_within_size(*rhs, b);
        },
        AssemblyNodeV::Sequence(s) => {
            lemma_within_size_seq(s, b);
        },
        _ => {},
    }
}

/// The sequence form of `lemma_within_size`.
proof fn lemma_within_size_seq(s: Seq<AssemblyNodeV>, b: nat)
    requires
        stacks_within_seq(s, b),
    ensures
        spec_find_size_seq(s) <= 4 * b,
    decreases s, 0int,
{
    if s.len() > 0 {
        lemma_within_seq_elem(s, b, s.len() - 1);
        lemma_within_size(s.last(), b);
        assert forall|i: int| 0 <= i < s.drop_last().len() implies stacks_within(
            #[trigger] s.drop_last()[i],
            b,
        ) by {
            assert(s.drop_last()[i] == s[i]);
            lemma_within_seq_elem(s, b, i);
        }
        lemma_seq_within_from_elems(s.drop_last(), b);
        lemma_within_size_seq(s.drop_last(), b);
    }
}

/// Each element of a bounded sequence is bounded.
proof fn lemma_within_seq_elem(s: Seq<AssemblyNodeV>, b: nat, i: int)
    requires
        stacks_within_seq(s, b),
        0 <= i < s.len(),
    ensures
        stacks_within(s[i], b),
    decreases i,
{
    if i == 0 {
        assert(s[0] == s.first());
    } else {
        assert(s.drop_first()[i - 1] == s[i]);
        lemma_within_seq_elem(s.drop_first(), b, i - 1);
    }
}

/// A sequence of bounded elements is bounded.
proof fn lemma_seq_within_from_elems(s: Seq<AssemblyNodeV>, b: nat)
    requires
        forall|i: int| 0 <= i < s.len() ==> stacks_within(#[trigger] s[i], b),
    ensures
        stacks_within_seq(s, b),
    decreases s.len(),
{
    if s.len() > 0 {
        assert(s.first() == s[0]);
        assert forall|i: int| 0 <= i < s.drop_first().len() implies stacks_within(
            #[trigger] s.drop_first()[i],
            b,
        ) by {
            assert(s.drop_first()[i] == s[i + 1]);
        }
        lemma_seq_within_from_elems(s.drop_first(), b);
    }
}

/// Where the map grew, a slot at the new end of the range stands in the
/// output.
proof fn lemma_process_grow_has(n: AssemblyNodeV, names: Seq<Seq<char>>)
    ensures
        spec_process(n, names) matches Ok(p) ==> (p.1.len() > names.len() ==> has_stack(
            p.0,
            -4 * (p.1.len() as int),
        )),
    decreases n, 1int,
{
    match n {
        AssemblyNodeV::Unary { op, node } => {
            if op is Pseudo {
                match *node {
                    AssemblyNodeV::Str(name) => {
                        if find_name(names, name) is Some {
                        } else {
                            crate::generator::lemma_find_name_props(names, name);
                            assert forall|j: int| 0 <= j < names.len() implies names.push(
                                name,
                            )[j] != name by {
                                assert(names.push(name)[j] == names[j]);
                            }
                            crate::generator::lemma_find_name_at(
                                names.push(name),
                                name,
                                names.len() as int,
                            );
                        }
                    },
                    _ => {},
                }
            } else {
                lemma_process_grow_has(*node, names);
            }
        },
        AssemblyNodeV::Binary { op, lhs, rhs } => {
            lemma_process_grow_has(*lhs, names);
            match spec_process(*lhs, names) {
                Ok(pl) => {
                    lemma_process_grow_has(*rhs, pl.1);
                    crate::generator::lemma_process_props(*rhs, pl.1);
                },
                Err(_) => {},
            }
        },
        AssemblyNodeV::Sequence(s) => {
            lemma_process_seq_grow_has(s, names);
        },
        _ => {},
    }
}

/// The sequence form of `lemma_process_grow_has`.
proof fn lemma_process_seq_grow_has(s: Seq<AssemblyNodeV>, names: Seq<Seq<char>>)
    ensures
        spec_process_seq(s, names) matches Ok(p) ==> (p.1.len() > names.len()
            ==> has_stack_seq(p.0, -4 * (p.1.len() as int))),
    decreases s, 0int,
{
    if s.len() > 0 {
        lemma_process_grow_has(s.first(), names);
        match spec_process(s.first(), names) {
            Ok(p0) => {
                lemma_process_seq_grow_has(s.drop_first(), p0.1);
                crate::generator::lemma_process_seq_props(s.drop_first(), p0.1);
                match spec_process_seq(s.drop_first(), p0.1) {
                    Ok(pr) => {
                        assert((seq![p0.0] + pr.0).first() == p0.0);
                        assert((seq![p0.0] + pr.0).drop_first() =~= pr.0);
                    },
                    Err(_) => {},
                }
            },
            Err(_) => {},
        }
    }
}

/// The frame size after the stack pass from an empty map is exactly
/// four bytes per distinct temporary.
pub proof fn lemma_frame_size(s: Seq<AssemblyNodeV>)
    ensures
        spec_process_seq(s, Seq::empty()) matches Ok(p) ==> spec_find_size_seq(p.0) == 4 * (
        p.1.len() as int),
{
    match spec_process_seq(s, Seq::<Seq<char>>::empty()) {
        Ok(p) => {
            crate::generator::lemma_process_seq_stacks(s, Seq::empty());
            lemma_within_size_seq(p.0, p.1.len());
            if p.1.len() > 0 {
                lemma_process_seq_grow_has(s, Seq::empty());
                lemma_has_stack_seq_size(p.0, -4 * (p.1.len() as int));
            } else {
                lemma_find_size_seq_nonneg(p.0);
            }
        },
        Err(_) => {},
    }
}

/// A sequence's frame size is never negative.
proof fn lemma_find_size_seq_nonneg(s: Seq<AssemblyNodeV>)
    ensures
        spec_find_size_seq(s) >= 0,
    decreases s.len(),
{
    if s.len() > 0 {
        lemma_find_size_seq_nonneg(s.drop_last());
    }
}

/// A tree with no temporaries and no slots passes through the stack
/// pass untouched, with the map unchanged.
pub proof fn lemma_process_rerun(n: AssemblyNodeV, names: Seq<Seq<char>>)
    requires
        count_pseudos(n) == 0,
        stack_free(n),
    ensures
        spec_process(n, names) == Ok::<(AssemblyNodeV, Seq<Seq<char>>), CompileError>(
            (n, names),
        ),
    decreases n, 1int,
{
    match n {
        AssemblyNodeV::Unary { op, node } => {
            lemma_process_rerun(*node, names);
        },
        AssemblyNodeV::Binary { op, lhs, rhs } => {
            lemma_process_rerun(*lhs, names);
            lemma_process_rerun(*rhs, names);
        },
        AssemblyNodeV::Sequence(s) => {
            lemma_process_seq_rerun(s, names);
        },
        _ => {},
    }
}

/// The sequence form of `lemma_process_rerun`.
proof fn lemma_process_seq_rerun(s: Seq<AssemblyNodeV>, names: Seq<Seq<char>>)
    requires
        count_pseudos_seq(s) == 0,
        stack_free_seq(s),
    ensures
        spec_process_seq(s, names) == Ok::<(Seq<AssemblyNodeV>, Seq<Seq<char>>), CompileError>(
            (s, names),
        ),
    decreases s, 0int,
{
    if s.len() == 0 {
        assert(s =~= Seq::<AssemblyNodeV>::empty());
    } else {
        lemma_process_rerun(s.first(), names);
        lemma_process_seq_rerun(s.drop_first(), names);
        assert(seq![s.first()] + s.drop_first() =~= s);
    }
}

/// No `Stack` node stands in the tree.
pub open spec fn stack_free(n: AssemblyNodeV) -> bool
    decreases n, 1int,
{
    match n {
        AssemblyNodeV::Stack(_) => false,
        AssemblyNodeV::Unary { op, node } => stack_free(*node),
        AssemblyNodeV::Binary { op, lhs, rhs } => stack_free(*lhs) && stack_free(*rhs),
        AssemblyNodeV::Sequence(s) => stack_free_seq(s),
        _ => true,
    }
}

/// The sequence form of `stack_free`.
pub open spec fn stack_free_seq(s: Seq<AssemblyNodeV>) -> bool
    decreases s, 0int,
{
    if s.len() == 0 {
        true
    } else {
        stack_free(s.first()) && stack_free_seq(s.drop_first())
    }
}

/// The scan keeps a sequence with no illegal moves as it is.
proof fn lemma_fix_elems_fixed(t: Seq<AssemblyNodeV>)
    requires
        forall|i: int| 0 <= i < t.len() ==> !is_ss_mov(#[trigger] t[i]),
    ensures
        spec_fix_elems(t) == t,
    decreases t.len(),
{
    if t.len() > 0 {
        assert(t.first() == t[0]);
        assert forall|i: int| 0 <= i < t.drop_first().len() implies !is_ss_mov(
            #[trigger] t.drop_first()[i],
        ) by {
            assert(t.drop_first()[i] == t[i + 1]);
        }
        lemma_fix_elems_fixed(t.drop_first());
        assert(spec_split_mov(t.first()) =~= seq![t.first()]);
        assert(seq![t.first()] + t.drop_first() =~= t);
    }
}

/// Re-running the scan on its own output changes nothing.
pub proof fn lemma_fix_scan_idempotent(s: Seq<AssemblyNodeV>)
    ensures
        spec_fix_elems(spec_fix_elems(s)) == spec_fix_elems(s),
{
    lemma_fix_elems_no_ss(s);
    lemma_fix_elems_fixed(spec_fix_elems(s));
}

/// Re-running fixup on a fixed-up body splits nothing further: it only
/// prepends one more frame allocation, recomputed over the same slots.
pub proof fn lemma_fixup_rerun(s: Seq<AssemblyNodeV>)
    ensures
        spec_fix(AssemblyNodeV::Sequence(s)) matches Ok(m) ==> (match m {
            AssemblyNodeV::Sequence(t) => spec_fix(m) == Ok::<AssemblyNodeV, CompileError>(
                AssemblyNodeV::Sequence(
                    seq![AssemblyNodeV::AllocateStack(spec_find_size_seq(t))] + t,
                ),
            ),
            _ => false,
        }),
{
    let t = seq![AssemblyNodeV::AllocateStack(spec_find_size_seq(s))] + spec_fix_elems(s);
    lemma_fixup_shape(s);
    lemma_fix_elems_fixed(t);
}


/// Every stream the lexer accepts satisfies the parser's payload
/// invariant: exactly the dynamic kinds carry data.
pub proof fn lemma_lex_well_formed(s: Seq<char>)
    ensures
        spec_lex(s) matches Some(toks) ==> crate::parser::wf_tokens(toks),
    decreases s.len(),
{
    crate::lexer::lemma_best_upto_matches(s, TOKEN_KIND_COUNT as nat);
    if s.len() == 0 {
    } else if is_space_char(s[0]) {
        lemma_lex_well_formed(s.drop_first());
    } else {
        match best_token(s) {
            None => {},
            Some(k) => {
                crate::lexer::lemma_match_len_bounds(k, s);
                let l = tok_match_len(k, s)->0;
                lemma_lex_well_formed(s.skip(l as int));
                match spec_lex(s.skip(l as int)) {
                    None => {},
                    Some(rest) => {
                        let tv = spec_token_value(k, s.take(l as int));
                        let toks = spec_lex(s)->0;
                        assert(toks == seq![tv] + rest);
                        assert forall|i: int|
                            0 <= i < toks.len() implies (crate::lexer::is_dynamic(
                            #[trigger] toks[i].token,
                        ) <==> toks[i].data is Some) by {
                            if i > 0 {
                                assert(toks[i] == rest[i - 1]);
                            }
                        }
                    },
                }
            },
        }
    }
}

/// The whole back end on one function body: assigning slots from an
/// empty map and fixing up yields a body that starts with exactly one
/// `AllocateStack` of four bytes per distinct temporary and holds no
/// move between two stack slots.
pub proof fn lemma_frame_allocation(body: Seq<AssemblyNodeV>)
    ensures
        spec_process_seq(body, Seq::empty()) matches Ok(p) ==> (match spec_fix(
            AssemblyNodeV::Sequence(p.0),
        ) {
            Ok(m) => match m {
                AssemblyNodeV::Sequence(t) => t.len() >= 1 && t[0]
                    == AssemblyNodeV::AllocateStack(4 * (p.1.len() as int)) && (forall|i: int|
                    0 <= i < t.len() ==> !is_ss_mov(#[trigger] t[i])),
                _ => false,
            },
            Err(_) => false,
        }),
{
    match spec_process_seq(body, Seq::<Seq<char>>::empty()) {
        Ok(p) => {
            lemma_frame_size(body);
            lemma_fixup_shape(p.0);
        },
        Err(_) => {},
    }
}

} // verus!
