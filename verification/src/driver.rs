//! The whole pipeline as one pure step: source text in, assembly text
//! out, stopping at the first stage that rejects its input.

use crate::emission::{emit, spec_emit};
use crate::errors::CompileError;
use crate::generator::{
    convert_ast, count_pseudos, generate, pseudo_budget_ok, spec_convert, spec_generate,
    STACK_NAME_LIMIT,
};
use crate::intermediate::{
    count_temps, create_intermediate, spec_create_intermediate, unary_ops_fit,
};
use crate::lexer::{lex, spec_lex};
use crate::parser::{parse, spec_program};
use vstd::prelude::*;

verus! {

/// The composition of the five stages on a whole source text.
pub open spec fn spec_compile(source: Seq<char>) -> Result<Seq<char>, CompileError> {
    match spec_lex(source) {
        None => Err(CompileError::BadToken),
        Some(toks) => match spec_program(toks) {
            Err(e) => Err(e),
            Ok(ast) => match spec_create_intermediate(ast) {
                Err(e) => Err(e),
                Ok(ir) => match spec_generate(ir) {
                    Err(e) => Err(e),
                    Ok(m) => spec_emit(m),
                },
            },
        },
    }
}

/// Whether a source text stays within the pipeline's two machine
/// limits, the temporary counter and the stack pass's slot budget; both
/// lie far beyond any program that fits in memory.
pub open spec fn compile_within_limits(source: Seq<char>) -> bool {
    match spec_lex(source) {
        None => true,
        Some(toks) => match spec_program(toks) {
            Err(_) => true,
            Ok(ast) => count_temps(ast) <= u32::MAX && (match spec_create_intermediate(ast) {
                Err(_) => true,
                Ok(ir) => match spec_convert(ir) {
                    Err(_) => true,
                    Ok(c) => count_pseudos(c) <= STACK_NAME_LIMIT,
                },
            }),
        },
    }
}

/// Compile one preprocessed source text to AT&T-syntax assembly text.
///
/// Succeeds exactly when every stage accepts, and then returns the text
/// of `spec_compile`; otherwise it returns the first stage's error.
pub fn compile(source: &str) -> (r: Result<String, CompileError>)
    requires
        compile_within_limits(source@),
    ensures
        ({
            match spec_compile(source@) {
                Ok(t) => r matches Ok(s) && s@ == t,
                Err(e) => r matches Err(e2) && e2 == e,
            }
        }),
{
    let mut tokens = match lex(source) {
        Ok(tokens) => tokens,
        Err(e) => {
            return Err(e);
        },
    };
    proof {
        crate::laws::lemma_lex_well_formed(source@);
    }
    let ast = match parse(&mut tokens) {
        Ok(ast) => ast,
        Err(e) => {
            return Err(e);
        },
    };
    let ir = match create_intermediate(&ast) {
        Ok(ir) => ir,
        Err(e) => {
            return Err(e);
        },
    };
    let machine = match generate(&ir) {
        Ok(machine) => machine,
        Err(e) => {
            return Err(e);
        },
    };
    emit(&machine)
}

/// Decide at run time that a source text stays within the pipeline's
/// machine limits. A text that already fails to lex or parse is within
/// them: the pipeline stops before any counter is used.
pub fn source_within_limits(source: &str) -> (b: bool)
    ensures
        b ==> compile_within_limits(source@),
{
    let mut tokens = match lex(source) {
        Ok(tokens) => tokens,
        Err(_) => {
            return true;
        },
    };
    proof {
        crate::laws::lemma_lex_well_formed(source@);
    }
    let ast = match parse(&mut tokens) {
        Ok(ast) => ast,
        Err(_) => {
            return true;
        },
    };
    if !unary_ops_fit(&ast) {
        return false;
    }
    let ir = match create_intermediate(&ast) {
        Ok(ir) => ir,
        Err(_) => {
            return true;
        },
    };
    let converted = match convert_ast(&ir) {
        Ok(converted) => converted,
        Err(_) => {
            return true;
        },
    };
    pseudo_budget_ok(&converted)
}

} // verus!
