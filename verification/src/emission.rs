//! Serialization of the fixed-up assembly tree to AT&T-syntax x86-64
//! text, ending with the note section that marks the stack
//! non-executable.

use crate::errors::CompileError;
use crate::generator::{anode_view, AssemblyNode, AssemblyNodeV, AssemblyOperations, AssemblyRegister};
use crate::numeral::dec_int;
use vstd::prelude::*;
use vstd::string::StringExecFns;

verus! {

broadcast use {vstd::std_specs::vec::group_vec_axioms, vstd::seq::group_seq_axioms};

/// The text of one assembly node.
///
/// Integers print as `$n` under `Imm` and bare under `Stack` and
/// `AllocateStack`; registers print as their 32-bit names; `Terminal`
/// `Return` prints the epilogue; `Function` prints the symbol
/// directive, the label and the prologue before its body; `Mov`,
/// `Neg` and `Not` print one instruction line each; a `Program` is its
/// child followed by the stack note. Any other combination is
/// `UnexpectedAssemblyShape`.
pub open spec fn spec_emit(n: AssemblyNodeV) -> Result<Seq<char>, CompileError>
    decreases n, 1int,
{
    match n {
        AssemblyNodeV::Int(x) => Ok("$"@ + dec_int(x as int)),
        AssemblyNodeV::Str(s) => Ok(s),
        AssemblyNodeV::Register(r) => match r {
            AssemblyRegister::AX => Ok("%eax"@),
            AssemblyRegister::R10 => Ok("%r10d"@),
        },
        AssemblyNodeV::AllocateStack(depth) => Ok(
            "    subq $"@ + dec_int(depth) + ", %rsp\n"@,
        ),
        AssemblyNodeV::Stack(depth) => Ok(dec_int(depth) + "(%rbp)"@),
        AssemblyNodeV::Terminal { op } => match op {
            AssemblyOperations::Return => Ok(
                "    movq %rbp, %rsp\n"@ + "    popq %rbp\n"@ + "    ret\n"@,
            ),
            _ => Err(CompileError::UnexpectedAssemblyShape),
        },
        AssemblyNodeV::Unary { op, node } => match op {
            AssemblyOperations::Program => match spec_emit(*node) {
                Err(e) => Err(e),
                Ok(body) => Ok(body + "    .section .note.GNU-stack,\"\",@progbits\n"@),
            },
            AssemblyOperations::Imm => match *node {
                AssemblyNodeV::Int(_) => spec_emit(*node),
                _ => Err(CompileError::UnexpectedAssemblyShape),
            },
            AssemblyOperations::Neg => match spec_emit(*node) {
                Err(e) => Err(e),
                Ok(operand) => Ok("    negl "@ + operand + "\n"@),
            },
            AssemblyOperations::Not => match spec_emit(*node) {
                Err(e) => Err(e),
                Ok(operand) => Ok("    notl "@ + operand + "\n"@),
            },
            _ => Err(CompileError::UnexpectedAssemblyShape),
        },
        AssemblyNodeV::Binary { op, lhs, rhs } => match op {
            AssemblyOperations::Function => match spec_emit(*lhs) {
                Err(e) => Err(e),
                Ok(name) => match spec_emit(*rhs) {
                    Err(e) => Err(e),
                    Ok(body) => Ok(
                        "    .globl "@ + name + "\n"@ + name + ":\n"@ + "    pushq %rbp\n"@
                            + "    movq %rsp, %rbp\n"@ + body,
                    ),
                },
            },
            AssemblyOperations::Mov => match spec_emit(*lhs) {
                Err(e) => Err(e),
                Ok(src) => match spec_emit(*rhs) {
                    Err(e) => Err(e),
                    Ok(dst) => Ok("    movl "@ + src + ", "@ + dst + "\n"@),
                },
            },
            _ => Err(CompileError::UnexpectedAssemblyShape),
        },
        AssemblyNodeV::Sequence(s) => spec_emit_seq(s),
    }
}

/// The concatenated text of a sequence of assembly nodes.
pub open spec fn spec_emit_seq(s: Seq<AssemblyNodeV>) -> Result<Seq<char>, CompileError>
    decreases s, 0int,
{
    if s.len() == 0 {
        Ok(Seq::empty())
    } else {
        match spec_emit(s.first()) {
            Err(e) => Err(e),
            Ok(head) => match spec_emit_seq(s.drop_first()) {
                Err(e) => Err(e),
                Ok(rest) => Ok(head + rest),
            },
        }
    }
}

/// Append the text of one assembly node to `out`.
pub fn convert_aast(aast: &AssemblyNode, out: &mut String) -> (r: Result<(), CompileError>)
    ensures
        ({
            match spec_emit(anode_view(*aast)) {
                Ok(t) => r is Ok && final(out)@ == old(out)@ + t,
                Err(e) => r matches Err(e2) && e2 == e,
            }
        }),
    decreases *aast,
{
    match aast {
        AssemblyNode::Int(x) => {
            out.append("$");
            crate::numeral::push_dec_i32(*x, out);
            proof {
                assert((old(out)@ + "$"@) + dec_int(*x as int) =~= old(out)@ + ("$"@ + dec_int(
                    *x as int,
                )));
            }
            Ok(())
        },
        AssemblyNode::Str(s) => {
            out.append(s.as_str());
            Ok(())
        },
        AssemblyNode::Register(reg) => {
            match reg {
                AssemblyRegister::AX => {
                    out.append("%eax");
                },
                AssemblyRegister::R10 => {
                    out.append("%r10d");
                },
            }
            Ok(())
        },
        AssemblyNode::AllocateStack(depth) => {
            out.append("    subq $");
            crate::numeral::push_dec_i64(*depth, out);
            out.append(", %rsp\n");
            proof {
                assert(((old(out)@ + "    subq $"@) + dec_int(*depth as int)) + ", %rsp\n"@
                    =~= old(out)@ + ("    subq $"@ + dec_int(*depth as int) + ", %rsp\n"@));
            }
            Ok(())
        },
        AssemblyNode::Stack(depth) => {
            crate::numeral::push_dec_i64(*depth, out);
            out.append("(%rbp)");
            proof {
                assert((old(out)@ + dec_int(*depth as int)) + "(%rbp)"@ =~= old(out)@ + (dec_int(
                    *depth as int,
                ) + "(%rbp)"@));
            }
            Ok(())
        },
        AssemblyNode::Terminal { op } => match op {
            AssemblyOperations::Return => {
                out.append("    movq %rbp, %rsp\n");
                out.append("    popq %rbp\n");
                out.append("    ret\n");
                proof {
                    assert(((old(out)@ + "    movq %rbp, %rsp\n"@) + "    popq %rbp\n"@)
                        + "    ret\n"@ =~= old(out)@ + ("    movq %rbp, %rsp\n"@
                        + "    popq %rbp\n"@ + "    ret\n"@));
                }
                Ok(())
            },
            _ => Err(CompileError::UnexpectedAssemblyShape),
        },
        AssemblyNode::Unary { op, node } => match op {
            AssemblyOperations::Program => {
                convert_aast(node, out)?;
                out.append("    .section .note.GNU-stack,\"\",@progbits\n");
                proof {
                    let body = spec_emit(anode_view(**node))->Ok_0;
                    assert((old(out)@ + body)
                        + "    .section .note.GNU-stack,\"\",@progbits\n"@ =~= old(out)@ + (body
                        + "    .section .note.GNU-stack,\"\",@progbits\n"@));
                }
                Ok(())
            },
            AssemblyOperations::Imm => match &**node {
                AssemblyNode::Int(_) => convert_aast(node, out),
                _ => Err(CompileError::UnexpectedAssemblyShape),
            },
            AssemblyOperations::Neg => {
                out.append("    negl ");
                convert_aast(node, out)?;
                out.append("\n");
                proof {
                    let operand = spec_emit(anode_view(**node))->Ok_0;
                    assert(((old(out)@ + "    negl "@) + operand) + "\n"@ =~= old(out)@ + (
                    "    negl "@ + operand + "\n"@));
                }
                Ok(())
            },
            AssemblyOperations::Not => {
                out.append("    notl ");
                convert_aast(node, out)?;
                out.append("\n");
                proof {
                    let operand = spec_emit(anode_view(**node))->Ok_0;
                    assert(((old(out)@ + "    notl "@) + operand) + "\n"@ =~= old(out)@ + (
                    "    notl "@ + operand + "\n"@));
                }
                Ok(())
            },
            _ => Err(CompileError::UnexpectedAssemblyShape),
        },
        AssemblyNode::Binary { op, lhs, rhs } => match op {
            AssemblyOperations::Function => {
                let mut name = String::new();
                convert_aast(lhs, &mut name)?;
                proof {
                    let namev = spec_emit(anode_view(**lhs))->Ok_0;
                    assert(Seq::<char>::empty() + namev =~= namev);
                }
                out.append("    .globl ");
                out.append(name.as_str());
                out.append("\n");
                out.append(name.as_str());
                out.append(":\n");
                out.append("    pushq %rbp\n");
                out.append("    movq %rsp, %rbp\n");
                convert_aast(rhs, out)?;
                proof {
                    let namev = spec_emit(anode_view(**lhs))->Ok_0;
                    let body = spec_emit(anode_view(**rhs))->Ok_0;
                    assert(((((((old(out)@ + "    .globl "@) + namev) + "\n"@) + namev) + ":\n"@)
                        + "    pushq %rbp\n"@ + "    movq %rsp, %rbp\n"@) + body =~= old(out)@ + (
                    "    .globl "@ + namev + "\n"@ + namev + ":\n"@ + "    pushq %rbp\n"@
                        + "    movq %rsp, %rbp\n"@ + body));
                }
                Ok(())
            },
            AssemblyOperations::Mov => {
                out.append("    movl ");
                convert_aast(lhs, out)?;
                out.append(", ");
                convert_aast(rhs, out)?;
                out.append("\n");
                proof {
                    let src = spec_emit(anode_view(**lhs))->Ok_0;
                    let dst = spec_emit(anode_view(**rhs))->Ok_0;
                    assert(((((old(out)@ + "    movl "@) + src) + ", "@) + dst) + "\n"@
                        =~= old(out)@ + ("    movl "@ + src + ", "@ + dst + "\n"@));
                }
                Ok(())
            },
            _ => Err(CompileError::UnexpectedAssemblyShape),
        },
        AssemblyNode::Sequence(q) => {
            let ghost s = crate::generator::aseq_view(q@);
            let ghost out0 = out@;
            proof {
                crate::generator::lemma_aseq_view_elems(q@);
                assert(s.skip(0) =~= s);
                match spec_emit_seq(s) {
                    Ok(w) => {
                        assert(out@ =~= out0 + Seq::<char>::empty());
                    },
                    Err(_) => {},
                }
            }
            let mut i: usize = 0;
            #[verifier::loop_isolation(false)]
            while i < q.len()
                invariant
                    i <= q@.len(),
                    spec_emit_seq(s.skip(i as int)) matches Ok(rest) ==> (spec_emit_seq(s)
                        matches Ok(whole) && out@ + rest == out0 + whole),
                    spec_emit_seq(s.skip(i as int)) is Err ==> spec_emit_seq(s)
                        == spec_emit_seq(s.skip(i as int)),
                decreases q@.len() - i,
            {
                proof {
                    vstd::std_specs::vec::axiom_vec_index_decreases::<Box<AssemblyNode>>(
                        *q,
                        i as int,
                    );
                    assert(s.skip(i as int).first() == anode_view(*q@[i as int]));
                    assert(s.skip(i as int).drop_first() =~= s.skip(i + 1));
                }
                let ghost out_before = out@;
                match convert_aast(&q[i], out) {
                    Ok(_) => {},
                    Err(e) => {
                        return Err(e);
                    },
                }
                i = i + 1;
                proof {
                    let head = spec_emit(s.skip(i - 1).first())->Ok_0;
                    match spec_emit_seq(s.skip(i as int)) {
                        Ok(rest) => {
                            assert((out_before + head) + rest =~= out_before + (head + rest));
                        },
                        Err(_) => {},
                    }
                }
            }
            proof {
                assert(s.skip(q@.len() as int) =~= Seq::<AssemblyNodeV>::empty());
                match spec_emit_seq(s) {
                    Ok(whole) => {
                        assert(out@ + Seq::<char>::empty() =~= out@);
                    },
                    Err(_) => {},
                }
            }
            Ok(())
        },
    }
}

/// Serialize a fixed-up assembly tree to its AT&T-syntax text.
pub fn emit(aast: &Box<AssemblyNode>) -> (r: Result<String, CompileError>)
    ensures
        ({
            match spec_emit(anode_view(**aast)) {
                Ok(t) => r matches Ok(s) && s@ == t,
                Err(e) => r matches Err(e2) && e2 == e,
            }
        }),
{
    let mut out = String::new();
    convert_aast(&**aast, &mut out)?;
    proof {
        match spec_emit(anode_view(**aast)) {
            Ok(t) => {
                assert(Seq::<char>::empty() + t =~= t);
            },
            Err(_) => {},
        }
    }
    Ok(out)
}

} // verus!
