//! Lowering of the source AST into straight-line three-address form.
//!
//! The function body becomes a `Sequence` of instructions; nested unary
//! expressions are flattened by binding each intermediate result to a
//! fresh temporary `temp.1`, `temp.2`, ... in lowering order. The
//! counter is scoped to one lowering, so the first temporary of every
//! compilation is `temp.1`.

use crate::errors::CompileError;
use crate::numeral::{dec_digits, push_dec_u64};
use crate::parser::{node_view, Node, NodeV, Operations};
use vstd::prelude::*;
use vstd::string::StringExecFns;

verus! {

broadcast use {vstd::std_specs::vec::group_vec_axioms, vstd::seq::group_seq_axioms};

/// The operations a three-address node can be tagged with.
#[derive(Debug, Clone, Copy)]
pub enum IntermediateOperations {
    Program,
    Function,
    Return,
    Unary,
    Constant,
    Var,
    Complement,
    Negate,
}

/// A three-address node: the source shapes extended with named
/// temporaries and instruction sequences.
#[derive(Debug)]
pub enum IntermediateNode {
    Int(i32),
    Str(String),
    Terminal { op: IntermediateOperations },
    Unary { op: IntermediateOperations, node: Box<IntermediateNode> },
    Binary { op: IntermediateOperations, lhs: Box<IntermediateNode>, rhs: Box<IntermediateNode> },
    Sequence(Vec<Box<IntermediateNode>>),
}

/// The mathematical image of an `IntermediateNode`.
pub ghost enum IntermediateNodeV {
    Int(i32),
    Str(Seq<char>),
    Terminal { op: IntermediateOperations },
    Unary { op: IntermediateOperations, node: Box<IntermediateNodeV> },
    Binary {
        op: IntermediateOperations,
        lhs: Box<IntermediateNodeV>,
        rhs: Box<IntermediateNodeV>,
    },
    Sequence(Seq<IntermediateNodeV>),
}

/// The image of a three-address node.
pub open spec fn inode_view(n: IntermediateNode) -> IntermediateNodeV
    decreases n, 1int,
{
    match n {
        IntermediateNode::Int(v) => IntermediateNodeV::Int(v),
        IntermediateNode::Str(s) => IntermediateNodeV::Str(s@),
        IntermediateNode::Terminal { op } => IntermediateNodeV::Terminal { op },
        IntermediateNode::Unary { op, node } => IntermediateNodeV::Unary {
            op,
            node: Box::new(inode_view(*node)),
        },
        IntermediateNode::Binary { op, lhs, rhs } => IntermediateNodeV::Binary {
            op,
            lhs: Box::new(inode_view(*lhs)),
            rhs: Box::new(inode_view(*rhs)),
        },
        IntermediateNode::Sequence(q) => IntermediateNodeV::Sequence(iseq_view(q@)),
    }
}

/// The image of a sequence of three-address nodes.
pub open spec fn iseq_view(q: Seq<Box<IntermediateNode>>) -> Seq<IntermediateNodeV>
    decreases q, 0int,
{
    if q.len() == 0 {
        Seq::empty()
    } else {
        seq![inode_view(*q.first())] + iseq_view(q.drop_first())
    }
}

/// The image of a sequence is the pointwise image.
pub broadcast proof fn lemma_iseq_view_elems(q: Seq<Box<IntermediateNode>>)
    ensures
        (#[trigger] iseq_view(q)).len() == q.len(),
        forall|i: int| 0 <= i < q.len() ==> iseq_view(q)[i] == inode_view(*q[i]),
    decreases q.len(),
{
    if q.len() > 0 {
        lemma_iseq_view_elems(q.drop_first());
        assert forall|i: int| 0 <= i < q.len() implies iseq_view(q)[i] == inode_view(*q[i]) by {
            if i > 0 {
                assert(iseq_view(q)[i] == iseq_view(q.drop_first())[i - 1]);
                assert(q.drop_first()[i - 1] == q[i]);
            }
        }
    }
}

/// The name of the `k`-th temporary.
pub open spec fn spec_temp_name(k: nat) -> Seq<char> {
    "temp."@ + dec_digits(k)
}

/// Distinct temporaries have distinct names.
pub proof fn lemma_temp_name_injective(a: nat, b: nat)
    requires
        spec_temp_name(a) == spec_temp_name(b),
    ensures
        a == b,
{
    let p = "temp."@;
    let da = dec_digits(a);
    let db = dec_digits(b);
    assert(spec_temp_name(a).len() == p.len() + da.len());
    assert(spec_temp_name(b).len() == p.len() + db.len());
    assert(da.len() == db.len());
    assert(da =~= db) by {
        assert forall|i: int| 0 <= i < da.len() implies #[trigger] da[i] == db[i] by {
            assert(spec_temp_name(a)[p.len() + i] == da[i]);
            assert(spec_temp_name(b)[p.len() + i] == db[i]);
        }
    }
    crate::numeral::lemma_dec_digits_injective(a, b);
}

/// How many temporaries lowering `n` allocates.
pub open spec fn count_temps(n: NodeV) -> nat
    decreases n,
{
    match n {
        NodeV::Unary { op, node } => (match op {
            Operations::Negate => 1nat,
            Operations::Complement => 1nat,
            _ => 0nat,
        }) + count_temps(*node),
        NodeV::Binary { op, lhs, rhs } => count_temps(*lhs) + count_temps(*rhs),
        _ => 0,
    }
}

/// What lowering one expression yields: the operand that names its
/// value, the instructions emitted for it, and the counter afterwards.
pub ghost struct Lowered {
    pub operand: IntermediateNodeV,
    pub emitted: Seq<IntermediateNodeV>,
    pub counter: nat,
}

/// An operand usable directly as an instruction source: a constant is
/// kept; anything else is read back from the current temporary.
pub open spec fn spec_get_constant_or_var(src: IntermediateNodeV, counter: nat)
    -> IntermediateNodeV {
    match src {
        IntermediateNodeV::Unary { op: IntermediateOperations::Constant, node: _ } => src,
        _ => IntermediateNodeV::Unary {
            op: IntermediateOperations::Var,
            node: Box::new(IntermediateNodeV::Str(spec_temp_name(counter))),
        },
    }
}

/// The fresh destination allocated for one unary operation.
pub open spec fn spec_fresh_var(counter: nat) -> IntermediateNodeV {
    IntermediateNodeV::Unary {
        op: IntermediateOperations::Var,
        node: Box::new(IntermediateNodeV::Str(spec_temp_name(counter))),
    }
}

/// Lowering of one expression subtree with the counter threaded
/// through: constants pass through; `Negate` and `Complement` emit one
/// instruction into a fresh destination; `Return` emits a return of its
/// child's operand. Any other shape is `UnexpectedAstShape`.
pub open spec fn spec_create_functions(ast: NodeV, counter: nat) -> Result<Lowered, CompileError>
    decreases ast,
{
    match ast {
        NodeV::Int(v) => Ok(
            Lowered { operand: IntermediateNodeV::Int(v), emitted: Seq::empty(), counter },
        ),
        NodeV::Unary { op, node } => match op {
            Operations::Return => match spec_create_functions(*node, counter) {
                Err(e) => Err(e),
                Ok(low) => {
                    let src_node = spec_get_constant_or_var(low.operand, low.counter);
                    Ok(
                        Lowered {
                            operand: src_node,
                            emitted: low.emitted.push(
                                IntermediateNodeV::Unary {
                                    op: IntermediateOperations::Return,
                                    node: Box::new(src_node),
                                },
                            ),
                            counter: low.counter,
                        },
                    )
                },
            },
            Operations::Constant => match spec_create_intermediate(*node) {
                Err(e) => Err(e),
                Ok(inner) => Ok(
                    Lowered {
                        operand: IntermediateNodeV::Unary {
                            op: IntermediateOperations::Constant,
                            node: Box::new(inner),
                        },
                        emitted: Seq::empty(),
                        counter,
                    },
                ),
            },
            Operations::Negate => match spec_create_functions(*node, counter) {
                Err(e) => Err(e),
                Ok(low) => {
                    let src_node = spec_get_constant_or_var(low.operand, low.counter);
                    let dst = spec_fresh_var(low.counter + 1);
                    Ok(
                        Lowered {
                            operand: dst,
                            emitted: low.emitted.push(
                                IntermediateNodeV::Binary {
                                    op: IntermediateOperations::Negate,
                                    lhs: Box::new(src_node),
                                    rhs: Box::new(dst),
                                },
                            ),
                            counter: low.counter + 1,
                        },
                    )
                },
            },
            Operations::Complement => match spec_create_functions(*node, counter) {
                Err(e) => Err(e),
                Ok(low) => {
                    let src_node = spec_get_constant_or_var(low.operand, low.counter);
                    let dst = spec_fresh_var(low.counter + 1);
                    Ok(
                        Lowered {
                            operand: dst,
                            emitted: low.emitted.push(
                                IntermediateNodeV::Binary {
                                    op: IntermediateOperations::Complement,
                                    lhs: Box::new(src_node),
                                    rhs: Box::new(dst),
                                },
                            ),
                            counter: low.counter + 1,
                        },
                    )
                },
            },
            _ => Err(CompileError::UnexpectedAstShape),
        },
        _ => Err(CompileError::UnexpectedAstShape),
    }
}

/// Structural lowering: `Program` and `Constant` recurse, leaves map
/// over, and a `Function`'s body is lowered into a fresh instruction
/// sequence with the temporary counter starting at zero.
pub open spec fn spec_create_intermediate(ast: NodeV) -> Result<IntermediateNodeV, CompileError>
    decreases ast,
{
    match ast {
        NodeV::Int(v) => Ok(IntermediateNodeV::Int(v)),
        NodeV::Str(s) => Ok(IntermediateNodeV::Str(s)),
        NodeV::Unary { op, node } => match op {
            Operations::Program => match spec_create_intermediate(*node) {
                Err(e) => Err(e),
                Ok(inner) => Ok(
                    IntermediateNodeV::Unary {
                        op: IntermediateOperations::Program,
                        node: Box::new(inner),
                    },
                ),
            },
            Operations::Constant => match spec_create_intermediate(*node) {
                Err(e) => Err(e),
                Ok(inner) => Ok(
                    IntermediateNodeV::Unary {
                        op: IntermediateOperations::Constant,
                        node: Box::new(inner),
                    },
                ),
            },
            _ => Err(CompileError::UnexpectedAstShape),
        },
        NodeV::Binary { op, lhs, rhs } => match op {
            Operations::Function => match spec_create_functions(*rhs, 0) {
                Err(e) => Err(e),
                Ok(low) => match spec_create_intermediate(*lhs) {
                    Err(e) => Err(e),
                    Ok(name) => Ok(
                        IntermediateNodeV::Binary {
                            op: IntermediateOperations::Function,
                            lhs: Box::new(name),
                            rhs: Box::new(IntermediateNodeV::Sequence(low.emitted)),
                        },
                    ),
                },
            },
            _ => Err(CompileError::UnexpectedAstShape),
        },
    }
}

/// The counter never moves backwards and allocates at most one
/// temporary per unary operation.
pub proof fn lemma_counter_bounds(ast: NodeV, counter: nat)
    ensures
        spec_create_functions(ast, counter) matches Ok(low) ==> counter <= low.counter <= counter
            + count_temps(ast),
    decreases ast,
{
    match ast {
        NodeV::Unary { op, node } => {
            lemma_counter_bounds(*node, counter);
        },
        _ => {},
    }
}

/// The count of temporaries a lowering would allocate, clamped just
/// above the largest count the counter can reach.
pub open spec fn capped_count(c: nat) -> nat {
    if c > u32::MAX {
        (u32::MAX + 1) as nat
    } else {
        c
    }
}

/// Count the temporaries lowering `ast` would allocate, clamped.
fn count_temps_capped(ast: &Node) -> (n: u64)
    ensures
        n == capped_count(count_temps(node_view(*ast))),
    decreases *ast,
{
    let cap: u64 = 0x1_0000_0000;
    match ast {
        Node::Int(_) => 0,
        Node::Str(_) => 0,
        Node::Unary { op, node } => {
            let inner = count_temps_capped(node);
            let here: u64 = match op {
                Operations::Negate => 1,
                Operations::Complement => 1,
                _ => 0,
            };
            if inner >= cap {
                cap
            } else {
                inner + here
            }
        },
        Node::Binary { op: _, lhs, rhs } => {
            let a = count_temps_capped(lhs);
            let b = count_temps_capped(rhs);
            if a >= cap || b >= cap || a + b >= cap {
                cap
            } else {
                a + b
            }
        },
    }
}

/// Whether an AST allocates few enough temporaries for the counter, so
/// that it may be lowered.
pub fn unary_ops_fit(ast: &Node) -> (b: bool)
    ensures
        b == (count_temps(node_view(*ast)) <= u32::MAX),
{
    count_temps_capped(ast) <= 0xffff_ffff
}

/// The name of the temporary numbered `k`.
pub fn temp_name(k: u32) -> (s: String)
    ensures
        s@ == spec_temp_name(k as nat),
{
    let mut s = String::new();
    s.append("temp.");
    push_dec_u64(k as u64, &mut s);
    proof {
        assert(Seq::<char>::empty() + "temp."@ =~= "temp."@);
    }
    s
}

/// The name of the most recently allocated temporary.
pub fn get_current_temporary(counter: &u32) -> (s: String)
    ensures
        s@ == spec_temp_name(*counter as nat),
{
    temp_name(*counter)
}

/// Allocate the next temporary and return its name.
pub fn get_next_temporary(counter: &mut u32) -> (s: String)
    requires
        *old(counter) < u32::MAX,
    ensures
        *final(counter) == *old(counter) + 1,
        s@ == spec_temp_name(*final(counter) as nat),
{
    *counter = *counter + 1;
    get_current_temporary(counter)
}

/// Keep a constant operand; read anything else back from the current
/// temporary.
pub fn get_constant_or_var(src: Box<IntermediateNode>, counter: &u32) -> (r: Box<
    IntermediateNode,
>)
    ensures
        inode_view(*r) == spec_get_constant_or_var(inode_view(*src), *counter as nat),
{
    let is_constant = match &*src {
        IntermediateNode::Unary { op: IntermediateOperations::Constant, node: _ } => true,
        _ => false,
    };
    if is_constant {
        src
    } else {
        let name = get_current_temporary(counter);
        let inner = Box::new(IntermediateNode::Str(name));
        proof {
            assert(inode_view(*inner) == IntermediateNodeV::Str(
                spec_temp_name(*counter as nat),
            ));
        }
        Box::new(IntermediateNode::Unary { op: IntermediateOperations::Var, node: inner })
    }
}

/// A freshly allocated destination temporary.
pub fn get_next_node(counter: &mut u32) -> (r: Box<IntermediateNode>)
    requires
        *old(counter) < u32::MAX,
    ensures
        *final(counter) == *old(counter) + 1,
        inode_view(*r) == spec_fresh_var(*final(counter) as nat),
{
    let name = get_next_temporary(counter);
    let inner = Box::new(IntermediateNode::Str(name));
    proof {
        assert(inode_view(*inner) == IntermediateNodeV::Str(spec_temp_name(*counter as nat)));
    }
    Box::new(IntermediateNode::Unary { op: IntermediateOperations::Var, node: inner })
}

/// A deep copy of a three-address node, equal in image.
pub fn clone_inode(n: &IntermediateNode) -> (r: IntermediateNode)
    ensures
        inode_view(r) == inode_view(*n),
    decreases *n,
{
    proof {
        broadcast use lemma_iseq_view_elems;

    }
    match n {
        IntermediateNode::Int(v) => IntermediateNode::Int(*v),
        IntermediateNode::Str(s) => IntermediateNode::Str(s.clone()),
        IntermediateNode::Terminal { op } => IntermediateNode::Terminal { op: *op },
        IntermediateNode::Unary { op, node } => IntermediateNode::Unary {
            op: *op,
            node: Box::new(clone_inode(node)),
        },
        IntermediateNode::Binary { op, lhs, rhs } => IntermediateNode::Binary {
            op: *op,
            lhs: Box::new(clone_inode(lhs)),
            rhs: Box::new(clone_inode(rhs)),
        },
        IntermediateNode::Sequence(q) => {
            let mut out: Vec<Box<IntermediateNode>> = Vec::new();
            let mut i: usize = 0;
            #[verifier::loop_isolation(false)]
            while i < q.len()
                invariant
                    i <= q@.len(),
                    out@.len() == i,
                    forall|j: int|
                        0 <= j < i ==> inode_view(*#[trigger] out@[j]) == inode_view(*q@[j]),
                decreases q@.len() - i,
            {
                proof {
                    vstd::std_specs::vec::axiom_vec_index_decreases::<Box<IntermediateNode>>(
                        *q,
                        i as int,
                    );
                }
                let c = clone_inode(&q[i]);
                out.push(Box::new(c));
                i = i + 1;
            }
            proof {
                lemma_iseq_view_elems(out@);
                lemma_iseq_view_elems(q@);
                assert(iseq_view(out@) =~= iseq_view(q@));
            }
            IntermediateNode::Sequence(out)
        },
    }
}

/// Lower one expression subtree, appending its instructions to
/// `sequence` and threading the temporary counter.
pub fn create_functions(
    ast: &Node,
    sequence: &mut Vec<Box<IntermediateNode>>,
    counter: &mut u32,
) -> (r: Result<Box<IntermediateNode>, CompileError>)
    requires
        *old(counter) + count_temps(node_view(*ast)) <= u32::MAX,
    ensures
        ({
            let res = spec_create_functions(node_view(*ast), *old(counter) as nat);
            match res {
                Ok(low) => r matches Ok(n) && inode_view(*n) == low.operand && iseq_view(
                    final(sequence)@,
                ) == iseq_view(old(sequence)@) + low.emitted && *final(counter) as nat
                    == low.counter,
                Err(e) => r matches Err(e2) && e2 == e,
            }
        }),
    decreases *ast,
{
    proof {
        broadcast use lemma_iseq_view_elems;

    }
    match ast {
        Node::Int(val) => {
            proof {
                assert(iseq_view(sequence@) + Seq::<IntermediateNodeV>::empty() =~= iseq_view(
                    sequence@,
                ));
            }
            Ok(Box::new(IntermediateNode::Int(*val)))
        },
        Node::Unary { op, node } => {
            match op {
                Operations::Return => {
                    let src = create_functions(node, sequence, counter)?;
                    let src_node = get_constant_or_var(src, counter);
                    let src_copy = clone_inode(&src_node);
                    let ghost mid = iseq_view(sequence@);
                    sequence.push(
                        Box::new(
                            IntermediateNode::Unary {
                                op: IntermediateOperations::Return,
                                node: Box::new(src_copy),
                            },
                        ),
                    );
                    proof {
                        let low = spec_create_functions(
                            node_view(**node),
                            *old(counter) as nat,
                        )->Ok_0;
                        let pushed = IntermediateNodeV::Unary {
                            op: IntermediateOperations::Return,
                            node: Box::new(inode_view(*src_node)),
                        };
                        assert(iseq_view(sequence@) =~= mid.push(pushed));
                        assert(iseq_view(old(sequence)@) + low.emitted.push(pushed) =~= (iseq_view(
                            old(sequence)@,
                        ) + low.emitted).push(pushed));
                    }
                    Ok(src_node)
                },
                Operations::Constant => {
                    let inner = create_intermediate(node)?;
                    proof {
                        assert(iseq_view(sequence@) + Seq::<IntermediateNodeV>::empty()
                            =~= iseq_view(sequence@));
                    }
                    Ok(
                        Box::new(
                            IntermediateNode::Unary {
                                op: IntermediateOperations::Constant,
                                node: inner,
                            },
                        ),
                    )
                },
                Operations::Negate => {
                    proof {
                        lemma_counter_bounds(node_view(**node), *counter as nat);
                    }
                    let src = create_functions(node, sequence, counter)?;
                    let src_node = get_constant_or_var(src, counter);
                    let dst = get_next_node(counter);
                    let dst_copy = clone_inode(&dst);
                    let ghost mid = iseq_view(sequence@);
                    sequence.push(
                        Box::new(
                            IntermediateNode::Binary {
                                op: IntermediateOperations::Negate,
                                lhs: src_node,
                                rhs: Box::new(dst_copy),
                            },
                        ),
                    );
                    proof {
                        let low = spec_create_functions(
                            node_view(**node),
                            *old(counter) as nat,
                        )->Ok_0;
                        let pushed = IntermediateNodeV::Binary {
                            op: IntermediateOperations::Negate,
                            lhs: Box::new(spec_get_constant_or_var(low.operand, low.counter)),
                            rhs: Box::new(spec_fresh_var(low.counter + 1)),
                        };
                        assert(iseq_view(sequence@) =~= mid.push(pushed));
                        assert(iseq_view(old(sequence)@) + low.emitted.push(pushed) =~= (iseq_view(
                            old(sequence)@,
                        ) + low.emitted).push(pushed));
                    }
                    Ok(dst)
                },
                Operations::Complement => {
                    proof {
                        lemma_counter_bounds(node_view(**node), *counter as nat);
                    }
                    let src = create_functions(node, sequence, counter)?;
                    let src_node = get_constant_or_var(src, counter);
                    let dst = get_next_node(counter);
                    let dst_copy = clone_inode(&dst);
                    let ghost mid = iseq_view(sequence@);
                    sequence.push(
                        Box::new(
                            IntermediateNode::Binary {
                                op: IntermediateOperations::Complement,
                                lhs: src_node,
                                rhs: Box::new(dst_copy),
                            },
                        ),
                    );
                    proof {
                        let low = spec_create_functions(
                            node_view(**node),
                            *old(counter) as nat,
                        )->Ok_0;
                        let pushed = IntermediateNodeV::Binary {
                            op: IntermediateOperations::Complement,
                            lhs: Box::new(spec_get_constant_or_var(low.operand, low.counter)),
                            rhs: Box::new(spec_fresh_var(low.counter + 1)),
                        };
                        assert(iseq_view(sequence@) =~= mid.push(pushed));
                        assert(iseq_view(old(sequence)@) + low.emitted.push(pushed) =~= (iseq_view(
                            old(sequence)@,
                        ) + low.emitted).push(pushed));
                    }
                    Ok(dst)
                },
                _ => Err(CompileError::UnexpectedAstShape),
            }
        },
        _ => Err(CompileError::UnexpectedAstShape),
    }
}

/// Lower a source AST into three-address form.
///
/// The `Function` body becomes a `Sequence` of instructions; the
/// temporary counter starts fresh for each lowering, so the names in
/// one compilation are `temp.1`, `temp.2`, ... in order.
pub fn create_intermediate(ast: &Node) -> (r: Result<Box<IntermediateNode>, CompileError>)
    requires
        count_temps(node_view(*ast)) <= u32::MAX,
    ensures
        ({
            match spec_create_intermediate(node_view(*ast)) {
                Ok(n) => r matches Ok(inode) && inode_view(*inode) == n,
                Err(e) => r matches Err(e2) && e2 == e,
            }
        }),
    decreases *ast,
{
    proof {
        broadcast use lemma_iseq_view_elems;

    }
    match ast {
        Node::Int(val) => Ok(Box::new(IntermediateNode::Int(*val))),
        Node::Str(val) => Ok(Box::new(IntermediateNode::Str(val.clone()))),
        Node::Unary { op, node } => match op {
            Operations::Program => {
                let inner = create_intermediate(node)?;
                Ok(
                    Box::new(
                        IntermediateNode::Unary {
                            op: IntermediateOperations::Program,
                            node: inner,
                        },
                    ),
                )
            },
            Operations::Constant => {
                let inner = create_intermediate(node)?;
                Ok(
                    Box::new(
                        IntermediateNode::Unary {
                            op: IntermediateOperations::Constant,
                            node: inner,
                        },
                    ),
                )
            },
            _ => Err(CompileError::UnexpectedAstShape),
        },
        Node::Binary { op, lhs, rhs } => match op {
            Operations::Function => {
                let mut sequence: Vec<Box<IntermediateNode>> = Vec::new();
                let mut counter: u32 = 0;
                proof {
                    assert(iseq_view(sequence@) =~= Seq::<IntermediateNodeV>::empty());
                }
                let _operand = create_functions(rhs, &mut sequence, &mut counter)?;
                let name = create_intermediate(lhs)?;
                proof {
                    let low = spec_create_functions(node_view(**rhs), 0)->Ok_0;
                    assert(Seq::<IntermediateNodeV>::empty() + low.emitted =~= low.emitted);
                    assert(iseq_view(sequence@) == low.emitted);
                }
                let body = Box::new(IntermediateNode::Sequence(sequence));
                proof {
                    let low = spec_create_functions(node_view(**rhs), 0)->Ok_0;
                    assert(inode_view(*body) == IntermediateNodeV::Sequence(low.emitted));
                }
                Ok(
                    Box::new(
                        IntermediateNode::Binary {
                            op: IntermediateOperations::Function,
                            lhs: name,
                            rhs: body,
                        },
                    ),
                )
            },
            _ => Err(CompileError::UnexpectedAstShape),
        },
    }
}

} // verus!
