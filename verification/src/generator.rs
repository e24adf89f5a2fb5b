//! Lowering of the three-address form into the assembly tree, and the
//! two mandatory passes over it: assigning each named temporary a stack
//! slot, and splitting the illegal memory-to-memory move while
//! prepending the stack-allocation prologue.

use crate::errors::CompileError;
use crate::intermediate::{inode_view, IntermediateNode, IntermediateNodeV, IntermediateOperations};
use vstd::prelude::*;

verus! {

broadcast use {vstd::std_specs::vec::group_vec_axioms, vstd::seq::group_seq_axioms};

/// The operations an assembly node can be tagged with.
#[derive(Debug, Clone, Copy)]
pub enum AssemblyOperations {
    Program,
    Function,
    Return,
    Imm,
    Mov,
    Neg,
    Not,
    Pseudo,
}

/// The two registers this pipeline uses: the return register and the
/// scratch register of the move fixup.
#[derive(Debug, Clone, Copy)]
pub enum AssemblyRegister {
    AX,
    R10,
}

/// An assembly-tree node.
#[derive(Debug)]
pub enum AssemblyNode {
    Int(i32),
    Str(String),
    Register(AssemblyRegister),
    Stack(i64),
    AllocateStack(i64),
    Terminal { op: AssemblyOperations },
    Unary { op: AssemblyOperations, node: Box<AssemblyNode> },
    Binary { op: AssemblyOperations, lhs: Box<AssemblyNode>, rhs: Box<AssemblyNode> },
    Sequence(Vec<Box<AssemblyNode>>),
}

/// The mathematical image of an `AssemblyNode`.
pub ghost enum AssemblyNodeV {
    Int(i32),
    Str(Seq<char>),
    Register(AssemblyRegister),
    Stack(int),
    AllocateStack(int),
    Terminal { op: AssemblyOperations },
    Unary { op: AssemblyOperations, node: Box<AssemblyNodeV> },
    Binary { op: AssemblyOperations, lhs: Box<AssemblyNodeV>, rhs: Box<AssemblyNodeV> },
    Sequence(Seq<AssemblyNodeV>),
}

/// The image of an assembly node.
pub open spec fn anode_view(n: AssemblyNode) -> AssemblyNodeV
    decreases n, 1int,
{
    match n {
        AssemblyNode::Int(v) => AssemblyNodeV::Int(v),
        AssemblyNode::Str(s) => AssemblyNodeV::Str(s@),
        AssemblyNode::Register(r) => AssemblyNodeV::Register(r),
        AssemblyNode::Stack(x) => AssemblyNodeV::Stack(x as int),
        AssemblyNode::AllocateStack(x) => AssemblyNodeV::AllocateStack(x as int),
        AssemblyNode::Terminal { op } => AssemblyNodeV::Terminal { op },
        AssemblyNode::Unary { op, node } => AssemblyNodeV::Unary {
            op,
            node: Box::new(anode_view(*node)),
        },
        AssemblyNode::Binary { op, lhs, rhs } => AssemblyNodeV::Binary {
            op,
            lhs: Box::new(anode_view(*lhs)),
            rhs: Box::new(anode_view(*rhs)),
        },
        AssemblyNode::Sequence(q) => AssemblyNodeV::Sequence(aseq_view(q@)),
    }
}

/// The image of a sequence of assembly nodes.
pub open spec fn aseq_view(q: Seq<Box<AssemblyNode>>) -> Seq<AssemblyNodeV>
    decreases q, 0int,
{
    if q.len() == 0 {
        Seq::empty()
    } else {
        seq![anode_view(*q.first())] + aseq_view(q.drop_first())
    }
}

/// The image of a sequence is the pointwise image.
pub broadcast proof fn lemma_aseq_view_elems(q: Seq<Box<AssemblyNode>>)
    ensures
        (#[trigger] aseq_view(q)).len() == q.len(),
        forall|i: int| 0 <= i < q.len() ==> aseq_view(q)[i] == anode_view(*q[i]),
    decreases q.len(),
{
    if q.len() > 0 {
        lemma_aseq_view_elems(q.drop_first());
        assert forall|i: int| 0 <= i < q.len() implies aseq_view(q)[i] == anode_view(*q[i]) by {
            if i > 0 {
                assert(aseq_view(q)[i] == aseq_view(q.drop_first())[i - 1]);
                assert(q.drop_first()[i - 1] == q[i]);
            }
        }
    }
}

/// Conversion of one three-address node into assembly form.
///
/// `Return` becomes a move into the return register followed by the
/// epilogue marker; `Negate` and `Complement` become a move into their
/// destination followed by the one-operand instruction; constants
/// become immediates and temporaries become `Pseudo` nodes. A lowered
/// child that is itself a `Sequence` is spliced into the enclosing one.
pub open spec fn spec_convert(n: IntermediateNodeV) -> Result<AssemblyNodeV, CompileError>
    decreases n, 1int,
{
    match n {
        IntermediateNodeV::Int(v) => Ok(AssemblyNodeV::Int(v)),
        IntermediateNodeV::Str(s) => Ok(AssemblyNodeV::Str(s)),
        IntermediateNodeV::Unary { op, node } => match op {
            IntermediateOperations::Program => match spec_convert(*node) {
                Err(e) => Err(e),
                Ok(c) => Ok(
                    AssemblyNodeV::Unary { op: AssemblyOperations::Program, node: Box::new(c) },
                ),
            },
            IntermediateOperations::Return => match spec_convert(*node) {
                Err(e) => Err(e),
                Ok(c) => Ok(
                    AssemblyNodeV::Sequence(
                        seq![
                            AssemblyNodeV::Binary {
                                op: AssemblyOperations::Mov,
                                lhs: Box::new(c),
                                rhs: Box::new(
                                    AssemblyNodeV::Register(AssemblyRegister::AX),
                                ),
                            },
                            AssemblyNodeV::Terminal { op: AssemblyOperations::Return },
                        ],
                    ),
                ),
            },
            IntermediateOperations::Constant => match spec_convert(*node) {
                Err(e) => Err(e),
                Ok(c) => Ok(
                    AssemblyNodeV::Unary { op: AssemblyOperations::Imm, node: Box::new(c) },
                ),
            },
            IntermediateOperations::Var => match spec_convert(*node) {
                Err(e) => Err(e),
                Ok(c) => Ok(
                    AssemblyNodeV::Unary { op: AssemblyOperations::Pseudo, node: Box::new(c) },
                ),
            },
            _ => Err(CompileError::UnexpectedAstShape),
        },
        IntermediateNodeV::Binary { op, lhs, rhs } => match op {
            IntermediateOperations::Function => match spec_convert(*lhs) {
                Err(e) => Err(e),
                Ok(cl) => match spec_convert(*rhs) {
                    Err(e) => Err(e),
                    Ok(cr) => Ok(
                        AssemblyNodeV::Binary {
                            op: AssemblyOperations::Function,
                            lhs: Box::new(cl),
                            rhs: Box::new(cr),
                        },
                    ),
                },
            },
            IntermediateOperations::Complement => match spec_convert(*lhs) {
                Err(e) => Err(e),
                Ok(src) => match spec_convert(*rhs) {
                    Err(e) => Err(e),
                    Ok(dst) => Ok(
                        AssemblyNodeV::Sequence(
                            seq![
                                AssemblyNodeV::Binary {
                                    op: AssemblyOperations::Mov,
                                    lhs: Box::new(src),
                                    rhs: Box::new(dst),
                                },
                                AssemblyNodeV::Unary {
                                    op: AssemblyOperations::Not,
                                    node: Box::new(dst),
                                },
                            ],
                        ),
                    ),
                },
            },
            IntermediateOperations::Negate => match spec_convert(*lhs) {
                Err(e) => Err(e),
                Ok(src) => match spec_convert(*rhs) {
                    Err(e) => Err(e),
                    Ok(dst) => Ok(
                        AssemblyNodeV::Sequence(
                            seq![
                                AssemblyNodeV::Binary {
                                    op: AssemblyOperations::Mov,
                                    lhs: Box::new(src),
                                    rhs: Box::new(dst),
                                },
                                AssemblyNodeV::Unary {
                                    op: AssemblyOperations::Neg,
                                    node: Box::new(dst),
                                },
                            ],
                        ),
                    ),
                },
            },
            _ => Err(CompileError::UnexpectedAstShape),
        },
        IntermediateNodeV::Sequence(s) => match spec_convert_seq(s) {
            Err(e) => Err(e),
            Ok(flat) => Ok(AssemblyNodeV::Sequence(flat)),
        },
        _ => Err(CompileError::UnexpectedAstShape),
    }
}

/// Elementwise conversion of an instruction sequence, splicing lowered
/// children that are sequences.
pub open spec fn spec_convert_seq(s: Seq<IntermediateNodeV>) -> Result<
    Seq<AssemblyNodeV>,
    CompileError,
>
    decreases s, 0int,
{
    if s.len() == 0 {
        Ok(Seq::empty())
    } else {
        match spec_convert(s.first()) {
            Err(e) => Err(e),
            Ok(c) => match spec_convert_seq(s.drop_first()) {
                Err(e) => Err(e),
                Ok(rest) => Ok(
                    (match c {
                        AssemblyNodeV::Sequence(inner) => inner,
                        _ => seq![c],
                    }) + rest,
                ),
            },
        }
    }
}

/// Convert a three-address tree into an assembly tree.
pub fn convert_ast(ast: &Box<IntermediateNode>) -> (r: Result<Box<AssemblyNode>, CompileError>)
    ensures
        ({
            match spec_convert(inode_view(**ast)) {
                Ok(c) => r matches Ok(a) && anode_view(*a) == c,
                Err(e) => r matches Err(e2) && e2 == e,
            }
        }),
    decreases **ast,
{
    match &**ast {
        IntermediateNode::Int(val) => Ok(Box::new(AssemblyNode::Int(*val))),
        IntermediateNode::Str(val) => Ok(Box::new(AssemblyNode::Str(val.clone()))),
        IntermediateNode::Unary { op, node } => match op {
            IntermediateOperations::Program => {
                let c = convert_ast(node)?;
                Ok(Box::new(AssemblyNode::Unary { op: AssemblyOperations::Program, node: c }))
            },
            IntermediateOperations::Return => {
                let c = convert_ast(node)?;
                let reg = Box::new(AssemblyNode::Register(AssemblyRegister::AX));
                proof {
                    assert(anode_view(*reg) == AssemblyNodeV::Register(AssemblyRegister::AX));
                }
                let mov = Box::new(
                    AssemblyNode::Binary { op: AssemblyOperations::Mov, lhs: c, rhs: reg },
                );
                let ret = Box::new(AssemblyNode::Terminal { op: AssemblyOperations::Return });
                let mut q: Vec<Box<AssemblyNode>> = Vec::new();
                q.push(mov);
                q.push(ret);
                proof {
                    lemma_aseq_view_elems(q@);
                    assert(aseq_view(q@) =~= seq![
                        anode_view(*q@[0]),
                        anode_view(*q@[1]),
                    ]);
                }
                Ok(Box::new(AssemblyNode::Sequence(q)))
            },
            IntermediateOperations::Constant => {
                let c = convert_ast(node)?;
                Ok(Box::new(AssemblyNode::Unary { op: AssemblyOperations::Imm, node: c }))
            },
            IntermediateOperations::Var => {
                let c = convert_ast(node)?;
                Ok(Box::new(AssemblyNode::Unary { op: AssemblyOperations::Pseudo, node: c }))
            },
            _ => Err(CompileError::UnexpectedAstShape),
        },
        IntermediateNode::Binary { op, lhs, rhs } => match op {
            IntermediateOperations::Function => {
                let cl = convert_ast(lhs)?;
                let cr = convert_ast(rhs)?;
                Ok(
                    Box::new(
                        AssemblyNode::Binary {
                            op: AssemblyOperations::Function,
                            lhs: cl,
                            rhs: cr,
                        },
                    ),
                )
            },
            IntermediateOperations::Complement => {
                let src = convert_ast(lhs)?;
                let dst = convert_ast(rhs)?;
                let dst_copy = clone_anode(&dst);
                let mov = Box::new(
                    AssemblyNode::Binary { op: AssemblyOperations::Mov, lhs: src, rhs: dst },
                );
                let not = Box::new(
                    AssemblyNode::Unary { op: AssemblyOperations::Not, node: dst_copy },
                );
                let mut q: Vec<Box<AssemblyNode>> = Vec::new();
                q.push(mov);
                q.push(not);
                proof {
                    lemma_aseq_view_elems(q@);
                    assert(aseq_view(q@) =~= seq![
                        anode_view(*q@[0]),
                        anode_view(*q@[1]),
                    ]);
                }
                Ok(Box::new(AssemblyNode::Sequence(q)))
            },
            IntermediateOperations::Negate => {
                let src = convert_ast(lhs)?;
                let dst = convert_ast(rhs)?;
                let dst_copy = clone_anode(&dst);
                let mov = Box::new(
                    AssemblyNode::Binary { op: AssemblyOperations::Mov, lhs: src, rhs: dst },
                );
                let neg = Box::new(
                    AssemblyNode::Unary { op: AssemblyOperations::Neg, node: dst_copy },
                );
                let mut q: Vec<Box<AssemblyNode>> = Vec::new();
                q.push(mov);
                q.push(neg);
                proof {
                    lemma_aseq_view_elems(q@);
                    assert(aseq_view(q@) =~= seq![
                        anode_view(*q@[0]),
                        anode_view(*q@[1]),
                    ]);
                }
                Ok(Box::new(AssemblyNode::Sequence(q)))
            },
            _ => Err(CompileError::UnexpectedAstShape),
        },
        IntermediateNode::Sequence(q) => {
            let mut flat: Vec<Box<AssemblyNode>> = Vec::new();
            let mut i: usize = 0;
            let ghost s = crate::intermediate::iseq_view(q@);
            proof {
                crate::intermediate::lemma_iseq_view_elems(q@);
                assert(s.skip(0) =~= s);
                match spec_convert_seq(s) {
                    Ok(w) => {
                        assert(aseq_view(flat@) + w =~= w);
                    },
                    Err(_) => {},
                }
            }
            #[verifier::loop_isolation(false)]
            while i < q.len()
                invariant
                    i <= q@.len(),
                    spec_convert_seq(s.skip(i as int)) matches Ok(rest) ==> spec_convert_seq(s)
                        matches Ok(whole) && whole == aseq_view(flat@) + rest,
                    spec_convert_seq(s.skip(i as int)) is Err ==> spec_convert_seq(s)
                        == spec_convert_seq(s.skip(i as int)),
                decreases q@.len() - i,
            {
                proof {
                    vstd::std_specs::vec::axiom_vec_index_decreases::<Box<IntermediateNode>>(
                        *q,
                        i as int,
                    );
                    assert(s.skip(i as int).first() == inode_view(*q@[i as int]));
                    assert(s.skip(i as int).drop_first() =~= s.skip(i + 1));
                }
                let c = match convert_ast(&q[i]) {
                    Ok(c) => c,
                    Err(e) => {
                        return Err(e);
                    },
                };
                let ghost flat_before = aseq_view(flat@);
                let ghost cv = anode_view(*c);
                let is_seq = match &*c {
                    AssemblyNode::Sequence(_) => true,
                    _ => false,
                };
                if is_seq {
                    match *c {
                        AssemblyNode::Sequence(mut inner) => {
                            let ghost inner0 = inner@;
                            let mut j: usize = 0;
                            #[verifier::loop_isolation(false)]
                            while j < inner.len()
                                invariant
                                    j <= inner0.len(),
                                    inner@ == inner0,
                                    aseq_view(flat@) =~= flat_before + aseq_view(
                                        inner0.take(j as int),
                                    ),
                                decreases inner0.len() - j,
                            {
                                let ghost old_flat = flat@;
                                let x = clone_anode(&inner[j]);
                                flat.push(x);
                                proof {
                                    lemma_aseq_view_elems(old_flat);
                                    lemma_aseq_view_elems(flat@);
                                    lemma_aseq_view_elems(inner0.take(j as int));
                                    lemma_aseq_view_elems(inner0.take(j + 1));
                                    assert(aseq_view(flat@) =~= aseq_view(old_flat).push(
                                        anode_view(*inner0[j as int]),
                                    ));
                                    assert(aseq_view(inner0.take(j + 1)) =~= aseq_view(
                                        inner0.take(j as int),
                                    ).push(anode_view(*inner0[j as int])));
                                }
                                j = j + 1;
                            }
                            proof {
                                assert(inner0.take(inner0.len() as int) =~= inner0);
                                assert(cv == AssemblyNodeV::Sequence(aseq_view(inner0)));
                                assert(aseq_view(flat@) =~= flat_before + aseq_view(inner0));
                            }
                        },
                        _ => {
                            proof {
                                assert(false);
                            }
                        },
                    }
                } else {
                    let ghost old_flat = flat@;
                    flat.push(c);
                    proof {
                        lemma_aseq_view_elems(old_flat);
                        lemma_aseq_view_elems(flat@);
                        assert(aseq_view(flat@) =~= flat_before + seq![cv]);
                    }
                }
                i = i + 1;
            }
            proof {
                assert(s.skip(q@.len() as int) =~= Seq::<IntermediateNodeV>::empty());
                match spec_convert_seq(s) {
                    Ok(whole) => {
                        assert(whole =~= aseq_view(flat@));
                    },
                    Err(_) => {},
                }
            }
            Ok(Box::new(AssemblyNode::Sequence(flat)))
        },
        IntermediateNode::Terminal { op: _ } => Err(CompileError::UnexpectedAstShape),
    }
}

/// The index of the first occurrence of `x` in `names`, if any.
pub open spec fn find_name(names: Seq<Seq<char>>, x: Seq<char>) -> Option<nat>
    decreases names.len(),
{
    if names.len() == 0 {
        None
    } else if names[0] == x {
        Some(0)
    } else {
        match find_name(names.drop_first(), x) {
            Some(i) => Some(i + 1),
            None => None,
        }
    }
}

/// No name occurs twice.
pub open spec fn wf_names(names: Seq<Seq<char>>) -> bool {
    forall|i: int, j: int| 0 <= i < j < names.len() ==> names[i] != names[j]
}

/// What `find_name` returns is a first occurrence.
pub proof fn lemma_find_name_props(names: Seq<Seq<char>>, x: Seq<char>)
    ensures
        find_name(names, x) matches Some(i) ==> i < names.len() && names[i as int] == x && (
        forall|j: int| 0 <= j < i ==> names[j] != x),
        find_name(names, x) is None ==> (forall|i: int|
            0 <= i < names.len() ==> names[i] != x),
    decreases names.len(),
{
    if names.len() > 0 && names[0] != x {
        lemma_find_name_props(names.drop_first(), x);
        match find_name(names.drop_first(), x) {
            Some(i) => {
                assert(names.drop_first()[i as int] == names[i as int + 1]);
                assert forall|j: int| 0 <= j < i + 1 implies names[j] != x by {
                    if j > 0 {
                        assert(names[j] == names.drop_first()[j - 1]);
                    }
                }
            },
            None => {
                assert forall|j: int| 0 <= j < names.len() implies names[j] != x by {
                    if j > 0 {
                        assert(names[j] == names.drop_first()[j - 1]);
                    }
                }
            },
        }
    }
}

/// A match at `i` with no earlier match is what `find_name` returns.
pub proof fn lemma_find_name_at(names: Seq<Seq<char>>, x: Seq<char>, i: int)
    requires
        0 <= i < names.len(),
        names[i] == x,
        forall|j: int| 0 <= j < i ==> names[j] != x,
    ensures
        find_name(names, x) == Some(i as nat),
    decreases i,
{
    if i > 0 {
        assert(forall|j: int|
            0 <= j < i - 1 ==> names.drop_first()[j] == #[trigger] names[j + 1]);
        lemma_find_name_at(names.drop_first(), x, i - 1);
    }
}

/// The map from temporary names to stack slots: the names in first-use
/// order; the `k`-th name's slot is `-4 * (k + 1)`.
#[derive(Debug)]
pub struct StackMap {
    names: Vec<String>,
}

impl View for StackMap {
    type V = Seq<Seq<char>>;

    closed spec fn view(&self) -> Seq<Seq<char>> {
        Seq::new(self.names@.len(), |i: int| self.names@[i]@)
    }
}

impl StackMap {
    /// An empty map.
    pub fn new() -> (m: StackMap)
        ensures
            m@ == Seq::<Seq<char>>::empty(),
    {
        let m = StackMap { names: Vec::new() };
        proof {
            assert(m@ =~= Seq::<Seq<char>>::empty());
        }
        m
    }

    /// How many distinct temporaries have been assigned a slot.
    pub fn size(&self) -> (n: usize)
        ensures
            n == self@.len(),
    {
        self.names.len()
    }

    /// The position of `name`, if it has a slot already.
    fn find(&self, name: &String) -> (r: Option<usize>)
        ensures
            r matches Some(i) ==> find_name(self@, name@) == Some(i as nat),
            r is None ==> find_name(self@, name@) is None,
    {
        let mut i: usize = 0;
        while i < self.names.len()
            invariant
                i <= self@.len(),
                forall|j: int| 0 <= j < i ==> self@[j] != name@,
            decreases self@.len() - i,
        {
            if self.names[i].eq(name) {
                proof {
                    lemma_find_name_at(self@, name@, i as int);
                }
                return Some(i);
            }
            i = i + 1;
        }
        proof {
            lemma_find_name_props(self@, name@);
            match find_name(self@, name@) {
                Some(k) => {
                    assert(self@[k as int] == name@);
                },
                None => {},
            }
        }
        None
    }
}

/// How many `Pseudo` nodes stand in the tree.
pub open spec fn count_pseudos(n: AssemblyNodeV) -> nat
    decreases n, 1int,
{
    match n {
        AssemblyNodeV::Unary { op, node } => (match op {
            AssemblyOperations::Pseudo => 1nat,
            _ => 0nat,
        }) + count_pseudos(*node),
        AssemblyNodeV::Binary { op, lhs, rhs } => count_pseudos(*lhs) + count_pseudos(*rhs),
        AssemblyNodeV::Sequence(s) => count_pseudos_seq(s),
        _ => 0,
    }
}

/// How many `Pseudo` nodes stand in a sequence.
pub open spec fn count_pseudos_seq(s: Seq<AssemblyNodeV>) -> nat
    decreases s, 0int,
{
    if s.len() == 0 {
        0
    } else {
        count_pseudos(s.first()) + count_pseudos_seq(s.drop_first())
    }
}

/// The stack-assignment pass: a `Pseudo` over a name gets the slot of
/// that name, inserting the name behind the last assigned slot on first
/// use; a `Stack` node may not exist yet; everything else recurses with
/// the map threaded left to right.
pub open spec fn spec_process(n: AssemblyNodeV, names: Seq<Seq<char>>) -> Result<
    (AssemblyNodeV, Seq<Seq<char>>),
    CompileError,
>
    decreases n, 1int,
{
    match n {
        AssemblyNodeV::Stack(_) => Err(CompileError::StackTooEarly),
        AssemblyNodeV::Unary { op, node } => match op {
            AssemblyOperations::Pseudo => match *node {
                AssemblyNodeV::Str(name) => {
                    let names2 = if find_name(names, name) is Some {
                        names
                    } else {
                        names.push(name)
                    };
                    Ok(
                        (
                            AssemblyNodeV::Stack(-4 * (find_name(names2, name)->0 + 1)),
                            names2,
                        ),
                    )
                },
                _ => Err(CompileError::UnexpectedAstShape),
            },
            _ => match spec_process(*node, names) {
                Err(e) => Err(e),
                Ok(p) => Ok((AssemblyNodeV::Unary { op, node: Box::new(p.0) }, p.1)),
            },
        },
        AssemblyNodeV::Binary { op, lhs, rhs } => match spec_process(*lhs, names) {
            Err(e) => Err(e),
            Ok(pl) => match spec_process(*rhs, pl.1) {
                Err(e) => Err(e),
                Ok(pr) => Ok(
                    (
                        AssemblyNodeV::Binary {
                            op,
                            lhs: Box::new(pl.0),
                            rhs: Box::new(pr.0),
                        },
                        pr.1,
                    ),
                ),
            },
        },
        AssemblyNodeV::Sequence(s) => match spec_process_seq(s, names) {
            Err(e) => Err(e),
            Ok(p) => Ok((AssemblyNodeV::Sequence(p.0), p.1)),
        },
        _ => Ok((n, names)),
    }
}

/// Elementwise stack assignment with the map threaded left to right.
pub open spec fn spec_process_seq(s: Seq<AssemblyNodeV>, names: Seq<Seq<char>>) -> Result<
    (Seq<AssemblyNodeV>, Seq<Seq<char>>),
    CompileError,
>
    decreases s, 0int,
{
    if s.len() == 0 {
        Ok((Seq::empty(), names))
    } else {
        match spec_process(s.first(), names) {
            Err(e) => Err(e),
            Ok(p0) => match spec_process_seq(s.drop_first(), p0.1) {
                Err(e) => Err(e),
                Ok(pr) => Ok((seq![p0.0] + pr.0, pr.1)),
            },
        }
    }
}

/// The pass only appends names, appends at most one name per `Pseudo`,
/// and keeps the names distinct.
pub proof fn lemma_process_props(n: AssemblyNodeV, names: Seq<Seq<char>>)
    ensures
        spec_process(n, names) matches Ok(p) ==> names.len() <= p.1.len() <= names.len()
            + count_pseudos(n) && p.1.take(names.len() as int) == names && (wf_names(names)
            ==> wf_names(p.1)),
    decreases n, 1int,
{
    match n {
        AssemblyNodeV::Unary { op, node } => {
            if op is Pseudo {
                match *node {
                    AssemblyNodeV::Str(name) => {
                        if find_name(names, name) is Some {
                            assert(names.take(names.len() as int) =~= names);
                        } else {
                            lemma_find_name_props(names, name);
                            assert(names.push(name).take(names.len() as int) =~= names);
                        }
                    },
                    _ => {},
                }
            } else {
                lemma_process_props(*node, names);
            }
        },
        AssemblyNodeV::Binary { op, lhs, rhs } => {
            lemma_process_props(*lhs, names);
            match spec_process(*lhs, names) {
                Ok(pl) => {
                    lemma_process_props(*rhs, pl.1);
                    match spec_process(*rhs, pl.1) {
                        Ok(pr) => {
                            assert(pr.1.take(names.len() as int) =~= pl.1.take(
                                names.len() as int,
                            ));
                        },
                        Err(_) => {},
                    }
                },
                Err(_) => {},
            }
        },
        AssemblyNodeV::Sequence(s) => {
            lemma_process_seq_props(s, names);
        },
        _ => {
            match spec_process(n, names) {
                Ok(p) => {
                    assert(p.1.take(names.len() as int) =~= names);
                },
                Err(_) => {},
            }
        },
    }
}

/// The sequence form of `lemma_process_props`.
pub proof fn lemma_process_seq_props(s: Seq<AssemblyNodeV>, names: Seq<Seq<char>>)
    ensures
        spec_process_seq(s, names) matches Ok(p) ==> names.len() <= p.1.len() <= names.len()
            + count_pseudos_seq(s) && p.1.take(names.len() as int) == names && (wf_names(names)
            ==> wf_names(p.1)),
    decreases s, 0int,
{
    if s.len() == 0 {
        match spec_process_seq(s, names) {
            Ok(p) => {
                assert(p.1.take(names.len() as int) =~= names);
            },
            Err(_) => {},
        }
    } else {
        lemma_process_props(s.first(), names);
        match spec_process(s.first(), names) {
            Ok(p0) => {
                lemma_process_seq_props(s.drop_first(), p0.1);
                match spec_process_seq(s.drop_first(), p0.1) {
                    Ok(pr) => {
                        assert(pr.1.take(names.len() as int) =~= p0.1.take(names.len() as int));
                    },
                    Err(_) => {},
                }
            },
            Err(_) => {},
        }
    }
}

/// An upper bound on how many temporaries one compilation may assign
/// slots to; far beyond what fits in memory, it keeps every slot offset
/// within `i64`.
pub const STACK_NAME_LIMIT: u64 = 0x1000_0000_0000_0000;

/// A new tree with every `Pseudo` replaced by its stack slot.
fn process_node(n: &AssemblyNode, stack_map: &mut StackMap) -> (r: Result<
    Box<AssemblyNode>,
    CompileError,
>)
    requires
        old(stack_map)@.len() + count_pseudos(anode_view(*n)) <= STACK_NAME_LIMIT,
    ensures
        ({
            match spec_process(anode_view(*n), old(stack_map)@) {
                Ok(p) => r matches Ok(m) && anode_view(*m) == p.0 && final(stack_map)@ == p.1,
                Err(e) => r matches Err(e2) && e2 == e,
            }
        }),
    decreases *n,
{
    match n {
        AssemblyNode::Int(v) => Ok(Box::new(AssemblyNode::Int(*v))),
        AssemblyNode::Str(s) => Ok(Box::new(AssemblyNode::Str(s.clone()))),
        AssemblyNode::Register(reg) => Ok(Box::new(AssemblyNode::Register(*reg))),
        AssemblyNode::AllocateStack(x) => Ok(Box::new(AssemblyNode::AllocateStack(*x))),
        AssemblyNode::Stack(_) => Err(CompileError::StackTooEarly),
        AssemblyNode::Terminal { op } => Ok(Box::new(AssemblyNode::Terminal { op: *op })),
        AssemblyNode::Unary { op, node } => {
            let is_pseudo = match op {
                AssemblyOperations::Pseudo => true,
                _ => false,
            };
            if is_pseudo {
                let name: String = match &**node {
                    AssemblyNode::Str(x) => x.clone(),
                    _ => {
                        return Err(CompileError::UnexpectedAstShape);
                    },
                };
                let idx: usize = match stack_map.find(&name) {
                    Some(i) => {
                        proof {
                            lemma_find_name_props(stack_map@, name@);
                        }
                        i
                    },
                    None => {
                        let ghost names0 = stack_map@;
                        let pos = stack_map.names.len();
                        stack_map.names.push(name.clone());
                        proof {
                            lemma_find_name_props(names0, name@);
                            assert(stack_map@ =~= names0.push(name@));
                            assert forall|j: int| 0 <= j < pos implies stack_map@[j]
                                != name@ by {
                                assert(stack_map@[j] == names0[j]);
                            }
                            lemma_find_name_at(stack_map@, name@, pos as int);
                        }
                        pos
                    },
                };
                proof {
                    lemma_find_name_props(stack_map@, name@);
                }
                let offset: i64 = -4i64 * ((idx as i64) + 1);
                Ok(Box::new(AssemblyNode::Stack(offset)))
            } else {
                let inner = process_node(node, stack_map)?;
                Ok(Box::new(AssemblyNode::Unary { op: *op, node: inner }))
            }
        },
        AssemblyNode::Binary { op, lhs, rhs } => {
            proof {
                lemma_process_props(anode_view(**lhs), stack_map@);
            }
            let nl = process_node(lhs, stack_map)?;
            let nr = process_node(rhs, stack_map)?;
            Ok(Box::new(AssemblyNode::Binary { op: *op, lhs: nl, rhs: nr }))
        },
        AssemblyNode::Sequence(q) => {
            let ghost s = aseq_view(q@);
            let ghost names0 = stack_map@;
            let mut out: Vec<Box<AssemblyNode>> = Vec::new();
            let mut i: usize = 0;
            proof {
                lemma_aseq_view_elems(q@);
                assert(s.skip(0) =~= s);
                match spec_process_seq(s, names0) {
                    Ok(p) => {
                        assert(aseq_view(out@) + p.0 =~= p.0);
                    },
                    Err(_) => {},
                }
                assert(count_pseudos_seq(s.skip(0)) == count_pseudos_seq(s));
            }
            #[verifier::loop_isolation(false)]
            while i < q.len()
                invariant
                    i <= q@.len(),
                    stack_map@.len() + count_pseudos_seq(s.skip(i as int))
                        <= STACK_NAME_LIMIT,
                    spec_process_seq(s.skip(i as int), stack_map@) matches Ok(p) ==> (
                    spec_process_seq(s, names0) matches Ok(whole) && whole.0 == aseq_view(out@)
                        + p.0 && whole.1 == p.1),
                    spec_process_seq(s.skip(i as int), stack_map@) is Err ==> spec_process_seq(
                        s,
                        names0,
                    ) == spec_process_seq(s.skip(i as int), stack_map@),
                decreases q@.len() - i,
            {
                let ghost names_before = stack_map@;
                proof {
                    vstd::std_specs::vec::axiom_vec_index_decreases::<Box<AssemblyNode>>(
                        *q,
                        i as int,
                    );
                    assert(s.skip(i as int).first() == anode_view(*q@[i as int]));
                    assert(s.skip(i as int).drop_first() =~= s.skip(i + 1));
                    lemma_process_props(s.skip(i as int).first(), stack_map@);
                }
                let c = match process_node(&q[i], stack_map) {
                    Ok(c) => c,
                    Err(e) => {
                        return Err(e);
                    },
                };
                let ghost old_out = out@;
                out.push(c);
                i = i + 1;
                proof {
                    lemma_aseq_view_elems(old_out);
                    lemma_aseq_view_elems(out@);
                    let p0 = spec_process(s.skip(i - 1).first(), names_before)->Ok_0;
                    assert(aseq_view(out@) =~= aseq_view(old_out).push(p0.0));
                    match spec_process_seq(s.skip(i as int), stack_map@) {
                        Ok(p) => {
                            assert(aseq_view(old_out) + (seq![p0.0] + p.0) =~= aseq_view(out@)
                                + p.0);
                        },
                        Err(_) => {},
                    }
                }
            }
            proof {
                assert(s.skip(q@.len() as int) =~= Seq::<AssemblyNodeV>::empty());
            }
            Ok(Box::new(AssemblyNode::Sequence(out)))
        },
    }
}

/// Replace every `Pseudo` temporary in the tree by its stack slot,
/// assigning slots `-4, -8, -12, ...` in first-use order through
/// `stack_map`.
pub fn process_stack(aast: &mut Box<AssemblyNode>, stack_map: &mut StackMap) -> (r: Result<
    (),
    CompileError,
>)
    requires
        old(stack_map)@.len() + count_pseudos(anode_view(**old(aast)))
            <= STACK_NAME_LIMIT,
    ensures
        ({
            match spec_process(anode_view(**old(aast)), old(stack_map)@) {
                Ok(p) => r is Ok && anode_view(**final(aast)) == p.0 && final(stack_map)@
                    == p.1,
                Err(e) => r matches Err(e2) && e2 == e,
            }
        }),
{
    let replaced = process_node(&**aast, stack_map)?;
    *aast = replaced;
    Ok(())
}

/// A deep copy of an assembly node, equal in image.
pub fn clone_anode(n: &AssemblyNode) -> (r: Box<AssemblyNode>)
    ensures
        anode_view(*r) == anode_view(*n),
    decreases *n,
{
    match n {
        AssemblyNode::Int(v) => Box::new(AssemblyNode::Int(*v)),
        AssemblyNode::Str(s) => Box::new(AssemblyNode::Str(s.clone())),
        AssemblyNode::Register(reg) => Box::new(AssemblyNode::Register(*reg)),
        AssemblyNode::Stack(x) => Box::new(AssemblyNode::Stack(*x)),
        AssemblyNode::AllocateStack(x) => Box::new(AssemblyNode::AllocateStack(*x)),
        AssemblyNode::Terminal { op } => Box::new(AssemblyNode::Terminal { op: *op }),
        AssemblyNode::Unary { op, node } => Box::new(
            AssemblyNode::Unary { op: *op, node: clone_anode(node) },
        ),
        AssemblyNode::Binary { op, lhs, rhs } => Box::new(
            AssemblyNode::Binary { op: *op, lhs: clone_anode(lhs), rhs: clone_anode(rhs) },
        ),
        AssemblyNode::Sequence(q) => {
            let mut out: Vec<Box<AssemblyNode>> = Vec::new();
            let mut i: usize = 0;
            #[verifier::loop_isolation(false)]
            while i < q.len()
                invariant
                    i <= q@.len(),
                    out@.len() == i,
                    forall|j: int|
                        0 <= j < i ==> anode_view(*#[trigger] out@[j]) == anode_view(*q@[j]),
                decreases q@.len() - i,
            {
                proof {
                    vstd::std_specs::vec::axiom_vec_index_decreases::<Box<AssemblyNode>>(
                        *q,
                        i as int,
                    );
                }
                let c = clone_anode(&q[i]);
                out.push(c);
                i = i + 1;
            }
            proof {
                lemma_aseq_view_elems(out@);
                lemma_aseq_view_elems(q@);
                assert(aseq_view(out@) =~= aseq_view(q@));
            }
            Box::new(AssemblyNode::Sequence(out))
        },
    }
}


/// The frame size a tree asks for: the largest magnitude of any stack
/// offset reachable in it (taken as `-offset`, without clamping at a
/// bare `Stack` leaf).
pub open spec fn spec_find_size(n: AssemblyNodeV) -> int
    decreases n, 1int,
{
    match n {
        AssemblyNodeV::Stack(x) => -x,
        AssemblyNodeV::Unary { op, node } => spec_find_size(*node),
        AssemblyNodeV::Binary { op, lhs, rhs } => {
            let a = spec_find_size(*lhs);
            let b = spec_find_size(*rhs);
            if a >= b {
                a
            } else {
                b
            }
        },
        AssemblyNodeV::Sequence(s) => spec_find_size_seq(s),
        _ => 0,
    }
}

/// The frame size a sequence asks for, starting from zero.
pub open spec fn spec_find_size_seq(s: Seq<AssemblyNodeV>) -> int
    decreases s, 0int,
{
    if s.len() == 0 {
        0
    } else {
        let rest = spec_find_size_seq(s.drop_last());
        let lastv = spec_find_size(s.last());
        if rest >= lastv {
            rest
        } else {
            lastv
        }
    }
}

/// Every stack offset in the tree can be negated without overflow.
pub open spec fn stack_offsets_ok(n: AssemblyNodeV) -> bool
    decreases n, 1int,
{
    match n {
        AssemblyNodeV::Stack(x) => x > i64::MIN,
        AssemblyNodeV::Unary { op, node } => stack_offsets_ok(*node),
        AssemblyNodeV::Binary { op, lhs, rhs } => stack_offsets_ok(*lhs) && stack_offsets_ok(
            *rhs,
        ),
        AssemblyNodeV::Sequence(s) => stack_offsets_ok_seq(s),
        _ => true,
    }
}

/// Every stack offset in the sequence can be negated without overflow.
pub open spec fn stack_offsets_ok_seq(s: Seq<AssemblyNodeV>) -> bool
    decreases s, 0int,
{
    if s.len() == 0 {
        true
    } else {
        stack_offsets_ok(s.first()) && stack_offsets_ok_seq(s.drop_first())
    }
}

/// Each element of an offset-sound sequence is offset-sound.
pub proof fn lemma_offsets_ok_seq_elem(s: Seq<AssemblyNodeV>, i: int)
    requires
        stack_offsets_ok_seq(s),
        0 <= i < s.len(),
    ensures
        stack_offsets_ok(s[i]),
    decreases i,
{
    if i == 0 {
        assert(s[0] == s.first());
    } else {
        assert(s.drop_first()[i - 1] == s[i]);
        lemma_offsets_ok_seq_elem(s.drop_first(), i - 1);
    }
}

/// The largest stack-offset magnitude reachable in the tree.
pub fn find_stack_size(aast: &Box<AssemblyNode>) -> (r: i64)
    requires
        stack_offsets_ok(anode_view(**aast)),
    ensures
        r == spec_find_size(anode_view(**aast)),
    decreases **aast,
{
    match &**aast {
        AssemblyNode::Int(_) => 0i64,
        AssemblyNode::Str(_) => 0i64,
        AssemblyNode::Register(_) => 0i64,
        AssemblyNode::Stack(x) => -*x,
        AssemblyNode::AllocateStack(_) => 0i64,
        AssemblyNode::Terminal { op: _ } => 0i64,
        AssemblyNode::Unary { op: _, node } => find_stack_size(node),
        AssemblyNode::Binary { op: _, lhs, rhs } => {
            let a = find_stack_size(lhs);
            let b = find_stack_size(rhs);
            if a >= b {
                a
            } else {
                b
            }
        },
        AssemblyNode::Sequence(q) => {
            let ghost s = aseq_view(q@);
            proof {
                lemma_aseq_view_elems(q@);
                assert(s.take(0) =~= Seq::<AssemblyNodeV>::empty());
            }
            let mut size: i64 = 0;
            let mut i: usize = 0;
            #[verifier::loop_isolation(false)]
            while i < q.len()
                invariant
                    i <= q@.len(),
                    size == spec_find_size_seq(s.take(i as int)),
                decreases q@.len() - i,
            {
                proof {
                    vstd::std_specs::vec::axiom_vec_index_decreases::<Box<AssemblyNode>>(
                        *q,
                        i as int,
                    );
                    lemma_offsets_ok_seq_elem(s, i as int);
                    assert(s.take(i + 1).drop_last() =~= s.take(i as int));
                    assert(s.take(i + 1).last() == s[i as int]);
                }
                let elem_size = find_stack_size(&q[i]);
                if elem_size >= size {
                    size = elem_size;
                }
                i = i + 1;
            }
            proof {
                assert(s.take(q@.len() as int) =~= s);
            }
            size
        },
    }
}

/// Splitting one element of the scan: an illegal memory-to-memory move
/// becomes two moves through the scratch register; everything else is
/// kept as it is.
pub open spec fn spec_split_mov(e: AssemblyNodeV) -> Seq<AssemblyNodeV> {
    match e {
        AssemblyNodeV::Binary { op: AssemblyOperations::Mov, lhs, rhs } => if *lhs is Stack
            && *rhs is Stack {
            seq![
                AssemblyNodeV::Binary {
                    op: AssemblyOperations::Mov,
                    lhs,
                    rhs: Box::new(AssemblyNodeV::Register(AssemblyRegister::R10)),
                },
                AssemblyNodeV::Binary {
                    op: AssemblyOperations::Mov,
                    lhs: Box::new(AssemblyNodeV::Register(AssemblyRegister::R10)),
                    rhs,
                },
            ]
        } else {
            seq![e]
        },
        _ => seq![e],
    }
}

/// The scan over one instruction sequence.
pub open spec fn spec_fix_elems(s: Seq<AssemblyNodeV>) -> Seq<AssemblyNodeV>
    decreases s.len(),
{
    if s.len() == 0 {
        Seq::empty()
    } else {
        spec_split_mov(s.first()) + spec_fix_elems(s.drop_first())
    }
}

/// The scan distributes over appending one element.
pub proof fn lemma_fix_elems_push(t: Seq<AssemblyNodeV>, x: AssemblyNodeV)
    ensures
        spec_fix_elems(t.push(x)) == spec_fix_elems(t) + spec_split_mov(x),
    decreases t.len(),
{
    if t.len() == 0 {
        assert(t.push(x).first() == x);
        assert(t.push(x).drop_first() =~= t);
        assert(spec_fix_elems(t) == Seq::<AssemblyNodeV>::empty());
        assert(spec_fix_elems(t.push(x)) == spec_split_mov(x) + spec_fix_elems(t));
        assert(spec_split_mov(x) + spec_fix_elems(t) =~= spec_fix_elems(t) + spec_split_mov(x));
    } else {
        assert(t.push(x).first() == t.first());
        assert(t.push(x).drop_first() =~= t.drop_first().push(x));
        lemma_fix_elems_push(t.drop_first(), x);
        assert(spec_split_mov(t.first()) + (spec_fix_elems(t.drop_first()) + spec_split_mov(x))
            =~= (spec_split_mov(t.first()) + spec_fix_elems(t.drop_first())) + spec_split_mov(
            x,
        ));
    }
}

/// The instruction-fixup pass: each `Sequence` gets its frame
/// allocation prepended and its illegal moves split; `Unary` and
/// `Binary` nodes recurse; a bare `Stack` outside a sequence is
/// rejected.
pub open spec fn spec_fix(n: AssemblyNodeV) -> Result<AssemblyNodeV, CompileError>
    decreases n,
{
    match n {
        AssemblyNodeV::Stack(_) => Err(CompileError::StackTooEarly),
        AssemblyNodeV::Unary { op, node } => match spec_fix(*node) {
            Err(e) => Err(e),
            Ok(m) => Ok(AssemblyNodeV::Unary { op, node: Box::new(m) }),
        },
        AssemblyNodeV::Binary { op, lhs, rhs } => match spec_fix(*lhs) {
            Err(e) => Err(e),
            Ok(ml) => match spec_fix(*rhs) {
                Err(e) => Err(e),
                Ok(mr) => Ok(
                    AssemblyNodeV::Binary { op, lhs: Box::new(ml), rhs: Box::new(mr) },
                ),
            },
        },
        AssemblyNodeV::Sequence(s) => Ok(
            AssemblyNodeV::Sequence(
                seq![AssemblyNodeV::AllocateStack(spec_find_size_seq(s))] + spec_fix_elems(s),
            ),
        ),
        _ => Ok(n),
    }
}

/// A new tree with every sequence fixed up.
fn fix_node(n: &AssemblyNode) -> (r: Result<Box<AssemblyNode>, CompileError>)
    requires
        stack_offsets_ok(anode_view(*n)),
    ensures
        ({
            match spec_fix(anode_view(*n)) {
                Ok(m) => r matches Ok(a) && anode_view(*a) == m,
                Err(e) => r matches Err(e2) && e2 == e,
            }
        }),
    decreases *n,
{
    match n {
        AssemblyNode::Int(v) => Ok(Box::new(AssemblyNode::Int(*v))),
        AssemblyNode::Str(s) => Ok(Box::new(AssemblyNode::Str(s.clone()))),
        AssemblyNode::Register(reg) => Ok(Box::new(AssemblyNode::Register(*reg))),
        AssemblyNode::AllocateStack(x) => Ok(Box::new(AssemblyNode::AllocateStack(*x))),
        AssemblyNode::Stack(_) => Err(CompileError::StackTooEarly),
        AssemblyNode::Terminal { op } => Ok(Box::new(AssemblyNode::Terminal { op: *op })),
        AssemblyNode::Unary { op, node } => {
            let inner = fix_node(node)?;
            Ok(Box::new(AssemblyNode::Unary { op: *op, node: inner }))
        },
        AssemblyNode::Binary { op, lhs, rhs } => {
            let nl = fix_node(lhs)?;
            let nr = fix_node(rhs)?;
            Ok(Box::new(AssemblyNode::Binary { op: *op, lhs: nl, rhs: nr }))
        },
        AssemblyNode::Sequence(q) => {
            let ghost s = aseq_view(q@);
            proof {
                lemma_aseq_view_elems(q@);
            }
            let size = find_stack_size_of_elems(q);
            let alloc = Box::new(AssemblyNode::AllocateStack(size));
            let ghost allocv = anode_view(*alloc);
            let mut out: Vec<Box<AssemblyNode>> = Vec::new();
            out.push(alloc);
            proof {
                lemma_aseq_view_elems(out@);
                assert(s.take(0) =~= Seq::<AssemblyNodeV>::empty());
                assert(aseq_view(out@) =~= seq![allocv] + spec_fix_elems(s.take(0)));
            }
            let mut j: usize = 0;
            #[verifier::loop_isolation(false)]
            while j < q.len()
                invariant
                    j <= q@.len(),
                    aseq_view(out@) == seq![allocv] + spec_fix_elems(s.take(j as int)),
                decreases q@.len() - j,
            {
                proof {
                    assert(s.take(j + 1).drop_last() =~= s.take(j as int));
                    assert(s.take(j + 1) =~= s.take(j as int).push(s[j as int]));
                    lemma_fix_elems_push(s.take(j as int), s[j as int]);
                }
                let elem = &q[j];
                proof {
                    match &**elem {
                        AssemblyNode::Binary { op, lhs, rhs } => {
                            assert(anode_view(**elem) == AssemblyNodeV::Binary {
                                op: *op,
                                lhs: Box::new(anode_view(**lhs)),
                                rhs: Box::new(anode_view(**rhs)),
                            });
                        },
                        _ => {},
                    }
                }
                let is_ss_mov: bool = match &**elem {
                    AssemblyNode::Binary { op: AssemblyOperations::Mov, lhs, rhs } => {
                        let l_stack = match &**lhs {
                            AssemblyNode::Stack(_) => true,
                            _ => false,
                        };
                        let r_stack = match &**rhs {
                            AssemblyNode::Stack(_) => true,
                            _ => false,
                        };
                        l_stack && r_stack
                    },
                    _ => false,
                };
                let ghost out_before = out@;
                if is_ss_mov {
                    match &**elem {
                        AssemblyNode::Binary { op: _, lhs, rhs } => {
                            let reg1 = Box::new(
                                AssemblyNode::Register(AssemblyRegister::R10),
                            );
                            let reg2 = Box::new(
                                AssemblyNode::Register(AssemblyRegister::R10),
                            );
                            proof {
                                assert(anode_view(*reg1) == AssemblyNodeV::Register(
                                    AssemblyRegister::R10,
                                ));
                                assert(anode_view(*reg2) == AssemblyNodeV::Register(
                                    AssemblyRegister::R10,
                                ));
                            }
                            let first_mov = Box::new(
                                AssemblyNode::Binary {
                                    op: AssemblyOperations::Mov,
                                    lhs: clone_anode(lhs),
                                    rhs: reg1,
                                },
                            );
                            let second_mov = Box::new(
                                AssemblyNode::Binary {
                                    op: AssemblyOperations::Mov,
                                    lhs: reg2,
                                    rhs: clone_anode(rhs),
                                },
                            );
                            let ghost mid_out = out@;
                            out.push(first_mov);
                            let ghost mid_out2 = out@;
                            out.push(second_mov);
                            proof {
                                lemma_aseq_view_elems(mid_out);
                                lemma_aseq_view_elems(mid_out2);
                                lemma_aseq_view_elems(out@);
                                assert(aseq_view(out@) =~= aseq_view(out_before)
                                    + spec_split_mov(s[j as int]));
                            }
                        },
                        _ => {
                            proof {
                                assert(false);
                            }
                        },
                    }
                } else {
                    let kept = clone_anode(elem);
                    out.push(kept);
                    proof {
                        lemma_aseq_view_elems(out_before);
                        lemma_aseq_view_elems(out@);
                        assert(aseq_view(out@) =~= aseq_view(out_before) + spec_split_mov(
                            s[j as int],
                        ));
                    }
                }
                proof {
                    assert((seq![allocv] + spec_fix_elems(s.take(j as int))) + spec_split_mov(
                        s[j as int],
                    ) =~= seq![allocv] + spec_fix_elems(s.take(j + 1)));
                }
                j = j + 1;
            }
            proof {
                assert(s.take(q@.len() as int) =~= s);
            }
            Ok(Box::new(AssemblyNode::Sequence(out)))
        },
    }
}

/// The frame size the elements of a sequence ask for.
fn find_stack_size_of_elems(q: &Vec<Box<AssemblyNode>>) -> (r: i64)
    requires
        stack_offsets_ok_seq(aseq_view(q@)),
    ensures
        r == spec_find_size_seq(aseq_view(q@)),
{
    let ghost s = aseq_view(q@);
    proof {
        lemma_aseq_view_elems(q@);
        assert(s.take(0) =~= Seq::<AssemblyNodeV>::empty());
    }
    let mut size: i64 = 0;
    let mut i: usize = 0;
    #[verifier::loop_isolation(false)]
    while i < q.len()
        invariant
            i <= q@.len(),
            size == spec_find_size_seq(s.take(i as int)),
        decreases q@.len() - i,
    {
        proof {
            lemma_offsets_ok_seq_elem(s, i as int);
            assert(s.take(i + 1).drop_last() =~= s.take(i as int));
            assert(s.take(i + 1).last() == s[i as int]);
        }
        let elem_size = find_stack_size(&q[i]);
        if elem_size >= size {
            size = elem_size;
        }
        i = i + 1;
    }
    proof {
        assert(s.take(q@.len() as int) =~= s);
    }
    size
}

/// Prepend each sequence's frame allocation and split every
/// memory-to-memory move through the scratch register.
pub fn fix_instructions(aast: &mut Box<AssemblyNode>) -> (r: Result<(), CompileError>)
    requires
        stack_offsets_ok(anode_view(**old(aast))),
    ensures
        ({
            match spec_fix(anode_view(**old(aast))) {
                Ok(m) => r is Ok && anode_view(**final(aast)) == m,
                Err(e) => r matches Err(e2) && e2 == e,
            }
        }),
{
    let replaced = fix_node(&**aast)?;
    *aast = replaced;
    Ok(())
}


/// Every stack offset in the tree lies in the slot range of a map of
/// `bound` names.
pub open spec fn stacks_within(n: AssemblyNodeV, bound: nat) -> bool
    decreases n, 1int,
{
    match n {
        AssemblyNodeV::Stack(x) => -4 * (bound as int) <= x <= -4,
        AssemblyNodeV::Unary { op, node } => stacks_within(*node, bound),
        AssemblyNodeV::Binary { op, lhs, rhs } => stacks_within(*lhs, bound) && stacks_within(
            *rhs,
            bound,
        ),
        AssemblyNodeV::Sequence(s) => stacks_within_seq(s, bound),
        _ => true,
    }
}

/// The sequence form of `stacks_within`.
pub open spec fn stacks_within_seq(s: Seq<AssemblyNodeV>, bound: nat) -> bool
    decreases s, 0int,
{
    if s.len() == 0 {
        true
    } else {
        stacks_within(s.first(), bound) && stacks_within_seq(s.drop_first(), bound)
    }
}

/// A slot range only widens as the map grows.
pub proof fn lemma_stacks_within_mono(n: AssemblyNodeV, b1: nat, b2: nat)
    requires
        stacks_within(n, b1),
        b1 <= b2,
    ensures
        stacks_within(n, b2),
    decreases n, 1int,
{
    match n {
        AssemblyNodeV::Unary { op, node } => {
            lemma_stacks_within_mono(*node, b1, b2);
        },
        AssemblyNodeV::Binary { op, lhs, rhs } => {
            lemma_stacks_within_mono(*lhs, b1, b2);
            lemma_stacks_within_mono(*rhs, b1, b2);
        },
        AssemblyNodeV::Sequence(s) => {
            lemma_stacks_within_seq_mono(s, b1, b2);
        },
        _ => {},
    }
}

/// The sequence form of `lemma_stacks_within_mono`.
pub proof fn lemma_stacks_within_seq_mono(s: Seq<AssemblyNodeV>, b1: nat, b2: nat)
    requires
        stacks_within_seq(s, b1),
        b1 <= b2,
    ensures
        stacks_within_seq(s, b2),
    decreases s, 0int,
{
    if s.len() > 0 {
        lemma_stacks_within_mono(s.first(), b1, b2);
        lemma_stacks_within_seq_mono(s.drop_first(), b1, b2);
    }
}

/// Every slot the stack-assignment pass writes lies in the range of its
/// final map.
pub proof fn lemma_process_stacks(n: AssemblyNodeV, names: Seq<Seq<char>>)
    ensures
        spec_process(n, names) matches Ok(p) ==> stacks_within(p.0, p.1.len()),
    decreases n, 1int,
{
    match n {
        AssemblyNodeV::Unary { op, node } => {
            if op is Pseudo {
                match *node {
                    AssemblyNodeV::Str(name) => {
                        if find_name(names, name) is Some {
                            lemma_find_name_props(names, name);
                        } else {
                            lemma_find_name_props(names, name);
                            assert forall|j: int| 0 <= j < names.len() implies names.push(
                                name,
                            )[j] != name by {
                                assert(names.push(name)[j] == names[j]);
                            }
                            lemma_find_name_at(names.push(name), name, names.len() as int);
                        }
                    },
                    _ => {},
                }
            } else {
                lemma_process_stacks(*node, names);
            }
        },
        AssemblyNodeV::Binary { op, lhs, rhs } => {
            lemma_process_stacks(*lhs, names);
            match spec_process(*lhs, names) {
                Ok(pl) => {
                    lemma_process_stacks(*rhs, pl.1);
                    match spec_process(*rhs, pl.1) {
                        Ok(pr) => {
                            lemma_process_props(*rhs, pl.1);
                            lemma_stacks_within_mono(pl.0, pl.1.len(), pr.1.len());
                        },
                        Err(_) => {},
                    }
                },
                Err(_) => {},
            }
        },
        AssemblyNodeV::Sequence(s) => {
            lemma_process_seq_stacks(s, names);
        },
        _ => {},
    }
}

/// The sequence form of `lemma_process_stacks`.
pub proof fn lemma_process_seq_stacks(s: Seq<AssemblyNodeV>, names: Seq<Seq<char>>)
    ensures
        spec_process_seq(s, names) matches Ok(p) ==> stacks_within_seq(p.0, p.1.len()),
    decreases s, 0int,
{
    if s.len() > 0 {
        lemma_process_stacks(s.first(), names);
        match spec_process(s.first(), names) {
            Ok(p0) => {
                lemma_process_seq_stacks(s.drop_first(), p0.1);
                match spec_process_seq(s.drop_first(), p0.1) {
                    Ok(pr) => {
                        lemma_process_seq_props(s.drop_first(), p0.1);
                        lemma_stacks_within_mono(p0.0, p0.1.len(), pr.1.len());
                        assert((seq![p0.0] + pr.0).first() == p0.0);
                        assert((seq![p0.0] + pr.0).drop_first() =~= pr.0);
                    },
                    Err(_) => {},
                }
            },
            Err(_) => {},
        }
    }
}

/// Offsets within a modest slot range can be negated without overflow.
pub proof fn lemma_within_offsets_ok(n: AssemblyNodeV, bound: nat)
    requires
        stacks_within(n, bound),
        bound <= STACK_NAME_LIMIT,
    ensures
        stack_offsets_ok(n),
    decreases n, 1int,
{
    match n {
        AssemblyNodeV::Unary { op, node } => {
            lemma_within_offsets_ok(*node, bound);
        },
        AssemblyNodeV::Binary { op, lhs, rhs } => {
            lemma_within_offsets_ok(*lhs, bound);
            lemma_within_offsets_ok(*rhs, bound);
        },
        AssemblyNodeV::Sequence(s) => {
            lemma_within_offsets_ok_seq(s, bound);
        },
        _ => {},
    }
}

/// The sequence form of `lemma_within_offsets_ok`.
pub proof fn lemma_within_offsets_ok_seq(s: Seq<AssemblyNodeV>, bound: nat)
    requires
        stacks_within_seq(s, bound),
        bound <= STACK_NAME_LIMIT,
    ensures
        stack_offsets_ok_seq(s),
    decreases s, 0int,
{
    if s.len() > 0 {
        lemma_within_offsets_ok(s.first(), bound);
        lemma_within_offsets_ok_seq(s.drop_first(), bound);
    }
}

/// The whole back end as one step: convert, assign stack slots starting
/// from an empty map, and fix the instructions up.
pub open spec fn spec_generate(n: IntermediateNodeV) -> Result<AssemblyNodeV, CompileError> {
    match spec_convert(n) {
        Err(e) => Err(e),
        Ok(c) => match spec_process(c, Seq::empty()) {
            Err(e) => Err(e),
            Ok(p) => spec_fix(p.0),
        },
    }
}

/// Run the three assembly passes in order on a three-address tree.
pub fn generate(ast: &Box<IntermediateNode>) -> (r: Result<Box<AssemblyNode>, CompileError>)
    requires
        spec_convert(inode_view(**ast)) matches Ok(c) ==> count_pseudos(c)
            <= STACK_NAME_LIMIT,
    ensures
        ({
            match spec_generate(inode_view(**ast)) {
                Ok(m) => r matches Ok(a) && anode_view(*a) == m,
                Err(e) => r matches Err(e2) && e2 == e,
            }
        }),
{
    let mut res = convert_ast(ast)?;
    let mut stack_map = StackMap::new();
    proof {
        let c = spec_convert(inode_view(**ast))->Ok_0;
        lemma_process_props(c, Seq::empty());
        lemma_process_stacks(c, Seq::empty());
    }
    process_stack(&mut res, &mut stack_map)?;
    proof {
        let c = spec_convert(inode_view(**ast))->Ok_0;
        let p = spec_process(c, Seq::empty())->Ok_0;
        lemma_within_offsets_ok(p.0, p.1.len());
    }
    fix_instructions(&mut res)?;
    Ok(res)
}


/// A pseudo count clamped just above the slot budget.
pub open spec fn capped_pseudos(c: nat) -> nat {
    if c > STACK_NAME_LIMIT {
        (STACK_NAME_LIMIT + 1) as nat
    } else {
        c
    }
}

/// Counting distributes over appending one element.
proof fn lemma_count_pseudos_seq_push(t: Seq<AssemblyNodeV>, x: AssemblyNodeV)
    ensures
        count_pseudos_seq(t.push(x)) == count_pseudos_seq(t) + count_pseudos(x),
    decreases t.len(),
{
    if t.len() == 0 {
        assert(t.push(x).first() == x);
        assert(t.push(x).drop_first() =~= t);
    } else {
        assert(t.push(x).first() == t.first());
        assert(t.push(x).drop_first() =~= t.drop_first().push(x));
        lemma_count_pseudos_seq_push(t.drop_first(), x);
    }
}

/// Count the `Pseudo` nodes of a tree, clamped just above the budget.
fn count_pseudos_capped(n: &AssemblyNode) -> (r: u64)
    ensures
        r == capped_pseudos(count_pseudos(anode_view(*n))),
    decreases *n,
{
    let cap: u64 = STACK_NAME_LIMIT + 1;
    match n {
        AssemblyNode::Unary { op, node } => {
            let inner = count_pseudos_capped(node);
            let here: u64 = match op {
                AssemblyOperations::Pseudo => 1,
                _ => 0,
            };
            if inner >= cap {
                cap
            } else {
                inner + here
            }
        },
        AssemblyNode::Binary { op: _, lhs, rhs } => {
            let a = count_pseudos_capped(lhs);
            let b = count_pseudos_capped(rhs);
            if a >= cap || b >= cap || a + b >= cap {
                cap
            } else {
                a + b
            }
        },
        AssemblyNode::Sequence(q) => {
            let ghost s = aseq_view(q@);
            proof {
                lemma_aseq_view_elems(q@);
                assert(s.take(0) =~= Seq::<AssemblyNodeV>::empty());
            }
            let mut acc: u64 = 0;
            let mut i: usize = 0;
            #[verifier::loop_isolation(false)]
            while i < q.len()
                invariant
                    i <= q@.len(),
                    acc == capped_pseudos(count_pseudos_seq(s.take(i as int))),
                decreases q@.len() - i,
            {
                proof {
                    vstd::std_specs::vec::axiom_vec_index_decreases::<Box<AssemblyNode>>(
                        *q,
                        i as int,
                    );
                    assert(s.take(i + 1) =~= s.take(i as int).push(s[i as int]));
                    lemma_count_pseudos_seq_push(s.take(i as int), s[i as int]);
                }
                let e = count_pseudos_capped(&q[i]);
                if acc >= cap || e >= cap || acc + e >= cap {
                    acc = cap;
                } else {
                    acc = acc + e;
                }
                i = i + 1;
            }
            proof {
                assert(s.take(q@.len() as int) =~= s);
            }
            acc
        },
        _ => 0,
    }
}

/// Whether the tree holds few enough temporaries for the stack pass's
/// slot budget, so that its slots may be assigned.
pub fn pseudo_budget_ok(n: &AssemblyNode) -> (b: bool)
    ensures
        b == (count_pseudos(anode_view(*n)) <= STACK_NAME_LIMIT),
{
    count_pseudos_capped(n) <= STACK_NAME_LIMIT
}

} // verus!
