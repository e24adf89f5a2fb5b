use minicc::emission::emit;
use minicc::errors::CompileError;
use minicc::generator::{
    convert_ast, find_stack_size, fix_instructions, process_stack, AssemblyNode,
    AssemblyOperations, AssemblyRegister, StackMap,
};
use minicc::intermediate::{
    clone_inode, create_functions, create_intermediate, get_constant_or_var, get_next_node,
    unary_ops_fit, IntermediateNode, IntermediateOperations,
};
use minicc::lexer::{lex, Token, TokenValue};
use minicc::parser::{check_token, exp, int_node, unop, Node, Operations};
use std::collections::VecDeque;

fn pseudo(name: &str) -> Box<AssemblyNode> {
    Box::new(AssemblyNode::Unary {
        op: AssemblyOperations::Pseudo,
        node: Box::new(AssemblyNode::Str(String::from(name))),
    })
}

fn mov(lhs: Box<AssemblyNode>, rhs: Box<AssemblyNode>) -> Box<AssemblyNode> {
    Box::new(AssemblyNode::Binary { op: AssemblyOperations::Mov, lhs, rhs })
}

#[test]
fn stack_slots_are_assigned_in_first_use_order() {
    let mut tree = Box::new(AssemblyNode::Sequence(vec![
        mov(pseudo("a"), pseudo("b")),
        mov(pseudo("b"), pseudo("a")),
        mov(pseudo("c"), pseudo("a")),
    ]));
    let mut map = StackMap::new();
    process_stack(&mut tree, &mut map).expect("stack pass failed");
    assert_eq!(map.size(), 3);
    match &*tree {
        AssemblyNode::Sequence(v) => {
            let offsets: Vec<(i64, i64)> = v
                .iter()
                .map(|m| match &**m {
                    AssemblyNode::Binary { op: _, lhs, rhs } => {
                        match (&**lhs, &**rhs) {
                            (AssemblyNode::Stack(a), AssemblyNode::Stack(b)) => (*a, *b),
                            _ => panic!("operand is not a stack slot"),
                        }
                    },
                    _ => panic!("element is not a move"),
                })
                .collect();
            assert_eq!(offsets, vec![(-4, -8), (-8, -4), (-12, -4)]);
        },
        _ => panic!("tree is not a sequence"),
    }
}

#[test]
fn early_stack_node_is_rejected() {
    let mut tree = Box::new(AssemblyNode::Stack(-4));
    let mut map = StackMap::new();
    assert_eq!(process_stack(&mut tree, &mut map).err(), Some(CompileError::StackTooEarly));
}

#[test]
fn frame_size_is_the_deepest_slot() {
    let tree = Box::new(AssemblyNode::Sequence(vec![
        mov(Box::new(AssemblyNode::Stack(-8)), Box::new(AssemblyNode::Register(AssemblyRegister::AX))),
        Box::new(AssemblyNode::Unary {
            op: AssemblyOperations::Neg,
            node: Box::new(AssemblyNode::Stack(-16)),
        }),
    ]));
    assert_eq!(find_stack_size(&tree), 16);
    assert_eq!(find_stack_size(&Box::new(AssemblyNode::Int(5))), 0);
    assert_eq!(find_stack_size(&Box::new(AssemblyNode::Stack(-4))), 4);
}

#[test]
fn fixup_splits_memory_to_memory_moves() {
    let mut tree = Box::new(AssemblyNode::Sequence(vec![
        mov(Box::new(AssemblyNode::Stack(-4)), Box::new(AssemblyNode::Stack(-8))),
    ]));
    fix_instructions(&mut tree).expect("fixup failed");
    match &*tree {
        AssemblyNode::Sequence(v) => {
            assert_eq!(v.len(), 3);
            assert!(matches!(&*v[0], AssemblyNode::AllocateStack(8)));
            match &*v[1] {
                AssemblyNode::Binary { op: AssemblyOperations::Mov, lhs, rhs } => {
                    assert!(matches!(&**lhs, AssemblyNode::Stack(-4)));
                    assert!(matches!(&**rhs, AssemblyNode::Register(AssemblyRegister::R10)));
                },
                _ => panic!("second element is not a move"),
            }
            match &*v[2] {
                AssemblyNode::Binary { op: AssemblyOperations::Mov, lhs, rhs } => {
                    assert!(matches!(&**lhs, AssemblyNode::Register(AssemblyRegister::R10)));
                    assert!(matches!(&**rhs, AssemblyNode::Stack(-8)));
                },
                _ => panic!("third element is not a move"),
            }
        },
        _ => panic!("tree is not a sequence"),
    }
}

#[test]
fn fixup_rerun_only_prepends_an_allocation() {
    let mut tree = Box::new(AssemblyNode::Sequence(vec![
        mov(Box::new(AssemblyNode::Stack(-4)), Box::new(AssemblyNode::Stack(-8))),
    ]));
    fix_instructions(&mut tree).expect("fixup failed");
    let once = emit(&tree).expect("emission failed");
    fix_instructions(&mut tree).expect("second fixup failed");
    let twice = emit(&tree).expect("emission failed");
    assert_eq!(once.matches("movl").count(), twice.matches("movl").count());
    assert_eq!(once.matches("subq").count() + 1, twice.matches("subq").count());
    assert_eq!(twice, format!("    subq $8, %rsp\n{}", once));
}

#[test]
fn emission_of_each_leaf() {
    assert_eq!(emit(&Box::new(AssemblyNode::Int(-7))).unwrap(), "$-7");
    assert_eq!(emit(&Box::new(AssemblyNode::Str(String::from("main")))).unwrap(), "main");
    assert_eq!(emit(&Box::new(AssemblyNode::Register(AssemblyRegister::AX))).unwrap(), "%eax");
    assert_eq!(emit(&Box::new(AssemblyNode::Register(AssemblyRegister::R10))).unwrap(), "%r10d");
    assert_eq!(emit(&Box::new(AssemblyNode::Stack(-12))).unwrap(), "-12(%rbp)");
    assert_eq!(
        emit(&Box::new(AssemblyNode::AllocateStack(16))).unwrap(),
        "    subq $16, %rsp\n"
    );
    assert_eq!(
        emit(&Box::new(AssemblyNode::Terminal { op: AssemblyOperations::Return })).unwrap(),
        "    movq %rbp, %rsp\n    popq %rbp\n    ret\n"
    );
}

#[test]
fn emission_rejects_shapes_outside_the_table() {
    let bad = Box::new(AssemblyNode::Terminal { op: AssemblyOperations::Mov });
    assert_eq!(emit(&bad).err(), Some(CompileError::UnexpectedAssemblyShape));
    let bad_imm = Box::new(AssemblyNode::Unary {
        op: AssemblyOperations::Imm,
        node: Box::new(AssemblyNode::Str(String::from("x"))),
    });
    assert_eq!(emit(&bad_imm).err(), Some(CompileError::UnexpectedAssemblyShape));
}

#[test]
fn lowering_rejects_unexpected_shapes() {
    let bad = Node::Unary { op: Operations::Negate, node: Box::new(Node::Int(1)) };
    assert_eq!(create_intermediate(&bad).err(), Some(CompileError::UnexpectedAstShape));
    let bad_convert = Box::new(IntermediateNode::Terminal { op: IntermediateOperations::Return });
    assert_eq!(convert_ast(&bad_convert).err(), Some(CompileError::UnexpectedAstShape));
}

#[test]
fn lowering_helpers_thread_the_counter() {
    let mut counter: u32 = 0;
    let dst = get_next_node(&mut counter);
    assert_eq!(counter, 1);
    match &*dst {
        IntermediateNode::Unary { op: IntermediateOperations::Var, node } => {
            assert!(matches!(&**node, IntermediateNode::Str(s) if s == "temp.1"));
        },
        _ => panic!("fresh destination is not a temporary"),
    }
    let constant = Box::new(IntermediateNode::Unary {
        op: IntermediateOperations::Constant,
        node: Box::new(IntermediateNode::Int(3)),
    });
    let kept = get_constant_or_var(constant, &counter);
    assert!(matches!(&*kept, IntermediateNode::Unary { op: IntermediateOperations::Constant, node: _ }));
    let other = Box::new(IntermediateNode::Int(3));
    let replaced = get_constant_or_var(other, &counter);
    match &*replaced {
        IntermediateNode::Unary { op: IntermediateOperations::Var, node } => {
            assert!(matches!(&**node, IntermediateNode::Str(s) if s == "temp.1"));
        },
        _ => panic!("replacement is not a temporary"),
    }
}

#[test]
fn create_functions_appends_instructions() {
    let ast = Node::Unary {
        op: Operations::Negate,
        node: Box::new(Node::Unary { op: Operations::Constant, node: Box::new(Node::Int(9)) }),
    };
    let mut sequence: Vec<Box<IntermediateNode>> = Vec::new();
    let mut counter: u32 = 0;
    let operand = create_functions(&ast, &mut sequence, &mut counter).expect("lowering failed");
    assert_eq!(counter, 1);
    assert_eq!(sequence.len(), 1);
    match &*operand {
        IntermediateNode::Unary { op: IntermediateOperations::Var, node } => {
            assert!(matches!(&**node, IntermediateNode::Str(s) if s == "temp.1"));
        },
        _ => panic!("operand is not the fresh destination"),
    }
}

#[test]
fn deep_clone_preserves_structure() {
    let original = IntermediateNode::Sequence(vec![
        Box::new(IntermediateNode::Int(1)),
        Box::new(IntermediateNode::Str(String::from("temp.1"))),
    ]);
    let copy = clone_inode(&original);
    match copy {
        IntermediateNode::Sequence(v) => {
            assert_eq!(v.len(), 2);
            assert!(matches!(&*v[0], IntermediateNode::Int(1)));
            assert!(matches!(&*v[1], IntermediateNode::Str(s) if s == "temp.1"));
        },
        _ => panic!("clone lost the sequence"),
    }
}

#[test]
fn counter_budget_helper() {
    let ast = Node::Unary {
        op: Operations::Negate,
        node: Box::new(Node::Unary { op: Operations::Constant, node: Box::new(Node::Int(1)) }),
    };
    assert!(unary_ops_fit(&ast));
}

#[test]
fn parser_helpers_report_their_errors() {
    let some_semicolon = Some(TokenValue { token: Token::Semicolon, data: None });
    assert!(check_token(&some_semicolon, Token::Semicolon).is_ok());
    assert_eq!(
        check_token(&some_semicolon, Token::OpenBrace).err(),
        Some(CompileError::UnexpectedToken { found: Token::Semicolon, expected: Token::OpenBrace })
    );
    assert_eq!(
        check_token(&None, Token::OpenBrace).err(),
        Some(CompileError::MissingToken(Token::OpenBrace))
    );

    let mut tokens = lex(";").expect("lexing failed");
    assert_eq!(unop(&mut tokens).err(), Some(CompileError::BadUnaryOperator));
    let mut empty: VecDeque<TokenValue> = VecDeque::new();
    assert_eq!(unop(&mut empty).err(), Some(CompileError::MissingExpression));
    let mut hyphen = lex("-").expect("lexing failed");
    assert!(matches!(unop(&mut hyphen), Ok(Operations::Negate)));
    let mut tilde = lex("~").expect("lexing failed");
    assert!(matches!(unop(&mut tilde), Ok(Operations::Complement)));

    let mut number = lex("41").expect("lexing failed");
    let node = int_node(&mut number).expect("constant parse failed");
    assert!(matches!(&*node, Node::Int(41)));

    let mut expr = lex("-(~3)").expect("lexing failed");
    let tree = exp(&mut expr).expect("expression parse failed");
    assert!(matches!(&*tree, Node::Unary { op: Operations::Negate, node: _ }));
    assert!(expr.is_empty());
}

#[test]
fn generate_runs_all_three_passes() {
    let mut tokens = lex("int main(void) { return ~1; }").expect("lexing failed");
    let ast = minicc::parser::parse(&mut tokens).expect("parsing failed");
    let ir = create_intermediate(&ast).expect("lowering failed");
    let machine = generate_and_check(&ir);
    let text = emit(&machine).expect("emission failed");
    assert!(text.contains("    subq $4, %rsp\n"));
    assert!(text.contains("    movl $1, -4(%rbp)\n"));
    assert!(text.contains("    notl -4(%rbp)\n"));
}

fn generate_and_check(ir: &Box<IntermediateNode>) -> Box<AssemblyNode> {
    let machine = minicc::generator::generate(ir).expect("assembly passes failed");
    match &*machine {
        AssemblyNode::Unary { op: AssemblyOperations::Program, node } => match &**node {
            AssemblyNode::Binary { op: AssemblyOperations::Function, lhs: _, rhs } => {
                match &**rhs {
                    AssemblyNode::Sequence(v) => {
                        assert!(matches!(&*v[0], AssemblyNode::AllocateStack(_)));
                    },
                    _ => panic!("function body is not a sequence"),
                }
            },
            _ => panic!("program child is not a function"),
        },
        _ => panic!("root is not a program"),
    }
    machine
}

#[test]
fn driver_matches_the_staged_pipeline() {
    let source = "int main(void) { return ~(-2); }";
    assert!(minicc::driver::source_within_limits(source));
    let direct = minicc::driver::compile(source).expect("driver failed");
    let mut tokens = lex(source).expect("lexing failed");
    let ast = minicc::parser::parse(&mut tokens).expect("parsing failed");
    let ir = create_intermediate(&ast).expect("lowering failed");
    let machine = minicc::generator::generate(&ir).expect("assembly passes failed");
    let staged = emit(&machine).expect("emission failed");
    assert_eq!(direct, staged);
}

#[test]
fn driver_reports_the_first_error() {
    assert_eq!(minicc::driver::compile("$").err(), Some(CompileError::BadToken));
    assert!(minicc::driver::source_within_limits("$"));
    assert_eq!(
        minicc::driver::compile("int main(void) { return; }").err(),
        Some(CompileError::UnknownExpression)
    );
    assert!(minicc::driver::source_within_limits("int main(void) { return; }"));
}

#[test]
fn pseudo_budget_holds_for_small_trees() {
    let tree = pseudo("a");
    assert!(minicc::generator::pseudo_budget_ok(&tree));
}

#[test]
fn stack_pass_rerun_rejects_its_own_output() {
    let mut tree = Box::new(AssemblyNode::Sequence(vec![mov(
        pseudo("temp.1"),
        Box::new(AssemblyNode::Register(AssemblyRegister::AX)),
    )]));
    let mut map = StackMap::new();
    process_stack(&mut tree, &mut map).expect("stack pass failed");
    let mut second_map = StackMap::new();
    assert_eq!(
        process_stack(&mut tree, &mut second_map).err(),
        Some(CompileError::StackTooEarly)
    );
}

#[test]
fn stack_pass_is_a_no_op_without_temporaries() {
    let mut tree = Box::new(AssemblyNode::Sequence(vec![mov(
        Box::new(AssemblyNode::Unary {
            op: AssemblyOperations::Imm,
            node: Box::new(AssemblyNode::Int(2)),
        }),
        Box::new(AssemblyNode::Register(AssemblyRegister::AX)),
    )]));
    let mut map = StackMap::new();
    let before = emit(&tree).expect("emission failed");
    process_stack(&mut tree, &mut map).expect("stack pass failed");
    assert_eq!(map.size(), 0);
    let after = emit(&tree).expect("emission failed");
    assert_eq!(before, after);
    process_stack(&mut tree, &mut map).expect("second stack pass failed");
    assert_eq!(emit(&tree).expect("emission failed"), after);
}
