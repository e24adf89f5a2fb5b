use minicc::emission::emit;
use minicc::errors::CompileError;
use minicc::generator::generate;
use minicc::intermediate::{create_intermediate, IntermediateNode, IntermediateOperations};
use minicc::lexer::{lex, Token};
use minicc::parser::parse;

fn compile(source: &str) -> String {
    let mut tokens = lex(source).expect("lexing failed");
    let ast = parse(&mut tokens).expect("parsing failed");
    let ir = create_intermediate(&ast).expect("lowering failed");
    let machine = generate(&ir).expect("assembly passes failed");
    emit(&machine).expect("emission failed")
}

fn body_of(ir: &IntermediateNode) -> &Vec<Box<IntermediateNode>> {
    match ir {
        IntermediateNode::Unary { op: IntermediateOperations::Program, node } => match &**node {
            IntermediateNode::Binary { op: IntermediateOperations::Function, lhs: _, rhs } => {
                match &**rhs {
                    IntermediateNode::Sequence(v) => v,
                    _ => panic!("function body is not a sequence"),
                }
            },
            _ => panic!("program child is not a function"),
        },
        _ => panic!("root is not a program"),
    }
}

fn lower(source: &str) -> Box<IntermediateNode> {
    let mut tokens = lex(source).expect("lexing failed");
    let ast = parse(&mut tokens).expect("parsing failed");
    create_intermediate(&ast).expect("lowering failed")
}

fn is_constant(n: &IntermediateNode, value: i32) -> bool {
    match n {
        IntermediateNode::Unary { op: IntermediateOperations::Constant, node } => {
            matches!(&**node, IntermediateNode::Int(v) if *v == value)
        },
        _ => false,
    }
}

fn is_var(n: &IntermediateNode, name: &str) -> bool {
    match n {
        IntermediateNode::Unary { op: IntermediateOperations::Var, node } => {
            matches!(&**node, IntermediateNode::Str(s) if s == name)
        },
        _ => false,
    }
}

#[test]
fn return_two_full_text() {
    let text = compile("int main(void) { return 2; }");
    let expected = "    .globl main\n\
                    main:\n    pushq %rbp\n    movq %rsp, %rbp\n    subq $0, %rsp\n    movl $2, %eax\n    movq %rbp, %rsp\n    popq %rbp\n    ret\n    .section .note.GNU-stack,\"\",@progbits\n";
    assert_eq!(text, expected);
    assert!(text.contains("movl $2, %eax"));
    assert!(!text.contains("subq $4"));
}

#[test]
fn return_negative_two_intermediate() {
    let ir = lower("int main(void) { return -2; }");
    let body = body_of(&ir);
    assert_eq!(body.len(), 2);
    match &*body[0] {
        IntermediateNode::Binary { op: IntermediateOperations::Negate, lhs, rhs } => {
            assert!(is_constant(lhs, 2));
            assert!(is_var(rhs, "temp.1"));
        },
        _ => panic!("first instruction is not a negation"),
    }
    match &*body[1] {
        IntermediateNode::Unary { op: IntermediateOperations::Return, node } => {
            assert!(is_var(node, "temp.1"));
        },
        _ => panic!("second instruction is not a return"),
    }
}

#[test]
fn return_negative_two_assembly() {
    let text = compile("int main(void) { return -2; }");
    let expected = "    .globl main\nmain:\n    pushq %rbp\n    movq %rsp, %rbp\n    subq $4, %rsp\n    movl $2, -4(%rbp)\n    negl -4(%rbp)\n    movl -4(%rbp), %eax\n    movq %rbp, %rsp\n    popq %rbp\n    ret\n    .section .note.GNU-stack,\"\",@progbits\n";
    assert_eq!(text, expected);
}

#[test]
fn complement_of_negation_two_temporaries() {
    let ir = lower("int main(void) { return ~(-2); }");
    let body = body_of(&ir);
    assert_eq!(body.len(), 3);
    match &*body[0] {
        IntermediateNode::Binary { op: IntermediateOperations::Negate, lhs, rhs } => {
            assert!(is_constant(lhs, 2));
            assert!(is_var(rhs, "temp.1"));
        },
        _ => panic!("first instruction is not a negation"),
    }
    match &*body[1] {
        IntermediateNode::Binary { op: IntermediateOperations::Complement, lhs, rhs } => {
            assert!(is_var(lhs, "temp.1"));
            assert!(is_var(rhs, "temp.2"));
        },
        _ => panic!("second instruction is not a complement"),
    }
    let text = compile("int main(void) { return ~(-2); }");
    assert!(text.contains("    subq $8, %rsp\n"));
    assert!(text.contains("    movl $2, -4(%rbp)\n"));
    assert!(text.contains("    negl -4(%rbp)\n"));
    assert!(text.contains("    movl -4(%rbp), %r10d\n    movl %r10d, -8(%rbp)\n"));
    assert!(text.contains("    notl -8(%rbp)\n"));
    assert!(text.contains("    movl -8(%rbp), %eax\n"));
}

#[test]
fn triple_complement_three_temporaries() {
    let ir = lower("int main(void) { return ~~~5; }");
    let body = body_of(&ir);
    assert_eq!(body.len(), 4);
    let text = compile("int main(void) { return ~~~5; }");
    assert!(text.contains("    subq $12, %rsp\n"));
    assert_eq!(text.matches("notl").count(), 3);
    assert!(text.contains("    movl -4(%rbp), %r10d\n    movl %r10d, -8(%rbp)\n"));
    assert!(text.contains("    movl -8(%rbp), %r10d\n    movl %r10d, -12(%rbp)\n"));
    assert!(text.contains("    movl -12(%rbp), %eax\n"));
}

#[test]
fn parentheses_do_not_change_output() {
    let plain = compile("int main(void) { return -~1; }");
    let wrapped = compile("int main(void) { return (((-(~1)))); }");
    assert_eq!(plain, wrapped);
    assert!(plain.contains("notl"));
    assert!(plain.contains("negl"));
}

#[test]
fn two_hyphens_lex_then_parse_fails() {
    let tokens = lex("return--1;").expect("lexing failed");
    let kinds: Vec<Token> = tokens.iter().map(|t| t.token).collect();
    assert_eq!(
        kinds,
        vec![Token::ReturnKeyword, Token::TwoHyphens, Token::Constant, Token::Semicolon]
    );
    assert_eq!(tokens[2].data, Some(String::from("1")));
    let mut toks = lex("int main(void) { return--1; }").expect("lexing failed");
    let result = parse(&mut toks);
    assert_eq!(result.err(), Some(CompileError::UnknownExpression));
}

#[test]
fn compile_error_variants_surface() {
    assert_eq!(lex("$").err(), Some(CompileError::BadToken));

    let mut toks = lex("int main(void) { return 2; ").expect("lexing failed");
    assert_eq!(parse(&mut toks).err(), Some(CompileError::MissingToken(Token::CloseBrace)));

    let mut toks = lex("int main(int) { return 2; }").expect("lexing failed");
    assert_eq!(
        parse(&mut toks).err(),
        Some(CompileError::UnexpectedToken { found: Token::IntKeyword, expected: Token::VoidKeyword })
    );

    let mut toks = lex("int main(void) { return 2147483648; }").expect("lexing failed");
    assert_eq!(parse(&mut toks).err(), Some(CompileError::BadInteger));

    let mut toks = lex("int main(void) { return ; }").expect("lexing failed");
    assert_eq!(parse(&mut toks).err(), Some(CompileError::UnknownExpression));

    let mut toks = lex("int main(void) { return 2; } int").expect("lexing failed");
    assert_eq!(parse(&mut toks).err(), Some(CompileError::TrailingInput));

    let mut toks = lex("int main(void) { return").expect("lexing failed");
    assert_eq!(parse(&mut toks).err(), Some(CompileError::MissingExpression));
}

#[test]
fn largest_constant_compiles() {
    let text = compile("int main(void) { return 2147483647; }");
    assert!(text.contains("movl $2147483647, %eax"));
}

#[test]
fn leading_zeros_parse_as_decimal() {
    let text = compile("int main(void) { return 007; }");
    assert!(text.contains("movl $7, %eax"));
}
