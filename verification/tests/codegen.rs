use rcc::codegen::{codegen, codegen_func, gen, CodeLabel};
use rcc::errors::{display_around_pos, error_text, init_error, CompileError, Expected};
use rcc::intermediate_process::FunctionLocalVariable;
use rcc::parse::{FnArgs, Function, Node, NodeKind};
use rcc::text::{
    bytes_eq, bytes_eq_prefix, copy_bytes, is_byte, is_text, put, put_bytes, put_decimal,
    put_signed_decimal,
};
use rcc::tokenize::Type;

fn num(val: i32) -> Node {
    let mut node = Node::new(NodeKind::ND_NUM);
    node.val = val;
    node
}

fn binary(kind: NodeKind, l: Node, r: Node) -> Node {
    let mut node = Node::new(kind);
    node.l = Some(Box::new(l));
    node.r = Some(Box::new(r));
    node
}

fn code_of(node: &Node) -> Result<String, CompileError> {
    let mut out: Vec<u8> = Vec::new();
    let mut cl = CodeLabel::new();
    gen(node, &mut out, &FunctionLocalVariable::new(), &mut cl)?;
    Ok(String::from_utf8(out).unwrap())
}

#[test]
fn numbers_are_pushed() {
    assert_eq!(code_of(&num(42)).unwrap(), "push $42\n");
    assert_eq!(code_of(&num(0)).unwrap(), "push $0\n");
    assert_eq!(code_of(&num(-7)).unwrap(), "push $-7\n");
    assert_eq!(code_of(&num(i32::MIN)).unwrap(), "push $-2147483648\n");
}

#[test]
fn arithmetic_pops_both_operands_and_pushes_the_result() {
    let cases = [
        (NodeKind::ND_ADD, "add %rdi, %rax\n"),
        (NodeKind::ND_SUB, "sub %rdi, %rax\n"),
        (NodeKind::ND_MUL, "imul %rdi, %rax\n"),
        (NodeKind::ND_DIV, "cqo\nidiv %rdi\n"),
    ];
    for (kind, op) in cases {
        let code = code_of(&binary(kind, num(6), num(3))).unwrap();
        assert_eq!(code, format!("push $6\npush $3\npop %rdi\npop %rax\n{}push %rax\n", op));
    }
}

#[test]
fn comparison_ends_with_the_flag_on_the_stack() {
    let cases = [
        (NodeKind::ND_EQ, "cmp %rdi, %rax\n", "sete %al\n"),
        (NodeKind::ND_NEQ, "cmp %rdi, %rax\n", "setne %al\n"),
        (NodeKind::ND_LT, "cmp %rdi, %rax\n", "setl %al\n"),
        (NodeKind::ND_LE, "cmp %rdi, %rax\n", "setle %al\n"),
        (NodeKind::ND_BT, "cmp %rax, %rdi\n", "setl %al\n"),
        (NodeKind::ND_BE, "cmp %rax, %rdi\n", "setle %al\n"),
    ];
    for (kind, cmp, set) in cases {
        let code = code_of(&binary(kind, num(1), num(2))).unwrap();
        assert_eq!(
            code,
            format!("push $1\npush $2\npop %rdi\npop %rax\n{}{}movzb %al, %rax\npush %rax\n", cmp, set)
        );
        assert!(code.ends_with(&format!("{}movzb %al, %rax\npush %rax\n", set)));
    }
}

#[test]
fn missing_operand_is_an_error() {
    assert_eq!(code_of(&Node::new(NodeKind::ND_ADD)).unwrap_err(), CompileError::MissingOperand);
    assert_eq!(code_of(&Node::new(NodeKind::ND_RETURN)).unwrap_err(), CompileError::MissingOperand);
    assert_eq!(code_of(&Node::new(NodeKind::ND_FOR)).unwrap_err(), CompileError::MissingOperand);
    assert_eq!(code_of(&Node::new(NodeKind::ND_IFSTMT)).unwrap_err(), CompileError::MissingOperand);
    let mut call = Node::new(NodeKind::ND_FNCALL);
    call.fn_call_args.push(FnArgs::new_for_caller(Type::INT, None));
    assert_eq!(code_of(&call).unwrap_err(), CompileError::MissingOperand);
    let mut only_left = Node::new(NodeKind::ND_SUB);
    only_left.l = Some(Box::new(num(1)));
    assert_eq!(code_of(&only_left).unwrap_err(), CompileError::MissingOperand);
}

#[test]
fn variable_that_is_not_in_the_table_is_an_error() {
    let mut ident = Node::new(NodeKind::ND_IDENT);
    ident.str = b"a".to_vec();
    ident.block_str = b"_1".to_vec();
    assert_eq!(code_of(&ident).unwrap_err(), CompileError::UndeclaredSymbol);

    let mut table = FunctionLocalVariable::new();
    table.try_new_val_offset(&b"a".to_vec(), Type::INT, &b"_1".to_vec()).unwrap();
    let mut out: Vec<u8> = Vec::new();
    gen(&ident, &mut out, &table, &mut CodeLabel::new()).unwrap();
    assert_eq!(out, b"lea -8(%rbp), %rax\nmov (%rax), %rax\npush %rax\n".to_vec());

    // a declaration is looked up in its own scope alone
    let mut decl = binary(NodeKind::ND_DECL, ident, num(1));
    decl.block_str = b"_1_1".to_vec();
    let mut out: Vec<u8> = Vec::new();
    assert_eq!(
        gen(&decl, &mut out, &table, &mut CodeLabel::new()).unwrap_err(),
        CompileError::UndeclaredSymbol
    );
    decl.block_str = b"_1".to_vec();
    let mut out: Vec<u8> = Vec::new();
    gen(&decl, &mut out, &table, &mut CodeLabel::new()).unwrap();
    assert_eq!(
        out,
        b"lea -8(%rbp), %rax\npush %rax\npush $1\npop %rax\npop %rdi\nmov %rax, (%rdi)\n".to_vec()
    );
}

#[test]
fn nested_ifs_take_distinct_labels() {
    let inner = binary(NodeKind::ND_IF, num(1), num(2));
    let outer = binary(NodeKind::ND_IF, num(3), inner);
    let mut out: Vec<u8> = Vec::new();
    let mut cl = CodeLabel::new();
    gen(&outer, &mut out, &FunctionLocalVariable::new(), &mut cl).unwrap();
    let code = String::from_utf8(out).unwrap();
    assert_eq!(
        code,
        [
            "push $3\npop %rax\nmov $1, %rdi\ncmp %rdi, %rax\njne .L1\n",
            "push $1\npop %rax\nmov $1, %rdi\ncmp %rdi, %rax\njne .L2\n",
            "push $2\n.L2:\n.L1:\n",
        ]
        .concat()
    );
    assert_eq!(cl.cur_label_index(), &b"2".to_vec());
}

#[test]
fn label_counter_counts_in_decimal() {
    let mut cl = CodeLabel::new();
    assert_eq!(cl.cur_label_index(), &b"0".to_vec());
    for _ in 0..9 {
        cl.advance();
    }
    assert_eq!(cl.cur_label_index(), &b"9".to_vec());
    cl.advance();
    assert_eq!(cl.cur_label_index(), &b"10".to_vec());
    for _ in 0..89 {
        cl.advance();
    }
    assert_eq!(cl.cur_label_index(), &b"99".to_vec());
    cl.advance();
    assert_eq!(cl.cur_label_index(), &b"100".to_vec());
    for _ in 0..1899 {
        cl.advance();
    }
    assert_eq!(cl.cur_label_index(), &b"1999".to_vec());
    cl.advance();
    assert_eq!(cl.cur_label_index(), &b"2000".to_vec());
}

#[test]
fn frame_is_rounded_up_to_sixteen() {
    for (lv_size, fn_args_size, frame) in [(0, 0, 0), (8, 0, 16), (8, 8, 16), (24, 8, 32), (33, 0, 48)]
    {
        let mut f = Function::new(Node::new(NodeKind::ND_ROOT), b"f".to_vec(), vec![]);
        f.lv_size = lv_size;
        f.fn_args_size = fn_args_size;
        let mut out: Vec<u8> = Vec::new();
        codegen_func(&f, &mut out, &mut CodeLabel::new()).unwrap();
        let code = String::from_utf8(out).unwrap();
        assert_eq!(
            code,
            format!(
                ".global f\nf:\npushq %rbp\nmovq %rsp, %rbp\nsub ${}, %rsp\npop %rax\nmov %rbp, %rsp\npop %rbp\nret\n",
                frame
            )
        );
    }
    let mut f = Function::new(Node::new(NodeKind::ND_ROOT), b"f".to_vec(), vec![]);
    f.lv_size = usize::MAX;
    f.fn_args_size = usize::MAX;
    let mut out: Vec<u8> = Vec::new();
    codegen_func(&f, &mut out, &mut CodeLabel::new()).unwrap();
    let frame = (2 * (usize::MAX as u128) + 15) / 16 * 16;
    assert!(String::from_utf8(out).unwrap().contains(&format!("sub ${}, %rsp\n", frame)));
}

#[test]
fn parameter_that_is_not_in_the_table_is_an_error() {
    let f = Function::new(
        Node::new(NodeKind::ND_ROOT),
        b"f".to_vec(),
        vec![FnArgs::new_for_callee(b"x".to_vec(), Type::INT)],
    );
    assert_eq!(codegen(vec![f]).unwrap_err(), CompileError::UndeclaredSymbol);
}

#[test]
fn no_function_is_the_text_directive_alone() {
    assert_eq!(codegen(vec![]).unwrap(), b".text\n".to_vec());
}

#[test]
fn byte_strings() {
    assert!(bytes_eq(b"abc", b"abc"));
    assert!(!bytes_eq(b"abc", b"abd"));
    assert!(!bytes_eq(b"abc", b"ab"));
    assert!(bytes_eq(b"", b""));
    assert!(bytes_eq_prefix(b"ab", b"abc", 2));
    assert!(!bytes_eq_prefix(b"ab", b"abc", 3));
    assert!(!bytes_eq_prefix(b"ac", b"abc", 2));
    assert!(is_text(&b"for".to_vec(), "for"));
    assert!(!is_text(&b"fo".to_vec(), "for"));
    assert!(is_byte(&b"(".to_vec(), b'('));
    assert!(!is_byte(&b"((".to_vec(), b'('));
    assert!(!is_byte(&b")".to_vec(), b'('));
    assert_eq!(copy_bytes(&b"abc".to_vec()), b"abc".to_vec());

    let mut out = b"x".to_vec();
    put(&mut out, "yz");
    put_bytes(&mut out, &b"!".to_vec());
    put_decimal(&mut out, 0);
    put_decimal(&mut out, 7);
    put_decimal(&mut out, 10);
    put_decimal(&mut out, 340282366920938463463374607431768211455);
    put_signed_decimal(&mut out, -12);
    put_signed_decimal(&mut out, 2147483647);
    assert_eq!(out, b"xyz!0710340282366920938463463374607431768211455-122147483647".to_vec());
}

#[test]
fn excerpt_is_ten_bytes_to_each_side() {
    let input = b"0123456789abcdefghijklmnopqrstuvwxyz".to_vec();
    assert_eq!(display_around_pos(&input, 0), b"0123456789".to_vec());
    assert_eq!(display_around_pos(&input, 5), b"0123456789abcde".to_vec());
    assert_eq!(display_around_pos(&input, 9), b"0123456789abcdefghi".to_vec());
    assert_eq!(display_around_pos(&input, 10), b"0123456789abcdefghij".to_vec());
    assert_eq!(display_around_pos(&input, 20), b"abcdefghijklmnopqrst".to_vec());
    assert_eq!(display_around_pos(&input, 30), b"klmnopqrstuvwxyz".to_vec());
    assert_eq!(display_around_pos(&input, 36), b"qrstuvwxyz".to_vec());
    assert_eq!(display_around_pos(&input, 46), b"".to_vec());
    assert_eq!(display_around_pos(&input, usize::MAX), b"".to_vec());
    assert_eq!(display_around_pos(&b"".to_vec(), 3), b"".to_vec());

    let mut store = b"int ".to_vec();
    init_error(&mut store, &b"main".to_vec());
    assert_eq!(store, b"int main".to_vec());
}

#[test]
fn report_underlines_the_token() {
    let input = b"int main(){ return 2*(3+4)-1; }\0".to_vec();
    let report = error_text(&input, 21, &b"expect a number".to_vec(), 1);
    assert_eq!(
        String::from_utf8(report).unwrap(),
        "input pos: 21\ntok len: 1\nErr place:\n return 2*(3+4)-1; }\n          ^\nErr message: expect a number\n"
    );
    let report = error_text(&input, 4, &b"m".to_vec(), 4);
    assert_eq!(
        String::from_utf8(report).unwrap(),
        "input pos: 4\ntok len: 4\nErr place:\nint main(){ re\n    ^^^^\nErr message: m\n"
    );
}

#[test]
fn each_error_has_its_message() {
    let input = b"int main(){ return #; }\0".to_vec();
    let lex = CompileError::LexError { pos: 19 };
    assert_eq!(lex.message(), b"LexError: unrecognized input".to_vec());
    assert_eq!(
        String::from_utf8(lex.describe(&input)).unwrap(),
        "input pos: 19\ntok len: 1\nErr place:\n){ return #; }\0\n          ^\nErr message: LexError: unrecognized input\n"
    );
    let parse = CompileError::ParseError { pos: 8, len: 4, expected: Expected::Identifier };
    assert_eq!(parse.message(), b"ParseError: expect an identifier".to_vec());
    assert_eq!(
        String::from_utf8(parse.describe(&input)).unwrap(),
        "input pos: 4\ntok len: 4\nErr place:\nint main(){ re\n    ^^^^\nErr message: ParseError: expect an identifier\n"
    );
    let expectations = [
        (Expected::Initial, "expect INI token"),
        (Expected::TypeName, "expect a type"),
        (Expected::Identifier, "expect an identifier"),
        (Expected::Operand, "expect a number, a variable or a call"),
        (Expected::OpenParen, "expect `(`"),
        (Expected::CloseParen, "expect `)`"),
        (Expected::OpenBrace, "expect `{`"),
        (Expected::Semicolon, "expect `;`"),
        (Expected::Assign, "expect `=`"),
        (Expected::CommaOrCloseParen, "expect `,` or `)`"),
    ];
    for (expected, words) in expectations {
        let e = CompileError::ParseError { pos: 0, len: 0, expected };
        assert_eq!(String::from_utf8(e.message()).unwrap(), format!("ParseError: {}", words));
    }
    assert_eq!(
        CompileError::UndeclaredSymbol.describe(&input),
        b"UndeclaredSymbol: variable not found\n".to_vec()
    );
    assert_eq!(
        CompileError::SymbolRedeclared.describe(&input),
        b"SymbolRedeclared: symbol duplicated\n".to_vec()
    );
    assert_eq!(
        CompileError::ArityError.describe(&input),
        b"ArityError: more than six parameters or arguments\n".to_vec()
    );
    assert_eq!(
        CompileError::MissingOperand.describe(&input),
        b"MissingOperand: a node lacks a subexpression\n".to_vec()
    );
}
