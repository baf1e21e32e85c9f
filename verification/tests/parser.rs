use rcc::errors::{CompileError, Expected};
use rcc::parse::{
    consume_initial_tok, gen_binary_node, gen_expr, gen_num_node, parse, parse_add_sub,
    parse_equality, parse_function, parse_stmt, parse_stmts, parse_unary, FnArgs, Function, Node,
    NodeKind,
};
use rcc::tokenize::{tokenize, NewTokenReader, TokenKind, TokenReader, Type};

fn reader(text: &str) -> TokenReader {
    let mut source = text.as_bytes().to_vec();
    source.push(0);
    let mut reader = NewTokenReader(tokenize(source).unwrap());
    reader.next();
    reader
}

fn functions(text: &str) -> Result<Vec<Function>, CompileError> {
    let mut source = text.as_bytes().to_vec();
    source.push(0);
    let mut reader = NewTokenReader(tokenize(source).unwrap());
    parse(&mut reader)
}

fn left(node: &Node) -> &Node {
    node.l.as_ref().unwrap()
}

fn right(node: &Node) -> &Node {
    node.r.as_ref().unwrap()
}

#[test]
fn reader_moves_over_the_tokens() {
    let mut source = b"a = 1;".to_vec();
    source.push(0);
    let mut tok = NewTokenReader(tokenize(source).unwrap());
    assert_eq!(tok.cur, 0);
    assert_eq!(tok.cur_tok().kind, TokenKind::INI);
    tok.next();
    assert_eq!(tok.cur_tok().char, b"a".to_vec());
    assert_eq!(tok.cur_input_pos(), 0);
    assert_eq!(tok.cur_tok_len(), 1);
    assert!(tok.expect(b"a"));
    assert!(!tok.expect(b"="));
    assert_eq!(tok.get_next_tok().char, b"=".to_vec());
    assert_eq!(tok.get_next_nth_tok(2).kind, TokenKind::NUM);
    assert_eq!(tok.kind_at(4), TokenKind::EOF);
    assert_eq!(tok.kind_at(100), TokenKind::EOF);
    assert!(tok.is_at(3, b';'));
    assert!(!tok.is_at(100, b';'));
    tok.next_tok();
    assert_eq!(tok.cur, 2);
    tok.next_nth_tok(2);
    assert_eq!(tok.cur, 4);
    assert_eq!(tok.cur_input_pos(), 5);
}

#[test]
fn initial_token_is_required() {
    let mut tok = reader("a");
    assert_eq!(
        consume_initial_tok(&mut tok).unwrap_err(),
        CompileError::ParseError { pos: 1, len: 1, expected: Expected::Initial }
    );
    assert_eq!(tok.cur, 1);
}

#[test]
fn number_and_variable_and_call() {
    let mut tok = reader("42");
    let node = parse_unary(&mut tok).unwrap();
    assert_eq!(node.kind, NodeKind::ND_NUM);
    assert_eq!(node.val, 42);
    assert_eq!(tok.cur, 2);

    let mut tok = reader("abc + 1");
    let node = parse_unary(&mut tok).unwrap();
    assert_eq!(node.kind, NodeKind::ND_IDENT);
    assert_eq!(node.str, b"abc".to_vec());
    assert_eq!(tok.cur, 2);

    let mut tok = reader("f(1, x, g())");
    let node = parse_unary(&mut tok).unwrap();
    assert_eq!(node.kind, NodeKind::ND_FNCALL);
    assert_eq!(node.fn_name, b"f".to_vec());
    assert_eq!(node.fn_call_args.len(), 3);
    assert_eq!(node.fn_call_args[0].typ, Type::INT);
    // an argument is an `equality`: a plain expression node here
    let first = node.fn_call_args[0].val.as_ref().unwrap();
    assert_eq!(first.kind, NodeKind::ND_EXPR);
    assert_eq!(left(first).val, 1);
    let third = node.fn_call_args[2].val.as_ref().unwrap();
    assert_eq!(left(third).kind, NodeKind::ND_FNCALL);
    assert_eq!(left(third).fn_call_args.len(), 0);
    assert_eq!(tok.cur, 11);
}

#[test]
fn mistakes_in_a_call() {
    assert_eq!(
        parse_unary(&mut reader("f(1 2)")).unwrap_err(),
        CompileError::ParseError { pos: 5, len: 1, expected: Expected::CommaOrCloseParen }
    );
    assert_eq!(
        parse_unary(&mut reader("f(1,)")).unwrap_err(),
        CompileError::ParseError { pos: 5, len: 1, expected: Expected::Operand }
    );
    assert_eq!(
        parse_unary(&mut reader("+")).unwrap_err(),
        CompileError::ParseError { pos: 1, len: 1, expected: Expected::Operand }
    );
}

#[test]
fn product_binds_tighter_than_sum_and_both_group_from_the_left() {
    let mut tok = reader("1 + 2 * 3 - 4");
    let node = parse_add_sub(&mut tok).unwrap();
    // (1 + (2 * 3)) - 4
    assert_eq!(node.kind, NodeKind::ND_SUB);
    assert_eq!(right(&node).val, 4);
    let sum = left(&node);
    assert_eq!(sum.kind, NodeKind::ND_ADD);
    assert_eq!(left(sum).val, 1);
    let product = right(sum);
    assert_eq!(product.kind, NodeKind::ND_MUL);
    assert_eq!(left(product).val, 2);
    assert_eq!(right(product).val, 3);

    let mut tok = reader("8 / 4 / 2");
    let node = parse_add_sub(&mut tok).unwrap();
    assert_eq!(node.kind, NodeKind::ND_DIV);
    assert_eq!(left(&node).kind, NodeKind::ND_DIV);
    assert_eq!(right(&node).val, 2);
}

#[test]
fn equality_without_an_operator_is_the_plain_expression() {
    let node = parse_equality(&mut reader("a")).unwrap();
    assert_eq!(node.kind, NodeKind::ND_EXPR);
    assert_eq!(left(&node).kind, NodeKind::ND_IDENT);
}

#[test]
fn each_comparison_operator_has_its_node() {
    let cases = [
        ("a == b", NodeKind::ND_EQ),
        ("a != b", NodeKind::ND_NEQ),
        ("a < b", NodeKind::ND_LT),
        ("a <= b", NodeKind::ND_LE),
        ("a > b", NodeKind::ND_BT),
        ("a >= b", NodeKind::ND_BE),
    ];
    for (text, kind) in cases {
        let mut tok = reader(text);
        let node = parse_equality(&mut tok).unwrap();
        assert_eq!(node.kind, kind);
        assert_eq!(left(&node).kind, NodeKind::ND_EXPR);
        assert_eq!(right(&node).kind, NodeKind::ND_EXPR);
        assert_eq!(left(left(&node)).str, b"a".to_vec());
        assert_eq!(left(right(&node)).str, b"b".to_vec());
        assert_eq!(tok.cur, 4);
    }
}

#[test]
fn statements_are_wrapped_with_their_semicolon() {
    let mut tok = reader("int a = 3; a = 4; return a; a;");
    let decl = parse_stmt(&mut tok).unwrap();
    assert_eq!(decl.kind, NodeKind::ND_STMT);
    assert_eq!(left(&decl).kind, NodeKind::ND_DECL);
    assert_eq!(left(&decl).decl_type, Type::INT);
    assert_eq!(left(left(&decl)).str, b"a".to_vec());
    assert_eq!(tok.cur, 6);
    let assign = parse_stmt(&mut tok).unwrap();
    assert_eq!(left(&assign).kind, NodeKind::ND_ASSIGN);
    assert_eq!(left(left(&assign)).kind, NodeKind::ND_IDENT);
    let ret = parse_stmt(&mut tok).unwrap();
    assert_eq!(left(&ret).kind, NodeKind::ND_RETURN);
    let expr = parse_stmt(&mut tok).unwrap();
    assert_eq!(left(&expr).kind, NodeKind::ND_EXPR);
    assert_eq!(tok.cur_tok().kind, TokenKind::EOF);
}

#[test]
fn mistakes_in_a_statement() {
    assert_eq!(
        parse_stmt(&mut reader("a = 1 }")).unwrap_err(),
        CompileError::ParseError { pos: 7, len: 1, expected: Expected::Semicolon }
    );
    assert_eq!(
        parse_stmt(&mut reader("int 1 = 1;")).unwrap_err(),
        CompileError::ParseError { pos: 5, len: 1, expected: Expected::Identifier }
    );
    assert_eq!(
        parse_stmt(&mut reader("int a;")).unwrap_err(),
        CompileError::ParseError { pos: 6, len: 1, expected: Expected::Assign }
    );
}

#[test]
fn if_with_else_if_and_else() {
    let mut tok = reader("if (a) b; else if (c) { d; } else e;");
    let node = parse_stmts(&mut tok).unwrap();
    assert_eq!(node.kind, NodeKind::ND_IFSTMT);
    let if_node = node.if_node.as_ref().unwrap();
    assert_eq!(if_node.kind, NodeKind::ND_IF);
    assert_eq!(left(if_node).kind, NodeKind::ND_IFCOND);
    assert_eq!(right(if_node).kind, NodeKind::ND_STMT2);
    let elsif = node.elsif_node.as_ref().unwrap();
    assert_eq!(elsif.kind, NodeKind::ND_ELSIF);
    assert_eq!(left(right(elsif)).kind, NodeKind::ND_BLOCK);
    let else_node = node.else_node.as_ref().unwrap();
    assert_eq!(else_node.kind, NodeKind::ND_ELSE);
    assert_eq!(left(else_node).kind, NodeKind::ND_STMT2);
    assert_eq!(tok.cur_tok().kind, TokenKind::EOF);

    let node = parse_stmts(&mut reader("if (a) b;")).unwrap();
    assert!(node.elsif_node.is_none());
    assert!(node.else_node.is_none());
}

#[test]
fn mistakes_in_an_if() {
    assert_eq!(
        parse_stmts(&mut reader("if a) b;")).unwrap_err(),
        CompileError::ParseError { pos: 4, len: 1, expected: Expected::OpenParen }
    );
    assert_eq!(
        parse_stmts(&mut reader("if (a b;")).unwrap_err(),
        CompileError::ParseError { pos: 7, len: 1, expected: Expected::CloseParen }
    );
}

#[test]
fn for_with_an_assignment_or_an_expression_as_its_step() {
    let mut tok = reader("for (int i = 0; i < 5; i = i + 1;) a;");
    let node = parse_stmts(&mut tok).unwrap();
    assert_eq!(node.kind, NodeKind::ND_FOR);
    assert_eq!(node.for_node_first_assign.as_ref().unwrap().kind, NodeKind::ND_DECL);
    assert_eq!(node.for_node_second_condition.as_ref().unwrap().kind, NodeKind::ND_LT);
    assert_eq!(node.for_node_third_expr.as_ref().unwrap().kind, NodeKind::ND_ASSIGN);
    assert_eq!(node.for_node_stmts.as_ref().unwrap().kind, NodeKind::ND_STMT2);
    assert_eq!(tok.cur_tok().kind, TokenKind::EOF);

    let node = parse_stmts(&mut reader("for (int i = 0; i < 5; i + 1;) a;")).unwrap();
    assert_eq!(node.for_node_third_expr.as_ref().unwrap().kind, NodeKind::ND_EXPR);
}

#[test]
fn for_needs_a_declaration_and_the_semicolon_after_its_step() {
    assert_eq!(
        parse_stmts(&mut reader("for (i = 0; i < 5; i = i + 1;) a;")).unwrap_err(),
        CompileError::ParseError { pos: 6, len: 1, expected: Expected::TypeName }
    );
    assert_eq!(
        parse_stmts(&mut reader("for (int i = 0; i < 5; i = i + 1) a;")).unwrap_err(),
        CompileError::ParseError { pos: 33, len: 1, expected: Expected::Semicolon }
    );
}

#[test]
fn function_with_parameters() {
    let mut tok = reader("int add(int x, int y) { return x + y; }");
    let f = parse_function(&mut tok).unwrap();
    assert_eq!(f.fn_name, b"add".to_vec());
    assert_eq!(f.fn_args.len(), 2);
    assert_eq!(f.fn_args[0].sym, b"x".to_vec());
    assert_eq!(f.fn_args[1].sym, b"y".to_vec());
    assert_eq!(f.fn_args[1].typ, Type::INT);
    assert!(f.fn_args[1].val.is_none());
    assert_eq!(f.root_node.kind, NodeKind::ND_ROOT);
    assert_eq!(f.root_node.fn_name, b"add".to_vec());
    assert_eq!(f.root_node.fn_blocks.len(), 1);
    assert_eq!(f.lv_size, 0);
    // eight bytes for each parameter
    assert_eq!(f.fn_args_size, 16);
    assert_eq!(f.local_variable.len(), 0);
    assert_eq!(tok.cur_tok().kind, TokenKind::EOF);
}

#[test]
fn cursor_stands_at_eof_after_the_program() {
    let mut source =
        b"int add(int x, int y){ return x+y; } int main(){ return add(20, 22); }".to_vec();
    source.push(0);
    let mut tok = NewTokenReader(tokenize(source).unwrap());
    let fs = parse(&mut tok).unwrap();
    assert_eq!(fs.len(), 2);
    assert_eq!(fs[0].fn_args_size, 16);
    assert_eq!(fs[1].fn_args_size, 0);
    assert_eq!(fs[0].lv_size, 0);
    assert_eq!(tok.cur_tok().kind, TokenKind::EOF);
    assert_eq!(tok.cur, tok.tokens.len() - 1);

    let mut source = b"int main(){}".to_vec();
    source.push(0);
    let mut tok = NewTokenReader(tokenize(source).unwrap());
    parse(&mut tok).unwrap();
    assert_eq!(tok.cur_tok().kind, TokenKind::EOF);
}

#[test]
fn subtraction_groups_from_the_left_around_a_product() {
    let fs = functions("int main(){ return 8-3-2*2; }").unwrap();
    assert_eq!(fs.len(), 1);
    assert_eq!(fs[0].root_node.fn_blocks.len(), 1);
    let stmt2 = &fs[0].root_node.fn_blocks[0];
    assert_eq!(stmt2.kind, NodeKind::ND_STMT2);
    let ret = left(left(stmt2));
    assert_eq!(ret.kind, NodeKind::ND_RETURN);
    let expr = left(ret);
    assert_eq!(expr.kind, NodeKind::ND_EXPR);
    let outer = left(expr);
    assert_eq!(outer.kind, NodeKind::ND_SUB);
    assert_eq!(left(outer).kind, NodeKind::ND_SUB);
    assert_eq!(left(left(outer)).val, 8);
    assert_eq!(right(left(outer)).val, 3);
    assert_eq!(right(outer).kind, NodeKind::ND_MUL);
    assert_eq!(left(right(outer)).val, 2);
    assert_eq!(right(right(outer)).val, 2);
}

#[test]
fn mistakes_in_a_function() {
    assert_eq!(
        functions("main(){}").unwrap_err(),
        CompileError::ParseError { pos: 4, len: 4, expected: Expected::TypeName }
    );
    assert_eq!(
        functions("int (){}").unwrap_err(),
        CompileError::ParseError { pos: 5, len: 1, expected: Expected::Identifier }
    );
    assert_eq!(
        functions("int main{}").unwrap_err(),
        CompileError::ParseError { pos: 9, len: 1, expected: Expected::OpenParen }
    );
    assert_eq!(
        functions("int main() return 1;").unwrap_err(),
        CompileError::ParseError { pos: 17, len: 6, expected: Expected::OpenBrace }
    );
    assert_eq!(
        functions("int main(int a,){}").unwrap_err(),
        CompileError::ParseError { pos: 16, len: 1, expected: Expected::TypeName }
    );
    assert_eq!(
        functions("int main(int a int b){}").unwrap_err(),
        CompileError::ParseError { pos: 18, len: 3, expected: Expected::CommaOrCloseParen }
    );
}

#[test]
fn block_may_be_empty_and_must_be_closed() {
    let fs = functions("int main(){}").unwrap();
    assert_eq!(fs.len(), 1);
    assert_eq!(fs[0].root_node.fn_blocks.len(), 0);
    // at the end of the input a statement is looked for
    assert_eq!(
        functions("int main(){ a;").unwrap_err(),
        CompileError::ParseError { pos: 14, len: 1, expected: Expected::Operand }
    );
}

#[test]
fn program_is_a_list_of_functions() {
    let fs = functions("int f(){ return 1; } int g(){ return 2; } int h(){ return 3; }").unwrap();
    let names: Vec<Vec<u8>> = fs.iter().map(|f| f.fn_name.clone()).collect();
    assert_eq!(names, vec![b"f".to_vec(), b"g".to_vec(), b"h".to_vec()]);
    assert_eq!(functions("").unwrap().len(), 0);
}

#[test]
fn builders_fill_the_fields_of_their_kind() {
    let blank = Node::default();
    assert_eq!(blank.kind, NodeKind::ND_NUM);
    assert_eq!(blank.val, 0);
    assert!(blank.l.is_none() && blank.r.is_none());
    assert_eq!(blank.typ, Type::NoType);

    let mut one = Node::new(NodeKind::ND_NUM);
    one.val = 1;
    let mut two = Node::new(NodeKind::ND_NUM);
    two.val = 2;
    let sum = gen_binary_node(NodeKind::ND_ADD, one, two);
    assert_eq!(sum.kind, NodeKind::ND_ADD);
    assert_eq!(left(&sum).val, 1);
    assert_eq!(right(&sum).val, 2);
    let expr = gen_expr(sum);
    assert_eq!(expr.kind, NodeKind::ND_EXPR);
    assert_eq!(left(&expr).kind, NodeKind::ND_ADD);

    let mut tok = reader("7 x");
    assert_eq!(gen_num_node(&mut tok).unwrap().val, 7);
    assert_eq!(
        gen_num_node(&mut tok).unwrap_err(),
        CompileError::ParseError { pos: 3, len: 1, expected: Expected::Operand }
    );

    let arg = FnArgs::new_for_caller(Type::INT, Some(Box::new(Node::new(NodeKind::ND_NUM))));
    assert!(arg.sym.is_empty());
    assert!(arg.val.is_some());
    let param = FnArgs::new_for_callee(b"x".to_vec(), Type::INT);
    assert_eq!(param.sym, b"x".to_vec());
    assert!(param.val.is_none());

    let f = Function::new(Node::new(NodeKind::ND_ROOT), b"f".to_vec(), vec![param]);
    assert_eq!(f.fn_args_size, 8);
    assert_eq!(f.lv_size, 0);
    assert_eq!(Type::INT.size(), 8);
}
