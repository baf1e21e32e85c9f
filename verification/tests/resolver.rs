use rcc::errors::CompileError;
use rcc::intermediate_process::{
    blockstr_to_identid, build_block_str, fn_arg_block_str, identid_to_depth,
    intermediate_process, is_resolvable, set_block_str_and_create_localval_table,
    upper_block_ident_id, FunctionLocalVariable, Variable,
};
use rcc::parse::{parse, Function, Node, NodeKind};
use rcc::tokenize::{tokenize, NewTokenReader, Type};
use rcc::tree::{put_children, spend_on_node, take_children};

fn resolved(text: &str) -> Result<Function, CompileError> {
    let mut source = text.as_bytes().to_vec();
    source.push(0);
    let mut reader = NewTokenReader(tokenize(source).unwrap());
    let mut functions = parse(&mut reader).unwrap();
    assert_eq!(functions.len(), 1);
    let f = functions.pop().unwrap();
    assert!(is_resolvable(&f));
    set_block_str_and_create_localval_table(f)
}

/// The children that the kind of a node uses, in order.
fn children(node: &Node) -> Vec<&Node> {
    let mut out: Vec<&Node> = Vec::new();
    match node.kind {
        NodeKind::ND_NUM | NodeKind::ND_IDENT => {}
        NodeKind::ND_BLOCK => out.extend(node.block_stmts.iter()),
        NodeKind::ND_FOR => {
            out.push(node.for_node_first_assign.as_ref().unwrap());
            out.push(node.for_node_second_condition.as_ref().unwrap());
            out.push(node.for_node_third_expr.as_ref().unwrap());
            out.push(node.for_node_stmts.as_ref().unwrap());
        }
        NodeKind::ND_IFSTMT => {
            out.push(node.if_node.as_ref().unwrap());
            out.extend(node.elsif_node.iter().map(|b| &**b));
            out.extend(node.else_node.iter().map(|b| &**b));
        }
        NodeKind::ND_FNCALL => {
            out.extend(node.fn_call_args.iter().map(|a| &**a.val.as_ref().unwrap()))
        }
        NodeKind::ND_EXPR
        | NodeKind::ND_STMT
        | NodeKind::ND_RETURN
        | NodeKind::ND_IFCOND
        | NodeKind::ND_ELSE
        | NodeKind::ND_STMT2 => out.push(node.l.as_ref().unwrap()),
        _ => {
            out.push(node.l.as_ref().unwrap());
            out.push(node.r.as_ref().unwrap());
        }
    }
    out
}

fn collect<'a>(node: &'a Node, kind: NodeKind, out: &mut Vec<&'a Node>) {
    if node.kind == kind {
        out.push(node);
    }
    for child in children(node) {
        collect(child, kind, out);
    }
}

fn nodes_of(f: &Function, kind: NodeKind) -> Vec<&Node> {
    let mut out = Vec::new();
    for stmt in f.root_node.fn_blocks.iter() {
        collect(stmt, kind, &mut out);
    }
    out
}

fn labels(nodes: &[&Node]) -> Vec<String> {
    nodes.iter().map(|n| String::from_utf8(n.block_str.clone()).unwrap()).collect()
}

#[test]
fn table_gives_offsets_in_steps_of_eight() {
    let mut table = FunctionLocalVariable::new();
    assert_eq!(table.len(), 0);
    let a = table.try_new_val_offset(&b"a".to_vec(), Type::INT, &b"_1".to_vec()).unwrap();
    assert_eq!(a, Variable { typ: Type::INT, offset: 8 });
    let b = table.try_new_val_offset(&b"b".to_vec(), Type::Unknown, &b"_1".to_vec()).unwrap();
    assert_eq!(b, Variable { typ: Type::Unknown, offset: 16 });
    let inner = table.try_new_val_offset(&b"a".to_vec(), Type::INT, &b"_1_1".to_vec()).unwrap();
    assert_eq!(inner.offset, 24);
    assert_eq!(table.len(), 3);
    assert_eq!(
        table.try_new_val_offset(&b"a".to_vec(), Type::INT, &b"_1".to_vec()).unwrap_err(),
        CompileError::SymbolRedeclared
    );
    assert_eq!(table.len(), 3);

    assert_eq!(table.get_val_offset_by_identid(&b"a_1".to_vec()), Some(a));
    assert_eq!(table.get_val_offset_by_identid(&b"a_1_1".to_vec()), Some(inner));
    assert_eq!(table.get_val_offset_by_identid(&b"a_1_2".to_vec()), None);
    assert_eq!(Variable::new(8, Type::INT), a);
}

#[test]
fn lookup_goes_from_the_scope_outwards() {
    let mut table = FunctionLocalVariable::new();
    let a = table.try_new_val_offset(&b"a".to_vec(), Type::INT, &b"_1".to_vec()).unwrap();
    let inner = table.try_new_val_offset(&b"a".to_vec(), Type::INT, &b"_1_2".to_vec()).unwrap();
    let b = table.try_new_val_offset(&b"b".to_vec(), Type::INT, &b"_1_2_1".to_vec()).unwrap();

    // by symbol and label: the variable and the length of the label of its scope
    let sym = b"a".to_vec();
    assert_eq!(table.resolve(&sym, &b"_1".to_vec()), Some((a, 2)));
    assert_eq!(table.resolve(&sym, &b"_1_2".to_vec()), Some((inner, 4)));
    assert_eq!(table.resolve(&sym, &b"_1_2_1".to_vec()), Some((inner, 4)));
    assert_eq!(table.resolve(&sym, &b"_1_1_7".to_vec()), Some((a, 2)));
    assert_eq!(table.resolve(&sym, &b"_10".to_vec()), None);
    assert_eq!(table.resolve(&sym, &b"".to_vec()), None);
    assert_eq!(table.resolve(&b"b".to_vec(), &b"_1_2".to_vec()), None);
    assert_eq!(table.resolve(&b"b".to_vec(), &b"_1_2_1".to_vec()), Some((b, 6)));

    // by identity
    assert_eq!(table.get_val_offset_by_identid_recursively(&b"a_1_2_1".to_vec()), Some(inner));
    assert_eq!(table.get_val_offset_by_identid_recursively(&b"a_1_3".to_vec()), Some(a));
    assert_eq!(table.get_val_offset_by_identid_recursively(&b"b_1_2".to_vec()), None);
    assert_eq!(table.get_val_offset_by_identid_recursively(&b"a".to_vec()), None);
}

#[test]
fn identities_and_labels() {
    assert_eq!(blockstr_to_identid(&b"abc".to_vec(), &b"_1_2".to_vec()), b"abc_1_2".to_vec());
    assert_eq!(identid_to_depth(&b"abc_1_2".to_vec()), 2);
    assert_eq!(identid_to_depth(&b"abc".to_vec()), 0);
    assert_eq!(upper_block_ident_id(&b"_1_2_3".to_vec()), Some(b"_1_2".to_vec()));
    assert_eq!(upper_block_ident_id(&b"_1_2".to_vec()), Some(b"_1".to_vec()));
    assert_eq!(upper_block_ident_id(&b"_1".to_vec()), Some(b"".to_vec()));
    assert_eq!(upper_block_ident_id(&b"abc".to_vec()), None);
    assert_eq!(build_block_str(1, &vec![0, 1, 0]), b"_1".to_vec());
    assert_eq!(build_block_str(3, &vec![0, 1, 12, 3, 9]), b"_1_12_3".to_vec());
    assert_eq!(build_block_str(0, &vec![0, 1]), b"".to_vec());
    assert_eq!(fn_arg_block_str(), b"_1".to_vec());
}

#[test]
fn blocks_are_labelled_by_their_index_among_their_siblings() {
    let f = resolved(
        "int main(){ { { 1; } { 2; { 3; } { 4; } } } { 5; } if (1) { 6; } else { 7; } return 0; }",
    )
    .unwrap();
    let blocks = nodes_of(&f, NodeKind::ND_BLOCK);
    assert_eq!(
        labels(&blocks),
        vec!["_1_1", "_1_1_1", "_1_1_2", "_1_1_2_1", "_1_1_2_2", "_1_2", "_1_3", "_1_4"]
    );
}

fn check_nesting(node: &Node, enclosing: &[u8]) {
    let mut inner = enclosing.to_vec();
    if node.kind == NodeKind::ND_BLOCK {
        assert!(node.block_str.len() > enclosing.len());
        assert!(node.block_str.starts_with(enclosing));
        inner = node.block_str.clone();
    }
    for child in children(node) {
        check_nesting(child, &inner);
    }
}

#[test]
fn label_of_a_block_is_a_proper_prefix_of_the_labels_inside_it() {
    let f = resolved(
        "int main(){ { { 1; } { 2; { 3; } } } for (int i = 0; i < 3; i = i + 1;) { { 4; } } return 0; }",
    )
    .unwrap();
    for stmt in f.root_node.fn_blocks.iter() {
        check_nesting(stmt, b"_1");
    }
}

#[test]
fn declarations_carry_the_label_of_their_scope() {
    let f = resolved("int main(){ int a = 1; { int a = 2; { int b = 3; } } { int a = 4; } return a; }")
        .unwrap();
    let decls = nodes_of(&f, NodeKind::ND_DECL);
    assert_eq!(labels(&decls), vec!["_1", "_1_1", "_1_1_1", "_1_2"]);
    // one table entry for each, in order
    let table = &f.local_variable;
    assert_eq!(table.len(), 4);
    assert_eq!(table.get_val_offset_by_identid(&b"a_1".to_vec()).unwrap().offset, 8);
    assert_eq!(table.get_val_offset_by_identid(&b"a_1_1".to_vec()).unwrap().offset, 16);
    assert_eq!(table.get_val_offset_by_identid(&b"b_1_1_1".to_vec()).unwrap().offset, 24);
    assert_eq!(table.get_val_offset_by_identid(&b"a_1_2".to_vec()).unwrap().offset, 32);
    assert_eq!(table.get_val_offset_by_identid(&b"a_1".to_vec()).unwrap().typ, Type::Unknown);
}

#[test]
fn declarations_of_one_scope_differ_in_their_symbols() {
    let f = resolved("int main(){ int a = 1; int b = 2; { int a = 3; int c = 4; } return a; }")
        .unwrap();
    let decls = nodes_of(&f, NodeKind::ND_DECL);
    for (i, d1) in decls.iter().enumerate() {
        for d2 in decls[i + 1..].iter() {
            if d1.block_str == d2.block_str {
                assert_ne!(d1.l.as_ref().unwrap().str, d2.l.as_ref().unwrap().str);
            }
        }
    }
    assert_eq!(
        resolved("int main(){ { int a = 1; int a = 2; } return 0; }").unwrap_err(),
        CompileError::SymbolRedeclared
    );
    assert_eq!(
        resolved("int f(int a, int a){ return 0; }").unwrap_err(),
        CompileError::SymbolRedeclared
    );
}

#[test]
fn every_variable_is_bound_at_a_multiple_of_eight_inside_the_frame() {
    let f = resolved(
        "int f(int x, int y){ int a = x; { int b = a + y; a = b; { int a = 5; b = a; } } return a + x; }",
    )
    .unwrap();
    let idents = nodes_of(&f, NodeKind::ND_IDENT);
    assert_eq!(idents.len(), 12);
    assert_eq!(f.lv_size, 8 * 12);
    assert_eq!(f.fn_args_size, 16);
    for ident in idents.iter() {
        let (var, scope) = f.local_variable.resolve(&ident.str, &ident.block_str).unwrap();
        // it carries the label of the scope that it is found in
        assert_eq!(scope, ident.block_str.len());
        assert!(var.offset > 0);
        assert_eq!(var.offset % 8, 0);
        assert!(var.offset <= f.lv_size + f.fn_args_size);
        assert_eq!(ident.typ, Type::Unknown);
    }
    // the scopes that the uses are bound in, in source order
    assert_eq!(
        labels(&idents),
        vec!["_1", "_1", "_1_1", "_1", "_1", "_1", "_1_1", "_1_1_1", "_1_1", "_1_1_1", "_1", "_1"]
    );
    // locals first, then the parameters
    assert_eq!(f.local_variable.get_val_offset_by_identid(&b"a_1".to_vec()).unwrap().offset, 8);
    assert_eq!(f.local_variable.get_val_offset_by_identid(&b"b_1_1".to_vec()).unwrap().offset, 16);
    assert_eq!(f.local_variable.get_val_offset_by_identid(&b"a_1_1_1".to_vec()).unwrap().offset, 24);
    assert_eq!(f.local_variable.get_val_offset_by_identid(&b"x_1".to_vec()).unwrap().offset, 32);
    assert_eq!(f.local_variable.get_val_offset_by_identid(&b"y_1".to_vec()).unwrap().offset, 40);
}

#[test]
fn offset_of_a_parameter_can_pass_the_bytes_of_the_locals() {
    let f = resolved("int f(int x, int y){ return y; }").unwrap();
    assert_eq!(f.lv_size, 8);
    assert_eq!(f.fn_args_size, 16);
    let idents = nodes_of(&f, NodeKind::ND_IDENT);
    let (var, _) = f.local_variable.resolve(&idents[0].str, &idents[0].block_str).unwrap();
    assert_eq!(var.offset, 16);
}

#[test]
fn use_before_the_declaration_is_bound_to_it() {
    let f = resolved("int main(){ a = 1; int a = 2; return a; }").unwrap();
    assert_eq!(f.local_variable.len(), 1);
}

#[test]
fn variable_of_an_inner_scope_is_not_seen_outside() {
    assert_eq!(
        resolved("int main(){ { int a = 1; } return a; }").unwrap_err(),
        CompileError::UndeclaredSymbol
    );
    assert_eq!(
        resolved("int main(){ { int a = 1; } { a = 2; } return 0; }").unwrap_err(),
        CompileError::UndeclaredSymbol
    );
}

#[test]
fn node_without_a_required_child_is_an_error() {
    let mut f = Function::new(Node::new(NodeKind::ND_ROOT), b"f".to_vec(), vec![]);
    f.root_node.fn_blocks.push(Node::new(NodeKind::ND_RETURN));
    assert_eq!(
        set_block_str_and_create_localval_table(f).unwrap_err(),
        CompileError::MissingOperand
    );

    // the variable of a declaration has to be a variable
    let mut decl = Node::new(NodeKind::ND_DECL);
    decl.l = Some(Box::new(Node::new(NodeKind::ND_NUM)));
    decl.r = Some(Box::new(Node::new(NodeKind::ND_NUM)));
    let mut f = Function::new(Node::new(NodeKind::ND_ROOT), b"f".to_vec(), vec![]);
    f.root_node.fn_blocks.push(decl);
    assert_eq!(
        set_block_str_and_create_localval_table(f).unwrap_err(),
        CompileError::MissingOperand
    );
}

#[test]
fn first_error_ends_the_pass_over_the_functions() {
    let mut source = b"int f(){ return a; } int g(){ int b = 1; int b = 2; return b; }".to_vec();
    source.push(0);
    let mut reader = NewTokenReader(tokenize(source).unwrap());
    let functions = parse(&mut reader).unwrap();
    assert_eq!(intermediate_process(functions).unwrap_err(), CompileError::UndeclaredSymbol);
}

#[test]
fn node_is_taken_apart_and_put_together() {
    let mut source = b"int f(){ for (int i = 0; i < 3; i = i + 1;) { f(i, 2); } }".to_vec();
    source.push(0);
    let mut reader = NewTokenReader(tokenize(source).unwrap());
    let mut functions = parse(&mut reader).unwrap();
    let for_node = functions.pop().unwrap().root_node.fn_blocks.pop().unwrap();
    assert_eq!(for_node.kind, NodeKind::ND_FOR);
    // 26 nodes, of which the `for` is one
    assert_eq!(spend_on_node(&for_node, 100), Some(74));
    assert_eq!(spend_on_node(&for_node, 26), Some(0));
    assert_eq!(spend_on_node(&for_node, 25), None);

    let taken = take_children(for_node).unwrap();
    assert_eq!(taken.kids.len(), 4);
    assert!(taken.shell.for_node_first_assign.is_none());
    assert!(taken.shell.for_node_stmts.is_none());
    let kinds: Vec<NodeKind> = taken.kids.iter().map(|k| k.kind).collect();
    assert_eq!(
        kinds,
        vec![NodeKind::ND_DECL, NodeKind::ND_LT, NodeKind::ND_ASSIGN, NodeKind::ND_STMT2]
    );
    let again = put_children(taken.shell, taken.kids, taken.has_elsif, taken.has_else);
    assert_eq!(again.for_node_first_assign.as_ref().unwrap().kind, NodeKind::ND_DECL);
    assert_eq!(again.for_node_second_condition.as_ref().unwrap().kind, NodeKind::ND_LT);
    assert_eq!(again.for_node_third_expr.as_ref().unwrap().kind, NodeKind::ND_ASSIGN);
    assert_eq!(again.for_node_stmts.as_ref().unwrap().kind, NodeKind::ND_STMT2);
    assert_eq!(spend_on_node(&again, 26), Some(0));

    assert_eq!(
        take_children(Node::new(NodeKind::ND_ADD)).err(),
        Some(CompileError::MissingOperand)
    );
}
