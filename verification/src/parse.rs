//! The parser: from tokens to one syntax tree per function.
use vstd::prelude::*;
use crate::errors::{CompileError, Expected};
use crate::intermediate_process::{FunctionLocalVariable, Variable};
use crate::text::copy_bytes;
use crate::tokenize::{token_at, token_len, TokenKind, TokenReader, TokenView, Type};

verus! {

/// The kinds of node.
#[allow(non_camel_case_types)]
#[derive(Clone, Copy, Debug, PartialEq, Eq, Structural)]
pub enum NodeKind {
    /// The statements of a function.
    ND_ROOT,
    /// A number: `val`.
    ND_NUM,
    ND_ADD,
    ND_SUB,
    ND_MUL,
    ND_DIV,
    /// An expression: `l`.
    ND_EXPR,
    /// An assignment of `r` to the variable `l`.
    ND_ASSIGN,
    /// A variable: its name is `str`, its scope `block_str`.
    ND_IDENT,
    /// A statement with its `;`: `l`.
    ND_STMT,
    /// `return l`
    ND_RETURN,
    /// `l == r`
    ND_EQ,
    /// `l != r`
    ND_NEQ,
    /// `l > r`
    ND_BT,
    /// `l >= r`
    ND_BE,
    /// `l < r`
    ND_LT,
    /// `l <= r`
    ND_LE,
    /// `if_node`, then `elsif_node` and `else_node` where they are there.
    ND_IFSTMT,
    /// The condition `l` and the body `r` of an `if`.
    ND_IF,
    /// The body `l` of an `else`.
    ND_ELSE,
    /// The condition `l` and the body `r` of an `else if`.
    ND_ELSIF,
    /// The condition of an `if`: `l`.
    ND_IFCOND,
    /// A `for` loop: its four `for_node_` fields.
    ND_FOR,
    /// A block or a single statement: `l`.
    ND_STMT2,
    /// A call of `fn_name` with `fn_call_args`.
    ND_FNCALL,
    /// The statements between braces: `block_stmts`.
    ND_BLOCK,
    /// A declaration of the variable `l` with the value `r`.
    ND_DECL,
}

/// A parameter of a function, or an argument of a call.
#[derive(Debug)]
pub struct FnArgs {
    /// The parameter's name; empty in an argument.
    pub sym: Vec<u8>,
    pub typ: Type,
    /// The argument's value; none in a parameter.
    pub val: Option<Box<Node>>,
}

/// A node of the syntax tree. Its kind says which of the other fields it
/// uses; the rest are empty.
#[derive(Debug)]
pub struct Node {
    pub kind: NodeKind,
    pub l: Option<Box<Node>>,
    pub r: Option<Box<Node>>,
    pub val: i32,
    pub str: Vec<u8>,
    /// The type of a variable, once resolved.
    pub typ: Type,
    pub if_node: Option<Box<Node>>,
    pub elsif_node: Option<Box<Node>>,
    pub else_node: Option<Box<Node>>,
    pub for_node_first_assign: Option<Box<Node>>,
    pub for_node_second_condition: Option<Box<Node>>,
    pub for_node_third_expr: Option<Box<Node>>,
    pub for_node_stmts: Option<Box<Node>>,
    pub fn_name: Vec<u8>,
    pub fn_call_args: Vec<FnArgs>,
    pub block_stmts: Vec<Node>,
    /// The scope label of a block, of a declaration or of a variable.
    pub block_str: Vec<u8>,
    pub decl_type: Type,
    /// The statements of a function, in its root node.
    pub fn_blocks: Vec<Node>,
}

/// The mathematical view of [`FnArgs`].
pub struct FnArgsView {
    pub sym: Seq<u8>,
    pub typ: Type,
    pub val: Option<Box<NodeView>>,
}

/// The mathematical view of a [`Node`].
pub struct NodeView {
    pub kind: NodeKind,
    pub l: Option<Box<NodeView>>,
    pub r: Option<Box<NodeView>>,
    pub val: i32,
    pub str: Seq<u8>,
    pub typ: Type,
    pub if_node: Option<Box<NodeView>>,
    pub elsif_node: Option<Box<NodeView>>,
    pub else_node: Option<Box<NodeView>>,
    pub for_node_first_assign: Option<Box<NodeView>>,
    pub for_node_second_condition: Option<Box<NodeView>>,
    pub for_node_third_expr: Option<Box<NodeView>>,
    pub for_node_stmts: Option<Box<NodeView>>,
    pub fn_name: Seq<u8>,
    pub fn_call_args: Seq<FnArgsView>,
    pub block_stmts: Seq<NodeView>,
    pub block_str: Seq<u8>,
    pub decl_type: Type,
    pub fn_blocks: Seq<NodeView>,
}

/// The view of an optional child.
pub open spec fn child_view(c: Option<Box<Node>>) -> Option<Box<NodeView>>
    decreases c,
{
    match c {
        Some(b) => Some(Box::new(node_view(*b))),
        None => None,
    }
}

/// The views of a list of nodes.
pub open spec fn nodes_view(ns: Seq<Node>) -> Seq<NodeView>
    decreases ns,
{
    Seq::new(
        ns.len(),
        |i: int|
            if 0 <= i < ns.len() {
                node_view(ns[i])
            } else {
                arbitrary()
            },
    )
}

/// The view of a parameter or argument.
pub open spec fn arg_view(a: FnArgs) -> FnArgsView
    decreases a,
{
    FnArgsView { sym: a.sym@, typ: a.typ, val: child_view(a.val) }
}

/// The views of a list of parameters or arguments.
pub open spec fn args_view(args: Seq<FnArgs>) -> Seq<FnArgsView>
    decreases args,
{
    Seq::new(
        args.len(),
        |i: int|
            if 0 <= i < args.len() {
                arg_view(args[i])
            } else {
                arbitrary()
            },
    )
}

/// The view of a node: the same tree, over sequences.
pub open spec fn node_view(n: Node) -> NodeView
    decreases n,
{
    NodeView {
        kind: n.kind,
        l: child_view(n.l),
        r: child_view(n.r),
        val: n.val,
        str: n.str@,
        typ: n.typ,
        if_node: child_view(n.if_node),
        elsif_node: child_view(n.elsif_node),
        else_node: child_view(n.else_node),
        for_node_first_assign: child_view(n.for_node_first_assign),
        for_node_second_condition: child_view(n.for_node_second_condition),
        for_node_third_expr: child_view(n.for_node_third_expr),
        for_node_stmts: child_view(n.for_node_stmts),
        fn_name: n.fn_name@,
        fn_call_args: args_view(n.fn_call_args@),
        block_stmts: nodes_view(n.block_stmts@),
        block_str: n.block_str@,
        decl_type: n.decl_type,
        fn_blocks: nodes_view(n.fn_blocks@),
    }
}

impl View for FnArgs {
    type V = FnArgsView;

    open spec fn view(&self) -> FnArgsView {
        arg_view(*self)
    }
}

impl View for Node {
    type V = NodeView;

    open spec fn view(&self) -> NodeView {
        node_view(*self)
    }
}

/// The node of the given kind with every other field empty.
pub open spec fn blank_node(kind: NodeKind) -> NodeView {
    NodeView {
        kind,
        l: None,
        r: None,
        val: 0,
        str: Seq::empty(),
        typ: Type::NoType,
        if_node: None,
        elsif_node: None,
        else_node: None,
        for_node_first_assign: None,
        for_node_second_condition: None,
        for_node_third_expr: None,
        for_node_stmts: None,
        fn_name: Seq::empty(),
        fn_call_args: Seq::empty(),
        block_stmts: Seq::empty(),
        block_str: Seq::empty(),
        decl_type: Type::NoType,
        fn_blocks: Seq::empty(),
    }
}

impl Node {
    /// The node of the given kind with every other field empty.
    pub fn new(kind: NodeKind) -> (n: Node)
        ensures
            n@ == blank_node(kind),
    {
        let n = Node {
            kind,
            l: None,
            r: None,
            val: 0,
            str: Vec::new(),
            typ: Type::NoType,
            if_node: None,
            elsif_node: None,
            else_node: None,
            for_node_first_assign: None,
            for_node_second_condition: None,
            for_node_third_expr: None,
            for_node_stmts: None,
            fn_name: Vec::new(),
            fn_call_args: Vec::new(),
            block_stmts: Vec::new(),
            block_str: Vec::new(),
            decl_type: Type::NoType,
            fn_blocks: Vec::new(),
        };
        proof {
            assert(n@.fn_call_args =~= Seq::empty());
            assert(n@.block_stmts =~= Seq::empty());
            assert(n@.fn_blocks =~= Seq::empty());
        }
        n
    }
}

impl Default for Node {
    /// A number node of value 0.
    fn default() -> (n: Node)
        ensures
            n@ == blank_node(NodeKind::ND_NUM),
    {
        Node::new(NodeKind::ND_NUM)
    }
}

impl FnArgs {
    /// An argument of a call.
    pub fn new_for_caller(typ: Type, val: Option<Box<Node>>) -> (a: FnArgs)
        ensures
            a@ == (FnArgsView { sym: Seq::empty(), typ, val: child_view(val) }),
    {
        FnArgs { sym: Vec::new(), typ, val }
    }

    /// A parameter of a function.
    pub fn new_for_callee(sym: Vec<u8>, typ: Type) -> (a: FnArgs)
        ensures
            a@ == (FnArgsView { sym: sym@, typ, val: None }),
    {
        FnArgs { sym, typ, val: None }
    }
}

/// A function: its name, its parameters and its statements; once resolved,
/// also its local variables and the sizes of its frame.
#[derive(Debug)]
pub struct Function {
    pub fn_name: Vec<u8>,
    /// The root node: its `fn_blocks` are the statements of the body.
    pub root_node: Node,
    /// The bytes that the local variables take.
    pub lv_size: usize,
    pub local_variable: FunctionLocalVariable,
    pub fn_args: Vec<FnArgs>,
    /// The bytes that the parameters take.
    pub fn_args_size: usize,
}

/// The mathematical view of a [`Function`].
pub struct FunctionView {
    pub fn_name: Seq<u8>,
    pub root_node: NodeView,
    pub lv_size: usize,
    pub local_variable: Seq<(Seq<u8>, Variable)>,
    pub fn_args: Seq<FnArgsView>,
    pub fn_args_size: usize,
}

impl View for Function {
    type V = FunctionView;

    open spec fn view(&self) -> FunctionView {
        FunctionView {
            fn_name: self.fn_name@,
            root_node: self.root_node@,
            lv_size: self.lv_size,
            local_variable: self.local_variable@,
            fn_args: args_view(self.fn_args@),
            fn_args_size: self.fn_args_size,
        }
    }
}

/// The views of a list of functions.
pub open spec fn functions_view(fs: Seq<Function>) -> Seq<FunctionView> {
    fs.map_values(|f: Function| f@)
}

impl Function {
    /// The function of the given name, parameters and root node, not yet
    /// resolved: without local variables. Each parameter is an `int`.
    pub fn new(root_node: Node, fn_name: Vec<u8>, fn_args: Vec<FnArgs>) -> (f: Function)
        requires
            forall|i: int| 0 <= i < fn_args@.len() ==> (#[trigger] fn_args@[i]).typ == Type::INT,
            8 * fn_args@.len() <= usize::MAX,
        ensures
            f.local_variable.wf(),
            f@ == (FunctionView {
                fn_name: fn_name@,
                root_node: root_node@,
                lv_size: 0,
                local_variable: Seq::empty(),
                fn_args: args_view(fn_args@),
                fn_args_size: (8 * fn_args@.len()) as usize,
            }),
    {
        let mut args_size: usize = 0;
        let mut i: usize = 0;
        while i < fn_args.len()
            invariant
                i <= fn_args@.len(),
                args_size == 8 * i,
                forall|i: int| 0 <= i < fn_args@.len() ==> (#[trigger] fn_args@[i]).typ == Type::INT,
                8 * fn_args@.len() <= usize::MAX,
            decreases fn_args.len() - i,
        {
            args_size += fn_args[i].typ.size();
            i += 1;
        }
        Function {
            fn_name,
            fn_args,
            fn_args_size: args_size,
            root_node,
            lv_size: 0,
            local_variable: FunctionLocalVariable::new(),
        }
    }
}

/// The node of one child: an expression, a statement, a `return` and the
/// like.
pub open spec fn unary_node(kind: NodeKind, l: NodeView) -> NodeView {
    NodeView { l: Some(Box::new(l)), ..blank_node(kind) }
}

/// The node of two children: an operation, a comparison, an assignment, the
/// condition and body of an `if`.
pub open spec fn binary_node(kind: NodeKind, l: NodeView, r: NodeView) -> NodeView {
    NodeView { l: Some(Box::new(l)), r: Some(Box::new(r)), ..blank_node(kind) }
}

/// The node of a number.
pub open spec fn num_node(val: i32) -> NodeView {
    NodeView { val, ..blank_node(NodeKind::ND_NUM) }
}

/// The node of a variable.
pub open spec fn ident_node(name: Seq<u8>) -> NodeView {
    NodeView { str: name, ..blank_node(NodeKind::ND_IDENT) }
}

/// The node of a call.
pub open spec fn call_node(fn_name: Seq<u8>, args: Seq<FnArgsView>) -> NodeView {
    NodeView { fn_name, fn_call_args: args, ..blank_node(NodeKind::ND_FNCALL) }
}

/// The argument of a call.
pub open spec fn caller_arg(val: NodeView) -> FnArgsView {
    FnArgsView { sym: Seq::empty(), typ: Type::INT, val: Some(Box::new(val)) }
}

/// The parameter of a function.
pub open spec fn callee_arg(sym: Seq<u8>, typ: Type) -> FnArgsView {
    FnArgsView { sym, typ, val: None }
}

/// The node of a declaration.
pub open spec fn decl_node(ident: NodeView, init: NodeView, typ: Type) -> NodeView {
    NodeView {
        l: Some(Box::new(ident)),
        r: Some(Box::new(init)),
        decl_type: typ,
        ..blank_node(NodeKind::ND_DECL)
    }
}

/// The node of a block.
pub open spec fn block_node(stmts: Seq<NodeView>) -> NodeView {
    NodeView { block_stmts: stmts, ..blank_node(NodeKind::ND_BLOCK) }
}

/// The node of an `if` statement with its optional `else if` and `else`.
pub open spec fn ifstmt_node(
    if_node: NodeView,
    elsif_node: Option<NodeView>,
    else_node: Option<NodeView>,
) -> NodeView {
    NodeView {
        if_node: Some(Box::new(if_node)),
        elsif_node: match elsif_node {
            Some(n) => Some(Box::new(n)),
            None => None,
        },
        else_node: match else_node {
            Some(n) => Some(Box::new(n)),
            None => None,
        },
        ..blank_node(NodeKind::ND_IFSTMT)
    }
}

/// The node of a `for` loop.
pub open spec fn for_node(init: NodeView, cond: NodeView, step: NodeView, body: NodeView) -> NodeView {
    NodeView {
        for_node_first_assign: Some(Box::new(init)),
        for_node_second_condition: Some(Box::new(cond)),
        for_node_third_expr: Some(Box::new(step)),
        for_node_stmts: Some(Box::new(body)),
        ..blank_node(NodeKind::ND_FOR)
    }
}

/// The root node of a function.
pub open spec fn root_node(fn_name: Seq<u8>, stmts: Seq<NodeView>) -> NodeView {
    NodeView { fn_name, fn_blocks: stmts, ..blank_node(NodeKind::ND_ROOT) }
}

/// A function as the parser hands it on: not yet resolved, without local
/// variables, with eight bytes for each of its parameters.
pub open spec fn parsed_function(
    fn_name: Seq<u8>,
    fn_args: Seq<FnArgsView>,
    stmts: Seq<NodeView>,
) -> FunctionView {
    FunctionView {
        fn_name,
        root_node: root_node(fn_name, stmts),
        lv_size: 0,
        local_variable: Seq::empty(),
        fn_args,
        fn_args_size: (8 * fn_args.len()) as usize,
    }
}

/// Whether the lexeme of the token at index `i` is the single character `c`.
pub open spec fn is_punct(ts: Seq<TokenView>, i: int, c: char) -> bool {
    0 <= i < ts.len() && ts[i].char == seq![c as u8]
}

/// The error for the token at index `i`, where `expected` was looked for.
pub open spec fn unexpected(ts: Seq<TokenView>, i: int, expected: Expected) -> CompileError {
    CompileError::ParseError {
        pos: token_at(ts, i).pos,
        len: token_len(token_at(ts, i)) as usize,
        expected,
    }
}

/// The same result, with `k` more tokens counted.
pub open spec fn and_then_some<T>(r: Result<(T, nat), CompileError>, k: nat) -> Result<
    (T, nat),
    CompileError,
> {
    match r {
        Ok((x, n)) => Ok((x, n + k)),
        Err(e) => Err(e),
    }
}

/// The kind of node of a comparison operator's token, if it is one.
pub open spec fn comparison_of(kind: TokenKind) -> Option<NodeKind> {
    match kind {
        TokenKind::EQ => Some(NodeKind::ND_EQ),
        TokenKind::NEQ => Some(NodeKind::ND_NEQ),
        TokenKind::BE => Some(NodeKind::ND_BE),
        TokenKind::BT => Some(NodeKind::ND_BT),
        TokenKind::LT => Some(NodeKind::ND_LT),
        TokenKind::LE => Some(NodeKind::ND_LE),
        _ => None,
    }
}

/// How many tokens are left from index `cur` on.
pub open spec fn left(ts: Seq<TokenView>, cur: int) -> nat {
    if cur < ts.len() {
        (ts.len() - cur) as nat
    } else {
        0
    }
}

// The grammar. Each production is a function of the tokens and of the index
// `cur` of its first token. It yields the node and the number of tokens that
// the production takes after its first, or the error at the first token
// that does not fit.
//
//   unary    = NUM | IDENT | IDENT "(" (equality ("," equality)*)? ")"
//   mul_div  = unary (("*" | "/") unary)*
//   add_sub  = mul_div (("+" | "-") mul_div)*
//   expr     = add_sub
//   equality = expr (("==" | "!=" | "<=" | ">=" | "<" | ">") expr)?
//   assign   = IDENT "=" equality
//   declare  = "int" IDENT "=" equality
//   return   = "return" equality
//   stmt     = (declare | assign | return | equality) ";"
//   block    = "{" stmts* "}"
//   stmts2   = block | stmt
//   stmts    = ifstmt | forstmt | stmts2
//   ifstmt   = "if" "(" equality ")" stmts2
//              ("else if" "(" equality ")" stmts2)? ("else" stmts2)?
//   forstmt  = "for" "(" declare ";" equality ";" (assign | expr) ";" ")" stmts2
//   function = "int" IDENT "(" ("int" IDENT ("," "int" IDENT)*)? ")" block
//   program  = function*

/// `unary`: a number, a variable, or a call where `(` follows the name.
pub open spec fn unary_spec(ts: Seq<TokenView>, cur: int) -> Result<(NodeView, nat), CompileError>
    decreases left(ts, cur), 0nat,
{
    let tok = token_at(ts, cur);
    if tok.kind == TokenKind::NUM {
        Ok((num_node(tok.value), 0))
    } else if tok.kind == TokenKind::IDENT {
        if is_punct(ts, cur + 1, '(') {
            and_then_some(fn_call_spec(ts, cur + 2, tok.char), 1)
        } else {
            Ok((ident_node(tok.char), 0))
        }
    } else {
        Err(unexpected(ts, cur, Expected::Operand))
    }
}

/// The call of `fn_name` whose arguments start at `cur`, after the `(`, and
/// the number of tokens up to and with the closing `)`.
pub open spec fn fn_call_spec(ts: Seq<TokenView>, cur: int, fn_name: Seq<u8>) -> Result<
    (NodeView, nat),
    CompileError,
>
    decreases left(ts, cur), 9nat,
{
    if is_punct(ts, cur, ')') {
        Ok((call_node(fn_name, Seq::empty()), 1))
    } else {
        match call_args_spec(ts, cur, Seq::empty()) {
            Ok((args, used)) => Ok((call_node(fn_name, args), used)),
            Err(e) => Err(e),
        }
    }
}

/// The arguments of a call from the one at `cur` on, after those in `acc`,
/// and the number of tokens up to and with the closing `)`.
pub open spec fn call_args_spec(ts: Seq<TokenView>, cur: int, acc: Seq<FnArgsView>) -> Result<
    (Seq<FnArgsView>, nat),
    CompileError,
>
    decreases left(ts, cur), 8nat,
{
    match equality_spec(ts, cur) {
        Ok((val, more)) => {
            let next = cur + 1 + more;
            if is_punct(ts, next, ',') {
                and_then_some(call_args_spec(ts, next + 1, acc.push(caller_arg(val))), 2 + more)
            } else if is_punct(ts, next, ')') {
                Ok((acc.push(caller_arg(val)), 2 + more))
            } else {
                Err(unexpected(ts, next, Expected::CommaOrCloseParen))
            }
        },
        Err(e) => Err(e),
    }
}

/// The operands of `*` and `/` that follow `l`, from the operator at `cur` on,
/// and the number of tokens they take.
pub open spec fn mul_div_rest(ts: Seq<TokenView>, cur: int, l: NodeView) -> Result<
    (NodeView, nat),
    CompileError,
>
    decreases left(ts, cur), 1nat,
{
    if is_punct(ts, cur, '*') || is_punct(ts, cur, '/') {
        let kind = if is_punct(ts, cur, '*') {
            NodeKind::ND_MUL
        } else {
            NodeKind::ND_DIV
        };
        match unary_spec(ts, cur + 1) {
            Ok((r, more)) => and_then_some(
                mul_div_rest(ts, cur + 2 + more, binary_node(kind, l, r)),
                2 + more,
            ),
            Err(e) => Err(e),
        }
    } else {
        Ok((l, 0))
    }
}

/// `mul_div`: products and quotients, grouped from the left.
pub open spec fn mul_div_spec(ts: Seq<TokenView>, cur: int) -> Result<(NodeView, nat), CompileError>
    decreases left(ts, cur), 2nat,
{
    match unary_spec(ts, cur) {
        Ok((l, more)) => and_then_some(mul_div_rest(ts, cur + 1 + more, l), more),
        Err(e) => Err(e),
    }
}

/// The operands of `+` and `-` that follow `l`, from the operator at `cur` on,
/// and the number of tokens they take.
pub open spec fn add_sub_rest(ts: Seq<TokenView>, cur: int, l: NodeView) -> Result<
    (NodeView, nat),
    CompileError,
>
    decreases left(ts, cur), 3nat,
{
    if is_punct(ts, cur, '+') || is_punct(ts, cur, '-') {
        let kind = if is_punct(ts, cur, '+') {
            NodeKind::ND_ADD
        } else {
            NodeKind::ND_SUB
        };
        match mul_div_spec(ts, cur + 1) {
            Ok((r, more)) => and_then_some(
                add_sub_rest(ts, cur + 2 + more, binary_node(kind, l, r)),
                2 + more,
            ),
            Err(e) => Err(e),
        }
    } else {
        Ok((l, 0))
    }
}

/// `add_sub`: sums and differences, grouped from the left.
pub open spec fn add_sub_spec(ts: Seq<TokenView>, cur: int) -> Result<(NodeView, nat), CompileError>
    decreases left(ts, cur), 4nat,
{
    match mul_div_spec(ts, cur) {
        Ok((l, more)) => and_then_some(add_sub_rest(ts, cur + 1 + more, l), more),
        Err(e) => Err(e),
    }
}

/// `expr`: a sum, in an expression node.
pub open spec fn expr_spec(ts: Seq<TokenView>, cur: int) -> Result<(NodeView, nat), CompileError>
    decreases left(ts, cur), 5nat,
{
    match add_sub_spec(ts, cur) {
        Ok((n, more)) => Ok((unary_node(NodeKind::ND_EXPR, n), more)),
        Err(e) => Err(e),
    }
}

/// `equality`: one expression, or two around a comparison operator. Without
/// an operator it is the plain expression node.
pub open spec fn equality_spec(ts: Seq<TokenView>, cur: int) -> Result<(NodeView, nat), CompileError>
    decreases left(ts, cur), 6nat,
{
    match expr_spec(ts, cur) {
        Ok((l, more)) => {
            let next = cur + 1 + more;
            match comparison_of(token_at(ts, next).kind) {
                Some(kind) => match expr_spec(ts, next + 1) {
                    Ok((r, more2)) => Ok((binary_node(kind, l, r), more + 2 + more2)),
                    Err(e) => Err(e),
                },
                None => Ok((l, more)),
            }
        },
        Err(e) => Err(e),
    }
}

/// `assign`: a variable, `=`, and its new value.
pub open spec fn assign_spec(ts: Seq<TokenView>, cur: int) -> Result<(NodeView, nat), CompileError>
    decreases left(ts, cur), 7nat,
{
    if token_at(ts, cur).kind != TokenKind::IDENT {
        Err(unexpected(ts, cur, Expected::Identifier))
    } else if !is_punct(ts, cur + 1, '=') {
        Err(unexpected(ts, cur + 1, Expected::Assign))
    } else {
        match equality_spec(ts, cur + 2) {
            Ok((r, more)) => Ok(
                (
                    binary_node(NodeKind::ND_ASSIGN, ident_node(token_at(ts, cur).char), r),
                    2 + more,
                ),
            ),
            Err(e) => Err(e),
        }
    }
}

/// `declare`: a type, a variable, `=`, and its first value.
pub open spec fn declare_spec(ts: Seq<TokenView>, cur: int) -> Result<(NodeView, nat), CompileError>
    decreases left(ts, cur), 7nat,
{
    match token_at(ts, cur).kind {
        TokenKind::TYPE(typ) => {
            if token_at(ts, cur + 1).kind != TokenKind::IDENT {
                Err(unexpected(ts, cur + 1, Expected::Identifier))
            } else if !is_punct(ts, cur + 2, '=') {
                Err(unexpected(ts, cur + 2, Expected::Assign))
            } else {
                match equality_spec(ts, cur + 3) {
                    Ok((r, more)) => Ok(
                        (decl_node(ident_node(token_at(ts, cur + 1).char), r, typ), 3 + more),
                    ),
                    Err(e) => Err(e),
                }
            }
        },
        _ => Err(unexpected(ts, cur, Expected::TypeName)),
    }
}

/// `return`: the keyword at `cur` and the value.
pub open spec fn return_spec(ts: Seq<TokenView>, cur: int) -> Result<(NodeView, nat), CompileError>
    decreases left(ts, cur), 7nat,
{
    match equality_spec(ts, cur + 1) {
        Ok((n, more)) => Ok((unary_node(NodeKind::ND_RETURN, n), 1 + more)),
        Err(e) => Err(e),
    }
}

/// What stands before the `;` of a statement: a declaration, an assignment,
/// a `return` or an expression. An identifier followed by `=` starts an
/// assignment.
pub open spec fn simple_spec(ts: Seq<TokenView>, cur: int) -> Result<(NodeView, nat), CompileError>
    decreases left(ts, cur), 8nat,
{
    let kind = token_at(ts, cur).kind;
    if kind == TokenKind::RETURN {
        return_spec(ts, cur)
    } else if kind is TYPE {
        declare_spec(ts, cur)
    } else if kind == TokenKind::IDENT && is_punct(ts, cur + 1, '=') {
        assign_spec(ts, cur)
    } else {
        equality_spec(ts, cur)
    }
}

/// `stmt`: a declaration, an assignment, a `return` or an expression, and
/// `;`.
pub open spec fn stmt_spec(ts: Seq<TokenView>, cur: int) -> Result<(NodeView, nat), CompileError>
    decreases left(ts, cur), 9nat,
{
    match simple_spec(ts, cur) {
        Ok((n, more)) => {
            if is_punct(ts, cur + 1 + more, ';') {
                Ok((unary_node(NodeKind::ND_STMT, n), more + 1))
            } else {
                Err(unexpected(ts, cur + 1 + more, Expected::Semicolon))
            }
        },
        Err(e) => Err(e),
    }
}

/// The statements of a block from the one at `cur` on, after those in `acc`,
/// and the number of tokens up to and with the closing `}`.
pub open spec fn block_items_spec(ts: Seq<TokenView>, cur: int, acc: Seq<NodeView>) -> Result<
    (Seq<NodeView>, nat),
    CompileError,
>
    decreases left(ts, cur), 18nat,
{
    if is_punct(ts, cur, '}') {
        Ok((acc, 1))
    } else if cur >= ts.len() {
        Err(unexpected(ts, cur, Expected::Operand))
    } else {
        match stmts_spec(ts, cur) {
            Ok((n, more)) => and_then_some(
                block_items_spec(ts, cur + 1 + more, acc.push(n)),
                1 + more,
            ),
            Err(e) => Err(e),
        }
    }
}

/// `block`: statements between braces.
pub open spec fn block_spec(ts: Seq<TokenView>, cur: int) -> Result<(NodeView, nat), CompileError>
    decreases left(ts, cur), 10nat,
{
    if is_punct(ts, cur, '{') {
        match block_items_spec(ts, cur + 1, Seq::empty()) {
            Ok((stmts, used)) => Ok((block_node(stmts), used)),
            Err(e) => Err(e),
        }
    } else {
        Err(unexpected(ts, cur, Expected::OpenBrace))
    }
}

/// `stmts2`: a block or one statement.
pub open spec fn stmts2_spec(ts: Seq<TokenView>, cur: int) -> Result<(NodeView, nat), CompileError>
    decreases left(ts, cur), 11nat,
{
    let inner = if is_punct(ts, cur, '{') {
        block_spec(ts, cur)
    } else {
        stmt_spec(ts, cur)
    };
    match inner {
        Ok((n, more)) => Ok((unary_node(NodeKind::ND_STMT2, n), more)),
        Err(e) => Err(e),
    }
}

/// The condition of an `if`: an `equality`, in a node of its own.
pub open spec fn ifcond_spec(ts: Seq<TokenView>, cur: int) -> Result<(NodeView, nat), CompileError>
    decreases left(ts, cur), 7nat,
{
    match equality_spec(ts, cur) {
        Ok((n, more)) => Ok((unary_node(NodeKind::ND_IFCOND, n), more)),
        Err(e) => Err(e),
    }
}

/// The body of an `else`, in a node of its own.
pub open spec fn else_spec(ts: Seq<TokenView>, cur: int) -> Result<(NodeView, nat), CompileError>
    decreases left(ts, cur), 12nat,
{
    match stmts2_spec(ts, cur) {
        Ok((n, more)) => Ok((unary_node(NodeKind::ND_ELSE, n), more)),
        Err(e) => Err(e),
    }
}

/// The condition in parentheses and the body of an `if` or an `else if`,
/// from the `(` at `cur` on.
pub open spec fn if_spec(ts: Seq<TokenView>, cur: int, kind: NodeKind) -> Result<
    (NodeView, nat),
    CompileError,
>
    decreases left(ts, cur), 13nat,
{
    if !is_punct(ts, cur, '(') {
        Err(unexpected(ts, cur, Expected::OpenParen))
    } else {
        match ifcond_spec(ts, cur + 1) {
            Ok((cond, more)) => {
                let close = cur + 2 + more;
                if !is_punct(ts, close, ')') {
                    Err(unexpected(ts, close, Expected::CloseParen))
                } else {
                    match stmts2_spec(ts, close + 1) {
                        Ok((body, more2)) => Ok((binary_node(kind, cond, body), more + 3 + more2)),
                        Err(e) => Err(e),
                    }
                }
            },
            Err(e) => Err(e),
        }
    }
}

/// The `else if` part of an `if` statement, where the token at `cur` starts
/// one, with the number of tokens it takes.
pub open spec fn elsif_part_spec(ts: Seq<TokenView>, cur: int) -> Result<
    (Option<NodeView>, nat),
    CompileError,
>
    decreases left(ts, cur), 14nat,
{
    if token_at(ts, cur).kind == TokenKind::ELIF {
        match if_spec(ts, cur + 1, NodeKind::ND_ELSIF) {
            Ok((n, more)) => Ok((Some(n), 2 + more)),
            Err(e) => Err(e),
        }
    } else {
        Ok((None, 0))
    }
}

/// The `else` part of an `if` statement, where the token at `cur` starts
/// one, with the number of tokens it takes.
pub open spec fn else_part_spec(ts: Seq<TokenView>, cur: int) -> Result<
    (Option<NodeView>, nat),
    CompileError,
>
    decreases left(ts, cur), 14nat,
{
    if token_at(ts, cur).kind == TokenKind::ELSE {
        match else_spec(ts, cur + 1) {
            Ok((n, more)) => Ok((Some(n), 2 + more)),
            Err(e) => Err(e),
        }
    } else {
        Ok((None, 0))
    }
}

/// The rest of an `if` statement after the keyword, from the `(` at `cur`
/// on: the `if` part, then an `else if` and an `else` where they follow.
pub open spec fn ifstmt_spec(ts: Seq<TokenView>, cur: int) -> Result<(NodeView, nat), CompileError>
    decreases left(ts, cur), 15nat,
{
    match if_spec(ts, cur, NodeKind::ND_IF) {
        Ok((if_node, more)) => match elsif_part_spec(ts, cur + 1 + more) {
            Ok((elsif_node, u1)) => match else_part_spec(ts, cur + 1 + more + u1) {
                Ok((else_node, u2)) => Ok(
                    (ifstmt_node(if_node, elsif_node, else_node), more + u1 + u2),
                ),
                Err(e) => Err(e),
            },
            Err(e) => Err(e),
        },
        Err(e) => Err(e),
    }
}

/// The first clause of a `for` statement, from the `(` at `cur` on: a
/// declaration and `;`. With the number of tokens it takes.
pub open spec fn for_init_spec(ts: Seq<TokenView>, cur: int) -> Result<(NodeView, nat), CompileError>
    decreases left(ts, cur), 8nat,
{
    if !is_punct(ts, cur, '(') {
        Err(unexpected(ts, cur, Expected::OpenParen))
    } else {
        match declare_spec(ts, cur + 1) {
            Ok((init, more)) => if is_punct(ts, cur + 2 + more, ';') {
                Ok((init, more + 3))
            } else {
                Err(unexpected(ts, cur + 2 + more, Expected::Semicolon))
            },
            Err(e) => Err(e),
        }
    }
}

/// The second clause of a `for` statement: a condition and `;`. With the
/// number of tokens it takes.
pub open spec fn for_cond_spec(ts: Seq<TokenView>, cur: int) -> Result<(NodeView, nat), CompileError>
    decreases left(ts, cur), 8nat,
{
    match equality_spec(ts, cur) {
        Ok((cond, more)) => if is_punct(ts, cur + 1 + more, ';') {
            Ok((cond, more + 2))
        } else {
            Err(unexpected(ts, cur + 1 + more, Expected::Semicolon))
        },
        Err(e) => Err(e),
    }
}

/// The third clause of a `for` statement: an assignment where `=` is its
/// second token, and else an expression; then `;` and `)`. With the number of
/// tokens it takes.
pub open spec fn for_step_spec(ts: Seq<TokenView>, cur: int) -> Result<(NodeView, nat), CompileError>
    decreases left(ts, cur), 8nat,
{
    let third = if is_punct(ts, cur + 1, '=') {
        assign_spec(ts, cur)
    } else {
        expr_spec(ts, cur)
    };
    match third {
        Ok((step, more)) => if !is_punct(ts, cur + 1 + more, ';') {
            Err(unexpected(ts, cur + 1 + more, Expected::Semicolon))
        } else if !is_punct(ts, cur + 2 + more, ')') {
            Err(unexpected(ts, cur + 2 + more, Expected::CloseParen))
        } else {
            Ok((step, more + 3))
        },
        Err(e) => Err(e),
    }
}

/// The rest of a `for` statement after the keyword, from the `(` at `cur`
/// on: the three clauses and the body.
pub open spec fn forstmt_spec(ts: Seq<TokenView>, cur: int) -> Result<(NodeView, nat), CompileError>
    decreases left(ts, cur), 15nat,
{
    match for_init_spec(ts, cur) {
        Ok((init, u1)) => match for_cond_spec(ts, cur + u1) {
            Ok((cond, u2)) => match for_step_spec(ts, cur + u1 + u2) {
                Ok((step, u3)) => match stmts2_spec(ts, cur + u1 + u2 + u3) {
                    Ok((body, more)) => Ok(
                        (for_node(init, cond, step, body), u1 + u2 + u3 + more),
                    ),
                    Err(e) => Err(e),
                },
                Err(e) => Err(e),
            },
            Err(e) => Err(e),
        },
        Err(e) => Err(e),
    }
}

/// `stmts`: an `if` statement, a `for` statement, or a block or statement.
pub open spec fn stmts_spec(ts: Seq<TokenView>, cur: int) -> Result<(NodeView, nat), CompileError>
    decreases left(ts, cur), 17nat,
{
    let kind = token_at(ts, cur).kind;
    if kind == TokenKind::IF {
        and_then_some(ifstmt_spec(ts, cur + 1), 1)
    } else if kind == TokenKind::FOR {
        and_then_some(forstmt_spec(ts, cur + 1), 1)
    } else {
        stmts2_spec(ts, cur)
    }
}

/// The parameters of a function from the one at `cur` on, after those in
/// `acc`, and the number of tokens up to and with the closing `)`. Each
/// parameter is an `int`.
pub open spec fn params_spec(ts: Seq<TokenView>, cur: int, acc: Seq<FnArgsView>) -> Result<
    (Seq<FnArgsView>, nat),
    CompileError,
>
    decreases left(ts, cur),
{
    if token_at(ts, cur).kind != TokenKind::TYPE(Type::INT) {
        Err(unexpected(ts, cur, Expected::TypeName))
    } else if token_at(ts, cur + 1).kind != TokenKind::IDENT {
        Err(unexpected(ts, cur + 1, Expected::Identifier))
    } else {
        let all = acc.push(callee_arg(token_at(ts, cur + 1).char, Type::INT));
        if is_punct(ts, cur + 2, ',') {
            and_then_some(params_spec(ts, cur + 3, all), 3)
        } else if is_punct(ts, cur + 2, ')') {
            Ok((all, 3))
        } else {
            Err(unexpected(ts, cur + 2, Expected::CommaOrCloseParen))
        }
    }
}

/// The parameters of a function from the token after `(` on, and the number
/// of tokens up to and with the closing `)`.
pub open spec fn param_list_spec(ts: Seq<TokenView>, cur: int) -> Result<
    (Seq<FnArgsView>, nat),
    CompileError,
> {
    if is_punct(ts, cur, ')') {
        Ok((Seq::empty(), 1))
    } else {
        params_spec(ts, cur, Seq::empty())
    }
}

/// `function`: the return type, the name, the parameters in parentheses, and
/// the body.
pub open spec fn function_spec(ts: Seq<TokenView>, cur: int) -> Result<
    (FunctionView, nat),
    CompileError,
> {
    if !(token_at(ts, cur).kind is TYPE) {
        Err(unexpected(ts, cur, Expected::TypeName))
    } else if token_at(ts, cur + 1).kind != TokenKind::IDENT {
        Err(unexpected(ts, cur + 1, Expected::Identifier))
    } else if !is_punct(ts, cur + 2, '(') {
        Err(unexpected(ts, cur + 2, Expected::OpenParen))
    } else {
        match param_list_spec(ts, cur + 3) {
            Ok((fn_args, used)) => match block_spec(ts, cur + 3 + used) {
                Ok((block, more)) => Ok(
                    (
                        parsed_function(token_at(ts, cur + 1).char, fn_args, block.block_stmts),
                        3 + used + more,
                    ),
                ),
                Err(e) => Err(e),
            },
            Err(e) => Err(e),
        }
    }
}

/// `program`: the functions from the one at `cur` on, after those in `acc`,
/// up to `EOF` or the end of the tokens; with the index at which the `EOF`
/// stands.
pub open spec fn program_spec(ts: Seq<TokenView>, cur: int, acc: Seq<FunctionView>) -> Result<
    (Seq<FunctionView>, int),
    CompileError,
>
    decreases left(ts, cur),
{
    if token_at(ts, cur).kind == TokenKind::EOF {
        Ok((acc, cur))
    } else {
        match function_spec(ts, cur) {
            Ok((f, more)) => program_spec(ts, cur + 1 + more, acc.push(f)),
            Err(e) => Err(e),
        }
    }
}

/// The functions of a token stream read from index `cur` on: the sentinel
/// `INI` stands there, and the functions follow it. With the index of the
/// `EOF` after the last function.
pub open spec fn parse_spec(ts: Seq<TokenView>, cur: int) -> Result<
    (Seq<FunctionView>, int),
    CompileError,
> {
    if token_at(ts, cur).kind != TokenKind::INI {
        Err(unexpected(ts, cur, Expected::Initial))
    } else {
        program_spec(ts, cur + 1, Seq::empty())
    }
}

/// Whether a parser that started at token `before` did what `want` asks
/// for, and stands at token `after`.
pub open spec fn parsed(
    want: Result<(NodeView, nat), CompileError>,
    r: Result<Node, CompileError>,
    before: int,
    after: int,
) -> bool {
    match want {
        Ok((n, more)) => r is Ok && r->Ok_0@ == n && after == before + 1 + more,
        Err(e) => r is Err && r->Err_0 == e,
    }
}

/// Counting `a` more tokens and then `b` more is counting `a + b` more.
pub proof fn lemma_and_then_some_twice<T>(r: Result<(T, nat), CompileError>, a: nat, b: nat)
    ensures
        and_then_some(and_then_some(r, a), b) == and_then_some(r, a + b),
{
}

/// The views of a list of nodes with one more node.
pub proof fn lemma_nodes_view_push(ns: Seq<Node>, n: Node)
    ensures
        nodes_view(ns.push(n)) == nodes_view(ns).push(n@),
{
    assert(nodes_view(ns.push(n)) =~= nodes_view(ns).push(n@));
}

/// The views of a list of parameters or arguments with one more.
pub proof fn lemma_args_view_push(args: Seq<FnArgs>, a: FnArgs)
    ensures
        args_view(args.push(a)) == args_view(args).push(a@),
{
    assert(args_view(args.push(a)) =~= args_view(args).push(a@));
}

/// The error for the token `offset` tokens after the cursor.
fn unexpected_at(tok: &TokenReader, offset: usize, expected: Expected) -> (e: CompileError)
    ensures
        e == unexpected(tok@, tok.cur + offset, expected),
        tok@.len() == tok.tokens.len(),
{
    if tok.cur < tok.tokens.len() && offset < tok.tokens.len() - tok.cur {
        let t = &tok.tokens[tok.cur + offset];
        CompileError::ParseError { pos: t.pos, len: t.len(), expected }
    } else {
        CompileError::ParseError { pos: 0, len: 0, expected }
    }
}

/// Whether the lexeme of the token `offset` tokens after the cursor is the
/// single byte `b`.
fn punct_at(tok: &TokenReader, offset: usize, b: u8) -> (r: bool)
    ensures
        r == (0 <= tok.cur + offset < tok@.len() && tok@[tok.cur + offset].char == seq![b]),
        r ==> tok.cur + offset < tok.tokens.len(),
        tok@.len() == tok.tokens.len(),
{
    let r = tok.is_at(offset, b);
    assert(Seq::<u8>::empty().len() != seq![b].len());
    r
}

/// An expression node around `expr_node`.
pub fn gen_expr(expr_node: Node) -> (n: Node)
    ensures
        n@ == unary_node(NodeKind::ND_EXPR, expr_node@),
{
    let mut node = Node::new(NodeKind::ND_EXPR);
    node.l = Some(Box::new(expr_node));
    node
}

/// The node of the number under the cursor; the cursor moves past it.
pub fn gen_num_node(tok: &mut TokenReader) -> (r: Result<Node, CompileError>)
    ensures
        final(tok).tokens == old(tok).tokens,
        token_at(old(tok)@, old(tok).cur as int).kind == TokenKind::NUM ==> r is Ok && r->Ok_0@
            == num_node(token_at(old(tok)@, old(tok).cur as int).value) && final(tok).cur == old(tok).cur + 1,
        token_at(old(tok)@, old(tok).cur as int).kind != TokenKind::NUM ==> r is Err && r->Err_0
            == unexpected(old(tok)@, old(tok).cur as int, Expected::Operand),
{
    if tok.kind_at(0) == TokenKind::NUM {
        let mut node = Node::new(NodeKind::ND_NUM);
        node.val = tok.tokens[tok.cur].value;
        tok.next();
        Ok(node)
    } else {
        Err(unexpected_at(tok, 0, Expected::Operand))
    }
}

/// A statement node around `node`; the cursor moves past the `;` under it.
pub fn gen_stmt(tok: &mut TokenReader, node: Node) -> (n: Node)
    requires
        old(tok).cur < usize::MAX,
    ensures
        final(tok).tokens == old(tok).tokens,
        final(tok).cur == old(tok).cur + 1,
        n@ == unary_node(NodeKind::ND_STMT, node@),
{
    let mut n = Node::new(NodeKind::ND_STMT);
    n.l = Some(Box::new(node));
    tok.next();
    n
}

/// The node of the variable named by the token under the cursor; the cursor
/// moves past it.
pub fn gen_ident_node(tok: &mut TokenReader) -> (n: Node)
    requires
        old(tok).cur < old(tok).tokens.len(),
    ensures
        final(tok).tokens == old(tok).tokens,
        final(tok).cur == old(tok).cur + 1,
        n@ == ident_node(old(tok)@[old(tok).cur as int].char),
{
    let mut node = Node::new(NodeKind::ND_IDENT);
    node.str = copy_bytes(&tok.tokens[tok.cur].char);
    tok.next();
    node
}

/// The node of a comparison.
pub fn gen_equality_node(nodekind: NodeKind, l: Node, r: Node) -> (n: Node)
    ensures
        n@ == binary_node(nodekind, l@, r@),
{
    gen_binary_node(nodekind, l, r)
}

/// The node of a `return`.
pub fn gen_return_node(ret_stmt: Node) -> (n: Node)
    ensures
        n@ == unary_node(NodeKind::ND_RETURN, ret_stmt@),
{
    let mut node = Node::new(NodeKind::ND_RETURN);
    node.l = Some(Box::new(ret_stmt));
    node
}

/// The node of two children.
pub fn gen_binary_node(kind: NodeKind, l: Node, r: Node) -> (n: Node)
    ensures
        n@ == binary_node(kind, l@, r@),
{
    let mut node = Node::new(kind);
    node.l = Some(Box::new(l));
    node.r = Some(Box::new(r));
    node
}

/// The node of the condition `l` and the body `r` of an `if`.
pub fn gen_if_node(l: Node, r: Node) -> (n: Node)
    ensures
        n@ == binary_node(NodeKind::ND_IF, l@, r@),
{
    gen_binary_node(NodeKind::ND_IF, l, r)
}

/// The node of the condition `l` and the body `r` of an `else if`.
pub fn gen_elsif_node(l: Node, r: Node) -> (n: Node)
    ensures
        n@ == binary_node(NodeKind::ND_ELSIF, l@, r@),
{
    gen_binary_node(NodeKind::ND_ELSIF, l, r)
}

/// The node of a call.
pub fn gen_fn_call_node(fn_name: Vec<u8>, fn_call_args: Vec<FnArgs>) -> (n: Node)
    ensures
        n@ == call_node(fn_name@, args_view(fn_call_args@)),
{
    let mut node = Node::new(NodeKind::ND_FNCALL);
    node.fn_name = fn_name;
    node.fn_call_args = fn_call_args;
    node
}

/// The node of the condition of an `if`.
pub fn gen_ifcond(node: Node) -> (n: Node)
    ensures
        n@ == unary_node(NodeKind::ND_IFCOND, node@),
{
    let mut n = Node::new(NodeKind::ND_IFCOND);
    n.l = Some(Box::new(node));
    n
}

/// The node of the body of an `else`.
pub fn gen_else(node: Node) -> (n: Node)
    ensures
        n@ == unary_node(NodeKind::ND_ELSE, node@),
{
    let mut n = Node::new(NodeKind::ND_ELSE);
    n.l = Some(Box::new(node));
    n
}

/// The view of an optional node.
pub open spec fn option_view(n: Option<Node>) -> Option<NodeView> {
    match n {
        Some(n) => Some(n@),
        None => None,
    }
}

/// The node of an `if` statement with its optional `else if` and `else`.
pub fn gen_ifstmt_node(if_node: Node, elsif_node: Option<Node>, else_node: Option<Node>) -> (n:
    Node)
    ensures
        n@ == ifstmt_node(if_node@, option_view(elsif_node), option_view(else_node)),
{
    let mut node = Node::new(NodeKind::ND_IFSTMT);
    node.if_node = Some(Box::new(if_node));
    node.elsif_node =
    match elsif_node {
        Some(n) => Some(Box::new(n)),
        None => None,
    };
    node.else_node =
    match else_node {
        Some(n) => Some(Box::new(n)),
        None => None,
    };
    node
}

/// Parses one argument of a call and the `,` or `)` after it, and adds the
/// argument to `args`. Says whether it was a `,`.
fn parse_call_arg(tok: &mut TokenReader, args: &mut Vec<FnArgs>) -> (r: Result<bool, CompileError>)
    ensures
        final(tok).tokens == old(tok).tokens,
        match equality_spec(old(tok)@, old(tok).cur as int) {
            Ok((val, more)) => {
                let next = old(tok).cur + 1 + more;
                if is_punct(old(tok)@, next, ',') || is_punct(old(tok)@, next, ')') {
                    &&& r == Ok::<bool, CompileError>(is_punct(old(tok)@, next, ','))
                    &&& args_view(final(args)@) == args_view(old(args)@).push(caller_arg(val))
                    &&& final(tok).cur == next + 1
                } else {
                    r == Err::<bool, CompileError>(
                        unexpected(old(tok)@, next, Expected::CommaOrCloseParen),
                    )
                }
            },
            Err(e) => r == Err::<bool, CompileError>(e),
        },
    decreases left(old(tok)@, old(tok).cur as int), 7nat,
{
    let val =
    match parse_equality(tok) {
        Ok(val) => val,
        Err(e) => {
            return Err(e);
        },
    };
    let go_on = punct_at(tok, 0, ',' as u8);
    if !go_on && !punct_at(tok, 0, ')' as u8) {
        return Err(unexpected_at(tok, 0, Expected::CommaOrCloseParen));
    }
    let arg = FnArgs::new_for_caller(Type::INT, Some(Box::new(val)));
    proof {
        lemma_args_view_push(args@, arg);
    }
    args.push(arg);
    tok.next();
    Ok(go_on)
}

/// Parses the arguments of a call of `fn_name`, from the token after `(` up
/// to and with the closing `)`.
pub fn parse_fn_call(tok: &mut TokenReader, fn_name: Vec<u8>) -> (r: Result<Node, CompileError>)
    ensures
        final(tok).tokens == old(tok).tokens,
        parsed_clause(
            fn_call_spec(old(tok)@, old(tok).cur as int, fn_name@),
            r,
            old(tok).cur as int,
            final(tok).cur as int,
        ),
    decreases left(old(tok)@, old(tok).cur as int), 9nat,
{
    let mut args: Vec<FnArgs> = Vec::new();
    assert(args_view(args@) =~= Seq::empty());
    if punct_at(tok, 0, ')' as u8) {
        tok.next();
        return Ok(gen_fn_call_node(fn_name, args));
    }
    let ghost ts = tok@;
    let ghost start = tok.cur as int;
    let ghost want = call_args_spec(ts, start, Seq::empty());
    loop
        invariant
            tok.tokens == old(tok).tokens,
            ts == tok@,
            start == old(tok).cur,
            start <= tok.cur,
            !is_punct(ts, start, ')'),
            want == call_args_spec(ts, start, Seq::empty()),
            want == and_then_some(
                call_args_spec(ts, tok.cur as int, args_view(args@)),
                (tok.cur - start) as nat,
            ),
        decreases left(ts, tok.cur as int),
    {
        let ghost cur = tok.cur as int;
        match parse_call_arg(tok, &mut args) {
            Ok(go_on) => {
                if !go_on {
                    return Ok(gen_fn_call_node(fn_name, args));
                }
                proof {
                    lemma_and_then_some_twice(
                        call_args_spec(ts, tok.cur as int, args_view(args@)),
                        (tok.cur - cur) as nat,
                        (cur - start) as nat,
                    );
                }
            },
            Err(e) => {
                return Err(e);
            },
        }
    }
}

/// Parses `unary`.
pub fn parse_unary(tok: &mut TokenReader) -> (r: Result<Node, CompileError>)
    ensures
        final(tok).tokens == old(tok).tokens,
        parsed(unary_spec(old(tok)@, old(tok).cur as int), r, old(tok).cur as int, final(tok).cur as int),
    decreases left(old(tok)@, old(tok).cur as int), 0nat,
{
    let kind = tok.kind_at(0);
    if kind == TokenKind::NUM {
        gen_num_node(tok)
    } else if kind == TokenKind::IDENT {
        if punct_at(tok, 1, '(' as u8) {
            let fn_name = copy_bytes(&tok.tokens[tok.cur].char);
            tok.next_nth_tok(2);
            parse_fn_call(tok, fn_name)
        } else {
            Ok(gen_ident_node(tok))
        }
    } else {
        Err(unexpected_at(tok, 0, Expected::Operand))
    }
}

/// Parses `mul_div`.
pub fn parse_mul_div(tok: &mut TokenReader) -> (r: Result<Node, CompileError>)
    ensures
        final(tok).tokens == old(tok).tokens,
        parsed(mul_div_spec(old(tok)@, old(tok).cur as int), r, old(tok).cur as int, final(tok).cur as int),
    decreases left(old(tok)@, old(tok).cur as int), 2nat,
{
    let ghost ts = tok@;
    let mut node =
    match parse_unary(tok) {
        Ok(n) => n,
        Err(e) => {
            return Err(e);
        },
    };
    let ghost begin = old(tok).cur as int;
    let ghost want = mul_div_spec(ts, begin);
    loop
        invariant
            tok.tokens == old(tok).tokens,
            ts == tok@,
            ts.len() == tok.tokens.len(),
            begin == old(tok).cur,
            begin < tok.cur,
            want == mul_div_spec(ts, begin),
            want == and_then_some(
                mul_div_rest(ts, tok.cur as int, node@),
                (tok.cur - begin - 1) as nat,
            ),
        decreases left(ts, tok.cur as int),
    {
        let ghost cur = tok.cur as int;
        let kind = if punct_at(tok, 0, '*' as u8) {
            NodeKind::ND_MUL
        } else if punct_at(tok, 0, '/' as u8) {
            NodeKind::ND_DIV
        } else {
            return Ok(node);
        };
        tok.next();
        let rhs =
        match parse_unary(tok) {
            Ok(n) => n,
            Err(e) => {
                return Err(e);
            },
        };
        node = gen_binary_node(kind, node, rhs);
        proof {
            lemma_and_then_some_twice(
                mul_div_rest(ts, tok.cur as int, node@),
                (tok.cur - cur) as nat,
                (cur - begin - 1) as nat,
            );
        }
    }
}

/// Parses `add_sub`.
pub fn parse_add_sub(tok: &mut TokenReader) -> (r: Result<Node, CompileError>)
    ensures
        final(tok).tokens == old(tok).tokens,
        parsed(add_sub_spec(old(tok)@, old(tok).cur as int), r, old(tok).cur as int, final(tok).cur as int),
    decreases left(old(tok)@, old(tok).cur as int), 4nat,
{
    let ghost ts = tok@;
    let mut node =
    match parse_mul_div(tok) {
        Ok(n) => n,
        Err(e) => {
            return Err(e);
        },
    };
    let ghost begin = old(tok).cur as int;
    let ghost want = add_sub_spec(ts, begin);
    loop
        invariant
            tok.tokens == old(tok).tokens,
            ts == tok@,
            ts.len() == tok.tokens.len(),
            begin == old(tok).cur,
            begin < tok.cur,
            want == add_sub_spec(ts, begin),
            want == and_then_some(
                add_sub_rest(ts, tok.cur as int, node@),
                (tok.cur - begin - 1) as nat,
            ),
        decreases left(ts, tok.cur as int),
    {
        let ghost cur = tok.cur as int;
        let kind = if punct_at(tok, 0, '+' as u8) {
            NodeKind::ND_ADD
        } else if punct_at(tok, 0, '-' as u8) {
            NodeKind::ND_SUB
        } else {
            return Ok(node);
        };
        tok.next();
        let rhs =
        match parse_mul_div(tok) {
            Ok(n) => n,
            Err(e) => {
                return Err(e);
            },
        };
        node = gen_binary_node(kind, node, rhs);
        proof {
            lemma_and_then_some_twice(
                add_sub_rest(ts, tok.cur as int, node@),
                (tok.cur - cur) as nat,
                (cur - begin - 1) as nat,
            );
        }
    }
}

/// Parses `expr`.
pub fn parse_expr(tok: &mut TokenReader) -> (r: Result<Node, CompileError>)
    ensures
        final(tok).tokens == old(tok).tokens,
        parsed(expr_spec(old(tok)@, old(tok).cur as int), r, old(tok).cur as int, final(tok).cur as int),
    decreases left(old(tok)@, old(tok).cur as int), 5nat,
{
    match parse_add_sub(tok) {
        Ok(n) => Ok(gen_expr(n)),
        Err(e) => Err(e),
    }
}

/// The kind of node of a comparison operator's token, if it is one.
fn comparison_kind(kind: TokenKind) -> (r: Option<NodeKind>)
    ensures
        r == comparison_of(kind),
{
    match kind {
        TokenKind::EQ => Some(NodeKind::ND_EQ),
        TokenKind::NEQ => Some(NodeKind::ND_NEQ),
        TokenKind::BE => Some(NodeKind::ND_BE),
        TokenKind::BT => Some(NodeKind::ND_BT),
        TokenKind::LT => Some(NodeKind::ND_LT),
        TokenKind::LE => Some(NodeKind::ND_LE),
        _ => None,
    }
}

/// Parses `equality`.
pub fn parse_equality(tok: &mut TokenReader) -> (r: Result<Node, CompileError>)
    ensures
        final(tok).tokens == old(tok).tokens,
        parsed(equality_spec(old(tok)@, old(tok).cur as int), r, old(tok).cur as int, final(tok).cur as int),
    decreases left(old(tok)@, old(tok).cur as int), 6nat,
{
    let l =
    match parse_expr(tok) {
        Ok(n) => n,
        Err(e) => {
            return Err(e);
        },
    };
    match comparison_kind(tok.kind_at(0)) {
        Some(kind) => {
            tok.next();
            match parse_expr(tok) {
                Ok(r) => Ok(gen_equality_node(kind, l, r)),
                Err(e) => Err(e),
            }
        },
        None => Ok(l),
    }
}

/// Parses `assign`.
pub fn parse_assign(tok: &mut TokenReader) -> (r: Result<Node, CompileError>)
    ensures
        final(tok).tokens == old(tok).tokens,
        parsed(assign_spec(old(tok)@, old(tok).cur as int), r, old(tok).cur as int, final(tok).cur as int),
    decreases left(old(tok)@, old(tok).cur as int), 7nat,
{
    if tok.kind_at(0) != TokenKind::IDENT {
        return Err(unexpected_at(tok, 0, Expected::Identifier));
    }
    if !punct_at(tok, 1, '=' as u8) {
        return Err(unexpected_at(tok, 1, Expected::Assign));
    }
    let ident = gen_ident_node(tok);
    tok.next();
    match parse_equality(tok) {
        Ok(r) => Ok(gen_binary_node(NodeKind::ND_ASSIGN, ident, r)),
        Err(e) => Err(e),
    }
}

/// Parses `declare`.
pub fn parse_declare(tok: &mut TokenReader) -> (r: Result<Node, CompileError>)
    ensures
        final(tok).tokens == old(tok).tokens,
        parsed(declare_spec(old(tok)@, old(tok).cur as int), r, old(tok).cur as int, final(tok).cur as int),
    decreases left(old(tok)@, old(tok).cur as int), 7nat,
{
    let t =
    match tok.kind_at(0) {
        TokenKind::TYPE(t) => t,
        _ => {
            return Err(unexpected_at(tok, 0, Expected::TypeName));
        },
    };
    if tok.kind_at(1) != TokenKind::IDENT {
        return Err(unexpected_at(tok, 1, Expected::Identifier));
    }
    if !punct_at(tok, 2, '=' as u8) {
        return Err(unexpected_at(tok, 2, Expected::Assign));
    }
    tok.next();
    let ident = gen_ident_node(tok);
    tok.next();
    match parse_equality(tok) {
        Ok(init) => {
            let mut node = gen_binary_node(NodeKind::ND_DECL, ident, init);
            node.decl_type = t;
            Ok(node)
        },
        Err(e) => Err(e),
    }
}

/// Parses `return`, from the keyword on.
pub fn parse_return(tok: &mut TokenReader) -> (r: Result<Node, CompileError>)
    requires
        old(tok).cur < old(tok).tokens.len(),
        token_at(old(tok)@, old(tok).cur as int).kind == TokenKind::RETURN,
    ensures
        final(tok).tokens == old(tok).tokens,
        parsed(return_spec(old(tok)@, old(tok).cur as int), r, old(tok).cur as int, final(tok).cur as int),
    decreases left(old(tok)@, old(tok).cur as int), 7nat,
{
    tok.next();
    match parse_equality(tok) {
        Ok(n) => Ok(gen_return_node(n)),
        Err(e) => Err(e),
    }
}

/// Parses what stands before the `;` of a statement.
fn parse_simple(tok: &mut TokenReader) -> (r: Result<Node, CompileError>)
    ensures
        final(tok).tokens == old(tok).tokens,
        parsed(
            simple_spec(old(tok)@, old(tok).cur as int),
            r,
            old(tok).cur as int,
            final(tok).cur as int,
        ),
    decreases left(old(tok)@, old(tok).cur as int), 8nat,
{
    match tok.kind_at(0) {
        TokenKind::RETURN => parse_return(tok),
        TokenKind::TYPE(_) => parse_declare(tok),
        TokenKind::IDENT => {
            if punct_at(tok, 1, '=' as u8) {
                parse_assign(tok)
            } else {
                parse_equality(tok)
            }
        },
        _ => parse_equality(tok),
    }
}

/// Parses `stmt`.
pub fn parse_stmt(tok: &mut TokenReader) -> (r: Result<Node, CompileError>)
    ensures
        final(tok).tokens == old(tok).tokens,
        parsed(stmt_spec(old(tok)@, old(tok).cur as int), r, old(tok).cur as int, final(tok).cur as int),
    decreases left(old(tok)@, old(tok).cur as int), 9nat,
{
    match parse_simple(tok) {
        Ok(node) => {
            if punct_at(tok, 0, ';' as u8) {
                Ok(gen_stmt(tok, node))
            } else {
                Err(unexpected_at(tok, 0, Expected::Semicolon))
            }
        },
        Err(e) => Err(e),
    }
}

/// Parses `block`, from the `{` on.
pub fn parse_block(tok: &mut TokenReader) -> (r: Result<Node, CompileError>)
    ensures
        final(tok).tokens == old(tok).tokens,
        parsed(block_spec(old(tok)@, old(tok).cur as int), r, old(tok).cur as int, final(tok).cur as int),
    decreases left(old(tok)@, old(tok).cur as int), 10nat,
{
    if !punct_at(tok, 0, '{' as u8) {
        return Err(unexpected_at(tok, 0, Expected::OpenBrace));
    }
    tok.next();
    let mut stmts: Vec<Node> = Vec::new();
    let ghost ts = tok@;
    let ghost start = tok.cur as int;
    let ghost want = block_items_spec(ts, start, Seq::empty());
    assert(nodes_view(stmts@) =~= Seq::empty());
    loop
        invariant
            tok.tokens == old(tok).tokens,
            ts == tok@,
            start == old(tok).cur + 1,
            start <= tok.cur,
            ts.len() == tok.tokens.len(),
            is_punct(ts, start - 1, '{'),
            want == block_items_spec(ts, start, Seq::empty()),
            want == and_then_some(
                block_items_spec(ts, tok.cur as int, nodes_view(stmts@)),
                (tok.cur - start) as nat,
            ),
        decreases left(ts, tok.cur as int),
    {
        let ghost cur = tok.cur as int;
        if punct_at(tok, 0, '}' as u8) {
            tok.next();
            let mut node = Node::new(NodeKind::ND_BLOCK);
            node.block_stmts = stmts;
            return Ok(node);
        }
        if tok.cur >= tok.tokens.len() {
            return Err(unexpected_at(tok, 0, Expected::Operand));
        }
        let node =
        match parse_stmts(tok) {
            Ok(n) => n,
            Err(e) => {
                return Err(e);
            },
        };
        proof {
            lemma_nodes_view_push(stmts@, node);
        }
        stmts.push(node);
        proof {
            lemma_and_then_some_twice(
                block_items_spec(ts, tok.cur as int, nodes_view(stmts@)),
                (tok.cur - cur) as nat,
                (cur - start) as nat,
            );
        }
    }
}

/// Parses `stmts2`.
pub fn parse_stmts2(tok: &mut TokenReader) -> (r: Result<Node, CompileError>)
    ensures
        final(tok).tokens == old(tok).tokens,
        parsed(stmts2_spec(old(tok)@, old(tok).cur as int), r, old(tok).cur as int, final(tok).cur as int),
    decreases left(old(tok)@, old(tok).cur as int), 11nat,
{
    let inner = if punct_at(tok, 0, '{' as u8) {
        parse_block(tok)
    } else {
        parse_stmt(tok)
    };
    match inner {
        Ok(n) => {
            let mut node = Node::new(NodeKind::ND_STMT2);
            node.l = Some(Box::new(n));
            Ok(node)
        },
        Err(e) => Err(e),
    }
}

/// Parses the condition of an `if`.
pub fn parse_ifcond(tok: &mut TokenReader) -> (r: Result<Node, CompileError>)
    ensures
        final(tok).tokens == old(tok).tokens,
        parsed(ifcond_spec(old(tok)@, old(tok).cur as int), r, old(tok).cur as int, final(tok).cur as int),
    decreases left(old(tok)@, old(tok).cur as int), 7nat,
{
    match parse_equality(tok) {
        Ok(n) => Ok(gen_ifcond(n)),
        Err(e) => Err(e),
    }
}

/// Parses the condition in parentheses and the body of an `if`, or of an
/// `else if` where `elsif` says so.
fn parse_if_part(tok: &mut TokenReader, elsif: bool) -> (r: Result<Node, CompileError>)
    ensures
        final(tok).tokens == old(tok).tokens,
        parsed(
            if_spec(
                old(tok)@,
                old(tok).cur as int,
                if elsif {
                    NodeKind::ND_ELSIF
                } else {
                    NodeKind::ND_IF
                },
            ),
            r,
            old(tok).cur as int,
            final(tok).cur as int,
        ),
    decreases left(old(tok)@, old(tok).cur as int), 13nat,
{
    if !punct_at(tok, 0, '(' as u8) {
        return Err(unexpected_at(tok, 0, Expected::OpenParen));
    }
    tok.next();
    let cond =
    match parse_ifcond(tok) {
        Ok(n) => n,
        Err(e) => {
            return Err(e);
        },
    };
    if !punct_at(tok, 0, ')' as u8) {
        return Err(unexpected_at(tok, 0, Expected::CloseParen));
    }
    tok.next();
    match parse_stmts2(tok) {
        Ok(body) => Ok(
            if elsif {
                gen_elsif_node(cond, body)
            } else {
                gen_if_node(cond, body)
            },
        ),
        Err(e) => Err(e),
    }
}

/// Parses the condition in parentheses and the body of an `if`.
pub fn parse_if(tok: &mut TokenReader) -> (r: Result<Node, CompileError>)
    ensures
        final(tok).tokens == old(tok).tokens,
        parsed(
            if_spec(old(tok)@, old(tok).cur as int, NodeKind::ND_IF),
            r,
            old(tok).cur as int,
            final(tok).cur as int,
        ),
    decreases left(old(tok)@, old(tok).cur as int), 14nat,
{
    parse_if_part(tok, false)
}

/// Parses the condition in parentheses and the body of an `else if`.
pub fn parse_elsif(tok: &mut TokenReader) -> (r: Result<Node, CompileError>)
    ensures
        final(tok).tokens == old(tok).tokens,
        parsed(
            if_spec(old(tok)@, old(tok).cur as int, NodeKind::ND_ELSIF),
            r,
            old(tok).cur as int,
            final(tok).cur as int,
        ),
    decreases left(old(tok)@, old(tok).cur as int), 14nat,
{
    parse_if_part(tok, true)
}

/// Parses the body of an `else`.
pub fn parse_else(tok: &mut TokenReader) -> (r: Result<Node, CompileError>)
    ensures
        final(tok).tokens == old(tok).tokens,
        parsed(else_spec(old(tok)@, old(tok).cur as int), r, old(tok).cur as int, final(tok).cur as int),
    decreases left(old(tok)@, old(tok).cur as int), 12nat,
{
    match parse_stmts2(tok) {
        Ok(n) => Ok(gen_else(n)),
        Err(e) => Err(e),
    }
}

/// Whether a parser of an optional part that started at token `before` did
/// what `want` asks for, and stands at token `after`.
pub open spec fn parsed_part(
    want: Result<(Option<NodeView>, nat), CompileError>,
    r: Result<Option<Node>, CompileError>,
    before: int,
    after: int,
) -> bool {
    match want {
        Ok((n, used)) => r is Ok && option_view(r->Ok_0) == n && after == before + used,
        Err(e) => r is Err && r->Err_0 == e,
    }
}

/// Parses the `else if` part of an `if` statement, if there is one.
fn parse_elsif_part(tok: &mut TokenReader) -> (r: Result<Option<Node>, CompileError>)
    ensures
        final(tok).tokens == old(tok).tokens,
        parsed_part(
            elsif_part_spec(old(tok)@, old(tok).cur as int),
            r,
            old(tok).cur as int,
            final(tok).cur as int,
        ),
    decreases left(old(tok)@, old(tok).cur as int), 14nat,
{
    if tok.kind_at(0) == TokenKind::ELIF {
        tok.next();
        match parse_elsif(tok) {
            Ok(n) => Ok(Some(n)),
            Err(e) => Err(e),
        }
    } else {
        Ok(None)
    }
}

/// Parses the `else` part of an `if` statement, if there is one.
fn parse_else_part(tok: &mut TokenReader) -> (r: Result<Option<Node>, CompileError>)
    ensures
        final(tok).tokens == old(tok).tokens,
        parsed_part(
            else_part_spec(old(tok)@, old(tok).cur as int),
            r,
            old(tok).cur as int,
            final(tok).cur as int,
        ),
    decreases left(old(tok)@, old(tok).cur as int), 14nat,
{
    if tok.kind_at(0) == TokenKind::ELSE {
        tok.next();
        match parse_else(tok) {
            Ok(n) => Ok(Some(n)),
            Err(e) => Err(e),
        }
    } else {
        Ok(None)
    }
}

/// Parses the rest of an `if` statement, after the keyword.
pub fn parse_ifstmt(tok: &mut TokenReader) -> (r: Result<Node, CompileError>)
    ensures
        final(tok).tokens == old(tok).tokens,
        parsed(ifstmt_spec(old(tok)@, old(tok).cur as int), r, old(tok).cur as int, final(tok).cur as int),
    decreases left(old(tok)@, old(tok).cur as int), 15nat,
{
    let if_node =
    match parse_if(tok) {
        Ok(n) => n,
        Err(e) => {
            return Err(e);
        },
    };
    let elif_node =
    match parse_elsif_part(tok) {
        Ok(n) => n,
        Err(e) => {
            return Err(e);
        },
    };
    let else_node =
    match parse_else_part(tok) {
        Ok(n) => n,
        Err(e) => {
            return Err(e);
        },
    };
    Ok(gen_ifstmt_node(if_node, elif_node, else_node))
}

/// Whether a parser of a clause that started at token `before` did what
/// `want` asks for, and stands at token `after`.
pub open spec fn parsed_clause(
    want: Result<(NodeView, nat), CompileError>,
    r: Result<Node, CompileError>,
    before: int,
    after: int,
) -> bool {
    match want {
        Ok((n, used)) => r is Ok && r->Ok_0@ == n && after == before + used,
        Err(e) => r is Err && r->Err_0 == e,
    }
}

/// Parses the first clause of a `for` statement, from the `(` on.
fn parse_for_init(tok: &mut TokenReader) -> (r: Result<Node, CompileError>)
    ensures
        final(tok).tokens == old(tok).tokens,
        parsed_clause(
            for_init_spec(old(tok)@, old(tok).cur as int),
            r,
            old(tok).cur as int,
            final(tok).cur as int,
        ),
    decreases left(old(tok)@, old(tok).cur as int), 8nat,
{
    if !punct_at(tok, 0, '(' as u8) {
        return Err(unexpected_at(tok, 0, Expected::OpenParen));
    }
    tok.next();
    let init =
    match parse_declare(tok) {
        Ok(n) => n,
        Err(e) => {
            return Err(e);
        },
    };
    if !punct_at(tok, 0, ';' as u8) {
        return Err(unexpected_at(tok, 0, Expected::Semicolon));
    }
    tok.next();
    Ok(init)
}

/// Parses the second clause of a `for` statement.
fn parse_for_cond(tok: &mut TokenReader) -> (r: Result<Node, CompileError>)
    ensures
        final(tok).tokens == old(tok).tokens,
        parsed_clause(
            for_cond_spec(old(tok)@, old(tok).cur as int),
            r,
            old(tok).cur as int,
            final(tok).cur as int,
        ),
    decreases left(old(tok)@, old(tok).cur as int), 8nat,
{
    let cond =
    match parse_equality(tok) {
        Ok(n) => n,
        Err(e) => {
            return Err(e);
        },
    };
    if !punct_at(tok, 0, ';' as u8) {
        return Err(unexpected_at(tok, 0, Expected::Semicolon));
    }
    tok.next();
    Ok(cond)
}

/// Parses the third clause of a `for` statement, up to and with the `)`.
fn parse_for_step(tok: &mut TokenReader) -> (r: Result<Node, CompileError>)
    ensures
        final(tok).tokens == old(tok).tokens,
        parsed_clause(
            for_step_spec(old(tok)@, old(tok).cur as int),
            r,
            old(tok).cur as int,
            final(tok).cur as int,
        ),
    decreases left(old(tok)@, old(tok).cur as int), 8nat,
{
    let third = if punct_at(tok, 1, '=' as u8) {
        parse_assign(tok)
    } else {
        parse_expr(tok)
    };
    let step =
    match third {
        Ok(n) => n,
        Err(e) => {
            return Err(e);
        },
    };
    if !punct_at(tok, 0, ';' as u8) {
        return Err(unexpected_at(tok, 0, Expected::Semicolon));
    }
    if !punct_at(tok, 1, ')' as u8) {
        return Err(unexpected_at(tok, 1, Expected::CloseParen));
    }
    tok.next_nth_tok(2);
    Ok(step)
}

/// Parses the rest of a `for` statement, after the keyword.
pub fn parse_forstmt(tok: &mut TokenReader) -> (r: Result<Node, CompileError>)
    ensures
        final(tok).tokens == old(tok).tokens,
        parsed(forstmt_spec(old(tok)@, old(tok).cur as int), r, old(tok).cur as int, final(tok).cur as int),
    decreases left(old(tok)@, old(tok).cur as int), 15nat,
{
    let init =
    match parse_for_init(tok) {
        Ok(n) => n,
        Err(e) => {
            return Err(e);
        },
    };
    let cond =
    match parse_for_cond(tok) {
        Ok(n) => n,
        Err(e) => {
            return Err(e);
        },
    };
    let step =
    match parse_for_step(tok) {
        Ok(n) => n,
        Err(e) => {
            return Err(e);
        },
    };
    let body =
    match parse_stmts2(tok) {
        Ok(n) => n,
        Err(e) => {
            return Err(e);
        },
    };
    let mut node = Node::new(NodeKind::ND_FOR);
    node.for_node_first_assign = Some(Box::new(init));
    node.for_node_second_condition = Some(Box::new(cond));
    node.for_node_third_expr = Some(Box::new(step));
    node.for_node_stmts = Some(Box::new(body));
    Ok(node)
}

/// Parses `stmts`.
pub fn parse_stmts(tok: &mut TokenReader) -> (r: Result<Node, CompileError>)
    ensures
        final(tok).tokens == old(tok).tokens,
        parsed(stmts_spec(old(tok)@, old(tok).cur as int), r, old(tok).cur as int, final(tok).cur as int),
    decreases left(old(tok)@, old(tok).cur as int), 16nat,
{
    let kind = tok.kind_at(0);
    if kind == TokenKind::IF {
        tok.next();
        parse_ifstmt(tok)
    } else if kind == TokenKind::FOR {
        tok.next();
        parse_forstmt(tok)
    } else {
        parse_stmts2(tok)
    }
}

/// The views of a list of functions with one more.
pub proof fn lemma_functions_view_push(fs: Seq<Function>, f: Function)
    ensures
        functions_view(fs.push(f)) == functions_view(fs).push(f@),
{
    assert(functions_view(fs.push(f)) =~= functions_view(fs).push(f@));
}

/// Parses one parameter and the `,` or `)` after it, and adds the parameter
/// to `args`. Says whether it was a `,`.
fn parse_param(tok: &mut TokenReader, args: &mut Vec<FnArgs>) -> (r: Result<bool, CompileError>)
    ensures
        final(tok).tokens == old(tok).tokens,
        if token_at(old(tok)@, old(tok).cur as int).kind != TokenKind::TYPE(Type::INT) {
            r == Err::<bool, CompileError>(
                unexpected(old(tok)@, old(tok).cur as int, Expected::TypeName),
            )
        } else if token_at(old(tok)@, old(tok).cur + 1).kind != TokenKind::IDENT {
            r == Err::<bool, CompileError>(
                unexpected(old(tok)@, old(tok).cur + 1, Expected::Identifier),
            )
        } else if is_punct(old(tok)@, old(tok).cur + 2, ',') || is_punct(
            old(tok)@,
            old(tok).cur + 2,
            ')',
        ) {
            &&& r == Ok::<bool, CompileError>(is_punct(old(tok)@, old(tok).cur + 2, ','))
            &&& args_view(final(args)@) == args_view(old(args)@).push(
                callee_arg(token_at(old(tok)@, old(tok).cur + 1).char, Type::INT),
            )
            &&& final(tok).cur == old(tok).cur + 3
            &&& final(tok).cur <= final(tok).tokens.len()
        } else {
            r == Err::<bool, CompileError>(
                unexpected(old(tok)@, old(tok).cur + 2, Expected::CommaOrCloseParen),
            )
        },
{
    if tok.kind_at(0) != TokenKind::TYPE(Type::INT) {
        return Err(unexpected_at(tok, 0, Expected::TypeName));
    }
    if tok.kind_at(1) != TokenKind::IDENT {
        return Err(unexpected_at(tok, 1, Expected::Identifier));
    }
    let go_on = punct_at(tok, 2, ',' as u8);
    if !go_on && !punct_at(tok, 2, ')' as u8) {
        return Err(unexpected_at(tok, 2, Expected::CommaOrCloseParen));
    }
    let sym = copy_bytes(&tok.tokens[tok.cur + 1].char);
    let arg = FnArgs::new_for_callee(sym, Type::INT);
    proof {
        lemma_args_view_push(args@, arg);
    }
    args.push(arg);
    tok.next_nth_tok(3);
    Ok(go_on)
}

/// Whether every parameter of a list is an `int`.
pub open spec fn all_int(args: Seq<FnArgsView>) -> bool {
    forall|i: int| 0 <= i < args.len() ==> (#[trigger] args[i]).typ == Type::INT
}

/// Parses the parameters of a function, from the token after `(` up to and
/// with the closing `)`.
fn parse_params(tok: &mut TokenReader) -> (r: Result<Vec<FnArgs>, CompileError>)
    ensures
        final(tok).tokens == old(tok).tokens,
        match param_list_spec(old(tok)@, old(tok).cur as int) {
            Ok((args, used)) => {
                &&& r is Ok
                &&& args_view(r->Ok_0@) == args
                &&& final(tok).cur == old(tok).cur + used
                &&& all_int(args)
                &&& args.len() <= final(tok).tokens.len()
            },
            Err(e) => r is Err && r->Err_0 == e,
        },
{
    let mut args: Vec<FnArgs> = Vec::new();
    assert(args_view(args@) =~= Seq::empty());
    if punct_at(tok, 0, ')' as u8) {
        tok.next();
        return Ok(args);
    }
    let ghost ts = tok@;
    let ghost start = tok.cur as int;
    let ghost want = params_spec(ts, start, Seq::empty());
    loop
        invariant
            tok.tokens == old(tok).tokens,
            ts == tok@,
            start == old(tok).cur,
            start <= tok.cur,
            !is_punct(ts, start, ')'),
            all_int(args_view(args@)),
            3 * args_view(args@).len() == tok.cur - start,
            args_view(args@).len() > 0 ==> tok.cur <= tok.tokens.len(),
            want == params_spec(ts, start, Seq::empty()),
            want == and_then_some(
                params_spec(ts, tok.cur as int, args_view(args@)),
                (tok.cur - start) as nat,
            ),
        decreases left(ts, tok.cur as int),
    {
        let ghost cur = tok.cur as int;
        match parse_param(tok, &mut args) {
            Ok(go_on) => {
                if !go_on {
                    return Ok(args);
                }
                proof {
                    lemma_and_then_some_twice(
                        params_spec(ts, tok.cur as int, args_view(args@)),
                        3,
                        (cur - start) as nat,
                    );
                }
            },
            Err(e) => {
                return Err(e);
            },
        }
    }
}

/// Parses `function`. The sizes of the parameters have to fit the machine:
/// there are fewer parameters than tokens.
pub fn parse_function(tok: &mut TokenReader) -> (r: Result<Function, CompileError>)
    requires
        8 * old(tok).tokens.len() <= usize::MAX,
    ensures
        final(tok).tokens == old(tok).tokens,
        match function_spec(old(tok)@, old(tok).cur as int) {
            Ok((f, more)) => {
                &&& r is Ok
                &&& r->Ok_0@ == f
                &&& r->Ok_0.local_variable.wf()
                &&& final(tok).cur == old(tok).cur + 1 + more
            },
            Err(e) => r is Err && r->Err_0 == e,
        },
{
    match tok.kind_at(0) {
        TokenKind::TYPE(_) => {},
        _ => {
            return Err(unexpected_at(tok, 0, Expected::TypeName));
        },
    }
    if tok.kind_at(1) != TokenKind::IDENT {
        return Err(unexpected_at(tok, 1, Expected::Identifier));
    }
    if !punct_at(tok, 2, '(' as u8) {
        return Err(unexpected_at(tok, 2, Expected::OpenParen));
    }
    let fn_name = copy_bytes(&tok.tokens[tok.cur + 1].char);
    tok.next_nth_tok(3);
    let func_args =
    match parse_params(tok) {
        Ok(args) => args,
        Err(e) => {
            return Err(e);
        },
    };
    let block =
    match parse_block(tok) {
        Ok(n) => n,
        Err(e) => {
            return Err(e);
        },
    };
    let mut root = Node::new(NodeKind::ND_ROOT);
    root.fn_blocks = block.block_stmts;
    root.fn_name = copy_bytes(&fn_name);
    proof {
        assert forall|i: int| 0 <= i < func_args@.len() implies (#[trigger] func_args@[i]).typ
            == Type::INT by {
            assert(args_view(func_args@)[i].typ == func_args@[i].typ);
        }
    }
    Ok(Function::new(root, fn_name, func_args))
}

/// Whether a parser of functions did what `want` asks for, and stands at
/// the token `after`.
pub open spec fn parsed_program(
    want: Result<(Seq<FunctionView>, int), CompileError>,
    r: Result<Vec<Function>, CompileError>,
    after: int,
) -> bool {
    match want {
        Ok((fs, end)) => {
            &&& r is Ok
            &&& functions_view(r->Ok_0@) == fs
            &&& after == end
            &&& forall|i: int|
                0 <= i < r->Ok_0@.len() ==> (#[trigger] r->Ok_0@[i]).local_variable.wf()
        },
        Err(e) => r is Err && r->Err_0 == e,
    }
}

/// Parses `program`: functions up to `EOF`, at which the cursor then stands.
pub fn parse_program(tok: &mut TokenReader) -> (r: Result<Vec<Function>, CompileError>)
    requires
        8 * old(tok).tokens.len() <= usize::MAX,
    ensures
        final(tok).tokens == old(tok).tokens,
        parsed_program(
            program_spec(old(tok)@, old(tok).cur as int, Seq::empty()),
            r,
            final(tok).cur as int,
        ),
        r is Ok ==> token_at(old(tok)@, final(tok).cur as int).kind == TokenKind::EOF,
{
    let mut func_vec: Vec<Function> = Vec::new();
    let ghost ts = tok@;
    let ghost want = program_spec(ts, tok.cur as int, Seq::empty());
    assert(functions_view(func_vec@) =~= Seq::empty());
    loop
        invariant
            tok.tokens == old(tok).tokens,
            8 * tok.tokens.len() <= usize::MAX,
            ts == tok@,
            want == program_spec(old(tok)@, old(tok).cur as int, Seq::empty()),
            want == program_spec(ts, tok.cur as int, functions_view(func_vec@)),
            forall|i: int| 0 <= i < func_vec@.len() ==> (#[trigger] func_vec@[i]).local_variable.wf(),
        decreases left(ts, tok.cur as int),
    {
        if tok.kind_at(0) == TokenKind::EOF {
            return Ok(func_vec);
        }
        let f =
        match parse_function(tok) {
            Ok(f) => f,
            Err(e) => {
                return Err(e);
            },
        };
        proof {
            lemma_functions_view_push(func_vec@, f);
        }
        func_vec.push(f);
    }
}

/// Steps over the sentinel `INI` under the cursor.
pub fn consume_initial_tok(tok: &mut TokenReader) -> (r: Result<(), CompileError>)
    ensures
        final(tok).tokens == old(tok).tokens,
        token_at(old(tok)@, old(tok).cur as int).kind == TokenKind::INI ==> r is Ok && final(tok).cur == old(tok).cur + 1,
        token_at(old(tok)@, old(tok).cur as int).kind != TokenKind::INI ==> r == Err::<
            (),
            CompileError,
        >(unexpected(old(tok)@, old(tok).cur as int, Expected::Initial)) && final(tok).cur == old(tok).cur,
{
    if tok.kind_at(0) != TokenKind::INI {
        return Err(unexpected_at(tok, 0, Expected::Initial));
    }
    tok.next();
    Ok(())
}

/// Parses a token stream into its functions: see `parse_spec`. The cursor
/// stands at the sentinel `INI`, and afterwards at the `EOF` that follows the
/// last function. The sizes of the parameters have to fit the machine: there
/// are fewer parameters than tokens.
pub fn parse(tok: &mut TokenReader) -> (r: Result<Vec<Function>, CompileError>)
    requires
        8 * old(tok).tokens.len() <= usize::MAX,
    ensures
        final(tok).tokens == old(tok).tokens,
        parsed_program(parse_spec(old(tok)@, old(tok).cur as int), r, final(tok).cur as int),
        r is Ok ==> token_at(old(tok)@, final(tok).cur as int).kind == TokenKind::EOF,
{
    match consume_initial_tok(tok) {
        Ok(()) => {},
        Err(e) => {
            return Err(e);
        },
    }
    parse_program(tok)
}

} // verus!
