//! The children that a node's kind uses, as one list: what a pass over the
//! tree walks through.
use vstd::prelude::*;
use crate::errors::CompileError;
use crate::parse::{args_view, child_view, nodes_view, FnArgs, FnArgsView, Node, NodeKind, NodeView};
use crate::text::copy_bytes;

verus! {

/// The number of nodes under an optional child.
pub open spec fn child_count(c: Option<Box<NodeView>>) -> nat
    decreases c,
{
    match c {
        Some(b) => node_count(*b),
        None => 0,
    }
}

/// The number of nodes in the trees of a list, from index `i` on.
pub open spec fn list_count(ns: Seq<NodeView>, i: nat) -> nat
    decreases ns, ns.len() - i,
{
    if i >= ns.len() {
        0
    } else {
        node_count(ns[i as int]) + list_count(ns, i + 1)
    }
}

/// The number of nodes in the values of a list of arguments, from index `i`
/// on.
pub open spec fn args_count(args: Seq<FnArgsView>, i: nat) -> nat
    decreases args, args.len() - i,
{
    if i >= args.len() {
        0
    } else {
        child_count(args[i as int].val) + args_count(args, i + 1)
    }
}

/// The number of nodes of a tree, whatever their kinds use of their fields.
pub open spec fn node_count(n: NodeView) -> nat
    decreases n,
{
    1 + child_count(n.l) + child_count(n.r) + child_count(n.if_node) + child_count(n.elsif_node)
        + child_count(n.else_node) + child_count(n.for_node_first_assign) + child_count(
        n.for_node_second_condition,
    ) + child_count(n.for_node_third_expr) + child_count(n.for_node_stmts) + args_count(
        n.fn_call_args,
        0,
    ) + list_count(n.block_stmts, 0) + list_count(n.fn_blocks, 0)
}

/// Whether a node of this kind has the one child `l`.
pub open spec fn is_wrapper(kind: NodeKind) -> bool {
    kind == NodeKind::ND_EXPR || kind == NodeKind::ND_STMT || kind == NodeKind::ND_RETURN || kind
        == NodeKind::ND_IFCOND || kind == NodeKind::ND_ELSE || kind == NodeKind::ND_STMT2
}

/// Whether a node of this kind has no child.
pub open spec fn is_leaf(kind: NodeKind) -> bool {
    kind == NodeKind::ND_NUM || kind == NodeKind::ND_IDENT
}

/// Whether every argument from index `i` on has a value.
pub open spec fn args_complete(args: Seq<FnArgsView>) -> bool {
    forall|i: int| 0 <= i < args.len() ==> (#[trigger] args[i]).val is Some
}

/// Whether the node has the children that its kind requires: the operand of
/// a wrapper, the four parts of a `for`, the `if` part of an `if` statement,
/// the value of each argument, the variable and the value of a declaration,
/// and both operands of every other node that is no leaf.
pub open spec fn complete(n: NodeView) -> bool {
    if is_leaf(n.kind) || n.kind == NodeKind::ND_BLOCK {
        true
    } else if is_wrapper(n.kind) {
        n.l is Some
    } else if n.kind == NodeKind::ND_FOR {
        n.for_node_first_assign is Some && n.for_node_second_condition is Some
            && n.for_node_third_expr is Some && n.for_node_stmts is Some
    } else if n.kind == NodeKind::ND_IFSTMT {
        n.if_node is Some
    } else if n.kind == NodeKind::ND_FNCALL {
        args_complete(n.fn_call_args)
    } else if n.kind == NodeKind::ND_DECL {
        n.l is Some && n.l->0.kind == NodeKind::ND_IDENT && n.r is Some
    } else {
        n.l is Some && n.r is Some
    }
}

/// The values of complete arguments.
pub open spec fn arg_values(args: Seq<FnArgsView>) -> Seq<NodeView> {
    Seq::new(args.len(), |i: int| *args[i].val->0)
}

/// The zero or one node of an optional child.
pub open spec fn optional(c: Option<Box<NodeView>>) -> Seq<NodeView> {
    match c {
        Some(b) => seq![*b],
        None => Seq::empty(),
    }
}

/// The children that the node's kind uses, in the order in which a pass
/// visits them. Of a `for`: the initialiser, the condition, the step, the
/// body.
pub open spec fn children(n: NodeView) -> Seq<NodeView> {
    if is_leaf(n.kind) {
        Seq::empty()
    } else if n.kind == NodeKind::ND_BLOCK {
        n.block_stmts
    } else if is_wrapper(n.kind) {
        optional(n.l)
    } else if n.kind == NodeKind::ND_FOR {
        optional(n.for_node_first_assign) + optional(n.for_node_second_condition) + optional(
            n.for_node_third_expr,
        ) + optional(n.for_node_stmts)
    } else if n.kind == NodeKind::ND_IFSTMT {
        optional(n.if_node) + optional(n.elsif_node) + optional(n.else_node)
    } else if n.kind == NodeKind::ND_FNCALL {
        arg_values(n.fn_call_args)
    } else {
        optional(n.l) + optional(n.r)
    }
}

/// The node without the children that its kind uses.
pub open spec fn strip(n: NodeView) -> NodeView {
    if is_leaf(n.kind) {
        n
    } else if n.kind == NodeKind::ND_BLOCK {
        NodeView { block_stmts: Seq::empty(), ..n }
    } else if is_wrapper(n.kind) {
        NodeView { l: None, ..n }
    } else if n.kind == NodeKind::ND_FOR {
        NodeView {
            for_node_first_assign: None,
            for_node_second_condition: None,
            for_node_third_expr: None,
            for_node_stmts: None,
            ..n
        }
    } else if n.kind == NodeKind::ND_IFSTMT {
        NodeView { if_node: None, elsif_node: None, else_node: None, ..n }
    } else if n.kind == NodeKind::ND_FNCALL {
        NodeView {
            fn_call_args: Seq::new(
                n.fn_call_args.len(),
                |i: int| FnArgsView { val: None, ..n.fn_call_args[i] },
            ),
            ..n
        }
    } else {
        NodeView { l: None, r: None, ..n }
    }
}

/// The stripped node `shell` with the children `cs` put where its kind uses
/// them. Of an `if` statement, `has_elsif` and `has_else` say which of the
/// optional parts are among `cs`.
pub open spec fn fill(shell: NodeView, cs: Seq<NodeView>, has_elsif: bool, has_else: bool) -> NodeView {
    if is_leaf(shell.kind) {
        shell
    } else if shell.kind == NodeKind::ND_BLOCK {
        NodeView { block_stmts: cs, ..shell }
    } else if is_wrapper(shell.kind) {
        NodeView { l: Some(Box::new(cs[0])), ..shell }
    } else if shell.kind == NodeKind::ND_FOR {
        NodeView {
            for_node_first_assign: Some(Box::new(cs[0])),
            for_node_second_condition: Some(Box::new(cs[1])),
            for_node_third_expr: Some(Box::new(cs[2])),
            for_node_stmts: Some(Box::new(cs[3])),
            ..shell
        }
    } else if shell.kind == NodeKind::ND_IFSTMT {
        NodeView {
            if_node: Some(Box::new(cs[0])),
            elsif_node: if has_elsif {
                Some(Box::new(cs[1]))
            } else {
                None
            },
            else_node: if has_else {
                Some(Box::new(cs[cs.len() - 1]))
            } else {
                None
            },
            ..shell
        }
    } else if shell.kind == NodeKind::ND_FNCALL {
        NodeView {
            fn_call_args: Seq::new(
                shell.fn_call_args.len(),
                |i: int| FnArgsView { val: Some(Box::new(cs[i])), ..shell.fn_call_args[i] },
            ),
            ..shell
        }
    } else {
        NodeView { l: Some(Box::new(cs[0])), r: Some(Box::new(cs[1])), ..shell }
    }
}

/// The node `n` with the children `cs` in place of those that its kind uses.
pub open spec fn with_children(n: NodeView, cs: Seq<NodeView>) -> NodeView {
    fill(strip(n), cs, n.elsif_node is Some, n.else_node is Some)
}

/// The values of complete arguments count as the arguments do.
proof fn lemma_args_children_count(args: Seq<FnArgsView>, i: nat)
    requires
        args_complete(args),
    ensures
        list_count(arg_values(args), i) == args_count(args, i),
    decreases args.len() - i,
{
    if i < args.len() {
        lemma_args_children_count(args, i + 1);
        let vals = arg_values(args);
        assert(vals.len() == args.len());
        assert(vals[i as int] == *args[i as int].val->0);
        assert(args[i as int].val is Some);
        assert(child_count(args[i as int].val) == node_count(vals[i as int]));
        assert(list_count(vals, i) == node_count(vals[i as int]) + list_count(vals, i + 1));
        assert(args_count(args, i) == child_count(args[i as int].val) + args_count(args, i + 1));
    }
}

/// A list that is two lists counts as both.
pub proof fn lemma_list_count_add(a: Seq<NodeView>, b: Seq<NodeView>, i: nat)
    ensures
        list_count(a + b, i) == if i <= a.len() {
            list_count(a, i) + list_count(b, 0)
        } else {
            list_count(b, (i - a.len()) as nat)
        },
    decreases (a + b).len() - i,
{
    if i < (a + b).len() {
        lemma_list_count_add(a, b, i + 1);
        if i < a.len() {
            assert((a + b)[i as int] == a[i as int]);
        } else {
            assert((a + b)[i as int] == b[i - a.len()]);
        }
    }
}

/// An optional child counts as the list of it.
proof fn lemma_optional_count(c: Option<Box<NodeView>>)
    ensures
        list_count(optional(c), 0) == child_count(c),
{
    match c {
        Some(b) => {
            assert(list_count(optional(c), 1) == 0);
        },
        None => {},
    }
}

/// The children of a node are fewer nodes than the node.
pub proof fn lemma_children_count(n: NodeView)
    requires
        complete(n),
    ensures
        list_count(children(n), 0) < node_count(n),
{
    lemma_optional_count(n.l);
    lemma_optional_count(n.r);
    lemma_optional_count(n.if_node);
    lemma_optional_count(n.elsif_node);
    lemma_optional_count(n.else_node);
    lemma_optional_count(n.for_node_first_assign);
    lemma_optional_count(n.for_node_second_condition);
    lemma_optional_count(n.for_node_third_expr);
    lemma_optional_count(n.for_node_stmts);
    if n.kind == NodeKind::ND_FOR {
        let a = optional(n.for_node_first_assign);
        let b = optional(n.for_node_second_condition);
        let c = optional(n.for_node_third_expr);
        let d = optional(n.for_node_stmts);
        lemma_list_count_add(a + b + c, d, 0);
        lemma_list_count_add(a + b, c, 0);
        lemma_list_count_add(a, b, 0);
    } else if n.kind == NodeKind::ND_IFSTMT {
        let a = optional(n.if_node);
        let b = optional(n.elsif_node);
        let c = optional(n.else_node);
        lemma_list_count_add(a + b, c, 0);
        lemma_list_count_add(a, b, 0);
    } else if n.kind == NodeKind::ND_FNCALL {
        lemma_args_children_count(n.fn_call_args, 0);
    } else if !is_leaf(n.kind) && n.kind != NodeKind::ND_BLOCK && !is_wrapper(n.kind) {
        lemma_list_count_add(optional(n.l), optional(n.r), 0);
    }
}

/// A node with other children in place of its own has those children, and
/// is otherwise as it was.
pub proof fn lemma_with_children(n: NodeView, cs: Seq<NodeView>)
    requires
        complete(n),
        cs.len() == children(n).len(),
        n.kind == NodeKind::ND_DECL ==> cs[0].kind == NodeKind::ND_IDENT,
    ensures
        children(with_children(n, cs)) == cs,
        complete(with_children(n, cs)),
        with_children(n, cs).kind == n.kind,
        with_children(n, cs).str == n.str,
        with_children(n, cs).block_str == n.block_str,
        with_children(n, cs).typ == n.typ,
{
    let m = with_children(n, cs);
    if n.kind == NodeKind::ND_FNCALL {
        assert(forall|i: int| 0 <= i < cs.len() ==> (#[trigger] m.fn_call_args[i]).val is Some);
    }
    assert(children(m) =~= cs);
}

/// Each child of a node is fewer nodes than the node.
pub proof fn lemma_child_smaller(n: NodeView, j: int)
    requires
        complete(n),
        0 <= j < children(n).len(),
    ensures
        node_count(children(n)[j]) < node_count(n),
{
    lemma_children_count(n);
    lemma_list_count_each(children(n), j as nat);
}

/// Each tree of a list is no more nodes than the list.
pub proof fn lemma_list_count_each(ns: Seq<NodeView>, j: nat)
    requires
        j < ns.len(),
    ensures
        node_count(ns[j as int]) <= list_count(ns, 0),
        list_count(ns, j) <= list_count(ns, 0),
    decreases j,
{
    assert(list_count(ns, j) == node_count(ns[j as int]) + list_count(ns, j + 1));
    if j > 0 {
        lemma_list_count_each(ns, (j - 1) as nat);
        assert(list_count(ns, (j - 1) as nat) == node_count(ns[j - 1]) + list_count(ns, j));
    }
}

/// A node taken apart: the node without its children, the children in
/// order, and which optional parts of an `if` statement are among them.
pub struct Taken {
    pub shell: Node,
    pub kids: Vec<Node>,
    pub has_elsif: bool,
    pub has_else: bool,
}

/// Whether `count` children are what `fill` puts into the stripped node
/// `shell`.
pub open spec fn fits_shell(shell: NodeView, count: nat, has_elsif: bool, has_else: bool) -> bool {
    if is_leaf(shell.kind) || shell.kind == NodeKind::ND_BLOCK {
        true
    } else if is_wrapper(shell.kind) {
        count == 1
    } else if shell.kind == NodeKind::ND_FOR {
        count == 4
    } else if shell.kind == NodeKind::ND_IFSTMT {
        count == 1 + if has_elsif {
            1nat
        } else {
            0nat
        } + if has_else {
            1nat
        } else {
            0nat
        }
    } else if shell.kind == NodeKind::ND_FNCALL {
        count == shell.fn_call_args.len()
    } else {
        count == 2
    }
}

/// A complete node has as many children as fit its stripped self.
pub proof fn lemma_children_fit(n: NodeView)
    requires
        complete(n),
    ensures
        fits_shell(strip(n), children(n).len(), n.elsif_node is Some, n.else_node is Some),
{
}

/// Whether a node of this kind has the one child `l`.
fn kind_is_wrapper(kind: NodeKind) -> (r: bool)
    ensures
        r == is_wrapper(kind),
{
    match kind {
        NodeKind::ND_EXPR | NodeKind::ND_STMT | NodeKind::ND_RETURN | NodeKind::ND_IFCOND
        | NodeKind::ND_ELSE | NodeKind::ND_STMT2 => true,
        _ => false,
    }
}

/// Takes the values out of the arguments of a call.
fn take_arg_values(args: Vec<FnArgs>) -> (r: Option<(Vec<FnArgs>, Vec<Node>)>)
    ensures
        match r {
            Some((metas, kids)) => {
                &&& args_complete(args_view(args@))
                &&& nodes_view(kids@) == arg_values(args_view(args@))
                &&& args_view(metas@) == Seq::new(
                    args_view(args@).len(),
                    |i: int| FnArgsView { val: None, ..args_view(args@)[i] },
                )
            },
            None => !args_complete(args_view(args@)),
        },
{
    let ghost orig = args_view(args@);
    let mut metas: Vec<FnArgs> = Vec::new();
    let mut kids: Vec<Node> = Vec::new();
    for arg in it: args
        invariant
            it.seq() == args@,
            orig == args_view(args@),
            kids@.len() == it.index(),
            metas@.len() == it.index(),
            forall|j: int| 0 <= j < it.index() ==> (#[trigger] orig[j]).val is Some,
            forall|j: int| 0 <= j < it.index() ==> (#[trigger] kids@[j])@ == *orig[j].val->0,
            forall|j: int|
                0 <= j < it.index() ==> (#[trigger] metas@[j])@ == (FnArgsView {
                    val: None,
                    ..orig[j]
                }),
    {
        let ghost i = it.index() as int;
        assert(orig[i] == arg@);
        let FnArgs { sym, typ, val } = arg;
        match val {
            Some(b) => {
                kids.push(*b);
                metas.push(FnArgs { sym, typ, val: None });
            },
            None => {
                assert(!(orig[i].val is Some));
                return None;
            },
        }
    }
    assert(nodes_view(kids@) =~= arg_values(orig));
    assert(args_view(metas@) =~= Seq::new(orig.len(), |i: int| FnArgsView { val: None, ..orig[i] }));
    Some((metas, kids))
}

/// Takes a node apart into itself without children and its children. A node
/// that lacks a child that its kind requires is an error.
pub fn take_children(node: Node) -> (r: Result<Taken, CompileError>)
    ensures
        match r {
            Ok(t) => {
                &&& complete(node@)
                &&& t.shell@ == strip(node@)
                &&& nodes_view(t.kids@) == children(node@)
                &&& node@.kind == NodeKind::ND_IFSTMT ==> t.has_elsif == (node@.elsif_node is Some)
                &&& node@.kind == NodeKind::ND_IFSTMT ==> t.has_else == (node@.else_node is Some)
            },
            Err(e) => !complete(node@) && e == CompileError::MissingOperand,
        },
{
    let ghost n = node@;
    let mut node = node;
    let mut kids: Vec<Node> = Vec::new();
    let mut has_elsif = false;
    let mut has_else = false;
    assert(nodes_view(kids@) =~= Seq::empty());
    let kind = node.kind;
    if kind == NodeKind::ND_NUM || kind == NodeKind::ND_IDENT {
    } else if kind == NodeKind::ND_BLOCK {
        kids = node.block_stmts;
        node.block_stmts = Vec::new();
        assert(nodes_view(node.block_stmts@) =~= Seq::empty());
    } else if kind_is_wrapper(kind) {
        match node.l {
            Some(b) => {
                kids.push(*b);
                node.l = None;
            },
            None => {
                return Err(CompileError::MissingOperand);
            },
        }
        assert(nodes_view(kids@) =~= children(n));
    } else if kind == NodeKind::ND_FOR {
        match (
            node.for_node_first_assign,
            node.for_node_second_condition,
            node.for_node_third_expr,
            node.for_node_stmts,
        ) {
            (Some(a), Some(b), Some(c), Some(d)) => {
                kids.push(*a);
                kids.push(*b);
                kids.push(*c);
                kids.push(*d);
            },
            _ => {
                return Err(CompileError::MissingOperand);
            },
        }
        node.for_node_first_assign = None;
        node.for_node_second_condition = None;
        node.for_node_third_expr = None;
        node.for_node_stmts = None;
        assert(nodes_view(kids@) =~= children(n));
    } else if kind == NodeKind::ND_IFSTMT {
        match node.if_node {
            Some(b) => {
                kids.push(*b);
            },
            None => {
                return Err(CompileError::MissingOperand);
            },
        }
        match node.elsif_node {
            Some(b) => {
                kids.push(*b);
                has_elsif = true;
            },
            None => {},
        }
        match node.else_node {
            Some(b) => {
                kids.push(*b);
                has_else = true;
            },
            None => {},
        }
        node.if_node = None;
        node.elsif_node = None;
        node.else_node = None;
        assert(nodes_view(kids@) =~= children(n));
    } else if kind == NodeKind::ND_FNCALL {
        let args = node.fn_call_args;
        match take_arg_values(args) {
            Some((metas, values)) => {
                kids = values;
                node.fn_call_args = metas;
                assert(nodes_view(kids@) == children(n));
                    },
            None => {
                return Err(CompileError::MissingOperand);
            },
        }
    } else {
        match (node.l, node.r) {
            (Some(a), Some(b)) => {
                if kind == NodeKind::ND_DECL && a.kind != NodeKind::ND_IDENT {
                    assert(a@.kind == a.kind);
                    assert(n.l == Some(Box::new(a@)));
                    return Err(CompileError::MissingOperand);
                }
                kids.push(*a);
                kids.push(*b);
            },
            _ => {
                return Err(CompileError::MissingOperand);
            },
        }
        node.l = None;
        node.r = None;
        assert(nodes_view(kids@) =~= children(n));
    }
    Ok(Taken { shell: node, kids, has_elsif, has_else })
}

/// Puts arguments together from their names and types and their values.
fn put_arg_values(metas: &Vec<FnArgs>, kids: Vec<Node>) -> (args: Vec<FnArgs>)
    requires
        kids@.len() == metas@.len(),
    ensures
        args_view(args@) == Seq::new(
            args_view(metas@).len(),
            |i: int| FnArgsView { val: Some(Box::new(nodes_view(kids@)[i])), ..args_view(metas@)[i] },
        ),
{
    let ghost cs = nodes_view(kids@);
    let ghost shell = args_view(metas@);
    let mut args: Vec<FnArgs> = Vec::new();
    for kid in it: kids
        invariant
            it.seq() == kids@,
            cs == nodes_view(kids@),
            shell == args_view(metas@),
            kids@.len() == metas@.len(),
            args@.len() == it.index(),
            forall|j: int|
                0 <= j < it.index() ==> (#[trigger] args@[j])@ == (FnArgsView {
                    val: Some(Box::new(cs[j])),
                    ..shell[j]
                }),
    {
        let i = args.len();
        let meta = &metas[i];
        assert(shell[i as int] == meta@);
        assert(cs[i as int] == kid@);
        args.push(FnArgs { sym: copy_bytes(&meta.sym), typ: meta.typ, val: Some(Box::new(kid)) });
    }
    assert(args_view(args@) =~= Seq::new(
        shell.len(),
        |i: int| FnArgsView { val: Some(Box::new(cs[i])), ..shell[i] },
    ));
    args
}

/// Puts the children `kids` into the stripped node `shell`.
pub fn put_children(shell: Node, kids: Vec<Node>, has_elsif: bool, has_else: bool) -> (node: Node)
    requires
        fits_shell(shell@, kids@.len() as nat, has_elsif, has_else),
    ensures
        node@ == fill(shell@, nodes_view(kids@), has_elsif, has_else),
{
    let ghost cs = nodes_view(kids@);
    let mut node = shell;
    let mut kids = kids;
    let kind = node.kind;
    if kind == NodeKind::ND_NUM || kind == NodeKind::ND_IDENT {
    } else if kind == NodeKind::ND_BLOCK {
        node.block_stmts = kids;
    } else if kind_is_wrapper(kind) {
        let a = kids.pop().unwrap();
        assert(a@ == cs[0]);
        node.l = Some(Box::new(a));
    } else if kind == NodeKind::ND_FOR {
        let d = kids.pop().unwrap();
        let c = kids.pop().unwrap();
        let b = kids.pop().unwrap();
        let a = kids.pop().unwrap();
        assert(a@ == cs[0] && b@ == cs[1] && c@ == cs[2] && d@ == cs[3]);
        node.for_node_first_assign = Some(Box::new(a));
        node.for_node_second_condition = Some(Box::new(b));
        node.for_node_third_expr = Some(Box::new(c));
        node.for_node_stmts = Some(Box::new(d));
    } else if kind == NodeKind::ND_IFSTMT {
        if has_else {
            let c = kids.pop().unwrap();
            assert(c@ == cs[cs.len() - 1]);
            node.else_node = Some(Box::new(c));
        } else {
            node.else_node = None;
        }
        if has_elsif {
            let b = kids.pop().unwrap();
            assert(b@ == cs[1]);
            node.elsif_node = Some(Box::new(b));
        } else {
            node.elsif_node = None;
        }
        let a = kids.pop().unwrap();
        assert(a@ == cs[0]);
        node.if_node = Some(Box::new(a));
    } else if kind == NodeKind::ND_FNCALL {
        let args = put_arg_values(&node.fn_call_args, kids);
        node.fn_call_args = args;
    } else {
        let b = kids.pop().unwrap();
        let a = kids.pop().unwrap();
        assert(a@ == cs[0] && b@ == cs[1]);
        node.l = Some(Box::new(a));
        node.r = Some(Box::new(b));
    }
    node
}

/// What is left of `budget` after one unit for each node under an optional
/// child; none where the nodes are more.
fn spend_on_child(c: &Option<Box<Node>>, budget: usize) -> (r: Option<usize>)
    ensures
        match r {
            Some(rest) => child_count(child_view(*c)) + rest == budget,
            None => child_count(child_view(*c)) > budget,
        },
    decreases *c, 0nat,
{
    match c {
        Some(b) => spend_on_node(b, budget),
        None => Some(budget),
    }
}

/// What is left of `budget` after one unit for each node of the trees of a
/// list; none where the nodes are more.
fn spend_on_list(ns: &Vec<Node>, budget: usize) -> (r: Option<usize>)
    ensures
        match r {
            Some(rest) => list_count(nodes_view(ns@), 0) + rest == budget,
            None => list_count(nodes_view(ns@), 0) > budget,
        },
    decreases *ns, 0nat,
{
    let ghost views = nodes_view(ns@);
    let mut rest = budget;
    let mut i: usize = ns.len();
    while i > 0
        invariant
            i <= ns@.len(),
            views == nodes_view(ns@),
            list_count(views, i as nat) + rest == budget,
        decreases i,
    {
        i -= 1;
        assert(views[i as int] == ns@[i as int]@);
        assert(list_count(views, i as nat) == node_count(views[i as int]) + list_count(
            views,
            (i + 1) as nat,
        ));
        match spend_on_node(&ns[i], rest) {
            Some(r) => {
                rest = r;
            },
            None => {
                proof {
                    lemma_list_count_each(views, i as nat);
                }
                return None;
            },
        }
    }
    Some(rest)
}

/// What is left of `budget` after one unit for each node of the values of
/// the arguments of a list; none where the nodes are more.
fn spend_on_args(args: &Vec<FnArgs>, budget: usize) -> (r: Option<usize>)
    ensures
        match r {
            Some(rest) => args_count(args_view(args@), 0) + rest == budget,
            None => args_count(args_view(args@), 0) > budget,
        },
    decreases *args, 0nat,
{
    let ghost views = args_view(args@);
    let mut rest = budget;
    let mut i: usize = args.len();
    while i > 0
        invariant
            i <= args@.len(),
            views == args_view(args@),
            args_count(views, i as nat) + rest == budget,
            args_count(views, i as nat) <= args_count(views, 0),
        decreases i,
    {
        i -= 1;
        assert(views[i as int] == args@[i as int]@);
        assert(args_count(views, i as nat) == child_count(views[i as int].val) + args_count(
            views,
            (i + 1) as nat,
        ));
        proof {
            lemma_args_count_from(views, i as nat);
        }
        match spend_on_child(&args[i].val, rest) {
            Some(r) => {
                rest = r;
            },
            None => {
                return None;
            },
        }
    }
    Some(rest)
}

/// The arguments from a later index on are no more nodes than all of them.
proof fn lemma_args_count_from(args: Seq<FnArgsView>, i: nat)
    requires
        i <= args.len(),
    ensures
        args_count(args, i) <= args_count(args, 0),
    decreases i,
{
    if i > 0 {
        lemma_args_count_from(args, (i - 1) as nat);
        assert(args_count(args, (i - 1) as nat) == child_count(args[i - 1].val) + args_count(
            args,
            i,
        ));
    }
}

/// What is left of `budget` after one unit for each node of the tree; none
/// where the nodes are more.
pub fn spend_on_node(node: &Node, budget: usize) -> (r: Option<usize>)
    ensures
        match r {
            Some(rest) => node_count(node@) + rest == budget,
            None => node_count(node@) > budget,
        },
    decreases *node, 1nat,
{
    if budget == 0 {
        return None;
    }
    let rest = budget - 1;
    let rest =
    match spend_on_child(&node.l, rest) {
        Some(r) => r,
        None => {
            return None;
        },
    };
    let rest =
    match spend_on_child(&node.r, rest) {
        Some(r) => r,
        None => {
            return None;
        },
    };
    let rest =
    match spend_on_child(&node.if_node, rest) {
        Some(r) => r,
        None => {
            return None;
        },
    };
    let rest =
    match spend_on_child(&node.elsif_node, rest) {
        Some(r) => r,
        None => {
            return None;
        },
    };
    let rest =
    match spend_on_child(&node.else_node, rest) {
        Some(r) => r,
        None => {
            return None;
        },
    };
    let rest =
    match spend_on_child(&node.for_node_first_assign, rest) {
        Some(r) => r,
        None => {
            return None;
        },
    };
    let rest =
    match spend_on_child(&node.for_node_second_condition, rest) {
        Some(r) => r,
        None => {
            return None;
        },
    };
    let rest =
    match spend_on_child(&node.for_node_third_expr, rest) {
        Some(r) => r,
        None => {
            return None;
        },
    };
    let rest =
    match spend_on_child(&node.for_node_stmts, rest) {
        Some(r) => r,
        None => {
            return None;
        },
    };
    let rest =
    match spend_on_args(&node.fn_call_args, rest) {
        Some(r) => r,
        None => {
            return None;
        },
    };
    let rest =
    match spend_on_list(&node.block_stmts, rest) {
        Some(r) => r,
        None => {
            return None;
        },
    };
    spend_on_list(&node.fn_blocks, rest)
}

/// Whether the trees of a list have at most `budget` nodes; what is left of
/// the budget then.
pub fn spend_on_nodes(ns: &Vec<Node>, budget: usize) -> (r: Option<usize>)
    ensures
        match r {
            Some(rest) => list_count(nodes_view(ns@), 0) + rest == budget,
            None => list_count(nodes_view(ns@), 0) > budget,
        },
{
    spend_on_list(ns, budget)
}

} // verus!
