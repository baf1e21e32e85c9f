//! What holds of a resolved function: every use of a variable is bound,
//! declarations of one scope differ, and nested blocks extend the labels of
//! the blocks around them.
use vstd::prelude::*;
use crate::intermediate_process::{
    add_params, annotate, declare, enter, find, find_from, fits, fn_arg_label, grew, identity,
    is_scope_end, lemma_find_none, read_list_spec, read_node_spec, resolvable, resolve, resolve_at,
    resolve_function_spec, scope_segment, start_of_walk, table_wf, Variable, Walk,
};
use crate::parse::{FnArgsView, FunctionView, NodeKind, NodeView};
use crate::text::lemma_decimal_len;
use crate::tree::{
    children, complete, lemma_child_smaller, lemma_children_count, lemma_list_count_each,
    lemma_with_children, list_count, node_count,
};

verus! {

/// The state in which a pass that starts in `w` visits the node of index
/// `j` of a list: the state that the node before it leaves.
pub open spec fn state_at(ns: Seq<NodeView>, w: Walk, bind: bool, j: nat) -> Walk
    decreases j,
{
    if j == 0 {
        w
    } else {
        match read_node_spec(ns[j - 1], state_at(ns, w, bind, (j - 1) as nat), bind) {
            Ok((_, w1)) => w1,
            Err(_) => w,
        }
    }
}

/// Whether a pass that starts in `w` gets through the first `k` nodes of a
/// list.
pub open spec fn passes(ns: Seq<NodeView>, w: Walk, bind: bool, k: nat) -> bool {
    forall|j: int|
        0 <= j < k ==> (#[trigger] read_node_spec(ns[j], state_at(ns, w, bind, j as nat), bind)) is Ok
}

/// What the node of index `j` of a list becomes in a pass that starts in `w`.
pub open spec fn node_at(ns: Seq<NodeView>, w: Walk, bind: bool, j: int) -> NodeView {
    read_node_spec(ns[j], state_at(ns, w, bind, j as nat), bind)->Ok_0.0
}

/// A pass over a list that succeeds gets through each of its nodes, in the
/// state that the node before left, and yields what the nodes become.
pub proof fn lemma_read_list_from(
    ns: Seq<NodeView>,
    i: nat,
    w: Walk,
    bind: bool,
    acc: Seq<NodeView>,
)
    requires
        i <= ns.len(),
        acc.len() == i,
        passes(ns, w, bind, i),
        forall|j: int| 0 <= j < i ==> acc[j] == node_at(ns, w, bind, j),
        read_list_spec(ns, i, state_at(ns, w, bind, i), bind, acc) is Ok,
    ensures
        passes(ns, w, bind, ns.len()),
        read_list_spec(ns, i, state_at(ns, w, bind, i), bind, acc)->Ok_0.0.len() == ns.len(),
        forall|j: int|
            0 <= j < ns.len() ==> read_list_spec(
                ns,
                i,
                state_at(ns, w, bind, i),
                bind,
                acc,
            )->Ok_0.0[j] == node_at(ns, w, bind, j),
        read_list_spec(ns, i, state_at(ns, w, bind, i), bind, acc)->Ok_0.1 == state_at(
            ns,
            w,
            bind,
            ns.len(),
        ),
    decreases ns.len() - i,
{
    if i < ns.len() {
        let here = state_at(ns, w, bind, i);
        let step = read_node_spec(ns[i as int], here, bind);
        assert(step is Ok);
        assert(state_at(ns, w, bind, i + 1) == step->Ok_0.1);
        lemma_read_list_from(ns, i + 1, w, bind, acc.push(step->Ok_0.0));
    }
}

/// A pass over a whole list that succeeds gets through each of its nodes.
pub proof fn lemma_read_list(ns: Seq<NodeView>, w: Walk, bind: bool)
    requires
        read_list_spec(ns, 0, w, bind, Seq::empty()) is Ok,
    ensures
        passes(ns, w, bind, ns.len()),
        read_list_spec(ns, 0, w, bind, Seq::empty())->Ok_0.0.len() == ns.len(),
        forall|j: int|
            0 <= j < ns.len() ==> read_list_spec(ns, 0, w, bind, Seq::empty())->Ok_0.0[j]
                == node_at(ns, w, bind, j),
        read_list_spec(ns, 0, w, bind, Seq::empty())->Ok_0.1 == state_at(ns, w, bind, ns.len()),
{
    lemma_read_list_from(ns, 0, w, bind, Seq::empty());
}

/// Whether the table `t` starts with the entries of `s`.
pub open spec fn extends(t: Seq<(Seq<u8>, Variable)>, s: Seq<(Seq<u8>, Variable)>) -> bool {
    s.len() <= t.len() && t.subrange(0, s.len() as int) == s
}

/// What a pass keeps of a node and how its state moves: see `lemma_pass`.
pub open spec fn kept(n: NodeView, w: Walk, bind: bool, m: NodeView, w1: Walk) -> bool {
    &&& m.kind == n.kind
    &&& m.str == n.str
    &&& complete(m)
    &&& children(m).len() == children(n).len()
    &&& w1.label == w.label
    &&& extends(w1.table, w.table)
    &&& 8 * (w1.table.len() - w.table.len()) <= w1.val_size - w.val_size
    &&& table_wf(w.table) ==> table_wf(w1.table)
    &&& bind ==> w1 == w
    &&& bind && n.kind != NodeKind::ND_IDENT ==> m.block_str == n.block_str
    &&& !bind ==> grew(w, w1, node_count(n))
    &&& !bind && n.kind == NodeKind::ND_IDENT ==> w1.val_size == w.val_size + 8 && w1.table
        == w.table
}

/// A table with one more variable under a new identity is well formed.
pub proof fn lemma_declare_wf(t: Seq<(Seq<u8>, Variable)>, key: Seq<u8>)
    requires
        table_wf(t),
        find(t, key) is None,
        8 * (t.len() + 1) <= usize::MAX,
    ensures
        table_wf(declare(t, key)),
        extends(declare(t, key), t),
{
    lemma_find_none(t, key, 0);
    assert(declare(t, key).subrange(0, t.len() as int) =~= t);
}

/// One table extends another that extends a third.
pub proof fn lemma_extends_trans(
    a: Seq<(Seq<u8>, Variable)>,
    b: Seq<(Seq<u8>, Variable)>,
    c: Seq<(Seq<u8>, Variable)>,
)
    requires
        extends(b, a),
        extends(c, b),
    ensures
        extends(c, a),
{
    assert(c.subrange(0, a.len() as int) =~= b.subrange(0, a.len() as int));
}

/// The states of a pass over the children of a node, between the first `k`
/// of them: the label stays, the table grows, and the counters keep within
/// the nodes visited.
pub proof fn lemma_states(ns: Seq<NodeView>, w: Walk, bind: bool, k: nat)
    requires
        k <= ns.len(),
        passes(ns, w, bind, k),
        !bind ==> fits(w, list_count(ns, 0)),
    ensures
        state_at(ns, w, bind, k).label == w.label,
        extends(state_at(ns, w, bind, k).table, w.table),
        8 * (state_at(ns, w, bind, k).table.len() - w.table.len()) <= state_at(
            ns,
            w,
            bind,
            k,
        ).val_size - w.val_size,
        table_wf(w.table) ==> table_wf(state_at(ns, w, bind, k).table),
        bind ==> state_at(ns, w, bind, k) == w,
        !bind ==> grew(w, state_at(ns, w, bind, k), (list_count(ns, 0) - list_count(ns, k)) as nat),
        list_count(ns, k) <= list_count(ns, 0),
        forall|j: int|
            0 <= j < k ==> kept(
                ns[j],
                state_at(ns, w, bind, j as nat),
                bind,
                #[trigger] node_at(ns, w, bind, j),
                state_at(ns, w, bind, (j + 1) as nat),
            ),
    decreases list_count(ns, 0), k,
{
    if k > 0 {
        let j = (k - 1) as nat;
        lemma_states(ns, w, bind, j);
        lemma_list_count_each(ns, j);
        let here = state_at(ns, w, bind, j);
        assert(read_node_spec(ns[j as int], here, bind) is Ok);
        lemma_pass(ns[j as int], here, bind);
        lemma_extends_trans(w.table, here.table, state_at(ns, w, bind, k).table);
        assert(list_count(ns, j) == node_count(ns[j as int]) + list_count(ns, k));
    } else {
        assert(w.table.subrange(0, w.table.len() as int) =~= w.table);
    }
}

/// What a pass keeps of a node and how its state moves: the node keeps its
/// kind, its name and the number of its children, and has every child that
/// its kind requires. The state keeps its scope label; its table keeps its
/// entries and gets at most one more for every eight bytes counted, and stays
/// well formed. The binding pass leaves the state as it is and keeps the scope
/// labels of all nodes but variables.
#[verifier::spinoff_prover]
#[verifier::rlimit(40)]
pub proof fn lemma_pass(n: NodeView, w: Walk, bind: bool)
    requires
        read_node_spec(n, w, bind) is Ok,
        !bind ==> fits(w, node_count(n)),
    ensures
        kept(n, w, bind, read_node_spec(n, w, bind)->Ok_0.0, read_node_spec(n, w, bind)->Ok_0.1),
    decreases node_count(n), 0nat,
{
    let m = read_node_spec(n, w, bind)->Ok_0.0;
    let w1 = read_node_spec(n, w, bind)->Ok_0.1;
    assert(w.table.subrange(0, w.table.len() as int) =~= w.table);
    if n.kind == NodeKind::ND_IDENT {
    } else {
        let inner = enter(n, w, bind)->Ok_0;
        let ns = children(n);
        lemma_children_count(n);
        lemma_read_list(ns, inner, bind);
        lemma_states(ns, inner, bind, ns.len());
        let cs = read_list_spec(ns, 0, inner, bind, Seq::empty())->Ok_0.0;
        let done = read_list_spec(ns, 0, inner, bind, Seq::empty())->Ok_0.1;
        if n.kind == NodeKind::ND_DECL {
            assert(cs[0] == node_at(ns, inner, bind, 0));
            assert(ns[0].kind == NodeKind::ND_IDENT);
            assert(state_at(ns, inner, bind, 1) == read_node_spec(ns[0], inner, bind)->Ok_0.1);
            assert(ns.len() == 2);
            assert(kept(
                ns[0],
                state_at(ns, inner, bind, 0),
                bind,
                node_at(ns, inner, bind, 0),
                state_at(ns, inner, bind, 1),
            ));
            assert(kept(
                ns[1],
                state_at(ns, inner, bind, 1),
                bind,
                node_at(ns, inner, bind, 1),
                state_at(ns, inner, bind, 2),
            ));
            if !bind && table_wf(w.table) {
                lemma_declare_wf(w.table, identity(n.l->0.str, w.label));
            }
            if !bind {
                assert(declare(w.table, identity(n.l->0.str, w.label)).subrange(
                    0,
                    w.table.len() as int,
                ) =~= w.table);
            }
        }
        lemma_with_children(annotate(n, w, bind), cs);
        lemma_extends_trans(w.table, inner.table, done.table);
    }
}

/// Whether `s` starts with `p` and is longer.
pub open spec fn is_proper_prefix(p: Seq<u8>, s: Seq<u8>) -> bool {
    p.len() < s.len() && s.subrange(0, p.len() as int) == p
}

/// Whether `s` starts with `p`.
pub open spec fn is_prefix(p: Seq<u8>, s: Seq<u8>) -> bool {
    p.len() <= s.len() && s.subrange(0, p.len() as int) == p
}

/// Whether every node of the tree has the children that its kind requires,
/// and every block in it, the tree's root too, has a scope label that `p` is
/// a proper prefix of.
pub open spec fn blocks_extend(n: NodeView, p: Seq<u8>) -> bool
    decreases node_count(n),
{
    &&& n.kind == NodeKind::ND_BLOCK ==> is_proper_prefix(p, n.block_str)
    &&& complete(n)
    &&& forall|j: int|
        0 <= j < children(n).len() ==> {
            proof {
                lemma_child_smaller(n, j);
            }
            blocks_extend(#[trigger] children(n)[j], p)
        }
}

/// Whether, for every block of the tree, the scope label of the block is a
/// proper prefix of the scope labels of the blocks nested in it.
pub open spec fn nested_blocks_extend(n: NodeView) -> bool
    decreases node_count(n),
{
    &&& complete(n)
    &&& forall|j: int|
        0 <= j < children(n).len() ==> {
            proof {
                lemma_child_smaller(n, j);
            }
            &&& n.kind == NodeKind::ND_BLOCK ==> blocks_extend(#[trigger] children(n)[j], n.block_str)
            &&& nested_blocks_extend(children(n)[j])
        }
}

/// The state in which a pass visits a child has room for the child, where
/// the state in which it visits the first child has room for all of them.
pub proof fn lemma_child_fits(ns: Seq<NodeView>, w: Walk, j: nat)
    requires
        j < ns.len(),
        passes(ns, w, false, j),
        fits(w, list_count(ns, 0)),
    ensures
        fits(state_at(ns, w, false, j), node_count(ns[j as int])),
{
    lemma_states(ns, w, false, j);
    lemma_list_count_each(ns, j);
}

/// The state in which a pass visits the children of a node has room for all
/// of them, where the state before the node has room for the node.
pub proof fn lemma_inner_fits(n: NodeView, w: Walk)
    requires
        n.kind != NodeKind::ND_IDENT,
        complete(n),
        enter(n, w, false) is Ok,
        fits(w, node_count(n)),
    ensures
        fits(enter(n, w, false)->Ok_0, list_count(children(n), 0)),
{
    lemma_children_count(n);
}

/// Every label starts with itself.
pub proof fn lemma_prefix_refl(label: Seq<u8>)
    ensures
        is_prefix(label, label),
{
    assert(label.subrange(0, label.len() as int) =~= label);
}

/// A label followed by a segment extends what the label extends.
pub proof fn lemma_prefix_of_longer(p: Seq<u8>, label: Seq<u8>, k: nat)
    requires
        is_prefix(p, label),
    ensures
        is_proper_prefix(p, label + scope_segment(k)),
        is_prefix(p, label + scope_segment(k)),
{
    lemma_decimal_len(k);
    assert((label + scope_segment(k)).subrange(0, p.len() as int) =~= label.subrange(
        0,
        p.len() as int,
    ));
}

/// After a pass, `p` is a proper prefix of the scope label of every block of
/// the tree: after the labelling pass where `p` is a prefix of the label of
/// the scope that the pass is in, after the binding pass where it was so
/// before.
#[verifier::spinoff_prover]
#[verifier::rlimit(40)]
pub proof fn lemma_blocks(n: NodeView, w: Walk, bind: bool, p: Seq<u8>)
    requires
        read_node_spec(n, w, bind) is Ok,
        !bind ==> fits(w, node_count(n)),
        !bind ==> is_prefix(p, w.label),
        bind ==> blocks_extend(n, p),
    ensures
        blocks_extend(read_node_spec(n, w, bind)->Ok_0.0, p),
    decreases node_count(n),
{
    let m = read_node_spec(n, w, bind)->Ok_0.0;
    lemma_pass(n, w, bind);
    if n.kind == NodeKind::ND_IDENT {
        assert(children(m).len() == 0);
    } else {
        let inner = enter(n, w, bind)->Ok_0;
        let ns = children(n);
        lemma_children_count(n);
        lemma_read_list(ns, inner, bind);
        let cs = read_list_spec(ns, 0, inner, bind, Seq::empty())->Ok_0.0;
        if !bind {
            lemma_inner_fits(n, w);
            lemma_prefix_of_longer(p, w.label, w.blocks + 1);
        }
        lemma_states(ns, inner, bind, ns.len());
        assert forall|j: int| 0 <= j < cs.len() implies blocks_extend(#[trigger] cs[j], p) by {
            lemma_child_smaller(n, j);
            lemma_states(ns, inner, bind, j as nat);
            if !bind {
                lemma_child_fits(ns, inner, j as nat);
            } else {
                assert(blocks_extend(children(n)[j], p));
            }
            assert(cs[j] == node_at(ns, inner, bind, j));
            lemma_blocks(ns[j], state_at(ns, inner, bind, j as nat), bind, p);
        }
        if n.kind == NodeKind::ND_DECL {
            assert(kept(
                ns[0],
                state_at(ns, inner, bind, 0),
                bind,
                node_at(ns, inner, bind, 0),
                state_at(ns, inner, bind, 1),
            ));
        }
        lemma_with_children(annotate(n, w, bind), cs);
    }
}

/// After a pass, the scope label of every block of the tree is a proper
/// prefix of the scope labels of the blocks nested in it: after the labelling
/// pass always, after the binding pass where it was so before.
#[verifier::spinoff_prover]
#[verifier::rlimit(40)]
pub proof fn lemma_nested(n: NodeView, w: Walk, bind: bool)
    requires
        read_node_spec(n, w, bind) is Ok,
        !bind ==> fits(w, node_count(n)),
        bind ==> nested_blocks_extend(n),
    ensures
        nested_blocks_extend(read_node_spec(n, w, bind)->Ok_0.0),
    decreases node_count(n),
{
    let m = read_node_spec(n, w, bind)->Ok_0.0;
    lemma_pass(n, w, bind);
    if n.kind == NodeKind::ND_IDENT {
        assert(children(m).len() == 0);
    } else {
        let inner = enter(n, w, bind)->Ok_0;
        let ns = children(n);
        lemma_children_count(n);
        lemma_read_list(ns, inner, bind);
        let cs = read_list_spec(ns, 0, inner, bind, Seq::empty())->Ok_0.0;
        if !bind {
            lemma_inner_fits(n, w);
        }
        lemma_states(ns, inner, bind, ns.len());
        if n.kind == NodeKind::ND_DECL {
            assert(kept(
                ns[0],
                state_at(ns, inner, bind, 0),
                bind,
                node_at(ns, inner, bind, 0),
                state_at(ns, inner, bind, 1),
            ));
        }
        lemma_with_children(annotate(n, w, bind), cs);
        assert forall|j: int| 0 <= j < cs.len() implies (m.kind == NodeKind::ND_BLOCK
            ==> blocks_extend(#[trigger] cs[j], m.block_str)) && nested_blocks_extend(cs[j]) by {
            lemma_child_smaller(n, j);
            lemma_states(ns, inner, bind, j as nat);
            let here = state_at(ns, inner, bind, j as nat);
            assert(cs[j] == node_at(ns, inner, bind, j));
            if !bind {
                lemma_child_fits(ns, inner, j as nat);
                lemma_prefix_refl(inner.label);
                if n.kind == NodeKind::ND_BLOCK {
                    lemma_blocks(ns[j], here, bind, inner.label);
                }
            } else {
                assert(nested_blocks_extend(children(n)[j]));
                if n.kind == NodeKind::ND_BLOCK {
                    assert(blocks_extend(children(n)[j], n.block_str));
                    lemma_blocks(ns[j], here, bind, n.block_str);
                }
            }
            lemma_nested(ns[j], here, bind);
        }
    }
}

/// What holds of the blocks of a list of statements: see
/// `lemma_resolved_blocks_nest`.
pub open spec fn blocks_nest(stmts: Seq<NodeView>) -> bool {
    forall|j: int|
        0 <= j < stmts.len() ==> blocks_extend(#[trigger] stmts[j], fn_arg_label())
            && nested_blocks_extend(stmts[j])
}

/// A pass over a list of statements leaves their blocks nested.
proof fn lemma_list_blocks_nest(ns: Seq<NodeView>, w: Walk, bind: bool)
    requires
        read_list_spec(ns, 0, w, bind, Seq::empty()) is Ok,
        !bind ==> fits(w, list_count(ns, 0)) && is_prefix(fn_arg_label(), w.label),
        bind ==> blocks_nest(ns),
    ensures
        blocks_nest(read_list_spec(ns, 0, w, bind, Seq::empty())->Ok_0.0),
{
    lemma_read_list(ns, w, bind);
    let out = read_list_spec(ns, 0, w, bind, Seq::empty())->Ok_0.0;
    assert forall|j: int| 0 <= j < out.len() implies blocks_extend(
        #[trigger] out[j],
        fn_arg_label(),
    ) && nested_blocks_extend(out[j]) by {
        lemma_states(ns, w, bind, j as nat);
        let here = state_at(ns, w, bind, j as nat);
        if !bind {
            lemma_child_fits(ns, w, j as nat);
        } else {
            assert(blocks_extend(ns[j], fn_arg_label()));
        }
        assert(out[j] == node_at(ns, w, bind, j));
        lemma_blocks(ns[j], here, bind, fn_arg_label());
        lemma_nested(ns[j], here, bind);
    }
}

/// In a resolved function, the scope label of every block is a proper prefix
/// of the scope labels of the blocks nested in it, and the label `_1` of the
/// function's body is a proper prefix of the scope label of every block.
pub proof fn lemma_resolved_blocks_nest(f: FunctionView)
    requires
        resolvable(f),
        resolve_function_spec(f) is Ok,
    ensures
        blocks_nest(resolve_function_spec(f)->Ok_0.root_node.fn_blocks),
{
    let stmts = f.root_node.fn_blocks;
    let start = start_of_walk();
    lemma_prefix_refl(fn_arg_label());
    lemma_list_blocks_nest(stmts, start, false);
    let labelled = read_list_spec(stmts, 0, start, false, Seq::empty())->Ok_0.0;
    let w = read_list_spec(stmts, 0, start, false, Seq::empty())->Ok_0.1;
    let table = add_params(f.fn_args, 0, w.table)->Ok_0;
    lemma_list_blocks_nest(labelled, Walk { table, ..w }, true);
}

/// Whether every node of the tree has the children that its kind requires,
/// and every variable in it is bound in the table `t`: looked up as
/// `resolve` says, from the scope that the variable carries, it is found, at
/// an offset that is a positive multiple of 8 and at most `limit`.
pub open spec fn idents_bound(n: NodeView, t: Seq<(Seq<u8>, Variable)>, limit: nat) -> bool
    decreases node_count(n),
{
    &&& n.kind == NodeKind::ND_IDENT ==> {
        &&& resolve(t, n.str, n.block_str) matches Some((v, _))
        &&& 0 < v.offset <= limit
        &&& v.offset % 8 == 0
    }
    &&& complete(n)
    &&& forall|j: int|
        0 <= j < children(n).len() ==> {
            proof {
                lemma_child_smaller(n, j);
            }
            idents_bound(#[trigger] children(n)[j], t, limit)
        }
}

/// What `find_from` finds is an entry of the table.
pub proof fn lemma_find_some(t: Seq<(Seq<u8>, Variable)>, key: Seq<u8>, i: int)
    requires
        0 <= i,
        find_from(t, key, i) is Some,
    ensures
        exists|k: int| i <= k < t.len() && #[trigger] t[k] == (key, find_from(t, key, i)->0),
    decreases t.len() - i,
{
    if i < t.len() {
        if t[i].0 == key {
            assert(t[i] == (key, find_from(t, key, i)->0));
        } else {
            lemma_find_some(t, key, i + 1);
        }
    }
}

/// The offset of a variable of a well-formed table is a positive multiple of
/// 8, and at most 8 for each entry.
pub proof fn lemma_find_offset(t: Seq<(Seq<u8>, Variable)>, key: Seq<u8>)
    requires
        table_wf(t),
        find(t, key) is Some,
    ensures
        0 < find(t, key)->0.offset <= 8 * t.len(),
        find(t, key)->0.offset % 8 == 0,
{
    lemma_find_some(t, key, 0);
    let k = choose|k: int| 0 <= k < t.len() && #[trigger] t[k] == (key, find(t, key)->0);
    assert(t[k].1.offset == 8 * (k + 1));
}

/// The scope in which a variable is found is a part of the label it was
/// looked up from, and holds the variable.
pub proof fn lemma_resolve_at(t: Seq<(Seq<u8>, Variable)>, symbol: Seq<u8>, label: Seq<u8>, m: nat)
    requires
        m <= label.len(),
        resolve_at(t, symbol, label, m) is Some,
    ensures
        ({
            let (v, scope) = resolve_at(t, symbol, label, m)->0;
            &&& 0 < scope.len() <= m
            &&& scope == label.subrange(0, scope.len() as int)
            &&& find(t, identity(symbol, scope)) == Some(v)
        }),
    decreases m,
{
    if m > 0 {
        if is_scope_end(label, m as int) && find(
            t,
            identity(symbol, label.subrange(0, m as int)),
        ) is Some {
        } else {
            lemma_resolve_at(t, symbol, label, (m - 1) as nat);
        }
    }
}

/// A variable looked up from the scope it was found in is found there.
pub proof fn lemma_resolve_again(t: Seq<(Seq<u8>, Variable)>, symbol: Seq<u8>, label: Seq<u8>)
    requires
        resolve(t, symbol, label) is Some,
    ensures
        ({
            let (v, scope) = resolve(t, symbol, label)->0;
            &&& resolve(t, symbol, scope) == resolve(t, symbol, label)
            &&& is_prefix(scope, label)
            &&& find(t, identity(symbol, scope)) == Some(v)
        }),
{
    lemma_resolve_at(t, symbol, label, label.len());
    let (v, scope) = resolve(t, symbol, label)->0;
    assert(scope.subrange(0, scope.len() as int) =~= scope);
}

/// After the binding pass every variable of the tree is bound in the table,
/// at an offset of at most 8 for each entry of the table.
#[verifier::spinoff_prover]
#[verifier::rlimit(40)]
pub proof fn lemma_bound(n: NodeView, w: Walk, limit: nat)
    requires
        read_node_spec(n, w, true) is Ok,
        table_wf(w.table),
        8 * w.table.len() <= limit,
    ensures
        idents_bound(read_node_spec(n, w, true)->Ok_0.0, w.table, limit),
    decreases node_count(n),
{
    let m = read_node_spec(n, w, true)->Ok_0.0;
    lemma_pass(n, w, true);
    if n.kind == NodeKind::ND_IDENT {
        lemma_resolve_again(w.table, n.str, n.block_str);
        lemma_find_offset(w.table, identity(n.str, m.block_str));
        assert(children(m).len() == 0);
    } else {
        let ns = children(n);
        lemma_children_count(n);
        lemma_read_list(ns, w, true);
        let cs = read_list_spec(ns, 0, w, true, Seq::empty())->Ok_0.0;
        lemma_states(ns, w, true, ns.len());
        if n.kind == NodeKind::ND_DECL {
            assert(kept(
                ns[0],
                state_at(ns, w, true, 0),
                true,
                node_at(ns, w, true, 0),
                state_at(ns, w, true, 1),
            ));
        }
        lemma_with_children(n, cs);
        assert forall|j: int| 0 <= j < cs.len() implies idents_bound(
            #[trigger] cs[j],
            w.table,
            limit,
        ) by {
            lemma_child_smaller(n, j);
            lemma_states(ns, w, true, j as nat);
            assert(cs[j] == node_at(ns, w, true, j));
            lemma_bound(ns[j], state_at(ns, w, true, j as nat), limit);
        }
    }
}

/// The table with the parameters is well formed and has one entry more for
/// each parameter.
pub proof fn lemma_add_params(args: Seq<FnArgsView>, i: nat, t: Seq<(Seq<u8>, Variable)>)
    requires
        i <= args.len(),
        table_wf(t),
        8 * (t.len() + args.len() - i) <= usize::MAX,
        add_params(args, i, t) is Ok,
    ensures
        table_wf(add_params(args, i, t)->Ok_0),
        add_params(args, i, t)->Ok_0.len() == t.len() + args.len() - i,
        extends(add_params(args, i, t)->Ok_0, t),
    decreases args.len() - i,
{
    if i < args.len() {
        let key = identity(args[i as int].sym, fn_arg_label());
        lemma_declare_wf(t, key);
        lemma_add_params(args, i + 1, declare(t, key));
        lemma_extends_trans(t, declare(t, key), add_params(args, i, t)->Ok_0);
    } else {
        assert(t.subrange(0, t.len() as int) =~= t);
    }
}

/// What holds of the variables of a list of statements: see
/// `lemma_resolved_idents`.
pub open spec fn all_idents_bound(
    stmts: Seq<NodeView>,
    t: Seq<(Seq<u8>, Variable)>,
    limit: nat,
) -> bool {
    forall|j: int| 0 <= j < stmts.len() ==> idents_bound(#[trigger] stmts[j], t, limit)
}

/// In a resolved function, the lookup of every variable succeeds: from the
/// scope that the variable carries outwards it is found in the function's
/// table, at an offset that is a positive multiple of 8 and at most the
/// bytes of the locals and of the parameters together. The table is well
/// formed. In a function without parameters the offset is at most `lv_size`.
pub proof fn lemma_resolved_idents(f: FunctionView)
    requires
        resolvable(f),
        resolve_function_spec(f) is Ok,
    ensures
        all_idents_bound(
            resolve_function_spec(f)->Ok_0.root_node.fn_blocks,
            resolve_function_spec(f)->Ok_0.local_variable,
            (resolve_function_spec(f)->Ok_0.lv_size + resolve_function_spec(f)->Ok_0.fn_args_size) as nat,
        ),
        table_wf(resolve_function_spec(f)->Ok_0.local_variable),
        resolve_function_spec(f)->Ok_0.lv_size % 8 == 0,
        resolve_function_spec(f)->Ok_0.fn_args_size == 8 * f.fn_args.len(),
        f.fn_args.len() == 0 ==> resolve_function_spec(f)->Ok_0.fn_args_size == 0,
{
    let g = resolve_function_spec(f)->Ok_0;
    let stmts = f.root_node.fn_blocks;
    let start = start_of_walk();
    lemma_read_list(stmts, start, false);
    lemma_states(stmts, start, false, stmts.len());
    lemma_val_size(stmts, start, stmts.len());
    let labelled = read_list_spec(stmts, 0, start, false, Seq::empty())->Ok_0.0;
    let w = read_list_spec(stmts, 0, start, false, Seq::empty())->Ok_0.1;
    lemma_add_params(f.fn_args, 0, w.table);
    let table = add_params(f.fn_args, 0, w.table)->Ok_0;
    let w2 = Walk { table, ..w };
    let limit = (g.lv_size + g.fn_args_size) as nat;
    lemma_read_list(labelled, w2, true);
    let bound = read_list_spec(labelled, 0, w2, true, Seq::empty())->Ok_0.0;
    assert forall|j: int| 0 <= j < bound.len() implies idents_bound(
        #[trigger] bound[j],
        table,
        limit,
    ) by {
        lemma_states(labelled, w2, true, j as nat);
        assert(bound[j] == node_at(labelled, w2, true, j));
        lemma_bound(labelled[j], state_at(labelled, w2, true, j as nat), limit);
    }
}

/// The bytes counted by the labelling pass are a multiple of 8.
pub proof fn lemma_val_size(ns: Seq<NodeView>, w: Walk, k: nat)
    requires
        k <= ns.len(),
        passes(ns, w, false, k),
        fits(w, list_count(ns, 0)),
        w.val_size % 8 == 0,
    ensures
        state_at(ns, w, false, k).val_size % 8 == 0,
    decreases list_count(ns, 0), k,
{
    if k > 0 {
        let j = (k - 1) as nat;
        lemma_val_size(ns, w, j);
        lemma_list_count_each(ns, j);
        lemma_child_fits(ns, w, j);
        lemma_node_val_size(ns[j as int], state_at(ns, w, false, j));
    }
}

/// The bytes counted by the labelling pass are a multiple of 8.
pub proof fn lemma_node_val_size(n: NodeView, w: Walk)
    requires
        read_node_spec(n, w, false) is Ok,
        fits(w, node_count(n)),
        w.val_size % 8 == 0,
    ensures
        read_node_spec(n, w, false)->Ok_0.1.val_size % 8 == 0,
    decreases node_count(n), 0nat,
{
    if n.kind != NodeKind::ND_IDENT {
        let inner = enter(n, w, false)->Ok_0;
        let ns = children(n);
        lemma_children_count(n);
        lemma_inner_fits(n, w);
        lemma_read_list(ns, inner, false);
        lemma_val_size(ns, inner, ns.len());
    }
}

/// The declaration that a node is, if it is one: its symbol and its scope
/// label.
pub open spec fn own_decl(n: NodeView) -> Seq<(Seq<u8>, Seq<u8>)> {
    if n.kind == NodeKind::ND_DECL && n.l is Some {
        seq![(n.l->0.str, n.block_str)]
    } else {
        Seq::empty()
    }
}

/// The declarations of the trees of a list from index `i` on, in the order
/// in which a pass meets them.
pub open spec fn list_decls(ns: Seq<NodeView>, i: nat) -> Seq<(Seq<u8>, Seq<u8>)>
    decreases list_count(ns, i), ns.len() - i,
{
    if i >= ns.len() {
        Seq::empty()
    } else {
        decls(ns[i as int]) + list_decls(ns, i + 1)
    }
}

/// The declarations of a tree, each with its symbol and its scope label, in
/// the order in which a pass meets them.
pub open spec fn decls(n: NodeView) -> Seq<(Seq<u8>, Seq<u8>)>
    decreases node_count(n), 0nat,
{
    if !complete(n) {
        Seq::empty()
    } else {
        proof {
            lemma_children_count(n);
        }
        own_decl(n) + list_decls(children(n), 0)
    }
}

/// The identities of declarations.
pub open spec fn identities(ds: Seq<(Seq<u8>, Seq<u8>)>) -> Seq<Seq<u8>> {
    Seq::new(ds.len(), |k: int| identity(ds[k].0, ds[k].1))
}

/// The identities of the entries of a table from index `a` on.
pub open spec fn keys_from(t: Seq<(Seq<u8>, Variable)>, a: nat) -> Seq<Seq<u8>> {
    Seq::new((t.len() - a) as nat, |k: int| t[a + k].0)
}

/// The declarations of two lists of trees that agree in them, tree by tree.
pub proof fn lemma_list_decls_same(a: Seq<NodeView>, b: Seq<NodeView>, i: nat)
    requires
        a.len() == b.len(),
        forall|j: int| i <= j < a.len() ==> decls(#[trigger] a[j]) == decls(b[j]),
    ensures
        list_decls(a, i) == list_decls(b, i),
    decreases a.len() - i,
{
    if i < a.len() {
        lemma_list_decls_same(a, b, i + 1);
        assert(decls(a[i as int]) == decls(b[i as int]));
    }
}

/// The binding pass keeps the declarations of a tree.
#[verifier::spinoff_prover]
#[verifier::rlimit(40)]
pub proof fn lemma_bind_decls(n: NodeView, w: Walk)
    requires
        read_node_spec(n, w, true) is Ok,
    ensures
        decls(read_node_spec(n, w, true)->Ok_0.0) == decls(n),
    decreases node_count(n),
{
    let m = read_node_spec(n, w, true)->Ok_0.0;
    lemma_pass(n, w, true);
    if n.kind == NodeKind::ND_IDENT {
        assert(children(m).len() == 0);
        assert(list_decls(children(m), 0) =~= list_decls(children(n), 0));
    } else {
        let ns = children(n);
        lemma_children_count(n);
        lemma_read_list(ns, w, true);
        let cs = read_list_spec(ns, 0, w, true, Seq::empty())->Ok_0.0;
        lemma_states(ns, w, true, ns.len());
        if n.kind == NodeKind::ND_DECL {
            assert(kept(
                ns[0],
                state_at(ns, w, true, 0),
                true,
                node_at(ns, w, true, 0),
                state_at(ns, w, true, 1),
            ));
            assert(cs[0] == node_at(ns, w, true, 0));
        }
        lemma_with_children(n, cs);
        assert forall|j: int| 0 <= j < cs.len() implies decls(#[trigger] cs[j]) == decls(ns[j]) by {
            lemma_child_smaller(n, j);
            lemma_states(ns, w, true, j as nat);
            assert(cs[j] == node_at(ns, w, true, j));
            lemma_bind_decls(ns[j], state_at(ns, w, true, j as nat));
        }
        lemma_list_decls_same(cs, ns, 0);
        assert(m.l is Some == n.l is Some);
        if n.kind == NodeKind::ND_DECL {
            assert(m.l->0 == cs[0]);
            assert(n.l->0 == ns[0]);
        }
    }
}

/// The keys of a table from `a` on are those up to `b` and those from `b`
/// on.
pub proof fn lemma_keys_split(t: Seq<(Seq<u8>, Variable)>, s: Seq<(Seq<u8>, Variable)>, a: nat)
    requires
        a <= s.len(),
        extends(t, s),
    ensures
        keys_from(t, a) == keys_from(s, a) + keys_from(t, s.len()),
{
    assert forall|k: int| 0 <= k < s.len() - a implies keys_from(t, a)[k] == keys_from(s, a)[k] by {
        assert(t.subrange(0, s.len() as int)[a + k] == s[a + k]);
    }
    assert(keys_from(t, a) =~= keys_from(s, a) + keys_from(t, s.len()));
}

/// The identities of two lists of declarations, one after the other.
pub proof fn lemma_identities_add(a: Seq<(Seq<u8>, Seq<u8>)>, b: Seq<(Seq<u8>, Seq<u8>)>)
    ensures
        identities(a + b) == identities(a) + identities(b),
{
    assert(identities(a + b) =~= identities(a) + identities(b));
}

/// The entries that the labelling pass adds to the table while it visits the
/// nodes of a list from index `j` on are the declarations of what these
/// nodes become, in order.
pub proof fn lemma_list_label_decls(ns: Seq<NodeView>, w: Walk, out: Seq<NodeView>, j: nat)
    requires
        j <= ns.len(),
        passes(ns, w, false, ns.len()),
        fits(w, list_count(ns, 0)),
        out.len() == ns.len(),
        forall|k: int| 0 <= k < ns.len() ==> out[k] == node_at(ns, w, false, k),
    ensures
        extends(state_at(ns, w, false, ns.len()).table, state_at(ns, w, false, j).table),
        keys_from(state_at(ns, w, false, ns.len()).table, state_at(ns, w, false, j).table.len())
            == identities(list_decls(out, j)),
    decreases list_count(ns, 0), ns.len() - j,
{
    let last = state_at(ns, w, false, ns.len()).table;
    let here = state_at(ns, w, false, j);
    if j < ns.len() {
        let next = state_at(ns, w, false, j + 1);
        lemma_list_label_decls(ns, w, out, j + 1);
        lemma_states(ns, w, false, j);
        lemma_child_fits(ns, w, j);
        lemma_list_count_each(ns, j);
        assert(read_node_spec(ns[j as int], here, false) is Ok);
        lemma_label_decls(ns[j as int], here);
        lemma_pass(ns[j as int], here, false);
        lemma_extends_trans(here.table, next.table, last);
        lemma_keys_split(last, next.table, here.table.len());
        lemma_identities_add(decls(out[j as int]), list_decls(out, j + 1));
        assert(out[j as int] == node_at(ns, w, false, j as int));
    } else {
        assert(last.subrange(0, last.len() as int) =~= last);
        assert(keys_from(last, last.len()) =~= identities(list_decls(out, j)));
    }
}

/// The entries that the labelling pass adds to the table while it visits a
/// tree are the declarations of what the tree becomes, in order.
#[verifier::spinoff_prover]
#[verifier::rlimit(60)]
pub proof fn lemma_label_decls(n: NodeView, w: Walk)
    requires
        read_node_spec(n, w, false) is Ok,
        fits(w, node_count(n)),
    ensures
        keys_from(read_node_spec(n, w, false)->Ok_0.1.table, w.table.len()) == identities(
            decls(read_node_spec(n, w, false)->Ok_0.0),
        ),
    decreases node_count(n), 0nat,
{
    let m = read_node_spec(n, w, false)->Ok_0.0;
    let w1 = read_node_spec(n, w, false)->Ok_0.1;
    lemma_pass(n, w, false);
    if n.kind == NodeKind::ND_IDENT {
        assert(children(m).len() == 0);
        assert(keys_from(w1.table, w.table.len()) =~= identities(decls(m)));
    } else {
        let inner = enter(n, w, false)->Ok_0;
        let ns = children(n);
        lemma_children_count(n);
        lemma_inner_fits(n, w);
        lemma_read_list(ns, inner, false);
        let cs = read_list_spec(ns, 0, inner, false, Seq::empty())->Ok_0.0;
        let done = read_list_spec(ns, 0, inner, false, Seq::empty())->Ok_0.1;
        lemma_states(ns, inner, false, ns.len());
        lemma_list_label_decls(ns, inner, cs, 0);
        if n.kind == NodeKind::ND_DECL {
            assert(kept(
                ns[0],
                state_at(ns, inner, false, 0),
                false,
                node_at(ns, inner, false, 0),
                state_at(ns, inner, false, 1),
            ));
            assert(cs[0] == node_at(ns, inner, false, 0));
        }
        lemma_with_children(annotate(n, w, false), cs);
        assert(w1.table == done.table);
        assert(decls(m) == own_decl(m) + list_decls(cs, 0));
        lemma_identities_add(own_decl(m), list_decls(cs, 0));
        if n.kind == NodeKind::ND_DECL {
            let key = identity(n.l->0.str, w.label);
            assert(m.l->0 == cs[0]);
            assert(n.l->0 == ns[0]);
            assert(m.block_str == w.label);
            assert(identities(own_decl(m)) =~= seq![key]);
            assert(extends(inner.table, w.table)) by {
                assert(declare(w.table, key).subrange(0, w.table.len() as int) =~= w.table);
            }
            lemma_keys_split(done.table, inner.table, w.table.len());
            assert(keys_from(inner.table, w.table.len()) =~= seq![key]);
        } else {
            assert(identities(own_decl(m)) =~= Seq::empty());
            assert(inner.table == w.table);
        }
    }
}

/// Whether any two of the declarations that have one scope label differ in
/// their symbols.
pub open spec fn decls_differ(ds: Seq<(Seq<u8>, Seq<u8>)>) -> bool {
    forall|i: int, j: int|
        0 <= i < j < ds.len() && (#[trigger] ds[i]).1 == (#[trigger] ds[j]).1 ==> ds[i].0
            != ds[j].0
}

/// In a resolved function, any two declarations with one scope label
/// declare different symbols. The table of the function starts with one
/// entry for each declaration, in their order, under its identity.
pub proof fn lemma_resolved_decls_differ(f: FunctionView)
    requires
        resolvable(f),
        resolve_function_spec(f) is Ok,
    ensures
        decls_differ(list_decls(resolve_function_spec(f)->Ok_0.root_node.fn_blocks, 0)),
        list_decls(resolve_function_spec(f)->Ok_0.root_node.fn_blocks, 0).len()
            <= resolve_function_spec(f)->Ok_0.local_variable.len(),
        forall|k: int|
            0 <= k < list_decls(resolve_function_spec(f)->Ok_0.root_node.fn_blocks, 0).len()
                ==> (#[trigger] resolve_function_spec(f)->Ok_0.local_variable[k]).0 == identities(
                list_decls(resolve_function_spec(f)->Ok_0.root_node.fn_blocks, 0),
            )[k],
{
    let g = resolve_function_spec(f)->Ok_0;
    let stmts = f.root_node.fn_blocks;
    let start = start_of_walk();
    lemma_read_list(stmts, start, false);
    lemma_states(stmts, start, false, stmts.len());
    let labelled = read_list_spec(stmts, 0, start, false, Seq::empty())->Ok_0.0;
    let w = read_list_spec(stmts, 0, start, false, Seq::empty())->Ok_0.1;
    lemma_list_label_decls(stmts, start, labelled, 0);
    lemma_add_params(f.fn_args, 0, w.table);
    let table = add_params(f.fn_args, 0, w.table)->Ok_0;
    let w2 = Walk { table, ..w };
    lemma_read_list(labelled, w2, true);
    let bound = read_list_spec(labelled, 0, w2, true, Seq::empty())->Ok_0.0;
    assert forall|j: int| 0 <= j < bound.len() implies decls(#[trigger] bound[j]) == decls(
        labelled[j],
    ) by {
        lemma_states(labelled, w2, true, j as nat);
        assert(bound[j] == node_at(labelled, w2, true, j));
        lemma_bind_decls(labelled[j], state_at(labelled, w2, true, j as nat));
    }
    lemma_list_decls_same(bound, labelled, 0);
    let ds = list_decls(bound, 0);
    let keys = identities(ds);
    assert(keys == keys_from(w.table, 0));
    assert forall|k: int| 0 <= k < ds.len() implies (#[trigger] table[k]).0 == keys[k] by {
        assert(table.subrange(0, w.table.len() as int)[k] == w.table[k]);
        assert(keys_from(w.table, 0)[k] == w.table[0 + k].0);
    }
    assert forall|i: int, j: int|
        0 <= i < j < ds.len() && (#[trigger] ds[i]).1 == (#[trigger] ds[j]).1 implies ds[i].0
        != ds[j].0 by {
        assert(table[i].0 == keys[i]);
        assert(table[j].0 == keys[j]);
        assert(table[i].0 != table[j].0);
    }
}

} // verus!
