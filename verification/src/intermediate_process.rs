//! The resolver: scope labels, the table of local variables, frame sizes.
use vstd::prelude::*;
use crate::errors::CompileError;
use crate::parse::{
    args_view, functions_view, lemma_functions_view_push, lemma_nodes_view_push, nodes_view,
    FnArgs, FnArgsView, Function, FunctionView, Node, NodeKind, NodeView,
};
use crate::text::{bytes_eq, bytes_eq_prefix, copy_bytes, decimal, put_bytes, put_decimal};
use crate::tree::{
    children, complete, lemma_children_count, lemma_children_fit, list_count, node_count,
    put_children, spend_on_nodes, strip, take_children, with_children, Taken,
};
use crate::tokenize::Type;

verus! {

/// The scope label under which the parameters of a function are bound: `_1`,
/// that of the function's body.
pub open spec fn fn_arg_label() -> Seq<u8> {
    seq!['_' as u8, '1' as u8]
}

/// The scope label `_1` of the parameters.
pub fn fn_arg_block_str() -> (label: Vec<u8>)
    ensures
        label@ == fn_arg_label(),
{
    let label = vec!['_' as u8, '1' as u8];
    assert(label@ =~= fn_arg_label());
    label
}

/// A local variable: its type and its offset below the frame pointer.
#[derive(Clone, Copy, Debug, PartialEq, Eq, Structural)]
pub struct Variable {
    pub typ: Type,
    pub offset: usize,
}

impl Variable {
    pub fn new(offset: usize, typ: Type) -> (v: Variable)
        ensures
            v == (Variable { typ, offset }),
    {
        Variable { offset, typ }
    }
}

/// The identity of a variable: its symbol followed by its scope label.
pub open spec fn identity(symbol: Seq<u8>, block_str: Seq<u8>) -> Seq<u8> {
    symbol + block_str
}

/// The variable entered under `key`, if there is one at or after index `i`.
pub open spec fn find_from(t: Seq<(Seq<u8>, Variable)>, key: Seq<u8>, i: int) -> Option<Variable>
    decreases t.len() - i,
{
    if i < 0 || i >= t.len() {
        None
    } else if t[i].0 == key {
        Some(t[i].1)
    } else {
        find_from(t, key, i + 1)
    }
}

/// The variable entered under `key`, if there is one.
pub open spec fn find(t: Seq<(Seq<u8>, Variable)>, key: Seq<u8>) -> Option<Variable> {
    find_from(t, key, 0)
}

/// What holds of every table: no identity occurs twice, and the entries have
/// the offsets 8, 16, 24, ... in the order in which they were made.
pub open spec fn table_wf(t: Seq<(Seq<u8>, Variable)>) -> bool {
    &&& forall|i: int| 0 <= i < t.len() ==> (#[trigger] t[i]).1.offset == 8 * (i + 1)
    &&& forall|i: int, j: int| 0 <= i < j < t.len() ==> (#[trigger] t[i]).0 != (#[trigger] t[j]).0
}

/// The local variables of one function: for each identity its type and
/// offset, in the order of declaration.
#[derive(Debug)]
pub struct FunctionLocalVariable {
    keys: Vec<Vec<u8>>,
    vals: Vec<Variable>,
    current_offset: usize,
}

impl View for FunctionLocalVariable {
    type V = Seq<(Seq<u8>, Variable)>;

    /// The entries, in the order of declaration.
    closed spec fn view(&self) -> Seq<(Seq<u8>, Variable)> {
        Seq::new(self.keys@.len(), |i: int| (self.keys@[i]@, self.vals@[i]))
    }
}

impl FunctionLocalVariable {
    /// The invariant of the table: see `table_wf`.
    pub closed spec fn wf(&self) -> bool {
        &&& self.keys@.len() == self.vals@.len()
        &&& self.current_offset == 8 * self.keys@.len()
        &&& table_wf(self@)
    }

    /// What a well-formed table holds is well formed.
    pub proof fn lemma_wf(&self)
        requires
            self.wf(),
        ensures
            table_wf(self@),
            8 * self@.len() <= usize::MAX,
    {
    }

    /// The empty table.
    pub fn new() -> (t: Self)
        ensures
            t.wf(),
            t@ == Seq::<(Seq<u8>, Variable)>::empty(),
    {
        let t = FunctionLocalVariable { keys: Vec::new(), vals: Vec::new(), current_offset: 0 };
        assert(t@ =~= Seq::empty());
        t
    }

    /// The number of entries.
    pub fn len(&self) -> (n: usize)
        ensures
            n == self@.len(),
    {
        self.keys.len()
    }

    /// The variable entered under the identity `ident_id`, if there is one.
    pub fn get_val_offset_by_identid(&self, ident_id: &Vec<u8>) -> (r: Option<Variable>)
        requires
            self.wf(),
        ensures
            r == find(self@, ident_id@),
    {
        let mut i: usize = 0;
        while i < self.keys.len()
            invariant
                i <= self.keys@.len(),
                self.keys@.len() == self.vals@.len(),
                find(self@, ident_id@) == find_from(self@, ident_id@, i as int),
            decreases self.keys.len() - i,
        {
            if bytes_eq(self.keys[i].as_slice(), ident_id.as_slice()) {
                return Some(self.vals[i]);
            }
            i += 1;
        }
        None
    }

    /// The variable entered under the first `n` bytes of `key`, if there is
    /// one.
    fn get_prefix(&self, key: &Vec<u8>, n: usize) -> (r: Option<Variable>)
        requires
            self.wf(),
            n <= key@.len(),
        ensures
            r == find(self@, key@.subrange(0, n as int)),
    {
        let mut i: usize = 0;
        while i < self.keys.len()
            invariant
                i <= self.keys@.len(),
                self.keys@.len() == self.vals@.len(),
                n <= key@.len(),
                find(self@, key@.subrange(0, n as int)) == find_from(
                    self@,
                    key@.subrange(0, n as int),
                    i as int,
                ),
            decreases self.keys.len() - i,
        {
            if bytes_eq_prefix(self.keys[i].as_slice(), key.as_slice(), n) {
                return Some(self.vals[i]);
            }
            i += 1;
        }
        None
    }

    /// Looks the variable `symbol` up from the scope `label` outwards: see
    /// `resolve`. Returns the variable and the length of its scope's label.
    pub fn resolve(&self, symbol: &Vec<u8>, label: &Vec<u8>) -> (r: Option<(Variable, usize)>)
        requires
            self.wf(),
        ensures
            match resolve(self@, symbol@, label@) {
                Some((v, scope)) => r == Some((v, scope.len() as usize)) && scope
                    == label@.subrange(0, scope.len() as int) && scope.len() <= label@.len(),
                None => r is None,
            },
    {
        let key = blockstr_to_identid(symbol, label);
        let mut m: usize = label.len();
        while m > 0
            invariant
                self.wf(),
                m <= label@.len(),
                key@ == identity(symbol@, label@),
                resolve(self@, symbol@, label@) == resolve_at(self@, symbol@, label@, m as nat),
            decreases m,
        {
            if m == label.len() || label[m] == '_' as u8 {
                assert(key@.len() == symbol@.len() + label@.len());
                let n = key.len() - (label.len() - m);
                assert(key@.subrange(0, n as int) =~= identity(
                    symbol@,
                    label@.subrange(0, m as int),
                ));
                match self.get_prefix(&key, n) {
                    Some(v) => {
                        return Some((v, m));
                    },
                    None => {},
                }
            }
            m -= 1;
        }
        None
    }

    /// Looks the identity `ident_id` up in its own scope and then in the
    /// enclosing ones: see `find_outward`.
    pub fn get_val_offset_by_identid_recursively(&self, ident_id: &Vec<u8>) -> (r: Option<Variable>)
        requires
            self.wf(),
        ensures
            r == find_outward(self@, ident_id@),
    {
        let mut depth = identid_to_depth(ident_id);
        let mut n: usize = ident_id.len();
        assert(ident_id@.subrange(0, n as int) =~= ident_id@);
        while n > 0
            invariant
                self.wf(),
                n <= ident_id@.len(),
                depth == count_byte(ident_id@.subrange(0, n as int), '_' as u8),
                find_outward(self@, ident_id@) == find_outward_at(self@, ident_id@, n as nat),
            decreases n,
        {
            if depth > 0 && (n == ident_id.len() || ident_id[n] == '_' as u8) {
                match self.get_prefix(ident_id, n) {
                    Some(v) => {
                        return Some(v);
                    },
                    None => {},
                }
            }
            assert(ident_id@.subrange(0, n as int).drop_last() =~= ident_id@.subrange(0, n - 1));
            if ident_id[n - 1] == '_' as u8 {
                depth -= 1;
            }
            n -= 1;
        }
        None
    }

    /// Enters the variable `symbol` of the scope `blcstr` with the next free
    /// offset, unless its identity is in the table already.
    pub fn try_new_val_offset(&mut self, symbol: &Vec<u8>, typ: Type, blcstr: &Vec<u8>) -> (r:
        Result<Variable, CompileError>)
        requires
            old(self).wf(),
            8 * (old(self)@.len() + 1) <= usize::MAX,
        ensures
            final(self).wf(),
            match find(old(self)@, identity(symbol@, blcstr@)) {
                Some(_) => {
                    &&& r == Err::<Variable, CompileError>(CompileError::SymbolRedeclared)
                    &&& final(self)@ == old(self)@
                },
                None => {
                    &&& r == Ok::<Variable, CompileError>(
                        Variable { typ, offset: (8 * (old(self)@.len() + 1)) as usize },
                    )
                    &&& final(self)@ == old(self)@.push((identity(symbol@, blcstr@), r->Ok_0))
                },
            },
    {
        let ident_id = blockstr_to_identid(symbol, blcstr);
        match self.get_val_offset_by_identid(&ident_id) {
            Some(_) => Err(CompileError::SymbolRedeclared),
            None => {
                let ghost before = self@;
                let v = Variable::new(self.current_offset + 8, typ);
                self.current_offset = self.current_offset + 8;
                self.keys.push(ident_id);
                self.vals.push(v);
                proof {
                    assert(self@ =~= before.push((identity(symbol@, blcstr@), v)));
                    lemma_find_none(before, identity(symbol@, blcstr@), 0);
                }
                Ok(v)
            },
        }
    }
}

/// Whether a scope label can end before offset `m` of `label`: at its end,
/// or where its next segment starts.
pub open spec fn is_scope_end(label: Seq<u8>, m: int) -> bool {
    m == label.len() || (0 <= m < label.len() && label[m] == '_' as u8)
}

/// The innermost binding of `symbol` among the scopes that are the first `m`
/// bytes of `label` or enclose them, with the label of its scope.
pub open spec fn resolve_at(
    t: Seq<(Seq<u8>, Variable)>,
    symbol: Seq<u8>,
    label: Seq<u8>,
    m: nat,
) -> Option<(Variable, Seq<u8>)>
    decreases m,
{
    if m == 0 {
        None
    } else if is_scope_end(label, m as int) {
        match find(t, identity(symbol, label.subrange(0, m as int))) {
            Some(v) => Some((v, label.subrange(0, m as int))),
            None => resolve_at(t, symbol, label, (m - 1) as nat),
        }
    } else {
        resolve_at(t, symbol, label, (m - 1) as nat)
    }
}

/// The binding that a use of `symbol` in the scope `label` refers to: that of
/// `label` itself or, failing that, of the nearest enclosing scope that has
/// one; with the label of that scope. The enclosing scopes are had by
/// stripping `_<index>` segments from the end of the label, down to the
/// function body's; the empty label is no scope.
pub open spec fn resolve(t: Seq<(Seq<u8>, Variable)>, symbol: Seq<u8>, label: Seq<u8>) -> Option<
    (Variable, Seq<u8>),
> {
    resolve_at(t, symbol, label, label.len())
}

/// Where `find_from` finds nothing, no entry from `i` on has the key.
pub proof fn lemma_find_none(t: Seq<(Seq<u8>, Variable)>, key: Seq<u8>, i: int)
    requires
        0 <= i,
        find_from(t, key, i) is None,
    ensures
        forall|j: int| i <= j < t.len() ==> (#[trigger] t[j]).0 != key,
    decreases t.len() - i,
{
    if i < t.len() {
        lemma_find_none(t, key, i + 1);
    }
}

/// The identity of the variable `symbol` in the scope `block_str`.
pub fn blockstr_to_identid(symbol: &Vec<u8>, block_str: &Vec<u8>) -> (id: Vec<u8>)
    ensures
        id@ == identity(symbol@, block_str@),
{
    let mut id = copy_bytes(symbol);
    put_bytes(&mut id, block_str);
    id
}

/// How often the byte `b` occurs in `s`.
pub open spec fn count_byte(s: Seq<u8>, b: u8) -> nat
    decreases s.len(),
{
    if s.len() == 0 {
        0
    } else {
        count_byte(s.drop_last(), b) + if s.last() == b {
            1nat
        } else {
            0nat
        }
    }
}

/// The depth of the scope of an identity: the number of `_` in it.
pub fn identid_to_depth(ident_id: &Vec<u8>) -> (depth: usize)
    ensures
        depth == count_byte(ident_id@, '_' as u8),
{
    let mut count: usize = 0;
    let mut i: usize = 0;
    while i < ident_id.len()
        invariant
            i <= ident_id@.len(),
            count <= i,
            count == count_byte(ident_id@.subrange(0, i as int), '_' as u8),
        decreases ident_id.len() - i,
    {
        assert(ident_id@.subrange(0, i + 1).drop_last() =~= ident_id@.subrange(0, i as int));
        if ident_id[i] == '_' as u8 {
            count += 1;
        }
        i += 1;
    }
    assert(ident_id@.subrange(0, i as int) =~= ident_id@);
    count
}

/// The identity or label `s` without its last `_<index>` segment; none where
/// it has no `_`.
pub open spec fn upper(s: Seq<u8>) -> Option<Seq<u8>>
    decreases s.len(),
{
    if s.len() == 0 {
        None
    } else if s.last() == '_' as u8 {
        Some(s.drop_last())
    } else {
        upper(s.drop_last())
    }
}

/// The identity of the same symbol one block further out: `_1_2` gives `_1`.
pub fn upper_block_ident_id(ident_id: &Vec<u8>) -> (r: Option<Vec<u8>>)
    ensures
        match upper(ident_id@) {
            Some(up) => r is Some && r->0@ == up,
            None => r is None,
        },
{
    let mut n: usize = ident_id.len();
    assert(ident_id@.subrange(0, n as int) =~= ident_id@);
    while n > 0
        invariant
            n <= ident_id@.len(),
            upper(ident_id@) == upper(ident_id@.subrange(0, n as int)),
        decreases n,
    {
        assert(ident_id@.subrange(0, n as int).drop_last() =~= ident_id@.subrange(0, n - 1));
        if ident_id[n - 1] == '_' as u8 {
            let mut up: Vec<u8> = Vec::new();
            let mut i: usize = 0;
            while i < n - 1
                invariant
                    i <= n - 1,
                    n <= ident_id@.len(),
                    up@ == ident_id@.subrange(0, i as int),
                decreases n - 1 - i,
            {
                up.push(ident_id[i]);
                assert(up@ =~= ident_id@.subrange(0, i + 1));
                i += 1;
            }
            return Some(up);
        }
        n -= 1;
    }
    None
}

/// The variable entered under the first `n` bytes of the identity `key` or
/// under what is left of them after stripping `_<index>` segments from the
/// end, the longest first. A candidate without `_` names no scope and is not
/// looked up.
pub open spec fn find_outward_at(t: Seq<(Seq<u8>, Variable)>, key: Seq<u8>, n: nat) -> Option<
    Variable,
>
    decreases n,
{
    if n == 0 {
        None
    } else if is_scope_end(key, n as int) && count_byte(key.subrange(0, n as int), '_' as u8) > 0 {
        match find(t, key.subrange(0, n as int)) {
            Some(v) => Some(v),
            None => find_outward_at(t, key, (n - 1) as nat),
        }
    } else {
        find_outward_at(t, key, (n - 1) as nat)
    }
}

/// The variable that the identity `key` names, in its own scope or in the
/// nearest enclosing one that has it.
pub open spec fn find_outward(t: Seq<(Seq<u8>, Variable)>, key: Seq<u8>) -> Option<Variable> {
    find_outward_at(t, key, key.len())
}

/// The segment that the `k`-th block of a scope adds to the scope's label.
pub open spec fn scope_segment(k: nat) -> Seq<u8> {
    seq!['_' as u8] + decimal(k)
}

/// The scope label of depth `depth`: one segment for each of
/// `index[1]`, ..., `index[depth]`.
pub open spec fn block_str_of(index: Seq<usize>, depth: nat) -> Seq<u8>
    decreases depth,
{
    if depth == 0 {
        Seq::empty()
    } else {
        block_str_of(index, (depth - 1) as nat) + scope_segment(index[depth as int] as nat)
    }
}

/// The label depends on `index[1]`, ..., `index[depth]` alone.
pub proof fn lemma_block_str_of_prefix(a: Seq<usize>, b: Seq<usize>, depth: nat)
    requires
        forall|i: int| 1 <= i <= depth ==> a[i] == b[i],
    ensures
        block_str_of(a, depth) == block_str_of(b, depth),
    decreases depth,
{
    if depth > 0 {
        lemma_block_str_of_prefix(a, b, (depth - 1) as nat);
    }
}

/// The scope label of depth `depth` for the block indices `index`.
pub fn build_block_str(depth: usize, index: &Vec<usize>) -> (label: Vec<u8>)
    requires
        depth < index@.len(),
    ensures
        label@ == block_str_of(index@, depth as nat),
{
    let mut base: Vec<u8> = Vec::new();
    let mut i: usize = 0;
    while i < depth
        invariant
            i <= depth < index@.len(),
            base@ == block_str_of(index@, i as nat),
        decreases depth - i,
    {
        i += 1;
        let ghost before = base@;
        base.push('_' as u8);
        put_decimal(&mut base, index[i] as u128);
        assert(base@ =~= before + scope_segment(index@[i as int] as nat));
    }
    base
}

/// The state of a pass over the statements of a function: the label of the
/// scope it is in, the number of blocks of that scope that it has left
/// behind, the table of variables, and the bytes counted for variables.
pub struct Walk {
    pub label: Seq<u8>,
    pub blocks: nat,
    pub table: Seq<(Seq<u8>, Variable)>,
    pub val_size: nat,
}

/// The table with one more variable, of unknown type, at the next offset.
pub open spec fn declare(t: Seq<(Seq<u8>, Variable)>, key: Seq<u8>) -> Seq<(Seq<u8>, Variable)> {
    t.push((key, Variable { typ: Type::Unknown, offset: (8 * (t.len() + 1)) as usize }))
}

/// The state in which the children of `n` are visited. The labelling pass
/// enters a new scope at a block: the `k`-th block of a scope has the scope's
/// label and `_k`. At a declaration it enters the variable into the table,
/// under the label of the scope it is in; a second declaration of one
/// identity is an error. The binding pass changes nothing.
pub open spec fn enter(n: NodeView, w: Walk, bind: bool) -> Result<Walk, CompileError> {
    if bind {
        Ok(w)
    } else if n.kind == NodeKind::ND_BLOCK {
        Ok(Walk { label: w.label + scope_segment(w.blocks + 1), blocks: 0, ..w })
    } else if n.kind == NodeKind::ND_DECL {
        let key = identity(n.l->0.str, w.label);
        match find(w.table, key) {
            Some(_) => Err(CompileError::SymbolRedeclared),
            None => Ok(Walk { table: declare(w.table, key), ..w }),
        }
    } else {
        Ok(w)
    }
}

/// The state after `n`, where `w` was the state before it and `done` is the
/// state after its children: the labelling pass is back in the scope of `w`
/// after a block, with one more block behind it.
pub open spec fn leave(n: NodeView, w: Walk, done: Walk, bind: bool) -> Walk {
    if !bind && n.kind == NodeKind::ND_BLOCK {
        Walk { label: w.label, blocks: w.blocks + 1, ..done }
    } else {
        done
    }
}

/// The node with its scope label, as the labelling pass sets it: a block
/// gets the label of the scope it opens, a declaration that of the scope it
/// stands in.
pub open spec fn annotate(n: NodeView, w: Walk, bind: bool) -> NodeView {
    if bind {
        n
    } else if n.kind == NodeKind::ND_BLOCK {
        NodeView { block_str: w.label + scope_segment(w.blocks + 1), ..n }
    } else if n.kind == NodeKind::ND_DECL {
        NodeView { block_str: w.label, ..n }
    } else {
        n
    }
}

/// One pass over the nodes of a list from index `i` on, after those in
/// `acc`: each node is visited in the state that the one before it left.
pub open spec fn read_list_spec(
    ns: Seq<NodeView>,
    i: nat,
    w: Walk,
    bind: bool,
    acc: Seq<NodeView>,
) -> Result<(Seq<NodeView>, Walk), CompileError>
    decreases list_count(ns, i), ns.len() - i,
{
    if i >= ns.len() {
        Ok((acc, w))
    } else {
        match read_node_spec(ns[i as int], w, bind) {
            Ok((n, w1)) => read_list_spec(ns, i + 1, w1, bind, acc.push(n)),
            Err(e) => Err(e),
        }
    }
}

/// One pass over a node and what is below it; the node it becomes and the
/// state after it, or the first error.
///
/// The labelling pass (`bind` false) gives every variable the label of the
/// scope it is used in and counts eight bytes for it; blocks and declarations
/// as `enter` and `annotate` say. The binding pass (`bind` true) looks every
/// variable up in the table, from the scope it is used in outwards, and gives
/// it the label of the scope it is found in and its type; a variable that is
/// not found is an error. In both passes a node that lacks a child that its
/// kind requires is an error.
pub open spec fn read_node_spec(n: NodeView, w: Walk, bind: bool) -> Result<
    (NodeView, Walk),
    CompileError,
>
    decreases node_count(n), 0nat,
{
    if n.kind == NodeKind::ND_IDENT {
        if bind {
            match resolve(w.table, n.str, n.block_str) {
                Some((v, scope)) => Ok((NodeView { block_str: scope, typ: v.typ, ..n }, w)),
                None => Err(CompileError::UndeclaredSymbol),
            }
        } else {
            Ok((NodeView { block_str: w.label, ..n }, Walk { val_size: w.val_size + 8, ..w }))
        }
    } else if !complete(n) {
        Err(CompileError::MissingOperand)
    } else {
        match enter(n, w, bind) {
            Ok(inner) => {
                proof {
                    lemma_children_count(n);
                }
                match read_list_spec(children(n), 0, inner, bind, Seq::empty()) {
                    Ok((cs, done)) => Ok(
                        (with_children(annotate(n, w, bind), cs), leave(n, w, done, bind)),
                    ),
                    Err(e) => Err(e),
                }
            },
            Err(e) => Err(e),
        }
    }
}

/// The table with the parameters from index `i` on entered, each under the
/// label of the function's body. A parameter whose identity is in the table
/// already is an error.
pub open spec fn add_params(args: Seq<FnArgsView>, i: nat, t: Seq<(Seq<u8>, Variable)>) -> Result<
    Seq<(Seq<u8>, Variable)>,
    CompileError,
>
    decreases args.len() - i,
{
    if i >= args.len() {
        Ok(t)
    } else {
        let key = identity(args[i as int].sym, fn_arg_label());
        match find(t, key) {
            Some(_) => Err(CompileError::SymbolRedeclared),
            None => add_params(args, i + 1, declare(t, key)),
        }
    }
}

/// The state in which the pass over a function's statements starts: in the
/// scope `_1` of the body, with an empty table.
pub open spec fn start_of_walk() -> Walk {
    Walk { label: fn_arg_label(), blocks: 0, table: Seq::empty(), val_size: 0 }
}

/// A function, resolved: its statements labelled and bound, its table of
/// the local variables in the order of their declarations and then the
/// parameters, each eight bytes below the one before; `lv_size` is eight
/// bytes for each use of a variable, `fn_args_size` eight for each
/// parameter.
pub open spec fn resolve_function_spec(f: FunctionView) -> Result<FunctionView, CompileError> {
    match read_list_spec(f.root_node.fn_blocks, 0, start_of_walk(), false, Seq::empty()) {
        Ok((labelled, w)) => match add_params(f.fn_args, 0, w.table) {
            Ok(table) => match read_list_spec(
                labelled,
                0,
                Walk { table, ..w },
                true,
                Seq::empty(),
            ) {
                Ok((bound, _)) => Ok(
                    FunctionView {
                        root_node: NodeView { fn_blocks: bound, ..f.root_node },
                        lv_size: w.val_size as usize,
                        local_variable: table,
                        fn_args_size: (8 * f.fn_args.len()) as usize,
                        ..f
                    },
                ),
                Err(e) => Err(e),
            },
            Err(e) => Err(e),
        },
        Err(e) => Err(e),
    }
}

/// The functions from index `i` on, resolved, after those in `acc`; or the
/// first error.
pub open spec fn resolve_all_spec(fs: Seq<FunctionView>, i: nat, acc: Seq<FunctionView>) -> Result<
    Seq<FunctionView>,
    CompileError,
>
    decreases fs.len() - i,
{
    if i >= fs.len() {
        Ok(acc)
    } else {
        match resolve_function_spec(fs[i as int]) {
            Ok(f) => resolve_all_spec(fs, i + 1, acc.push(f)),
            Err(e) => Err(e),
        }
    }
}

/// Whether the counters of a pass have room for `k` more nodes: each node
/// may count eight bytes, make one table entry and close one block.
pub open spec fn fits(w: Walk, k: nat) -> bool {
    &&& w.val_size + 8 * k <= usize::MAX
    &&& 8 * (w.table.len() + k) <= usize::MAX
    &&& w.blocks + k <= usize::MAX
}

/// Whether the counters of `after` are those of `before` and at most `k`
/// nodes' worth more.
pub open spec fn grew(before: Walk, after: Walk, k: nat) -> bool {
    &&& after.val_size <= before.val_size + 8 * k
    &&& after.table.len() <= before.table.len() + k
    &&& after.blocks <= before.blocks + k
}

/// Whether the sizes and offsets of the function fit the machine: eight
/// bytes for each node of its statements and each parameter.
pub open spec fn resolvable(f: FunctionView) -> bool {
    8 * (list_count(f.root_node.fn_blocks, 0) + f.fn_args.len()) <= usize::MAX
}

/// Each tree of a list is no more nodes than the list, and the list from a
/// later index on is no more nodes than from an earlier one.
pub proof fn lemma_list_count_bounds(ns: Seq<NodeView>, i: nat)
    requires
        i < ns.len(),
    ensures
        node_count(ns[i as int]) + list_count(ns, i + 1) <= list_count(ns, 0),
    decreases i,
{
    if i > 0 {
        lemma_list_count_bounds(ns, (i - 1) as nat);
    }
}

/// The state of a pass over the statements of a function.
struct ReadNodeArgs {
    /// The block indices of the scope the pass is in, at 1 to `depth`, and at
    /// `depth + 1` the number of blocks of that scope left behind.
    index: Vec<usize>,
    depth: usize,
    cur_block_str: Vec<u8>,
    local_variable: FunctionLocalVariable,
    val_size: usize,
}

impl View for ReadNodeArgs {
    type V = Walk;

    closed spec fn view(&self) -> Walk {
        Walk {
            label: self.cur_block_str@,
            blocks: self.index@[self.depth + 1] as nat,
            table: self.local_variable@,
            val_size: self.val_size as nat,
        }
    }
}

impl ReadNodeArgs {
    spec fn wf(&self) -> bool {
        &&& self.index@.len() == self.depth + 2
        &&& self.cur_block_str@ == block_str_of(self.index@, self.depth as nat)
        &&& self.local_variable.wf()
    }

    /// The state at the start of a function's body.
    fn new() -> (arg: Self)
        ensures
            arg.wf(),
            arg@ == start_of_walk(),
    {
        let index: Vec<usize> = vec![0, 1, 0];
        let cur_block_str = build_block_str(1, &index);
        proof {
            assert(block_str_of(index@, 0) =~= Seq::empty());
            assert(decimal(1) =~= seq!['1' as u8]);
            assert(cur_block_str@ =~= fn_arg_label());
        }
        ReadNodeArgs {
            index,
            depth: 1,
            cur_block_str,
            local_variable: FunctionLocalVariable::new(),
            val_size: 0,
        }
    }

    /// Enters the next block of the scope.
    fn enter_block(&mut self)
        requires
            old(self).wf(),
            old(self)@.blocks < usize::MAX,
        ensures
            final(self).wf(),
            final(self)@ == (Walk {
                label: old(self)@.label + scope_segment(old(self)@.blocks + 1),
                blocks: 0,
                ..old(self)@
            }),
            final(self).depth == old(self).depth + 1,
            final(self).index@ == old(self).index@.update(
                old(self).depth + 1,
                (old(self).index@[old(self).depth + 1] + 1) as usize,
            ).push(0),
    {
        let ghost before = self.index@;
        let last = self.index.len() - 1;
        let count = self.index[last];
        self.index.set(last, count + 1);
        self.depth = last;
        self.index.push(0);
        self.cur_block_str = build_block_str(self.depth, &self.index);
        proof {
            lemma_block_str_of_prefix(self.index@, before, (self.depth - 1) as nat);
        }
    }

    /// Leaves the block that was entered last.
    fn leave_block(&mut self)
        requires
            old(self).wf(),
            old(self).depth >= 1,
        ensures
            final(self).wf(),
            final(self).depth == old(self).depth - 1,
            final(self).index@ == old(self).index@.drop_last(),
            final(self)@.table == old(self)@.table,
            final(self)@.val_size == old(self)@.val_size,
            final(self)@.label == block_str_of(final(self).index@, final(self).depth as nat),
            final(self)@.blocks == final(self).index@[final(self).depth + 1],
    {
        self.index.pop();
        self.depth = self.depth - 1;
        self.cur_block_str = build_block_str(self.depth, &self.index);
    }
}

/// Whether a pass did to a node what `want` asks for, and is in the state
/// `after`.
spec fn walked(
    want: Result<(NodeView, Walk), CompileError>,
    r: Result<Node, CompileError>,
    after: Walk,
) -> bool {
    match want {
        Ok((n, w)) => r is Ok && r->Ok_0@ == n && after == w,
        Err(e) => r is Err && r->Err_0 == e,
    }
}

/// Makes one pass over the nodes of a list.
fn read_list(kids: Vec<Node>, arg: &mut ReadNodeArgs, bind: bool) -> (r: Result<
    Vec<Node>,
    CompileError,
>)
    requires
        old(arg).wf(),
        !bind ==> fits(old(arg)@, list_count(nodes_view(kids@), 0)),
    ensures
        final(arg).wf(),
        match read_list_spec(nodes_view(kids@), 0, old(arg)@, bind, Seq::empty()) {
            Ok((ns, w)) => {
                &&& r is Ok
                &&& final(arg).depth == old(arg).depth
                &&& nodes_view(r->Ok_0@) == ns
                &&& final(arg)@ == w
                &&& r->Ok_0@.len() == kids@.len()
                &&& final(arg).index@ == old(arg).index@.update(
                    old(arg).depth + 1,
                    final(arg).index@[old(arg).depth + 1],
                )
                &&& !bind ==> grew(old(arg)@, w, list_count(nodes_view(kids@), 0))
                &&& bind ==> w == old(arg)@
            },
            Err(e) => r is Err && r->Err_0 == e,
        },
    decreases list_count(nodes_view(kids@), 0), 1nat,
{
    let ghost ns = nodes_view(kids@);
    let ghost start = arg@;
    let ghost start_index = arg.index@;
    let ghost want = read_list_spec(ns, 0, start, bind, Seq::empty());
    let mut out: Vec<Node> = Vec::new();
    assert(nodes_view(out@) =~= Seq::empty());
    assert(start_index =~= start_index.update(arg.depth + 1, start_index[arg.depth + 1]));
    for kid in it: kids
        invariant
            it.seq() == kids@,
            ns == nodes_view(kids@),
            arg.wf(),
            arg.depth == old(arg).depth,
            start == old(arg)@,
            start_index == old(arg).index@,
            start_index.len() == arg.depth + 2,
            arg.index@ == start_index.update(arg.depth + 1, arg.index@[arg.depth + 1]),
            out@.len() == it.index(),
            want == read_list_spec(ns, 0, start, bind, Seq::empty()),
            want == read_list_spec(ns, it.index() as nat, arg@, bind, nodes_view(out@)),
            !bind ==> fits(arg@, list_count(ns, it.index() as nat)),
            !bind ==> grew(
                start,
                arg@,
                (list_count(ns, 0) - list_count(ns, it.index() as nat)) as nat,
            ),
            list_count(ns, it.index() as nat) <= list_count(ns, 0),
            bind ==> arg@ == start,
    {
        let ghost i = it.index() as nat;
        proof {
            assert(ns[i as int] == kid@);
            lemma_list_count_bounds(ns, i);
        }
        let node =
        match read_node(kid, arg, bind) {
            Ok(n) => n,
            Err(e) => {
                return Err(e);
            },
        };
        proof {
            lemma_nodes_view_push(out@, node);
            assert(arg.index@ =~= start_index.update(arg.depth + 1, arg.index@[arg.depth + 1]));
        }
        out.push(node);
    }
    Ok(out)
}

/// Visits a variable: see `read_node_spec`.
fn read_ident(node: Node, arg: &mut ReadNodeArgs, bind: bool) -> (r: Result<Node, CompileError>)
    requires
        old(arg).wf(),
        node@.kind == NodeKind::ND_IDENT,
        !bind ==> old(arg)@.val_size + 8 <= usize::MAX,
    ensures
        final(arg).wf(),
        final(arg).depth == old(arg).depth,
        final(arg).index == old(arg).index,
        walked(read_node_spec(node@, old(arg)@, bind), r, final(arg)@),
{
    let mut node = node;
    if bind {
        match arg.local_variable.resolve(&node.str, &node.block_str) {
            Some((val, scope)) => {
                node.block_str.truncate(scope);
                node.typ = val.typ;
                Ok(node)
            },
            None => Err(CompileError::UndeclaredSymbol),
        }
    } else {
        node.block_str = copy_bytes(&arg.cur_block_str);
        arg.val_size = arg.val_size + 8;
        Ok(node)
    }
}

/// Does what the labelling pass does at a node before it visits the node's
/// children: see `enter` and `annotate`. `shell` is the node without its
/// children, `kids` are the children.
fn enter_node(shell: Node, kids: &Vec<Node>, arg: &mut ReadNodeArgs, Ghost(n): Ghost<NodeView>) -> (r:
    Result<Node, CompileError>)
    requires
        old(arg).wf(),
        shell@ == strip(n),
        nodes_view(kids@) == children(n),
        complete(n),
        n.kind != NodeKind::ND_IDENT,
        fits(old(arg)@, 1),
    ensures
        final(arg).wf(),
        match enter(n, old(arg)@, false) {
            Ok(inner) => {
                &&& r is Ok
                &&& r->Ok_0@ == strip(annotate(n, old(arg)@, false))
                &&& final(arg)@ == inner
                &&& final(arg).depth == old(arg).depth + if n.kind == NodeKind::ND_BLOCK {
                    1int
                } else {
                    0int
                }
                &&& final(arg).index@ == if n.kind == NodeKind::ND_BLOCK {
                    old(arg).index@.update(
                        old(arg).depth + 1,
                        (old(arg).index@[old(arg).depth + 1] + 1) as usize,
                    ).push(0)
                } else {
                    old(arg).index@
                }
            },
            Err(e) => r is Err && r->Err_0 == e,
        },
{
    let mut shell = shell;
    if shell.kind == NodeKind::ND_BLOCK {
        arg.enter_block();
        shell.block_str = copy_bytes(&arg.cur_block_str);
    } else if shell.kind == NodeKind::ND_DECL {
        proof {
            assert(children(n).len() == 2);
            assert(nodes_view(kids@).len() == kids@.len());
            assert(nodes_view(kids@)[0] == kids@[0]@);
            assert(kids@[0]@.str == kids@[0].str@);
        }
        let label = copy_bytes(&arg.cur_block_str);
        match arg.local_variable.try_new_val_offset(&kids[0].str, Type::Unknown, &label) {
            Ok(_) => {},
            Err(e) => {
                return Err(e);
            },
        }
        shell.block_str = label;
    }
    Ok(shell)
}

/// Makes one pass over a node and what is below it: see `read_node_spec`.
fn read_node(node: Node, arg: &mut ReadNodeArgs, bind: bool) -> (r: Result<Node, CompileError>)
    requires
        old(arg).wf(),
        !bind ==> fits(old(arg)@, node_count(node@)),
    ensures
        final(arg).wf(),
        walked(read_node_spec(node@, old(arg)@, bind), r, final(arg)@),
        r is Ok ==> final(arg).depth == old(arg).depth,
        r is Ok ==> final(arg).index@ == old(arg).index@.update(
            old(arg).depth + 1,
            final(arg).index@[old(arg).depth + 1],
        ),
        r is Ok && !bind ==> grew(old(arg)@, final(arg)@, node_count(node@)),
        r is Ok && bind ==> final(arg)@ == old(arg)@,
    decreases node_count(node@), 0nat,
{
    let ghost n = node@;
    let ghost w = arg@;
    let ghost index = arg.index@;
    assert(index =~= index.update(arg.depth + 1, index[arg.depth + 1]));
    if node.kind == NodeKind::ND_IDENT {
        return read_ident(node, arg, bind);
    }
    let is_block = node.kind == NodeKind::ND_BLOCK;
    let Taken { shell, kids, has_elsif, has_else } =
    match take_children(node) {
        Ok(t) => t,
        Err(e) => {
            return Err(e);
        },
    };
    proof {
        lemma_children_count(n);
        lemma_children_fit(n);
    }
    let shell = if bind {
        shell
    } else {
        match enter_node(shell, &kids, arg, Ghost(n)) {
            Ok(s) => s,
            Err(e) => {
                return Err(e);
            },
        }
    };
    let new_kids =
    match read_list(kids, arg, bind) {
        Ok(ks) => ks,
        Err(e) => {
            return Err(e);
        },
    };
    let ghost done = arg@;
    if !bind && is_block {
        arg.leave_block();
        proof {
            lemma_block_str_of_prefix(arg.index@, index, arg.depth as nat);
            assert(arg@ == leave(n, w, done, bind));
        }
    }
    proof {
        assert(arg.index@ =~= index.update(arg.depth + 1, arg.index@[arg.depth + 1]));
    }
    Ok(put_children(shell, new_kids, has_elsif, has_else))
}

/// Whether the sizes and offsets of the function fit the machine: see
/// `resolvable`.
pub fn is_resolvable(f: &Function) -> (b: bool)
    ensures
        b == resolvable(f@),
{
    match spend_on_nodes(&f.root_node.fn_blocks, usize::MAX / 8) {
        Some(rest) => f.fn_args.len() <= rest,
        None => false,
    }
}

/// Enters the parameters of a function into the table.
fn add_parameters(fn_args: &Vec<FnArgs>, table: &mut FunctionLocalVariable) -> (r: Result<
    (),
    CompileError,
>)
    requires
        old(table).wf(),
        8 * (old(table)@.len() + fn_args@.len()) <= usize::MAX,
    ensures
        final(table).wf(),
        match add_params(args_view(fn_args@), 0, old(table)@) {
            Ok(t) => r is Ok && final(table)@ == t,
            Err(e) => r == Err::<(), CompileError>(e),
        },
{
    let label = fn_arg_block_str();
    let ghost want = add_params(args_view(fn_args@), 0, table@);
    let mut i: usize = 0;
    while i < fn_args.len()
        invariant
            i <= fn_args@.len(),
            table.wf(),
            label@ == fn_arg_label(),
            8 * (table@.len() + fn_args@.len() - i) <= usize::MAX,
            want == add_params(args_view(fn_args@), 0, old(table)@),
            want == add_params(args_view(fn_args@), i as nat, table@),
        decreases fn_args.len() - i,
    {
        proof {
            assert(args_view(fn_args@)[i as int].sym == fn_args@[i as int].sym@);
        }
        match table.try_new_val_offset(&fn_args[i].sym, Type::Unknown, &label) {
            Ok(_) => {},
            Err(e) => {
                return Err(e);
            },
        }
        i += 1;
    }
    Ok(())
}

/// Resolves one function: labels the scopes of its statements, builds the
/// table of its variables, binds every use of a variable to its declaration,
/// and computes the sizes of its frame. See `resolve_function_spec`.
pub fn set_block_str_and_create_localval_table(f: Function) -> (r: Result<Function, CompileError>)
    requires
        resolvable(f@),
    ensures
        match resolve_function_spec(f@) {
            Ok(g) => r is Ok && r->Ok_0@ == g && r->Ok_0.local_variable.wf(),
            Err(e) => r is Err && r->Err_0 == e,
        },
{
    let Function { fn_name, root_node, lv_size: _, local_variable: _, fn_args, fn_args_size: _ } = f;
    let mut root = root_node;
    let nodes = root.fn_blocks;
    let mut arg = ReadNodeArgs::new();
    let labelled =
    match read_list(nodes, &mut arg, false) {
        Ok(ns) => ns,
        Err(e) => {
            return Err(e);
        },
    };
    let ghost w = arg@;
    match add_parameters(&fn_args, &mut arg.local_variable) {
        Ok(()) => {},
        Err(e) => {
            return Err(e);
        },
    }
    let bound =
    match read_list(labelled, &mut arg, true) {
        Ok(ns) => ns,
        Err(e) => {
            return Err(e);
        },
    };
    root.fn_blocks = bound;
    let fn_args_size = 8 * fn_args.len();
    Ok(
        Function {
            fn_name,
            root_node: root,
            lv_size: arg.val_size,
            local_variable: arg.local_variable,
            fn_args,
            fn_args_size,
        },
    )
}

/// Resolves the functions of a program, in order: see
/// `resolve_function_spec`. The first error ends the pass.
pub fn intermediate_process(fvec: Vec<Function>) -> (r: Result<Vec<Function>, CompileError>)
    requires
        forall|i: int| 0 <= i < fvec@.len() ==> resolvable(#[trigger] fvec@[i]@),
    ensures
        match resolve_all_spec(functions_view(fvec@), 0, Seq::empty()) {
            Ok(fs) => {
                &&& r is Ok
                &&& functions_view(r->Ok_0@) == fs
                &&& forall|i: int|
                    0 <= i < r->Ok_0@.len() ==> (#[trigger] r->Ok_0@[i]).local_variable.wf()
            },
            Err(e) => r is Err && r->Err_0 == e,
        },
{
    let ghost fs = functions_view(fvec@);
    let ghost want = resolve_all_spec(fs, 0, Seq::empty());
    let mut fvec_after_processed: Vec<Function> = Vec::new();
    assert(functions_view(fvec_after_processed@) =~= Seq::empty());
    for f in it: fvec
        invariant
            it.seq() == fvec@,
            fs == functions_view(fvec@),
            forall|i: int| 0 <= i < fvec@.len() ==> resolvable(#[trigger] fvec@[i]@),
            want == resolve_all_spec(fs, 0, Seq::empty()),
            want == resolve_all_spec(
                fs,
                it.index() as nat,
                functions_view(fvec_after_processed@),
            ),
            forall|i: int|
                0 <= i < fvec_after_processed@.len() ==> (
                #[trigger] fvec_after_processed@[i]).local_variable.wf(),
    {
        proof {
            assert(fs[it.index() as int] == f@);
            assert(fvec@[it.index() as int] == f);
        }
        let g =
        match set_block_str_and_create_localval_table(f) {
            Ok(g) => g,
            Err(e) => {
                return Err(e);
            },
        };
        proof {
            lemma_functions_view_push(fvec_after_processed@, g);
        }
        fvec_after_processed.push(g);
    }
    Ok(fvec_after_processed)
}

} // verus!
