//! The code generator: from resolved functions to assembly text.
use vstd::prelude::*;
use crate::errors::CompileError;
use crate::intermediate_process::{
    blockstr_to_identid, find, fn_arg_block_str, fn_arg_label, identity, resolve,
    FunctionLocalVariable, Variable,
};
use crate::parse::{
    args_view, child_view, functions_view, nodes_view, FnArgs, FnArgsView, Function, FunctionView,
    Node, NodeKind, NodeView,
};
use crate::text::{
    decimal, lemma_decimal_len, put, put_bytes, put_decimal, put_signed_decimal, signed_decimal,
    text,
};

verus! {

/// The counter that numbers the jump labels of one program. It is
/// kept in decimal digits, so that it has no largest value.
pub struct CodeLabel {
    digits: Vec<u8>,
    cur_index: Ghost<nat>,
}

impl View for CodeLabel {
    type V = nat;

    /// The current index.
    closed spec fn view(&self) -> nat {
        self.cur_index@
    }
}

/// Writes the digits of `n + 1` in place of those of `n`.
fn bump(digits: &mut Vec<u8>, Ghost(n): Ghost<nat>)
    requires
        old(digits)@ == decimal(n),
    ensures
        final(digits)@ == decimal(n + 1),
    decreases n,
{
    proof {
        lemma_decimal_len(n);
        lemma_decimal_len(n / 10);
    }
    let ghost before = digits@;
    let last: u8 = digits.pop().unwrap();
    assert(digits@ == before.drop_last());
    if last < '9' as u8 {
        digits.push(last + 1);
        assert(digits@ =~= decimal(n + 1));
    } else if digits.len() == 0 {
        digits.push('1' as u8);
        digits.push('0' as u8);
        assert(n == 9);
        assert(decimal(1) =~= seq!['1' as u8]);
        assert(digits@ =~= decimal(10));
    } else {
        assert(n >= 10);
        assert(digits@ =~= decimal(n / 10));
        bump(digits, Ghost(n / 10));
        digits.push('0' as u8);
        assert(digits@ =~= decimal(n + 1));
    }
}

impl CodeLabel {
    /// The invariant: the digits are those of the index.
    pub closed spec fn wf(&self) -> bool {
        self.digits@ == decimal(self.cur_index@)
    }

    /// A counter at 0.
    pub fn new() -> (cl: Self)
        ensures
            cl.wf(),
            cl@ == 0,
    {
        let mut digits: Vec<u8> = Vec::new();
        digits.push('0' as u8);
        assert(digits@ =~= decimal(0));
        CodeLabel { digits, cur_index: Ghost(0) }
    }

    /// The current index, in decimal digits.
    pub fn cur_label_index(&self) -> (digits: &Vec<u8>)
        requires
            self.wf(),
        ensures
            digits@ == decimal(self@),
    {
        &self.digits
    }

    /// Steps to the next index.
    pub fn advance(&mut self)
        requires
            old(self).wf(),
        ensures
            final(self).wf(),
            final(self)@ == old(self)@ + 1,
    {
        bump(&mut self.digits, Ghost(self.cur_index@));
        self.cur_index = Ghost((self.cur_index@ + 1) as nat);
    }
}

/// What has been emitted so far, and the label counter.
pub struct Emit {
    pub out: Seq<u8>,
    pub label: nat,
}

impl Emit {
    /// With `s` appended to the output.
    pub open spec fn put(self, s: Seq<u8>) -> Emit {
        Emit { out: self.out + s, label: self.label }
    }

    /// With the label counter one further.
    pub open spec fn advance(self) -> Emit {
        Emit { out: self.out, label: self.label + 1 }
    }
}

/// The register that carries the parameter or argument of index `i < 6`.
pub open spec fn arg_register(i: int) -> Seq<u8> {
    if i == 0 {
        text("rdi")
    } else if i == 1 {
        text("rsi")
    } else if i == 2 {
        text("rdx")
    } else if i == 3 {
        text("rcx")
    } else if i == 4 {
        text("r8")
    } else {
        text("r9")
    }
}

/// Whether a node of this kind compares its two operands.
pub open spec fn is_comparison(kind: NodeKind) -> bool {
    kind == NodeKind::ND_EQ || kind == NodeKind::ND_NEQ || kind == NodeKind::ND_LT || kind
        == NodeKind::ND_LE || kind == NodeKind::ND_BT || kind == NodeKind::ND_BE
}

/// The instruction that compares the operands of a comparison. The right
/// operand is in `%rdi`, the left one in `%rax`; `>` and `>=` compare them the
/// other way round.
pub open spec fn compare_text(kind: NodeKind) -> Seq<u8> {
    if kind == NodeKind::ND_BT || kind == NodeKind::ND_BE {
        text("cmp %rax, %rdi\n")
    } else {
        text("cmp %rdi, %rax\n")
    }
}

/// The instruction that sets `%al` to 0 or 1 after a comparison.
pub open spec fn set_text(kind: NodeKind) -> Seq<u8> {
    if kind == NodeKind::ND_EQ {
        text("sete %al\n")
    } else if kind == NodeKind::ND_NEQ {
        text("setne %al\n")
    } else if kind == NodeKind::ND_LT || kind == NodeKind::ND_BT {
        text("setl %al\n")
    } else {
        text("setle %al\n")
    }
}

/// The instructions of a binary node between fetching its operands and
/// pushing its result.
pub open spec fn operate(kind: NodeKind, e: Emit) -> Emit {
    if is_comparison(kind) {
        e.put(compare_text(kind)).put(set_text(kind)).put(text("movzb %al, %rax\n"))
    } else if kind == NodeKind::ND_ADD {
        e.put(text("add %rdi, %rax\n"))
    } else if kind == NodeKind::ND_SUB {
        e.put(text("sub %rdi, %rax\n"))
    } else if kind == NodeKind::ND_MUL {
        e.put(text("imul %rdi, %rax\n"))
    } else if kind == NodeKind::ND_DIV {
        e.put(text("cqo\nidiv %rdi\n"))
    } else {
        e
    }
}

/// The instructions that leave a function: the result is popped into `%rax`.
pub open spec fn leave(e: Emit) -> Emit {
    e.put(text("pop %rax\nmov %rbp, %rsp\npop %rbp\nret\n"))
}

/// The instructions that push the address of the variable at `offset`.
pub open spec fn push_address(offset: usize, e: Emit) -> Emit {
    e.put(text("lea -")).put(decimal(offset as nat)).put(text("(%rbp), %rax\npush %rax\n"))
}

/// The instructions that store the value on top of the stack at the address
/// below it.
pub open spec fn store(e: Emit) -> Emit {
    e.put(text("pop %rax\npop %rdi\nmov %rax, (%rdi)\n"))
}

/// The instructions that pop a condition and jump to `target` and the label's
/// number unless it is 1.
pub open spec fn jump_unless(target: Seq<u8>, label: nat, e: Emit) -> Emit {
    e.put(text("pop %rax\nmov $1, %rdi\ncmp %rdi, %rax\njne ")).put(target).put(
        decimal(label),
    ).put(text("\n"))
}

/// The line that defines the label `target` with its number.
pub open spec fn define_label(target: Seq<u8>, label: nat, e: Emit) -> Emit {
    e.put(target).put(decimal(label)).put(text(":\n"))
}

/// The code of an optional child; a missing one is an error.
pub open spec fn child_code(c: Option<Box<NodeView>>, t: Seq<(Seq<u8>, Variable)>, e: Emit) -> Result<
    Emit,
    CompileError,
>
    decreases c, 0nat,
{
    match c {
        Some(b) => node_code(*b, t, e),
        None => Err(CompileError::MissingOperand),
    }
}

/// The code of the nodes from index `i` on, in order.
pub open spec fn list_code(ns: Seq<NodeView>, i: nat, t: Seq<(Seq<u8>, Variable)>, e: Emit) -> Result<
    Emit,
    CompileError,
>
    decreases ns, ns.len() - i,
{
    if i >= ns.len() {
        Ok(e)
    } else {
        match node_code(ns[i as int], t, e) {
            Ok(e1) => list_code(ns, i + 1, t, e1),
            Err(x) => Err(x),
        }
    }
}

/// The code that evaluates the arguments of a call from index `i` on, each
/// into its register. A seventh argument is an error.
pub open spec fn args_code(args: Seq<FnArgsView>, i: nat, t: Seq<(Seq<u8>, Variable)>, e: Emit) -> Result<
    Emit,
    CompileError,
>
    decreases args, args.len() - i,
{
    if i >= args.len() {
        Ok(e)
    } else if i >= 6 {
        Err(CompileError::ArityError)
    } else {
        match child_code(args[i as int].val, t, e) {
            Ok(e1) => args_code(
                args,
                i + 1,
                t,
                e1.put(text("pop %rax\nmov %rax, %")).put(arg_register(i as int)).put(text("\n")),
            ),
            Err(x) => Err(x),
        }
    }
}

/// The code of a node, appended to what `e` holds, and the label counter
/// after it; or the first error met.
///
/// An expression leaves its value on top of the stack. A variable is looked
/// up from its scope outwards; a declaration in its own scope alone. `if` and
/// `else if` take the next label number before their condition is evaluated,
/// `for` takes the current one and steps the counter before its parts are.
pub open spec fn node_code(n: NodeView, t: Seq<(Seq<u8>, Variable)>, e: Emit) -> Result<
    Emit,
    CompileError,
>
    decreases n, 1nat,
{
    match n.kind {
        NodeKind::ND_NUM => Ok(
            e.put(text("push $")).put(signed_decimal(n.val as int)).put(text("\n")),
        ),
        NodeKind::ND_RETURN => match child_code(n.l, t, e) {
            Ok(e1) => Ok(leave(e1)),
            Err(x) => Err(x),
        },
        NodeKind::ND_EXPR | NodeKind::ND_STMT | NodeKind::ND_STMT2 | NodeKind::ND_ELSE
        | NodeKind::ND_IFCOND => child_code(n.l, t, e),
        NodeKind::ND_IDENT => match resolve(t, n.str, n.block_str) {
            Some((v, _)) => Ok(
                e.put(text("lea -")).put(decimal(v.offset as nat)).put(
                    text("(%rbp), %rax\nmov (%rax), %rax\npush %rax\n"),
                ),
            ),
            None => Err(CompileError::UndeclaredSymbol),
        },
        NodeKind::ND_FNCALL => match args_code(n.fn_call_args, 0, t, e) {
            Ok(e1) => Ok(e1.put(text("call ")).put(n.fn_name).put(text("\npush %rax\n"))),
            Err(x) => Err(x),
        },
        NodeKind::ND_ASSIGN => match n.l {
            Some(lhs) => match resolve(t, lhs.str, lhs.block_str) {
                Some((v, _)) => match child_code(n.r, t, push_address(v.offset, e)) {
                    Ok(e1) => Ok(store(e1)),
                    Err(x) => Err(x),
                },
                None => Err(CompileError::UndeclaredSymbol),
            },
            None => Err(CompileError::MissingOperand),
        },
        NodeKind::ND_DECL => match n.l {
            Some(lhs) => match find(t, identity(lhs.str, n.block_str)) {
                Some(v) => match child_code(n.r, t, push_address(v.offset, e)) {
                    Ok(e1) => Ok(store(e1)),
                    Err(x) => Err(x),
                },
                None => Err(CompileError::UndeclaredSymbol),
            },
            None => Err(CompileError::MissingOperand),
        },
        NodeKind::ND_BLOCK => list_code(n.block_stmts, 0, t, e),
        NodeKind::ND_FOR => {
            let i = e.label;
            match child_code(n.for_node_first_assign, t, e.advance()) {
                Ok(e1) => match child_code(
                    n.for_node_second_condition,
                    t,
                    define_label(text(".L_FOR_START"), i, e1),
                ) {
                    Ok(e2) => match child_code(
                        n.for_node_stmts,
                        t,
                        jump_unless(text(".L_FOR_END"), i, e2),
                    ) {
                        Ok(e3) => match child_code(n.for_node_third_expr, t, e3) {
                            Ok(e4) => Ok(
                                define_label(
                                    text(".L_FOR_END"),
                                    i,
                                    e4.put(text("jmp .L_FOR_START")).put(decimal(i)).put(
                                        text("\n"),
                                    ),
                                ),
                            ),
                            Err(x) => Err(x),
                        },
                        Err(x) => Err(x),
                    },
                    Err(x) => Err(x),
                },
                Err(x) => Err(x),
            }
        },
        NodeKind::ND_IFSTMT => match child_code(n.if_node, t, e) {
            Ok(e1) => {
                let after_elsif = if n.elsif_node is Some {
                    child_code(n.elsif_node, t, e1)
                } else {
                    Ok(e1)
                };
                match after_elsif {
                    Ok(e2) => if n.else_node is Some {
                        child_code(n.else_node, t, e2)
                    } else {
                        Ok(e2)
                    },
                    Err(x) => Err(x),
                }
            },
            Err(x) => Err(x),
        },
        NodeKind::ND_IF | NodeKind::ND_ELSIF => {
            let i = e.label + 1;
            match child_code(n.l, t, e.advance()) {
                Ok(e1) => match child_code(n.r, t, jump_unless(text(".L"), i, e1)) {
                    Ok(e2) => Ok(define_label(text(".L"), i, e2)),
                    Err(x) => Err(x),
                },
                Err(x) => Err(x),
            }
        },
        _ => match child_code(n.l, t, e) {
            Ok(e1) => match child_code(n.r, t, e1) {
                Ok(e2) => Ok(
                    operate(n.kind, e2.put(text("pop %rdi\npop %rax\n"))).put(
                        text("push %rax\n"),
                    ),
                ),
                Err(x) => Err(x),
            },
            Err(x) => Err(x),
        },
    }
}

/// The frame size: the bytes of locals and parameters, rounded up to a
/// multiple of 16.
pub open spec fn frame_size(lv_size: nat, fn_args_size: nat) -> nat {
    ((lv_size + fn_args_size + 15) / 16) * 16
}

/// The code that stores the parameters from index `i` on, each from its
/// register into its slot. A seventh parameter is an error.
pub open spec fn spill_params(
    args: Seq<FnArgsView>,
    i: nat,
    t: Seq<(Seq<u8>, Variable)>,
    e: Emit,
) -> Result<Emit, CompileError>
    decreases args.len() - i,
{
    if i >= args.len() {
        Ok(e)
    } else if i >= 6 {
        Err(CompileError::ArityError)
    } else {
        match resolve(t, args[i as int].sym, fn_arg_label()) {
            Some((v, _)) => spill_params(
                args,
                i + 1,
                t,
                e.put(text("mov %")).put(arg_register(i as int)).put(text(", -")).put(
                    decimal(v.offset as nat),
                ).put(text("(%rbp)\n")),
            ),
            None => Err(CompileError::UndeclaredSymbol),
        }
    }
}

/// The code of one function: its label, the prologue that sets up a frame of
/// `frame_size` bytes, the parameters' stores, the statements, the epilogue.
pub open spec fn function_code(f: FunctionView, e: Emit) -> Result<Emit, CompileError> {
    let e1 = e.put(text(".global ")).put(f.fn_name).put(text("\n")).put(f.fn_name).put(
        text(":\npushq %rbp\nmovq %rsp, %rbp\nsub $"),
    ).put(decimal(frame_size(f.lv_size as nat, f.fn_args_size as nat))).put(text(", %rsp\n"));
    match spill_params(f.fn_args, 0, f.local_variable, e1) {
        Ok(e2) => match list_code(f.root_node.fn_blocks, 0, f.local_variable, e2) {
            Ok(e3) => Ok(leave(e3)),
            Err(x) => Err(x),
        },
        Err(x) => Err(x),
    }
}

/// The code of the functions from index `i` on, in order.
pub open spec fn program_code(fs: Seq<FunctionView>, i: nat, e: Emit) -> Result<Emit, CompileError>
    decreases fs.len() - i,
{
    if i >= fs.len() {
        Ok(e)
    } else {
        match function_code(fs[i as int], e) {
            Ok(e1) => program_code(fs, i + 1, e1),
            Err(x) => Err(x),
        }
    }
}

/// The assembly text of a program: one `.text` directive, then the
/// functions in order, with one label counter for all of them.
pub open spec fn assembly(fs: Seq<FunctionView>) -> Result<Seq<u8>, CompileError> {
    match program_code(fs, 0, Emit { out: text(".text\n"), label: 0 }) {
        Ok(e) => Ok(e.out),
        Err(x) => Err(x),
    }
}

/// The frame of every function is a multiple of 16 bytes that holds the
/// locals and the parameters, with less than 16 bytes to spare.
pub proof fn lemma_frame_aligned(f: FunctionView)
    ensures
        frame_size(f.lv_size as nat, f.fn_args_size as nat) % 16 == 0,
        f.lv_size + f.fn_args_size <= frame_size(f.lv_size as nat, f.fn_args_size as nat)
            < f.lv_size + f.fn_args_size + 16,
{
    let sum = (f.lv_size + f.fn_args_size + 15) as nat;
    assert((sum / 16) * 16 % 16 == 0) by (nonlinear_arith);
    assert(sum - 15 <= (sum / 16) * 16 <= sum) by (nonlinear_arith);
}

/// The code of a comparison ends with the instruction that sets `%al` to 0 or
/// 1 by the flags, the one that widens `%al` to `%rax`, and the push of
/// `%rax`: what it leaves on top of the stack is that 0 or 1.
pub proof fn lemma_comparison_pushes_flag(n: NodeView, t: Seq<(Seq<u8>, Variable)>, e: Emit)
    requires
        is_comparison(n.kind),
        node_code(n, t, e) is Ok,
    ensures
        exists|before: Seq<u8>|
            node_code(n, t, e)->Ok_0.out == before + set_text(n.kind) + text("movzb %al, %rax\n")
                + text("push %rax\n"),
        set_text(n.kind) == text("sete %al\n") || set_text(n.kind) == text("setne %al\n")
            || set_text(n.kind) == text("setl %al\n") || set_text(n.kind) == text("setle %al\n"),
{
    let e1 = child_code(n.l, t, e)->Ok_0;
    let e2 = child_code(n.r, t, e1)->Ok_0;
    let before = e2.out + text("pop %rdi\npop %rax\n") + compare_text(n.kind);
    assert(node_code(n, t, e)->Ok_0.out == before + set_text(n.kind) + text("movzb %al, %rax\n")
        + text("push %rax\n"));
}

/// Whether what was emitted is what `want` asks for.
pub open spec fn emitted(
    want: Result<Emit, CompileError>,
    r: Result<(), CompileError>,
    out: Seq<u8>,
    label: nat,
) -> bool {
    match want {
        Ok(e) => r is Ok && out == e.out && label == e.label,
        Err(x) => r == Err::<(), CompileError>(x),
    }
}

/// Appends the name of the register of index `i`.
fn put_register(out: &mut Vec<u8>, i: usize)
    requires
        i < 6,
    ensures
        final(out)@ == old(out)@ + arg_register(i as int),
{
    if i == 0 {
        put(out, "rdi");
    } else if i == 1 {
        put(out, "rsi");
    } else if i == 2 {
        put(out, "rdx");
    } else if i == 3 {
        put(out, "rcx");
    } else if i == 4 {
        put(out, "r8");
    } else {
        put(out, "r9");
    }
}

/// Appends the instructions of a binary node between fetching its operands
/// and pushing its result.
fn put_operate(kind: NodeKind, out: &mut Vec<u8>)
    ensures
        forall|label: nat|
            #[trigger] operate(kind, Emit { out: old(out)@, label }) == (Emit {
                out: final(out)@,
                label,
            }),
{
    match kind {
        NodeKind::ND_ADD => put(out, "add %rdi, %rax\n"),
        NodeKind::ND_SUB => put(out, "sub %rdi, %rax\n"),
        NodeKind::ND_MUL => put(out, "imul %rdi, %rax\n"),
        NodeKind::ND_DIV => put(out, "cqo\nidiv %rdi\n"),
        NodeKind::ND_EQ => {
            put(out, "cmp %rdi, %rax\n");
            put(out, "sete %al\n");
            put(out, "movzb %al, %rax\n");
        },
        NodeKind::ND_NEQ => {
            put(out, "cmp %rdi, %rax\n");
            put(out, "setne %al\n");
            put(out, "movzb %al, %rax\n");
        },
        NodeKind::ND_LE => {
            put(out, "cmp %rdi, %rax\n");
            put(out, "setle %al\n");
            put(out, "movzb %al, %rax\n");
        },
        NodeKind::ND_LT => {
            put(out, "cmp %rdi, %rax\n");
            put(out, "setl %al\n");
            put(out, "movzb %al, %rax\n");
        },
        NodeKind::ND_BE => {
            put(out, "cmp %rax, %rdi\n");
            put(out, "setle %al\n");
            put(out, "movzb %al, %rax\n");
        },
        NodeKind::ND_BT => {
            put(out, "cmp %rax, %rdi\n");
            put(out, "setl %al\n");
            put(out, "movzb %al, %rax\n");
        },
        _ => {},
    }
}

/// Appends the instructions that push the address of the variable at
/// `offset`.
fn put_push_address(offset: usize, out: &mut Vec<u8>)
    ensures
        forall|label: nat|
            #[trigger] push_address(offset, Emit { out: old(out)@, label }) == (Emit {
                out: final(out)@,
                label,
            }),
{
    put(out, "lea -");
    put_decimal(out, offset as u128);
    put(out, "(%rbp), %rax\npush %rax\n");
}

/// Appends the code of an optional child.
fn gen_child(
    c: &Option<Box<Node>>,
    out: &mut Vec<u8>,
    lv: &FunctionLocalVariable,
    cl: &mut CodeLabel,
) -> (r: Result<(), CompileError>)
    requires
        lv.wf(),
        old(cl).wf(),
    ensures
        final(cl).wf(),
        emitted(
            child_code(child_view(*c), lv@, Emit { out: old(out)@, label: old(cl)@ }),
            r,
            final(out)@,
            final(cl)@,
        ),
    decreases *c, 0nat,
{
    match c {
        Some(b) => gen(b, out, lv, cl),
        None => Err(CompileError::MissingOperand),
    }
}

/// Appends the code of a list of nodes, in order.
fn gen_list(
    ns: &Vec<Node>,
    out: &mut Vec<u8>,
    lv: &FunctionLocalVariable,
    cl: &mut CodeLabel,
) -> (r: Result<(), CompileError>)
    requires
        lv.wf(),
        old(cl).wf(),
    ensures
        final(cl).wf(),
        emitted(
            list_code(nodes_view(ns@), 0, lv@, Emit { out: old(out)@, label: old(cl)@ }),
            r,
            final(out)@,
            final(cl)@,
        ),
    decreases *ns, 0nat,
{
    let ghost want = list_code(nodes_view(ns@), 0, lv@, Emit { out: out@, label: cl@ });
    let mut i: usize = 0;
    while i < ns.len()
        invariant
            i <= ns@.len(),
            lv.wf(),
            cl.wf(),
            want == list_code(nodes_view(ns@), 0, lv@, Emit { out: old(out)@, label: old(cl)@ }),
            want == list_code(nodes_view(ns@), i as nat, lv@, Emit { out: out@, label: cl@ }),
        decreases ns.len() - i,
    {
        match gen(&ns[i], out, lv, cl) {
            Ok(()) => {},
            Err(x) => {
                return Err(x);
            },
        }
        i += 1;
    }
    Ok(())
}

/// Appends the code that evaluates the arguments of a call, each into its
/// register.
fn gen_args(
    args: &Vec<FnArgs>,
    out: &mut Vec<u8>,
    lv: &FunctionLocalVariable,
    cl: &mut CodeLabel,
) -> (r: Result<(), CompileError>)
    requires
        lv.wf(),
        old(cl).wf(),
    ensures
        final(cl).wf(),
        emitted(
            args_code(args_view(args@), 0, lv@, Emit { out: old(out)@, label: old(cl)@ }),
            r,
            final(out)@,
            final(cl)@,
        ),
    decreases *args, 0nat,
{
    let ghost want = args_code(args_view(args@), 0, lv@, Emit { out: out@, label: cl@ });
    let mut i: usize = 0;
    while i < args.len()
        invariant
            i <= args@.len(),
            lv.wf(),
            cl.wf(),
            want == args_code(args_view(args@), 0, lv@, Emit { out: old(out)@, label: old(cl)@ }),
            want == args_code(args_view(args@), i as nat, lv@, Emit { out: out@, label: cl@ }),
        decreases args.len() - i,
    {
        if i >= 6 {
            return Err(CompileError::ArityError);
        }
        match gen_child(&args[i].val, out, lv, cl) {
            Ok(()) => {},
            Err(x) => {
                return Err(x);
            },
        }
        put(out, "pop %rax\nmov %rax, %");
        put_register(out, i);
        put(out, "\n");
        i += 1;
    }
    Ok(())
}

/// Appends the code of a node to `out`: see `node_code`. An expression's code
/// leaves its value on top of the run-time stack.
pub fn gen(node: &Node, out: &mut Vec<u8>, lv: &FunctionLocalVariable, cl: &mut CodeLabel) -> (r:
    Result<(), CompileError>)
    requires
        lv.wf(),
        old(cl).wf(),
    ensures
        final(cl).wf(),
        emitted(
            node_code(node@, lv@, Emit { out: old(out)@, label: old(cl)@ }),
            r,
            final(out)@,
            final(cl)@,
        ),
    decreases *node, 1nat,
{
    match node.kind {
        NodeKind::ND_NUM => {
            put(out, "push $");
            put_signed_decimal(out, node.val);
            put(out, "\n");
            Ok(())
        },
        NodeKind::ND_RETURN => {
            match gen_child(&node.l, out, lv, cl) {
                Ok(()) => {},
                Err(x) => {
                    return Err(x);
                },
            }
            put(out, "pop %rax\nmov %rbp, %rsp\npop %rbp\nret\n");
            Ok(())
        },
        NodeKind::ND_EXPR | NodeKind::ND_STMT | NodeKind::ND_STMT2 | NodeKind::ND_ELSE
        | NodeKind::ND_IFCOND => gen_child(&node.l, out, lv, cl),
        NodeKind::ND_IDENT => {
            match lv.resolve(&node.str, &node.block_str) {
                Some((val, _)) => {
                    put(out, "lea -");
                    put_decimal(out, val.offset as u128);
                    put(out, "(%rbp), %rax\nmov (%rax), %rax\npush %rax\n");
                    Ok(())
                },
                None => Err(CompileError::UndeclaredSymbol),
            }
        },
        NodeKind::ND_FNCALL => {
            match gen_args(&node.fn_call_args, out, lv, cl) {
                Ok(()) => {},
                Err(x) => {
                    return Err(x);
                },
            }
            put(out, "call ");
            put_bytes(out, &node.fn_name);
            put(out, "\npush %rax\n");
            Ok(())
        },
        NodeKind::ND_ASSIGN => {
            match &node.l {
                Some(lhs) => {
                    match lv.resolve(&lhs.str, &lhs.block_str) {
                        Some((val, _)) => {
                            put_push_address(val.offset, out);
                            match gen_child(&node.r, out, lv, cl) {
                                Ok(()) => {},
                                Err(x) => {
                                    return Err(x);
                                },
                            }
                            put(out, "pop %rax\npop %rdi\nmov %rax, (%rdi)\n");
                            Ok(())
                        },
                        None => Err(CompileError::UndeclaredSymbol),
                    }
                },
                None => Err(CompileError::MissingOperand),
            }
        },
        NodeKind::ND_DECL => {
            match &node.l {
                Some(lhs) => {
                    let ident_id = blockstr_to_identid(&lhs.str, &node.block_str);
                    match lv.get_val_offset_by_identid(&ident_id) {
                        Some(val) => {
                            put_push_address(val.offset, out);
                            match gen_child(&node.r, out, lv, cl) {
                                Ok(()) => {},
                                Err(x) => {
                                    return Err(x);
                                },
                            }
                            put(out, "pop %rax\npop %rdi\nmov %rax, (%rdi)\n");
                            Ok(())
                        },
                        None => Err(CompileError::UndeclaredSymbol),
                    }
                },
                None => Err(CompileError::MissingOperand),
            }
        },
        NodeKind::ND_BLOCK => gen_list(&node.block_stmts, out, lv, cl),
        NodeKind::ND_FOR => {
            let index = crate::text::copy_bytes(cl.cur_label_index());
            cl.advance();
            match gen_child(&node.for_node_first_assign, out, lv, cl) {
                Ok(()) => {},
                Err(x) => {
                    return Err(x);
                },
            }
            put(out, ".L_FOR_START");
            put_bytes(out, &index);
            put(out, ":\n");
            match gen_child(&node.for_node_second_condition, out, lv, cl) {
                Ok(()) => {},
                Err(x) => {
                    return Err(x);
                },
            }
            put(out, "pop %rax\nmov $1, %rdi\ncmp %rdi, %rax\njne ");
            put(out, ".L_FOR_END");
            put_bytes(out, &index);
            put(out, "\n");
            match gen_child(&node.for_node_stmts, out, lv, cl) {
                Ok(()) => {},
                Err(x) => {
                    return Err(x);
                },
            }
            match gen_child(&node.for_node_third_expr, out, lv, cl) {
                Ok(()) => {},
                Err(x) => {
                    return Err(x);
                },
            }
            put(out, "jmp .L_FOR_START");
            put_bytes(out, &index);
            put(out, "\n");
            put(out, ".L_FOR_END");
            put_bytes(out, &index);
            put(out, ":\n");
            Ok(())
        },
        NodeKind::ND_IFSTMT => {
            match gen_child(&node.if_node, out, lv, cl) {
                Ok(()) => {},
                Err(x) => {
                    return Err(x);
                },
            }
            if node.elsif_node.is_some() {
                match gen_child(&node.elsif_node, out, lv, cl) {
                    Ok(()) => {},
                    Err(x) => {
                        return Err(x);
                    },
                }
            }
            if node.else_node.is_some() {
                match gen_child(&node.else_node, out, lv, cl) {
                    Ok(()) => {},
                    Err(x) => {
                        return Err(x);
                    },
                }
            }
            Ok(())
        },
        NodeKind::ND_IF | NodeKind::ND_ELSIF => {
            cl.advance();
            let index = crate::text::copy_bytes(cl.cur_label_index());
            match gen_child(&node.l, out, lv, cl) {
                Ok(()) => {},
                Err(x) => {
                    return Err(x);
                },
            }
            put(out, "pop %rax\nmov $1, %rdi\ncmp %rdi, %rax\njne ");
            put(out, ".L");
            put_bytes(out, &index);
            put(out, "\n");
            match gen_child(&node.r, out, lv, cl) {
                Ok(()) => {},
                Err(x) => {
                    return Err(x);
                },
            }
            put(out, ".L");
            put_bytes(out, &index);
            put(out, ":\n");
            Ok(())
        },
        _ => {
            match gen_child(&node.l, out, lv, cl) {
                Ok(()) => {},
                Err(x) => {
                    return Err(x);
                },
            }
            match gen_child(&node.r, out, lv, cl) {
                Ok(()) => {},
                Err(x) => {
                    return Err(x);
                },
            }
            put(out, "pop %rdi\npop %rax\n");
            let ghost fetched = Emit { out: out@, label: cl@ };
            put_operate(node.kind, out);
            assert(operate(node.kind, fetched) == (Emit { out: out@, label: cl@ }));
            put(out, "push %rax\n");
            Ok(())
        },
    }
}

/// Appends the code that stores the parameters, each from its register into
/// its slot.
fn put_spill_params(args: &Vec<FnArgs>, out: &mut Vec<u8>, lv: &FunctionLocalVariable) -> (r:
    Result<(), CompileError>)
    requires
        lv.wf(),
    ensures
        forall|label: nat|
            emitted(
                #[trigger] spill_params(
                    args_view(args@),
                    0,
                    lv@,
                    Emit { out: old(out)@, label },
                ),
                r,
                final(out)@,
                label,
            ),
{
    let label = fn_arg_block_str();
    let mut i: usize = 0;
    while i < args.len()
        invariant
            i <= args@.len(),
            lv.wf(),
            label@ == fn_arg_label(),
            forall|l: nat|
                #[trigger] spill_params(args_view(args@), 0, lv@, Emit { out: old(out)@, label: l })
                    == spill_params(args_view(args@), i as nat, lv@, Emit { out: out@, label: l }),
        decreases args.len() - i,
    {
        if i >= 6 {
            return Err(CompileError::ArityError);
        }
        match lv.resolve(&args[i].sym, &label) {
            Some((val, _)) => {
                put(out, "mov %");
                put_register(out, i);
                put(out, ", -");
                put_decimal(out, val.offset as u128);
                put(out, "(%rbp)\n");
            },
            None => {
                return Err(CompileError::UndeclaredSymbol);
            },
        }
        i += 1;
    }
    Ok(())
}

/// Appends the code of one function to `out`: see `function_code`.
pub fn codegen_func(function: &Function, out: &mut Vec<u8>, cl: &mut CodeLabel) -> (r: Result<
    (),
    CompileError,
>)
    requires
        function.local_variable.wf(),
        old(cl).wf(),
    ensures
        final(cl).wf(),
        emitted(
            function_code(function@, Emit { out: old(out)@, label: old(cl)@ }),
            r,
            final(out)@,
            final(cl)@,
        ),
{
    put(out, ".global ");
    put_bytes(out, &function.fn_name);
    put(out, "\n");
    put_bytes(out, &function.fn_name);
    put(out, ":\npushq %rbp\nmovq %rsp, %rbp\nsub $");
    let total: u128 = function.lv_size as u128 + function.fn_args_size as u128 + 15;
    put_decimal(out, total / 16 * 16);
    put(out, ", %rsp\n");
    let ghost e1 = Emit { out: out@, label: cl@ };
    match put_spill_params(&function.fn_args, out, &function.local_variable) {
        Ok(()) => {},
        Err(x) => {
            assert(spill_params(function@.fn_args, 0, function@.local_variable, e1) is Err);
            return Err(x);
        },
    }
    assert(spill_params(function@.fn_args, 0, function@.local_variable, e1) is Ok);
    match gen_list(&function.root_node.fn_blocks, out, &function.local_variable, cl) {
        Ok(()) => {},
        Err(x) => {
            return Err(x);
        },
    }
    put(out, "pop %rax\nmov %rbp, %rsp\npop %rbp\nret\n");
    Ok(())
}

/// The assembly text of the resolved functions: see `assembly`.
pub fn codegen(functions: Vec<Function>) -> (r: Result<Vec<u8>, CompileError>)
    requires
        forall|i: int| 0 <= i < functions@.len() ==> (#[trigger] functions@[i]).local_variable.wf(),
    ensures
        match assembly(functions_view(functions@)) {
            Ok(code) => r is Ok && r->Ok_0@ == code,
            Err(x) => r == Err::<Vec<u8>, CompileError>(x),
        },
{
    let mut out: Vec<u8> = Vec::new();
    let mut cl = CodeLabel::new();
    put(&mut out, ".text\n");
    assert(out@ =~= text(".text\n"));
    let ghost fs = functions_view(functions@);
    let mut i: usize = 0;
    while i < functions.len()
        invariant
            i <= functions@.len(),
            cl.wf(),
            fs == functions_view(functions@),
            forall|i: int|
                0 <= i < functions@.len() ==> (#[trigger] functions@[i]).local_variable.wf(),
            program_code(fs, 0, Emit { out: text(".text\n"), label: 0 }) == program_code(
                fs,
                i as nat,
                Emit { out: out@, label: cl@ },
            ),
        decreases functions.len() - i,
    {
        match codegen_func(&functions[i], &mut out, &mut cl) {
            Ok(()) => {},
            Err(x) => {
                return Err(x);
            },
        }
        i += 1;
    }
    Ok(out)
}

} // verus!
