//! The code generator: a single depth-first walk over the abstract syntax
//! tree that emits a linear instruction program for the virtual machine.
//!
//! The generator works in two phases.  Phase one walks the tree once,
//! emitting instructions, assigning frame-relative slots to variables, and
//! recording a patch for every `Call` whose target address is not yet
//! known; it also records the entry address of every function definition.
//! Phase two resolves each patch against the recorded entry addresses and
//! overwrites the placeholder operand; a name with no matching definition
//! is a fatal, deterministic error naming the function.
//!
//! The whole emission discipline is written down once, as the
//! specification functions [`emit_expr_spec`], [`gen_stmt_spec`] and
//! [`generate_spec`]; the executable generator is verified to produce
//! exactly that program, error for error.

use vstd::prelude::*;

use crate::vm::Instruction;

verus! {

/// A statement node of the abstract syntax tree.  Trees are immutable once
/// produced; the generator only reads them.
#[derive(Debug, PartialEq)]
pub enum ASTNode {
    Return(Box<Expr>),
    If { condition: Box<Expr>, then_branch: Box<ASTNode>, else_branch: Option<Box<ASTNode>> },
    While { condition: Box<Expr>, body: Box<ASTNode> },
    Sequence(Vec<ASTNode>),
    Declaration(String, Box<Expr>),
    Assignment(String, Box<Expr>),
    FunctionDef { name: String, params: Vec<String>, body: Box<ASTNode> },
    Print(String),
}

/// An expression node.  Every expression, once emitted, leaves exactly one
/// value on the operand stack.
#[derive(Debug, PartialEq)]
pub enum Expr {
    Number(i64),
    Variable(String),
    Add(Box<Expr>, Box<Expr>),
    Sub(Box<Expr>, Box<Expr>),
    Mul(Box<Expr>, Box<Expr>),
    Div(Box<Expr>, Box<Expr>),
    Mod(Box<Expr>, Box<Expr>),
    Equal(Box<Expr>, Box<Expr>),
    Less(Box<Expr>, Box<Expr>),
    Greater(Box<Expr>, Box<Expr>),
    Call(String, Vec<Expr>),
    Var(String),
}

/// A fatal compile-time condition.  Compilation aborts with the first one
/// found; nothing is retried and no partial program is returned.
#[derive(Debug, Clone, PartialEq)]
pub enum CodegenError {
    /// An expression referenced a variable before any declaration bound it;
    /// carries the variable name.
    UndeclaredVariable(String),
    /// An assignment to a name never declared; carries the variable name.
    AssignmentToUndeclared(String),
    /// A call whose name matches no function definition; carries the
    /// function name.
    UnresolvedCall(String),
    /// The running local-slot counter reached the machine's addressing
    /// limit; only reachable for programs with more declarations than the
    /// machine can address.
    TooManyLocals,
}

/// The mathematical shape of a [`CodegenError`]: names as character
/// sequences.
pub enum CodegenErrorView {
    UndeclaredVariable(Seq<char>),
    AssignmentToUndeclared(Seq<char>),
    UnresolvedCall(Seq<char>),
    TooManyLocals,
}

impl View for CodegenError {
    type V = CodegenErrorView;

    open spec fn view(&self) -> CodegenErrorView {
        match self {
            CodegenError::UndeclaredVariable(n) => CodegenErrorView::UndeclaredVariable(n@),
            CodegenError::AssignmentToUndeclared(n) => CodegenErrorView::AssignmentToUndeclared(
                n@,
            ),
            CodegenError::UnresolvedCall(n) => CodegenErrorView::UnresolvedCall(n@),
            CodegenError::TooManyLocals => CodegenErrorView::TooManyLocals,
        }
    }
}

/// The mathematical shape of an [`Expr`]: names as character sequences,
/// argument lists as sequences.  This is what the parser's contracts
/// speak of.
pub enum ExprView {
    Number(i64),
    Variable(Seq<char>),
    Add(Box<ExprView>, Box<ExprView>),
    Sub(Box<ExprView>, Box<ExprView>),
    Mul(Box<ExprView>, Box<ExprView>),
    Div(Box<ExprView>, Box<ExprView>),
    Mod(Box<ExprView>, Box<ExprView>),
    Equal(Box<ExprView>, Box<ExprView>),
    Less(Box<ExprView>, Box<ExprView>),
    Greater(Box<ExprView>, Box<ExprView>),
    Call(Seq<char>, Seq<ExprView>),
    Var(Seq<char>),
}

/// The mathematical shape of an [`ASTNode`].
pub enum ASTNodeView {
    Return(Box<ExprView>),
    If {
        condition: Box<ExprView>,
        then_branch: Box<ASTNodeView>,
        else_branch: Option<Box<ASTNodeView>>,
    },
    While { condition: Box<ExprView>, body: Box<ASTNodeView> },
    Sequence(Seq<ASTNodeView>),
    Declaration(Seq<char>, Box<ExprView>),
    Assignment(Seq<char>, Box<ExprView>),
    FunctionDef { name: Seq<char>, params: Seq<Seq<char>>, body: Box<ASTNodeView> },
    Print(Seq<char>),
}

/// The shape of an expression.
pub open spec fn expr_view(e: Expr) -> ExprView
    decreases e, 0int,
{
    match e {
        Expr::Number(n) => ExprView::Number(n),
        Expr::Variable(name) => ExprView::Variable(name@),
        Expr::Add(l, r) => ExprView::Add(Box::new(expr_view(*l)), Box::new(expr_view(*r))),
        Expr::Sub(l, r) => ExprView::Sub(Box::new(expr_view(*l)), Box::new(expr_view(*r))),
        Expr::Mul(l, r) => ExprView::Mul(Box::new(expr_view(*l)), Box::new(expr_view(*r))),
        Expr::Div(l, r) => ExprView::Div(Box::new(expr_view(*l)), Box::new(expr_view(*r))),
        Expr::Mod(l, r) => ExprView::Mod(Box::new(expr_view(*l)), Box::new(expr_view(*r))),
        Expr::Equal(l, r) => ExprView::Equal(Box::new(expr_view(*l)), Box::new(expr_view(*r))),
        Expr::Less(l, r) => ExprView::Less(Box::new(expr_view(*l)), Box::new(expr_view(*r))),
        Expr::Greater(l, r) => ExprView::Greater(
            Box::new(expr_view(*l)),
            Box::new(expr_view(*r)),
        ),
        Expr::Call(name, args) => ExprView::Call(name@, exprs_view_from(args@, 0)),
        Expr::Var(name) => ExprView::Var(name@),
    }
}

/// The shapes of the expressions from index `k` on.
pub open spec fn exprs_view_from(es: Seq<Expr>, k: nat) -> Seq<ExprView>
    decreases es, es.len() - k,
{
    if k >= es.len() {
        Seq::empty()
    } else {
        seq![expr_view(es[k as int])] + exprs_view_from(es, k + 1)
    }
}

/// The shape of a statement node.
pub open spec fn ast_view(node: ASTNode) -> ASTNodeView
    decreases node, 0int,
{
    match node {
        ASTNode::Return(e) => ASTNodeView::Return(Box::new(expr_view(*e))),
        ASTNode::If { condition, then_branch, else_branch } => ASTNodeView::If {
            condition: Box::new(expr_view(*condition)),
            then_branch: Box::new(ast_view(*then_branch)),
            else_branch: match else_branch {
                Some(b) => Some(Box::new(ast_view(*b))),
                None => None,
            },
        },
        ASTNode::While { condition, body } => ASTNodeView::While {
            condition: Box::new(expr_view(*condition)),
            body: Box::new(ast_view(*body)),
        },
        ASTNode::Sequence(stmts) => ASTNodeView::Sequence(asts_view_from(stmts@, 0)),
        ASTNode::Declaration(name, e) => ASTNodeView::Declaration(
            name@,
            Box::new(expr_view(*e)),
        ),
        ASTNode::Assignment(name, e) => ASTNodeView::Assignment(name@, Box::new(expr_view(*e))),
        ASTNode::FunctionDef { name, params, body } => ASTNodeView::FunctionDef {
            name: name@,
            params: Seq::new(params@.len(), |k: int| params@[k]@),
            body: Box::new(ast_view(*body)),
        },
        ASTNode::Print(text) => ASTNodeView::Print(text@),
    }
}

/// The shapes of the statement nodes from index `k` on.
pub open spec fn asts_view_from(ns: Seq<ASTNode>, k: nat) -> Seq<ASTNodeView>
    decreases ns, ns.len() - k,
{
    if k >= ns.len() {
        Seq::empty()
    } else {
        seq![ast_view(ns[k as int])] + asts_view_from(ns, k + 1)
    }
}

impl View for Expr {
    type V = ExprView;

    open spec fn view(&self) -> ExprView {
        expr_view(*self)
    }
}

impl View for ASTNode {
    type V = ASTNodeView;

    open spec fn view(&self) -> ASTNodeView {
        ast_view(*self)
    }
}

/// Appending an expression appends its shape.
pub proof fn lemma_exprs_view_push(es: Seq<Expr>, x: Expr, k: nat)
    requires
        k <= es.len(),
    ensures
        exprs_view_from(es.push(x), k) == exprs_view_from(es, k).push(expr_view(x)),
    decreases es.len() - k,
{
    if k == es.len() {
        assert(exprs_view_from(es.push(x), k) =~= exprs_view_from(es, k).push(expr_view(x)))
            by {
            reveal_with_fuel(exprs_view_from, 3);
            assert(es.push(x)[k as int] == x);
        }
    } else {
        lemma_exprs_view_push(es, x, k + 1);
        assert(es.push(x)[k as int] == es[k as int]);
        assert(exprs_view_from(es.push(x), k) =~= exprs_view_from(es, k).push(expr_view(x)));
    }
}

/// Appending a statement appends its shape.
pub proof fn lemma_asts_view_push(ns: Seq<ASTNode>, x: ASTNode, k: nat)
    requires
        k <= ns.len(),
    ensures
        asts_view_from(ns.push(x), k) == asts_view_from(ns, k).push(ast_view(x)),
    decreases ns.len() - k,
{
    if k == ns.len() {
        assert(asts_view_from(ns.push(x), k) =~= asts_view_from(ns, k).push(ast_view(x))) by {
            reveal_with_fuel(asts_view_from, 3);
            assert(ns.push(x)[k as int] == x);
        }
    } else {
        lemma_asts_view_push(ns, x, k + 1);
        assert(ns.push(x)[k as int] == ns[k as int]);
        assert(asts_view_from(ns.push(x), k) =~= asts_view_from(ns, k).push(ast_view(x)));
    }
}

/// The generator's working state during the depth-first walk: the
/// instructions emitted so far, the symbol table (name, frame slot) with
/// the most recent binding winning, the next free slot, the pending call
/// patches (instruction index, callee name), and the recorded function
/// entry addresses (name, address).
#[verifier::ext_equal]
pub struct CgState {
    pub instrs: Seq<Instruction>,
    pub table: Seq<(Seq<char>, nat)>,
    pub next_offset: nat,
    pub patches: Seq<(nat, Seq<char>)>,
    pub funcs: Seq<(Seq<char>, nat)>,
}

/// The placeholder operand written into a branch or call instruction whose
/// real target is patched in later.
pub const PLACEHOLDER: usize = 9999;

/// Looks a name up in an association list where the most recent (last)
/// binding wins, as a hash-map insert would have overwritten earlier ones.
pub open spec fn lookup_spec(t: Seq<(Seq<char>, nat)>, name: Seq<char>) -> Option<nat>
    decreases t.len(),
{
    if t.len() == 0 {
        None
    } else if t.last().0 == name {
        Some(t.last().1)
    } else {
        lookup_spec(t.drop_last(), name)
    }
}

/// Instructions emitted for an expression, appended to `instrs`: post-order,
/// each sub-expression leaving exactly one value on the operand stack.
/// Returns the extended instructions and patches, or the first fatal error.
pub open spec fn emit_expr_spec(
    e: Expr,
    instrs: Seq<Instruction>,
    table: Seq<(Seq<char>, nat)>,
    patches: Seq<(nat, Seq<char>)>,
) -> Result<(Seq<Instruction>, Seq<(nat, Seq<char>)>), CodegenErrorView>
    decreases e, 0nat,
{
    match e {
        Expr::Number(n) => Ok((instrs.push(Instruction::IMM(n)), patches)),
        Expr::Variable(name) => {
            match lookup_spec(table, name@) {
                Some(off) => Ok(
                    (instrs.push(Instruction::LEA(off as usize)).push(Instruction::LI), patches),
                ),
                None => Err(CodegenErrorView::UndeclaredVariable(name@)),
            }
        },
        Expr::Var(name) => {
            match lookup_spec(table, name@) {
                Some(off) => Ok(
                    (instrs.push(Instruction::LEA(off as usize)).push(Instruction::LI), patches),
                ),
                None => Err(CodegenErrorView::UndeclaredVariable(name@)),
            }
        },
        Expr::Add(l, r) => emit_binop_spec(
            emit_expr_spec(*l, instrs, table, patches),
            *r,
            Instruction::ADD,
            table,
        ),
        Expr::Sub(l, r) => emit_binop_spec(
            emit_expr_spec(*l, instrs, table, patches),
            *r,
            Instruction::SUB,
            table,
        ),
        Expr::Mul(l, r) => emit_binop_spec(
            emit_expr_spec(*l, instrs, table, patches),
            *r,
            Instruction::MUL,
            table,
        ),
        Expr::Div(l, r) => emit_binop_spec(
            emit_expr_spec(*l, instrs, table, patches),
            *r,
            Instruction::DIV,
            table,
        ),
        Expr::Mod(l, r) => emit_binop_spec(
            emit_expr_spec(*l, instrs, table, patches),
            *r,
            Instruction::MOD,
            table,
        ),
        Expr::Equal(l, r) => emit_binop_spec(
            emit_expr_spec(*l, instrs, table, patches),
            *r,
            Instruction::EQ,
            table,
        ),
        Expr::Less(l, r) => emit_binop_spec(
            emit_expr_spec(*l, instrs, table, patches),
            *r,
            Instruction::LT,
            table,
        ),
        Expr::Greater(l, r) => emit_binop_spec(
            emit_expr_spec(*l, instrs, table, patches),
            *r,
            Instruction::GT,
            table,
        ),
        Expr::Call(name, args) => {
            match emit_args_spec(args, 0, instrs, table, patches) {
                Err(err) => Err(err),
                Ok((ins1, pat1)) => Ok(
                    (
                        ins1.push(Instruction::JSR(PLACEHOLDER)),
                        pat1.push((ins1.len(), name@)),
                    ),
                ),
            }
        },
    }
}

/// The right operand and the operator instruction, appended after the
/// already-emitted left operand.
pub open spec fn emit_binop_spec(
    left: Result<(Seq<Instruction>, Seq<(nat, Seq<char>)>), CodegenErrorView>,
    r: Expr,
    op: Instruction,
    table: Seq<(Seq<char>, nat)>,
) -> Result<(Seq<Instruction>, Seq<(nat, Seq<char>)>), CodegenErrorView>
    decreases r, 1nat,
{
    match left {
        Err(err) => Err(err),
        Ok((ins1, pat1)) => {
            match emit_expr_spec(r, ins1, table, pat1) {
                Err(err) => Err(err),
                Ok((ins2, pat2)) => Ok((ins2.push(op), pat2)),
            }
        },
    }
}

/// The call arguments from index `i` on, emitted left to right, each
/// pushing one value.
pub open spec fn emit_args_spec(
    args: Vec<Expr>,
    i: nat,
    instrs: Seq<Instruction>,
    table: Seq<(Seq<char>, nat)>,
    patches: Seq<(nat, Seq<char>)>,
) -> Result<(Seq<Instruction>, Seq<(nat, Seq<char>)>), CodegenErrorView>
    decreases args, args@.len() - i,
{
    if i >= args@.len() {
        Ok((instrs, patches))
    } else {
        match emit_expr_spec(args@[i as int], instrs, table, patches) {
            Err(err) => Err(err),
            Ok((ins1, pat1)) => emit_args_spec(args, i + 1, ins1, table, pat1),
        }
    }
}

/// Instructions emitted for one statement node, threading the whole
/// generator state.  The emission rules are exact and order-sensitive.
pub open spec fn gen_stmt_spec(node: ASTNode, st: CgState) -> Result<CgState, CodegenErrorView>
    decreases node, 0nat,
{
    match node {
        ASTNode::Return(expr) => {
            match emit_expr_spec(*expr, st.instrs, st.table, st.patches) {
                Err(err) => Err(err),
                Ok((ins1, pat1)) => Ok(
                    CgState {
                        instrs: ins1.push(Instruction::PSH).push(Instruction::EXIT),
                        patches: pat1,
                        ..st
                    },
                ),
            }
        },
        ASTNode::Print(text) => Ok(
            CgState { instrs: st.instrs.push(Instruction::PrintfStr(text)), ..st },
        ),
        ASTNode::If { condition, then_branch, else_branch } => {
            match emit_expr_spec(*condition, st.instrs, st.table, st.patches) {
                Err(err) => Err(err),
                Ok((ins1, pat1)) => {
                    let jump_false = ins1.len();
                    let st1 = CgState {
                        instrs: ins1.push(Instruction::BZ(PLACEHOLDER)),
                        patches: pat1,
                        ..st
                    };
                    match gen_stmt_spec(*then_branch, st1) {
                        Err(err) => Err(err),
                        Ok(st2) => {
                            match else_branch {
                                Some(els) => {
                                    let jump_over = st2.instrs.len();
                                    let st3 = CgState {
                                        instrs: st2.instrs.push(Instruction::JMP(PLACEHOLDER)),
                                        ..st2
                                    };
                                    let else_start = st3.instrs.len();
                                    match gen_stmt_spec(*els, st3) {
                                        Err(err) => Err(err),
                                        Ok(st4) => {
                                            let after_else = st4.instrs.len();
                                            Ok(
                                                CgState {
                                                    instrs: st4.instrs.update(
                                                        jump_false as int,
                                                        Instruction::BZ(else_start as usize),
                                                    ).update(
                                                        jump_over as int,
                                                        Instruction::JMP(after_else as usize),
                                                    ),
                                                    ..st4
                                                },
                                            )
                                        },
                                    }
                                },
                                None => {
                                    let after_then = st2.instrs.len();
                                    Ok(
                                        CgState {
                                            instrs: st2.instrs.update(
                                                jump_false as int,
                                                Instruction::BZ(after_then as usize),
                                            ),
                                            ..st2
                                        },
                                    )
                                },
                            }
                        },
                    }
                },
            }
        },
        ASTNode::While { condition, body } => {
            let loop_start = st.instrs.len();
            match emit_expr_spec(*condition, st.instrs, st.table, st.patches) {
                Err(err) => Err(err),
                Ok((ins1, pat1)) => {
                    let jump_false = ins1.len();
                    let st1 = CgState {
                        instrs: ins1.push(Instruction::BZ(PLACEHOLDER)),
                        patches: pat1,
                        ..st
                    };
                    match gen_stmt_spec(*body, st1) {
                        Err(err) => Err(err),
                        Ok(st2) => {
                            let st3 = CgState {
                                instrs: st2.instrs.push(
                                    Instruction::JMP(loop_start as usize),
                                ),
                                ..st2
                            };
                            let loop_end = st3.instrs.len();
                            Ok(
                                CgState {
                                    instrs: st3.instrs.update(
                                        jump_false as int,
                                        Instruction::BZ(loop_end as usize),
                                    ),
                                    ..st3
                                },
                            )
                        },
                    }
                },
            }
        },
        ASTNode::Sequence(statements) => gen_seq_spec(statements, 0, st),
        ASTNode::Declaration(name, expr) => {
            if st.next_offset >= usize::MAX {
                Err(CodegenErrorView::TooManyLocals)
            } else {
                let offset = st.next_offset;
                let st1 = CgState {
                    instrs: st.instrs.push(Instruction::LEA(offset as usize)),
                    table: st.table.push((name@, offset)),
                    next_offset: offset + 1,
                    ..st
                };
                match emit_expr_spec(*expr, st1.instrs, st1.table, st1.patches) {
                    Err(err) => Err(err),
                    Ok((ins2, pat2)) => Ok(
                        CgState { instrs: ins2.push(Instruction::SI), patches: pat2, ..st1 },
                    ),
                }
            }
        },
        ASTNode::Assignment(name, expr) => {
            match lookup_spec(st.table, name@) {
                None => Err(CodegenErrorView::AssignmentToUndeclared(name@)),
                Some(offset) => {
                    let st1 = CgState {
                        instrs: st.instrs.push(Instruction::LEA(offset as usize)),
                        ..st
                    };
                    match emit_expr_spec(*expr, st1.instrs, st1.table, st1.patches) {
                        Err(err) => Err(err),
                        Ok((ins2, pat2)) => Ok(
                            CgState { instrs: ins2.push(Instruction::SI), patches: pat2, ..st1 },
                        ),
                    }
                },
            }
        },
        ASTNode::FunctionDef { name, params, body } => {
            let st1 = CgState {
                table: Seq::new(params@.len(), |i: int| (params@[i]@, i as nat)),
                next_offset: params@.len(),
                funcs: st.funcs.push((name@, st.instrs.len())),
                ..st
            };
            gen_stmt_spec(*body, st1)
        },
    }
}

/// The members of a statement sequence from index `i` on, emitted in
/// order; a sequence introduces no scope boundary of its own.
pub open spec fn gen_seq_spec(nodes: Vec<ASTNode>, i: nat, st: CgState) -> Result<
    CgState,
    CodegenErrorView,
>
    decreases nodes, nodes@.len() - i,
{
    if i >= nodes@.len() {
        Ok(st)
    } else {
        match gen_stmt_spec(nodes@[i as int], st) {
            Err(err) => Err(err),
            Ok(st1) => gen_seq_spec(nodes, i + 1, st1),
        }
    }
}

/// Whether the root is a sequence consisting only of function definitions;
/// the generator special-cases such a program.
pub open spec fn all_function_defs(ast: ASTNode) -> bool {
    match ast {
        ASTNode::Sequence(nodes) => forall|i: int|
            0 <= i < nodes@.len() ==> nodes@[i] is FunctionDef,
        _ => false,
    }
}

/// Phase two: each recorded patch, in order, is resolved against the
/// function entry table and the placeholder call is overwritten with the
/// real address; the first name with no entry is a fatal error naming it.
pub open spec fn resolve_patches_spec(
    patches: Seq<(nat, Seq<char>)>,
    i: nat,
    instrs: Seq<Instruction>,
    funcs: Seq<(Seq<char>, nat)>,
) -> Result<Seq<Instruction>, CodegenErrorView>
    decreases patches.len() - i,
{
    if i >= patches.len() {
        Ok(instrs)
    } else {
        match lookup_spec(funcs, patches[i as int].1) {
            None => Err(CodegenErrorView::UnresolvedCall(patches[i as int].1)),
            Some(addr) => resolve_patches_spec(
                patches,
                i + 1,
                instrs.update(patches[i as int].0 as int, Instruction::JSR(addr as usize)),
                funcs,
            ),
        }
    }
}

/// Every pending patch points at an instruction that has already been
/// emitted.
pub open spec fn patches_bounded(patches: Seq<(nat, Seq<char>)>, len: nat) -> bool {
    forall|k: int| 0 <= k < patches.len() ==> (#[trigger] patches[k]).0 < len
}

/// Emitting an expression only appends: the program never shrinks, and
/// every patch, old or new, stays within the program.
pub proof fn lemma_emit_expr_grows(
    e: Expr,
    instrs: Seq<Instruction>,
    table: Seq<(Seq<char>, nat)>,
    patches: Seq<(nat, Seq<char>)>,
)
    requires
        emit_expr_spec(e, instrs, table, patches) is Ok,
    ensures
        emit_expr_spec(e, instrs, table, patches)->Ok_0.0.len() >= instrs.len(),
        patches_bounded(patches, instrs.len()) ==> patches_bounded(
            emit_expr_spec(e, instrs, table, patches)->Ok_0.1,
            emit_expr_spec(e, instrs, table, patches)->Ok_0.0.len(),
        ),
    decreases e, 0int,
{
    reveal_with_fuel(emit_expr_spec, 2);
    reveal_with_fuel(emit_binop_spec, 2);
    reveal_with_fuel(emit_args_spec, 2);
    match e {
        Expr::Add(l, r) => {
            lemma_emit_expr_grows(*l, instrs, table, patches);
            let (ins1, pat1) = emit_expr_spec(*l, instrs, table, patches)->Ok_0;
            lemma_emit_expr_grows(*r, ins1, table, pat1);
        },
        Expr::Sub(l, r) => {
            lemma_emit_expr_grows(*l, instrs, table, patches);
            let (ins1, pat1) = emit_expr_spec(*l, instrs, table, patches)->Ok_0;
            lemma_emit_expr_grows(*r, ins1, table, pat1);
        },
        Expr::Mul(l, r) => {
            lemma_emit_expr_grows(*l, instrs, table, patches);
            let (ins1, pat1) = emit_expr_spec(*l, instrs, table, patches)->Ok_0;
            lemma_emit_expr_grows(*r, ins1, table, pat1);
        },
        Expr::Div(l, r) => {
            lemma_emit_expr_grows(*l, instrs, table, patches);
            let (ins1, pat1) = emit_expr_spec(*l, instrs, table, patches)->Ok_0;
            lemma_emit_expr_grows(*r, ins1, table, pat1);
        },
        Expr::Mod(l, r) => {
            lemma_emit_expr_grows(*l, instrs, table, patches);
            let (ins1, pat1) = emit_expr_spec(*l, instrs, table, patches)->Ok_0;
            lemma_emit_expr_grows(*r, ins1, table, pat1);
        },
        Expr::Equal(l, r) => {
            lemma_emit_expr_grows(*l, instrs, table, patches);
            let (ins1, pat1) = emit_expr_spec(*l, instrs, table, patches)->Ok_0;
            lemma_emit_expr_grows(*r, ins1, table, pat1);
        },
        Expr::Less(l, r) => {
            lemma_emit_expr_grows(*l, instrs, table, patches);
            let (ins1, pat1) = emit_expr_spec(*l, instrs, table, patches)->Ok_0;
            lemma_emit_expr_grows(*r, ins1, table, pat1);
        },
        Expr::Greater(l, r) => {
            lemma_emit_expr_grows(*l, instrs, table, patches);
            let (ins1, pat1) = emit_expr_spec(*l, instrs, table, patches)->Ok_0;
            lemma_emit_expr_grows(*r, ins1, table, pat1);
        },
        Expr::Call(name, args) => {
            lemma_emit_args_grows(args, 0, instrs, table, patches);
        },
        _ => {},
    }
}

/// As `lemma_emit_expr_grows`, for a run of call arguments.
pub proof fn lemma_emit_args_grows(
    args: Vec<Expr>,
    i: nat,
    instrs: Seq<Instruction>,
    table: Seq<(Seq<char>, nat)>,
    patches: Seq<(nat, Seq<char>)>,
)
    requires
        emit_args_spec(args, i, instrs, table, patches) is Ok,
    ensures
        emit_args_spec(args, i, instrs, table, patches)->Ok_0.0.len() >= instrs.len(),
        patches_bounded(patches, instrs.len()) ==> patches_bounded(
            emit_args_spec(args, i, instrs, table, patches)->Ok_0.1,
            emit_args_spec(args, i, instrs, table, patches)->Ok_0.0.len(),
        ),
    decreases args, args@.len() - i,
{
    reveal_with_fuel(emit_expr_spec, 2);
    reveal_with_fuel(emit_args_spec, 2);
    if i < args@.len() {
        lemma_emit_expr_grows(args@[i as int], instrs, table, patches);
        let (ins1, pat1) = emit_expr_spec(args@[i as int], instrs, table, patches)->Ok_0;
        lemma_emit_args_grows(args, i + 1, ins1, table, pat1);
    }
}

/// Emitting a statement never shrinks the program, and keeps every patch
/// within it.
pub proof fn lemma_gen_stmt_grows(node: ASTNode, st: CgState)
    requires
        gen_stmt_spec(node, st) is Ok,
    ensures
        gen_stmt_spec(node, st)->Ok_0.instrs.len() >= st.instrs.len(),
        patches_bounded(st.patches, st.instrs.len()) ==> patches_bounded(
            gen_stmt_spec(node, st)->Ok_0.patches,
            gen_stmt_spec(node, st)->Ok_0.instrs.len(),
        ),
    decreases node, 0int,
{
    reveal_with_fuel(gen_stmt_spec, 2);
    reveal_with_fuel(gen_seq_spec, 2);
    reveal_with_fuel(emit_expr_spec, 2);
    reveal_with_fuel(emit_binop_spec, 2);
    match node {
        ASTNode::Return(expr) => {
            lemma_emit_expr_grows(*expr, st.instrs, st.table, st.patches);
        },
        ASTNode::If { condition, then_branch, else_branch } => {
            lemma_emit_expr_grows(*condition, st.instrs, st.table, st.patches);
            let (ins1, pat1) = emit_expr_spec(*condition, st.instrs, st.table, st.patches)->Ok_0;
            let st1 = CgState { instrs: ins1.push(Instruction::BZ(PLACEHOLDER)), patches: pat1, ..st };
            lemma_gen_stmt_grows(*then_branch, st1);
            let st2 = gen_stmt_spec(*then_branch, st1)->Ok_0;
            match else_branch {
                Some(els) => {
                    let st3 = CgState { instrs: st2.instrs.push(Instruction::JMP(PLACEHOLDER)), ..st2 };
                    lemma_gen_stmt_grows(*els, st3);
                },
                None => {},
            }
        },
        ASTNode::While { condition, body } => {
            lemma_emit_expr_grows(*condition, st.instrs, st.table, st.patches);
            let (ins1, pat1) = emit_expr_spec(*condition, st.instrs, st.table, st.patches)->Ok_0;
            let st1 = CgState { instrs: ins1.push(Instruction::BZ(PLACEHOLDER)), patches: pat1, ..st };
            lemma_gen_stmt_grows(*body, st1);
        },
        ASTNode::Sequence(statements) => {
            lemma_gen_seq_grows(statements, 0, st);
        },
        ASTNode::Declaration(name, expr) => {
            if st.next_offset < usize::MAX {
                let offset = st.next_offset;
                let st1 = CgState {
                    instrs: st.instrs.push(Instruction::LEA(offset as usize)),
                    table: st.table.push((name@, offset)),
                    next_offset: offset + 1,
                    ..st
                };
                lemma_emit_expr_grows(*expr, st1.instrs, st1.table, st1.patches);
            }
        },
        ASTNode::Assignment(name, expr) => {
            match lookup_spec(st.table, name@) {
                Some(offset) => {
                    let st1 = CgState {
                        instrs: st.instrs.push(Instruction::LEA(offset as usize)),
                        ..st
                    };
                    lemma_emit_expr_grows(*expr, st1.instrs, st1.table, st1.patches);
                },
                None => {},
            }
        },
        ASTNode::FunctionDef { name, params, body } => {
            let st1 = CgState {
                table: Seq::new(params@.len(), |i: int| (params@[i]@, i as nat)),
                next_offset: params@.len(),
                funcs: st.funcs.push((name@, st.instrs.len())),
                ..st
            };
            lemma_gen_stmt_grows(*body, st1);
        },
        ASTNode::Print(_) => {},
    }
}

/// As `lemma_gen_stmt_grows`, for a run of sequence members.
pub proof fn lemma_gen_seq_grows(nodes: Vec<ASTNode>, i: nat, st: CgState)
    requires
        gen_seq_spec(nodes, i, st) is Ok,
    ensures
        gen_seq_spec(nodes, i, st)->Ok_0.instrs.len() >= st.instrs.len(),
        patches_bounded(st.patches, st.instrs.len()) ==> patches_bounded(
            gen_seq_spec(nodes, i, st)->Ok_0.patches,
            gen_seq_spec(nodes, i, st)->Ok_0.instrs.len(),
        ),
    decreases nodes, nodes@.len() - i,
{
    reveal_with_fuel(gen_stmt_spec, 2);
    reveal_with_fuel(gen_seq_spec, 2);
    if i < nodes@.len() {
        lemma_gen_stmt_grows(nodes@[i as int], st);
        let st1 = gen_stmt_spec(nodes@[i as int], st)->Ok_0;
        lemma_gen_seq_grows(nodes, i + 1, st1);
    }
}

/// The finalized program for a whole tree: a sequence of nothing but
/// function definitions compiles to the trivial program; otherwise the
/// walk runs with a frame-reservation placeholder at address 0, the
/// placeholder is rewritten to the final local-slot count, and every call
/// patch is resolved.
pub open spec fn generate_spec(ast: ASTNode) -> Result<Seq<Instruction>, CodegenErrorView> {
    if all_function_defs(ast) {
        Ok(seq![Instruction::IMM(0), Instruction::EXIT])
    } else {
        let st0 = CgState {
            instrs: seq![Instruction::ENT(0)],
            table: Seq::empty(),
            next_offset: 0,
            patches: Seq::empty(),
            funcs: Seq::empty(),
        };
        match gen_stmt_spec(ast, st0) {
            Err(err) => Err(err),
            Ok(st1) => resolve_patches_spec(
                st1.patches,
                0,
                st1.instrs.update(0, Instruction::ENT(st1.next_offset as usize)),
                st1.funcs,
            ),
        }
    }
}

/// The mathematical shape of a symbol table or function-entry table: names
/// as character sequences, slots and addresses as naturals.
pub open spec fn table_view(t: Seq<(String, usize)>) -> Seq<(Seq<char>, nat)> {
    Seq::new(t.len(), |i: int| (t[i].0@, t[i].1 as nat))
}

/// The mathematical shape of the patch list.
pub open spec fn patches_view(p: Seq<(usize, String)>) -> Seq<(nat, Seq<char>)> {
    Seq::new(p.len(), |i: int| (p[i].0 as nat, p[i].1@))
}

/// The generator state made of the executable pieces' views.
pub open spec fn st_of(
    ins: Seq<Instruction>,
    tbl: Seq<(String, usize)>,
    no: nat,
    pats: Seq<(usize, String)>,
    fns: Seq<(String, usize)>,
) -> CgState {
    CgState {
        instrs: ins,
        table: table_view(tbl),
        next_offset: no,
        patches: patches_view(pats),
        funcs: table_view(fns),
    }
}

/// Looks a name up in an association list; the most recent binding wins.
fn lookup(table: &Vec<(String, usize)>, name: &String) -> (r: Option<usize>)
    ensures
        lookup_spec(table_view(table@), name@) == (match r {
            Some(o) => Some(o as nat),
            None => None::<nat>,
        }),
{
    let ghost full = table_view(table@);
    let mut i: usize = table.len();
    proof {
        assert(full.subrange(0, i as int) =~= full);
    }
    while i > 0
        invariant
            i <= table@.len(),
            full == table_view(table@),
            lookup_spec(full, name@) == lookup_spec(full.subrange(0, i as int), name@),
        decreases i,
    {
        i = i - 1;
        if table[i].0 == *name {
            proof {
                assert(full.subrange(0, i + 1).last() == full[i as int]);
                assert(full[i as int].0 == name@);
            }
            return Some(table[i].1);
        }
        proof {
            assert(full.subrange(0, i + 1).last() == full[i as int]);
            assert(full.subrange(0, i + 1).drop_last() =~= full.subrange(0, i as int));
        }
    }
    proof {
        assert(full.subrange(0, 0) =~= Seq::<(Seq<char>, nat)>::empty());
    }
    None
}


/// Emits the instructions for one expression at the end of `instructions`,
/// exactly as [`emit_expr_spec`] lays them down, recording a patch for
/// every call.
fn emit_expr(
    expr: &Expr,
    instructions: &mut Vec<Instruction>,
    symbol_table: &Vec<(String, usize)>,
    patches: &mut Vec<(usize, String)>,
) -> (r: Result<(), CodegenError>)
    ensures
        (r matches Ok(()) ==> emit_expr_spec(
            *expr,
            old(instructions)@,
            table_view(symbol_table@),
            patches_view(old(patches)@),
        ) == Ok::<(Seq<Instruction>, Seq<(nat, Seq<char>)>), CodegenErrorView>(
            (final(instructions)@, patches_view(final(patches)@)),
        )),
        (r matches Err(e) ==> emit_expr_spec(
            *expr,
            old(instructions)@,
            table_view(symbol_table@),
            patches_view(old(patches)@),
        ) == Err::<(Seq<Instruction>, Seq<(nat, Seq<char>)>), CodegenErrorView>(e@)),
    decreases *expr,
{
    proof {
        reveal_with_fuel(emit_expr_spec, 2);
        reveal_with_fuel(emit_binop_spec, 2);
        reveal_with_fuel(emit_args_spec, 2);
    }
    match expr {
        Expr::Number(n) => {
            instructions.push(Instruction::IMM(*n));
            Ok(())
        },
        Expr::Variable(name) => {
            match lookup(symbol_table, name) {
                Some(offset) => {
                    instructions.push(Instruction::LEA(offset));
                    instructions.push(Instruction::LI);
                    Ok(())
                },
                None => Err(CodegenError::UndeclaredVariable(name.clone())),
            }
        },
        Expr::Var(name) => {
            match lookup(symbol_table, name) {
                Some(offset) => {
                    instructions.push(Instruction::LEA(offset));
                    instructions.push(Instruction::LI);
                    Ok(())
                },
                None => Err(CodegenError::UndeclaredVariable(name.clone())),
            }
        },
        Expr::Add(l, r) => {
            match emit_expr(&**l, instructions, symbol_table, patches) {
                Err(e) => Err(e),
                Ok(()) => match emit_expr(&**r, instructions, symbol_table, patches) {
                    Err(e) => Err(e),
                    Ok(()) => {
                        instructions.push(Instruction::ADD);
                        Ok(())
                    },
                },
            }
        },
        Expr::Sub(l, r) => {
            match emit_expr(&**l, instructions, symbol_table, patches) {
                Err(e) => Err(e),
                Ok(()) => match emit_expr(&**r, instructions, symbol_table, patches) {
                    Err(e) => Err(e),
                    Ok(()) => {
                        instructions.push(Instruction::SUB);
                        Ok(())
                    },
                },
            }
        },
        Expr::Mul(l, r) => {
            match emit_expr(&**l, instructions, symbol_table, patches) {
                Err(e) => Err(e),
                Ok(()) => match emit_expr(&**r, instructions, symbol_table, patches) {
                    Err(e) => Err(e),
                    Ok(()) => {
                        instructions.push(Instruction::MUL);
                        Ok(())
                    },
                },
            }
        },
        Expr::Div(l, r) => {
            match emit_expr(&**l, instructions, symbol_table, patches) {
                Err(e) => Err(e),
                Ok(()) => match emit_expr(&**r, instructions, symbol_table, patches) {
                    Err(e) => Err(e),
                    Ok(()) => {
                        instructions.push(Instruction::DIV);
                        Ok(())
                    },
                },
            }
        },
        Expr::Mod(l, r) => {
            match emit_expr(&**l, instructions, symbol_table, patches) {
                Err(e) => Err(e),
                Ok(()) => match emit_expr(&**r, instructions, symbol_table, patches) {
                    Err(e) => Err(e),
                    Ok(()) => {
                        instructions.push(Instruction::MOD);
                        Ok(())
                    },
                },
            }
        },
        Expr::Equal(l, r) => {
            match emit_expr(&**l, instructions, symbol_table, patches) {
                Err(e) => Err(e),
                Ok(()) => match emit_expr(&**r, instructions, symbol_table, patches) {
                    Err(e) => Err(e),
                    Ok(()) => {
                        instructions.push(Instruction::EQ);
                        Ok(())
                    },
                },
            }
        },
        Expr::Less(l, r) => {
            match emit_expr(&**l, instructions, symbol_table, patches) {
                Err(e) => Err(e),
                Ok(()) => match emit_expr(&**r, instructions, symbol_table, patches) {
                    Err(e) => Err(e),
                    Ok(()) => {
                        instructions.push(Instruction::LT);
                        Ok(())
                    },
                },
            }
        },
        Expr::Greater(l, r) => {
            match emit_expr(&**l, instructions, symbol_table, patches) {
                Err(e) => Err(e),
                Ok(()) => match emit_expr(&**r, instructions, symbol_table, patches) {
                    Err(e) => Err(e),
                    Ok(()) => {
                        instructions.push(Instruction::GT);
                        Ok(())
                    },
                },
            }
        },
        Expr::Call(func_name, args) => {
            let ghost ins0 = instructions@;
            let ghost pat0 = patches_view(patches@);
            let mut k: usize = 0;
            while k < args.len()
                invariant
                    k <= args@.len(),
                    *expr == Expr::Call(*func_name, *args),
                    ins0 == old(instructions)@,
                    pat0 == patches_view(old(patches)@),
                    emit_args_spec(
                        *args,
                        k as nat,
                        instructions@,
                        table_view(symbol_table@),
                        patches_view(patches@),
                    ) == emit_args_spec(*args, 0, ins0, table_view(symbol_table@), pat0),
                decreases args@.len() - k,
            {
                proof {
                    assert(decreases_to!(*expr => (*expr)->Call_1));
                    assert(decreases_to!(*args => args@[k as int]));
                }
                match emit_expr(&args[k], instructions, symbol_table, patches) {
                    Ok(()) => {
                        proof {
                            reveal_with_fuel(emit_expr_spec, 2);
                            reveal_with_fuel(emit_args_spec, 2);
                        }
                        k = k + 1;
                    },
                    Err(e) => {
                        proof {
                            reveal_with_fuel(emit_expr_spec, 2);
                            reveal_with_fuel(emit_args_spec, 2);
                        }
                        return Err(e);
                    },
                }
            }
            let placeholder_index = instructions.len();
            instructions.push(Instruction::JSR(PLACEHOLDER));
            patches.push((placeholder_index, func_name.clone()));
            proof {
                let tv = table_view(symbol_table@);
                let mid_pat = emit_args_spec(*args, 0, ins0, tv, pat0)->Ok_0.1;
                assert(patches_view(patches@) =~= mid_pat.push(
                    (placeholder_index as nat, func_name@),
                ));
            }
            Ok(())
        },
    }
}


/// Emits the instructions for one statement, exactly as [`gen_stmt_spec`]
/// lays them down: maintaining the symbol table and the running slot
/// count, recording call patches and function entry addresses, and
/// patching the branch targets of `If` and `While` once they are known.
fn generate_instructions_inner(
    ast: &ASTNode,
    instructions: &mut Vec<Instruction>,
    symbol_table: &mut Vec<(String, usize)>,
    next_offset: &mut usize,
    patches: &mut Vec<(usize, String)>,
    funcs: &mut Vec<(String, usize)>,
) -> (r: Result<(), CodegenError>)
    ensures
        (r matches Ok(()) ==> gen_stmt_spec(
            *ast,
            st_of(
                old(instructions)@,
                old(symbol_table)@,
                *old(next_offset) as nat,
                old(patches)@,
                old(funcs)@,
            ),
        ) == Ok::<CgState, CodegenErrorView>(
            st_of(
                final(instructions)@,
                final(symbol_table)@,
                *final(next_offset) as nat,
                final(patches)@,
                final(funcs)@,
            ),
        )),
        (r matches Err(e) ==> gen_stmt_spec(
            *ast,
            st_of(
                old(instructions)@,
                old(symbol_table)@,
                *old(next_offset) as nat,
                old(patches)@,
                old(funcs)@,
            ),
        ) == Err::<CgState, CodegenErrorView>(e@)),
    decreases *ast,
{
    proof {
        reveal_with_fuel(gen_stmt_spec, 2);
        reveal_with_fuel(gen_seq_spec, 2);
    }
    let ghost st0 = st_of(
        instructions@,
        symbol_table@,
        *next_offset as nat,
        patches@,
        funcs@,
    );
    match ast {
        ASTNode::Return(expr) => {
            match emit_expr(&**expr, instructions, symbol_table, patches) {
                Err(e) => Err(e),
                Ok(()) => {
                    instructions.push(Instruction::PSH);
                    instructions.push(Instruction::EXIT);
                    proof {
                        assert(gen_stmt_spec(*ast, st0)->Ok_0 =~= st_of(
                            instructions@,
                            symbol_table@,
                            *next_offset as nat,
                            patches@,
                            funcs@,
                        ));
                    }
                    Ok(())
                },
            }
        },
        ASTNode::Print(text) => {
            instructions.push(Instruction::PrintfStr(text.clone()));
            proof {
                assert(gen_stmt_spec(*ast, st0)->Ok_0 =~= st_of(
                    instructions@,
                    symbol_table@,
                    *next_offset as nat,
                    patches@,
                    funcs@,
                ));
            }
            Ok(())
        },
        ASTNode::If { condition, then_branch, else_branch } => {
            match emit_expr(&**condition, instructions, symbol_table, patches) {
                Err(e) => Err(e),
                Ok(()) => {
                    let jump_false_index = instructions.len();
                    instructions.push(Instruction::BZ(PLACEHOLDER));
                    let ghost pre_then = st_of(
                        instructions@,
                        symbol_table@,
                        *next_offset as nat,
                        patches@,
                        funcs@,
                    );
                    match generate_instructions_inner(
                        &**then_branch,
                        instructions,
                        symbol_table,
                        next_offset,
                        patches,
                        funcs,
                    ) {
                        Err(e) => Err(e),
                        Ok(()) => {
                            proof {
                                lemma_gen_stmt_grows(*(*then_branch), pre_then);
                            }
                            match else_branch {
                                None => {
                                    let after_then = instructions.len();
                                    instructions[jump_false_index] = Instruction::BZ(after_then);
                                    proof {
                                        assert(gen_stmt_spec(*ast, st0)->Ok_0 =~= st_of(
                                            instructions@,
                                            symbol_table@,
                                            *next_offset as nat,
                                            patches@,
                                            funcs@,
                                        ));
                                    }
                                    Ok(())
                                },
                                Some(els) => {
                                    let jump_over_else_index = instructions.len();
                                    instructions.push(Instruction::JMP(PLACEHOLDER));
                                    let else_start = instructions.len();
                                    let ghost pre_else = st_of(
                                        instructions@,
                                        symbol_table@,
                                        *next_offset as nat,
                                        patches@,
                                        funcs@,
                                    );
                                    match generate_instructions_inner(
                                        &**els,
                                        instructions,
                                        symbol_table,
                                        next_offset,
                                        patches,
                                        funcs,
                                    ) {
                                        Err(e) => Err(e),
                                        Ok(()) => {
                                            proof {
                                                lemma_gen_stmt_grows(*(*els), pre_else);
                                            }
                                            let after_else = instructions.len();
                                            instructions[jump_false_index] = Instruction::BZ(
                                                else_start,
                                            );
                                            instructions[jump_over_else_index] = Instruction::JMP(
                                                after_else,
                                            );
                                            proof {
                                                assert(gen_stmt_spec(*ast, st0)->Ok_0 =~= st_of(
                                                    instructions@,
                                                    symbol_table@,
                                                    *next_offset as nat,
                                                    patches@,
                                                    funcs@,
                                                ));
                                            }
                                            Ok(())
                                        },
                                    }
                                },
                            }
                        },
                    }
                },
            }
        },
        ASTNode::While { condition, body } => {
            let loop_start = instructions.len();
            match emit_expr(&**condition, instructions, symbol_table, patches) {
                Err(e) => Err(e),
                Ok(()) => {
                    let jump_if_false_index = instructions.len();
                    instructions.push(Instruction::BZ(PLACEHOLDER));
                    let ghost pre_body = st_of(
                        instructions@,
                        symbol_table@,
                        *next_offset as nat,
                        patches@,
                        funcs@,
                    );
                    match generate_instructions_inner(
                        &**body,
                        instructions,
                        symbol_table,
                        next_offset,
                        patches,
                        funcs,
                    ) {
                        Err(e) => Err(e),
                        Ok(()) => {
                            proof {
                                lemma_gen_stmt_grows(*(*body), pre_body);
                            }
                            instructions.push(Instruction::JMP(loop_start));
                            let loop_end = instructions.len();
                            instructions[jump_if_false_index] = Instruction::BZ(loop_end);
                            proof {
                                assert(gen_stmt_spec(*ast, st0)->Ok_0 =~= st_of(
                                    instructions@,
                                    symbol_table@,
                                    *next_offset as nat,
                                    patches@,
                                    funcs@,
                                ));
                            }
                            Ok(())
                        },
                    }
                },
            }
        },
        ASTNode::Sequence(statements) => {
            let mut k: usize = 0;
            while k < statements.len()
                invariant
                    k <= statements@.len(),
                    *ast == ASTNode::Sequence(*statements),
                    st0 == st_of(
                        old(instructions)@,
                        old(symbol_table)@,
                        *old(next_offset) as nat,
                        old(patches)@,
                        old(funcs)@,
                    ),
                    gen_seq_spec(
                        *statements,
                        k as nat,
                        st_of(
                            instructions@,
                            symbol_table@,
                            *next_offset as nat,
                            patches@,
                            funcs@,
                        ),
                    ) == gen_seq_spec(*statements, 0, st0),
                decreases statements@.len() - k,
            {
                proof {
                    assert(decreases_to!(*ast => (*ast)->Sequence_0));
                    assert(decreases_to!(*statements => statements@[k as int]));
                }
                match generate_instructions_inner(
                    &statements[k],
                    instructions,
                    symbol_table,
                    next_offset,
                    patches,
                    funcs,
                ) {
                    Ok(()) => {
                        proof {
                            reveal_with_fuel(gen_seq_spec, 2);
                            reveal_with_fuel(gen_stmt_spec, 2);
                        }
                        k = k + 1;
                    },
                    Err(e) => {
                        proof {
                            reveal_with_fuel(gen_seq_spec, 2);
                            reveal_with_fuel(gen_stmt_spec, 2);
                        }
                        return Err(e);
                    },
                }
            }
            proof {
                reveal_with_fuel(gen_seq_spec, 2);
                reveal_with_fuel(gen_stmt_spec, 2);
            }
            Ok(())
        },
        ASTNode::Declaration(name, expr) => {
            if *next_offset == usize::MAX {
                return Err(CodegenError::TooManyLocals);
            }
            let offset = *next_offset;
            *next_offset = offset + 1;
            symbol_table.push((name.clone(), offset));
            instructions.push(Instruction::LEA(offset));
            proof {
                assert(table_view(symbol_table@) =~= table_view(old(symbol_table)@).push(
                    (name@, offset as nat),
                ));
            }
            match emit_expr(&**expr, instructions, symbol_table, patches) {
                Err(e) => Err(e),
                Ok(()) => {
                    instructions.push(Instruction::SI);
                    proof {
                        assert(gen_stmt_spec(*ast, st0)->Ok_0 =~= st_of(
                            instructions@,
                            symbol_table@,
                            *next_offset as nat,
                            patches@,
                            funcs@,
                        ));
                    }
                    Ok(())
                },
            }
        },
        ASTNode::Assignment(name, expr) => {
            match lookup(symbol_table, name) {
                None => Err(CodegenError::AssignmentToUndeclared(name.clone())),
                Some(offset) => {
                    instructions.push(Instruction::LEA(offset));
                    match emit_expr(&**expr, instructions, symbol_table, patches) {
                        Err(e) => Err(e),
                        Ok(()) => {
                            instructions.push(Instruction::SI);
                            proof {
                                assert(gen_stmt_spec(*ast, st0)->Ok_0 =~= st_of(
                                    instructions@,
                                    symbol_table@,
                                    *next_offset as nat,
                                    patches@,
                                    funcs@,
                                ));
                            }
                            Ok(())
                        },
                    }
                },
            }
        },
        ASTNode::FunctionDef { name, params, body } => {
            symbol_table.clear();
            *next_offset = params.len();
            funcs.push((name.clone(), instructions.len()));
            proof {
                assert(table_view(funcs@) =~= table_view(old(funcs)@).push(
                    (name@, instructions@.len() as nat),
                ));
                assert(table_view(symbol_table@) =~= Seq::new(
                    0,
                    |j: int| (params@[j]@, j as nat),
                ));
            }
            let mut i: usize = 0;
            while i < params.len()
                invariant
                    i <= params@.len(),
                    table_view(symbol_table@) == Seq::new(
                        i as nat,
                        |j: int| (params@[j]@, j as nat),
                    ),
                decreases params@.len() - i,
            {
                let ghost pre = symbol_table@;
                symbol_table.push((params[i].clone(), i));
                proof {
                    assert(table_view(symbol_table@) =~= table_view(pre).push(
                        (params@[i as int]@, i as nat),
                    ));
                    assert(table_view(symbol_table@) =~= Seq::new(
                        (i + 1) as nat,
                        |j: int| (params@[j]@, j as nat),
                    ));
                }
                i = i + 1;
            }
            generate_instructions_inner(
                &**body,
                instructions,
                symbol_table,
                next_offset,
                patches,
                funcs,
            )
        },
    }
}

/// Generates the finalized instruction program for a whole tree, or the
/// first fatal compile error: exactly [`generate_spec`].  A program is
/// returned if and only if every variable reference and assignment is
/// preceded by a declaration or parameter binding, every called name has a
/// function definition, and the local-slot counter never overflows.
pub fn generate_instructions(ast: &ASTNode) -> (r: Result<Vec<Instruction>, CodegenError>)
    ensures
        (r matches Ok(v) ==> generate_spec(*ast) == Ok::<Seq<Instruction>, CodegenErrorView>(v@)),
        (r matches Err(e) ==> generate_spec(*ast) == Err::<Seq<Instruction>, CodegenErrorView>(
            e@,
        )),
{
    if let ASTNode::Sequence(nodes) = ast {
        let mut all_defs = true;
        let mut i: usize = 0;
        while i < nodes.len()
            invariant
                i <= nodes@.len(),
                all_defs <==> (forall|j: int| 0 <= j < i ==> nodes@[j] is FunctionDef),
            decreases nodes@.len() - i,
        {
            match &nodes[i] {
                ASTNode::FunctionDef { .. } => {},
                _ => {
                    all_defs = false;
                },
            }
            i = i + 1;
        }
        if all_defs {
            let mut trivial: Vec<Instruction> = Vec::new();
            trivial.push(Instruction::IMM(0));
            trivial.push(Instruction::EXIT);
            proof {
                assert(all_function_defs(*ast));
                assert(trivial@ =~= seq![Instruction::IMM(0i64), Instruction::EXIT]);
            }
            return Ok(trivial);
        }
    }
    proof {
        assert(!all_function_defs(*ast));
    }
    let mut instrs: Vec<Instruction> = Vec::new();
    let mut symbol_table: Vec<(String, usize)> = Vec::new();
    let mut next_offset: usize = 0;
    let mut patches: Vec<(usize, String)> = Vec::new();
    let mut funcs: Vec<(String, usize)> = Vec::new();
    instrs.push(Instruction::ENT(0));
    let ghost st0 = st_of(instrs@, symbol_table@, next_offset as nat, patches@, funcs@);
    proof {
        assert(st0.instrs =~= seq![Instruction::ENT(0usize)]);
        assert(st0.table =~= Seq::<(Seq<char>, nat)>::empty());
        assert(st0.patches =~= Seq::<(nat, Seq<char>)>::empty());
        assert(st0.funcs =~= Seq::<(Seq<char>, nat)>::empty());
    }
    match generate_instructions_inner(
        ast,
        &mut instrs,
        &mut symbol_table,
        &mut next_offset,
        &mut patches,
        &mut funcs,
    ) {
        Err(e) => {
            return Err(e);
        },
        Ok(()) => {},
    }
    proof {
        lemma_gen_stmt_grows(*ast, st0);
        assert(patches_bounded(st0.patches, st0.instrs.len()));
    }
    instrs[0] = Instruction::ENT(next_offset);
    let ghost resolved_base = instrs@;
    let ghost pv = patches_view(patches@);
    let ghost fv = table_view(funcs@);
    proof {
        assert(st0 =~= (CgState {
            instrs: seq![Instruction::ENT(0usize)],
            table: Seq::empty(),
            next_offset: 0,
            patches: Seq::empty(),
            funcs: Seq::empty(),
        }));
        assert(generate_spec(*ast) == resolve_patches_spec(pv, 0, resolved_base, fv));
    }
    let mut k: usize = 0;
    while k < patches.len()
        invariant
            k <= patches@.len(),
            pv == patches_view(patches@),
            fv == table_view(funcs@),
            instrs@.len() == resolved_base.len(),
            patches_bounded(pv, instrs@.len()),
            generate_spec(*ast) == resolve_patches_spec(pv, 0, resolved_base, fv),
            resolve_patches_spec(pv, k as nat, instrs@, fv) == resolve_patches_spec(
                pv,
                0,
                resolved_base,
                fv,
            ),
        decreases patches@.len() - k,
    {
        let idx = patches[k].0;
        let target = lookup(&funcs, &patches[k].1);
        match target {
            None => {
                let nm = patches[k].1.clone();
                proof {
                    reveal_with_fuel(resolve_patches_spec, 2);
                }
                return Err(CodegenError::UnresolvedCall(nm));
            },
            Some(addr) => {
                proof {
                    assert(pv[k as int].0 < instrs@.len());
                }
                instrs[idx] = Instruction::JSR(addr);
                k = k + 1;
                proof {
                    reveal_with_fuel(resolve_patches_spec, 2);
                }
            },
        }
    }
    proof {
        reveal_with_fuel(resolve_patches_spec, 2);
        assert(resolve_patches_spec(pv, k as nat, instrs@, fv) == Ok::<
            Seq<Instruction>,
            CodegenErrorView,
        >(instrs@));
    }
    Ok(instrs)
}

} // verus!
