//! Correctness theorems tying the code generator to the virtual machine.
//!
//! The bridge is the standard signed-integer evaluation of expressions
//! ([`eval`] for constant ones, [`eval_var`] for ones that read declared
//! variables from the active frame; truncating division and remainder)
//! and the instruction block an expression compiles to ([`code_of`],
//! [`code_of_var`]).  The main results: running a compiled block pushes
//! exactly the expression's value; a generated `return e;` program halts
//! with that value on top of the stack; a false condition steps straight
//! past a `then` branch or a `While` body without ever executing an
//! instruction of it, and a true one enters the body; the program for
//! `int x = e1; x = e2; return x;` returns the most recent assignment's
//! value; and a balanced call returns to the instruction after the call
//! with the operand stack height and contents restored.

use vstd::prelude::*;

use crate::codegen::ASTNode;
use crate::codegen::CgState;
use crate::codegen::CodegenErrorView;
use crate::codegen::Expr;
use crate::codegen::emit_expr_spec;
use crate::codegen::gen_seq_spec;
use crate::codegen::gen_stmt_spec;
use crate::codegen::generate_spec;
use crate::codegen::resolve_patches_spec;
use crate::vm::Instruction;
use crate::vm::VmState;
use crate::vm::binop_result;
use crate::vm::init_state;
use crate::vm::drop_top;
use crate::vm::lemma_run_n_add;
use crate::vm::lemma_run_n_program;
use crate::vm::lemma_run_n_snoc;
use crate::vm::run_n;
use crate::vm::step_spec;
use crate::vm::tdiv;
use crate::vm::tmod;

verus! {

/// An expression built from number literals and the arithmetic and
/// comparison operators alone, whose divisions have non-zero divisors and
/// whose intermediate results all stay in the `i64` range: on these the
/// machine can neither fault nor overflow.
pub open spec fn eval_ok(e: Expr) -> bool
    decreases e,
{
    match e {
        Expr::Number(_) => true,
        Expr::Add(l, r) => eval_ok(*l) && eval_ok(*r) && i64::MIN <= eval(*l) + eval(*r)
            <= i64::MAX,
        Expr::Sub(l, r) => eval_ok(*l) && eval_ok(*r) && i64::MIN <= eval(*l) - eval(*r)
            <= i64::MAX,
        Expr::Mul(l, r) => eval_ok(*l) && eval_ok(*r) && i64::MIN <= eval(*l) * eval(*r)
            <= i64::MAX,
        Expr::Div(l, r) => eval_ok(*l) && eval_ok(*r) && eval(*r) != 0 && i64::MIN <= tdiv(
            eval(*l),
            eval(*r),
        ) <= i64::MAX,
        Expr::Mod(l, r) => eval_ok(*l) && eval_ok(*r) && eval(*r) != 0 && !(eval(*l) == i64::MIN
            && eval(*r) == -1),
        Expr::Equal(l, r) => eval_ok(*l) && eval_ok(*r),
        Expr::Less(l, r) => eval_ok(*l) && eval_ok(*r),
        Expr::Greater(l, r) => eval_ok(*l) && eval_ok(*r),
        _ => false,
    }
}

/// Standard signed-integer evaluation: truncating division, the matching
/// remainder, and comparisons yielding 1 or 0.
pub open spec fn eval(e: Expr) -> int
    decreases e,
{
    match e {
        Expr::Number(n) => n as int,
        Expr::Add(l, r) => eval(*l) + eval(*r),
        Expr::Sub(l, r) => eval(*l) - eval(*r),
        Expr::Mul(l, r) => eval(*l) * eval(*r),
        Expr::Div(l, r) => tdiv(eval(*l), eval(*r)),
        Expr::Mod(l, r) => tmod(eval(*l), eval(*r)),
        Expr::Equal(l, r) => if eval(*l) == eval(*r) {
            1
        } else {
            0
        },
        Expr::Less(l, r) => if eval(*l) < eval(*r) {
            1
        } else {
            0
        },
        Expr::Greater(l, r) => if eval(*l) > eval(*r) {
            1
        } else {
            0
        },
        _ => 0,
    }
}

/// The value as the machine pushes it.
pub open spec fn eval_i64(e: Expr) -> i64 {
    eval(e) as i64
}

/// The value of a well-formed constant expression stays representable.
pub proof fn lemma_eval_in_range(e: Expr)
    requires
        eval_ok(e),
    ensures
        i64::MIN <= eval(e) <= i64::MAX,
    decreases e,
{
    match e {
        Expr::Mod(l, r) => {
            lemma_eval_in_range(*r);
            crate::vm::lemma_tmod_range(eval(*l), eval(*r));
        },
        _ => {},
    }
}

/// The instruction block a constant expression compiles to: post-order,
/// operands first, the operator last.
pub open spec fn code_of(e: Expr) -> Seq<Instruction>
    decreases e,
{
    match e {
        Expr::Number(n) => seq![Instruction::IMM(n)],
        Expr::Add(l, r) => code_of(*l) + code_of(*r) + seq![Instruction::ADD],
        Expr::Sub(l, r) => code_of(*l) + code_of(*r) + seq![Instruction::SUB],
        Expr::Mul(l, r) => code_of(*l) + code_of(*r) + seq![Instruction::MUL],
        Expr::Div(l, r) => code_of(*l) + code_of(*r) + seq![Instruction::DIV],
        Expr::Mod(l, r) => code_of(*l) + code_of(*r) + seq![Instruction::MOD],
        Expr::Equal(l, r) => code_of(*l) + code_of(*r) + seq![Instruction::EQ],
        Expr::Less(l, r) => code_of(*l) + code_of(*r) + seq![Instruction::LT],
        Expr::Greater(l, r) => code_of(*l) + code_of(*r) + seq![Instruction::GT],
        _ => Seq::empty(),
    }
}

/// The generator emits exactly `code_of(e)` for a constant expression,
/// whatever the symbol table, and records no patch.
pub proof fn lemma_emit_const(
    e: Expr,
    instrs: Seq<Instruction>,
    table: Seq<(Seq<char>, nat)>,
    patches: Seq<(nat, Seq<char>)>,
)
    requires
        eval_ok(e),
    ensures
        emit_expr_spec(e, instrs, table, patches) == Ok::<
            (Seq<Instruction>, Seq<(nat, Seq<char>)>),
            CodegenErrorView,
        >((instrs + code_of(e), patches)),
    decreases e,
{
    reveal_with_fuel(emit_expr_spec, 2);
    reveal_with_fuel(crate::codegen::emit_binop_spec, 2);
    match e {
        Expr::Number(n) => {
            assert(instrs.push(Instruction::IMM(n)) =~= instrs + code_of(e));
        },
        Expr::Add(l, r) => {
            lemma_emit_const(*l, instrs, table, patches);
            lemma_emit_const(*r, instrs + code_of(*l), table, patches);
            assert((instrs + code_of(*l) + code_of(*r)).push(Instruction::ADD) =~= instrs
                + code_of(e));
        },
        Expr::Sub(l, r) => {
            lemma_emit_const(*l, instrs, table, patches);
            lemma_emit_const(*r, instrs + code_of(*l), table, patches);
            assert((instrs + code_of(*l) + code_of(*r)).push(Instruction::SUB) =~= instrs
                + code_of(e));
        },
        Expr::Mul(l, r) => {
            lemma_emit_const(*l, instrs, table, patches);
            lemma_emit_const(*r, instrs + code_of(*l), table, patches);
            assert((instrs + code_of(*l) + code_of(*r)).push(Instruction::MUL) =~= instrs
                + code_of(e));
        },
        Expr::Div(l, r) => {
            lemma_emit_const(*l, instrs, table, patches);
            lemma_emit_const(*r, instrs + code_of(*l), table, patches);
            assert((instrs + code_of(*l) + code_of(*r)).push(Instruction::DIV) =~= instrs
                + code_of(e));
        },
        Expr::Mod(l, r) => {
            lemma_emit_const(*l, instrs, table, patches);
            lemma_emit_const(*r, instrs + code_of(*l), table, patches);
            assert((instrs + code_of(*l) + code_of(*r)).push(Instruction::MOD) =~= instrs
                + code_of(e));
        },
        Expr::Equal(l, r) => {
            lemma_emit_const(*l, instrs, table, patches);
            lemma_emit_const(*r, instrs + code_of(*l), table, patches);
            assert((instrs + code_of(*l) + code_of(*r)).push(Instruction::EQ) =~= instrs
                + code_of(e));
        },
        Expr::Less(l, r) => {
            lemma_emit_const(*l, instrs, table, patches);
            lemma_emit_const(*r, instrs + code_of(*l), table, patches);
            assert((instrs + code_of(*l) + code_of(*r)).push(Instruction::LT) =~= instrs
                + code_of(e));
        },
        Expr::Greater(l, r) => {
            lemma_emit_const(*l, instrs, table, patches);
            lemma_emit_const(*r, instrs + code_of(*l), table, patches);
            assert((instrs + code_of(*l) + code_of(*r)).push(Instruction::GT) =~= instrs
                + code_of(e));
        },
        _ => {},
    }
}

/// The block `code` sits in program `p` starting at index `i`.
pub open spec fn code_at(p: Seq<Instruction>, i: nat, code: Seq<Instruction>) -> bool {
    &&& i + code.len() <= p.len()
    &&& forall|j: int| 0 <= j < code.len() ==> p[i + j] == code[j]
}

/// A block placed at `i` contains its two halves, one after the other.
pub proof fn lemma_code_at_split(p: Seq<Instruction>, i: nat, a: Seq<Instruction>, b: Seq<
    Instruction,
>)
    requires
        code_at(p, i, a + b),
    ensures
        code_at(p, i, a),
        code_at(p, i + a.len(), b),
{
    assert forall|j: int| 0 <= j < a.len() implies p[i + j] == a[j] by {
        assert((a + b)[j] == a[j]);
    }
    assert forall|j: int| 0 <= j < b.len() implies p[i + a.len() + j] == b[j] by {
        assert((a + b)[a.len() + j] == b[j]);
    }
}

/// The state after a constant expression's block has run: one more value
/// on the stack, the program counter just past the block.
pub open spec fn after_expr(s: VmState, e: Expr) -> VmState {
    VmState { stack: s.stack.push(eval_i64(e)), pc: (s.pc + code_of(e).len()) as nat, ..s }
}

/// Running the compiled block of a constant expression from any running
/// state pushes exactly its value, leaves everything else alone, and
/// never takes the program counter outside the block.
pub proof fn lemma_code_of_executes(e: Expr, s: VmState)
    requires
        eval_ok(e),
        s.running,
        code_at(s.program, s.pc, code_of(e)),
    ensures
        run_n(s, code_of(e).len()) == Some(after_expr(s, e)),
        forall|k: nat|
            k < code_of(e).len() ==> ((#[trigger] run_n(s, k)) matches Some(m) && s.pc <= m.pc
                < s.pc + code_of(e).len()),
    decreases e, 1int,
{
    reveal_with_fuel(run_n, 3);
    match e {
        Expr::Number(n) => {
            assert(s.program[s.pc + 0int] == (code_of(e))[0]);
            assert(s.program[s.pc as int] == Instruction::IMM(n));
            assert(step_spec(s) == Ok::<VmState, crate::vm::VmFault>(after_expr(s, e)));
        },
        Expr::Add(l, r) => {
            lemma_eval_in_range(*l);
            lemma_eval_in_range(*r);
            lemma_binop_case(e, *l, *r, Instruction::ADD, s);
        },
        Expr::Sub(l, r) => {
            lemma_eval_in_range(*l);
            lemma_eval_in_range(*r);
            lemma_binop_case(e, *l, *r, Instruction::SUB, s);
        },
        Expr::Mul(l, r) => {
            lemma_eval_in_range(*l);
            lemma_eval_in_range(*r);
            lemma_binop_case(e, *l, *r, Instruction::MUL, s);
        },
        Expr::Div(l, r) => {
            lemma_eval_in_range(*l);
            lemma_eval_in_range(*r);
            lemma_binop_case(e, *l, *r, Instruction::DIV, s);
        },
        Expr::Mod(l, r) => {
            lemma_eval_in_range(*l);
            lemma_eval_in_range(*r);
            crate::vm::lemma_tmod_range(eval(*l), eval(*r));
            lemma_binop_case(e, *l, *r, Instruction::MOD, s);
        },
        Expr::Equal(l, r) => {
            lemma_eval_in_range(*l);
            lemma_eval_in_range(*r);
            lemma_binop_case(e, *l, *r, Instruction::EQ, s);
        },
        Expr::Less(l, r) => {
            lemma_eval_in_range(*l);
            lemma_eval_in_range(*r);
            lemma_binop_case(e, *l, *r, Instruction::LT, s);
        },
        Expr::Greater(l, r) => {
            lemma_eval_in_range(*l);
            lemma_eval_in_range(*r);
            lemma_binop_case(e, *l, *r, Instruction::GT, s);
        },
        _ => {},
    }
}

/// One binary-operator case of `lemma_code_of_executes`: run the left
/// block, the right block, then the single operator instruction.
#[verifier::rlimit(100)]
proof fn lemma_binop_case(e: Expr, l: Expr, r: Expr, op: Instruction, s: VmState)
    requires
        eval_ok(e),
        eval_ok(l),
        eval_ok(r),
        decreases_to!(e => l),
        decreases_to!(e => r),
        s.running,
        code_of(e) == code_of(l) + code_of(r) + seq![op],
        binop_result(op, eval_i64(l), eval_i64(r)) == Ok::<i64, crate::vm::VmFault>(eval_i64(e)),
        code_at(s.program, s.pc, code_of(e)),
    ensures
        run_n(s, code_of(e).len()) == Some(after_expr(s, e)),
        forall|k: nat|
            k < code_of(e).len() ==> ((#[trigger] run_n(s, k)) matches Some(m) && s.pc <= m.pc
                < s.pc + code_of(e).len()),
    decreases e, 0int,
{
    reveal_with_fuel(run_n, 3);
    let lc = code_of(l);
    let rc = code_of(r);
    let llen = lc.len();
    let rlen = rc.len();
    let total = code_of(e).len();
    lemma_code_at_split(s.program, s.pc, lc + rc, seq![op]);
    lemma_code_at_split(s.program, s.pc, lc, rc);
    lemma_code_of_executes(l, s);
    let s1 = after_expr(s, l);
    lemma_code_of_executes(r, s1);
    let s2 = after_expr(s1, r);
    lemma_run_n_add(s, llen, rlen);
    assert(run_n(s, (llen + rlen) as nat) == Some(s2));

    // the operator step
    assert(s2.pc == s.pc + llen + rlen);
    assert(s.program[s2.pc as int] == (code_of(e))[llen + rlen as int]);
    assert((code_of(e))[llen + rlen as int] == op);
    lemma_eval_in_range(l);
    lemma_eval_in_range(r);
    assert(s2.stack.len() >= 2);
    assert(s2.stack[s2.stack.len() - 2] == eval_i64(l));
    assert(s2.stack[s2.stack.len() - 1] == eval_i64(r));
    assert(drop_top(s2.stack, 2) =~= s.stack);
    let s3 = step_spec(s2)->Ok_0;
    assert(step_spec(s2) is Ok);
    assert(s3 =~= after_expr(s, e));
    lemma_run_n_snoc(s, s2, (llen + rlen) as nat);
    assert(run_n(s, total) == Some(after_expr(s, e)));

    // the program counter stays within the block
    assert forall|k: nat| k < total implies ((#[trigger] run_n(s, k)) matches Some(m) && s.pc
        <= m.pc < s.pc + total) by {
        if k < llen {
            assert((run_n(s, k) matches Some(m) && s.pc <= m.pc < s.pc + llen));
        } else if k < llen + rlen {
            lemma_run_n_add(s, llen, (k - llen) as nat);
            assert(run_n(s, k) == run_n(s1, (k - llen) as nat));
            if k == llen {
                assert(run_n(s1, 0) == Some(s1));
            } else {
                assert((run_n(s1, (k - llen) as nat) matches Some(m) && s1.pc <= m.pc < s1.pc
                    + rlen));
            }
        } else {
            assert(k == llen + rlen);
            assert(run_n(s, k) == Some(s2));
        }
    }
}


/// For every expression built from literals and the arithmetic and
/// comparison operators — truncating division and remainder, divisors
/// non-zero, every intermediate result representable — the program
/// generated for the lone statement `return e;` halts normally with the
/// expression's standard signed-integer value as the final stack top.
pub proof fn theorem_expression_programs(ast: ASTNode, e: Expr, prog: Seq<Instruction>)
    requires
        eval_ok(e),
        ast matches ASTNode::Sequence(stmts) && stmts@.len() == 1 && (stmts@[0] matches
            ASTNode::Return(b) && *b == e),
        generate_spec(ast) == Ok::<Seq<Instruction>, CodegenErrorView>(prog),
    ensures
        exists|n: nat|
            ((#[trigger] run_n(init_state(prog), n)) matches Some(t) && !t.running
                && t.stack.len() > 0 && t.stack.last() == eval_i64(e)),
{
    reveal_with_fuel(gen_seq_spec, 3);
    reveal_with_fuel(gen_stmt_spec, 2);
    reveal_with_fuel(resolve_patches_spec, 2);
    reveal_with_fuel(run_n, 3);
    let stmts = ast->Sequence_0;
    let clen = code_of(e).len();
    assert(!crate::codegen::all_function_defs(ast)) by {
        assert(!(stmts@[0] is FunctionDef));
    }
    let st0 = CgState {
        instrs: seq![Instruction::ENT(0)],
        table: Seq::empty(),
        next_offset: 0,
        patches: Seq::empty(),
        funcs: Seq::empty(),
    };
    lemma_emit_const(e, st0.instrs, st0.table, st0.patches);
    let st1 = gen_stmt_spec(stmts@[0], st0)->Ok_0;
    assert(gen_seq_spec(stmts, 0, st0) == Ok::<CgState, CodegenErrorView>(st1));
    assert(st1.instrs == (st0.instrs + code_of(e)).push(Instruction::PSH).push(Instruction::EXIT));
    assert(st1.next_offset == 0);
    assert(st1.instrs.update(0, Instruction::ENT(0)) =~= st1.instrs);
    assert(prog == st1.instrs);
    assert(prog =~= seq![Instruction::ENT(0)] + code_of(e) + seq![
        Instruction::PSH,
        Instruction::EXIT,
    ]);
    assert(prog.len() == clen + 3);
    assert(prog[0] == Instruction::ENT(0));
    assert(prog[1 + clen as int] == Instruction::PSH);
    assert(prog[2 + clen as int] == Instruction::EXIT);

    // step one: reserve the (empty) outer frame
    let s0 = init_state(prog);
    let s1 = VmState { stack: seq![0i64], pc: 1, bp: 1, ..s0 };
    assert(step_spec(s0) == Ok::<VmState, crate::vm::VmFault>(s1)) by {
        assert(s0.stack.push(0i64) + Seq::new(0, |i: int| 0i64) =~= seq![0i64]);
        assert(step_spec(s0)->Ok_0 =~= s1);
    }
    assert(run_n(s0, 1) == Some(s1));

    // the expression block
    assert(code_at(prog, 1, code_of(e))) by {
        assert forall|j: int| 0 <= j < clen implies prog[1 + j] == (code_of(e))[j] by {
            assert((seq![Instruction::ENT(0)] + code_of(e) + seq![
                Instruction::PSH,
                Instruction::EXIT,
            ])[1 + j] == (code_of(e))[j]);
        }
    }
    lemma_code_of_executes(e, s1);
    let s2 = after_expr(s1, e);
    lemma_run_n_add(s0, 1, clen);
    assert(run_n(s0, (1 + clen) as nat) == Some(s2));

    // duplicate the value for the terminator
    lemma_eval_in_range(e);
    let v = eval_i64(e);
    assert(s2.stack == seq![0i64, v]);
    let s3 = step_spec(s2)->Ok_0;
    assert(step_spec(s2) is Ok && s3 =~= VmState {
        stack: seq![0i64, v, v],
        pc: (2 + clen) as nat,
        ..s1
    }) by {
        assert(s2.stack.last() == v);
        assert(s2.stack.push(v) =~= seq![0i64, v, v]);
    }
    lemma_run_n_snoc(s0, s2, (1 + clen) as nat);
    assert(run_n(s0, (2 + clen) as nat) == Some(s3));

    // terminate: the outer frame's single bookkeeping entry is dropped
    let s4 = step_spec(s3)->Ok_0;
    assert(step_spec(s3) is Ok && s4.stack =~= seq![v, v] && !s4.running) by {
        assert(s3.stack.len() >= 1);
        assert(s3.stack.subrange(1, 3) =~= seq![v, v]);
    }
    lemma_run_n_snoc(s0, s3, (2 + clen) as nat);
    assert(run_n(s0, (3 + clen) as nat) == Some(s4));
    assert(s4.stack.last() == v);
}

/// An expression over literals, the operators, and declared variables,
/// evaluated against the active frame: a variable's value is the frame
/// slot its symbol-table binding points at, read from the stack prefix
/// `frame` at offset `bp + slot`.
pub open spec fn eval_var(e: Expr, table: Seq<(Seq<char>, nat)>, frame: Seq<i64>, bp: nat) -> int
    decreases e,
{
    match e {
        Expr::Number(n) => n as int,
        Expr::Variable(name) => frame[bp + crate::codegen::lookup_spec(table, name@)->Some_0 as int] as int,
        Expr::Var(name) => frame[bp + crate::codegen::lookup_spec(table, name@)->Some_0 as int] as int,
        Expr::Add(l, r) => eval_var(*l, table, frame, bp) + eval_var(*r, table, frame, bp),
        Expr::Sub(l, r) => eval_var(*l, table, frame, bp) - eval_var(*r, table, frame, bp),
        Expr::Mul(l, r) => eval_var(*l, table, frame, bp) * eval_var(*r, table, frame, bp),
        Expr::Div(l, r) => tdiv(eval_var(*l, table, frame, bp), eval_var(*r, table, frame, bp)),
        Expr::Mod(l, r) => tmod(eval_var(*l, table, frame, bp), eval_var(*r, table, frame, bp)),
        Expr::Equal(l, r) => if eval_var(*l, table, frame, bp) == eval_var(*r, table, frame, bp) {
            1
        } else {
            0
        },
        Expr::Less(l, r) => if eval_var(*l, table, frame, bp) < eval_var(*r, table, frame, bp) {
            1
        } else {
            0
        },
        Expr::Greater(l, r) => if eval_var(*l, table, frame, bp) > eval_var(*r, table, frame, bp) {
            1
        } else {
            0
        },
        _ => 0,
    }
}

/// As `eval_ok`, but admitting variables: every variable must be bound in
/// the symbol table to a slot that lies within the frame and whose
/// address is representable, every division must have a non-zero divisor,
/// and every intermediate result must stay in the `i64` range.
pub open spec fn eval_var_ok(
    e: Expr,
    table: Seq<(Seq<char>, nat)>,
    frame: Seq<i64>,
    bp: nat,
) -> bool
    decreases e,
{
    match e {
        Expr::Number(_) => true,
        Expr::Variable(name) => crate::codegen::lookup_spec(table, name@) matches Some(off) && bp
            + off < frame.len() && bp + off <= i64::MAX && bp + off <= usize::MAX,
        Expr::Var(name) => crate::codegen::lookup_spec(table, name@) matches Some(off) && bp + off
            < frame.len() && bp + off <= i64::MAX && bp + off <= usize::MAX,
        Expr::Add(l, r) => eval_var_ok(*l, table, frame, bp) && eval_var_ok(*r, table, frame, bp)
            && i64::MIN <= eval_var(*l, table, frame, bp) + eval_var(*r, table, frame, bp)
            <= i64::MAX,
        Expr::Sub(l, r) => eval_var_ok(*l, table, frame, bp) && eval_var_ok(*r, table, frame, bp)
            && i64::MIN <= eval_var(*l, table, frame, bp) - eval_var(*r, table, frame, bp)
            <= i64::MAX,
        Expr::Mul(l, r) => eval_var_ok(*l, table, frame, bp) && eval_var_ok(*r, table, frame, bp)
            && i64::MIN <= eval_var(*l, table, frame, bp) * eval_var(*r, table, frame, bp)
            <= i64::MAX,
        Expr::Div(l, r) => eval_var_ok(*l, table, frame, bp) && eval_var_ok(*r, table, frame, bp)
            && eval_var(*r, table, frame, bp) != 0 && i64::MIN <= tdiv(
            eval_var(*l, table, frame, bp),
            eval_var(*r, table, frame, bp),
        ) <= i64::MAX,
        Expr::Mod(l, r) => eval_var_ok(*l, table, frame, bp) && eval_var_ok(*r, table, frame, bp)
            && eval_var(*r, table, frame, bp) != 0 && !(eval_var(*l, table, frame, bp)
            == i64::MIN && eval_var(*r, table, frame, bp) == -1),
        Expr::Equal(l, r) => eval_var_ok(*l, table, frame, bp) && eval_var_ok(
            *r,
            table,
            frame,
            bp,
        ),
        Expr::Less(l, r) => eval_var_ok(*l, table, frame, bp) && eval_var_ok(*r, table, frame, bp),
        Expr::Greater(l, r) => eval_var_ok(*l, table, frame, bp) && eval_var_ok(
            *r,
            table,
            frame,
            bp,
        ),
        _ => false,
    }
}

/// The value as the machine pushes it.
pub open spec fn eval_var_i64(e: Expr, table: Seq<(Seq<char>, nat)>, frame: Seq<i64>, bp: nat) -> i64 {
    eval_var(e, table, frame, bp) as i64
}

/// The value of a well-formed variable-reading expression stays
/// representable.
pub proof fn lemma_eval_var_in_range(e: Expr, table: Seq<(Seq<char>, nat)>, frame: Seq<i64>, bp: nat)
    requires
        eval_var_ok(e, table, frame, bp),
    ensures
        i64::MIN <= eval_var(e, table, frame, bp) <= i64::MAX,
    decreases e,
{
    match e {
        Expr::Mod(l, r) => {
            lemma_eval_var_in_range(*r, table, frame, bp);
            crate::vm::lemma_tmod_range(
                eval_var(*l, table, frame, bp),
                eval_var(*r, table, frame, bp),
            );
        },
        _ => {},
    }
}

/// The instruction block a variable-reading expression compiles to under
/// the given symbol table: a variable becomes an address push and an
/// indirect load.
pub open spec fn code_of_var(e: Expr, table: Seq<(Seq<char>, nat)>) -> Seq<Instruction>
    decreases e,
{
    match e {
        Expr::Number(n) => seq![Instruction::IMM(n)],
        Expr::Variable(name) => seq![
            Instruction::LEA(crate::codegen::lookup_spec(table, name@)->Some_0 as usize),
            Instruction::LI,
        ],
        Expr::Var(name) => seq![
            Instruction::LEA(crate::codegen::lookup_spec(table, name@)->Some_0 as usize),
            Instruction::LI,
        ],
        Expr::Add(l, r) => code_of_var(*l, table) + code_of_var(*r, table) + seq![Instruction::ADD],
        Expr::Sub(l, r) => code_of_var(*l, table) + code_of_var(*r, table) + seq![Instruction::SUB],
        Expr::Mul(l, r) => code_of_var(*l, table) + code_of_var(*r, table) + seq![Instruction::MUL],
        Expr::Div(l, r) => code_of_var(*l, table) + code_of_var(*r, table) + seq![Instruction::DIV],
        Expr::Mod(l, r) => code_of_var(*l, table) + code_of_var(*r, table) + seq![Instruction::MOD],
        Expr::Equal(l, r) => code_of_var(*l, table) + code_of_var(*r, table) + seq![Instruction::EQ],
        Expr::Less(l, r) => code_of_var(*l, table) + code_of_var(*r, table) + seq![Instruction::LT],
        Expr::Greater(l, r) => code_of_var(*l, table) + code_of_var(*r, table) + seq![
            Instruction::GT,
        ],
        _ => Seq::empty(),
    }
}

/// The generator emits exactly `code_of_var(e, table)` for a call-free
/// expression whose variables the symbol table binds, and records no
/// patch.  The frame and base are only needed to state well-formedness;
/// the emitted code does not depend on them.
pub proof fn lemma_emit_var(
    e: Expr,
    instrs: Seq<Instruction>,
    table: Seq<(Seq<char>, nat)>,
    patches: Seq<(nat, Seq<char>)>,
    frame: Seq<i64>,
    bp: nat,
)
    requires
        eval_var_ok(e, table, frame, bp),
    ensures
        emit_expr_spec(e, instrs, table, patches) == Ok::<
            (Seq<Instruction>, Seq<(nat, Seq<char>)>),
            CodegenErrorView,
        >((instrs + code_of_var(e, table), patches)),
    decreases e,
{
    reveal_with_fuel(emit_expr_spec, 2);
    reveal_with_fuel(crate::codegen::emit_binop_spec, 2);
    match e {
        Expr::Number(n) => {
            assert(instrs.push(Instruction::IMM(n)) =~= instrs + code_of_var(e, table));
        },
        Expr::Variable(name) => {
            let off = crate::codegen::lookup_spec(table, name@)->Some_0;
            assert(instrs.push(Instruction::LEA(off as usize)).push(Instruction::LI) =~= instrs
                + code_of_var(e, table));
        },
        Expr::Var(name) => {
            let off = crate::codegen::lookup_spec(table, name@)->Some_0;
            assert(instrs.push(Instruction::LEA(off as usize)).push(Instruction::LI) =~= instrs
                + code_of_var(e, table));
        },
        Expr::Add(l, r) => {
            lemma_emit_var(*l, instrs, table, patches, frame, bp);
            lemma_emit_var(*r, instrs + code_of_var(*l, table), table, patches, frame, bp);
            assert((instrs + code_of_var(*l, table) + code_of_var(*r, table)).push(
                Instruction::ADD,
            ) =~= instrs + code_of_var(e, table));
        },
        Expr::Sub(l, r) => {
            lemma_emit_var(*l, instrs, table, patches, frame, bp);
            lemma_emit_var(*r, instrs + code_of_var(*l, table), table, patches, frame, bp);
            assert((instrs + code_of_var(*l, table) + code_of_var(*r, table)).push(
                Instruction::SUB,
            ) =~= instrs + code_of_var(e, table));
        },
        Expr::Mul(l, r) => {
            lemma_emit_var(*l, instrs, table, patches, frame, bp);
            lemma_emit_var(*r, instrs + code_of_var(*l, table), table, patches, frame, bp);
            assert((instrs + code_of_var(*l, table) + code_of_var(*r, table)).push(
                Instruction::MUL,
            ) =~= instrs + code_of_var(e, table));
        },
        Expr::Div(l, r) => {
            lemma_emit_var(*l, instrs, table, patches, frame, bp);
            lemma_emit_var(*r, instrs + code_of_var(*l, table), table, patches, frame, bp);
            assert((instrs + code_of_var(*l, table) + code_of_var(*r, table)).push(
                Instruction::DIV,
            ) =~= instrs + code_of_var(e, table));
        },
        Expr::Mod(l, r) => {
            lemma_emit_var(*l, instrs, table, patches, frame, bp);
            lemma_emit_var(*r, instrs + code_of_var(*l, table), table, patches, frame, bp);
            assert((instrs + code_of_var(*l, table) + code_of_var(*r, table)).push(
                Instruction::MOD,
            ) =~= instrs + code_of_var(e, table));
        },
        Expr::Equal(l, r) => {
            lemma_emit_var(*l, instrs, table, patches, frame, bp);
            lemma_emit_var(*r, instrs + code_of_var(*l, table), table, patches, frame, bp);
            assert((instrs + code_of_var(*l, table) + code_of_var(*r, table)).push(
                Instruction::EQ,
            ) =~= instrs + code_of_var(e, table));
        },
        Expr::Less(l, r) => {
            lemma_emit_var(*l, instrs, table, patches, frame, bp);
            lemma_emit_var(*r, instrs + code_of_var(*l, table), table, patches, frame, bp);
            assert((instrs + code_of_var(*l, table) + code_of_var(*r, table)).push(
                Instruction::LT,
            ) =~= instrs + code_of_var(e, table));
        },
        Expr::Greater(l, r) => {
            lemma_emit_var(*l, instrs, table, patches, frame, bp);
            lemma_emit_var(*r, instrs + code_of_var(*l, table), table, patches, frame, bp);
            assert((instrs + code_of_var(*l, table) + code_of_var(*r, table)).push(
                Instruction::GT,
            ) =~= instrs + code_of_var(e, table));
        },
        _ => {},
    }
}

/// The state after a variable-reading expression's block has run.
pub open spec fn after_expr_var(
    s: VmState,
    e: Expr,
    table: Seq<(Seq<char>, nat)>,
    frame: Seq<i64>,
) -> VmState {
    VmState {
        stack: s.stack.push(eval_var_i64(e, table, frame, s.bp)),
        pc: (s.pc + code_of_var(e, table).len()) as nat,
        ..s
    }
}

/// Running the compiled block of a variable-reading expression: the frame
/// prefix of the stack supplies the variables' values, exactly one value
/// — the expression's — is pushed, everything else is left alone, and
/// the program counter never leaves the block.
pub proof fn lemma_code_of_var_executes(
    e: Expr,
    table: Seq<(Seq<char>, nat)>,
    frame: Seq<i64>,
    s: VmState,
)
    requires
        eval_var_ok(e, table, frame, s.bp),
        s.running,
        frame.len() <= s.stack.len(),
        s.stack.subrange(0, frame.len() as int) == frame,
        code_at(s.program, s.pc, code_of_var(e, table)),
    ensures
        run_n(s, code_of_var(e, table).len()) == Some(after_expr_var(s, e, table, frame)),
        forall|k: nat|
            k < code_of_var(e, table).len() ==> ((#[trigger] run_n(s, k)) matches Some(m) && s.pc
                <= m.pc < s.pc + code_of_var(e, table).len()),
    decreases e, 1int,
{
    reveal_with_fuel(run_n, 3);
    match e {
        Expr::Number(n) => {
            assert(s.program[s.pc + 0int] == (code_of_var(e, table))[0]);
            assert(s.program[s.pc as int] == Instruction::IMM(n));
            assert(step_spec(s) == Ok::<VmState, crate::vm::VmFault>(
                after_expr_var(s, e, table, frame),
            ));
        },
        Expr::Variable(name) => {
            lemma_var_load_case(e, name@, table, frame, s);
        },
        Expr::Var(name) => {
            lemma_var_load_case(e, name@, table, frame, s);
        },
        Expr::Add(l, r) => {
            lemma_eval_var_in_range(*l, table, frame, s.bp);
            lemma_eval_var_in_range(*r, table, frame, s.bp);
            lemma_binop_var_case(e, *l, *r, Instruction::ADD, table, frame, s);
        },
        Expr::Sub(l, r) => {
            lemma_eval_var_in_range(*l, table, frame, s.bp);
            lemma_eval_var_in_range(*r, table, frame, s.bp);
            lemma_binop_var_case(e, *l, *r, Instruction::SUB, table, frame, s);
        },
        Expr::Mul(l, r) => {
            lemma_eval_var_in_range(*l, table, frame, s.bp);
            lemma_eval_var_in_range(*r, table, frame, s.bp);
            lemma_binop_var_case(e, *l, *r, Instruction::MUL, table, frame, s);
        },
        Expr::Div(l, r) => {
            lemma_eval_var_in_range(*l, table, frame, s.bp);
            lemma_eval_var_in_range(*r, table, frame, s.bp);
            lemma_binop_var_case(e, *l, *r, Instruction::DIV, table, frame, s);
        },
        Expr::Mod(l, r) => {
            lemma_eval_var_in_range(*l, table, frame, s.bp);
            lemma_eval_var_in_range(*r, table, frame, s.bp);
            crate::vm::lemma_tmod_range(
                eval_var(*l, table, frame, s.bp),
                eval_var(*r, table, frame, s.bp),
            );
            lemma_binop_var_case(e, *l, *r, Instruction::MOD, table, frame, s);
        },
        Expr::Equal(l, r) => {
            lemma_eval_var_in_range(*l, table, frame, s.bp);
            lemma_eval_var_in_range(*r, table, frame, s.bp);
            lemma_binop_var_case(e, *l, *r, Instruction::EQ, table, frame, s);
        },
        Expr::Less(l, r) => {
            lemma_eval_var_in_range(*l, table, frame, s.bp);
            lemma_eval_var_in_range(*r, table, frame, s.bp);
            lemma_binop_var_case(e, *l, *r, Instruction::LT, table, frame, s);
        },
        Expr::Greater(l, r) => {
            lemma_eval_var_in_range(*l, table, frame, s.bp);
            lemma_eval_var_in_range(*r, table, frame, s.bp);
            lemma_binop_var_case(e, *l, *r, Instruction::GT, table, frame, s);
        },
        _ => {},
    }
}

/// The variable case of `lemma_code_of_var_executes`: push the slot's
/// address, then load the word stored there — the frame value.
#[verifier::rlimit(100)]
proof fn lemma_var_load_case(
    e: Expr,
    name: Seq<char>,
    table: Seq<(Seq<char>, nat)>,
    frame: Seq<i64>,
    s: VmState,
)
    requires
        eval_var_ok(e, table, frame, s.bp),
        e == Expr::Variable(e->Variable_0) && e->Variable_0@ == name || e == Expr::Var(e->Var_0)
            && e->Var_0@ == name,
        s.running,
        frame.len() <= s.stack.len(),
        s.stack.subrange(0, frame.len() as int) == frame,
        code_at(s.program, s.pc, code_of_var(e, table)),
    ensures
        run_n(s, code_of_var(e, table).len()) == Some(after_expr_var(s, e, table, frame)),
        forall|k: nat|
            k < code_of_var(e, table).len() ==> ((#[trigger] run_n(s, k)) matches Some(m) && s.pc
                <= m.pc < s.pc + code_of_var(e, table).len()),
{
    reveal_with_fuel(run_n, 3);
    let off = crate::codegen::lookup_spec(table, name)->Some_0;
    let addr = s.bp + off;
    let v = frame[addr as int];
    assert(s.program[s.pc + 0int] == (code_of_var(e, table))[0]);
    assert(s.program[s.pc + 1int] == (code_of_var(e, table))[1]);
    assert(s.program[s.pc as int] == Instruction::LEA(off as usize));
    let s1 = VmState { stack: s.stack.push(addr as i64), pc: (s.pc + 1) as nat, ..s };
    assert(step_spec(s) == Ok::<VmState, crate::vm::VmFault>(s1)) by {
        assert(step_spec(s)->Ok_0 =~= s1);
    }
    assert(run_n(s, 1) == Some(s1));
    assert(s.program[s1.pc as int] == Instruction::LI);
    let s2 = step_spec(s1)->Ok_0;
    assert(step_spec(s1) is Ok) by {
        assert(s1.stack.last() == addr as i64);
        assert(addr < frame.len() <= s.stack.len());
        assert(s1.stack.len() == s.stack.len() + 1);
    }
    assert(s2 =~= after_expr_var(s, e, table, frame)) by {
        assert(s1.stack[addr as int] == s.stack[addr as int]);
        assert(s.stack[addr as int] == frame[addr as int]);
        assert(drop_top(s1.stack, 1) =~= s.stack);
    }
    lemma_run_n_snoc(s, s1, 1);
    assert(run_n(s, 2) == Some(s2));
    assert forall|k: nat| k < 2 implies ((#[trigger] run_n(s, k)) matches Some(m) && s.pc <= m.pc
        < s.pc + 2) by {
        if k == 0 {
            assert(run_n(s, 0nat) == Some(s));
        } else {
            assert(run_n(s, 1nat) == Some(s1));
        }
    }
}

/// One binary-operator case of `lemma_code_of_var_executes`.
#[verifier::rlimit(100)]
proof fn lemma_binop_var_case(
    e: Expr,
    l: Expr,
    r: Expr,
    op: Instruction,
    table: Seq<(Seq<char>, nat)>,
    frame: Seq<i64>,
    s: VmState,
)
    requires
        eval_var_ok(e, table, frame, s.bp),
        eval_var_ok(l, table, frame, s.bp),
        eval_var_ok(r, table, frame, s.bp),
        decreases_to!(e => l),
        decreases_to!(e => r),
        s.running,
        frame.len() <= s.stack.len(),
        s.stack.subrange(0, frame.len() as int) == frame,
        code_of_var(e, table) == code_of_var(l, table) + code_of_var(r, table) + seq![op],
        binop_result(
            op,
            eval_var_i64(l, table, frame, s.bp),
            eval_var_i64(r, table, frame, s.bp),
        ) == Ok::<i64, crate::vm::VmFault>(eval_var_i64(e, table, frame, s.bp)),
        code_at(s.program, s.pc, code_of_var(e, table)),
    ensures
        run_n(s, code_of_var(e, table).len()) == Some(after_expr_var(s, e, table, frame)),
        forall|k: nat|
            k < code_of_var(e, table).len() ==> ((#[trigger] run_n(s, k)) matches Some(m) && s.pc
                <= m.pc < s.pc + code_of_var(e, table).len()),
    decreases e, 0int,
{
    reveal_with_fuel(run_n, 3);
    let lc = code_of_var(l, table);
    let rc = code_of_var(r, table);
    let llen = lc.len();
    let rlen = rc.len();
    let total = code_of_var(e, table).len();
    lemma_code_at_split(s.program, s.pc, lc + rc, seq![op]);
    lemma_code_at_split(s.program, s.pc, lc, rc);
    lemma_code_of_var_executes(l, table, frame, s);
    let s1 = after_expr_var(s, l, table, frame);
    assert(s1.stack.subrange(0, frame.len() as int) =~= frame);
    lemma_code_of_var_executes(r, table, frame, s1);
    let s2 = after_expr_var(s1, r, table, frame);
    lemma_run_n_add(s, llen, rlen);
    assert(run_n(s, (llen + rlen) as nat) == Some(s2));

    // the operator step
    assert(s2.pc == s.pc + llen + rlen);
    assert(s.program[s2.pc as int] == (code_of_var(e, table))[llen + rlen as int]);
    assert((code_of_var(e, table))[llen + rlen as int] == op);
    lemma_eval_var_in_range(l, table, frame, s.bp);
    lemma_eval_var_in_range(r, table, frame, s.bp);
    assert(s2.stack.len() >= 2);
    assert(s2.stack[s2.stack.len() - 2] == eval_var_i64(l, table, frame, s.bp));
    assert(s2.stack[s2.stack.len() - 1] == eval_var_i64(r, table, frame, s.bp));
    assert(drop_top(s2.stack, 2) =~= s.stack);
    let s3 = step_spec(s2)->Ok_0;
    assert(step_spec(s2) is Ok);
    assert(s3 =~= after_expr_var(s, e, table, frame));
    lemma_run_n_snoc(s, s2, (llen + rlen) as nat);
    assert(run_n(s, total) == Some(after_expr_var(s, e, table, frame)));

    // the program counter stays within the block
    assert forall|k: nat| k < total implies ((#[trigger] run_n(s, k)) matches Some(m) && s.pc
        <= m.pc < s.pc + total) by {
        if k < llen {
            assert((run_n(s, k) matches Some(m) && s.pc <= m.pc < s.pc + llen));
        } else if k < llen + rlen {
            lemma_run_n_add(s, llen, (k - llen) as nat);
            assert(run_n(s, k) == run_n(s1, (k - llen) as nat));
            if k == llen {
                assert(run_n(s1, 0) == Some(s1));
            } else {
                assert((run_n(s1, (k - llen) as nat) matches Some(m) && s1.pc <= m.pc < s1.pc
                    + rlen));
            }
        } else {
            assert(k == llen + rlen);
            assert(run_n(s, k) == Some(s2));
        }
    }
}

/// Running the block `condition-code, branch-if-zero(target)`: a zero
/// condition transfers control to the target, a non-zero one falls
/// through, and in both cases the operand stack and every other part of
/// the state are exactly as before, and the program counter never leaves
/// the block while it runs.  The condition may read declared variables
/// from the active frame.
pub proof fn lemma_condition_branch(
    c: Expr,
    table: Seq<(Seq<char>, nat)>,
    frame: Seq<i64>,
    s: VmState,
    target: usize,
)
    requires
        eval_var_ok(c, table, frame, s.bp),
        s.running,
        frame.len() <= s.stack.len(),
        s.stack.subrange(0, frame.len() as int) == frame,
        code_at(s.program, s.pc, code_of_var(c, table).push(Instruction::BZ(target))),
    ensures
        eval_var(c, table, frame, s.bp) == 0 ==> run_n(s, code_of_var(c, table).len() + 1)
            == Some(VmState { pc: target as nat, ..s }),
        eval_var(c, table, frame, s.bp) != 0 ==> run_n(s, code_of_var(c, table).len() + 1)
            == Some(VmState { pc: (s.pc + code_of_var(c, table).len() + 1) as nat, ..s }),
        forall|k: nat|
            k <= code_of_var(c, table).len() ==> ((#[trigger] run_n(s, k)) matches Some(m)
                && s.pc <= m.pc <= s.pc + code_of_var(c, table).len()),
{
    let clen = code_of_var(c, table).len();
    assert(code_of_var(c, table).push(Instruction::BZ(target)) =~= code_of_var(c, table) + seq![
        Instruction::BZ(target),
    ]);
    lemma_code_at_split(s.program, s.pc, code_of_var(c, table), seq![Instruction::BZ(target)]);
    lemma_code_of_var_executes(c, table, frame, s);
    let s1 = after_expr_var(s, c, table, frame);
    lemma_eval_var_in_range(c, table, frame, s.bp);
    assert(s.program[s1.pc as int] == (seq![Instruction::BZ(target)])[0]);
    let s2 = step_spec(s1)->Ok_0;
    assert(step_spec(s1) is Ok) by {
        assert(s1.stack.len() >= 1);
    }
    assert(drop_top(s1.stack, 1) =~= s.stack);
    if eval_var(c, table, frame, s.bp) == 0 {
        assert(s1.stack.last() == 0i64);
        assert(s2 =~= VmState { pc: target as nat, ..s });
    } else {
        assert(s1.stack.last() != 0i64);
        assert(s2 =~= VmState { pc: (s.pc + clen + 1) as nat, ..s });
    }
    lemma_run_n_snoc(s, s1, clen);
    assert forall|k: nat| k <= clen implies ((#[trigger] run_n(s, k)) matches Some(m) && s.pc
        <= m.pc <= s.pc + clen) by {
        if k < clen {
            assert((run_n(s, k) matches Some(m) && s.pc <= m.pc < s.pc + clen));
        } else {
            assert(run_n(s, k) == Some(s1));
        }
    }
}

/// Branch correctness for `If` without an `else`: when the condition —
/// which may read declared variables — is false, the machine steps from
/// the start of the condition block straight to the instruction
/// following the `then` branch, the branch target, and no instruction of
/// the `then` branch is ever executed: up to the branch the program
/// counter stays within the condition block.
pub proof fn theorem_if_false_skips_then(
    c: Expr,
    table: Seq<(Seq<char>, nat)>,
    frame: Seq<i64>,
    s: VmState,
    then_len: nat,
    after: usize,
)
    requires
        eval_var_ok(c, table, frame, s.bp),
        eval_var(c, table, frame, s.bp) == 0,
        s.running,
        frame.len() <= s.stack.len(),
        s.stack.subrange(0, frame.len() as int) == frame,
        code_at(s.program, s.pc, code_of_var(c, table).push(Instruction::BZ(after))),
        after == s.pc + code_of_var(c, table).len() + 1 + then_len,
    ensures
        run_n(s, code_of_var(c, table).len() + 1) == Some(VmState { pc: after as nat, ..s }),
        forall|k: nat|
            k <= code_of_var(c, table).len() ==> ((#[trigger] run_n(s, k)) matches Some(m)
                && m.pc < s.pc + code_of_var(c, table).len() + 1),
{
    lemma_condition_branch(c, table, frame, s, after);
}

/// Loop correctness for `While`, the exit half: when the condition is
/// zero, the machine steps from the loop head straight to the loop end —
/// the instruction after the back-jump — leaving the stack untouched and
/// never entering the body.
pub proof fn theorem_while_false_exits(
    c: Expr,
    table: Seq<(Seq<char>, nat)>,
    frame: Seq<i64>,
    s: VmState,
    body_len: nat,
    loop_end: usize,
)
    requires
        eval_var_ok(c, table, frame, s.bp),
        eval_var(c, table, frame, s.bp) == 0,
        s.running,
        frame.len() <= s.stack.len(),
        s.stack.subrange(0, frame.len() as int) == frame,
        code_at(s.program, s.pc, code_of_var(c, table).push(Instruction::BZ(loop_end))),
        loop_end == s.pc + code_of_var(c, table).len() + 1 + body_len + 1,
    ensures
        run_n(s, code_of_var(c, table).len() + 1) == Some(VmState { pc: loop_end as nat, ..s }),
        forall|k: nat|
            k <= code_of_var(c, table).len() ==> ((#[trigger] run_n(s, k)) matches Some(m)
                && m.pc < s.pc + code_of_var(c, table).len() + 1),
{
    lemma_condition_branch(c, table, frame, s, loop_end);
}

/// Loop correctness for `While`, the entry half: when the condition is
/// non-zero, the machine steps from the loop head to the first
/// instruction of the body, with the stack untouched; together with the
/// unconditional back-jump after the body this is one full iteration.
pub proof fn theorem_while_true_enters_body(
    c: Expr,
    table: Seq<(Seq<char>, nat)>,
    frame: Seq<i64>,
    s: VmState,
    loop_end: usize,
)
    requires
        eval_var_ok(c, table, frame, s.bp),
        eval_var(c, table, frame, s.bp) != 0,
        s.running,
        frame.len() <= s.stack.len(),
        s.stack.subrange(0, frame.len() as int) == frame,
        code_at(s.program, s.pc, code_of_var(c, table).push(Instruction::BZ(loop_end))),
    ensures
        run_n(s, code_of_var(c, table).len() + 1) == Some(
            VmState { pc: (s.pc + code_of_var(c, table).len() + 1) as nat, ..s },
        ),
{
    lemma_condition_branch(c, table, frame, s, loop_end);
}

/// Loop correctness for `While`, one full iteration: when the condition
/// is non-zero and the body, entered right after the branch, runs to the
/// back-jump, control returns to the loop head — the condition test —
/// with the body's final state.  Iterating this theorem runs the body
/// repeatedly while the condition stays non-zero; `theorem_while_false_exits`
/// ends the loop the moment it reaches zero.
pub proof fn theorem_while_iteration(
    c: Expr,
    table: Seq<(Seq<char>, nat)>,
    frame: Seq<i64>,
    s: VmState,
    t: VmState,
    n: nat,
    loop_end: usize,
    back: usize,
)
    requires
        eval_var_ok(c, table, frame, s.bp),
        eval_var(c, table, frame, s.bp) != 0,
        s.running,
        frame.len() <= s.stack.len(),
        s.stack.subrange(0, frame.len() as int) == frame,
        code_at(s.program, s.pc, code_of_var(c, table).push(Instruction::BZ(loop_end))),
        run_n(
            VmState { pc: (s.pc + code_of_var(c, table).len() + 1) as nat, ..s },
            n,
        ) == Some(t),
        t.running,
        t.pc < s.program.len(),
        s.program[t.pc as int] == Instruction::JMP(back),
        back == s.pc,
    ensures
        run_n(s, code_of_var(c, table).len() + 1 + n + 1) == Some(VmState { pc: s.pc, ..t }),
{
    reveal_with_fuel(run_n, 2);
    let clen = code_of_var(c, table).len();
    lemma_condition_branch(c, table, frame, s, loop_end);
    let s1 = VmState { pc: (s.pc + clen + 1) as nat, ..s };
    lemma_run_n_add(s, (clen + 1) as nat, n);
    assert(run_n(s, (clen + 1 + n) as nat) == Some(t));
    lemma_run_n_program(s1, n);
    assert(t.program == s.program);
    let u = step_spec(t)->Ok_0;
    assert(step_spec(t) is Ok);
    assert(u =~= VmState { pc: s.pc, ..t });
    lemma_run_n_snoc(s, t, (clen + 1 + n) as nat);
    assert(run_n(s, clen + 1 + n + 1) == Some(u));
}

/// Call balance: a `JSR` whose callee enters its frame and, with the
/// frame bookkeeping intact and the caller's stack untouched below,
/// reaches the matching `LEV`, returns control to the instruction right
/// after the call with the operand stack — contents and height — exactly
/// as it was immediately before the call, and the frame base restored.
pub proof fn theorem_call_balance(s: VmState, t: VmState, n: nat, target: usize)
    requires
        s.running,
        s.pc < s.program.len(),
        s.program[s.pc as int] == Instruction::JSR(target),
        s.pc + 1 <= i64::MAX,
        s.pc + 1 <= usize::MAX,
        s.bp <= i64::MAX,
        s.bp <= usize::MAX,
        run_n(step_spec(s)->Ok_0, n) == Some(t),
        t.running,
        t.bp == s.stack.len() + 2,
        t.stack.len() >= s.stack.len() + 2,
        t.stack.subrange(0, s.stack.len() as int) == s.stack,
        t.stack[s.stack.len() as int] == (s.pc + 1) as i64,
        t.stack[s.stack.len() + 1int] == s.bp as i64,
        t.pc < s.program.len(),
        s.program[t.pc as int] == Instruction::LEV,
    ensures
        run_n(s, n + 2) matches Some(u) && u.stack == s.stack && u.pc == s.pc + 1 && u.bp
            == s.bp,
{
    reveal_with_fuel(run_n, 2);
    let h = s.stack.len();
    let sc = step_spec(s)->Ok_0;
    assert(step_spec(s) is Ok);
    assert(run_n(s, 1) == Some(sc));
    lemma_run_n_add(s, 1, n);
    assert(run_n(s, (1 + n) as nat) == Some(t));
    lemma_run_n_program(sc, n);
    assert(t.program == s.program);
    let u = step_spec(t)->Ok_0;
    assert(step_spec(t) is Ok) by {
        assert(t.stack[t.bp - 1] == s.bp as i64);
        assert(t.stack[t.bp - 2] == (s.pc + 1) as i64);
    }
    assert(u.stack =~= s.stack) by {
        assert(t.stack.subrange(0, h as int) == s.stack);
    }
    lemma_run_n_snoc(s, t, (1 + n) as nat);
    assert(run_n(s, n + 2) == Some(u));
    assert(u.pc == s.pc + 1);
    assert(u.bp == s.bp);
}


/// The program generated for `int x = e1; x = e2; return x;`.
pub open spec fn decl_assign_return_program(e1: Expr, e2: Expr) -> Seq<Instruction> {
    seq![Instruction::ENT(1), Instruction::LEA(0)] + code_of(e1) + seq![
        Instruction::SI,
        Instruction::LEA(0),
    ] + code_of(e2) + seq![
        Instruction::SI,
        Instruction::LEA(0),
        Instruction::LI,
        Instruction::PSH,
        Instruction::EXIT,
    ]
}

/// The generator turns `int x = e1; x = e2; return x;` into exactly
/// `decl_assign_return_program(e1, e2)`: one frame slot, initializer
/// stored, right-hand side stored over it, the slot reloaded and
/// returned.
#[verifier::rlimit(100)]
proof fn lemma_decl_assign_return_shape(ast: ASTNode, e1: Expr, e2: Expr, prog: Seq<Instruction>)
    requires
        eval_ok(e1),
        eval_ok(e2),
        ast matches ASTNode::Sequence(stmts) && stmts@.len() == 3 && (stmts@[0] matches
            ASTNode::Declaration(n0, b1) && *b1 == e1 && (stmts@[1] matches
            ASTNode::Assignment(n1, b2) && *b2 == e2 && n1@ == n0@ && (stmts@[2] matches
            ASTNode::Return(b3) && (*b3 matches Expr::Var(n2) && n2@ == n0@)))),
        generate_spec(ast) == Ok::<Seq<Instruction>, CodegenErrorView>(prog),
    ensures
        prog == decl_assign_return_program(e1, e2),
{
    reveal_with_fuel(gen_seq_spec, 5);
    reveal_with_fuel(gen_stmt_spec, 2);
    reveal_with_fuel(crate::codegen::lookup_spec, 2);
    reveal_with_fuel(resolve_patches_spec, 2);
    let stmts = ast->Sequence_0;
    assert(!crate::codegen::all_function_defs(ast)) by {
        assert(!(stmts@[0] is FunctionDef));
    }
    let st0 = CgState {
        instrs: seq![Instruction::ENT(0)],
        table: Seq::empty(),
        next_offset: 0,
        patches: Seq::empty(),
        funcs: Seq::empty(),
    };

    // the declaration binds the name to slot 0 and emits its initializer
    let st1 = CgState {
        instrs: st0.instrs.push(Instruction::LEA(0)),
        table: st0.table.push((stmts@[0]->Declaration_0@, 0)),
        next_offset: 1,
        ..st0
    };
    lemma_emit_const(e1, st1.instrs, st1.table, st1.patches);
    let st_a = gen_stmt_spec(stmts@[0], st0)->Ok_0;
    assert(gen_stmt_spec(stmts@[0], st0) is Ok);
    assert(st_a.instrs == (st1.instrs + code_of(e1)).push(Instruction::SI));

    // the assignment finds the same slot and emits its right-hand side
    assert(crate::codegen::lookup_spec(st_a.table, stmts@[1]->Assignment_0@) == Some(0nat));
    let st2 = CgState { instrs: st_a.instrs.push(Instruction::LEA(0)), ..st_a };
    lemma_emit_const(e2, st2.instrs, st2.table, st2.patches);
    let st_b = gen_stmt_spec(stmts@[1], st_a)->Ok_0;
    assert(gen_stmt_spec(stmts@[1], st_a) is Ok);
    assert(st_b.instrs == (st2.instrs + code_of(e2)).push(Instruction::SI));

    // the return loads the slot, duplicates it, and terminates
    assert(crate::codegen::lookup_spec(st_b.table, (*stmts@[2]->Return_0)->Var_0@) == Some(
        0nat,
    ));
    let st_c = gen_stmt_spec(stmts@[2], st_b)->Ok_0;
    assert(gen_stmt_spec(stmts@[2], st_b) is Ok);
    assert(st_c.instrs == st_b.instrs.push(Instruction::LEA(0)).push(Instruction::LI).push(
        Instruction::PSH,
    ).push(Instruction::EXIT));
    assert(gen_seq_spec(stmts, 0, st0) == Ok::<CgState, CodegenErrorView>(st_c));
    assert(st_c.next_offset == 1);
    assert(st_c.patches.len() == 0);
    assert(prog == st_c.instrs.update(0, Instruction::ENT(1)));
    assert(prog =~= decl_assign_return_program(e1, e2));
}

/// Running `decl_assign_return_program` up to the end of the first
/// store: the frame is entered and the declaration's initializer lands
/// in slot 0.
#[verifier::rlimit(100)]
proof fn lemma_decl_assign_return_first_store(e1: Expr, e2: Expr)
    requires
        eval_ok(e1),
        eval_ok(e2),
    ensures
        ({
            let prog = decl_assign_return_program(e1, e2);
            run_n(init_state(prog), 3 + code_of(e1).len()) == Some(
                VmState {
                    program: prog,
                    stack: seq![0i64, eval_i64(e1)],
                    pc: (3 + code_of(e1).len()) as nat,
                    bp: 1,
                    running: true,
                    output: Seq::empty(),
                },
            )
        }),
{
    reveal_with_fuel(run_n, 3);
    let prog = decl_assign_return_program(e1, e2);
    let c1 = code_of(e1).len();
    let v1 = eval_i64(e1);
    let s0 = init_state(prog);
    let s1 = VmState { stack: seq![0i64, 0i64], pc: 1, bp: 1, ..s0 };
    assert(step_spec(s0) == Ok::<VmState, crate::vm::VmFault>(s1)) by {
        assert(prog[0] == Instruction::ENT(1));
        assert(s0.stack.push(0i64) + Seq::new(1, |i: int| 0i64) =~= seq![0i64, 0i64]);
        assert(step_spec(s0)->Ok_0 =~= s1);
    }
    assert(run_n(s0, 1) == Some(s1));

    let s2 = VmState { stack: seq![0i64, 0i64, 1i64], pc: 2, ..s1 };
    assert(step_spec(s1) == Ok::<VmState, crate::vm::VmFault>(s2)) by {
        assert(prog[1] == Instruction::LEA(0));
        assert(s1.stack.push(1i64) =~= s2.stack);
        assert(step_spec(s1)->Ok_0 =~= s2);
    }
    lemma_run_n_snoc(s0, s1, 1);
    assert(run_n(s0, 2) == Some(s2));

    assert(code_at(prog, 2, code_of(e1))) by {
        assert forall|j: int| 0 <= j < c1 implies prog[2 + j] == (code_of(e1))[j] by {
            assert(prog[2 + j] == (code_of(e1))[j]);
        }
    }
    lemma_code_of_executes(e1, s2);
    let s3 = after_expr(s2, e1);
    lemma_run_n_add(s0, 2, c1);
    assert(run_n(s0, (2 + c1) as nat) == Some(s3));
    assert(s3.stack == seq![0i64, 0i64, 1i64, v1]);
    let s4 = VmState { stack: seq![0i64, v1], pc: (3 + c1) as nat, ..s3 };
    assert(step_spec(s3) == Ok::<VmState, crate::vm::VmFault>(s4)) by {
        assert(prog[s3.pc as int] == Instruction::SI);
        assert(drop_top(s3.stack, 2).update(1, v1) =~= s4.stack);
        assert(step_spec(s3)->Ok_0 =~= s4);
    }
    lemma_run_n_snoc(s0, s3, (2 + c1) as nat);
    assert(run_n(s0, (3 + c1) as nat) == Some(s4));
    assert(s4 =~= VmState {
        program: prog,
        stack: seq![0i64, v1],
        pc: (3 + c1) as nat,
        bp: 1,
        running: true,
        output: Seq::empty(),
    });
}

/// Running `decl_assign_return_program` from the state after the first
/// store to the end of the second: the assignment overwrites slot 0 with
/// the new value.
#[verifier::rlimit(100)]
proof fn lemma_decl_assign_return_second_store(e1: Expr, e2: Expr, s4: VmState)
    requires
        eval_ok(e1),
        eval_ok(e2),
        s4 == (VmState {
            program: decl_assign_return_program(e1, e2),
            stack: seq![0i64, eval_i64(e1)],
            pc: (3 + code_of(e1).len()) as nat,
            bp: 1,
            running: true,
            output: Seq::empty(),
        }),
    ensures
        run_n(s4, 2 + code_of(e2).len()) == Some(
            VmState {
                program: decl_assign_return_program(e1, e2),
                stack: seq![0i64, eval_i64(e2)],
                pc: (5 + code_of(e1).len() + code_of(e2).len()) as nat,
                bp: 1,
                running: true,
                output: Seq::empty(),
            },
        ),
{
    reveal_with_fuel(run_n, 3);
    let prog = decl_assign_return_program(e1, e2);
    let c1 = code_of(e1).len();
    let c2 = code_of(e2).len();
    let v1 = eval_i64(e1);
    let v2 = eval_i64(e2);
    let s5 = VmState { stack: seq![0i64, v1, 1i64], pc: (4 + c1) as nat, ..s4 };
    assert(step_spec(s4) == Ok::<VmState, crate::vm::VmFault>(s5)) by {
        assert(prog[s4.pc as int] == Instruction::LEA(0));
        assert(s4.stack.push(1i64) =~= s5.stack);
        assert(step_spec(s4)->Ok_0 =~= s5);
    }
    assert(run_n(s4, 1) == Some(s5));
    assert(code_at(prog, (4 + c1) as nat, code_of(e2))) by {
        assert forall|j: int| 0 <= j < c2 implies prog[4 + c1 + j] == (code_of(e2))[j] by {
            assert(prog[4 + c1 + j] == (code_of(e2))[j]);
        }
    }
    lemma_code_of_executes(e2, s5);
    let s6 = after_expr(s5, e2);
    lemma_run_n_add(s4, 1, c2);
    assert(run_n(s4, (1 + c2) as nat) == Some(s6));
    assert(s6.stack == seq![0i64, v1, 1i64, v2]);
    let s7 = VmState { stack: seq![0i64, v2], pc: (5 + c1 + c2) as nat, ..s6 };
    assert(step_spec(s6) == Ok::<VmState, crate::vm::VmFault>(s7)) by {
        assert(prog[s6.pc as int] == Instruction::SI);
        assert(drop_top(s6.stack, 2).update(1, v2) =~= s7.stack);
        assert(step_spec(s6)->Ok_0 =~= s7);
    }
    lemma_run_n_snoc(s4, s6, (1 + c2) as nat);
    assert(run_n(s4, (2 + c2) as nat) == Some(s7));
    assert(s7 =~= VmState {
        program: prog,
        stack: seq![0i64, v2],
        pc: (5 + c1 + c2) as nat,
        bp: 1,
        running: true,
        output: Seq::empty(),
    });
}

/// Running the first half of `decl_assign_return_program`: the frame is
/// entered and the two stores leave the slot holding `e2`'s value.
proof fn lemma_decl_assign_return_stores(e1: Expr, e2: Expr)
    requires
        eval_ok(e1),
        eval_ok(e2),
    ensures
        ({
            let prog = decl_assign_return_program(e1, e2);
            run_n(init_state(prog), 5 + code_of(e1).len() + code_of(e2).len()) == Some(
                VmState {
                    program: prog,
                    stack: seq![0i64, eval_i64(e2)],
                    pc: (5 + code_of(e1).len() + code_of(e2).len()) as nat,
                    bp: 1,
                    running: true,
                    output: Seq::empty(),
                },
            )
        }),
{
    let prog = decl_assign_return_program(e1, e2);
    let c1 = code_of(e1).len();
    let c2 = code_of(e2).len();
    lemma_decl_assign_return_first_store(e1, e2);
    let s4 = VmState {
        program: prog,
        stack: seq![0i64, eval_i64(e1)],
        pc: (3 + c1) as nat,
        bp: 1,
        running: true,
        output: Seq::empty(),
    };
    lemma_decl_assign_return_second_store(e1, e2, s4);
    lemma_run_n_add(init_state(prog), (3 + c1) as nat, (2 + c2) as nat);
}

/// Running the second half of `decl_assign_return_program` from the
/// state after both stores: the slot is reloaded, duplicated, and the
/// machine halts with that value on top.
#[verifier::rlimit(100)]
proof fn lemma_decl_assign_return_returns(e1: Expr, e2: Expr, s7: VmState)
    requires
        eval_ok(e1),
        eval_ok(e2),
        s7 == (VmState {
            program: decl_assign_return_program(e1, e2),
            stack: seq![0i64, eval_i64(e2)],
            pc: (5 + code_of(e1).len() + code_of(e2).len()) as nat,
            bp: 1,
            running: true,
            output: Seq::empty(),
        }),
    ensures
        run_n(s7, 4) matches Some(t) && !t.running && t.stack.len() > 0 && t.stack.last()
            == eval_i64(e2),
{
    reveal_with_fuel(run_n, 3);
    let prog = decl_assign_return_program(e1, e2);
    let c1 = code_of(e1).len();
    let c2 = code_of(e2).len();
    let v2 = eval_i64(e2);
    let s8 = VmState { stack: seq![0i64, v2, 1i64], pc: (6 + c1 + c2) as nat, ..s7 };
    assert(step_spec(s7) == Ok::<VmState, crate::vm::VmFault>(s8)) by {
        assert(prog[s7.pc as int] == Instruction::LEA(0));
        assert(s7.stack.push(1i64) =~= s8.stack);
        assert(step_spec(s7)->Ok_0 =~= s8);
    }
    assert(run_n(s7, 1) == Some(s8));
    let s9 = VmState { stack: seq![0i64, v2, v2], pc: (7 + c1 + c2) as nat, ..s8 };
    assert(step_spec(s8) == Ok::<VmState, crate::vm::VmFault>(s9)) by {
        assert(prog[s8.pc as int] == Instruction::LI);
        assert(s8.stack.last() == 1i64);
        assert(s8.stack[1] == v2);
        assert(drop_top(s8.stack, 1).push(v2) =~= s9.stack);
        assert(step_spec(s8)->Ok_0 =~= s9);
    }
    lemma_run_n_snoc(s7, s8, 1);
    assert(run_n(s7, 2) == Some(s9));
    let s10 = VmState { stack: seq![0i64, v2, v2, v2], pc: (8 + c1 + c2) as nat, ..s9 };
    assert(step_spec(s9) == Ok::<VmState, crate::vm::VmFault>(s10)) by {
        assert(prog[s9.pc as int] == Instruction::PSH);
        assert(s9.stack.push(v2) =~= s10.stack);
        assert(step_spec(s9)->Ok_0 =~= s10);
    }
    lemma_run_n_snoc(s7, s9, 2);
    assert(run_n(s7, 3) == Some(s10));
    let s11 = step_spec(s10)->Ok_0;
    assert(step_spec(s10) is Ok && s11.stack =~= seq![v2, v2] && !s11.running) by {
        assert(prog[s10.pc as int] == Instruction::EXIT);
        assert(prog[0] == Instruction::ENT(1));
        assert(s10.stack.len() >= 2);
        assert(s10.stack.subrange(2, 4) =~= seq![v2, v2]);
    }
    lemma_run_n_snoc(s7, s10, 3);
    assert(run_n(s7, 4) == Some(s11));
    assert(s11.stack.last() == v2);
}

/// Declaration/assignment ordering: in the program generated for
/// `int x = e1; x = e2; return x;` the `return` observes the most recent
/// assignment — the machine halts normally with `e2`'s value as the
/// final stack top, for every variable name and all constant expressions
/// `e1`, `e2` whose evaluation stays representable.
pub proof fn theorem_latest_assignment_observed(
    ast: ASTNode,
    e1: Expr,
    e2: Expr,
    prog: Seq<Instruction>,
)
    requires
        eval_ok(e1),
        eval_ok(e2),
        ast matches ASTNode::Sequence(stmts) && stmts@.len() == 3 && (stmts@[0] matches
            ASTNode::Declaration(n0, b1) && *b1 == e1 && (stmts@[1] matches
            ASTNode::Assignment(n1, b2) && *b2 == e2 && n1@ == n0@ && (stmts@[2] matches
            ASTNode::Return(b3) && (*b3 matches Expr::Var(n2) && n2@ == n0@)))),
        generate_spec(ast) == Ok::<Seq<Instruction>, CodegenErrorView>(prog),
    ensures
        exists|n: nat|
            ((#[trigger] run_n(init_state(prog), n)) matches Some(t) && !t.running
                && t.stack.len() > 0 && t.stack.last() == eval_i64(e2)),
{
    lemma_decl_assign_return_shape(ast, e1, e2, prog);
    lemma_decl_assign_return_stores(e1, e2);
    let c1 = code_of(e1).len();
    let c2 = code_of(e2).len();
    let s7 = VmState {
        program: prog,
        stack: seq![0i64, eval_i64(e2)],
        pc: (5 + c1 + c2) as nat,
        bp: 1,
        running: true,
        output: Seq::empty(),
    };
    lemma_decl_assign_return_returns(e1, e2, s7);
    lemma_run_n_add(init_state(prog), (5 + c1 + c2) as nat, 4);
    assert(run_n(init_state(prog), (9 + c1 + c2) as nat) matches Some(t) && !t.running
        && t.stack.len() > 0 && t.stack.last() == eval_i64(e2));
}

} // verus!
