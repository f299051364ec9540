//! A stack-based virtual machine.
//!
//! A program is an ordered sequence of [`Instruction`]s addressed by index.
//! The machine keeps one growable operand stack of signed integers, a program
//! counter, and a frame-base pointer; call frames and data values share the
//! same stack.  The whole opcode semantics is written down once, as the
//! specification function [`step_spec`]; the executable [`VM::step`] is
//! verified to agree with it exactly, fault for fault.
//!
//! Every condition that would abort execution (program counter out of range,
//! operand-stack underflow, a bad stack address, division by zero, an
//! arithmetic result outside the `i64` range) is reported as a [`VmFault`]
//! instead of a panic.

use vstd::prelude::*;

verus! {

/// One instruction of the virtual machine's fixed opcode set, optionally
/// carrying an immediate value or a target address.
#[derive(Debug, Clone, PartialEq)]
pub enum Instruction {
    /// Push the immediate value.
    IMM(i64),
    /// Duplicate the top of the stack.
    PSH,
    ADD,
    SUB,
    MUL,
    /// Integer division, truncating toward zero.
    DIV,
    /// Remainder of the truncating division.
    MOD,
    /// Unconditional jump to the address.
    JMP(usize),
    /// Pop a condition; jump when it is zero.
    BZ(usize),
    /// Pop a condition; jump when it is non-zero.
    BNZ(usize),
    /// Push the return address, then jump: a subroutine call.
    JSR(usize),
    /// Enter a frame: save the frame base and reserve that many local slots.
    ENT(usize),
    /// Discard that many values from the stack.
    ADJ(usize),
    /// Leave the current frame and return to the saved address.
    LEV,
    /// Push the address of a frame slot: frame base plus the offset.
    LEA(usize),
    /// Pop an address, push the word stored at that stack position.
    LI,
    /// As `LI`, but only the low 8 bits of the word.
    LC,
    /// Pop a value, pop an address, store the value at that stack position.
    SI,
    /// As `SI`, but only the low 8 bits of the value.
    SC,
    /// Halt; the result is the value on top of the stack.  When the
    /// program begins with a frame reservation, the outermost frame's
    /// bookkeeping — the saved frame base and the reserved slots — is
    /// removed from the bottom of the stack first, so that the computed
    /// values are what remains.
    EXIT,
    /// Memory/file syscall stand-ins with fixed behaviour; none of them
    /// touches real memory or files.
    MALC,
    FREE,
    MSET,
    MCMP,
    OPEN,
    READ,
    CLOS,
    /// Pop two values, push 1 when they are equal, else 0.
    EQ,
    /// Pop two values, push 1 when the first is less, else 0.
    LT,
    /// Pop two values, push 1 when the first is greater, else 0.
    GT,
    /// Write the embedded text verbatim to the program's output.
    PrintfStr(String),
}

/// A condition that aborts execution.  Execution is fail-fast: a fault halts
/// the machine immediately, with no recovery or partial result.
#[derive(Debug, Clone, Copy, PartialEq, Eq, Structural)]
pub enum VmFault {
    /// The program counter left the valid range `[0, program.len())`.
    PcOutOfBounds,
    /// An instruction needed more operands than the stack holds.
    StackUnderflow,
    /// A load, store or frame operation addressed a position outside the
    /// stack, or an address value was negative.
    AddressOutOfRange,
    /// `DIV` or `MOD` with a zero divisor.
    DivisionByZero,
    /// An arithmetic result or an address computation left the representable
    /// range.
    ArithmeticOverflow,
}

/// The mathematical state of the machine: the program, the operand stack,
/// the program counter, the frame-base pointer, the running flag, and the
/// text written so far.
#[verifier::ext_equal]
pub struct VmState {
    pub program: Seq<Instruction>,
    pub stack: Seq<i64>,
    pub pc: nat,
    pub bp: nat,
    pub running: bool,
    pub output: Seq<Seq<char>>,
}

/// Division truncating toward zero, as the `DIV` opcode computes it.
pub open spec fn tdiv(x: int, d: int) -> int
    recommends
        d != 0,
{
    if x == 0 {
        0
    } else if x > 0 && d > 0 {
        x / d
    } else if x < 0 && d < 0 {
        (x * -1) / (d * -1)
    } else if x < 0 {
        ((x * -1) / d) * -1
    } else {
        (x / (d * -1)) * -1
    }
}

/// Remainder of the truncating division, as the `MOD` opcode computes it.
pub open spec fn tmod(x: int, d: int) -> int
    recommends
        d != 0,
{
    if x == 0 {
        0
    } else if x > 0 && d > 0 {
        x % d
    } else if x < 0 && d < 0 {
        ((x * -1) % (d * -1)) * -1
    } else if x < 0 {
        ((x * -1) % d) * -1
    } else {
        x % (d * -1)
    }
}

/// The truncating remainder is smaller in magnitude than the divisor.
pub proof fn lemma_tmod_range(x: int, d: int)
    requires
        d != 0,
    ensures
        (if d > 0 {
            d
        } else {
            d * -1
        }) * -1 < tmod(x, d) < (if d > 0 {
            d
        } else {
            d * -1
        }),
{
}

/// The stack with the top `k` values discarded; discards everything when
/// fewer than `k` values are present.
pub open spec fn drop_top(st: Seq<i64>, k: nat) -> Seq<i64> {
    if st.len() >= k {
        st.subrange(0, st.len() - k)
    } else {
        Seq::empty()
    }
}

/// The operand-stack effect of one of the two-operand arithmetic and
/// comparison opcodes: the result that replaces the two popped values,
/// or the fault it raises.
pub open spec fn binop_result(op: Instruction, a: i64, b: i64) -> Result<i64, VmFault>
    recommends
        is_binop(op),
{
    match op {
        Instruction::ADD => {
            if a + b > i64::MAX || a + b < i64::MIN {
                Err(VmFault::ArithmeticOverflow)
            } else {
                Ok((a + b) as i64)
            }
        },
        Instruction::SUB => {
            if a - b > i64::MAX || a - b < i64::MIN {
                Err(VmFault::ArithmeticOverflow)
            } else {
                Ok((a - b) as i64)
            }
        },
        Instruction::MUL => {
            if a * b > i64::MAX || a * b < i64::MIN {
                Err(VmFault::ArithmeticOverflow)
            } else {
                Ok((a * b) as i64)
            }
        },
        Instruction::DIV => {
            if b == 0 {
                Err(VmFault::DivisionByZero)
            } else if tdiv(a as int, b as int) > i64::MAX || tdiv(a as int, b as int) < i64::MIN {
                Err(VmFault::ArithmeticOverflow)
            } else {
                Ok(tdiv(a as int, b as int) as i64)
            }
        },
        Instruction::MOD => {
            if b == 0 {
                Err(VmFault::DivisionByZero)
            } else if a == i64::MIN && b == -1 {
                Err(VmFault::ArithmeticOverflow)
            } else {
                Ok(tmod(a as int, b as int) as i64)
            }
        },
        Instruction::EQ => Ok(if a == b { 1i64 } else { 0i64 }),
        Instruction::LT => Ok(if a < b { 1i64 } else { 0i64 }),
        Instruction::GT => Ok(if a > b { 1i64 } else { 0i64 }),
        _ => Err(VmFault::PcOutOfBounds),
    }
}

/// Whether the opcode is one of the two-operand arithmetic or comparison
/// instructions that `binop_result` describes.
pub open spec fn is_binop(op: Instruction) -> bool {
    ||| op is ADD
    ||| op is SUB
    ||| op is MUL
    ||| op is DIV
    ||| op is MOD
    ||| op is EQ
    ||| op is LT
    ||| op is GT
}

/// One fetch-decode-execute step of the machine: the next state, or the
/// fault that halts execution.  The default successor of the program counter
/// is `pc + 1`; branch, jump, call and return set it themselves.
pub open spec fn step_spec(s: VmState) -> Result<VmState, VmFault> {
    if s.pc >= s.program.len() {
        Err(VmFault::PcOutOfBounds)
    } else {
        let pc1 = (s.pc + 1) as nat;
        match s.program[s.pc as int] {
            Instruction::IMM(v) => Ok(VmState { stack: s.stack.push(v), pc: pc1, ..s }),
            Instruction::PSH => {
                if s.stack.len() < 1 {
                    Err(VmFault::StackUnderflow)
                } else {
                    Ok(VmState { stack: s.stack.push(s.stack.last()), pc: pc1, ..s })
                }
            },
            Instruction::JMP(t) => Ok(VmState { pc: t as nat, ..s }),
            Instruction::BZ(t) => {
                if s.stack.len() < 1 {
                    Err(VmFault::StackUnderflow)
                } else {
                    Ok(VmState {
                        stack: drop_top(s.stack, 1),
                        pc: if s.stack.last() == 0i64 { t as nat } else { pc1 },
                        ..s
                    })
                }
            },
            Instruction::BNZ(t) => {
                if s.stack.len() < 1 {
                    Err(VmFault::StackUnderflow)
                } else {
                    Ok(VmState {
                        stack: drop_top(s.stack, 1),
                        pc: if s.stack.last() != 0i64 { t as nat } else { pc1 },
                        ..s
                    })
                }
            },
            Instruction::JSR(t) => {
                if s.pc + 1 > i64::MAX {
                    Err(VmFault::ArithmeticOverflow)
                } else {
                    Ok(VmState { stack: s.stack.push((s.pc + 1) as i64), pc: t as nat, ..s })
                }
            },
            Instruction::ENT(n) => {
                if s.bp > i64::MAX {
                    Err(VmFault::ArithmeticOverflow)
                } else if s.stack.len() + 1 + n > usize::MAX {
                    Err(VmFault::ArithmeticOverflow)
                } else {
                    Ok(VmState {
                        stack: s.stack.push(s.bp as i64) + Seq::new(n as nat, |i: int| 0i64),
                        bp: (s.stack.len() + 1) as nat,
                        pc: pc1,
                        ..s
                    })
                }
            },
            Instruction::ADJ(n) => Ok(VmState { stack: drop_top(s.stack, n as nat), pc: pc1, ..s }),
            Instruction::LEV => {
                if s.bp < 1 || s.bp > s.stack.len() {
                    Err(VmFault::AddressOutOfRange)
                } else if s.stack[s.bp - 1] < 0 || s.stack[s.bp - 1] > usize::MAX {
                    Err(VmFault::AddressOutOfRange)
                } else if s.bp < 2 {
                    Err(VmFault::StackUnderflow)
                } else if s.stack[s.bp - 2] < 0 || s.stack[s.bp - 2] > usize::MAX {
                    Err(VmFault::AddressOutOfRange)
                } else {
                    Ok(VmState {
                        stack: s.stack.subrange(0, s.bp - 2),
                        bp: s.stack[s.bp - 1] as nat,
                        pc: s.stack[s.bp - 2] as nat,
                        ..s
                    })
                }
            },
            Instruction::LEA(off) => {
                if s.bp + off > usize::MAX || s.bp + off > i64::MAX {
                    Err(VmFault::ArithmeticOverflow)
                } else {
                    Ok(VmState { stack: s.stack.push((s.bp + off) as i64), pc: pc1, ..s })
                }
            },
            Instruction::LI => {
                if s.stack.len() < 1 {
                    Err(VmFault::StackUnderflow)
                } else if s.stack.last() < 0 || s.stack.last() >= s.stack.len() - 1 {
                    Err(VmFault::AddressOutOfRange)
                } else {
                    Ok(VmState {
                        stack: drop_top(s.stack, 1).push(s.stack[s.stack.last() as int]),
                        pc: pc1,
                        ..s
                    })
                }
            },
            Instruction::LC => {
                if s.stack.len() < 1 {
                    Err(VmFault::StackUnderflow)
                } else if s.stack.last() < 0 || s.stack.last() >= s.stack.len() - 1 {
                    Err(VmFault::AddressOutOfRange)
                } else {
                    Ok(VmState {
                        stack: drop_top(s.stack, 1).push(s.stack[s.stack.last() as int] & 0xFF),
                        pc: pc1,
                        ..s
                    })
                }
            },
            Instruction::SI => {
                if s.stack.len() < 2 {
                    Err(VmFault::StackUnderflow)
                } else {
                    let val = s.stack[s.stack.len() - 1];
                    let addr = s.stack[s.stack.len() - 2];
                    if addr < 0 || addr >= s.stack.len() - 2 {
                        Err(VmFault::AddressOutOfRange)
                    } else {
                        Ok(VmState {
                            stack: drop_top(s.stack, 2).update(addr as int, val),
                            pc: pc1,
                            ..s
                        })
                    }
                }
            },
            Instruction::SC => {
                if s.stack.len() < 2 {
                    Err(VmFault::StackUnderflow)
                } else {
                    let val = s.stack[s.stack.len() - 1] & 0xFF;
                    let addr = s.stack[s.stack.len() - 2];
                    if addr < 0 || addr >= s.stack.len() - 2 {
                        Err(VmFault::AddressOutOfRange)
                    } else {
                        Ok(VmState {
                            stack: drop_top(s.stack, 2).update(addr as int, val),
                            pc: pc1,
                            ..s
                        })
                    }
                }
            },
            Instruction::EXIT => {
                let cleaned = match s.program[0] {
                    Instruction::ENT(n) => {
                        if s.stack.len() >= n + 1 {
                            s.stack.subrange(n + 1, s.stack.len() as int)
                        } else {
                            s.stack
                        }
                    },
                    _ => s.stack,
                };
                Ok(VmState { stack: cleaned, pc: pc1, running: false, ..s })
            },
            Instruction::MALC => {
                if s.stack.len() < 2 {
                    Err(VmFault::StackUnderflow)
                } else {
                    Ok(VmState {
                        stack: drop_top(s.stack, 2).push(0i64).push(0x1000i64),
                        pc: pc1,
                        ..s
                    })
                }
            },
            Instruction::FREE => Ok(VmState { stack: drop_top(s.stack, 1), pc: pc1, ..s }),
            Instruction::MSET => Ok(VmState { stack: drop_top(s.stack, 3), pc: pc1, ..s }),
            Instruction::MCMP => Ok(
                VmState { stack: drop_top(s.stack, 3).push(0i64), pc: pc1, ..s },
            ),
            Instruction::OPEN => Ok(
                VmState { stack: drop_top(s.stack, 2).push(3i64), pc: pc1, ..s },
            ),
            Instruction::READ => Ok(
                VmState { stack: drop_top(s.stack, 3).push(10i64), pc: pc1, ..s },
            ),
            Instruction::CLOS => Ok(
                VmState { stack: drop_top(s.stack, 1).push(0i64), pc: pc1, ..s },
            ),
            Instruction::PrintfStr(text) => Ok(
                VmState { output: s.output.push(text@), pc: pc1, ..s },
            ),
            op => {
                // ADD, SUB, MUL, DIV, MOD, EQ, LT, GT
                if s.stack.len() < 2 {
                    Err(VmFault::StackUnderflow)
                } else {
                    let a = s.stack[s.stack.len() - 2];
                    let b = s.stack[s.stack.len() - 1];
                    match binop_result(op, a, b) {
                        Ok(r) => Ok(VmState { stack: drop_top(s.stack, 2).push(r), pc: pc1, ..s }),
                        Err(f) => Err(f),
                    }
                }
            },
        }
    }
}

/// The machine as it is first loaded with a program: empty stack, program
/// counter and frame base at zero, running, nothing printed.  This is
/// exactly what [`VM::new`] constructs.
pub open spec fn init_state(prog: Seq<Instruction>) -> VmState {
    VmState {
        program: prog,
        stack: Seq::empty(),
        pc: 0,
        bp: 0,
        running: true,
        output: Seq::empty(),
    }
}

/// The state after `n` successful steps, or `None` when the machine halts
/// or faults strictly before the `n`-th step.
pub open spec fn run_n(s: VmState, n: nat) -> Option<VmState>
    decreases n,
{
    if n == 0 {
        Some(s)
    } else if !s.running {
        None
    } else {
        match step_spec(s) {
            Ok(t) => run_n(t, (n - 1) as nat),
            Err(_) => None,
        }
    }
}

/// Extending a successful `n`-step trace by one more successful step.
pub proof fn lemma_run_n_snoc(s: VmState, t: VmState, n: nat)
    requires
        run_n(s, n) == Some(t),
        t.running,
        step_spec(t) is Ok,
    ensures
        run_n(s, n + 1) == Some(step_spec(t)->Ok_0),
    decreases n,
{
    reveal_with_fuel(run_n, 2);
    if n > 0 {
        lemma_run_n_snoc(step_spec(s)->Ok_0, t, (n - 1) as nat);
    }
}

/// Steps never change the loaded program.
pub proof fn lemma_run_n_program(s: VmState, n: nat)
    requires
        run_n(s, n) is Some,
    ensures
        run_n(s, n)->Some_0.program == s.program,
    decreases n,
{
    if n > 0 {
        lemma_run_n_program(step_spec(s)->Ok_0, (n - 1) as nat);
    }
}

/// Step traces compose: running `a + b` steps is running `a`, then `b`.
pub proof fn lemma_run_n_add(s: VmState, a: nat, b: nat)
    requires
        run_n(s, a) is Some,
    ensures
        run_n(s, a + b) == run_n(run_n(s, a)->Some_0, b),
    decreases a,
{
    if a > 0 {
        lemma_run_n_add(step_spec(s)->Ok_0, (a - 1) as nat, b);
    }
}

/// The simple stack-based virtual machine: an instruction program together
/// with the running state that executes it.
pub struct VM {
    pub stack: Vec<i64>,
    pub pc: usize,
    pub bp: usize,
    pub program: Vec<Instruction>,
    pub running: bool,
    /// When set, a driver may dump the state between single steps; the
    /// machine itself never reads it.
    pub trace: bool,
    /// Text written by `PrintfStr` instructions, in order.
    pub output: Vec<String>,
}

impl View for VM {
    type V = VmState;

    open spec fn view(&self) -> VmState {
        VmState {
            program: self.program@,
            stack: self.stack@,
            pc: self.pc as nat,
            bp: self.bp as nat,
            running: self.running,
            output: self.output.deep_view(),
        }
    }
}

/// What one call of `VM::run` may report.
#[derive(Debug, Clone, Copy, PartialEq, Eq, Structural)]
pub enum RunOutcome {
    /// The machine executed an `EXIT` instruction.
    Halted,
    /// The step budget ran out while the machine was still running.
    OutOfSteps,
    /// A fault halted execution.
    Fault(VmFault),
}

impl VM {
    /// A fresh machine loaded with the program: empty stack, program counter
    /// and frame base at zero, running, tracing off, no output yet.
    pub fn new(program: Vec<Instruction>) -> (vm: VM)
        ensures
            vm@ == init_state(program@),
            !vm.trace,
    {
        let vm = VM {
            stack: Vec::new(),
            pc: 0,
            bp: 0,
            program,
            running: true,
            trace: false,
            output: Vec::new(),
        };
        proof {
            assert(vm@ =~= init_state(program@));
        }
        vm
    }

    /// Turn on the trace flag; everything else is untouched.
    pub fn enable_trace(&mut self)
        ensures
            final(self)@ == old(self)@,
            final(self).trace,
    {
        self.trace = true;
    }

    /// Execute the instruction at the program counter: exactly one
    /// fetch-decode-execute step of [`step_spec`].  On a fault the state is
    /// left untouched.
    pub fn step(&mut self) -> (r: Result<(), VmFault>)
        requires
            old(self)@.running,
        ensures
            (r matches Ok(()) ==> step_spec(old(self)@) == Ok::<VmState, VmFault>(final(self)@)),
            (r matches Err(f) ==> step_spec(old(self)@) == Err::<VmState, VmFault>(f)
                && final(self)@ == old(self)@),
    {
        if self.pc >= self.program.len() {
            return Err(VmFault::PcOutOfBounds);
        }
        let pc1 = self.pc + 1;
        match &self.program[self.pc] {
            Instruction::IMM(v) => {
                let val = *v;
                self.stack.push(val);
                self.pc = pc1;
                proof {
                    assert(step_spec(old(self)@)->Ok_0 =~= self@);
                }
                Ok(())
            },
            Instruction::PSH => {
                let l = self.stack.len();
                if l < 1 {
                    return Err(VmFault::StackUnderflow);
                }
                let top = self.stack[l - 1];
                self.stack.push(top);
                self.pc = pc1;
                proof {
                    assert(step_spec(old(self)@)->Ok_0 =~= self@);
                }
                Ok(())
            },
            Instruction::ADD => {
                let l = self.stack.len();
                if l < 2 {
                    return Err(VmFault::StackUnderflow);
                }
                let a = self.stack[l - 2];
                let b = self.stack[l - 1];
                match a.checked_add(b) {
                    None => Err(VmFault::ArithmeticOverflow),
                    Some(rv) => {
                        self.stack.truncate(l - 2);
                        self.stack.push(rv);
                        self.pc = pc1;
                        proof {
                            assert(step_spec(old(self)@)->Ok_0 =~= self@);
                        }
                        Ok(())
                    },
                }
            },
            Instruction::SUB => {
                let l = self.stack.len();
                if l < 2 {
                    return Err(VmFault::StackUnderflow);
                }
                let a = self.stack[l - 2];
                let b = self.stack[l - 1];
                match a.checked_sub(b) {
                    None => Err(VmFault::ArithmeticOverflow),
                    Some(rv) => {
                        self.stack.truncate(l - 2);
                        self.stack.push(rv);
                        self.pc = pc1;
                        proof {
                            assert(step_spec(old(self)@)->Ok_0 =~= self@);
                        }
                        Ok(())
                    },
                }
            },
            Instruction::MUL => {
                let l = self.stack.len();
                if l < 2 {
                    return Err(VmFault::StackUnderflow);
                }
                let a = self.stack[l - 2];
                let b = self.stack[l - 1];
                match a.checked_mul(b) {
                    None => Err(VmFault::ArithmeticOverflow),
                    Some(rv) => {
                        self.stack.truncate(l - 2);
                        self.stack.push(rv);
                        self.pc = pc1;
                        proof {
                            assert(step_spec(old(self)@)->Ok_0 =~= self@);
                        }
                        Ok(())
                    },
                }
            },
            Instruction::DIV => {
                let l = self.stack.len();
                if l < 2 {
                    return Err(VmFault::StackUnderflow);
                }
                let a = self.stack[l - 2];
                let b = self.stack[l - 1];
                if b == 0 {
                    return Err(VmFault::DivisionByZero);
                }
                match a.checked_div(b) {
                    None => Err(VmFault::ArithmeticOverflow),
                    Some(rv) => {
                        self.stack.truncate(l - 2);
                        self.stack.push(rv);
                        self.pc = pc1;
                        proof {
                            assert(rv as int == tdiv(a as int, b as int));
                            assert(step_spec(old(self)@)->Ok_0 =~= self@);
                        }
                        Ok(())
                    },
                }
            },
            Instruction::MOD => {
                let l = self.stack.len();
                if l < 2 {
                    return Err(VmFault::StackUnderflow);
                }
                let a = self.stack[l - 2];
                let b = self.stack[l - 1];
                if b == 0 {
                    return Err(VmFault::DivisionByZero);
                }
                match a.checked_rem(b) {
                    None => Err(VmFault::ArithmeticOverflow),
                    Some(rv) => {
                        self.stack.truncate(l - 2);
                        self.stack.push(rv);
                        self.pc = pc1;
                        proof {
                            assert(rv as int == tmod(a as int, b as int));
                            assert(step_spec(old(self)@)->Ok_0 =~= self@);
                        }
                        Ok(())
                    },
                }
            },
            Instruction::EQ => {
                let l = self.stack.len();
                if l < 2 {
                    return Err(VmFault::StackUnderflow);
                }
                let a = self.stack[l - 2];
                let b = self.stack[l - 1];
                self.stack.truncate(l - 2);
                self.stack.push(if a == b { 1 } else { 0 });
                self.pc = pc1;
                proof {
                    assert(step_spec(old(self)@)->Ok_0 =~= self@);
                }
                Ok(())
            },
            Instruction::LT => {
                let l = self.stack.len();
                if l < 2 {
                    return Err(VmFault::StackUnderflow);
                }
                let a = self.stack[l - 2];
                let b = self.stack[l - 1];
                self.stack.truncate(l - 2);
                self.stack.push(if a < b { 1 } else { 0 });
                self.pc = pc1;
                proof {
                    assert(step_spec(old(self)@)->Ok_0 =~= self@);
                }
                Ok(())
            },
            Instruction::GT => {
                let l = self.stack.len();
                if l < 2 {
                    return Err(VmFault::StackUnderflow);
                }
                let a = self.stack[l - 2];
                let b = self.stack[l - 1];
                self.stack.truncate(l - 2);
                self.stack.push(if a > b { 1 } else { 0 });
                self.pc = pc1;
                proof {
                    assert(step_spec(old(self)@)->Ok_0 =~= self@);
                }
                Ok(())
            },
            Instruction::JMP(t) => {
                let tt = *t;
                self.pc = tt;
                proof {
                    assert(step_spec(old(self)@)->Ok_0 =~= self@);
                }
                Ok(())
            },
            Instruction::BZ(t) => {
                let tt = *t;
                let l = self.stack.len();
                if l < 1 {
                    return Err(VmFault::StackUnderflow);
                }
                let c = self.stack[l - 1];
                self.stack.truncate(l - 1);
                self.pc = if c == 0 {
                    tt
                } else {
                    pc1
                };
                proof {
                    assert(step_spec(old(self)@)->Ok_0 =~= self@);
                }
                Ok(())
            },
            Instruction::BNZ(t) => {
                let tt = *t;
                let l = self.stack.len();
                if l < 1 {
                    return Err(VmFault::StackUnderflow);
                }
                let c = self.stack[l - 1];
                self.stack.truncate(l - 1);
                self.pc = if c != 0 {
                    tt
                } else {
                    pc1
                };
                proof {
                    assert(step_spec(old(self)@)->Ok_0 =~= self@);
                }
                Ok(())
            },
            Instruction::JSR(t) => {
                let tt = *t;
                if self.pc as u64 >= i64::MAX as u64 {
                    return Err(VmFault::ArithmeticOverflow);
                }
                self.stack.push((self.pc + 1) as i64);
                self.pc = tt;
                proof {
                    assert(step_spec(old(self)@)->Ok_0 =~= self@);
                }
                Ok(())
            },
            Instruction::ENT(n) => {
                let slots = *n;
                if self.bp as u64 > i64::MAX as u64 {
                    return Err(VmFault::ArithmeticOverflow);
                }
                let l = self.stack.len();
                let room = match l.checked_add(1) {
                    None => None,
                    Some(l1) => l1.checked_add(slots),
                };
                match room {
                    None => Err(VmFault::ArithmeticOverflow),
                    Some(_total) => {
                        self.stack.push(self.bp as i64);
                        self.bp = self.stack.len();
                        push_zeros(&mut self.stack, slots);
                        self.pc = pc1;
                        proof {
                            assert(step_spec(old(self)@)->Ok_0 =~= self@);
                        }
                        Ok(())
                    },
                }
            },
            Instruction::ADJ(n) => {
                let k = *n;
                let l = self.stack.len();
                let keep = if l >= k {
                    l - k
                } else {
                    0
                };
                self.stack.truncate(keep);
                self.pc = pc1;
                proof {
                    assert(step_spec(old(self)@)->Ok_0 =~= self@);
                }
                Ok(())
            },
            Instruction::LEV => {
                let bp = self.bp;
                if bp < 1 || bp > self.stack.len() {
                    return Err(VmFault::AddressOutOfRange);
                }
                let saved = self.stack[bp - 1];
                if saved < 0 || saved as u64 > usize::MAX as u64 {
                    return Err(VmFault::AddressOutOfRange);
                }
                if bp < 2 {
                    return Err(VmFault::StackUnderflow);
                }
                let ret = self.stack[bp - 2];
                if ret < 0 || ret as u64 > usize::MAX as u64 {
                    return Err(VmFault::AddressOutOfRange);
                }
                self.stack.truncate(bp - 2);
                self.bp = saved as usize;
                self.pc = ret as usize;
                proof {
                    assert(step_spec(old(self)@)->Ok_0 =~= self@);
                }
                Ok(())
            },
            Instruction::LEA(off) => {
                let o = *off;
                match self.bp.checked_add(o) {
                    None => Err(VmFault::ArithmeticOverflow),
                    Some(addr) => {
                        if addr as u64 > i64::MAX as u64 {
                            return Err(VmFault::ArithmeticOverflow);
                        }
                        self.stack.push(addr as i64);
                        self.pc = pc1;
                        proof {
                            assert(step_spec(old(self)@)->Ok_0 =~= self@);
                        }
                        Ok(())
                    },
                }
            },
            Instruction::LI => {
                let l = self.stack.len();
                if l < 1 {
                    return Err(VmFault::StackUnderflow);
                }
                let addr = self.stack[l - 1];
                if addr < 0 || addr as u64 >= (l - 1) as u64 {
                    return Err(VmFault::AddressOutOfRange);
                }
                let ai = addr as usize;
                self.stack.truncate(l - 1);
                let v = self.stack[ai];
                self.stack.push(v);
                self.pc = pc1;
                proof {
                    assert(step_spec(old(self)@)->Ok_0 =~= self@);
                }
                Ok(())
            },
            Instruction::LC => {
                let l = self.stack.len();
                if l < 1 {
                    return Err(VmFault::StackUnderflow);
                }
                let addr = self.stack[l - 1];
                if addr < 0 || addr as u64 >= (l - 1) as u64 {
                    return Err(VmFault::AddressOutOfRange);
                }
                let ai = addr as usize;
                self.stack.truncate(l - 1);
                let v = self.stack[ai] & 0xFF;
                self.stack.push(v);
                self.pc = pc1;
                proof {
                    assert(step_spec(old(self)@)->Ok_0 =~= self@);
                }
                Ok(())
            },
            Instruction::SI => {
                let l = self.stack.len();
                if l < 2 {
                    return Err(VmFault::StackUnderflow);
                }
                let val = self.stack[l - 1];
                let addr = self.stack[l - 2];
                if addr < 0 || addr as u64 >= (l - 2) as u64 {
                    return Err(VmFault::AddressOutOfRange);
                }
                let ai = addr as usize;
                self.stack.truncate(l - 2);
                self.stack[ai] = val;
                self.pc = pc1;
                proof {
                    assert(step_spec(old(self)@)->Ok_0 =~= self@);
                }
                Ok(())
            },
            Instruction::SC => {
                let l = self.stack.len();
                if l < 2 {
                    return Err(VmFault::StackUnderflow);
                }
                let val = self.stack[l - 1] & 0xFF;
                let addr = self.stack[l - 2];
                if addr < 0 || addr as u64 >= (l - 2) as u64 {
                    return Err(VmFault::AddressOutOfRange);
                }
                let ai = addr as usize;
                self.stack.truncate(l - 2);
                self.stack[ai] = val;
                self.pc = pc1;
                proof {
                    assert(step_spec(old(self)@)->Ok_0 =~= self@);
                }
                Ok(())
            },
            Instruction::EXIT => {
                let drop_count: usize = match &self.program[0] {
                    Instruction::ENT(n) => {
                        if self.stack.len() > *n {
                            *n + 1
                        } else {
                            0
                        }
                    },
                    _ => 0,
                };
                if drop_count > 0 {
                    let tail = self.stack.split_off(drop_count);
                    self.stack = tail;
                }
                self.running = false;
                self.pc = pc1;
                proof {
                    assert(step_spec(old(self)@)->Ok_0 =~= self@);
                }
                Ok(())
            },
            Instruction::MALC => {
                let l = self.stack.len();
                if l < 2 {
                    return Err(VmFault::StackUnderflow);
                }
                self.stack.truncate(l - 2);
                self.stack.push(0);
                self.stack.push(0x1000);
                self.pc = pc1;
                proof {
                    assert(step_spec(old(self)@)->Ok_0 =~= self@);
                }
                Ok(())
            },
            Instruction::FREE => {
                let l = self.stack.len();
                let keep = if l >= 1 {
                    l - 1
                } else {
                    0
                };
                self.stack.truncate(keep);
                self.pc = pc1;
                proof {
                    assert(step_spec(old(self)@)->Ok_0 =~= self@);
                }
                Ok(())
            },
            Instruction::MSET => {
                let l = self.stack.len();
                let keep = if l >= 3 {
                    l - 3
                } else {
                    0
                };
                self.stack.truncate(keep);
                self.pc = pc1;
                proof {
                    assert(step_spec(old(self)@)->Ok_0 =~= self@);
                }
                Ok(())
            },
            Instruction::MCMP => {
                let l = self.stack.len();
                let keep = if l >= 3 {
                    l - 3
                } else {
                    0
                };
                self.stack.truncate(keep);
                self.stack.push(0);
                self.pc = pc1;
                proof {
                    assert(step_spec(old(self)@)->Ok_0 =~= self@);
                }
                Ok(())
            },
            Instruction::OPEN => {
                let l = self.stack.len();
                let keep = if l >= 2 {
                    l - 2
                } else {
                    0
                };
                self.stack.truncate(keep);
                self.stack.push(3);
                self.pc = pc1;
                proof {
                    assert(step_spec(old(self)@)->Ok_0 =~= self@);
                }
                Ok(())
            },
            Instruction::READ => {
                let l = self.stack.len();
                let keep = if l >= 3 {
                    l - 3
                } else {
                    0
                };
                self.stack.truncate(keep);
                self.stack.push(10);
                self.pc = pc1;
                proof {
                    assert(step_spec(old(self)@)->Ok_0 =~= self@);
                }
                Ok(())
            },
            Instruction::CLOS => {
                let l = self.stack.len();
                let keep = if l >= 1 {
                    l - 1
                } else {
                    0
                };
                self.stack.truncate(keep);
                self.stack.push(0);
                self.pc = pc1;
                proof {
                    assert(step_spec(old(self)@)->Ok_0 =~= self@);
                }
                Ok(())
            },
            Instruction::PrintfStr(s) => {
                let text = s.clone();
                self.output.push(text);
                self.pc = pc1;
                proof {
                    assert(step_spec(old(self)@)->Ok_0 =~= self@);
                }
                Ok(())
            },
        }
    }

    /// Run the machine until it halts, faults, or has taken `max_steps`
    /// steps.  The final state is always reachable from the starting state
    /// by successful steps; the outcome says why the machine stopped.
    pub fn run(&mut self, max_steps: usize) -> (r: RunOutcome)
        ensures
            exists|n: nat|
                n <= max_steps && #[trigger] run_n(old(self)@, n) == Some(final(self)@),
            (r is Halted ==> !final(self)@.running),
            (r is OutOfSteps ==> final(self)@.running && run_n(old(self)@, max_steps as nat)
                == Some(final(self)@)),
            (r matches RunOutcome::Fault(f) ==> final(self)@.running && step_spec(final(self)@)
                == Err::<VmState, VmFault>(f)),
    {
        let ghost s0 = old(self)@;
        let mut i: usize = 0;
        while self.running && i < max_steps
            invariant
                i <= max_steps,
                s0 == old(self)@,
                run_n(s0, i as nat) == Some(self@),
            decreases max_steps - i,
        {
            let ghost before = self@;
            match self.step() {
                Ok(()) => {
                    proof {
                        lemma_run_n_snoc(s0, before, i as nat);
                    }
                    i = i + 1;
                },
                Err(f) => {
                    proof {
                        assert(run_n(s0, i as nat) == Some(self@));
                    }
                    return RunOutcome::Fault(f);
                },
            }
        }
        if self.running {
            RunOutcome::OutOfSteps
        } else {
            RunOutcome::Halted
        }
    }
}

/// A fixed demonstration program: push 7 and 8, add them, halt.
pub fn generate_instructions_from_ast(_ast: bool) -> (r: Vec<Instruction>)
    ensures
        r@ == seq![
            Instruction::IMM(7i64),
            Instruction::IMM(8i64),
            Instruction::ADD,
            Instruction::EXIT,
        ],
{
    let mut r: Vec<Instruction> = Vec::new();
    r.push(Instruction::IMM(7));
    r.push(Instruction::IMM(8));
    r.push(Instruction::ADD);
    r.push(Instruction::EXIT);
    proof {
        assert(r@ =~= seq![
            Instruction::IMM(7i64),
            Instruction::IMM(8i64),
            Instruction::ADD,
            Instruction::EXIT,
        ]);
    }
    r
}

/// Append `n` zero slots to the stack, as `ENT` reserves its frame.
fn push_zeros(stack: &mut Vec<i64>, n: usize)
    ensures
        final(stack)@ == old(stack)@ + Seq::new(n as nat, |i: int| 0i64),
{
    let ghost base = stack@;
    let mut i: usize = 0;
    while i < n
        invariant
            i <= n,
            stack@ == base + Seq::new(i as nat, |j: int| 0i64),
        decreases n - i,
    {
        stack.push(0);
        i = i + 1;
        proof {
            assert(stack@ =~= base + Seq::new(i as nat, |j: int| 0i64));
        }
    }
    proof {
        assert(stack@ =~= base + Seq::new(n as nat, |j: int| 0i64));
    }
}

} // verus!
