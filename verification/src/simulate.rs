use vstd::prelude::*;

use crate::error::{ErrV, Error, ErrorKindV, SimulationError};
use crate::op::{
    view_block, wf_op, wf_op_type, wf_ops, wf_stars, If, IfV, Intrinsic, Op, OpBlock, OpType,
    OpTypeV, OpV, While, WhileV,
};
use std::io::Write;
use crate::program::{FileLocation, LocV};

verus! {

/// An observability-only event: evaluation goes on with the wrapped or
/// coerced value, but the event is recorded.
#[derive(Clone, Copy, Debug, PartialEq, Eq, Structural)]
pub enum WarningKind {
    /// `+` or `-` wrapped around 64 bits.
    Overflow(Intrinsic),
    /// A value other than 0 or 1 was used as a boolean condition.
    NonBinaryCondition(u64),
}

/// A recorded observability event and the operation location it belongs to.
#[derive(Debug)]
pub struct Warning {
    pub kind: WarningKind,
    pub loc: FileLocation,
}

/// Mathematical value of a [`Warning`].
pub struct WarningV {
    pub kind: WarningKind,
    pub loc: LocV,
}

impl View for Warning {
    type V = WarningV;

    open spec fn view(&self) -> WarningV {
        WarningV { kind: self.kind, loc: self.loc@ }
    }
}

/// The evaluator's LIFO operand stack of 64-bit unsigned integers.
#[derive(Debug)]
pub struct Stack(pub Vec<u64>);

impl View for Stack {
    type V = Seq<u64>;

    open spec fn view(&self) -> Seq<u64> {
        self.0@
    }
}

impl Stack {
    pub fn new() -> (r: Self)
        ensures
            r@ == Seq::<u64>::empty(),
    {
        Stack(Vec::new())
    }

    pub fn push(&mut self, val: u64)
        ensures
            final(self)@ == old(self)@.push(val),
    {
        self.0.push(val);
    }

    /// Pops the top of the stack; an empty stack is a fatal
    /// `StackUnderflow`, raised without a location.
    pub fn pop(&mut self) -> (r: Result<u64, Error>)
        ensures
            match r {
                Ok(v) => old(self)@.len() > 0 && v == old(self)@.last() && final(self)@ == old(
                    self,
                )@.drop_last(),
                Err(e) => old(self)@.len() == 0 && final(self)@ == old(self)@ && e@
                    == underflow_err(),
            },
    {
        match self.0.pop() {
            Some(val) => Ok(val),
            None => Err(SimulationError::StackUnderflow.into_error()),
        }
    }
}

/// The whole evaluator state: the value stack, the lines `print` has
/// emitted, and the observability events recorded so far.
#[derive(Debug)]
pub struct Machine {
    pub stack: Stack,
    pub output: Vec<Vec<u8>>,
    pub warnings: Vec<Warning>,
}

/// Mathematical value of a [`Machine`].
pub struct StateV {
    pub stack: Seq<u64>,
    pub output: Seq<Seq<u8>>,
    pub warnings: Seq<WarningV>,
}

impl View for Machine {
    type V = StateV;

    open spec fn view(&self) -> StateV {
        StateV {
            stack: self.stack@,
            output: self.output@.map_values(|line: Vec<u8>| line@),
            warnings: self.warnings@.map_values(|w: Warning| w@),
        }
    }
}

/// The state a run starts from: everything empty.
pub open spec fn init_state() -> StateV {
    StateV {
        stack: Seq::<u64>::empty(),
        output: Seq::<Seq<u8>>::empty(),
        warnings: Seq::<WarningV>::empty(),
    }
}

impl Machine {
    pub fn new() -> (r: Self)
        ensures
            r@ == init_state(),
    {
        let r = Machine { stack: Stack::new(), output: Vec::new(), warnings: Vec::new() };
        proof {
            assert(r@.output =~= init_state().output);
            assert(r@.warnings =~= init_state().warnings);
            assert(r@ == init_state());
        }
        r
    }
}

// ------------------------------------------------------------------
// The line `print` emits: decimal value, then the zero-padded 16-digit
// lowercase hex form with a `0x` prefix, e.g. `70 (0x0000000000000046)`.
// ------------------------------------------------------------------
/// Decimal digits of `v`, most significant first; empty for zero.
pub open spec fn dec_digits_rec(v: nat) -> Seq<u8>
    decreases v,
{
    if v == 0 {
        Seq::empty()
    } else {
        dec_digits_rec(v / 10).push((48 + v % 10) as u8)
    }
}

/// Decimal form of `v` in ASCII, `0` included.
pub open spec fn dec_bytes(v: nat) -> Seq<u8> {
    if v == 0 {
        seq![48u8]
    } else {
        dec_digits_rec(v)
    }
}

/// The lowercase ASCII hex digit with value `d` (for `d < 16`).
pub open spec fn hex_digit(d: nat) -> u8 {
    if d < 10 {
        (48 + d) as u8
    } else {
        (87 + d) as u8
    }
}

/// The `n` low hex digits of `v`, most significant first.
pub open spec fn hex_digits(v: nat, n: nat) -> Seq<u8>
    decreases n,
{
    if n == 0 {
        Seq::empty()
    } else {
        hex_digits(v / 16, (n - 1) as nat).push(hex_digit(v % 16))
    }
}

/// The full line `print` emits for `v` (without the line terminator):
/// `<decimal> (0x<16 hex digits>)`.
pub open spec fn print_line(v: u64) -> Seq<u8> {
    dec_bytes(v as nat) + seq![32u8, 40u8, 48u8, 120u8] + hex_digits(v as nat, 16) + seq![41u8]
}

/// Appends the decimal digits of `v` (most significant first, nothing for
/// zero) to `out`.
fn push_dec_digits(out: &mut Vec<u8>, v: u64)
    ensures
        final(out)@ == old(out)@ + dec_digits_rec(v as nat),
    decreases v,
{
    if v == 0 {
        proof {
            assert(final(out)@ =~= old(out)@ + dec_digits_rec(0));
        }
    } else {
        push_dec_digits(out, v / 10);
        out.push(48 + (v % 10) as u8);
        proof {
            assert(final(out)@ =~= old(out)@ + dec_digits_rec(v as nat));
        }
    }
}

/// Appends the `n` low hex digits of `v`, most significant first, to `out`.
fn push_hex_digits(out: &mut Vec<u8>, v: u64, n: u64)
    ensures
        final(out)@ == old(out)@ + hex_digits(v as nat, n as nat),
    decreases n,
{
    if n == 0 {
        proof {
            assert(final(out)@ =~= old(out)@ + hex_digits(v as nat, 0));
        }
    } else {
        push_hex_digits(out, v / 16, n - 1);
        let d = (v % 16) as u8;
        if d < 10 {
            out.push(48 + d);
        } else {
            out.push(87 + d);
        }
        proof {
            assert(final(out)@ =~= old(out)@ + hex_digits(v as nat, n as nat));
        }
    }
}

/// Renders the line `print` emits for `v`.
pub fn format_print_line(v: u64) -> (r: Vec<u8>)
    ensures
        r@ == print_line(v),
{
    let mut out: Vec<u8> = Vec::new();
    push_dec_digits(&mut out, v);
    if v == 0 {
        out.push(48);
    }
    proof {
        assert(out@ =~= dec_bytes(v as nat));
    }
    out.push(32);  // ' '
    out.push(40);  // '('
    out.push(48);  // '0'
    out.push(120);  // 'x'
    push_hex_digits(&mut out, v, 16);
    out.push(41);  // ')'
    proof {
        assert(out@ =~= print_line(v));
    }
    out
}

// ------------------------------------------------------------------
// The meaning of a program, as a total function from syntax, machine
// state and loop budget to the next state or a fault.
// ------------------------------------------------------------------
/// Result of evaluating a piece of syntax.
pub enum EvalOut {
    /// Evaluation went through; this is the state after.
    Next(StateV),
    /// Evaluation halted on this fault.
    Fault(ErrV),
}

/// A `StackUnderflow` fault as first raised: no location, no notes.
pub open spec fn underflow_err() -> ErrV {
    ErrV {
        kind: ErrorKindV::Simulation(SimulationError::StackUnderflow),
        loc: None,
        infos: Seq::empty(),
    }
}

/// A `DivideByZero` fault as first raised.
pub open spec fn div_zero_err() -> ErrV {
    ErrV {
        kind: ErrorKindV::Simulation(SimulationError::DivideByZero),
        loc: None,
        infos: Seq::empty(),
    }
}

/// A `StepLimit` fault as first raised.
pub open spec fn step_limit_err() -> ErrV {
    ErrV {
        kind: ErrorKindV::Simulation(SimulationError::StepLimit),
        loc: None,
        infos: Seq::empty(),
    }
}

/// Attaches a location to an error that has none yet; an error that
/// already carries one passes through unchanged.
pub open spec fn with_loc(e: ErrV, loc: LocV) -> ErrV {
    if e.loc is Some {
        e
    } else {
        ErrV { loc: Some(loc), ..e }
    }
}

/// Truthiness of a popped condition value: anything above zero.
pub open spec fn cond_true(v: u64) -> bool {
    v > 0
}

/// Records the non-binary-condition event if `v` is neither 0 nor 1.
pub open spec fn note_cond(st: StateV, v: u64, loc: LocV) -> StateV {
    if v != 0 && v != 1 {
        StateV {
            warnings: st.warnings.push(WarningV { kind: WarningKind::NonBinaryCondition(v), loc }),
            ..st
        }
    } else {
        st
    }
}

/// Effect of one intrinsic on the machine state. Faults are raised without
/// a location; the enclosing block attaches the operation's.
pub open spec fn eval_intrinsic(i: Intrinsic, loc: LocV, st: StateV) -> EvalOut {
    let len = st.stack.len();
    match i {
        Intrinsic::Dup => if len < 1 {
            EvalOut::Fault(underflow_err())
        } else {
            EvalOut::Next(StateV { stack: st.stack.push(st.stack.last()), ..st })
        },
        Intrinsic::Swap => if len < 2 {
            EvalOut::Fault(underflow_err())
        } else {
            let b = st.stack[len - 1];
            let a = st.stack[len - 2];
            EvalOut::Next(StateV { stack: st.stack.take(len - 2).push(b).push(a), ..st })
        },
        Intrinsic::Drop => if len < 1 {
            EvalOut::Fault(underflow_err())
        } else {
            EvalOut::Next(StateV { stack: st.stack.drop_last(), ..st })
        },
        Intrinsic::Print => if len < 1 {
            EvalOut::Fault(underflow_err())
        } else {
            EvalOut::Next(
                StateV {
                    stack: st.stack.drop_last(),
                    output: st.output.push(print_line(st.stack.last())),
                    ..st
                },
            )
        },
        Intrinsic::Over => if len < 2 {
            EvalOut::Fault(underflow_err())
        } else {
            let b = st.stack[len - 1];
            let a = st.stack[len - 2];
            EvalOut::Next(StateV { stack: st.stack.take(len - 2).push(a).push(b).push(a), ..st })
        },
        Intrinsic::Rot => if len < 3 {
            EvalOut::Fault(underflow_err())
        } else {
            let c = st.stack[len - 1];
            let b = st.stack[len - 2];
            let a = st.stack[len - 3];
            EvalOut::Next(StateV { stack: st.stack.take(len - 3).push(b).push(c).push(a), ..st })
        },
        Intrinsic::Plus => if len < 2 {
            EvalOut::Fault(underflow_err())
        } else {
            let b = st.stack[len - 1];
            let a = st.stack[len - 2];
            let wrapped = ((a + b) % 0x1_0000_0000_0000_0000) as u64;
            let warned = if a + b > u64::MAX {
                StateV {
                    warnings: st.warnings.push(
                        WarningV { kind: WarningKind::Overflow(Intrinsic::Plus), loc },
                    ),
                    ..st
                }
            } else {
                st
            };
            EvalOut::Next(StateV { stack: st.stack.take(len - 2).push(wrapped), ..warned })
        },
        Intrinsic::Subtract => if len < 2 {
            EvalOut::Fault(underflow_err())
        } else {
            let b = st.stack[len - 1];
            let a = st.stack[len - 2];
            let wrapped = ((a - b) % 0x1_0000_0000_0000_0000) as u64;
            let warned = if a < b {
                StateV {
                    warnings: st.warnings.push(
                        WarningV { kind: WarningKind::Overflow(Intrinsic::Subtract), loc },
                    ),
                    ..st
                }
            } else {
                st
            };
            EvalOut::Next(StateV { stack: st.stack.take(len - 2).push(wrapped), ..warned })
        },
        Intrinsic::Multiply => if len < 2 {
            EvalOut::Fault(underflow_err())
        } else {
            let b = st.stack[len - 1];
            let a = st.stack[len - 2];
            let wrapped = ((a * b) % 0x1_0000_0000_0000_0000) as u64;
            EvalOut::Next(StateV { stack: st.stack.take(len - 2).push(wrapped), ..st })
        },
        Intrinsic::DivMod => if len < 2 {
            EvalOut::Fault(underflow_err())
        } else {
            let b = st.stack[len - 1];
            let a = st.stack[len - 2];
            if b == 0 {
                EvalOut::Fault(div_zero_err())
            } else {
                EvalOut::Next(
                    StateV {
                        stack: st.stack.take(len - 2).push((a as nat / b as nat) as u64).push(
                            (a as nat % b as nat) as u64,
                        ),
                        ..st
                    },
                )
            }
        },
    }
}

/// Evaluates a block: its operations in order, stopping at the first
/// fault. A fault that does not carry a location yet receives the failing
/// operation's.
pub open spec fn eval_ops(ops: Seq<OpV>, st: StateV, budget: nat) -> EvalOut
    decreases ops, 3nat, 0nat,
{
    if ops.len() == 0 {
        EvalOut::Next(st)
    } else {
        match eval_op(ops[0], st, budget) {
            EvalOut::Next(st2) => eval_ops(ops.drop_first(), st2, budget),
            EvalOut::Fault(e) => EvalOut::Fault(with_loc(e, ops[0].loc)),
        }
    }
}

/// Evaluates one operation.
pub open spec fn eval_op(op: OpV, st: StateV, budget: nat) -> EvalOut
    decreases op, 3nat, 0nat,
{
    match op.typ {
        OpTypeV::PushInt(v) => EvalOut::Next(StateV { stack: st.stack.push(v), ..st }),
        OpTypeV::Intrinsic(i) => eval_intrinsic(i, op.loc, st),
        OpTypeV::If(f) => eval_if(f, op.loc, st, budget),
        OpTypeV::While(w) => eval_while(w, st, budget),
    }
}

/// Evaluates an `if`: pops the condition and takes the `if` branch when it
/// is true, otherwise scans the `if*` arms.
pub open spec fn eval_if(f: IfV, loc: LocV, st: StateV, budget: nat) -> EvalOut
    decreases f, 3nat, 0nat,
{
    if st.stack.len() == 0 {
        EvalOut::Fault(underflow_err())
    } else {
        let v = st.stack.last();
        let st1 = note_cond(StateV { stack: st.stack.drop_last(), ..st }, v, loc);
        if cond_true(v) {
            eval_ops(f.if_block, st1, budget)
        } else {
            eval_stars(f, 0, st1, budget)
        }
    }
}

/// Scans the `if*` arms from index `i`: evaluates each arm's condition
/// block in turn and runs the first arm whose condition is true; with none
/// left, runs the `else` block if there is one.
pub open spec fn eval_stars(f: IfV, i: int, st: StateV, budget: nat) -> EvalOut
    decreases f, 2nat, f.if_star_blocks.len() - i,
{
    if i < 0 || i >= f.if_star_blocks.len() {
        match f.else_block {
            Some(b) => eval_ops(b, st, budget),
            None => EvalOut::Next(st),
        }
    } else {
        let star = f.if_star_blocks[i];
        match eval_ops(star.cond, st, budget) {
            EvalOut::Fault(e) => EvalOut::Fault(e),
            EvalOut::Next(st2) => if st2.stack.len() == 0 {
                EvalOut::Fault(underflow_err())
            } else {
                let v = st2.stack.last();
                let st3 = note_cond(StateV { stack: st2.stack.drop_last(), ..st2 }, v, star.loc);
                if cond_true(v) {
                    eval_ops(star.inner, st3, budget)
                } else {
                    eval_stars(f, i + 1, st3, budget)
                }
            },
        }
    }
}

/// Evaluates a `while`: runs the condition block once, then loops through
/// [`eval_while_iter`].
pub open spec fn eval_while(w: WhileV, st: StateV, budget: nat) -> EvalOut
    decreases w, 3nat, 0nat,
{
    match eval_ops(w.cond_block, st, budget) {
        EvalOut::Fault(e) => EvalOut::Fault(e),
        EvalOut::Next(st1) => eval_while_iter(w, st1, budget, budget),
    }
}

/// One test-and-run round of a `while`: pops the condition (underflow here
/// is located at the `do` marker), stops when it is false, and otherwise
/// spends one step of `left` to run the body and the condition block
/// again.
pub open spec fn eval_while_iter(w: WhileV, st: StateV, budget: nat, left: nat) -> EvalOut
    decreases w, 2nat, left,
{
    if st.stack.len() == 0 {
        EvalOut::Fault(with_loc(underflow_err(), w.do_loc->0))
    } else {
        let v = st.stack.last();
        let st1 = note_cond(StateV { stack: st.stack.drop_last(), ..st }, v, w.do_loc->0);
        if !cond_true(v) {
            EvalOut::Next(st1)
        } else if left == 0 {
            EvalOut::Fault(step_limit_err())
        } else {
            match eval_ops(w.do_block, st1, budget) {
                EvalOut::Fault(e) => EvalOut::Fault(e),
                EvalOut::Next(st2) => match eval_ops(w.cond_block, st2, budget) {
                    EvalOut::Fault(e) => EvalOut::Fault(e),
                    EvalOut::Next(st3) => eval_while_iter(w, st3, budget, (left - 1) as nat),
                },
            }
        }
    }
}

// ------------------------------------------------------------------
// The executable evaluator, proved equal to the spec-level one.
// ------------------------------------------------------------------
/// Writes one line of program output to standard output.
///
/// Relies on `std::io::stdout` and the `writeln!` macro: the only effect is
/// that the bytes, which the caller accounts for in the machine state,
/// appear on the host's standard output.
#[verifier::external_body]
fn emit_line(line: &Vec<u8>) {
    let text = String::from_utf8_lossy(line.as_slice());
    let _ = writeln!(std::io::stdout(), "{}", text);
}

/// Applies the truthiness rule to a popped condition value, recording the
/// non-binary-condition event when the value is neither 0 nor 1.
fn is_condition_true(m: &mut Machine, cond: u64, loc: &FileLocation) -> (r: bool)
    ensures
        final(m)@ == note_cond(old(m)@, cond, loc@),
        r == cond_true(cond),
{
    if cond != 0 && cond != 1 {
        let ghost before = m@;
        m.warnings.push(Warning { kind: WarningKind::NonBinaryCondition(cond), loc: loc.clone() });
        proof {
            assert(m@.warnings =~= before.warnings.push(
                WarningV { kind: WarningKind::NonBinaryCondition(cond), loc: loc@ },
            ));
        }
    }
    cond > 0
}

/// Executes one intrinsic against the machine state.
fn simulate_intrinsic(m: &mut Machine, intrinsic: &Intrinsic, loc: &FileLocation) -> (r: Result<
    (),
    Error,
>)
    ensures
        match r {
            Ok(_) => eval_intrinsic(*intrinsic, loc@, old(m)@) == EvalOut::Next(final(m)@),
            Err(e) => eval_intrinsic(*intrinsic, loc@, old(m)@) == EvalOut::Fault(e@),
        },
{
    let ghost st = old(m)@;
    match intrinsic {
        Intrinsic::Dup => {
            let a = match m.stack.pop() {
                Ok(v) => v,
                Err(e) => return Err(e),
            };
            m.stack.push(a);
            m.stack.push(a);
            proof {
                assert(m@.stack =~= st.stack.push(st.stack.last()));
            }
        },
        Intrinsic::Swap => {
            let b = match m.stack.pop() {
                Ok(v) => v,
                Err(e) => return Err(e),
            };
            let a = match m.stack.pop() {
                Ok(v) => v,
                Err(e) => return Err(e),
            };
            m.stack.push(b);
            m.stack.push(a);
            proof {
                assert(m@.stack =~= st.stack.take(st.stack.len() - 2).push(b).push(a));
            }
        },
        Intrinsic::Drop => {
            let _ = match m.stack.pop() {
                Ok(v) => v,
                Err(e) => return Err(e),
            };
        },
        Intrinsic::Print => {
            let a = match m.stack.pop() {
                Ok(v) => v,
                Err(e) => return Err(e),
            };
            let line = format_print_line(a);
            emit_line(&line);
            let ghost before = m@;
            m.output.push(line);
            proof {
                assert(m@.output =~= before.output.push(print_line(a)));
            }
        },
        Intrinsic::Over => {
            let b = match m.stack.pop() {
                Ok(v) => v,
                Err(e) => return Err(e),
            };
            let a = match m.stack.pop() {
                Ok(v) => v,
                Err(e) => return Err(e),
            };
            m.stack.push(a);
            m.stack.push(b);
            m.stack.push(a);
            proof {
                assert(m@.stack =~= st.stack.take(st.stack.len() - 2).push(a).push(b).push(a));
            }
        },
        Intrinsic::Rot => {
            let c = match m.stack.pop() {
                Ok(v) => v,
                Err(e) => return Err(e),
            };
            let b = match m.stack.pop() {
                Ok(v) => v,
                Err(e) => return Err(e),
            };
            let a = match m.stack.pop() {
                Ok(v) => v,
                Err(e) => return Err(e),
            };
            m.stack.push(b);
            m.stack.push(c);
            m.stack.push(a);
            proof {
                assert(m@.stack =~= st.stack.take(st.stack.len() - 3).push(b).push(c).push(a));
            }
        },
        Intrinsic::Plus => {
            let b = match m.stack.pop() {
                Ok(v) => v,
                Err(e) => return Err(e),
            };
            let a = match m.stack.pop() {
                Ok(v) => v,
                Err(e) => return Err(e),
            };
            if b > u64::MAX - a {
                m.warnings.push(
                    Warning { kind: WarningKind::Overflow(Intrinsic::Plus), loc: loc.clone() },
                );
            }
            let result = a.wrapping_add(b);
            m.stack.push(result);
            proof {
                assert(result as nat == (a + b) % 0x1_0000_0000_0000_0000);
                if b > u64::MAX - a {
                    assert(m@.warnings =~= st.warnings.push(
                        WarningV { kind: WarningKind::Overflow(Intrinsic::Plus), loc: loc@ },
                    ));
                }
                assert(m@.stack =~= st.stack.take(st.stack.len() - 2).push(
                    ((a + b) % 0x1_0000_0000_0000_0000) as u64,
                ));
            }
        },
        Intrinsic::Subtract => {
            let b = match m.stack.pop() {
                Ok(v) => v,
                Err(e) => return Err(e),
            };
            let a = match m.stack.pop() {
                Ok(v) => v,
                Err(e) => return Err(e),
            };
            if a < b {
                m.warnings.push(
                    Warning { kind: WarningKind::Overflow(Intrinsic::Subtract), loc: loc.clone() },
                );
            }
            let result = a.wrapping_sub(b);
            m.stack.push(result);
            proof {
                assert(result as nat == (a - b) % 0x1_0000_0000_0000_0000);
                if a < b {
                    assert(m@.warnings =~= st.warnings.push(
                        WarningV { kind: WarningKind::Overflow(Intrinsic::Subtract), loc: loc@ },
                    ));
                }
                assert(m@.stack =~= st.stack.take(st.stack.len() - 2).push(
                    ((a - b) % 0x1_0000_0000_0000_0000) as u64,
                ));
            }
        },
        Intrinsic::Multiply => {
            let b = match m.stack.pop() {
                Ok(v) => v,
                Err(e) => return Err(e),
            };
            let a = match m.stack.pop() {
                Ok(v) => v,
                Err(e) => return Err(e),
            };
            let result = a.wrapping_mul(b);
            m.stack.push(result);
            proof {
                assert(result as nat == (a * b) % 0x1_0000_0000_0000_0000) by {
                    vstd::arithmetic::mul::lemma_mul_nonnegative(a as int, b as int);
                };
                assert(m@.stack =~= st.stack.take(st.stack.len() - 2).push(
                    ((a * b) % 0x1_0000_0000_0000_0000) as u64,
                ));
            }
        },
        Intrinsic::DivMod => {
            let b = match m.stack.pop() {
                Ok(v) => v,
                Err(e) => return Err(e),
            };
            let a = match m.stack.pop() {
                Ok(v) => v,
                Err(e) => return Err(e),
            };
            if b == 0 {
                return Err(SimulationError::DivideByZero.into_error());
            }
            m.stack.push(a / b);
            m.stack.push(a % b);
            proof {
                assert(m@.stack =~= st.stack.take(st.stack.len() - 2).push(
                    (a as nat / b as nat) as u64,
                ).push((a as nat % b as nat) as u64));
            }
        },
    }
    Ok(())
}

/// Executes a block of operations in order, attaching the failing
/// operation's location to a fault that does not carry one yet.
#[verifier::loop_isolation(false)]
pub(crate) fn simulate_op_block(m: &mut Machine, op_block: &OpBlock, budget: u64) -> (r: Result<
    (),
    Error,
>)
    requires
        wf_ops(view_block(*op_block)),
    ensures
        match r {
            Ok(_) => eval_ops(view_block(*op_block), old(m)@, budget as nat) == EvalOut::Next(
                final(m)@,
            ),
            Err(e) => eval_ops(view_block(*op_block), old(m)@, budget as nat) == EvalOut::Fault(
                e@,
            ),
        },
    decreases *op_block,
{
    let ghost ops = view_block(*op_block);
    let ghost st0 = old(m)@;
    proof {
        crate::op::lemma_view_ops_index(op_block.0@);
        assert(ops.skip(0) =~= ops);
    }
    let n = op_block.0.len();
    let mut i: usize = 0;
    while i < n
        invariant
            n == op_block.0@.len(),
            ops == view_block(*op_block),
            ops.len() == n,
            forall|k: int| 0 <= k < n ==> ops[k] == crate::op::view_op(#[trigger] op_block.0@[k]),
            wf_ops(ops),
            0 <= i <= n,
            eval_ops(ops, st0, budget as nat) == eval_ops(ops.skip(i as int), m@, budget as nat),
        decreases n - i,
    {
        let ghost st_pre = m@;
        let op: &Op = &op_block.0[i];
        let ghost opv = ops[i as int];
        proof {
            assert(ops.skip(i as int)[0] == opv);
            assert(ops.skip(i as int).drop_first() =~= ops.skip(i as int + 1));
            assert(wf_op(opv));
        }
        let result: Result<(), Error> = match &op.typ {
            OpType::PushInt(val) => {
                m.stack.push(*val);
                Ok(())
            },
            OpType::Intrinsic(intr) => simulate_intrinsic(m, intr, &op.loc),
            OpType::If(if_op) => simulate_if(m, if_op, &op.loc, budget),
            OpType::While(while_op) => simulate_while(m, while_op, budget),
        };
        match result {
            Ok(_) => {
                proof {
                    assert(eval_op(opv, st_pre, budget as nat) == EvalOut::Next(m@));
                    assert(eval_ops(ops.skip(i as int), st_pre, budget as nat) == eval_ops(
                        ops.skip(i as int + 1),
                        m@,
                        budget as nat,
                    ));
                }
            },
            Err(err) => {
                proof {
                    assert(eval_op(opv, st_pre, budget as nat) == EvalOut::Fault(err@));
                    assert(eval_ops(ops.skip(i as int), st_pre, budget as nat) == EvalOut::Fault(
                        with_loc(err@, opv.loc),
                    ));
                }
                if err.has_loc() {
                    return Err(err);
                } else {
                    return Err(err.add_loc(op.loc.clone()));
                }
            },
        }
        i = i + 1;
    }
    proof {
        assert(ops.skip(n as int) =~= Seq::<OpV>::empty());
    }
    Ok(())
}

/// Executes an `if` construct: pops the condition, runs the `if` branch on
/// a true value, and otherwise scans the `if*` arms, falling back to the
/// `else` block if none matches.
#[verifier::loop_isolation(false)]
#[verifier::rlimit(50)]
fn simulate_if(m: &mut Machine, if_op: &If, if_loc: &FileLocation, budget: u64) -> (r: Result<
    (),
    Error,
>)
    requires
        wf_op_type(OpTypeV::If(crate::op::view_if(*if_op))),
    ensures
        match r {
            Ok(_) => eval_if(crate::op::view_if(*if_op), if_loc@, old(m)@, budget as nat)
                == EvalOut::Next(final(m)@),
            Err(e) => eval_if(crate::op::view_if(*if_op), if_loc@, old(m)@, budget as nat)
                == EvalOut::Fault(e@),
        },
    decreases *if_op,
{
    let ghost fv = crate::op::view_if(*if_op);
    let ghost st0 = old(m)@;
    let ghost whole = eval_if(fv, if_loc@, st0, budget as nat);
    let cond = match m.stack.pop() {
        Ok(v) => v,
        Err(e) => {
            proof {
                assert(whole == EvalOut::Fault(underflow_err()));
            }
            return Err(e);
        },
    };
    proof {
        assert(m@ == (StateV { stack: st0.stack.drop_last(), ..st0 }));
    }
    if is_condition_true(m, cond, if_loc) {
        proof {
            assert(whole == eval_ops(fv.if_block, m@, budget as nat));
        }
        return simulate_op_block(m, &if_op.if_block, budget);
    }
    proof {
        assert(whole == eval_stars(fv, 0, m@, budget as nat));
        crate::op::lemma_view_stars_index(if_op.if_star_blocks@);
    }
    let n = if_op.if_star_blocks.len();
    let mut i: usize = 0;
    while i < n
        invariant
            n == if_op.if_star_blocks@.len(),
            fv == crate::op::view_if(*if_op),
            whole == eval_if(fv, if_loc@, st0, budget as nat),
            fv.if_star_blocks.len() == n,
            forall|k: int|
                0 <= k < n ==> fv.if_star_blocks[k] == crate::op::view_star(
                    #[trigger] if_op.if_star_blocks@[k],
                ),
            wf_op_type(OpTypeV::If(fv)),
            0 <= i <= n,
            whole == eval_stars(fv, i as int, m@, budget as nat),
        decreases n - i,
    {
        let ghost st_pre = m@;
        let star = &if_op.if_star_blocks[i];
        let ghost starv = fv.if_star_blocks[i as int];
        proof {
            assert(wf_stars(fv.if_star_blocks));
            assert(wf_ops(starv.cond));
            assert(wf_ops(starv.inner));
        }
        match simulate_op_block(m, &star.cond, budget) {
            Ok(_) => {},
            Err(e) => {
                proof {
                    assert(whole == EvalOut::Fault(e@));
                }
                return Err(e);
            },
        }
        let ghost st_cond = m@;
        let cond2 = match m.stack.pop() {
            Ok(v) => v,
            Err(e) => {
                proof {
                    assert(whole == EvalOut::Fault(underflow_err()));
                }
                return Err(e);
            },
        };
        proof {
            assert(m@ == (StateV { stack: st_cond.stack.drop_last(), ..st_cond }));
        }
        if is_condition_true(m, cond2, &star.loc) {
            proof {
                assert(whole == eval_ops(starv.inner, m@, budget as nat));
            }
            return simulate_op_block(m, &star.inner, budget);
        }
        proof {
            assert(whole == eval_stars(fv, i as int + 1, m@, budget as nat));
        }
        i = i + 1;
    }
    match &if_op.else_block {
        Some(else_block) => {
            proof {
                assert(fv.else_block == Some(view_block(*else_block)));
                assert(whole == eval_ops(view_block(*else_block), m@, budget as nat));
            }
            simulate_op_block(m, else_block, budget)
        },
        None => {
            proof {
                assert(whole == EvalOut::Next(m@));
            }
            Ok(())
        },
    }
}

/// Executes a `while` construct: evaluates the condition block, then keeps
/// running body and condition while the popped value is true, spending one
/// step of the budget per pass.
#[verifier::loop_isolation(false)]
fn simulate_while(m: &mut Machine, while_op: &While, budget: u64) -> (r: Result<(), Error>)
    requires
        wf_op_type(OpTypeV::While(crate::op::view_while(*while_op))),
    ensures
        match r {
            Ok(_) => eval_while(crate::op::view_while(*while_op), old(m)@, budget as nat)
                == EvalOut::Next(final(m)@),
            Err(e) => eval_while(crate::op::view_while(*while_op), old(m)@, budget as nat)
                == EvalOut::Fault(e@),
        },
    decreases *while_op,
{
    let ghost wv = crate::op::view_while(*while_op);
    let ghost st0 = old(m)@;
    let do_loc: &FileLocation = match &while_op.do_loc {
        Some(l) => l,
        None => vstd::pervasive::unreached(),
    };
    match simulate_op_block(m, &while_op.cond_block, budget) {
        Ok(_) => {},
        Err(e) => {
            proof {
                assert(eval_while(wv, st0, budget as nat) == EvalOut::Fault(e@));
            }
            return Err(e);
        },
    }
    let ghost whole = eval_while_iter(wv, m@, budget as nat, budget as nat);
    proof {
        assert(eval_while(wv, st0, budget as nat) == whole);
    }
    let mut left: u64 = budget;
    loop
        invariant
            wv == crate::op::view_while(*while_op),
            wf_op_type(OpTypeV::While(wv)),
            wv.do_loc == Some(do_loc@),
            whole == eval_while(wv, st0, budget as nat),
            left <= budget,
            whole == eval_while_iter(wv, m@, budget as nat, left as nat),
        decreases left,
    {
        let ghost st_pre = m@;
        let cond = match m.stack.pop() {
            Ok(v) => v,
            Err(e) => {
                proof {
                    assert(whole == EvalOut::Fault(with_loc(underflow_err(), wv.do_loc->0)));
                }
                return Err(e.add_loc(do_loc.clone()));
            },
        };
        proof {
            assert(m@ == (StateV { stack: st_pre.stack.drop_last(), ..st_pre }));
        }
        if !is_condition_true(m, cond, do_loc) {
            proof {
                assert(whole == EvalOut::Next(m@));
            }
            return Ok(());
        }
        if left == 0 {
            proof {
                assert(whole == EvalOut::Fault(step_limit_err()));
            }
            return Err(SimulationError::StepLimit.into_error());
        }
        left = left - 1;
        let ghost st_body = m@;
        match simulate_op_block(m, &while_op.do_block, budget) {
            Ok(_) => {},
            Err(e) => {
                proof {
                    assert(whole == EvalOut::Fault(e@));
                }
                return Err(e);
            },
        }
        match simulate_op_block(m, &while_op.cond_block, budget) {
            Ok(_) => {},
            Err(e) => {
                proof {
                    assert(whole == EvalOut::Fault(e@));
                }
                return Err(e);
            },
        }
        proof {
            assert(whole == eval_while_iter(wv, m@, budget as nat, left as nat));
        }
    }
}

// ------------------------------------------------------------------
// Entry points and laws.
// ------------------------------------------------------------------
/// Runs a program against a fresh machine under the given per-loop step
/// budget and returns the outcome together with the final machine, whose
/// output and warnings a caller can inspect.
pub fn simulate_bounded(program: &crate::program::Program, budget: u64) -> (r: (
    Result<(), Error>,
    Machine,
))
    ensures
        match r.0 {
            Ok(_) => eval_ops(program.spec_root(), init_state(), budget as nat) == EvalOut::Next(
                r.1@,
            ),
            Err(e) => eval_ops(program.spec_root(), init_state(), budget as nat)
                == EvalOut::Fault(e@),
        },
{
    let mut machine = Machine::new();
    let result = simulate_op_block(&mut machine, program.root_block(), budget);
    (result, machine)
}

/// Runs a program against a fresh machine. Each `print` emits its line to
/// standard output as it executes. The step budget is the largest one the
/// evaluator takes, `u64::MAX` per loop.
pub fn simulate(program: &crate::program::Program) -> (r: Result<(), Error>)
    ensures
        match r {
            Ok(_) => eval_ops(program.spec_root(), init_state(), u64::MAX as nat) is Next,
            Err(e) => eval_ops(program.spec_root(), init_state(), u64::MAX as nat)
                == EvalOut::Fault(e@),
        },
{
    let (result, _) = simulate_bounded(program, u64::MAX);
    result
}

/// Law: an `if` construct evaluated with no value on the stack — whatever
/// its branches hold — fails at once with `StackUnderflow`, located at the
/// `if` itself.
pub proof fn lemma_if_underflows_on_empty_stack(op: OpV, st: StateV, budget: nat)
    requires
        op.typ is If,
        st.stack.len() == 0,
    ensures
        eval_ops(seq![op], st, budget) == EvalOut::Fault(
            ErrV {
                kind: ErrorKindV::Simulation(SimulationError::StackUnderflow),
                loc: Some(op.loc),
                infos: Seq::empty(),
            },
        ),
{
    assert(seq![op][0] == op);
    assert(eval_op(op, st, budget) == EvalOut::Fault(underflow_err()));
}

/// Law: for every value `a` and every starting state, `a dup +` pushes
/// `2 * a` reduced modulo 2^64, and records the wraparound warning exactly
/// when `2 * a` does not fit in 64 bits. Locations are arbitrary.
pub proof fn lemma_dup_plus_doubles(
    a: u64,
    st: StateV,
    l1: LocV,
    l2: LocV,
    l3: LocV,
    budget: nat,
)
    ensures
        eval_ops(
            seq![
                OpV { typ: OpTypeV::PushInt(a), loc: l1 },
                OpV { typ: OpTypeV::Intrinsic(Intrinsic::Dup), loc: l2 },
                OpV { typ: OpTypeV::Intrinsic(Intrinsic::Plus), loc: l3 },
            ],
            st,
            budget,
        ) == EvalOut::Next(
            StateV {
                stack: st.stack.push(((2 * a) % 0x1_0000_0000_0000_0000) as u64),
                output: st.output,
                warnings: if 2 * a > u64::MAX {
                    st.warnings.push(WarningV { kind: WarningKind::Overflow(Intrinsic::Plus), loc: l3 })
                } else {
                    st.warnings
                },
            },
        ),
{
    let ops = seq![
        OpV { typ: OpTypeV::PushInt(a), loc: l1 },
        OpV { typ: OpTypeV::Intrinsic(Intrinsic::Dup), loc: l2 },
        OpV { typ: OpTypeV::Intrinsic(Intrinsic::Plus), loc: l3 },
    ];
    let st1 = StateV { stack: st.stack.push(a), ..st };
    assert(eval_op(ops[0], st, budget) == EvalOut::Next(st1));
    let st2 = StateV { stack: st1.stack.push(a), ..st1 };
    assert(st1.stack.last() == a);
    assert(eval_op(ops[1], st1, budget) == EvalOut::Next(st2));
    let len = st2.stack.len();
    assert(st2.stack[len - 1] == a && st2.stack[len - 2] == a);
    assert(st2.stack.take(len - 2) =~= st.stack);
    let wrapped = ((a + a) % 0x1_0000_0000_0000_0000) as u64;
    let warned = if a + a > u64::MAX {
        StateV {
            warnings: st2.warnings.push(
                WarningV { kind: WarningKind::Overflow(Intrinsic::Plus), loc: l3 },
            ),
            ..st2
        }
    } else {
        st2
    };
    assert(eval_op(ops[2], st2, budget) == EvalOut::Next(
        StateV { stack: st2.stack.take(len - 2).push(wrapped), ..warned },
    ));
    let d1 = ops.drop_first();
    let d2 = d1.drop_first();
    let d3 = d2.drop_first();
    assert(d1[0] == ops[1]);
    assert(d2[0] == ops[2]);
    assert(d3 =~= Seq::<OpV>::empty());
    let st_final = StateV { stack: st2.stack.take(len - 2).push(wrapped), ..warned };
    assert(eval_ops(ops, st, budget) == eval_ops(d1, st1, budget));
    assert(eval_ops(d1, st1, budget) == eval_ops(d2, st2, budget));
    assert(eval_ops(d2, st2, budget) == eval_ops(d3, st_final, budget));
    assert(eval_ops(d3, st_final, budget) == EvalOut::Next(st_final));
    assert(st_final == (StateV {
        stack: st.stack.push(((2 * a) % 0x1_0000_0000_0000_0000) as u64),
        output: st.output,
        warnings: if 2 * a > u64::MAX {
            st.warnings.push(WarningV { kind: WarningKind::Overflow(Intrinsic::Plus), loc: l3 })
        } else {
            st.warnings
        },
    }));
}

/// Law: pushing `x`, `y`, `z` and rotating leaves the stack, bottom to
/// top, as `y z x`, whatever lay beneath; output and warnings are
/// untouched. Locations are arbitrary.
pub proof fn lemma_push3_rot(
    x: u64,
    y: u64,
    z: u64,
    st: StateV,
    l1: LocV,
    l2: LocV,
    l3: LocV,
    l4: LocV,
    budget: nat,
)
    ensures
        eval_ops(
            seq![
                OpV { typ: OpTypeV::PushInt(x), loc: l1 },
                OpV { typ: OpTypeV::PushInt(y), loc: l2 },
                OpV { typ: OpTypeV::PushInt(z), loc: l3 },
                OpV { typ: OpTypeV::Intrinsic(Intrinsic::Rot), loc: l4 },
            ],
            st,
            budget,
        ) == EvalOut::Next(StateV { stack: st.stack.push(y).push(z).push(x), ..st }),
{
    let ops = seq![
        OpV { typ: OpTypeV::PushInt(x), loc: l1 },
        OpV { typ: OpTypeV::PushInt(y), loc: l2 },
        OpV { typ: OpTypeV::PushInt(z), loc: l3 },
        OpV { typ: OpTypeV::Intrinsic(Intrinsic::Rot), loc: l4 },
    ];
    let st1 = StateV { stack: st.stack.push(x), ..st };
    let st2 = StateV { stack: st1.stack.push(y), ..st1 };
    let st3 = StateV { stack: st2.stack.push(z), ..st2 };
    assert(eval_op(ops[0], st, budget) == EvalOut::Next(st1));
    assert(eval_op(ops[1], st1, budget) == EvalOut::Next(st2));
    assert(eval_op(ops[2], st2, budget) == EvalOut::Next(st3));
    let len = st3.stack.len();
    assert(st3.stack[len - 1] == z && st3.stack[len - 2] == y && st3.stack[len - 3] == x);
    assert(st3.stack.take(len - 3) =~= st.stack);
    assert(eval_op(ops[3], st3, budget) == EvalOut::Next(
        StateV { stack: st.stack.push(y).push(z).push(x), ..st3 },
    ));
    let d1 = ops.drop_first();
    let d2 = d1.drop_first();
    let d3 = d2.drop_first();
    let d4 = d3.drop_first();
    assert(d1[0] == ops[1]);
    assert(d2[0] == ops[2]);
    assert(d3[0] == ops[3]);
    assert(d4 =~= Seq::<OpV>::empty());
    let st_final = StateV { stack: st.stack.push(y).push(z).push(x), ..st3 };
    assert(eval_ops(ops, st, budget) == eval_ops(d1, st1, budget));
    assert(eval_ops(d1, st1, budget) == eval_ops(d2, st2, budget));
    assert(eval_ops(d2, st2, budget) == eval_ops(d3, st3, budget));
    assert(eval_ops(d3, st3, budget) == eval_ops(d4, st_final, budget));
    assert(st_final == (StateV { stack: st.stack.push(y).push(z).push(x), ..st }));
}

proof fn lemma_stuck_condition_spends_all(w: WhileV, st: StateV, budget: nat, left: nat)
    requires
        w.cond_block.len() == 1,
        w.cond_block[0].typ == OpTypeV::PushInt(1),
        w.do_block == Seq::<OpV>::empty(),
        w.do_loc is Some,
    ensures
        eval_while_iter(w, StateV { stack: st.stack.push(1), ..st }, budget, left)
            == EvalOut::Fault(step_limit_err()),
    decreases left,
{
    let st0 = StateV { stack: st.stack.push(1), ..st };
    assert(st0.stack.last() == 1);
    let st1 = StateV { stack: st0.stack.drop_last(), ..st0 };
    assert(note_cond(st1, 1, w.do_loc->0) == st1);
    if left > 0 {
        assert(eval_ops(w.do_block, st1, budget) == EvalOut::Next(st1));
        assert(eval_op(w.cond_block[0], st1, budget) == EvalOut::Next(
            StateV { stack: st1.stack.push(1), ..st1 },
        ));
        assert(w.cond_block.drop_first() =~= Seq::<OpV>::empty());
        let st2 = StateV { stack: st1.stack.push(1), ..st1 };
        assert(eval_ops(Seq::<OpV>::empty(), st2, budget) == EvalOut::Next(st2));
        assert(eval_ops(w.cond_block, st1, budget) == EvalOut::Next(st2));
        assert(st1.stack =~= st.stack);
        assert(st1 == (StateV { stack: st.stack, ..st }));
        lemma_stuck_condition_spends_all(w, st1, budget, (left - 1) as nat);
    }
}

/// Law: `while 1 do end` — a loop whose condition is stuck at 1 forever —
/// never runs to completion: whatever step budget the evaluator is given,
/// the run ends in the step-limit fault. Only an outside bound ends such a
/// program.
pub proof fn lemma_endless_while_exhausts_any_budget(
    st: StateV,
    l1: LocV,
    l2: LocV,
    l3: LocV,
    budget: nat,
)
    ensures
        ({
            let w = WhileV {
                cond_block: seq![OpV { typ: OpTypeV::PushInt(1), loc: l2 }],
                do_loc: Some(l3),
                do_block: Seq::empty(),
            };
            eval_ops(seq![OpV { typ: OpTypeV::While(w), loc: l1 }], st, budget)
                == EvalOut::Fault(
                ErrV {
                    kind: ErrorKindV::Simulation(SimulationError::StepLimit),
                    loc: Some(l1),
                    infos: Seq::empty(),
                },
            )
        }),
{
    let w = WhileV {
        cond_block: seq![OpV { typ: OpTypeV::PushInt(1), loc: l2 }],
        do_loc: Some(l3),
        do_block: Seq::empty(),
    };
    let op = OpV { typ: OpTypeV::While(w), loc: l1 };
    assert(seq![op][0] == op);
    assert(eval_op(w.cond_block[0], st, budget) == EvalOut::Next(
        StateV { stack: st.stack.push(1), ..st },
    ));
    assert(w.cond_block.drop_first() =~= Seq::<OpV>::empty());
    assert(eval_ops(
        Seq::<OpV>::empty(),
        StateV { stack: st.stack.push(1), ..st },
        budget,
    ) == EvalOut::Next(StateV { stack: st.stack.push(1), ..st }));
    assert(eval_ops(w.cond_block, st, budget) == EvalOut::Next(
        StateV { stack: st.stack.push(1), ..st },
    ));
    lemma_stuck_condition_spends_all(w, st, budget, budget);
    assert(eval_op(op, st, budget) == EvalOut::Fault(step_limit_err()));
}


} // verus!
