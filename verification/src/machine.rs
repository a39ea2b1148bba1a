use vstd::prelude::*;
use crate::token::Token;
use crate::decimal::decimal_digits;
use crate::resolver::resolve_spec;
use crate::resolver::lemma_jump_table_symmetric;

verus! {

/// Number of cells on the tape.
pub const TAPE_LEN: usize = 30000;

/// A snapshot of the whole machine between two instructions: the tape, the
/// data pointer, the instruction pointer, how many input bytes have been
/// consumed, and the bytes written so far.
pub ghost struct MachineState {
    pub tape: Seq<u8>,
    pub dp: int,
    pub ip: int,
    pub read: int,
    pub out: Seq<u8>,
}

/// Shorthand for building a machine state.
pub open spec fn config(tape: Seq<u8>, dp: int, ip: int, read: int, out: Seq<u8>) -> MachineState {
    MachineState { tape, dp, ip, read, out }
}

/// The state a fresh run starts from: a given tape and data pointer, the
/// instruction pointer at the first instruction, no input consumed, no
/// output produced.
pub open spec fn start_state(tape: Seq<u8>, dp: int) -> MachineState {
    config(tape, dp, 0, 0, Seq::empty())
}

/// A state the machine can be in mid-run.
pub open spec fn state_wf(s: MachineState) -> bool {
    &&& s.tape.len() == TAPE_LEN
    &&& 0 <= s.dp < TAPE_LEN
    &&& 0 <= s.read
}

/// A fatal condition that aborts a run: the data pointer leaving the tape
/// on either side, or a loop instruction whose address the jump table does
/// not know (which a table built for the same sequence never allows).
pub ghost enum Fault {
    PointerRight,
    PointerLeft,
    MissingOpen { ip: int },
    MissingClose { ip: int },
}

/// What one instruction does: the follow-on state, or a fault together with
/// the state the machine is left in.
pub ghost enum StepOutcome {
    Next(MachineState),
    Fail(MachineState, Fault),
}

/// The effect of the single instruction at `s.ip`. Cell arithmetic wraps
/// modulo 256; moving the pointer outside `[0, TAPE_LEN)` is a fault, not a
/// wrap; reading exhausted input writes a zero into the cell; a taken jump
/// lands on the matching bracket itself, so the pointer advance that
/// follows every instruction moves execution just past it.
pub open spec fn step(
    tokens: Seq<Token>,
    jump: Map<usize, usize>,
    input: Seq<u8>,
    s: MachineState,
) -> StepOutcome
    recommends
        0 <= s.ip < tokens.len(),
        state_wf(s),
{
    match tokens[s.ip] {
        Token::IncrementPointer => if s.dp + 1 >= TAPE_LEN {
            StepOutcome::Fail(config(s.tape, s.dp + 1, s.ip, s.read, s.out), Fault::PointerRight)
        } else {
            StepOutcome::Next(config(s.tape, s.dp + 1, s.ip + 1, s.read, s.out))
        },
        Token::DecrementPointer => if s.dp == 0 {
            StepOutcome::Fail(s, Fault::PointerLeft)
        } else {
            StepOutcome::Next(config(s.tape, s.dp - 1, s.ip + 1, s.read, s.out))
        },
        Token::IncrementData => StepOutcome::Next(
            config(
                s.tape.update(s.dp, (((s.tape[s.dp] as int) + 1) % 256) as u8),
                s.dp,
                s.ip + 1,
                s.read,
                s.out,
            ),
        ),
        Token::DecrementData => StepOutcome::Next(
            config(
                s.tape.update(s.dp, (((s.tape[s.dp] as int) + 255) % 256) as u8),
                s.dp,
                s.ip + 1,
                s.read,
                s.out,
            ),
        ),
        Token::Output => StepOutcome::Next(
            config(s.tape, s.dp, s.ip + 1, s.read, s.out.push(s.tape[s.dp])),
        ),
        Token::Input => if s.read < input.len() {
            StepOutcome::Next(
                config(s.tape.update(s.dp, input[s.read]), s.dp, s.ip + 1, s.read + 1, s.out),
            )
        } else {
            StepOutcome::Next(config(s.tape.update(s.dp, 0u8), s.dp, s.ip + 1, s.read, s.out))
        },
        Token::LoopStart => if s.tape[s.dp] == 0 {
            if jump.dom().contains(s.ip as usize) {
                StepOutcome::Next(
                    config(s.tape, s.dp, jump[s.ip as usize] + 1, s.read, s.out),
                )
            } else {
                StepOutcome::Fail(s, Fault::MissingOpen { ip: s.ip })
            }
        } else {
            StepOutcome::Next(config(s.tape, s.dp, s.ip + 1, s.read, s.out))
        },
        Token::LoopEnd => if s.tape[s.dp] != 0 {
            if jump.dom().contains(s.ip as usize) {
                StepOutcome::Next(
                    config(s.tape, s.dp, jump[s.ip as usize] + 1, s.read, s.out),
                )
            } else {
                StepOutcome::Fail(s, Fault::MissingClose { ip: s.ip })
            }
        } else {
            StepOutcome::Next(config(s.tape, s.dp, s.ip + 1, s.read, s.out))
        },
    }
}

/// Where a run stands after at most `n` instructions from state `s`: still
/// running, halted because the instruction pointer reached the end of the
/// sequence, or aborted by a fault, with the state the machine was left in.
pub ghost enum RunOutcome {
    Running(MachineState),
    Halted(MachineState),
    Failed(MachineState, Fault),
}

/// Iterate `step` from `s`, up to `n` instructions, stopping early at a
/// halt or a fault.
pub open spec fn run_to(
    tokens: Seq<Token>,
    jump: Map<usize, usize>,
    input: Seq<u8>,
    s: MachineState,
    n: nat,
) -> RunOutcome
    decreases n,
{
    if s.ip >= tokens.len() {
        RunOutcome::Halted(s)
    } else if n == 0 {
        RunOutcome::Running(s)
    } else {
        match step(tokens, jump, input, s) {
            StepOutcome::Next(s2) => run_to(tokens, jump, input, s2, (n - 1) as nat),
            StepOutcome::Fail(s2, f) => RunOutcome::Failed(s2, f),
        }
    }
}

/// A run that has halted or faulted stays exactly there under more fuel.
proof fn lemma_run_to_stable(
    tokens: Seq<Token>,
    jump: Map<usize, usize>,
    input: Seq<u8>,
    s: MachineState,
    n: nat,
    m: nat,
)
    requires
        n <= m,
        !(run_to(tokens, jump, input, s, n) is Running),
    ensures
        run_to(tokens, jump, input, s, m) == run_to(tokens, jump, input, s, n),
    decreases n,
{
    if s.ip < tokens.len() {
        match step(tokens, jump, input, s) {
            StepOutcome::Next(s2) => {
                lemma_run_to_stable(tokens, jump, input, s2, (n - 1) as nat, (m - 1) as nat);
            },
            StepOutcome::Fail(..) => {},
        }
    }
}

/// Law: execution is deterministic. Two complete runs of the same
/// instruction sequence with the same jump table and the same input stream,
/// from the same starting state, reach the same outcome — the same final
/// tape, pointers and output, and the same fault if either faulted. Fresh
/// engines given identical programs and inputs therefore agree byte for
/// byte.
pub proof fn lemma_run_deterministic(
    tokens: Seq<Token>,
    jump: Map<usize, usize>,
    input: Seq<u8>,
    s: MachineState,
    n1: nat,
    n2: nat,
)
    requires
        !(run_to(tokens, jump, input, s, n1) is Running),
        !(run_to(tokens, jump, input, s, n2) is Running),
    ensures
        run_to(tokens, jump, input, s, n1) == run_to(tokens, jump, input, s, n2),
{
    if n1 <= n2 {
        lemma_run_to_stable(tokens, jump, input, s, n1, n2);
    } else {
        lemma_run_to_stable(tokens, jump, input, s, n2, n1);
    }
}

/// Unrolling one more step from the front of a still-running run.
pub proof fn lemma_run_to_extend(
    tokens: Seq<Token>,
    jump: Map<usize, usize>,
    input: Seq<u8>,
    s0: MachineState,
    n: nat,
)
    requires
        run_to(tokens, jump, input, s0, n) is Running,
    ensures
        ({
            let s1 = run_to(tokens, jump, input, s0, n)->Running_0;
            run_to(tokens, jump, input, s0, n + 1) == (match step(tokens, jump, input, s1) {
                StepOutcome::Next(s2) => run_to(tokens, jump, input, s2, 0),
                StepOutcome::Fail(s2, f) => RunOutcome::Failed(s2, f),
            })
        }),
    decreases n,
{
    if n > 0 {
        let s2 = step(tokens, jump, input, s0)->Next_0;
        lemma_run_to_extend(tokens, jump, input, s2, (n - 1) as nat);
    }
}

/// Law: cell arithmetic wraps modulo 256 — an increment or a decrement
/// never faults, and writes back the old value plus or minus one, reduced
/// modulo 256, so 256 increments return a cell to where it began and a
/// decrement of a zero cell yields 255.
pub proof fn lemma_cell_arithmetic_wraps(
    tokens: Seq<Token>,
    jump: Map<usize, usize>,
    input: Seq<u8>,
    s: MachineState,
)
    requires
        0 <= s.ip < tokens.len(),
        state_wf(s),
        tokens[s.ip] is IncrementData || tokens[s.ip] is DecrementData,
    ensures
        step(tokens, jump, input, s) is Next,
        tokens[s.ip] is IncrementData ==> step(tokens, jump, input, s)->Next_0.tape[s.dp]
            == (((s.tape[s.dp] as int) + 1) % 256) as u8,
        tokens[s.ip] is DecrementData ==> step(tokens, jump, input, s)->Next_0.tape[s.dp]
            == (((s.tape[s.dp] as int) - 1) % 256) as u8,
{
    let c = s.tape[s.dp] as int;
    assert((c + 255) % 256 == (c - 1) % 256);
}

/// Law: moving the data pointer left from cell zero, or right from the last
/// cell, is a fault that leaves the tape untouched — the pointer does not
/// wrap to the other end.
pub proof fn lemma_pointer_bounds_fault(
    tokens: Seq<Token>,
    jump: Map<usize, usize>,
    input: Seq<u8>,
    s: MachineState,
)
    requires
        0 <= s.ip < tokens.len(),
        state_wf(s),
    ensures
        tokens[s.ip] is DecrementPointer && s.dp == 0 ==> step(tokens, jump, input, s)
            == StepOutcome::Fail(s, Fault::PointerLeft),
        tokens[s.ip] is IncrementPointer && s.dp == TAPE_LEN - 1 ==> step(tokens, jump, input, s)
            == StepOutcome::Fail(
            config(s.tape, TAPE_LEN as int, s.ip, s.read, s.out),
            Fault::PointerRight,
        ),
{
}

/// Law: an input instruction on an exhausted input stream is not an error —
/// it writes a zero into the current cell and execution moves on.
pub proof fn lemma_input_exhausted_zero_fills(
    tokens: Seq<Token>,
    jump: Map<usize, usize>,
    input: Seq<u8>,
    s: MachineState,
)
    requires
        0 <= s.ip < tokens.len(),
        state_wf(s),
        tokens[s.ip] is Input,
        s.read >= input.len(),
    ensures
        step(tokens, jump, input, s) == StepOutcome::Next(
            config(s.tape.update(s.dp, 0u8), s.dp, s.ip + 1, s.read, s.out),
        ),
{
}

/// Law: with the jump table built for this very instruction sequence, the
/// internal-consistency fault is unreachable — a run can only fault by
/// moving the data pointer off the tape.
pub proof fn lemma_resolved_table_never_missing(
    tokens: Seq<Token>,
    input: Seq<u8>,
    s: MachineState,
    n: nat,
)
    requires
        0 <= s.ip,
        tokens.len() <= usize::MAX,
        resolve_spec(tokens) is Ok,
        run_to(tokens, resolve_spec(tokens)->Ok_0, input, s, n) is Failed,
    ensures
        ({
            let f = run_to(tokens, resolve_spec(tokens)->Ok_0, input, s, n)->Failed_1;
            f is PointerLeft || f is PointerRight
        }),
    decreases n,
{
    let jump = resolve_spec(tokens)->Ok_0;
    lemma_jump_table_symmetric(tokens);
    if s.ip < tokens.len() && n > 0 {
        match step(tokens, jump, input, s) {
            StepOutcome::Next(s2) => {
                lemma_resolved_table_never_missing(tokens, input, s2, (n - 1) as nat);
            },
            StepOutcome::Fail(..) => {},
        }
    }
}

/// The message text reported for a fault.
pub open spec fn fault_message(f: Fault) -> Seq<char> {
    match f {
        Fault::PointerRight => "Data pointer out of bounds (right)"@,
        Fault::PointerLeft => "Data pointer out of bounds (left)"@,
        Fault::MissingOpen { ip } => "Jump table missing entry for '[' at "@ + decimal_digits(
            ip as nat,
        ),
        Fault::MissingClose { ip } => "Jump table missing entry for ']' at "@ + decimal_digits(
            ip as nat,
        ),
    }
}

} // verus!
