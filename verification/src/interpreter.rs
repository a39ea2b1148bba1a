use vstd::prelude::*;
use crate::token::Token;
use crate::resolver::JumpTable;
use crate::machine::TAPE_LEN;
use crate::machine::MachineState;
use crate::machine::Fault;
use crate::machine::StepOutcome;
use crate::machine::RunOutcome;
use crate::machine::config;
use crate::machine::start_state;
use crate::machine::step;
use crate::machine::run_to;
use crate::machine::lemma_run_to_extend;
use crate::machine::fault_message;
use crate::decimal::append_decimal;

verus! {

broadcast use vstd::std_specs::hash::group_hash_axioms;

/// The execution engine: it owns the tape and the two pointers, and
/// interprets an instruction sequence against them using a jump table for
/// control flow.
pub struct Interpreter {
    pub memory: Vec<u8>,
    pub data_pointer: usize,
    pub instruction_pointer: usize,
}

/// How a bounded run ended: the program halted on its own with the output
/// bytes it produced; a fatal condition aborted it, with the message of
/// the fault; or the step budget ran out first, with the output produced
/// so far. Tape and pointers stay as the last executed instruction left
/// them in every case.
#[derive(Debug, PartialEq, Eq)]
pub enum RunStatus {
    Halted(Vec<u8>),
    Faulted(String),
    OutOfSteps(Vec<u8>),
}

fn pointer_right_message() -> (msg: String)
    ensures
        msg@ == fault_message(Fault::PointerRight),
{
    "Data pointer out of bounds (right)".to_owned()
}

fn pointer_left_message() -> (msg: String)
    ensures
        msg@ == fault_message(Fault::PointerLeft),
{
    "Data pointer out of bounds (left)".to_owned()
}

fn missing_open_message(i: usize) -> (msg: String)
    ensures
        msg@ == fault_message(Fault::MissingOpen { ip: i as int }),
{
    let mut msg: String = "Jump table missing entry for '[' at ".to_owned();
    append_decimal(&mut msg, i);
    msg
}

fn missing_close_message(i: usize) -> (msg: String)
    ensures
        msg@ == fault_message(Fault::MissingClose { ip: i as int }),
{
    let mut msg: String = "Jump table missing entry for ']' at ".to_owned();
    append_decimal(&mut msg, i);
    msg
}

impl Interpreter {
    /// The engine is intact: a full-length tape, and a data pointer that is
    /// on it, or — only after a fault to the right — one past its end.
    pub open spec fn wf(&self) -> bool {
        &&& self.memory@.len() == TAPE_LEN
        &&& self.data_pointer <= TAPE_LEN
    }

    /// The machine state a run of this engine starts from.
    pub open spec fn start_of_run(&self) -> MachineState {
        start_state(self.memory@, self.data_pointer as int)
    }

    /// A fresh engine: every cell zero, the data pointer at the midpoint of
    /// the tape, the instruction pointer at the start.
    pub fn new() -> (r: Self)
        ensures
            r.wf(),
            r.memory@ == Seq::new(TAPE_LEN as nat, |i: int| 0u8),
            r.data_pointer == TAPE_LEN / 2,
            r.instruction_pointer == 0,
    {
        let mut memory: Vec<u8> = Vec::new();
        let mut i: usize = 0;
        while i < TAPE_LEN
            invariant
                i <= TAPE_LEN,
                memory@.len() == i,
                forall|k: int| 0 <= k < i ==> memory@[k] == 0u8,
            decreases TAPE_LEN - i,
        {
            memory.push(0u8);
            i += 1;
        }
        proof {
            assert(memory@ =~= Seq::new(TAPE_LEN as nat, |i: int| 0u8));
        }
        Self { memory, data_pointer: TAPE_LEN / 2, instruction_pointer: 0 }
    }

    /// Interpret `tokens` against this engine's tape for at most `fuel`
    /// instructions, reading input bytes from `input` and collecting output
    /// bytes. The outcome — the final tape, pointers and output on a halt,
    /// the fault and the state the machine was left in on an abort, or the
    /// mid-run state when the budget runs out first — is exactly what the
    /// step semantics reach from the starting state. The jump table must
    /// aim every jump inside the sequence, as any table built for this
    /// sequence does.
    pub fn run(&mut self, tokens: &[Token], jump_table: &JumpTable, input: &[u8], fuel: u64) -> (r:
        RunStatus)
        requires
            old(self).wf(),
            old(self).data_pointer < TAPE_LEN,
            forall|k: usize| #[trigger]
                jump_table@.dom().contains(k) ==> jump_table@[k] < tokens@.len(),
        ensures
            final(self).wf(),
            match r {
                RunStatus::Halted(out) => exists|n: nat|
                    {
                        let end = #[trigger] run_to(
                            tokens@,
                            jump_table@,
                            input@,
                            old(self).start_of_run(),
                            n,
                        );
                        &&& n <= fuel
                        &&& end is Halted
                        &&& end->Halted_0.tape == final(self).memory@
                        &&& end->Halted_0.dp == final(self).data_pointer as int
                        &&& end->Halted_0.ip == final(self).instruction_pointer as int
                        &&& end->Halted_0.out == out@
                    },
                RunStatus::Faulted(msg) => exists|n: nat|
                    {
                        let end = #[trigger] run_to(
                            tokens@,
                            jump_table@,
                            input@,
                            old(self).start_of_run(),
                            n,
                        );
                        &&& n <= fuel
                        &&& end is Failed
                        &&& end->Failed_0.tape == final(self).memory@
                        &&& end->Failed_0.dp == final(self).data_pointer as int
                        &&& end->Failed_0.ip == final(self).instruction_pointer as int
                        &&& msg@ == fault_message(end->Failed_1)
                    },
                RunStatus::OutOfSteps(out) => ({
                    let end = run_to(
                        tokens@,
                        jump_table@,
                        input@,
                        old(self).start_of_run(),
                        fuel as nat,
                    );
                    &&& end is Running
                    &&& end->Running_0.tape == final(self).memory@
                    &&& end->Running_0.dp == final(self).data_pointer as int
                    &&& end->Running_0.ip == final(self).instruction_pointer as int
                    &&& end->Running_0.out == out@
                }),
            },
    {
        let ghost init = old(self).start_of_run();
        let tokens_len: usize = tokens.len();
        self.instruction_pointer = 0;
        let mut output: Vec<u8> = Vec::new();
        let mut input_pos: usize = 0;
        let mut steps_done: u64 = 0;
        let ghost mut steps: nat = 0;

        while self.instruction_pointer < tokens_len && steps_done < fuel
            invariant
                init == old(self).start_of_run(),
                tokens_len == tokens@.len(),
                self.memory@.len() == TAPE_LEN,
                self.data_pointer < TAPE_LEN,
                input_pos <= input@.len(),
                steps == steps_done,
                steps_done <= fuel,
                forall|k: usize| #[trigger]
                    jump_table@.dom().contains(k) ==> jump_table@[k] < tokens@.len(),
                run_to(tokens@, jump_table@, input@, init, steps) == (if self.instruction_pointer
                    < tokens_len {
                    RunOutcome::Running(
                        config(
                            self.memory@,
                            self.data_pointer as int,
                            self.instruction_pointer as int,
                            input_pos as int,
                            output@,
                        ),
                    )
                } else {
                    RunOutcome::Halted(
                        config(
                            self.memory@,
                            self.data_pointer as int,
                            self.instruction_pointer as int,
                            input_pos as int,
                            output@,
                        ),
                    )
                }),
            decreases fuel - steps_done,
        {
            let ip = self.instruction_pointer;
            let ghost cur = config(
                self.memory@,
                self.data_pointer as int,
                ip as int,
                input_pos as int,
                output@,
            );
            proof {
                lemma_run_to_extend(tokens@, jump_table@, input@, init, steps);
            }

            match tokens[ip] {
                Token::IncrementPointer => {
                    self.data_pointer += 1;
                    if self.data_pointer >= TAPE_LEN {
                        proof {
                            assert(step(tokens@, jump_table@, input@, cur) == StepOutcome::Fail(
                                config(
                                    cur.tape,
                                    cur.dp + 1,
                                    cur.ip,
                                    cur.read,
                                    cur.out,
                                ),
                                Fault::PointerRight,
                            ));
                            assert(run_to(tokens@, jump_table@, input@, init, steps + 1)
                                is Failed);
                        }
                        return RunStatus::Faulted(pointer_right_message());
                    }
                },
                Token::DecrementPointer => {
                    if self.data_pointer == 0 {
                        proof {
                            assert(step(tokens@, jump_table@, input@, cur) == StepOutcome::Fail(
                                cur,
                                Fault::PointerLeft,
                            ));
                            assert(run_to(tokens@, jump_table@, input@, init, steps + 1)
                                is Failed);
                        }
                        return RunStatus::Faulted(pointer_left_message());
                    }
                    self.data_pointer -= 1;
                },
                Token::IncrementData => {
                    let c: u8 = self.memory[self.data_pointer];
                    self.memory[self.data_pointer] = c.wrapping_add(1);
                    proof {
                        assert(c.wrapping_add(1) == (((c as int) + 1) % 256) as u8);
                    }
                },
                Token::DecrementData => {
                    let c: u8 = self.memory[self.data_pointer];
                    self.memory[self.data_pointer] = c.wrapping_sub(1);
                    proof {
                        assert(c.wrapping_sub(1) == (((c as int) + 255) % 256) as u8);
                    }
                },
                Token::Output => {
                    output.push(self.memory[self.data_pointer]);
                },
                Token::Input => {
                    if input_pos < input.len() {
                        self.memory[self.data_pointer] = input[input_pos];
                        input_pos += 1;
                    } else {
                        self.memory[self.data_pointer] = 0;
                    }
                },
                Token::LoopStart => {
                    if self.memory[self.data_pointer] == 0 {
                        match jump_table.get(&ip) {
                            Some(target) => {
                                self.instruction_pointer = *target;
                            },
                            None => {
                                proof {
                                    assert(step(tokens@, jump_table@, input@, cur)
                                        == StepOutcome::Fail(
                                        cur,
                                        Fault::MissingOpen { ip: ip as int },
                                    ));
                                    assert(run_to(tokens@, jump_table@, input@, init, steps + 1)
                                        is Failed);
                                }
                                return RunStatus::Faulted(missing_open_message(ip));
                            },
                        }
                    }
                },
                Token::LoopEnd => {
                    if self.memory[self.data_pointer] != 0 {
                        match jump_table.get(&ip) {
                            Some(target) => {
                                self.instruction_pointer = *target;
                            },
                            None => {
                                proof {
                                    assert(step(tokens@, jump_table@, input@, cur)
                                        == StepOutcome::Fail(
                                        cur,
                                        Fault::MissingClose { ip: ip as int },
                                    ));
                                    assert(run_to(tokens@, jump_table@, input@, init, steps + 1)
                                        is Failed);
                                }
                                return RunStatus::Faulted(missing_close_message(ip));
                            },
                        }
                    }
                },
            }

            self.instruction_pointer += 1;
            steps_done += 1;
            proof {
                steps = steps + 1;
                assert(step(tokens@, jump_table@, input@, cur) == StepOutcome::Next(
                    config(
                        self.memory@,
                        self.data_pointer as int,
                        self.instruction_pointer as int,
                        input_pos as int,
                        output@,
                    ),
                ));
            }
        }

        if self.instruction_pointer < tokens_len {
            proof {
                assert(run_to(tokens@, jump_table@, input@, init, fuel as nat) is Running);
            }
            RunStatus::OutOfSteps(output)
        } else {
            proof {
                assert(run_to(tokens@, jump_table@, input@, init, steps) is Halted);
            }
            RunStatus::Halted(output)
        }
    }

    /// A read-only window of the tape around the data pointer, for
    /// display: the address of the first cell shown, and the cells from
    /// `range` below the pointer through `range` above it, clipped to the
    /// tape.
    pub fn memory_window(&self, range: usize) -> (r: (usize, Vec<u8>))
        requires
            self.wf(),
        ensures
            r.0 == if self.data_pointer >= range {
                self.data_pointer - range
            } else {
                0
            },
            r.1@ == self.memory@.subrange(
                r.0 as int,
                if self.data_pointer + range + 1 <= TAPE_LEN {
                    self.data_pointer + range + 1
                } else {
                    TAPE_LEN as int
                },
            ),
    {
        let start: usize = if self.data_pointer >= range {
            self.data_pointer - range
        } else {
            0
        };
        let end: usize = if range >= TAPE_LEN {
            TAPE_LEN
        } else {
            let e: usize = self.data_pointer + range + 1;
            if e > TAPE_LEN {
                TAPE_LEN
            } else {
                e
            }
        };
        let mut cells: Vec<u8> = Vec::new();
        let mut i: usize = start;
        while i < end
            invariant
                start <= i <= end <= self.memory@.len(),
                cells@ == self.memory@.subrange(start as int, i as int),
            decreases end - i,
        {
            cells.push(self.memory[i]);
            proof {
                assert(cells@ =~= self.memory@.subrange(start as int, i + 1));
            }
            i += 1;
        }
        (start, cells)
    }
}

impl Default for Interpreter {
    /// The same engine `new` builds.
    fn default() -> (r: Self)
        ensures
            r.wf(),
            r.memory@ == Seq::new(TAPE_LEN as nat, |i: int| 0u8),
            r.data_pointer == TAPE_LEN / 2,
            r.instruction_pointer == 0,
    {
        Self::new()
    }
}

} // verus!
