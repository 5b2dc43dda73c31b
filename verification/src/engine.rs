//! The execution engine: a fetch-decode-execute loop over a program,
//! mutating a bounded tape of cells addressed by a movable pointer and
//! exchanging bytes with an I/O channel.

use vstd::prelude::*;

use crate::ops::CODE_MAX_DATA;
use crate::ops::Opcode;
use crate::ops::Operation;
use crate::program::Program;
use crate::program::code_wf;

verus! {

/// Why a run failed: the pointer was moved past the end of the tape.
#[derive(Clone, Copy, PartialEq, Eq, Structural, Debug)]
pub enum RuntimeError {
    TapeOverflow,
}

/// The byte channel a run exchanges bytes with: a buffered input read one
/// byte at a time (exhaustion yields zero) and an output the run appends to.
pub struct IoChannel {
    pub input: Vec<u8>,
    pub read_pos: usize,
    pub output: Vec<u8>,
}

impl IoChannel {
    /// A channel over the given input bytes, not yet read from, with an
    /// empty output.
    pub fn new(input: Vec<u8>) -> (io: IoChannel)
        ensures
            io.input@ == input@,
            io.read_pos == 0,
            io.output@ == Seq::<u8>::empty(),
    {
        IoChannel { input, read_pos: 0, output: Vec::new() }
    }
}

/// The mathematical machine state one step acts on: the program counter,
/// the pointer, the tape, how much input has been consumed, and the output
/// emitted so far.
pub ghost struct MState {
    pub pc: int,
    pub ptr: int,
    pub tape: Seq<u32>,
    pub read_pos: int,
    pub output: Seq<u8>,
}

/// The tape at the start of a run: every cell zero.
pub open spec fn zero_tape() -> Seq<u32> {
    Seq::new(CODE_MAX_DATA as nat, |i: int| 0u32)
}

/// The machine state at the start of a run against channel `io`.
pub open spec fn init_state(io: IoChannel) -> MState {
    MState {
        pc: 0,
        ptr: 0,
        tape: zero_tape(),
        read_pos: io.read_pos as int,
        output: io.output@,
    }
}

/// The machine has fetched the `End` sentinel and halts.
pub open spec fn halted(code: Seq<Operation>, s: MState) -> bool {
    code[s.pc].opcode == Opcode::End
}

/// The next instruction would move the pointer past the end of the tape.
pub open spec fn faults(code: Seq<Operation>, s: MState) -> bool {
    code[s.pc].opcode == Opcode::MovePointerRight && s.ptr + 1 >= CODE_MAX_DATA
}

/// Incrementing a cell wraps on overflow of the cell width.
pub open spec fn wrap_inc(v: u32) -> u32 {
    if v == 0xffff_ffffu32 {
        0u32
    } else {
        (v + 1) as u32
    }
}

/// One fetch-decode-execute step from state `s`, meaningful when the
/// machine is neither halted nor about to fault. Jumps land one past the
/// matching bracket; decrementing a zero cell and moving left of cell zero
/// are silent no-ops; output is the low byte of the cell; reading exhausted
/// input yields zero.
pub open spec fn step_once(code: Seq<Operation>, input: Seq<u8>, s: MState) -> MState {
    let op = code[s.pc];
    match op.opcode {
        Opcode::IncrementCell => MState {
            pc: s.pc + 1,
            tape: s.tape.update(s.ptr, wrap_inc(s.tape[s.ptr])),
            ..s
        },
        Opcode::DecrementCell => MState {
            pc: s.pc + 1,
            tape: if s.tape[s.ptr] > 0 {
                s.tape.update(s.ptr, (s.tape[s.ptr] - 1) as u32)
            } else {
                s.tape
            },
            ..s
        },
        Opcode::MovePointerRight => MState { pc: s.pc + 1, ptr: s.ptr + 1, ..s },
        Opcode::MovePointerLeft => MState {
            pc: s.pc + 1,
            ptr: if s.ptr > 0 {
                s.ptr - 1
            } else {
                0
            },
            ..s
        },
        Opcode::LoopStart => MState {
            pc: if s.tape[s.ptr] == 0 {
                op.operand + 1
            } else {
                s.pc + 1
            },
            ..s
        },
        Opcode::LoopEnd => MState {
            pc: if s.tape[s.ptr] != 0 {
                op.operand + 1
            } else {
                s.pc + 1
            },
            ..s
        },
        Opcode::Output => MState {
            pc: s.pc + 1,
            output: s.output.push((s.tape[s.ptr] % 256) as u8),
            ..s
        },
        Opcode::Input => if s.read_pos < input.len() {
            MState {
                pc: s.pc + 1,
                tape: s.tape.update(s.ptr, input[s.read_pos] as u32),
                read_pos: s.read_pos + 1,
                ..s
            }
        } else {
            MState { pc: s.pc + 1, tape: s.tape.update(s.ptr, 0u32), ..s }
        },
        Opcode::End => s,
    }
}

/// The state after `n` steps from `s`; a halted or faulting state is a
/// fixed point, so every later step count yields that same state.
pub open spec fn steps(code: Seq<Operation>, input: Seq<u8>, s: MState, n: nat) -> MState
    decreases n,
{
    if n == 0 {
        s
    } else {
        let prev = steps(code, input, s, (n - 1) as nat);
        if halted(code, prev) || faults(code, prev) {
            prev
        } else {
            step_once(code, input, prev)
        }
    }
}

/// The bounds a run maintains: the program counter inside the program, the
/// pointer inside the tape, and the tape at its fixed capacity.
pub open spec fn state_inv(code: Seq<Operation>, s: MState) -> bool {
    &&& 0 <= s.pc < code.len()
    &&& 0 <= s.ptr < CODE_MAX_DATA
    &&& s.tape.len() == CODE_MAX_DATA
    &&& 0 <= s.read_pos
}

/// One step of a well-formed program preserves the bounds: in particular,
/// both bracket jumps land inside the program because the sentinel is the
/// single last instruction and bracket operands point at matching brackets.
pub proof fn lemma_step_in_bounds(code: Seq<Operation>, input: Seq<u8>, s: MState)
    requires
        code_wf(code),
        state_inv(code, s),
        !halted(code, s),
        !faults(code, s),
    ensures
        state_inv(code, step_once(code, input, s)),
{
    assert(crate::program::bracket_ok(code, s.pc));
    assert(code[code.len() - 1].opcode == Opcode::End);
    let op = code[s.pc];
    if op.opcode == Opcode::LoopStart {
        assert(code[op.operand as int].opcode == Opcode::LoopEnd);
        assert(op.operand != code.len() - 1);
    } else if op.opcode == Opcode::LoopEnd {
        assert(code[op.operand as int].opcode == Opcode::LoopStart);
        assert(op.operand != code.len() - 1);
    }
    assert(s.pc != code.len() - 1);
}

/// Bounds hold after any number of steps: executing a well-formed program
/// never moves the program counter or the pointer out of bounds, whatever
/// the input and however long it runs.
pub proof fn lemma_steps_in_bounds(code: Seq<Operation>, input: Seq<u8>, s: MState, n: nat)
    requires
        code_wf(code),
        state_inv(code, s),
    ensures
        state_inv(code, steps(code, input, s, n)),
    decreases n,
{
    if n > 0 {
        lemma_steps_in_bounds(code, input, s, (n - 1) as nat);
        let prev = steps(code, input, s, (n - 1) as nat);
        if !halted(code, prev) && !faults(code, prev) {
            lemma_step_in_bounds(code, input, prev);
        }
    }
}

/// A halted or faulting state is final: once execution reaches one after
/// `n` steps, every later step count yields that same state. So the state a
/// run ends in is the same whichever witnessing step count one looks at.
pub proof fn lemma_end_state_stable(
    code: Seq<Operation>,
    input: Seq<u8>,
    s: MState,
    n: nat,
    m: nat,
)
    requires
        n <= m,
        halted(code, steps(code, input, s, n)) || faults(code, steps(code, input, s, n)),
    ensures
        steps(code, input, s, m) == steps(code, input, s, n),
    decreases m - n,
{
    if n < m {
        lemma_end_state_stable(code, input, s, n, (m - 1) as nat);
    }
}

/// Parse followed by run stays in bounds: any program the parser accepts
/// keeps the program counter inside the program and the pointer inside the
/// tape, for every input, from the start of a run, however many steps it
/// takes.
pub proof fn lemma_parse_then_run_in_bounds(
    src: Seq<char>,
    code: Seq<Operation>,
    io: IoChannel,
    n: nat,
)
    requires
        crate::parser::spec_parse(src) == Ok::<Seq<Operation>, crate::parser::ParseError>(code),
    ensures
        state_inv(code, steps(code, io.input@, init_state(io), n)),
{
    crate::parser::lemma_parse_ok_wf(src, code);
    assert(state_inv(code, init_state(io)));
    lemma_steps_in_bounds(code, io.input@, init_state(io), n);
}

/// The per-run mutable interpreter state: the program counter, the tape
/// pointer and the tape itself. A fresh (or reset) interpreter starts every
/// run at zero with a zeroed tape; the program it runs is never mutated, so
/// one program may be reused across any number of runs.
pub struct BrainfuckInterpreter {
    pub pc: usize,
    pub ptr: usize,
    pub data: Vec<u32>,
}

/// Within `max` steps from state `from`, the machine reached its halting
/// state, and `interp` and `io` together are exactly that state.
pub open spec fn halts_within(
    code: Seq<Operation>,
    input: Seq<u8>,
    from: MState,
    interp: BrainfuckInterpreter,
    io: IoChannel,
    max: nat,
) -> bool {
    exists|n: nat|
        n <= max && halted(code, #[trigger] steps(code, input, from, n)) && mstate_of(interp, io)
            == steps(code, input, from, n)
}

/// Within `max` steps from state `from`, the machine moved the pointer past
/// the tape, and `interp` and `io` together are exactly the faulting state.
pub open spec fn faults_within(
    code: Seq<Operation>,
    input: Seq<u8>,
    from: MState,
    interp: BrainfuckInterpreter,
    io: IoChannel,
    max: nat,
) -> bool {
    exists|n: nat|
        n <= max && faults(code, #[trigger] steps(code, input, from, n)) && mstate_of(interp, io)
            == steps(code, input, from, n)
}

/// The machine state an interpreter and a channel together stand for.
pub open spec fn mstate_of(interp: BrainfuckInterpreter, io: IoChannel) -> MState {
    MState {
        pc: interp.pc as int,
        ptr: interp.ptr as int,
        tape: interp.data@,
        read_pos: io.read_pos as int,
        output: io.output@,
    }
}

impl BrainfuckInterpreter {
    /// The concrete counterpart of [`state_inv`].
    pub open spec fn inv(&self, code: Seq<Operation>) -> bool {
        &&& self.pc < code.len()
        &&& self.ptr < CODE_MAX_DATA
        &&& self.data@.len() == CODE_MAX_DATA
    }

    /// A fresh interpreter: counters at zero, tape zeroed.
    pub fn new() -> (r: BrainfuckInterpreter)
        ensures
            r.pc == 0,
            r.ptr == 0,
            r.data@ == zero_tape(),
    {
        let mut data: Vec<u32> = Vec::new();
        let mut j: usize = 0;
        while j < CODE_MAX_DATA
            invariant
                j <= CODE_MAX_DATA,
                data@ == Seq::new(j as nat, |i: int| 0u32),
            decreases CODE_MAX_DATA - j,
        {
            data.push(0);
            j = j + 1;
            proof {
                assert(data@ =~= Seq::new(j as nat, |i: int| 0u32));
            }
        }
        BrainfuckInterpreter { pc: 0, ptr: 0, data }
    }

    /// Return the interpreter to its start-of-run state: counters at zero,
    /// every cell zero.
    pub fn reset(&mut self)
        ensures
            final(self).pc == 0,
            final(self).ptr == 0,
            final(self).data@ == zero_tape(),
    {
        *self = BrainfuckInterpreter::new();
    }

    /// Execute exactly one instruction.
    ///
    /// `Ok(true)` means the sentinel was fetched and nothing changed: the
    /// run is over. `Ok(false)` means one non-halting, non-faulting
    /// instruction ran and the machine state advanced by exactly one step
    /// of the step semantics. `Err(TapeOverflow)` means the instruction
    /// would have moved the pointer past the tape; nothing changed.
    pub fn step(&mut self, program: &Program, io: &mut IoChannel) -> (r: Result<
        bool,
        RuntimeError,
    >)
        requires
            code_wf(program@),
            old(self).inv(program@),
        ensures
            final(self).inv(program@),
            final(io).input@ == old(io).input@,
            match r {
                Ok(true) => {
                    &&& halted(program@, mstate_of(*old(self), *old(io)))
                    &&& *final(self) == *old(self)
                    &&& *final(io) == *old(io)
                },
                Ok(false) => {
                    &&& !halted(program@, mstate_of(*old(self), *old(io)))
                    &&& !faults(program@, mstate_of(*old(self), *old(io)))
                    &&& mstate_of(*final(self), *final(io)) == step_once(
                        program@,
                        old(io).input@,
                        mstate_of(*old(self), *old(io)),
                    )
                },
                Err(e) => {
                    &&& e == RuntimeError::TapeOverflow
                    &&& faults(program@, mstate_of(*old(self), *old(io)))
                    &&& *final(self) == *old(self)
                    &&& *final(io) == *old(io)
                },
            },
    {
        let ghost pre = mstate_of(*self, *io);
        let op = program.get(self.pc);
        proof {
            assert(crate::program::bracket_ok(program@, self.pc as int));
            assert(program@[program@.len() - 1].opcode == Opcode::End);
        }
        match op.opcode {
            Opcode::End => {
                return Ok(true);
            },
            Opcode::IncrementCell => {
                let v = self.data[self.ptr];
                let nv = if v == 0xffff_ffffu32 {
                    0u32
                } else {
                    v + 1
                };
                self.data[self.ptr] = nv;
                self.pc = self.pc + 1;
            },
            Opcode::DecrementCell => {
                let v = self.data[self.ptr];
                if v > 0 {
                    self.data[self.ptr] = v - 1;
                }
                self.pc = self.pc + 1;
            },
            Opcode::MovePointerRight => {
                if self.ptr + 1 >= CODE_MAX_DATA {
                    return Err(RuntimeError::TapeOverflow);
                }
                self.ptr = self.ptr + 1;
                self.pc = self.pc + 1;
            },
            Opcode::MovePointerLeft => {
                if self.ptr > 0 {
                    self.ptr = self.ptr - 1;
                }
                self.pc = self.pc + 1;
            },
            Opcode::LoopStart => {
                proof {
                    assert(program@[op.operand as int].opcode == Opcode::LoopEnd);
                    assert(op.operand != program@.len() - 1);
                }
                if self.data[self.ptr] == 0 {
                    self.pc = op.operand + 1;
                } else {
                    self.pc = self.pc + 1;
                }
            },
            Opcode::LoopEnd => {
                proof {
                    assert(program@[op.operand as int].opcode == Opcode::LoopStart);
                    assert(op.operand != program@.len() - 1);
                }
                if self.data[self.ptr] != 0 {
                    self.pc = op.operand + 1;
                } else {
                    self.pc = self.pc + 1;
                }
            },
            Opcode::Output => {
                let b = (self.data[self.ptr] % 256) as u8;
                io.output.push(b);
                self.pc = self.pc + 1;
            },
            Opcode::Input => {
                let b: u8 = if io.read_pos < io.input.len() {
                    let b = io.input[io.read_pos];
                    io.read_pos = io.read_pos + 1;
                    b
                } else {
                    0u8
                };
                self.data[self.ptr] = b as u32;
                self.pc = self.pc + 1;
            },
        }
        proof {
            assert(!halted(program@, pre));
            assert(!faults(program@, pre));
            assert(mstate_of(*self, *io) == step_once(program@, old(io).input@, pre));
        }
        Ok(false)
    }

    /// Continue executing from the interpreter's current state for at most
    /// `max_steps` instructions.
    ///
    /// `Ok(true)` means the run halted on the sentinel within the budget;
    /// `Ok(false)` means the budget ran out first and the machine stands in
    /// exactly the state reached after `max_steps` steps, none of which
    /// halted or faulted — the caller may call again to go on. On `Err` the
    /// run faulted by moving the pointer past the tape and stopped in the
    /// faulting state. In every case the machine ends in exactly the state
    /// the step semantics prescribes.
    pub fn resume(&mut self, program: &Program, io: &mut IoChannel, max_steps: usize) -> (r:
        Result<bool, RuntimeError>)
        requires
            code_wf(program@),
            old(self).inv(program@),
        ensures
            final(self).inv(program@),
            final(io).input@ == old(io).input@,
            match r {
                Ok(true) => halts_within(
                    program@,
                    old(io).input@,
                    mstate_of(*old(self), *old(io)),
                    *final(self),
                    *final(io),
                    max_steps as nat,
                ),
                Ok(false) => mstate_of(*final(self), *final(io)) == steps(
                    program@,
                    old(io).input@,
                    mstate_of(*old(self), *old(io)),
                    max_steps as nat,
                ) && !halted(
                    program@,
                    steps(
                        program@,
                        old(io).input@,
                        mstate_of(*old(self), *old(io)),
                        max_steps as nat,
                    ),
                ) && !faults(
                    program@,
                    steps(
                        program@,
                        old(io).input@,
                        mstate_of(*old(self), *old(io)),
                        max_steps as nat,
                    ),
                ),
                Err(e) => e == RuntimeError::TapeOverflow && faults_within(
                    program@,
                    old(io).input@,
                    mstate_of(*old(self), *old(io)),
                    *final(self),
                    *final(io),
                    max_steps as nat,
                ),
            },
    {
        let ghost from = mstate_of(*self, *io);
        let ghost input = old(io).input@;
        let mut k: usize = 0;
        while k < max_steps
            invariant
                code_wf(program@),
                self.inv(program@),
                input == old(io).input@,
                from == mstate_of(*old(self), *old(io)),
                io.input@ == input,
                k <= max_steps,
                mstate_of(*self, *io) == steps(program@, input, from, k as nat),
                forall|m: nat|
                    m < k ==> !halted(program@, #[trigger] steps(program@, input, from, m))
                        && !faults(program@, steps(program@, input, from, m)),
            decreases max_steps - k,
        {
            let ghost cur = mstate_of(*self, *io);
            let res = self.step(program, io);
            match res {
                Ok(true) => {
                    proof {
                        assert(halted(program@, steps(program@, input, from, k as nat)));
                    }
                    return Ok(true);
                },
                Ok(false) => {
                    proof {
                        assert(steps(program@, input, from, (k + 1) as nat) == step_once(
                            program@,
                            input,
                            cur,
                        ));
                    }
                    k = k + 1;
                },
                Err(e) => {
                    proof {
                        assert(faults(program@, steps(program@, input, from, k as nat)));
                    }
                    return Err(e);
                },
            }
        }
        let op = program.get(self.pc);
        if op.opcode == Opcode::End {
            proof {
                assert(halted(program@, steps(program@, input, from, max_steps as nat)));
            }
            return Ok(true);
        }
        if op.opcode == Opcode::MovePointerRight && self.ptr + 1 >= CODE_MAX_DATA {
            proof {
                assert(faults(program@, steps(program@, input, from, max_steps as nat)));
            }
            return Err(RuntimeError::TapeOverflow);
        }
        Ok(false)
    }

    /// Run the program against channel `io`, resetting the interpreter
    /// first, for at most `max_steps` instructions.
    ///
    /// `Ok(true)` means the run halted on the sentinel within the budget
    /// and the interpreter, the consumed input and the emitted output are
    /// exactly those of the step semantics run from the initial state to
    /// its halting state. `Ok(false)` means the budget ran out first: the
    /// machine stands in exactly the state after `max_steps` steps, neither
    /// halted nor faulted, and [`Self::resume`] continues it. On `Err` the
    /// run faulted by moving the pointer past the tape and stopped in the
    /// faulting state. A program that loops forever never halts on its own:
    /// that is the language's semantics, not an error, and shows up here as
    /// `Ok(false)` for every budget.
    pub fn run(&mut self, program: &Program, io: &mut IoChannel, max_steps: usize) -> (r: Result<
        bool,
        RuntimeError,
    >)
        requires
            code_wf(program@),
        ensures
            final(io).input@ == old(io).input@,
            final(self).inv(program@),
            match r {
                Ok(true) => halts_within(
                    program@,
                    old(io).input@,
                    init_state(*old(io)),
                    *final(self),
                    *final(io),
                    max_steps as nat,
                ),
                Ok(false) => mstate_of(*final(self), *final(io)) == steps(
                    program@,
                    old(io).input@,
                    init_state(*old(io)),
                    max_steps as nat,
                ) && !halted(
                    program@,
                    steps(program@, old(io).input@, init_state(*old(io)), max_steps as nat),
                ) && !faults(
                    program@,
                    steps(program@, old(io).input@, init_state(*old(io)), max_steps as nat),
                ),
                Err(e) => e == RuntimeError::TapeOverflow && faults_within(
                    program@,
                    old(io).input@,
                    init_state(*old(io)),
                    *final(self),
                    *final(io),
                    max_steps as nat,
                ),
            },
    {
        let ghost io0 = *io;
        self.reset();
        proof {
            assert(mstate_of(*self, *io) == init_state(io0));
            assert(self.inv(program@)) by {
                assert(program@.len() >= 1);
            }
        }
        self.resume(program, io, max_steps)
    }
}

} // verus!
