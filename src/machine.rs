use vstd::prelude::*;

use crate::error::EngineError;
use crate::instruction::Instruction;
use crate::loops::{balanced, is_jump_table, lemma_loop_end_closes, loop_start_of, match_loops, unbalanced_at};

verus! {

/// The number of cells on the tape.
pub const TAPE_LEN: usize = 1000;

/// The state of a run, as values.
pub struct MachineState {
    pub tape: Seq<u8>,
    pub ptr: int,
    pub ip: int,
    pub output: Seq<u8>,
    pub input_pos: int,
}

/// A zeroed tape, the pointers at 0, nothing written and nothing read.
pub open spec fn initial_state() -> MachineState {
    MachineState {
        tape: Seq::new(TAPE_LEN as nat, |i: int| 0u8),
        ptr: 0,
        ip: 0,
        output: Seq::empty(),
        input_pos: 0,
    }
}

/// Whether the instruction pointer has run off the end of `p`.
pub open spec fn halted(p: Seq<Instruction>, m: MachineState) -> bool {
    m.ip >= p.len()
}

/// One instruction of `p`, the one at `m.ip`. `ReadInput` takes the next byte
/// of `input` and leaves the cell alone once `input` is used up. `LoopEnd`
/// goes back to the instruction after its `LoopStart` while the cell is not
/// zero. A move of the data pointer off the tape fails.
pub open spec fn step_spec(p: Seq<Instruction>, input: Seq<u8>, m: MachineState) -> Result<
    MachineState,
    EngineError,
> {
    let next = MachineState { ip: m.ip + 1, ..m };
    match p[m.ip] {
        Instruction::MovePtrRight => if m.ptr + 1 >= TAPE_LEN {
            Err(EngineError::OutOfBoundsError { position: m.ip as usize })
        } else {
            Ok(MachineState { ptr: m.ptr + 1, ..next })
        },
        Instruction::MovePtrLeft => if m.ptr == 0 {
            Err(EngineError::OutOfBoundsError { position: m.ip as usize })
        } else {
            Ok(MachineState { ptr: m.ptr - 1, ..next })
        },
        Instruction::IncrementCell => Ok(
            MachineState { tape: m.tape.update(m.ptr, ((m.tape[m.ptr] + 1) % 256) as u8), ..next },
        ),
        Instruction::DecrementCell => Ok(
            MachineState {
                tape: m.tape.update(m.ptr, ((m.tape[m.ptr] + 255) % 256) as u8),
                ..next
            },
        ),
        Instruction::EmitOutput => Ok(MachineState { output: m.output.push(m.tape[m.ptr]), ..next }),
        Instruction::ReadInput => if m.input_pos < input.len() {
            Ok(
                MachineState {
                    tape: m.tape.update(m.ptr, input[m.input_pos]),
                    input_pos: m.input_pos + 1,
                    ..next
                },
            )
        } else {
            Ok(next)
        },
        Instruction::LoopStart => Ok(next),
        Instruction::LoopEnd => if m.tape[m.ptr] != 0 {
            Ok(MachineState { ip: loop_start_of(p, m.ip) + 1, ..m })
        } else {
            Ok(next)
        },
    }
}

/// At most `fuel` steps of `p` from `m`, ending early when `p` halts or a step
/// fails.
pub open spec fn run_spec(p: Seq<Instruction>, input: Seq<u8>, m: MachineState, fuel: nat) -> Result<
    MachineState,
    EngineError,
>
    decreases fuel,
{
    if fuel == 0 || halted(p, m) {
        Ok(m)
    } else {
        match step_spec(p, input, m) {
            Err(e) => Err(e),
            Ok(m2) => run_spec(p, input, m2, (fuel - 1) as nat),
        }
    }
}

/// `k` increments in a row, starting at `m.ip`, add `k` modulo 256 to the
/// cell under the data pointer and change nothing else but the instruction
/// pointer.
pub proof fn lemma_increments(p: Seq<Instruction>, input: Seq<u8>, m: MachineState, k: nat)
    requires
        0 <= m.ptr < m.tape.len(),
        0 <= m.ip,
        m.ip + k <= p.len(),
        forall|i: int| m.ip <= i < m.ip + k ==> p[i] == Instruction::IncrementCell,
    ensures
        run_spec(p, input, m, k) == Ok::<MachineState, EngineError>(
            MachineState {
                tape: m.tape.update(m.ptr, ((m.tape[m.ptr] + k) % 256) as u8),
                ip: m.ip + k,
                ..m
            },
        ),
    decreases k,
{
    if k == 0 {
        assert(m.tape.update(m.ptr, ((m.tape[m.ptr] + k) % 256) as u8) =~= m.tape);
    } else {
        let m1 = MachineState {
            tape: m.tape.update(m.ptr, ((m.tape[m.ptr] + 1) % 256) as u8),
            ip: m.ip + 1,
            ..m
        };
        assert(step_spec(p, input, m) == Ok::<MachineState, EngineError>(m1));
        lemma_increments(p, input, m1, (k - 1) as nat);
        assert(((m1.tape[m.ptr] + (k - 1)) % 256) == ((m.tape[m.ptr] + k) % 256));
        assert(m1.tape.update(m.ptr, ((m1.tape[m.ptr] + (k - 1)) % 256) as u8) =~= m.tape.update(
            m.ptr,
            ((m.tape[m.ptr] + k) % 256) as u8,
        ));
    }
}

/// 256 increments in a row leave every cell as it was: cell arithmetic wraps
/// modulo 256.
pub proof fn lemma_byte_wraparound(p: Seq<Instruction>, input: Seq<u8>, m: MachineState)
    requires
        0 <= m.ptr < m.tape.len(),
        0 <= m.ip,
        m.ip + 256 <= p.len(),
        forall|i: int| m.ip <= i < m.ip + 256 ==> p[i] == Instruction::IncrementCell,
    ensures
        run_spec(p, input, m, 256) == Ok::<MachineState, EngineError>(
            MachineState { ip: m.ip + 256, ..m },
        ),
{
    lemma_increments(p, input, m, 256);
    assert(m.tape.update(m.ptr, ((m.tape[m.ptr] + 256) % 256) as u8) =~= m.tape);
}

/// A program without loops, run for as many steps as it has instructions left,
/// either reaches its end or moves the data pointer off the tape.
pub proof fn lemma_loop_free_halts(p: Seq<Instruction>, input: Seq<u8>, m: MachineState)
    requires
        0 <= m.ip <= p.len(),
        forall|i: int|
            0 <= i < p.len() ==> p[i] != Instruction::LoopStart && p[i] != Instruction::LoopEnd,
    ensures
        run_spec(p, input, m, (p.len() - m.ip) as nat) matches Ok(s) ==> halted(p, s),
        run_spec(p, input, m, (p.len() - m.ip) as nat) matches Err(e) ==> e
            is OutOfBoundsError,
    decreases p.len() - m.ip,
{
    if m.ip < p.len() {
        match step_spec(p, input, m) {
            Ok(m1) => {
                assert(m1.ip == m.ip + 1);
                lemma_loop_free_halts(p, input, m1);
            },
            Err(e) => {},
        }
    }
}

/// A program with its input and the state of its run.
pub struct Interpreter {
    program: Vec<Instruction>,
    jumps: Vec<usize>,
    input: Vec<u8>,
    tape: Vec<u8>,
    ptr: usize,
    ip: usize,
    output: Vec<u8>,
    input_pos: usize,
}

impl Interpreter {
    /// The program being run.
    pub closed spec fn program_view(&self) -> Seq<Instruction> {
        self.program@
    }

    /// The bytes that `ReadInput` takes, in order.
    pub closed spec fn input_view(&self) -> Seq<u8> {
        self.input@
    }

    /// The state of the run.
    pub closed spec fn state(&self) -> MachineState {
        MachineState {
            tape: self.tape@,
            ptr: self.ptr as int,
            ip: self.ip as int,
            output: self.output@,
            input_pos: self.input_pos as int,
        }
    }

    /// The program is balanced and its jump table is right; the state lies
    /// within the tape, the program and the input.
    pub closed spec fn wf(&self) -> bool {
        &&& balanced(self.program@)
        &&& is_jump_table(self.program@, self.jumps@)
        &&& self.tape@.len() == TAPE_LEN
        &&& self.ptr < TAPE_LEN
        &&& self.ip <= self.program@.len()
        &&& self.input_pos <= self.input@.len()
    }

    /// Sets up a run of `program` on `input` from the initial state. Fails
    /// where the brackets of `program` go wrong.
    pub fn new(program: Vec<Instruction>, input: Vec<u8>) -> (r: Result<Interpreter, EngineError>)
        ensures
            balanced(program@) <==> r.is_ok(),
            r matches Ok(m) ==> (m.wf() && m.program_view() == program@ && m.input_view()
                == input@ && m.state() == initial_state()),
            r matches Err(e) ==> (e matches EngineError::UnbalancedLoopError { position }
                && unbalanced_at(program@, position as int)),
    {
        let jumps = match match_loops(&program) {
            Ok(j) => j,
            Err(e) => {
                return Err(e);
            },
        };
        let tape: Vec<u8> = vec![0u8; TAPE_LEN];
        let m = Interpreter {
            program,
            jumps,
            input,
            tape,
            ptr: 0,
            ip: 0,
            output: Vec::new(),
            input_pos: 0,
        };
        assert(m.state().tape =~= initial_state().tape);
        assert(m.state().output =~= initial_state().output);
        Ok(m)
    }

    /// Whether the run has come to the end of the program.
    pub fn is_halted(&self) -> (r: bool)
        requires
            self.wf(),
        ensures
            r == halted(self.program_view(), self.state()),
    {
        self.ip >= self.program.len()
    }

    /// Runs one instruction. On failure the state is left as it was.
    pub fn step(&mut self) -> (r: Result<(), EngineError>)
        requires
            old(self).wf(),
            !halted(old(self).program_view(), old(self).state()),
        ensures
            final(self).wf(),
            final(self).program_view() == old(self).program_view(),
            final(self).input_view() == old(self).input_view(),
            match step_spec(old(self).program_view(), old(self).input_view(), old(self).state()) {
                Ok(s) => r is Ok && final(self).state() == s,
                Err(e) => r == Err::<(), EngineError>(e) && final(self).state() == old(
                    self,
                ).state(),
            },
    {
        let n = self.program.len();
        let ip = self.ip;
        let ptr = self.ptr;
        match self.program[ip] {
            Instruction::MovePtrRight => {
                if ptr + 1 >= TAPE_LEN {
                    return Err(EngineError::OutOfBoundsError { position: ip });
                }
                self.ptr = ptr + 1;
            },
            Instruction::MovePtrLeft => {
                if ptr == 0 {
                    return Err(EngineError::OutOfBoundsError { position: ip });
                }
                self.ptr = ptr - 1;
            },
            Instruction::IncrementCell => {
                let v = self.tape[ptr].wrapping_add(1);
                self.tape.set(ptr, v);
            },
            Instruction::DecrementCell => {
                let v = self.tape[ptr].wrapping_sub(1);
                self.tape.set(ptr, v);
            },
            Instruction::EmitOutput => {
                let v = self.tape[ptr];
                self.output.push(v);
            },
            Instruction::ReadInput => {
                if self.input_pos < self.input.len() {
                    let v = self.input[self.input_pos];
                    self.tape.set(ptr, v);
                    self.input_pos = self.input_pos + 1;
                }
            },
            Instruction::LoopStart => {},
            Instruction::LoopEnd => {
                if self.tape[ptr] != 0 {
                    proof {
                        lemma_loop_end_closes(self.program@, ip as int);
                    }
                    self.ip = self.jumps[ip] + 1;
                    return Ok(());
                }
            },
        }
        assert(ip < n);
        self.ip = ip + 1;
        Ok(())
    }

    /// Runs at most `max_steps` instructions, stopping early when the program
    /// halts or an instruction fails.
    pub fn run(&mut self, max_steps: u64) -> (r: Result<(), EngineError>)
        requires
            old(self).wf(),
        ensures
            final(self).wf(),
            final(self).program_view() == old(self).program_view(),
            final(self).input_view() == old(self).input_view(),
            match run_spec(
                old(self).program_view(),
                old(self).input_view(),
                old(self).state(),
                max_steps as nat,
            ) {
                Ok(s) => r is Ok && final(self).state() == s,
                Err(e) => r == Err::<(), EngineError>(e),
            },
    {
        let ghost p = self.program_view();
        let ghost input = self.input_view();
        let ghost goal = run_spec(p, input, self.state(), max_steps as nat);
        let mut left: u64 = max_steps;
        while left > 0 && !self.is_halted()
            invariant
                self.wf(),
                p == old(self).program_view(),
                input == old(self).input_view(),
                goal == run_spec(p, input, old(self).state(), max_steps as nat),
                self.program_view() == p,
                self.input_view() == input,
                run_spec(p, input, self.state(), left as nat) == goal,
            decreases left,
        {
            let ghost before = self.state();
            match self.step() {
                Ok(()) => {},
                Err(e) => {
                    assert(step_spec(p, input, before) == Err::<MachineState, EngineError>(e));
                    assert(run_spec(p, input, before, left as nat) == Err::<MachineState, EngineError>(e));
                    return Err(e);
                },
            }
            left = left - 1;
        }
        Ok(())
    }

    /// The tape.
    pub fn tape(&self) -> (r: &Vec<u8>)
        ensures
            r@ == self.state().tape,
    {
        &self.tape
    }

    /// The bytes written so far, in order.
    pub fn output(&self) -> (r: &Vec<u8>)
        ensures
            r@ == self.state().output,
    {
        &self.output
    }

    /// The position of the data pointer on the tape.
    pub fn data_pointer(&self) -> (r: usize)
        ensures
            r == self.state().ptr,
    {
        self.ptr
    }

    /// The position of the next instruction.
    pub fn instruction_pointer(&self) -> (r: usize)
        ensures
            r == self.state().ip,
    {
        self.ip
    }
}

/// Runs `code` on `input` from the initial state for at most `max_steps`
/// instructions. Fails where the brackets of `code` go wrong, before any
/// instruction runs, or where an instruction moves the data pointer off the
/// tape.
pub fn compile(code: Vec<Instruction>, input: Vec<u8>, max_steps: u64) -> (r: Result<
    Interpreter,
    EngineError,
>)
    ensures
        r is Ok <==> (balanced(code@) && run_spec(code@, input@, initial_state(), max_steps as nat)
            is Ok),
        r matches Ok(m) ==> (m.wf() && m.program_view() == code@ && m.input_view() == input@
            && Ok::<MachineState, EngineError>(m.state()) == run_spec(
            code@,
            input@,
            initial_state(),
            max_steps as nat,
        )),
        r matches Err(e) ==> if balanced(code@) {
            Err::<MachineState, EngineError>(e) == run_spec(
                code@,
                input@,
                initial_state(),
                max_steps as nat,
            )
        } else {
            e matches EngineError::UnbalancedLoopError { position } && unbalanced_at(
                code@,
                position as int,
            )
        },
{
    let mut m = match Interpreter::new(code, input) {
        Ok(m) => m,
        Err(e) => {
            return Err(e);
        },
    };
    match m.run(max_steps) {
        Ok(()) => Ok(m),
        Err(e) => Err(e),
    }
}

} // verus!
