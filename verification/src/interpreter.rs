//! The executor: drives a program counter across an instruction sequence,
//! applying each instruction to the tape, consulting the jump table on loop
//! brackets, and producing an output stream plus a terminal session signal.
//!
//! The machine itself is stated as a small-step function over an abstract
//! state; the executable runner is proved to follow it step for step. Since a
//! loop program need not terminate, the runner takes a step budget: a `None`
//! signal says the budget ran out first, and a caller may simply run again.

use vstd::prelude::*;

use crate::bracket_pair::BracketPair;
use crate::enums::{BrainfuckCommand, Command, MemoryUnitType, SessionSignal, ShellCommand};
use crate::memory_space::{
    is_unicode_scalar_value, modulus, wrap_dec, wrap_inc, MemorySpace,
};
use crate::parser::{
    get_first_bracket, get_second_bracket, is_match, jump_table_wf, lemma_close_unique,
    lemma_open_unique, match_close, match_open,
};

verus! {

/// The abstract state of one run: program counter, tape, output buffer, what
/// has been sent to the output sink, how much input was consumed, how many
/// origin-retreat warnings arose, and the terminal signal once one is reached.
pub struct ExecState {
    pub pc: int,
    pub cursor: int,
    pub cells: Seq<u32>,
    pub buffer: Seq<char>,
    pub emitted: Seq<char>,
    pub inpos: int,
    pub warnings: int,
    pub status: Option<SessionSignal>,
}

/// One step of the machine. A program counter past the end completes the run
/// with `Continue`. Otherwise the instruction under the counter is applied:
/// tape operations as the tape defines them, an origin retreat counted as a
/// warning and skipped, output of a non-scalar cell value halting the run,
/// input read from the source or a null character past its end, loop brackets
/// jumping past their partner, and shell directives resetting the session,
/// flushing the buffer to the sink, or quitting.
pub open spec fn step_spec(
    prog: Seq<Command>,
    input: Seq<char>,
    width: MemoryUnitType,
    st: ExecState,
) -> ExecState {
    if !(0 <= st.pc < prog.len()) {
        ExecState { status: Some(SessionSignal::Continue), ..st }
    } else {
        match prog[st.pc] {
            Command::Brainfuck(BrainfuckCommand::PointerIncrement) => ExecState {
                pc: st.pc + 1,
                cursor: st.cursor + 1,
                cells: if st.cursor + 1 >= st.cells.len() {
                    st.cells.push(0u32)
                } else {
                    st.cells
                },
                ..st
            },
            Command::Brainfuck(BrainfuckCommand::PointerDecrement) => if st.cursor == 0 {
                ExecState { pc: st.pc + 1, warnings: st.warnings + 1, ..st }
            } else {
                ExecState { pc: st.pc + 1, cursor: st.cursor - 1, ..st }
            },
            Command::Brainfuck(BrainfuckCommand::DataIncrement) => ExecState {
                pc: st.pc + 1,
                cells: st.cells.update(st.cursor, wrap_inc(st.cells[st.cursor], width)),
                ..st
            },
            Command::Brainfuck(BrainfuckCommand::DataDecrement) => ExecState {
                pc: st.pc + 1,
                cells: st.cells.update(st.cursor, wrap_dec(st.cells[st.cursor], width)),
                ..st
            },
            Command::Brainfuck(BrainfuckCommand::ReturnDataAtPointer) => if is_unicode_scalar_value(
                st.cells[st.cursor],
            ) {
                let ch = st.cells[st.cursor] as char;
                ExecState {
                    pc: st.pc + 1,
                    buffer: st.buffer.push(ch),
                    emitted: st.emitted.push(ch),
                    ..st
                }
            } else {
                ExecState { status: Some(SessionSignal::Halted), ..st }
            },
            Command::Brainfuck(BrainfuckCommand::WriteDataToPointer) => {
                let ch = if st.inpos < input.len() {
                    input[st.inpos]
                } else {
                    '\0'
                };
                ExecState {
                    pc: st.pc + 1,
                    inpos: if st.inpos < input.len() {
                        st.inpos + 1
                    } else {
                        st.inpos
                    },
                    cells: st.cells.update(
                        st.cursor,
                        (((ch as u32) as int) % modulus(width)) as u32,
                    ),
                    ..st
                }
            },
            Command::Brainfuck(BrainfuckCommand::OpenBracket) => if st.cells[st.cursor] == 0 {
                ExecState { pc: match_close(prog, st.pc) + 1, ..st }
            } else {
                ExecState { pc: st.pc + 1, ..st }
            },
            Command::Brainfuck(BrainfuckCommand::ClosedBracket) => if st.cells[st.cursor] != 0 {
                ExecState { pc: match_open(prog, st.pc) + 1, ..st }
            } else {
                ExecState { pc: st.pc + 1, ..st }
            },
            Command::Shell(ShellCommand::ResetValues) => ExecState {
                pc: st.pc + 1,
                cursor: 0,
                cells: seq![0u32],
                buffer: Seq::empty(),
                ..st
            },
            Command::Shell(ShellCommand::PrintString) => ExecState {
                pc: st.pc + 1,
                emitted: st.emitted + st.buffer,
                buffer: Seq::empty(),
                ..st
            },
            Command::Shell(ShellCommand::QuitProgram) => ExecState {
                status: Some(SessionSignal::Quit),
                ..st
            },
        }
    }
}

/// The state after at most `n` steps: stepping stops early once a terminal
/// signal is reached.
pub open spec fn run_spec(
    prog: Seq<Command>,
    input: Seq<char>,
    width: MemoryUnitType,
    st: ExecState,
    n: nat,
) -> ExecState
    decreases n,
{
    if n == 0 {
        st
    } else {
        let prev = run_spec(prog, input, width, st, (n - 1) as nat);
        if prev.status is Some {
            prev
        } else {
            step_spec(prog, input, width, prev)
        }
    }
}

/// Once a run has reached a terminal signal, further steps change nothing.
pub proof fn lemma_run_spec_stable(
    prog: Seq<Command>,
    input: Seq<char>,
    width: MemoryUnitType,
    st: ExecState,
    m: nat,
    n: nat,
)
    requires
        m <= n,
        run_spec(prog, input, width, st, m).status is Some,
    ensures
        run_spec(prog, input, width, st, n) == run_spec(prog, input, width, st, m),
    decreases n,
{
    if n > m {
        lemma_run_spec_stable(prog, input, width, st, m, (n - 1) as nat);
    }
}

/// What one call of the runner produced: the terminal signal (`None` when the
/// step budget ran out first), everything sent to the output sink, and how
/// many origin retreats were reported.
pub struct RunOutcome {
    pub signal: Option<SessionSignal>,
    pub output: Vec<char>,
    pub warnings: u64,
}

/// One interpreter session: a tape and an accumulated output buffer, kept
/// across the runs of a session.
pub struct Interpreter {
    pub memory: MemorySpace,
    pub output_buffer: Vec<char>,
}

impl Interpreter {
    /// The session's tape is well-formed.
    pub open spec fn wf(&self) -> bool {
        self.memory.wf()
    }

    /// The abstract state a run starting now begins in.
    pub open spec fn init_state(&self) -> ExecState {
        ExecState {
            pc: 0,
            cursor: self.memory.cursor(),
            cells: self.memory.cells(),
            buffer: self.output_buffer@,
            emitted: Seq::empty(),
            inpos: 0,
            warnings: 0,
            status: None,
        }
    }

    /// A fresh session: a tape of the given width holding one zero cell, and
    /// an empty output buffer.
    pub fn new(memory_type: MemoryUnitType) -> (r: Self)
        ensures
            r.wf(),
            r.memory.width() == memory_type,
            r.memory.cells() =~= seq![0u32],
            r.memory.cursor() == 0,
            r.output_buffer@ == Seq::<char>::empty(),
    {
        Self { memory: MemorySpace::new(memory_type), output_buffer: Vec::new() }
    }

    /// Runs the instruction sequence against the session, following the
    /// machine `run_spec` describes exactly, for at most `fuel` steps. The
    /// outcome's signal is the machine's terminal status, or `None` when the
    /// budget ran out first; tape, output buffer, sink output, consumed input
    /// and warnings all equal the machine's after those steps.
    pub fn interpret_commands(
        &mut self,
        commands: &Vec<Command>,
        bracket_pairs: &Vec<BracketPair>,
        input: &Vec<char>,
        fuel: u64,
    ) -> (outcome: RunOutcome)
        requires
            old(self).wf(),
            jump_table_wf(commands@, bracket_pairs@),
        ensures
            final(self).wf(),
            final(self).memory.width() == old(self).memory.width(),
            ({
                let fin = run_spec(
                    commands@,
                    input@,
                    old(self).memory.width(),
                    old(self).init_state(),
                    fuel as nat,
                );
                &&& outcome.signal == fin.status
                &&& final(self).memory.cells() == fin.cells
                &&& final(self).memory.cursor() == fin.cursor
                &&& final(self).output_buffer@ == fin.buffer
                &&& outcome.output@ == fin.emitted
                &&& outcome.warnings == fin.warnings
            }),
    {
        let ghost prog = commands@;
        let ghost inp = input@;
        let ghost width = old(self).memory.width();
        let ghost init = old(self).init_state();
        let n = commands.len();
        let mut pc: usize = 0;
        let mut inpos: usize = 0;
        let mut out: Vec<char> = Vec::new();
        let mut warnings: u64 = 0;
        let mut signal: Option<SessionSignal> = None;
        let mut steps: u64 = 0;
        while steps < fuel && signal.is_none()
            invariant
                prog == commands@,
                inp == input@,
                n == prog.len(),
                self.memory.wf(),
                self.memory.width() == width,
                jump_table_wf(prog, bracket_pairs@),
                steps <= fuel,
                pc <= n,
                inpos <= inp.len(),
                warnings <= steps,
                ({
                    let cur = run_spec(prog, inp, width, init, steps as nat);
                    &&& signal == cur.status
                    &&& self.memory.cells() == cur.cells
                    &&& self.memory.cursor() == cur.cursor
                    &&& self.output_buffer@ == cur.buffer
                    &&& out@ == cur.emitted
                    &&& inpos == cur.inpos
                    &&& warnings == cur.warnings
                    &&& (cur.status is None ==> pc == cur.pc)
                }),
            decreases fuel - steps,
        {
            let ghost cur = run_spec(prog, inp, width, init, steps as nat);
            if pc >= n {
                signal = Some(SessionSignal::Continue);
            } else {
                let cmd = commands[pc];
                match cmd {
                    Command::Brainfuck(BrainfuckCommand::PointerIncrement) => {
                        self.memory.pointer_increment();
                        pc = pc + 1;
                    },
                    Command::Brainfuck(BrainfuckCommand::PointerDecrement) => {
                        match self.memory.pointer_decrement() {
                            Ok(_) => {},
                            Err(_) => {
                                warnings = warnings + 1;
                            },
                        }
                        pc = pc + 1;
                    },
                    Command::Brainfuck(BrainfuckCommand::DataIncrement) => {
                        self.memory.data_increment();
                        pc = pc + 1;
                    },
                    Command::Brainfuck(BrainfuckCommand::DataDecrement) => {
                        self.memory.data_decrement();
                        pc = pc + 1;
                    },
                    Command::Brainfuck(BrainfuckCommand::ReturnDataAtPointer) => {
                        match self.memory.get_data_as_char() {
                            Some(c) => {
                                proof {
                                    vstd::utf8::char_u32_cast(c, cur.cells[cur.cursor]);
                                }
                                self.output_buffer.push(c);
                                out.push(c);
                                pc = pc + 1;
                            },
                            None => {
                                signal = Some(SessionSignal::Halted);
                            },
                        }
                    },
                    Command::Brainfuck(BrainfuckCommand::WriteDataToPointer) => {
                        let c: char = if inpos < input.len() {
                            let ch = input[inpos];
                            inpos = inpos + 1;
                            ch
                        } else {
                            '\0'
                        };
                        self.memory.write_data(c);
                        pc = pc + 1;
                    },
                    Command::Brainfuck(BrainfuckCommand::OpenBracket) => {
                        if self.memory.is_data_at_pointer_zero() {
                            match get_second_bracket(bracket_pairs, pc) {
                                Some(cb) => {
                                    proof {
                                        let i = choose|i: int|
                                            0 <= i < bracket_pairs@.len() && (
                                            #[trigger] bracket_pairs@[i]).first() == pc
                                                && bracket_pairs@[i].second() == cb;
                                        assert(is_match(prog, pc as int, cb as int));
                                        assert(is_match(
                                            prog,
                                            pc as int,
                                            match_close(prog, pc as int),
                                        ));
                                        lemma_close_unique(
                                            prog,
                                            pc as int,
                                            cb as int,
                                            match_close(prog, pc as int),
                                        );
                                    }
                                    pc = cb + 1;
                                },
                                None => {
                                    proof {
                                        assert(exists|i: int|
                                            0 <= i < bracket_pairs@.len() && (
                                            #[trigger] bracket_pairs@[i]).first() == pc);
                                    }
                                    vstd::pervasive::unreached()
                                },
                            }
                        } else {
                            pc = pc + 1;
                        }
                    },
                    Command::Brainfuck(BrainfuckCommand::ClosedBracket) => {
                        if !self.memory.is_data_at_pointer_zero() {
                            match get_first_bracket(bracket_pairs, pc) {
                                Some(ob) => {
                                    proof {
                                        let i = choose|i: int|
                                            0 <= i < bracket_pairs@.len() && (
                                            #[trigger] bracket_pairs@[i]).second() == pc
                                                && bracket_pairs@[i].first() == ob;
                                        assert(is_match(prog, ob as int, pc as int));
                                        assert(is_match(
                                            prog,
                                            match_open(prog, pc as int),
                                            pc as int,
                                        ));
                                        lemma_open_unique(
                                            prog,
                                            ob as int,
                                            match_open(prog, pc as int),
                                            pc as int,
                                        );
                                    }
                                    pc = ob + 1;
                                },
                                None => {
                                    proof {
                                        assert(exists|i: int|
                                            0 <= i < bracket_pairs@.len() && (
                                            #[trigger] bracket_pairs@[i]).second() == pc);
                                    }
                                    vstd::pervasive::unreached()
                                },
                            }
                        } else {
                            pc = pc + 1;
                        }
                    },
                    Command::Shell(ShellCommand::ResetValues) => {
                        self.memory.reset();
                        self.output_buffer = Vec::new();
                        pc = pc + 1;
                    },
                    Command::Shell(ShellCommand::PrintString) => {
                        let m = self.output_buffer.len();
                        let ghost out_before = out@;
                        let mut k: usize = 0;
                        proof {
                            assert(out@ =~= out_before + self.output_buffer@.take(0));
                        }
                        while k < m
                            invariant
                                k <= m,
                                m == self.output_buffer@.len(),
                                out@ == out_before + self.output_buffer@.take(k as int),
                            decreases m - k,
                        {
                            out.push(self.output_buffer[k]);
                            proof {
                                assert(out@ =~= out_before + self.output_buffer@.take(
                                    k as int + 1,
                                ));
                            }
                            k = k + 1;
                        }
                        proof {
                            assert(self.output_buffer@.take(m as int) =~= self.output_buffer@);
                        }
                        self.output_buffer = Vec::new();
                        pc = pc + 1;
                    },
                    Command::Shell(ShellCommand::QuitProgram) => {
                        signal = Some(SessionSignal::Quit);
                    },
                }
            }
            steps = steps + 1;
            proof {
                assert(run_spec(prog, inp, width, init, steps as nat) == step_spec(
                    prog,
                    inp,
                    width,
                    cur,
                ));
            }
        }
        proof {
            if signal is Some {
                lemma_run_spec_stable(prog, inp, width, init, steps as nat, fuel as nat);
            }
        }
        RunOutcome { signal, output: out, warnings }
    }
}

} // verus!
