//! The mathematical model of the machine: a small-step transition function
//! over spec-level configurations, and a fuel-indexed big-step run function.
//! The executable engine is proved to follow this model step by step.

use vstd::prelude::*;

verus! {

/// The default number of cells on the tape.
pub const DEFAULT_TAPE_LEN: usize = 30000;

/// The instruction byte `>`: move the data pointer right.
pub const MOVE_RIGHT: u8 = 62;

/// The instruction byte `<`: move the data pointer left.
pub const MOVE_LEFT: u8 = 60;

/// The instruction byte `+`: increment the current cell.
pub const INCREMENT: u8 = 43;

/// The instruction byte `-`: decrement the current cell.
pub const DECREMENT: u8 = 45;

/// The instruction byte `.`: output the current cell.
pub const OUTPUT: u8 = 46;

/// The instruction byte `,`: read one input byte into the current cell.
pub const INPUT: u8 = 44;

/// The instruction byte `[`: loop start.
pub const LOOP_START: u8 = 91;

/// The instruction byte `]`: loop end.
pub const LOOP_END: u8 = 93;

/// A fatal execution error.
#[derive(Clone, Copy, Debug, PartialEq, Eq, Structural)]
pub enum BfError {
    /// A loop-end was reached with no open loop on the stack.
    UnresolvedBracket,
    /// A skip-scan ran past the end of the program without finding the
    /// matching loop-end.
    BoundsExhausted,
    /// An input instruction was reached with no input left.
    InputExhausted,
}

/// How a completed run ended.
#[derive(Clone, Copy, Debug, PartialEq, Eq, Structural)]
pub enum RunStatus {
    /// The cursor reached the end of the program.
    Finished,
    /// Execution aborted with a fatal error.
    Fault(BfError),
    /// The fuel bound was exhausted before the program ended.
    OutOfFuel,
}

/// A machine configuration: everything the next step depends on, apart from
/// the (immutable) program and the input stream.
pub ghost struct Conf {
    /// The tape cells.
    pub tape: Seq<u8>,
    /// The data pointer: an index into the tape.
    pub ptr: int,
    /// The instruction cursor: an index into the program.
    pub cursor: int,
    /// The loop stack: cursor positions of the open loop-start instructions.
    pub stack: Seq<int>,
}

/// What one small step does, besides transforming the configuration.
pub ghost enum Step {
    /// An ordinary step: the new configuration, and the byte written to the
    /// output, if the instruction was an output instruction.
    Next { c: Conf, out: Option<u8> },
    /// The cursor stands on an input instruction: one input byte is needed
    /// before the machine can move (see `input_step`).
    NeedInput,
    /// A fatal error; the configuration is unchanged.
    Fault(BfError),
    /// The cursor is at or past the end of the program.
    Halted,
}

/// Scan forward from position `i` for the loop-end that closes the current
/// loop body, skipping `depth` still-open nested loops: every loop-start met
/// raises the depth, every loop-end lowers it, and the loop-end met at depth
/// zero is the match. `None` when the scan runs past the end of the program.
pub open spec fn scan_close(prog: Seq<u8>, i: int, depth: int) -> Option<int>
    decreases prog.len() - i,
{
    if i < 0 || i >= prog.len() {
        None
    } else if prog[i] == LOOP_END {
        if depth == 0 {
            Some(i)
        } else {
            scan_close(prog, i + 1, depth - 1)
        }
    } else if prog[i] == LOOP_START {
        scan_close(prog, i + 1, depth + 1)
    } else {
        scan_close(prog, i + 1, depth)
    }
}

/// A cell increment: saturates at the largest byte value instead of wrapping.
pub open spec fn sat_inc(v: u8) -> u8 {
    if v < 255 {
        (v + 1) as u8
    } else {
        v
    }
}

/// A cell decrement: saturates at zero instead of wrapping.
pub open spec fn sat_dec(v: u8) -> u8 {
    if v > 0 {
        (v - 1) as u8
    } else {
        v
    }
}

/// The small-step transition function. The instruction bytes are those of
/// the eight instruction characters; every other byte is a comment and only
/// advances the cursor.
pub open spec fn spec_step(prog: Seq<u8>, c: Conf) -> Step {
    if c.cursor < 0 || c.cursor >= prog.len() {
        Step::Halted
    } else {
        let b = prog[c.cursor];
        if b == MOVE_RIGHT {  // '>' : move right, clamped at the last cell
            Step::Next {
                c: Conf {
                    ptr: if c.ptr + 1 < c.tape.len() {
                        c.ptr + 1
                    } else {
                        c.ptr
                    },
                    cursor: c.cursor + 1,
                    ..c
                },
                out: None,
            }
        } else if b == MOVE_LEFT {  // '<' : move left, clamped at cell zero
            Step::Next {
                c: Conf {
                    ptr: if c.ptr > 0 {
                        c.ptr - 1
                    } else {
                        c.ptr
                    },
                    cursor: c.cursor + 1,
                    ..c
                },
                out: None,
            }
        } else if b == INCREMENT {  // '+' : saturating increment of the cell
            Step::Next {
                c: Conf { tape: c.tape.update(c.ptr, sat_inc(c.tape[c.ptr])), cursor: c.cursor + 1, ..c },
                out: None,
            }
        } else if b == DECREMENT {  // '-' : saturating decrement of the cell
            Step::Next {
                c: Conf { tape: c.tape.update(c.ptr, sat_dec(c.tape[c.ptr])), cursor: c.cursor + 1, ..c },
                out: None,
            }
        } else if b == OUTPUT {  // '.' : output the cell
            Step::Next { c: Conf { cursor: c.cursor + 1, ..c }, out: Some(c.tape[c.ptr]) }
        } else if b == INPUT {  // ',' : input one byte into the cell
            Step::NeedInput
        } else if b == LOOP_START {  // '[' : enter the loop, or skip a zero loop
            if c.tape[c.ptr] != 0 {
                Step::Next {
                    c: Conf { stack: c.stack.push(c.cursor), cursor: c.cursor + 1, ..c },
                    out: None,
                }
            } else {
                match scan_close(prog, c.cursor + 1, 0) {
                    Some(j) => Step::Next { c: Conf { cursor: j + 1, ..c }, out: None },
                    None => Step::Fault(BfError::BoundsExhausted),
                }
            }
        } else if b == LOOP_END {  // ']' : jump back while the cell is nonzero
            if c.stack.len() == 0 {
                Step::Fault(BfError::UnresolvedBracket)
            } else if c.tape[c.ptr] != 0 {
                Step::Next {
                    c: Conf { cursor: c.stack.last(), stack: c.stack.drop_last(), ..c },
                    out: None,
                }
            } else {
                Step::Next {
                    c: Conf { cursor: c.cursor + 1, stack: c.stack.drop_last(), ..c },
                    out: None,
                }
            }
        } else {  // any other byte: a comment
            Step::Next { c: Conf { cursor: c.cursor + 1, ..c }, out: None }
        }
    }
}

/// How an input instruction consumes the byte `b`: store it in the current
/// cell and advance the cursor.
pub open spec fn input_step(c: Conf, b: u8) -> Conf {
    Conf { tape: c.tape.update(c.ptr, b), cursor: c.cursor + 1, ..c }
}

/// Where a run ended: its status, its final configuration, and the whole
/// output it produced.
pub ghost struct RunEnd {
    pub status: RunStatus,
    pub c: Conf,
    pub output: Seq<u8>,
}

/// The big-step run function: execute from configuration `c` with the given
/// input stream, for at most `fuel` instructions. Deterministic by
/// construction: the program, the starting configuration, the input and the
/// fuel decide the whole outcome.
pub open spec fn spec_run(prog: Seq<u8>, c: Conf, input: Seq<u8>, fuel: nat) -> RunEnd
    decreases fuel,
{
    if c.cursor >= prog.len() || c.cursor < 0 {
        RunEnd { status: RunStatus::Finished, c, output: Seq::empty() }
    } else if fuel == 0 {
        RunEnd { status: RunStatus::OutOfFuel, c, output: Seq::empty() }
    } else {
        match spec_step(prog, c) {
            Step::Fault(e) => RunEnd { status: RunStatus::Fault(e), c, output: Seq::empty() },
            Step::NeedInput => {
                if input.len() == 0 {
                    RunEnd { status: RunStatus::Fault(BfError::InputExhausted), c, output: Seq::empty() }
                } else {
                    spec_run(prog, input_step(c, input[0]), input.drop_first(), (fuel - 1) as nat)
                }
            },
            Step::Next { c: c2, out } => {
                let rest = spec_run(prog, c2, input, (fuel - 1) as nat);
                match out {
                    Some(byte) => RunEnd { status: rest.status, c: rest.c, output: seq![byte] + rest.output },
                    None => rest,
                }
            },
            Step::Halted => RunEnd { status: RunStatus::Finished, c, output: Seq::empty() },
        }
    }
}

/// The configuration a fresh machine starts in: a zeroed tape of the given
/// length, pointer and cursor at zero, empty loop stack.
pub open spec fn init_conf(tape_len: nat) -> Conf {
    Conf { tape: Seq::new(tape_len, |i: int| 0u8), ptr: 0, cursor: 0, stack: Seq::empty() }
}

/// The run outcome is a function of the program, the input and the fuel
/// alone: two runs of the same program on the same input, with the same tape
/// length and fuel bound, end with the same status, the same configuration
/// and the same output.
pub proof fn lemma_run_deterministic(
    prog1: Seq<u8>,
    prog2: Seq<u8>,
    input1: Seq<u8>,
    input2: Seq<u8>,
    tape_len: nat,
    fuel: nat,
)
    requires
        prog1 == prog2,
        input1 == input2,
    ensures
        spec_run(prog1, init_conf(tape_len), input1, fuel) == spec_run(
            prog2,
            init_conf(tape_len),
            input2,
            fuel,
        ),
{
}

} // verus!
