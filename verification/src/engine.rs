//! The executable engine: a fetch-decode-execute machine over the program
//! bytes, proved to follow the small-step model in `semantics` exactly. One
//! `step` executes one instruction; `run` drives the machine over a whole
//! program with a bounded instruction budget and collects the output.

use vstd::prelude::*;
use crate::semantics::{
    BfError, Conf, DECREMENT, INCREMENT, INPUT, LOOP_END, LOOP_START, MOVE_LEFT, MOVE_RIGHT,
    OUTPUT, RunStatus, Step, init_conf, input_step, sat_dec, sat_inc, scan_close, spec_run,
    spec_step,
};

verus! {

/// Per-instruction-kind execution counters, collected for observability
/// only: they never affect control flow. Each counter saturates at the
/// largest value it can hold instead of overflowing.
#[derive(Clone, Copy, Debug, PartialEq, Eq, Structural)]
pub struct Stats {
    /// Moves left executed.
    pub lt: u64,
    /// Moves right executed.
    pub gt: u64,
    /// Increments executed.
    pub plus: u64,
    /// Decrements executed.
    pub minus: u64,
    /// Output instructions executed.
    pub dot: u64,
    /// Input instructions executed.
    pub comma: u64,
    /// Loop-start instructions executed.
    pub start_loop: u64,
    /// Loop-end instructions executed.
    pub end_loop: u64,
    /// Comment bytes skipped.
    pub skipped: u64,
}

/// A counter increment that saturates instead of overflowing.
pub open spec fn sat_count(v: u64) -> u64 {
    if v < u64::MAX {
        (v + 1) as u64
    } else {
        v
    }
}

/// All counters at zero: the statistics of a fresh engine.
pub open spec fn zero_stats() -> Stats {
    Stats {
        lt: 0,
        gt: 0,
        plus: 0,
        minus: 0,
        dot: 0,
        comma: 0,
        start_loop: 0,
        end_loop: 0,
        skipped: 0,
    }
}

/// The statistics after dispatching the instruction byte `b`: the counter of
/// that byte's kind rises by one, saturating; the others are untouched.
pub open spec fn stats_after(s: Stats, b: u8) -> Stats {
    if b == MOVE_RIGHT {
        Stats { gt: sat_count(s.gt), ..s }
    } else if b == MOVE_LEFT {
        Stats { lt: sat_count(s.lt), ..s }
    } else if b == INCREMENT {
        Stats { plus: sat_count(s.plus), ..s }
    } else if b == DECREMENT {
        Stats { minus: sat_count(s.minus), ..s }
    } else if b == OUTPUT {
        Stats { dot: sat_count(s.dot), ..s }
    } else if b == INPUT {
        Stats { comma: sat_count(s.comma), ..s }
    } else if b == LOOP_START {
        Stats { start_loop: sat_count(s.start_loop), ..s }
    } else if b == LOOP_END {
        Stats { end_loop: sat_count(s.end_loop), ..s }
    } else {
        Stats { skipped: sat_count(s.skipped), ..s }
    }
}

/// What one call of `step` did.
#[derive(Clone, Copy, Debug, PartialEq, Eq, Structural)]
pub enum StepEffect {
    /// One instruction ran, with no effect outside the machine.
    Quiet,
    /// An output instruction ran: this byte is to be written to the console.
    Output(u8),
    /// The cursor stands on an input instruction: the machine did not move;
    /// feed it one byte with `provide_input`.
    NeedInput,
    /// The cursor is at or past the end of the program: execution is over.
    Halted,
    /// A fatal error: the machine did not move and will not move again.
    Fault(BfError),
}

/// The execution engine: the program, the tape, the data pointer, the
/// instruction cursor, the loop stack and the statistics, owned for the
/// duration of one program execution.
pub struct Engine {
    program: Vec<u8>,
    tape: Vec<u8>,
    ptr: usize,
    cursor: usize,
    stack: Vec<usize>,
    stats: Stats,
}

impl Engine {
    /// The program bytes under execution.
    pub closed spec fn prog(self) -> Seq<u8> {
        self.program@
    }

    /// The machine configuration of the model that this engine realizes.
    pub closed spec fn conf(self) -> Conf {
        Conf {
            tape: self.tape@,
            ptr: self.ptr as int,
            cursor: self.cursor as int,
            stack: self.stack@.map_values(|v: usize| v as int),
        }
    }

    /// The statistics counters gathered so far.
    pub closed spec fn stats_spec(self) -> Stats {
        self.stats
    }

    /// Well-formedness: the pointer is inside the (non-empty) tape, the
    /// cursor is at most one past the last instruction, and every saved
    /// loop-start position lies inside the program.
    pub closed spec fn wf(self) -> bool {
        &&& self.tape@.len() >= 1
        &&& (self.ptr as int) < self.tape@.len()
        &&& self.cursor as int <= self.program@.len()
        &&& forall|k: int|
            0 <= k < self.stack@.len() ==> (#[trigger] self.stack@[k] as int)
                < self.program@.len()
    }

    /// A fresh engine: the given program, a zeroed tape of `tape_len` cells,
    /// pointer and cursor at zero, empty loop stack, all counters at zero.
    pub fn new(program: Vec<u8>, tape_len: usize) -> (e: Engine)
        requires
            tape_len >= 1,
        ensures
            e.wf(),
            e.prog() == program@,
            e.conf() == init_conf(tape_len as nat),
            e.stats_spec() == zero_stats(),
    {
        let mut tape: Vec<u8> = Vec::new();
        while tape.len() < tape_len
            invariant
                tape@.len() <= tape_len,
                forall|k: int| 0 <= k < tape@.len() ==> tape@[k] == 0u8,
            decreases tape_len - tape.len(),
        {
            tape.push(0);
        }
        let e = Engine {
            program,
            tape,
            ptr: 0,
            cursor: 0,
            stack: Vec::new(),
            stats: Stats {
                lt: 0,
                gt: 0,
                plus: 0,
                minus: 0,
                dot: 0,
                comma: 0,
                start_loop: 0,
                end_loop: 0,
                skipped: 0,
            },
        };
        proof {
            assert(e.conf().tape =~= init_conf(tape_len as nat).tape);
            assert(e.conf().stack =~= init_conf(tape_len as nat).stack);
        }
        e
    }
}

/// A saturating counter increment.
fn bump(c: &mut u64)
    ensures
        *final(c) == sat_count(*old(c)),
{
    if *c < u64::MAX {
        *c = *c + 1;
    }
}

impl Engine {
    /// Execute one instruction: exactly one small step of the model. The
    /// returned effect says what happened; on `NeedInput`, `Halted` and
    /// `Fault` the machine state is unchanged. Statistics count the
    /// dispatched instruction, except on halt, on a fault, and on an input
    /// instruction, which is counted when its byte arrives.
    pub fn step(&mut self) -> (eff: StepEffect)
        requires
            old(self).wf(),
        ensures
            final(self).wf(),
            final(self).prog() == old(self).prog(),
            match eff {
                StepEffect::Quiet => {
                    &&& spec_step(old(self).prog(), old(self).conf()) == (Step::Next {
                        c: final(self).conf(),
                        out: None::<u8>,
                    })
                    &&& final(self).stats_spec() == stats_after(
                        old(self).stats_spec(),
                        old(self).prog()[old(self).conf().cursor],
                    )
                },
                StepEffect::Output(b) => {
                    &&& spec_step(old(self).prog(), old(self).conf()) == (Step::Next {
                        c: final(self).conf(),
                        out: Some(b),
                    })
                    &&& final(self).stats_spec() == stats_after(old(self).stats_spec(), OUTPUT)
                },
                StepEffect::NeedInput => {
                    &&& spec_step(old(self).prog(), old(self).conf()) == Step::NeedInput
                    &&& final(self).conf() == old(self).conf()
                    &&& final(self).stats_spec() == old(self).stats_spec()
                },
                StepEffect::Halted => {
                    &&& old(self).conf().cursor >= old(self).prog().len()
                    &&& final(self).conf() == old(self).conf()
                    &&& final(self).stats_spec() == old(self).stats_spec()
                },
                StepEffect::Fault(e) => {
                    &&& spec_step(old(self).prog(), old(self).conf()) == Step::Fault(e)
                    &&& final(self).conf() == old(self).conf()
                    &&& final(self).stats_spec() == old(self).stats_spec()
                },
            },
    {
        if self.cursor >= self.program.len() {
            return StepEffect::Halted;
        }
        let b = self.program[self.cursor];
        if b == MOVE_RIGHT {
            let tl = self.tape.len();
            if self.ptr + 1 < tl {
                self.ptr = self.ptr + 1;
            }
            self.cursor = self.cursor + 1;
            bump(&mut self.stats.gt);
            StepEffect::Quiet
        } else if b == MOVE_LEFT {
            if self.ptr > 0 {
                self.ptr = self.ptr - 1;
            }
            self.cursor = self.cursor + 1;
            bump(&mut self.stats.lt);
            StepEffect::Quiet
        } else if b == INCREMENT {
            let v = self.tape[self.ptr];
            if v < 255 {
                self.tape[self.ptr] = v + 1;
            }
            self.cursor = self.cursor + 1;
            bump(&mut self.stats.plus);
            proof {
                assert(self.tape@ =~= old(self).tape@.update(
                    old(self).ptr as int,
                    sat_inc(old(self).tape@[old(self).ptr as int]),
                ));
            }
            StepEffect::Quiet
        } else if b == DECREMENT {
            let v = self.tape[self.ptr];
            if v > 0 {
                self.tape[self.ptr] = v - 1;
            }
            self.cursor = self.cursor + 1;
            bump(&mut self.stats.minus);
            proof {
                assert(self.tape@ =~= old(self).tape@.update(
                    old(self).ptr as int,
                    sat_dec(old(self).tape@[old(self).ptr as int]),
                ));
            }
            StepEffect::Quiet
        } else if b == OUTPUT {
            let out = self.tape[self.ptr];
            self.cursor = self.cursor + 1;
            bump(&mut self.stats.dot);
            StepEffect::Output(out)
        } else if b == INPUT {
            StepEffect::NeedInput
        } else if b == LOOP_START {
            let cell = self.tape[self.ptr];
            if cell != 0 {
                self.stack.push(self.cursor);
                self.cursor = self.cursor + 1;
                bump(&mut self.stats.start_loop);
                proof {
                    assert(self.conf().stack =~= old(self).conf().stack.push(
                        old(self).cursor as int,
                    ));
                }
                StepEffect::Quiet
            } else {
                match find_matching_close(&self.program, self.cursor) {
                    Some(j) => {
                        self.cursor = j + 1;
                        bump(&mut self.stats.start_loop);
                        StepEffect::Quiet
                    },
                    None => StepEffect::Fault(BfError::BoundsExhausted),
                }
            }
        } else if b == LOOP_END {
            if self.stack.len() == 0 {
                return StepEffect::Fault(BfError::UnresolvedBracket);
            }
            let cell = self.tape[self.ptr];
            if cell != 0 {
                let top = self.stack[self.stack.len() - 1];
                let _ = self.stack.pop();
                self.cursor = top;
                proof {
                    assert(self.conf().stack =~= old(self).conf().stack.drop_last());
                    assert(old(self).conf().stack.last() == top as int);
                }
            } else {
                let _ = self.stack.pop();
                self.cursor = self.cursor + 1;
                proof {
                    assert(self.conf().stack =~= old(self).conf().stack.drop_last());
                }
            }
            bump(&mut self.stats.end_loop);
            StepEffect::Quiet
        } else {
            self.cursor = self.cursor + 1;
            bump(&mut self.stats.skipped);
            StepEffect::Quiet
        }
    }

    /// Feed one input byte to an engine standing on an input instruction
    /// (after `step` returned `NeedInput`): the byte is stored in the
    /// current cell and the cursor advances past the instruction.
    pub fn provide_input(&mut self, byte: u8)
        requires
            old(self).wf(),
            spec_step(old(self).prog(), old(self).conf()) == Step::NeedInput,
        ensures
            final(self).wf(),
            final(self).prog() == old(self).prog(),
            final(self).conf() == input_step(old(self).conf(), byte),
            final(self).stats_spec() == stats_after(old(self).stats_spec(), INPUT),
    {
        proof {
            assert(0 <= old(self).conf().cursor < old(self).prog().len());
            assert(old(self).prog()[old(self).conf().cursor] == INPUT);
        }
        let n = self.program.len();
        assert(self.cursor < n);
        self.tape[self.ptr] = byte;
        self.cursor = self.cursor + 1;
        bump(&mut self.stats.comma);
    }

    /// Whether the cursor is at or past the end of the program.
    pub fn halted(&self) -> (r: bool)
        ensures
            r == (self.conf().cursor >= self.prog().len()),
    {
        self.cursor >= self.program.len()
    }

    /// The statistics counters gathered so far.
    pub fn stats(&self) -> (s: Stats)
        ensures
            s == self.stats_spec(),
    {
        self.stats
    }

    /// The current data pointer.
    pub fn pointer(&self) -> (r: usize)
        ensures
            r as int == self.conf().ptr,
    {
        self.ptr
    }

    /// The current instruction cursor.
    pub fn cursor(&self) -> (r: usize)
        ensures
            r as int == self.conf().cursor,
    {
        self.cursor
    }

    /// The number of loop scopes currently open.
    pub fn stack_depth(&self) -> (r: usize)
        ensures
            r as int == self.conf().stack.len(),
    {
        self.stack.len()
    }

    /// The number of cells on the tape.
    pub fn tape_len(&self) -> (r: usize)
        ensures
            r as int == self.conf().tape.len(),
    {
        self.tape.len()
    }

    /// The value of the cell at index `i`.
    pub fn cell(&self, i: usize) -> (r: u8)
        requires
            i < self.conf().tape.len(),
        ensures
            r == self.conf().tape[i as int],
    {
        self.tape[i]
    }
}

/// The skip-scan: find the loop-end matching the loop-start at `open_pos`,
/// walking forward over the nested loop bodies with a depth counter. Returns
/// the position of the matching loop-end, or `None` when the program ends
/// before the loop is closed (an unbalanced program).
pub fn find_matching_close(program: &Vec<u8>, open_pos: usize) -> (r: Option<usize>)
    requires
        open_pos < program@.len(),
    ensures
        match r {
            Some(j) => {
                &&& scan_close(program@, open_pos + 1, 0) == Some(j as int)
                &&& open_pos < j < program@.len()
            },
            None => scan_close(program@, open_pos + 1, 0) is None,
        },
{
    let n = program.len();
    assert(open_pos < n);
    let mut j: usize = open_pos + 1;
    let mut depth: usize = 0;
    loop
        invariant
            open_pos + 1 <= j <= program@.len(),
            depth <= j - open_pos - 1,
            scan_close(program@, open_pos + 1, 0) == scan_close(program@, j as int, depth as int),
        decreases program@.len() - j,
    {
        if j >= program.len() {
            return None;
        }
        let b = program[j];
        if b == LOOP_END {
            if depth == 0 {
                return Some(j);
            }
            depth = depth - 1;
            j = j + 1;
        } else if b == LOOP_START {
            depth = depth + 1;
            j = j + 1;
        } else {
            j = j + 1;
        }
    }
}

/// The result of a complete run: how it ended, the output it produced, and
/// the machine in its final state.
pub struct RunResult {
    /// How the run ended.
    pub status: RunStatus,
    /// The bytes the program wrote, in program order.
    pub output: Vec<u8>,
    /// The machine as the run left it.
    pub engine: Engine,
}

/// Execute `program` on a zeroed tape of `tape_len` cells, serving each
/// input instruction the next byte of `input`, for at most `fuel`
/// instructions. The outcome is exactly that of the model run: the same
/// status, the same output bytes in the same order, and the same final
/// machine configuration.
pub fn run(program: Vec<u8>, input: &Vec<u8>, tape_len: usize, fuel: u64) -> (r: RunResult)
    requires
        tape_len >= 1,
    ensures
        ({
            let end = spec_run(program@, init_conf(tape_len as nat), input@, fuel as nat);
            &&& r.status == end.status
            &&& r.output@ == end.output
            &&& r.engine.wf()
            &&& r.engine.prog() == program@
            &&& r.engine.conf() == end.c
        }),
{
    let ghost prog = program@;
    let ghost init = init_conf(tape_len as nat);
    let mut eng = Engine::new(program, tape_len);
    let mut output: Vec<u8> = Vec::new();
    let mut pos: usize = 0;
    let mut fuel_left: u64 = fuel;
    proof {
        assert(input@.skip(0) =~= input@);
        assert(eng.conf() == init);
        assert(output@ + spec_run(prog, init, input@, fuel as nat).output =~= spec_run(
            prog,
            init,
            input@,
            fuel as nat,
        ).output);
    }
    #[verifier::loop_isolation(false)]
    loop
        invariant
            eng.wf(),
            eng.prog() == prog,
            pos <= input@.len(),
            ({
                let total = spec_run(prog, init, input@, fuel as nat);
                let sub = spec_run(prog, eng.conf(), input@.skip(pos as int), fuel_left as nat);
                &&& total.status == sub.status
                &&& total.c == sub.c
                &&& total.output == output@ + sub.output
            }),
        decreases fuel_left,
    {
        let ghost c = eng.conf();
        let ghost inr = input@.skip(pos as int);
        if eng.halted() {
            proof {
                assert(output@ + spec_run(prog, c, inr, fuel_left as nat).output =~= output@);
            }
            return RunResult { status: RunStatus::Finished, output, engine: eng };
        }
        if fuel_left == 0 {
            proof {
                assert(output@ + spec_run(prog, c, inr, 0nat).output =~= output@);
            }
            return RunResult { status: RunStatus::OutOfFuel, output, engine: eng };
        }
        let eff = eng.step();
        match eff {
            StepEffect::Quiet => {
                proof {
                    assert(spec_run(prog, c, inr, fuel_left as nat) == spec_run(
                        prog,
                        eng.conf(),
                        inr,
                        (fuel_left - 1) as nat,
                    ));
                }
                fuel_left = fuel_left - 1;
            },
            StepEffect::Output(b) => {
                proof {
                    let sub2 = spec_run(prog, eng.conf(), inr, (fuel_left - 1) as nat);
                    assert(spec_run(prog, c, inr, fuel_left as nat).output == seq![b]
                        + sub2.output);
                    assert(output@ + (seq![b] + sub2.output) =~= output@.push(b) + sub2.output);
                }
                output.push(b);
                fuel_left = fuel_left - 1;
            },
            StepEffect::NeedInput => {
                if pos >= input.len() {
                    proof {
                        assert(inr.len() == 0);
                        assert(output@ + spec_run(prog, c, inr, fuel_left as nat).output
                            =~= output@);
                    }
                    return RunResult {
                        status: RunStatus::Fault(BfError::InputExhausted),
                        output,
                        engine: eng,
                    };
                }
                let b = input[pos];
                proof {
                    assert(inr[0] == input@[pos as int]);
                    assert(inr.drop_first() =~= input@.skip(pos as int + 1));
                }
                eng.provide_input(b);
                proof {
                    assert(spec_run(prog, c, inr, fuel_left as nat) == spec_run(
                        prog,
                        eng.conf(),
                        input@.skip(pos as int + 1),
                        (fuel_left - 1) as nat,
                    ));
                }
                pos = pos + 1;
                fuel_left = fuel_left - 1;
            },
            StepEffect::Fault(e) => {
                proof {
                    assert(spec_run(prog, c, inr, fuel_left as nat).status == RunStatus::Fault(e));
                    assert(output@ + spec_run(prog, c, inr, fuel_left as nat).output =~= output@);
                }
                return RunResult { status: RunStatus::Fault(e), output, engine: eng };
            },
            StepEffect::Halted => {
                proof {
                    assert(false);
                }
                return RunResult { status: RunStatus::Finished, output, engine: eng };
            },
        }
    }
}

} // verus!
