//! Bracket theory: the net bracket count of a program segment, what it means
//! for a program to be balanced, the characterization of the skip-scan as a
//! matching-bracket search, and the laws that follow — a balanced program
//! never aborts with a bracket error and ends with an empty loop stack, the
//! pointer stays inside the tape, cells stay within the byte range, and a
//! loop met with a zero cell is skipped to just past its matching close.

use vstd::prelude::*;
use crate::semantics::{
    BfError, Conf, DECREMENT, INCREMENT, LOOP_END, LOOP_START, RunStatus, Step, init_conf,
    input_step, sat_dec, sat_inc, scan_close, spec_run, spec_step,
};

verus! {

/// The contribution of one byte to the bracket depth: a loop-start opens a
/// scope, a loop-end closes one, every other byte is neutral.
pub open spec fn bracket_delta(b: u8) -> int {
    if b == LOOP_START {
        1
    } else if b == LOOP_END {
        -1
    } else {
        0
    }
}

/// The net bracket count of the segment `[lo, hi)` of the program: the
/// number of loop-starts minus the number of loop-ends in it.
pub open spec fn net(prog: Seq<u8>, lo: int, hi: int) -> int
    decreases hi - lo,
{
    if lo >= hi {
        0
    } else {
        net(prog, lo, hi - 1) + bracket_delta(prog[hi - 1])
    }
}

/// The bracket depth at position `i`: how many loop scopes are open when the
/// cursor stands there.
pub open spec fn depth_at(prog: Seq<u8>, i: int) -> int {
    net(prog, 0, i)
}

/// A program's brackets are balanced: no prefix closes more loops than it
/// opened, and the whole program closes every loop it opens.
pub open spec fn balanced(prog: Seq<u8>) -> bool {
    &&& net(prog, 0, prog.len() as int) == 0
    &&& forall|i: int| 0 <= i <= prog.len() ==> net(prog, 0, i) >= 0
}

/// The net count over a segment splits at any interior position.
pub proof fn lemma_net_split(prog: Seq<u8>, lo: int, mid: int, hi: int)
    requires
        lo <= mid <= hi,
    ensures
        net(prog, lo, hi) == net(prog, lo, mid) + net(prog, mid, hi),
    decreases hi - mid,
{
    if mid < hi {
        lemma_net_split(prog, lo, mid, hi - 1);
    }
}

/// The net count of a one-byte segment is that byte's bracket contribution.
pub proof fn lemma_net_single(prog: Seq<u8>, i: int)
    ensures
        net(prog, i, i + 1) == bracket_delta(prog[i]),
{
    assert(net(prog, i, i) == 0);
}

/// What a successful skip-scan found: the first position from `i` on where
/// the running net count of the segment reaches `-depth`, and it carries a
/// loop-end. With `depth` open nested loops to skip, that position closes
/// the loop the scan was started for.
pub proof fn lemma_scan_close_some(prog: Seq<u8>, i: int, depth: int, j: int)
    requires
        0 <= i,
        depth >= 0,
        scan_close(prog, i, depth) == Some(j),
    ensures
        i <= j < prog.len(),
        prog[j] == LOOP_END,
        net(prog, i, j) == -depth,
        forall|k: int| i <= k <= j ==> net(prog, i, k) >= -depth,
    decreases prog.len() - i,
{
    if i >= prog.len() {
        assert(false);
    } else if prog[i] == LOOP_END && depth == 0 {
        assert(net(prog, i, i) == 0);
    } else {
        let d2: int = if prog[i] == LOOP_END {
            depth - 1
        } else if prog[i] == LOOP_START {
            depth + 1
        } else {
            depth
        };
        lemma_scan_close_some(prog, i + 1, d2, j);
        lemma_net_single(prog, i);
        lemma_net_split(prog, i, i + 1, j);
        assert forall|k: int| i <= k <= j implies net(prog, i, k) >= -depth by {
            if k == i {
                assert(net(prog, i, i) == 0);
            } else {
                lemma_net_single(prog, i);
                lemma_net_split(prog, i, i + 1, k);
                assert(net(prog, i + 1, k) >= -d2);
            }
        }
    }
}

/// A skip-scan over a segment whose net count drops below `-depth` by the
/// end of the program always finds its close: the scan cannot run past the
/// end.
pub proof fn lemma_scan_close_exists(prog: Seq<u8>, i: int, depth: int)
    requires
        0 <= i <= prog.len(),
        depth >= 0,
        net(prog, i, prog.len() as int) <= -(depth + 1),
    ensures
        scan_close(prog, i, depth).is_some(),
    decreases prog.len() - i,
{
    if i == prog.len() {
        assert(net(prog, i, prog.len() as int) == 0);
        assert(false);
    } else {
        lemma_net_single(prog, i);
        lemma_net_split(prog, i, i + 1, prog.len() as int);
        if prog[i] == LOOP_END {
            if depth > 0 {
                lemma_scan_close_exists(prog, i + 1, depth - 1);
            }
        } else if prog[i] == LOOP_START {
            lemma_scan_close_exists(prog, i + 1, depth + 1);
        } else {
            lemma_scan_close_exists(prog, i + 1, depth);
        }
    }
}

/// The run-time loop stack mirrors the static bracket structure: its depth
/// is the bracket depth at the cursor, and its entries, bottom to top, are
/// the loop-starts of the scopes open there, each sitting at its own depth.
pub open spec fn stack_invariant(prog: Seq<u8>, c: Conf) -> bool {
    &&& 0 <= c.cursor <= prog.len()
    &&& c.stack.len() == depth_at(prog, c.cursor)
    &&& forall|k: int|
        0 <= k < c.stack.len() ==> {
            &&& 0 <= #[trigger] c.stack[k] < prog.len()
            &&& prog[c.stack[k]] == LOOP_START
            &&& depth_at(prog, c.stack[k]) == k
        }
}

/// One step of a balanced program preserves the stack invariant, never
/// faults with a bracket error, and halts only with an empty stack.
pub proof fn lemma_step_preserves_stack_invariant(prog: Seq<u8>, c: Conf)
    requires
        balanced(prog),
        stack_invariant(prog, c),
    ensures
        match spec_step(prog, c) {
            Step::Next { c: c2, out } => stack_invariant(prog, c2),
            Step::NeedInput => forall|b: u8| stack_invariant(prog, input_step(c, b)),
            Step::Fault(e) => false,
            Step::Halted => c.stack.len() == 0 && c.cursor == prog.len(),
        },
{
    if c.cursor < 0 || c.cursor >= prog.len() {
        assert(c.cursor == prog.len());
    } else {
        let b = prog[c.cursor];
        lemma_net_single(prog, c.cursor);
        lemma_net_split(prog, 0, c.cursor, c.cursor + 1);
        if b == LOOP_START && c.tape[c.ptr] == 0 {
            lemma_net_split(prog, 0, c.cursor + 1, prog.len() as int);
            assert(net(prog, c.cursor + 1, prog.len() as int) <= -1);
            lemma_scan_close_exists(prog, c.cursor + 1, 0);
            if let Some(j) = scan_close(prog, c.cursor + 1, 0) {
                lemma_scan_close_some(prog, c.cursor + 1, 0, j);
                lemma_net_single(prog, j);
                lemma_net_split(prog, c.cursor + 1, j, j + 1);
                lemma_net_split(prog, 0, c.cursor + 1, j + 1);
            }
        } else if b == LOOP_END {
            assert(net(prog, 0, c.cursor + 1) >= 0);
            assert(c.stack.len() >= 1);
        }
    }
}

/// Every run of a balanced program keeps the stack invariant, never aborts
/// with a bracket error, and when it finishes normally, the cursor stands at
/// the end of the program with the loop stack empty.
pub proof fn lemma_balanced_run(prog: Seq<u8>, c: Conf, input: Seq<u8>, fuel: nat)
    requires
        balanced(prog),
        stack_invariant(prog, c),
    ensures
        ({
            let end = spec_run(prog, c, input, fuel);
            &&& end.status != RunStatus::Fault(BfError::UnresolvedBracket)
            &&& end.status != RunStatus::Fault(BfError::BoundsExhausted)
            &&& stack_invariant(prog, end.c)
            &&& (end.status == RunStatus::Finished ==> end.c.stack.len() == 0 && end.c.cursor
                == prog.len())
        }),
    decreases fuel,
{
    if c.cursor >= prog.len() || c.cursor < 0 {
        lemma_step_preserves_stack_invariant(prog, c);
    } else if fuel == 0 {
    } else {
        lemma_step_preserves_stack_invariant(prog, c);
        match spec_step(prog, c) {
            Step::Fault(e) => {
                assert(false);
            },
            Step::NeedInput => {
                if input.len() > 0 {
                    lemma_balanced_run(
                        prog,
                        input_step(c, input[0]),
                        input.drop_first(),
                        (fuel - 1) as nat,
                    );
                }
            },
            Step::Next { c: c2, out } => {
                lemma_balanced_run(prog, c2, input, (fuel - 1) as nat);
            },
            Step::Halted => {},
        }
    }
}

/// The initial configuration satisfies the stack invariant: no loop scope is
/// open before the first instruction.
pub proof fn lemma_init_stack_invariant(prog: Seq<u8>, tape_len: nat)
    ensures
        stack_invariant(prog, init_conf(tape_len)),
{
}

/// For every program containing only balanced brackets, a run from the
/// start never aborts with a bracket error, and at normal termination the
/// loop stack is empty: the program is back at top level. The fuel bound is
/// arbitrary, and a run stopped out of fuel ends in the state reached after
/// exactly that many steps; so the stack invariant — the stack depth equals
/// the bracket depth at the cursor, never negative — holds at every state
/// the run passes through.
pub proof fn lemma_balanced_program_safe(prog: Seq<u8>, input: Seq<u8>, tape_len: nat, fuel: nat)
    requires
        balanced(prog),
    ensures
        ({
            let end = spec_run(prog, init_conf(tape_len), input, fuel);
            &&& end.status != RunStatus::Fault(BfError::UnresolvedBracket)
            &&& end.status != RunStatus::Fault(BfError::BoundsExhausted)
            &&& stack_invariant(prog, end.c)
            &&& (end.status == RunStatus::Finished ==> end.c.stack.len() == 0)
        }),
{
    lemma_init_stack_invariant(prog, tape_len);
    lemma_balanced_run(prog, init_conf(tape_len), input, fuel);
}

/// One step never moves the pointer outside the tape and never changes the
/// tape's length, whatever the instruction: moves clamp at the edges.
pub proof fn lemma_step_preserves_bounds(prog: Seq<u8>, c: Conf)
    requires
        0 <= c.ptr < c.tape.len(),
    ensures
        match spec_step(prog, c) {
            Step::Next { c: c2, out } => 0 <= c2.ptr < c2.tape.len() && c2.tape.len()
                == c.tape.len(),
            Step::NeedInput => forall|b: u8|
                {
                    &&& 0 <= #[trigger] input_step(c, b).ptr < input_step(c, b).tape.len()
                    &&& input_step(c, b).tape.len() == c.tape.len()
                },
            Step::Fault(e) => true,
            Step::Halted => true,
        },
{
}

/// However long the run, the pointer stays inside the tape, the tape keeps
/// its length, and every cell holds a value between 0 and 255.
pub proof fn lemma_run_state_bounds(prog: Seq<u8>, c: Conf, input: Seq<u8>, fuel: nat)
    requires
        0 <= c.ptr < c.tape.len(),
    ensures
        ({
            let end = spec_run(prog, c, input, fuel);
            &&& 0 <= end.c.ptr < end.c.tape.len()
            &&& end.c.tape.len() == c.tape.len()
            &&& forall|k: int| 0 <= k < end.c.tape.len() ==> 0 <= #[trigger] end.c.tape[k] <= 255
        }),
    decreases fuel,
{
    if c.cursor >= prog.len() || c.cursor < 0 {
    } else if fuel == 0 {
    } else {
        lemma_step_preserves_bounds(prog, c);
        match spec_step(prog, c) {
            Step::NeedInput => {
                if input.len() > 0 {
                    lemma_run_state_bounds(
                        prog,
                        input_step(c, input[0]),
                        input.drop_first(),
                        (fuel - 1) as nat,
                    );
                }
            },
            Step::Next { c: c2, out } => {
                lemma_run_state_bounds(prog, c2, input, (fuel - 1) as nat);
            },
            _ => {},
        }
    }
}

/// Cell arithmetic saturates: stepping an increment raises the current cell
/// by one unless it already holds 255, and stepping a decrement lowers it by
/// one unless it already holds 0; either way the cell stays a byte.
pub proof fn lemma_cell_arithmetic_saturates(prog: Seq<u8>, c: Conf)
    requires
        0 <= c.ptr < c.tape.len(),
        0 <= c.cursor < prog.len(),
        prog[c.cursor] == INCREMENT || prog[c.cursor] == DECREMENT,
    ensures
        spec_step(prog, c) matches Step::Next { c: c2, out } && {
            &&& out is None
            &&& c2.tape[c.ptr] == (if prog[c.cursor] == INCREMENT {
                sat_inc(c.tape[c.ptr])
            } else {
                sat_dec(c.tape[c.ptr])
            })
            &&& 0 <= c2.tape[c.ptr] <= 255
            &&& c.tape[c.ptr] == 255 && prog[c.cursor] == INCREMENT ==> c2.tape[c.ptr] == 255
            &&& c.tape[c.ptr] == 0 && prog[c.cursor] == DECREMENT ==> c2.tape[c.ptr] == 0
            &&& forall|k: int| 0 <= k < c.tape.len() && k != c.ptr ==> c2.tape[k] == c.tape[k]
        },
{
}

/// A loop whose condition cell is zero on first encounter executes its body
/// zero times: the step over its loop-start leaves tape, pointer, stack and
/// output untouched and resumes exactly past the matching loop-end — the
/// first position after the loop-start where the bracket count returns to
/// zero, every strictly earlier position still having an open scope.
pub proof fn lemma_zero_loop_skips_body(prog: Seq<u8>, c: Conf, j: int)
    requires
        0 <= c.cursor < prog.len(),
        prog[c.cursor] == LOOP_START,
        c.tape[c.ptr] == 0,
        scan_close(prog, c.cursor + 1, 0) == Some(j),
    ensures
        spec_step(prog, c) == (Step::Next {
            c: (Conf { cursor: j + 1, ..c }),
            out: None::<u8>,
        }),
        c.cursor < j < prog.len(),
        prog[j] == LOOP_END,
        net(prog, c.cursor, j + 1) == 0,
        forall|k: int| c.cursor < k <= j ==> net(prog, c.cursor, k) > 0,
{
    lemma_scan_close_some(prog, c.cursor + 1, 0, j);
    lemma_net_single(prog, c.cursor);
    lemma_net_single(prog, j);
    lemma_net_split(prog, c.cursor + 1, j, j + 1);
    lemma_net_split(prog, c.cursor, c.cursor + 1, j + 1);
    assert forall|k: int| c.cursor < k <= j implies net(prog, c.cursor, k) > 0 by {
        lemma_net_single(prog, c.cursor);
        lemma_net_split(prog, c.cursor, c.cursor + 1, k);
        assert(net(prog, c.cursor + 1, k) >= 0);
    }
}

} // verus!
