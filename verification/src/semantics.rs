//! The mathematical model of the language: what a source text parses to, and
//! a small-step machine giving the meaning of a parsed program. The engine in
//! `interpreter` is proved to follow this machine step by step.

use vstd::prelude::*;

use crate::interpreter::Instruction;
use crate::memory::{char_to_cell, low_byte_char, wrap_dec, wrap_inc};

verus! {

/// The command a source character stands for, if any; every other character
/// is a comment and parses to nothing.
pub open spec fn command_of(c: char) -> Option<Instruction> {
    if c == '>' {
        Some(Instruction::CellNext)
    } else if c == '<' {
        Some(Instruction::CellPrev)
    } else if c == '[' {
        Some(Instruction::LoopStart)
    } else if c == ']' {
        Some(Instruction::LoopEnd)
    } else if c == '+' {
        Some(Instruction::Inc)
    } else if c == '-' {
        Some(Instruction::Dec)
    } else if c == '.' {
        Some(Instruction::Output)
    } else if c == ',' {
        Some(Instruction::Input)
    } else {
        None
    }
}

/// The program a source text denotes: its command characters, in source
/// order, with everything else elided.
pub open spec fn spec_parse(s: Seq<char>) -> Seq<Instruction>
    decreases s.len(),
{
    if s.len() == 0 {
        Seq::empty()
    } else {
        let rest = spec_parse(s.drop_last());
        match command_of(s.last()) {
            Some(i) => rest.push(i),
            None => rest,
        }
    }
}

/// The source text with every non-command character removed.
pub open spec fn filter_commands(s: Seq<char>) -> Seq<char>
    decreases s.len(),
{
    if s.len() == 0 {
        Seq::empty()
    } else {
        let rest = filter_commands(s.drop_last());
        if command_of(s.last()) is Some {
            rest.push(s.last())
        } else {
            rest
        }
    }
}

/// How one instruction changes the bracket depth of a forward scan.
pub open spec fn bracket_delta(i: Instruction) -> int {
    match i {
        Instruction::LoopStart => 1,
        Instruction::LoopEnd => -1,
        _ => 0,
    }
}

/// The forward bracket scan: starting at `pc` with accumulated depth
/// `depth`, the first position at which the depth returns to zero; if the
/// scan runs off the end of the program, the last valid index (the tolerant
/// fallback for malformed programs).
pub open spec fn scan_match(prog: Seq<Instruction>, pc: int, depth: int) -> int
    decreases prog.len() - pc,
{
    if pc < 0 || pc >= prog.len() {
        prog.len() - 1
    } else {
        let d = depth + bracket_delta(prog[pc]);
        if d == 0 {
            pc
        } else {
            scan_match(prog, pc + 1, d)
        }
    }
}

/// The whole state of one execution: program counter, loop stack, tape
/// (cell values and pointer), emitted output, and how many input characters
/// have been consumed so far.
pub ghost struct MachineState {
    pub pc: int,
    pub stack: Seq<int>,
    pub cells: Seq<nat>,
    pub ptr: int,
    pub output: Seq<char>,
    pub reads: nat,
}

/// The state every execution begins in: program counter zero, empty loop
/// stack, no output, no input consumed.
pub open spec fn initial_state(cells: Seq<nat>, ptr: int) -> MachineState {
    MachineState { pc: 0, stack: Seq::empty(), cells, ptr, output: Seq::empty(), reads: 0 }
}

/// The input character the machine's `reads`-th read returns, drawn from the
/// trace `ins` of characters the input source supplied.
pub open spec fn input_at(ins: Seq<char>, k: nat) -> char {
    if k < ins.len() {
        ins[k as int]
    } else {
        arbitrary()
    }
}

/// One step of the machine on the instruction at `s.pc`, with `m` the cell
/// value-space size and `ins` the trace of input characters. Matches the
/// engine exactly, including its tolerant edges: an unmatched `LoopEnd` pops
/// nothing and falls through; a `LoopStart` at position zero pushes zero.
pub open spec fn step(prog: Seq<Instruction>, m: nat, ins: Seq<char>, s: MachineState) -> MachineState {
    match prog[s.pc] {
        Instruction::CellNext => MachineState {
            pc: s.pc + 1,
            ptr: crate::memory::ptr_right(s.ptr, s.cells.len() as int),
            ..s
        },
        Instruction::CellPrev => MachineState {
            pc: s.pc + 1,
            ptr: crate::memory::ptr_left(s.ptr),
            ..s
        },
        Instruction::LoopStart => if s.cells[s.ptr] == 0 {
            MachineState { pc: scan_match(prog, s.pc, 0) + 1, ..s }
        } else {
            MachineState {
                pc: s.pc + 1,
                stack: s.stack.push(if s.pc == 0 { 0 } else { s.pc - 1 }),
                ..s
            }
        },
        Instruction::LoopEnd => if s.stack.len() > 0 {
            if s.cells[s.ptr] != 0 {
                MachineState { pc: s.stack.last() + 1, stack: s.stack.drop_last(), ..s }
            } else {
                MachineState { pc: s.pc + 1, stack: s.stack.drop_last(), ..s }
            }
        } else {
            MachineState { pc: s.pc + 1, ..s }
        },
        Instruction::Inc => MachineState {
            pc: s.pc + 1,
            cells: s.cells.update(s.ptr, wrap_inc(s.cells[s.ptr], m)),
            ..s
        },
        Instruction::Dec => MachineState {
            pc: s.pc + 1,
            cells: s.cells.update(s.ptr, wrap_dec(s.cells[s.ptr], m)),
            ..s
        },
        Instruction::Output => MachineState {
            pc: s.pc + 1,
            output: s.output.push(low_byte_char(s.cells[s.ptr])),
            ..s
        },
        Instruction::Input => MachineState {
            pc: s.pc + 1,
            cells: s.cells.update(s.ptr, char_to_cell(input_at(ins, s.reads), m)),
            reads: s.reads + 1,
            ..s
        },
    }
}

/// The machine after `n` steps from `s`; it halts early once the program
/// counter leaves the program.
pub open spec fn run(
    prog: Seq<Instruction>,
    m: nat,
    ins: Seq<char>,
    s: MachineState,
    n: nat,
) -> MachineState
    decreases n,
{
    if n == 0 {
        s
    } else if 0 <= s.pc < prog.len() {
        run(prog, m, ins, step(prog, m, ins, s), (n - 1) as nat)
    } else {
        s
    }
}

/// A complete execution: from the initial state over `cells0`/`ptr0`, after
/// `n` steps consuming exactly the input trace `ins`, the machine has left
/// the program with tape `cells1`/`ptr1` and output `out`.
pub open spec fn completed_run(
    prog: Seq<Instruction>,
    m: nat,
    ins: Seq<char>,
    cells0: Seq<nat>,
    ptr0: int,
    n: nat,
    cells1: Seq<nat>,
    ptr1: int,
    out: Seq<char>,
) -> bool {
    let fin = run(prog, m, ins, initial_state(cells0, ptr0), n);
    &&& fin.pc >= prog.len()
    &&& fin.reads == ins.len()
    &&& fin.cells == cells1
    &&& fin.ptr == ptr1
    &&& fin.output == out
}

/// An exhausted run: after exactly `n` steps consuming the trace `ins`, the
/// machine is still inside the program with tape `cells1`/`ptr1` and output
/// `out` (how an execution that was cut off after `n` steps stands).
pub open spec fn partial_run(
    prog: Seq<Instruction>,
    m: nat,
    ins: Seq<char>,
    cells0: Seq<nat>,
    ptr0: int,
    n: nat,
    cells1: Seq<nat>,
    ptr1: int,
    out: Seq<char>,
) -> bool {
    let fin = run(prog, m, ins, initial_state(cells0, ptr0), n);
    &&& fin.pc < prog.len()
    &&& fin.reads == ins.len()
    &&& fin.cells == cells1
    &&& fin.ptr == ptr1
    &&& fin.output == out
}

/// The net bracket depth of the instructions in `[from, to)`: how many more
/// `LoopStart`s than `LoopEnd`s the range holds.
pub open spec fn net_depth(prog: Seq<Instruction>, from: int, to: int) -> int
    decreases to - from,
{
    if to <= from {
        0
    } else {
        net_depth(prog, from, to - 1) + bracket_delta(prog[to - 1])
    }
}

/// `j` holds the `LoopEnd` matching the `LoopStart` at `i`: the region
/// `[i, j]` is balanced, and the depth stays positive strictly inside it.
pub open spec fn is_matching_bracket(prog: Seq<Instruction>, i: int, j: int) -> bool {
    &&& 0 <= i < j < prog.len()
    &&& prog[i] == Instruction::LoopStart
    &&& prog[j] == Instruction::LoopEnd
    &&& net_depth(prog, i, j + 1) == 0
    &&& forall|k: int| i < k <= j ==> net_depth(prog, i, k) > 0
}

proof fn lemma_scan_reaches(prog: Seq<Instruction>, i: int, pos: int, j: int)
    requires
        is_matching_bracket(prog, i, j),
        i <= pos <= j,
    ensures
        scan_match(prog, pos, net_depth(prog, i, pos)) == j,
    decreases j - pos,
{
    let d = net_depth(prog, i, pos) + bracket_delta(prog[pos]);
    assert(d == net_depth(prog, i, pos + 1));
    if pos == j {
        assert(net_depth(prog, i, j + 1) == 0);
    } else {
        assert(net_depth(prog, i, pos + 1) > 0);
        lemma_scan_reaches(prog, i, pos + 1, j);
    }
}

/// The forward scan started with depth zero at a `LoopStart` finds exactly
/// the matching `LoopEnd` of a balanced region.
pub proof fn lemma_scan_finds_match(prog: Seq<Instruction>, i: int, j: int)
    requires
        is_matching_bracket(prog, i, j),
    ensures
        scan_match(prog, i, 0) == j,
{
    lemma_scan_reaches(prog, i, i, j);
    assert(net_depth(prog, i, i) == 0);
}

/// Skipping a balanced loop over a zero-valued cell lands exactly one
/// position past the matching `LoopEnd`.
pub proof fn lemma_loop_skip(prog: Seq<Instruction>, m: nat, ins: Seq<char>, s: MachineState, j: int)
    requires
        is_matching_bracket(prog, s.pc, j),
        s.cells[s.ptr] == 0,
    ensures
        step(prog, m, ins, s).pc == j + 1,
{
    lemma_scan_finds_match(prog, s.pc, j);
}

/// Re-entering a loop over a non-zero cell: the `LoopEnd` whose stack entry
/// points before the `LoopStart` at `i` hands control back to that
/// `LoopStart`, and one more step over the still non-zero cell puts the
/// program counter at `i + 1`, the position right after the `LoopStart`.
pub proof fn lemma_loop_reentry(
    prog: Seq<Instruction>,
    m: nat,
    ins: Seq<char>,
    s: MachineState,
    i: int,
)
    requires
        1 <= i < prog.len(),
        prog[i] == Instruction::LoopStart,
        0 <= s.pc < prog.len(),
        prog[s.pc] == Instruction::LoopEnd,
        s.stack.len() > 0,
        s.stack.last() == i - 1,
        s.cells[s.ptr] != 0,
    ensures
        step(prog, m, ins, s).pc == i,
        step(prog, m, ins, step(prog, m, ins, s)).pc == i + 1,
{
    let s1 = step(prog, m, ins, s);
    assert(s1.cells == s.cells && s1.ptr == s.ptr);
}

/// A loop whose `LoopStart` sits at position zero re-enters directly at
/// position one: its stack entry is clamped to zero, so control lands right
/// after the `LoopStart` without re-testing it.
pub proof fn lemma_loop_reentry_at_start(
    prog: Seq<Instruction>,
    m: nat,
    ins: Seq<char>,
    s: MachineState,
)
    requires
        0 <= s.pc < prog.len(),
        prog[s.pc] == Instruction::LoopEnd,
        s.stack.len() > 0,
        s.stack.last() == 0,
        s.cells[s.ptr] != 0,
    ensures
        step(prog, m, ins, s).pc == 1,
{
}

/// Appending one more step: running `n + 1` steps is running `n` steps and
/// then stepping once, as long as the `n`-step run is still inside the
/// program.
pub proof fn lemma_run_snoc(prog: Seq<Instruction>, m: nat, ins: Seq<char>, s: MachineState, n: nat)
    requires
        0 <= run(prog, m, ins, s, n).pc < prog.len(),
    ensures
        run(prog, m, ins, s, (n + 1) as nat) == step(prog, m, ins, run(prog, m, ins, s, n)),
    decreases n,
{
    if n == 0 {
        assert(run(prog, m, ins, s, 1) == step(prog, m, ins, s)) by {
            assert(run(prog, m, ins, step(prog, m, ins, s), 0) == step(prog, m, ins, s));
        }
    } else if 0 <= s.pc < prog.len() {
        lemma_run_snoc(prog, m, ins, step(prog, m, ins, s), (n - 1) as nat);
        assert(run(prog, m, ins, s, (n + 1) as nat) == run(
            prog,
            m,
            ins,
            step(prog, m, ins, s),
            n,
        ));
    }
}

/// The input counter never goes backwards.
pub proof fn lemma_run_reads_monotone(
    prog: Seq<Instruction>,
    m: nat,
    ins: Seq<char>,
    s: MachineState,
    n: nat,
)
    ensures
        run(prog, m, ins, s, n).reads >= s.reads,
    decreases n,
{
    if n > 0 && 0 <= s.pc < prog.len() {
        lemma_run_reads_monotone(prog, m, ins, step(prog, m, ins, s), (n - 1) as nat);
    }
}

/// Input characters the run never reaches do not affect it: a trace may be
/// extended at the back without changing the first `n` steps, as long as
/// those steps stay within the original trace.
pub proof fn lemma_run_extend_input(
    prog: Seq<Instruction>,
    m: nat,
    ins: Seq<char>,
    s: MachineState,
    n: nat,
    c: char,
)
    requires
        run(prog, m, ins, s, n).reads <= ins.len(),
    ensures
        run(prog, m, ins.push(c), s, n) == run(prog, m, ins, s, n),
    decreases n,
{
    if n > 0 && 0 <= s.pc < prog.len() {
        let s1 = step(prog, m, ins, s);
        lemma_run_reads_monotone(prog, m, ins, s1, (n - 1) as nat);
        assert(step(prog, m, ins.push(c), s) == s1);
        lemma_run_extend_input(prog, m, ins, s1, (n - 1) as nat, c);
    }
}

/// `lemma_loop_skip`, read along a run (the form in which the engine's
/// ensures names an execution): when after `n` steps the machine stands at
/// the `LoopStart` of a balanced region over a zero-valued cell, the next
/// step of that run lands exactly one position past the matching `LoopEnd`.
pub proof fn lemma_run_loop_skip(
    prog: Seq<Instruction>,
    m: nat,
    ins: Seq<char>,
    s: MachineState,
    n: nat,
    j: int,
)
    requires
        ({
            let cur = run(prog, m, ins, s, n);
            &&& is_matching_bracket(prog, cur.pc, j)
            &&& cur.cells[cur.ptr] == 0
        }),
    ensures
        run(prog, m, ins, s, (n + 1) as nat).pc == j + 1,
{
    let cur = run(prog, m, ins, s, n);
    lemma_run_snoc(prog, m, ins, s, n);
    lemma_loop_skip(prog, m, ins, cur, j);
}

/// `lemma_loop_reentry`, read along a run: when after `n` steps the machine
/// stands at the `LoopEnd` whose stack entry points before the `LoopStart`
/// at `i`, over a non-zero cell, the run passes back through that
/// `LoopStart` and its next two steps land the program counter at `i` and
/// then at `i + 1`, right after the `LoopStart`.
pub proof fn lemma_run_loop_reentry(
    prog: Seq<Instruction>,
    m: nat,
    ins: Seq<char>,
    s: MachineState,
    n: nat,
    i: int,
)
    requires
        1 <= i < prog.len(),
        prog[i] == Instruction::LoopStart,
        ({
            let cur = run(prog, m, ins, s, n);
            &&& 0 <= cur.pc < prog.len()
            &&& prog[cur.pc] == Instruction::LoopEnd
            &&& cur.stack.len() > 0
            &&& cur.stack.last() == i - 1
            &&& cur.cells[cur.ptr] != 0
        }),
    ensures
        run(prog, m, ins, s, (n + 1) as nat).pc == i,
        run(prog, m, ins, s, (n + 2) as nat).pc == i + 1,
{
    let cur = run(prog, m, ins, s, n);
    lemma_run_snoc(prog, m, ins, s, n);
    lemma_loop_reentry(prog, m, ins, cur, i);
    lemma_run_snoc(prog, m, ins, s, (n + 1) as nat);
    assert((n + 1) as nat + 1 == (n + 2) as nat);
}

/// Once the program counter has left the program, further steps change
/// nothing.
pub proof fn lemma_run_stall(
    prog: Seq<Instruction>,
    m: nat,
    ins: Seq<char>,
    s: MachineState,
    n1: nat,
    n2: nat,
)
    requires
        n1 <= n2,
        run(prog, m, ins, s, n1).pc >= prog.len(),
    ensures
        run(prog, m, ins, s, n2) == run(prog, m, ins, s, n1),
    decreases n2 - n1,
{
    if n2 > n1 {
        lemma_run_stall(prog, m, ins, s, n1, (n2 - 1) as nat);
        lemma_run_stall_step(prog, m, ins, s, (n2 - 1) as nat);
    }
}

proof fn lemma_run_stall_step(prog: Seq<Instruction>, m: nat, ins: Seq<char>, s: MachineState, n: nat)
    requires
        run(prog, m, ins, s, n).pc >= prog.len(),
    ensures
        run(prog, m, ins, s, (n + 1) as nat) == run(prog, m, ins, s, n),
    decreases n,
{
    if n > 0 && 0 <= s.pc < prog.len() {
        lemma_run_stall_step(prog, m, ins, step(prog, m, ins, s), (n - 1) as nat);
        assert(run(prog, m, ins, s, (n + 1) as nat) == run(
            prog,
            m,
            ins,
            step(prog, m, ins, s),
            n,
        ));
    }
}

/// A run depends on its input trace only through the characters it actually
/// consumes: two traces that agree on the consumed range drive the machine
/// identically.
pub proof fn lemma_run_trace_agree(
    prog: Seq<Instruction>,
    m: nat,
    ins1: Seq<char>,
    ins2: Seq<char>,
    s: MachineState,
    n: nat,
)
    requires
        run(prog, m, ins1, s, n).reads <= ins1.len(),
        run(prog, m, ins1, s, n).reads <= ins2.len(),
        forall|j: int| s.reads <= j < run(prog, m, ins1, s, n).reads ==> ins1[j] == ins2[j],
    ensures
        run(prog, m, ins2, s, n) == run(prog, m, ins1, s, n),
    decreases n,
{
    if n > 0 && 0 <= s.pc < prog.len() {
        let s1 = step(prog, m, ins1, s);
        lemma_run_reads_monotone(prog, m, ins1, s1, (n - 1) as nat);
        assert(step(prog, m, ins2, s) == s1);
        lemma_run_trace_agree(prog, m, ins1, ins2, s1, (n - 1) as nat);
    }
}

/// Two completed runs of one program from one tape, each drawing input from
/// the same buffer and sentinel, are the same execution: they consume
/// equally many characters and end with the same tape, pointer and output.
pub proof fn lemma_buffered_runs_agree(
    prog: Seq<Instruction>,
    m: nat,
    pending: Seq<char>,
    eof: char,
    cells0: Seq<nat>,
    ptr0: int,
    k1: nat,
    n1: nat,
    cells1: Seq<nat>,
    ptr1: int,
    out1: Seq<char>,
    k2: nat,
    n2: nat,
    cells2: Seq<nat>,
    ptr2: int,
    out2: Seq<char>,
)
    requires
        completed_run(
            prog,
            m,
            crate::input::buffered_trace(pending, eof, k1),
            cells0,
            ptr0,
            n1,
            cells1,
            ptr1,
            out1,
        ),
        completed_run(
            prog,
            m,
            crate::input::buffered_trace(pending, eof, k2),
            cells0,
            ptr0,
            n2,
            cells2,
            ptr2,
            out2,
        ),
    ensures
        k1 == k2,
        cells1 == cells2,
        ptr1 == ptr2,
        out1 == out2,
{
    let s0 = initial_state(cells0, ptr0);
    let big = if k1 >= k2 {
        k1
    } else {
        k2
    };
    let ins1 = crate::input::buffered_trace(pending, eof, k1);
    let ins2 = crate::input::buffered_trace(pending, eof, k2);
    let ins_big = crate::input::buffered_trace(pending, eof, big);
    lemma_run_trace_agree(prog, m, ins1, ins_big, s0, n1);
    lemma_run_trace_agree(prog, m, ins2, ins_big, s0, n2);
    if n1 <= n2 {
        lemma_run_stall(prog, m, ins_big, s0, n1, n2);
    } else {
        lemma_run_stall(prog, m, ins_big, s0, n2, n1);
    }
}

/// Stripping the comments first changes nothing: parsing is idempotent on
/// the filtered character set.
pub proof fn lemma_parse_filtered(s: Seq<char>)
    ensures
        spec_parse(filter_commands(s)) == spec_parse(s),
    decreases s.len(),
{
    if s.len() == 0 {
    } else {
        lemma_parse_filtered(s.drop_last());
        if command_of(s.last()) is Some {
            assert(filter_commands(s).drop_last() =~= filter_commands(s.drop_last()));
        }
    }
}

} // verus!
