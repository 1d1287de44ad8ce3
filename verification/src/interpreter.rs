//! The instruction set, the capability traits the engine runs against, and
//! the parser reducing source text to instructions.

use vstd::prelude::*;
use vstd::std_specs::iter::IteratorSpec;

use crate::input::{buffered_trace, remaining_after, InputSource};
use crate::semantics::{
    completed_run, initial_state, lemma_run_extend_input, lemma_run_snoc, partial_run, run,
    scan_match, spec_parse, step,
};

verus! {

broadcast use vstd::string::next_postcondition, vstd::string::axiom_spec_iter;

/// The eight commands of the language.
#[derive(Clone, Copy, PartialEq, Eq, Structural, Debug)]
pub enum Instruction {
    CellNext,
    CellPrev,
    LoopStart,
    LoopEnd,
    Inc,
    Dec,
    Output,
    Input,
}

/// A source of input characters. `read` must always return some character;
/// nothing more is promised, so an implementation may draw on a live channel.
pub trait BfInput {
    fn read(&mut self) -> char;
}

/// A sink for output characters, written one at a time, in execution order,
/// immediately as each `Output` command runs. Nothing is promised of it, so
/// an implementation may print and flush at once, as an interactive
/// embedding does; the engine's returned character sequence remains the
/// specified record of what was emitted.
pub trait BfOutput {
    fn write(&mut self, c: char);
}

/// A bounded tape of fixed-width cells with a saturating pointer, as the
/// engine sees it: a sequence of cell values, the pointer, and the common
/// value-space size of the cells.
pub trait BfMemory {
    /// The values of the cells, in tape order.
    spec fn cells(&self) -> Seq<nat>;

    /// The index of the current cell.
    spec fn pointer(&self) -> int;

    /// The size of each cell's value space, `2^width`.
    spec fn modulus(&self) -> nat;

    /// The tape is non-empty and the pointer is on it.
    spec fn inv(&self) -> bool;

    proof fn lemma_inv(&self)
        requires
            self.inv(),
        ensures
            0 <= self.pointer() < self.cells().len(),
            self.modulus() >= 2,
            forall|i: int| 0 <= i < self.cells().len() ==> self.cells()[i] < self.modulus(),
    ;

    fn next(&mut self)
        requires
            old(self).inv(),
        ensures
            final(self).inv(),
            final(self).modulus() == old(self).modulus(),
            final(self).cells() == old(self).cells(),
            final(self).pointer() == crate::memory::ptr_right(
                old(self).pointer(),
                old(self).cells().len() as int,
            ),
    ;

    fn prev(&mut self)
        requires
            old(self).inv(),
        ensures
            final(self).inv(),
            final(self).modulus() == old(self).modulus(),
            final(self).cells() == old(self).cells(),
            final(self).pointer() == crate::memory::ptr_left(old(self).pointer()),
    ;

    fn increase_cell(&mut self)
        requires
            old(self).inv(),
        ensures
            final(self).inv(),
            final(self).modulus() == old(self).modulus(),
            final(self).pointer() == old(self).pointer(),
            final(self).cells() == old(self).cells().update(
                old(self).pointer(),
                crate::memory::wrap_inc(old(self).cells()[old(self).pointer()], old(self).modulus()),
            ),
    ;

    fn decrease_cell(&mut self)
        requires
            old(self).inv(),
        ensures
            final(self).inv(),
            final(self).modulus() == old(self).modulus(),
            final(self).pointer() == old(self).pointer(),
            final(self).cells() == old(self).cells().update(
                old(self).pointer(),
                crate::memory::wrap_dec(old(self).cells()[old(self).pointer()], old(self).modulus()),
            ),
    ;

    fn is_cell_zero_value(&self) -> (r: bool)
        requires
            self.inv(),
        ensures
            r == (self.cells()[self.pointer()] == 0),
    ;

    fn read_char(&self) -> (c: char)
        requires
            self.inv(),
        ensures
            c == crate::memory::low_byte_char(self.cells()[self.pointer()]),
    ;

    fn write_char(&mut self, input: char)
        requires
            old(self).inv(),
        ensures
            final(self).inv(),
            final(self).modulus() == old(self).modulus(),
            final(self).pointer() == old(self).pointer(),
            final(self).cells() == old(self).cells().update(
                old(self).pointer(),
                crate::memory::char_to_cell(input, old(self).modulus()),
            ),
    ;
}

/// The characters of a text, in order.
pub fn to_chars(s: &str) -> (v: Vec<char>)
    ensures
        v@ == s@,
{
    let mut v: Vec<char> = Vec::new();
    let mut it = s.chars();
    loop
        invariant
            v@ + it.remaining() == s@,
            it.decrease() is Some,
        ensures
            v@ == s@,
        decreases it.decrease()->0,
    {
        match it.next() {
            Some(c) => {
                v.push(c);
                proof {
                    assert(v@ + it.remaining() =~= s@);
                }
            },
            None => {
                proof {
                    assert(v@ + it.remaining() =~= v@);
                }
                break ;
            },
        }
    }
    v
}

/// Reduce source text to the ordered command sequence, skipping every
/// character that is not one of the eight commands.
pub fn parse(code: &String) -> (instructions: Vec<Instruction>)
    ensures
        instructions@ == spec_parse(code@),
{
    let cs = to_chars(code.as_str());
    let mut instructions: Vec<Instruction> = Vec::new();
    let mut i: usize = 0;
    while i < cs.len()
        invariant
            cs@ == code@,
            i <= cs.len(),
            instructions@ == spec_parse(code@.take(i as int)),
        decreases cs.len() - i,
    {
        let c = cs[i];
        match c {
            '>' => instructions.push(Instruction::CellNext),
            '<' => instructions.push(Instruction::CellPrev),
            '[' => instructions.push(Instruction::LoopStart),
            ']' => instructions.push(Instruction::LoopEnd),
            '+' => instructions.push(Instruction::Inc),
            '-' => instructions.push(Instruction::Dec),
            '.' => instructions.push(Instruction::Output),
            ',' => instructions.push(Instruction::Input),
            _ => {},
        }
        proof {
            assert(code@.take(i + 1).drop_last() =~= code@.take(i as int));
            assert(code@.take(i + 1).last() == code@[i as int]);
        }
        i = i + 1;
    }
    proof {
        assert(code@.take(cs.len() as int) =~= code@);
    }
    instructions
}

/// Scan forward from `from_pc` for the position where the bracket depth
/// returns to zero (the matching `LoopEnd` when `from_pc` holds a
/// `LoopStart`); a malformed program without one yields the last valid
/// index, the tolerant fallback.
pub fn find_matching_loop_end(instructions: &Vec<Instruction>, from_pc: usize) -> (r: usize)
    requires
        from_pc < instructions@.len(),
    ensures
        r == scan_match(instructions@, from_pc as int, 0),
        r < instructions@.len(),
{
    let mut pc: usize = from_pc;
    let mut bracket_count: i128 = 0;

    while pc < instructions.len()
        invariant
            from_pc < instructions@.len(),
            from_pc <= pc <= instructions@.len(),
            -(pc - from_pc) <= bracket_count <= pc - from_pc,
            scan_match(instructions@, pc as int, bracket_count as int) == scan_match(
                instructions@,
                from_pc as int,
                0,
            ),
        decreases instructions@.len() - pc,
    {
        match instructions[pc] {
            Instruction::LoopStart => {
                bracket_count = bracket_count + 1;
            },
            Instruction::LoopEnd => {
                bracket_count = bracket_count - 1;
            },
            _ => {},
        }

        if bracket_count == 0 {
            return pc;
        }

        pc = pc + 1;
    }

    instructions.len() - 1
}

/// Parse the source text and run it to completion against the given tape and
/// input source, within a budget of `max_steps` machine steps.
///
/// Returns the emitted characters (each also handed to `sink` the moment it
/// is produced), whether the program ran to completion, and a ghost witness:
/// the trace of characters the input source returned and the number of
/// machine steps taken. On completion the result is exactly the completed
/// run of the machine in `semantics` on that trace; a program that needs
/// more than `max_steps` steps (the language admits programs that never
/// terminate) is cut off and reported as incomplete, its tape and output
/// standing exactly as the machine has them after `max_steps` steps.
pub fn interpret_code<M: BfMemory, I: BfInput, O: BfOutput>(
    code: &String,
    memory: &mut M,
    input: &mut I,
    sink: &mut O,
    max_steps: u64,
) -> (r: (Vec<char>, bool, Ghost<(Seq<char>, nat)>))
    requires
        old(memory).inv(),
    ensures
        final(memory).inv(),
        final(memory).modulus() == old(memory).modulus(),
        final(memory).cells().len() == old(memory).cells().len(),
        r.2@.1 <= max_steps,
        r.1 ==> completed_run(
            spec_parse(code@),
            old(memory).modulus(),
            r.2@.0,
            old(memory).cells(),
            old(memory).pointer(),
            r.2@.1,
            final(memory).cells(),
            final(memory).pointer(),
            r.0@,
        ),
        !r.1 ==> r.2@.1 == max_steps && partial_run(
            spec_parse(code@),
            old(memory).modulus(),
            r.2@.0,
            old(memory).cells(),
            old(memory).pointer(),
            r.2@.1,
            final(memory).cells(),
            final(memory).pointer(),
            r.0@,
        ),
{
    let instructions = parse(code);
    let mut pc: usize = 0;
    let mut pc_stack: Vec<usize> = Vec::new();
    let mut output: Vec<char> = Vec::new();
    let mut steps: u64 = 0;
    let ghost m = old(memory).modulus();
    let ghost init = initial_state(old(memory).cells(), old(memory).pointer());
    let ghost mut ins: Seq<char> = Seq::empty();

    while pc < instructions.len() && steps < max_steps
        invariant
            memory.inv(),
            instructions@ == spec_parse(code@),
            m == old(memory).modulus(),
            memory.modulus() == m,
            memory.cells().len() == old(memory).cells().len(),
            init == initial_state(old(memory).cells(), old(memory).pointer()),
            steps <= max_steps,
            forall|i: int|
                0 <= i < pc_stack@.len() ==> (pc_stack@[i] as int) < instructions@.len(),
            ({
                let cur = run(instructions@, m, ins, init, steps as nat);
                &&& cur.pc == pc as int
                &&& cur.stack == pc_stack@.map_values(|u: usize| u as int)
                &&& cur.cells == memory.cells()
                &&& cur.ptr == memory.pointer()
                &&& cur.output == output@
                &&& cur.reads == ins.len()
            }),
        decreases max_steps - steps,
    {
        proof {
            memory.lemma_inv();
        }
        let ghost pre = run(instructions@, m, ins, init, steps as nat);
        let ghost stack_model = pc_stack@.map_values(|u: usize| u as int);

        match instructions[pc] {
            Instruction::CellNext => {
                memory.next();
            },
            Instruction::CellPrev => {
                memory.prev();
            },
            Instruction::LoopStart => {
                if memory.is_cell_zero_value() {
                    pc = find_matching_loop_end(&instructions, pc);
                } else {
                    let target = if pc == 0 {
                        0
                    } else {
                        pc - 1
                    };
                    pc_stack.push(target);
                    proof {
                        assert(pc_stack@.map_values(|u: usize| u as int) =~= stack_model.push(
                            target as int,
                        ));
                    }
                }
            },
            Instruction::LoopEnd => {
                match pc_stack.pop() {
                    Some(new_pc) => {
                        proof {
                            assert(pc_stack@.map_values(|u: usize| u as int)
                                =~= stack_model.drop_last());
                            assert(stack_model.last() == new_pc as int);
                        }
                        if !memory.is_cell_zero_value() {
                            pc = new_pc;
                        }
                    },
                    None => {},
                }
            },
            Instruction::Inc => {
                memory.increase_cell();
            },
            Instruction::Dec => {
                memory.decrease_cell();
            },
            Instruction::Output => {
                let c = memory.read_char();
                sink.write(c);
                output.push(c);
            },
            Instruction::Input => {
                let c = input.read();
                memory.write_char(c);
                proof {
                    lemma_run_extend_input(instructions@, m, ins, init, steps as nat, c);
                    ins = ins.push(c);
                }
            },
        }

        pc = pc + 1;
        proof {
            lemma_run_snoc(instructions@, m, ins, init, steps as nat);
            assert(run(instructions@, m, ins, init, (steps + 1) as nat) == step(
                instructions@,
                m,
                ins,
                pre,
            ));
        }
        steps = steps + 1;
    }

    let completed = pc >= instructions.len();
    proof {
        if completed {
            assert(completed_run(
                spec_parse(code@),
                old(memory).modulus(),
                ins,
                old(memory).cells(),
                old(memory).pointer(),
                steps as nat,
                memory.cells(),
                memory.pointer(),
                output@,
            ));
        } else {
            assert(partial_run(
                spec_parse(code@),
                old(memory).modulus(),
                ins,
                old(memory).cells(),
                old(memory).pointer(),
                steps as nat,
                memory.cells(),
                memory.pointer(),
                output@,
            ));
        }
    }
    (output, completed, Ghost((ins, steps as nat)))
}


/// As `interpret_code`, but drawing input from the library's own buffered
/// source, never refilled during the run. The witness trace is then no
/// longer free: it is pinned to the source's pending characters followed by
/// its sentinel, and the source's final state is stated, so the whole run is
/// determined by the program, the tape and the source alone.
pub fn interpret_code_buffered<M: BfMemory, O: BfOutput>(
    code: &String,
    memory: &mut M,
    source: &mut InputSource,
    sink: &mut O,
    max_steps: u64,
) -> (r: (Vec<char>, bool, Ghost<(Seq<char>, nat)>))
    requires
        old(memory).inv(),
    ensures
        final(memory).inv(),
        final(memory).modulus() == old(memory).modulus(),
        final(memory).cells().len() == old(memory).cells().len(),
        r.2@.1 <= max_steps,
        r.2@.0 == buffered_trace(old(source).pending(), old(source).eof(), r.2@.0.len()),
        final(source).pending() == remaining_after(old(source).pending(), r.2@.0.len()),
        final(source).eof() == old(source).eof(),
        final(source).interactive() == old(source).interactive(),
        final(source).sanitize_enabled() == old(source).sanitize_enabled(),
        r.1 ==> completed_run(
            spec_parse(code@),
            old(memory).modulus(),
            r.2@.0,
            old(memory).cells(),
            old(memory).pointer(),
            r.2@.1,
            final(memory).cells(),
            final(memory).pointer(),
            r.0@,
        ),
        !r.1 ==> r.2@.1 == max_steps && partial_run(
            spec_parse(code@),
            old(memory).modulus(),
            r.2@.0,
            old(memory).cells(),
            old(memory).pointer(),
            r.2@.1,
            final(memory).cells(),
            final(memory).pointer(),
            r.0@,
        ),
{
    let instructions = parse(code);
    let mut pc: usize = 0;
    let mut pc_stack: Vec<usize> = Vec::new();
    let mut output: Vec<char> = Vec::new();
    let mut steps: u64 = 0;
    let ghost m = old(memory).modulus();
    let ghost init = initial_state(old(memory).cells(), old(memory).pointer());
    let ghost pending0 = old(source).pending();
    let ghost eof0 = old(source).eof();
    let ghost mut ins: Seq<char> = Seq::empty();

    proof {
        assert(ins =~= buffered_trace(pending0, eof0, 0));
        assert(source.pending() =~= remaining_after(pending0, 0));
    }

    while pc < instructions.len() && steps < max_steps
        invariant
            memory.inv(),
            instructions@ == spec_parse(code@),
            m == old(memory).modulus(),
            memory.modulus() == m,
            memory.cells().len() == old(memory).cells().len(),
            init == initial_state(old(memory).cells(), old(memory).pointer()),
            pending0 == old(source).pending(),
            eof0 == old(source).eof(),
            ins == buffered_trace(pending0, eof0, ins.len()),
            source.pending() == remaining_after(pending0, ins.len()),
            source.eof() == eof0,
            source.interactive() == old(source).interactive(),
            source.sanitize_enabled() == old(source).sanitize_enabled(),
            steps <= max_steps,
            forall|i: int|
                0 <= i < pc_stack@.len() ==> (pc_stack@[i] as int) < instructions@.len(),
            ({
                let cur = run(instructions@, m, ins, init, steps as nat);
                &&& cur.pc == pc as int
                &&& cur.stack == pc_stack@.map_values(|u: usize| u as int)
                &&& cur.cells == memory.cells()
                &&& cur.ptr == memory.pointer()
                &&& cur.output == output@
                &&& cur.reads == ins.len()
            }),
        decreases max_steps - steps,
    {
        proof {
            memory.lemma_inv();
        }
        let ghost pre = run(instructions@, m, ins, init, steps as nat);
        let ghost stack_model = pc_stack@.map_values(|u: usize| u as int);

        match instructions[pc] {
            Instruction::CellNext => {
                memory.next();
            },
            Instruction::CellPrev => {
                memory.prev();
            },
            Instruction::LoopStart => {
                if memory.is_cell_zero_value() {
                    pc = find_matching_loop_end(&instructions, pc);
                } else {
                    let target = if pc == 0 {
                        0
                    } else {
                        pc - 1
                    };
                    pc_stack.push(target);
                    proof {
                        assert(pc_stack@.map_values(|u: usize| u as int) =~= stack_model.push(
                            target as int,
                        ));
                    }
                }
            },
            Instruction::LoopEnd => {
                match pc_stack.pop() {
                    Some(new_pc) => {
                        proof {
                            assert(pc_stack@.map_values(|u: usize| u as int)
                                =~= stack_model.drop_last());
                            assert(stack_model.last() == new_pc as int);
                        }
                        if !memory.is_cell_zero_value() {
                            pc = new_pc;
                        }
                    },
                    None => {},
                }
            },
            Instruction::Inc => {
                memory.increase_cell();
            },
            Instruction::Dec => {
                memory.decrease_cell();
            },
            Instruction::Output => {
                let c = memory.read_char();
                sink.write(c);
                output.push(c);
            },
            Instruction::Input => {
                let ghost k = ins.len();
                let c = source.read();
                memory.write_char(c);
                proof {
                    if k < pending0.len() {
                        assert(source.pending() =~= remaining_after(pending0, (k + 1) as nat));
                    }
                    assert(c == if k < pending0.len() {
                        pending0[k as int]
                    } else {
                        eof0
                    });
                    lemma_run_extend_input(instructions@, m, ins, init, steps as nat, c);
                    ins = ins.push(c);
                    assert(ins =~= buffered_trace(pending0, eof0, (k + 1) as nat));
                }
            },
        }

        pc = pc + 1;
        proof {
            lemma_run_snoc(instructions@, m, ins, init, steps as nat);
            assert(run(instructions@, m, ins, init, (steps + 1) as nat) == step(
                instructions@,
                m,
                ins,
                pre,
            ));
        }
        steps = steps + 1;
    }

    let completed = pc >= instructions.len();
    proof {
        if completed {
            assert(completed_run(
                spec_parse(code@),
                old(memory).modulus(),
                ins,
                old(memory).cells(),
                old(memory).pointer(),
                steps as nat,
                memory.cells(),
                memory.pointer(),
                output@,
            ));
        } else {
            assert(partial_run(
                spec_parse(code@),
                old(memory).modulus(),
                ins,
                old(memory).cells(),
                old(memory).pointer(),
                steps as nat,
                memory.cells(),
                memory.pointer(),
                output@,
            ));
        }
    }
    (output, completed, Ghost((ins, steps as nat)))
}

} // verus!
