//! An interpreter for a minimal eight-command tape language: a bounded memory
//! tape of fixed-width wrapping cells, a parser that keeps only the command
//! characters, and an execution engine whose behaviour is pinned to a
//! small-step machine semantics.

use vstd::prelude::*;

pub mod input;
pub mod interpreter;
pub mod memory;
pub mod semantics;

use crate::input::{buffered_trace, remaining_after, InputSource};
use crate::interpreter::{interpret_code, interpret_code_buffered, BfInput, BfMemory, BfOutput};
use crate::memory::{uniform_tape, Memory, MemoryCell};
use crate::semantics::{completed_run, partial_run, spec_parse};

verus! {

/// Build a fresh tape of `memory_length` cells holding `initial_memory_value`
/// and run the program on it, within a budget of `max_steps` machine steps.
///
/// Returns the emitted characters, whether the program ran to completion,
/// and a ghost witness (the input trace and the step count): the result
/// stands exactly as the machine of `semantics` has it on that trace, from a
/// tape of `initial_memory_value`s with the pointer at index zero.
pub fn execute_code<CellType: MemoryCell + Clone, I: BfInput, O: BfOutput>(
    memory_length: usize,
    initial_memory_value: CellType,
    code: &String,
    input: &mut I,
    sink: &mut O,
    max_steps: u64,
) -> (r: (Vec<char>, bool, Ghost<(Seq<char>, nat)>))
    requires
        memory_length >= 1,
    ensures
        r.2@.1 <= max_steps,
        r.1 ==> exists|cells1: Seq<nat>, ptr1: int|
            #[trigger] completed_run(
                spec_parse(code@),
                CellType::modulus(),
                r.2@.0,
                uniform_tape(memory_length as nat, initial_memory_value.value()),
                0,
                r.2@.1,
                cells1,
                ptr1,
                r.0@,
            ),
        !r.1 ==> r.2@.1 == max_steps && exists|cells1: Seq<nat>, ptr1: int|
            #[trigger] partial_run(
                spec_parse(code@),
                CellType::modulus(),
                r.2@.0,
                uniform_tape(memory_length as nat, initial_memory_value.value()),
                0,
                r.2@.1,
                cells1,
                ptr1,
                r.0@,
            ),
{
    let ghost cells0 = uniform_tape(memory_length as nat, initial_memory_value.value());
    let mut memory = Memory::<CellType>::new(memory_length, initial_memory_value);
    proof {
        assert(memory.cells() =~= cells0);
    }
    let r = interpret_code(code, &mut memory, input, sink, max_steps);
    proof {
        if r.1 {
            assert(completed_run(
                spec_parse(code@),
                CellType::modulus(),
                r.2@.0,
                cells0,
                0,
                r.2@.1,
                memory.cells(),
                memory.pointer(),
                r.0@,
            ));
        } else {
            assert(partial_run(
                spec_parse(code@),
                CellType::modulus(),
                r.2@.0,
                cells0,
                0,
                r.2@.1,
                memory.cells(),
                memory.pointer(),
                r.0@,
            ));
        }
    }
    r
}

/// As `execute_code`, but drawing input from the library's own buffered
/// source: the input trace in the witness is pinned to the source's pending
/// characters and sentinel, and the source's final state is stated, so the
/// whole run is determined by the program, the tape configuration and the
/// source alone.
pub fn execute_code_buffered<CellType: MemoryCell + Clone, O: BfOutput>(
    memory_length: usize,
    initial_memory_value: CellType,
    code: &String,
    source: &mut InputSource,
    sink: &mut O,
    max_steps: u64,
) -> (r: (Vec<char>, bool, Ghost<(Seq<char>, nat)>))
    requires
        memory_length >= 1,
    ensures
        r.2@.1 <= max_steps,
        r.2@.0 == buffered_trace(old(source).pending(), old(source).eof(), r.2@.0.len()),
        final(source).pending() == remaining_after(old(source).pending(), r.2@.0.len()),
        final(source).eof() == old(source).eof(),
        final(source).interactive() == old(source).interactive(),
        final(source).sanitize_enabled() == old(source).sanitize_enabled(),
        r.1 ==> exists|cells1: Seq<nat>, ptr1: int|
            #[trigger] completed_run(
                spec_parse(code@),
                CellType::modulus(),
                r.2@.0,
                uniform_tape(memory_length as nat, initial_memory_value.value()),
                0,
                r.2@.1,
                cells1,
                ptr1,
                r.0@,
            ),
        !r.1 ==> r.2@.1 == max_steps && exists|cells1: Seq<nat>, ptr1: int|
            #[trigger] partial_run(
                spec_parse(code@),
                CellType::modulus(),
                r.2@.0,
                uniform_tape(memory_length as nat, initial_memory_value.value()),
                0,
                r.2@.1,
                cells1,
                ptr1,
                r.0@,
            ),
{
    let ghost cells0 = uniform_tape(memory_length as nat, initial_memory_value.value());
    let mut memory = Memory::<CellType>::new(memory_length, initial_memory_value);
    proof {
        assert(memory.cells() =~= cells0);
    }
    let r = interpret_code_buffered(code, &mut memory, source, sink, max_steps);
    proof {
        if r.1 {
            assert(completed_run(
                spec_parse(code@),
                CellType::modulus(),
                r.2@.0,
                cells0,
                0,
                r.2@.1,
                memory.cells(),
                memory.pointer(),
                r.0@,
            ));
        } else {
            assert(partial_run(
                spec_parse(code@),
                CellType::modulus(),
                r.2@.0,
                cells0,
                0,
                r.2@.1,
                memory.cells(),
                memory.pointer(),
                r.0@,
            ));
        }
    }
    r
}

} // verus!
