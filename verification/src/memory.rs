//! Fixed-width memory cells with wraparound arithmetic, and the bounded tape
//! of such cells with a saturating pointer.

use vstd::prelude::*;

use crate::interpreter::BfMemory;

verus! {

/// The value of a width-`w` cell after one increment: wraps modulo `m = 2^w`.
pub open spec fn wrap_inc(v: nat, m: nat) -> nat {
    (v + 1) % m
}

/// The value of a width-`w` cell after one decrement: wraps modulo `m = 2^w`.
pub open spec fn wrap_dec(v: nat, m: nat) -> nat {
    if v == 0 {
        (m - 1) as nat
    } else {
        (v - 1) as nat
    }
}

/// The character a cell reads as: its value reduced to the low eight bits,
/// whatever the cell width.
pub open spec fn low_byte_char(v: nat) -> char {
    ((v % 256) as u8) as char
}

/// The value a cell of modulus `m` stores for an incoming character: the
/// code point reduced modulo the cell's value space.
pub open spec fn char_to_cell(c: char, m: nat) -> nat {
    ((c as u32) as nat) % m
}

/// A tape of `len` cells all holding the value `v`, as a fresh tape stands.
pub open spec fn uniform_tape(len: nat, v: nat) -> Seq<nat> {
    Seq::new(len, |i: int| v)
}

/// The tape pointer after one move right: saturates at the last index of a
/// tape of length `len`.
pub open spec fn ptr_right(p: int, len: int) -> int {
    if p + 1 < len {
        p + 1
    } else {
        len - 1
    }
}

/// The tape pointer after one move left: saturates at index zero.
pub open spec fn ptr_left(p: int) -> int {
    if p <= 0 {
        0
    } else {
        p - 1
    }
}

/// The pointer never leaves the tape, and moving right at the last index or
/// left at index zero leaves it unchanged.
pub proof fn lemma_pointer_saturates(p: int, len: int)
    requires
        0 <= p < len,
    ensures
        p == len - 1 ==> ptr_right(p, len) == p,
        p == 0 ==> ptr_left(p) == p,
        0 <= ptr_right(p, len) < len,
        0 <= ptr_left(p) < len,
{
}

/// A cell value stays inside `[0, m - 1]` under increments and decrements,
/// and wraps at both ends: incrementing `m - 1` yields `0`, decrementing `0`
/// yields `m - 1`.
pub proof fn lemma_cell_wraparound(m: nat)
    requires
        m >= 1,
    ensures
        wrap_inc((m - 1) as nat, m) == 0,
        wrap_dec(0, m) == m - 1,
        forall|v: nat| v < m ==> #[trigger] wrap_inc(v, m) < m,
        forall|v: nat| v < m ==> #[trigger] wrap_dec(v, m) < m,
{
    assert(m % m == 0) by (nonlinear_arith)
        requires
            m >= 1,
    ;
}

/// One storage unit of the tape: a fixed-width unsigned integer with
/// wraparound increment and decrement, character read/write, and a zero test.
/// The value space is `[0, modulus - 1]` with `modulus = 2^width`.
pub trait MemoryCell: Sized + Clone {
    /// The stored value, as a mathematical integer.
    spec fn value(&self) -> nat;

    /// The size of the value space, `2^width`.
    spec fn modulus() -> nat;

    /// Every cell value lies inside the value space.
    proof fn lemma_valid(&self)
        ensures
            self.value() < Self::modulus(),
            Self::modulus() >= 2,
    ;

    /// Cloning a cell keeps its value.
    proof fn lemma_clone_value(a: &Self, b: &Self)
        requires
            vstd::pervasive::cloned::<Self>(*a, *b),
        ensures
            b.value() == a.value(),
    ;

    fn increase(&mut self)
        ensures
            final(self).value() == wrap_inc(old(self).value(), Self::modulus()),
    ;

    fn decrease(&mut self)
        ensures
            final(self).value() == wrap_dec(old(self).value(), Self::modulus()),
    ;

    fn write_char(&mut self, input: char)
        ensures
            final(self).value() == char_to_cell(input, Self::modulus()),
    ;

    fn read_char(&self) -> (c: char)
        ensures
            c == low_byte_char(self.value()),
    ;

    fn is_empty(&self) -> (r: bool)
        ensures
            r == (self.value() == 0),
    ;
}

impl MemoryCell for u8 {
    open spec fn value(&self) -> nat {
        *self as nat
    }

    open spec fn modulus() -> nat {
        256
    }

    proof fn lemma_valid(&self) {
    }

    proof fn lemma_clone_value(a: &Self, b: &Self) {
    }

    fn increase(&mut self) {
        if *self == 255 {
            *self = 0;
        } else {
            *self = *self + 1;
        }
    }

    fn decrease(&mut self) {
        if *self == 0 {
            *self = 255;
        } else {
            *self = *self - 1;
        }
    }

    fn write_char(&mut self, input: char) {
        *self = ((input as u32) % 256) as u8;
    }

    fn read_char(&self) -> (c: char) {
        *self as char
    }

    fn is_empty(&self) -> (r: bool) {
        *self == 0
    }
}

impl MemoryCell for u16 {
    open spec fn value(&self) -> nat {
        *self as nat
    }

    open spec fn modulus() -> nat {
        65536
    }

    proof fn lemma_valid(&self) {
    }

    proof fn lemma_clone_value(a: &Self, b: &Self) {
    }

    fn increase(&mut self) {
        if *self == 65535 {
            *self = 0;
        } else {
            *self = *self + 1;
        }
    }

    fn decrease(&mut self) {
        if *self == 0 {
            *self = 65535;
        } else {
            *self = *self - 1;
        }
    }

    fn write_char(&mut self, input: char) {
        *self = ((input as u32) % 65536) as u16;
    }

    fn read_char(&self) -> (c: char) {
        ((*self % 256) as u8) as char
    }

    fn is_empty(&self) -> (r: bool) {
        *self == 0
    }
}

impl MemoryCell for u32 {
    open spec fn value(&self) -> nat {
        *self as nat
    }

    open spec fn modulus() -> nat {
        0x1_0000_0000
    }

    proof fn lemma_valid(&self) {
    }

    proof fn lemma_clone_value(a: &Self, b: &Self) {
    }

    fn increase(&mut self) {
        if *self == 0xffff_ffff {
            *self = 0;
        } else {
            *self = *self + 1;
        }
    }

    fn decrease(&mut self) {
        if *self == 0 {
            *self = 0xffff_ffff;
        } else {
            *self = *self - 1;
        }
    }

    fn write_char(&mut self, input: char) {
        *self = input as u32;
    }

    fn read_char(&self) -> (c: char) {
        ((*self % 256) as u8) as char
    }

    fn is_empty(&self) -> (r: bool) {
        *self == 0
    }
}

/// The memory tape: a non-empty, fixed-length sequence of cells and a
/// pointer that saturates at both ends.
pub struct Memory<T: MemoryCell + Clone> {
    memory: Vec<T>,
    current_cell: usize,
}

impl<T: MemoryCell + Clone> Memory<T> {
    /// Build a tape of `length` cells, each holding the value of
    /// `initialize_with`, with the pointer at index zero.
    pub fn new(length: usize, initialize_with: T) -> (r: Memory<T>)
        requires
            length >= 1,
        ensures
            r.inv(),
            r.modulus() == T::modulus(),
            r.pointer() == 0,
            r.cells().len() == length,
            forall|i: int| 0 <= i < length ==> r.cells()[i] == initialize_with.value(),
    {
        let m = Self { memory: vec![initialize_with; length], current_cell: 0 };
        proof {
            assert forall|i: int| 0 <= i < length implies m.cells()[i] == initialize_with.value() by {
                T::lemma_clone_value(&initialize_with, &m.memory@[i]);
            }
        }
        m
    }
}

impl<T: MemoryCell + Clone> crate::interpreter::BfMemory for Memory<T> {
    closed spec fn cells(&self) -> Seq<nat> {
        self.memory@.map_values(|t: T| t.value())
    }

    closed spec fn pointer(&self) -> int {
        self.current_cell as int
    }

    closed spec fn modulus(&self) -> nat {
        T::modulus()
    }

    closed spec fn inv(&self) -> bool {
        self.memory@.len() >= 1 && self.current_cell < self.memory@.len()
    }

    proof fn lemma_inv(&self) {
        assert forall|i: int| 0 <= i < self.cells().len() implies self.cells()[i]
            < self.modulus() by {
            self.memory@[i].lemma_valid();
        }
        self.memory@[0].lemma_valid();
    }

    fn next(&mut self) {
        if self.current_cell < self.memory.len() - 1 {
            self.current_cell = self.current_cell + 1;
        } else {
            self.current_cell = self.memory.len() - 1;
        }
    }

    fn prev(&mut self) {
        if self.current_cell > 0 {
            self.current_cell = self.current_cell - 1;
        }
    }

    fn is_cell_zero_value(&self) -> (r: bool) {
        self.memory[self.current_cell].is_empty()
    }

    fn increase_cell(&mut self) {
        let cell = &mut self.memory[self.current_cell];
        cell.increase();
        proof {
            assert(self.cells() =~= old(self).cells().update(
                old(self).pointer(),
                wrap_inc(old(self).cells()[old(self).pointer()], old(self).modulus()),
            ));
        }
    }

    fn decrease_cell(&mut self) {
        let cell = &mut self.memory[self.current_cell];
        cell.decrease();
        proof {
            assert(self.cells() =~= old(self).cells().update(
                old(self).pointer(),
                wrap_dec(old(self).cells()[old(self).pointer()], old(self).modulus()),
            ));
        }
    }

    fn read_char(&self) -> (c: char) {
        self.memory[self.current_cell].read_char()
    }

    fn write_char(&mut self, input: char) {
        let cell = &mut self.memory[self.current_cell];
        cell.write_char(input);
        proof {
            assert(self.cells() =~= old(self).cells().update(
                old(self).pointer(),
                char_to_cell(input, old(self).modulus()),
            ));
        }
    }
}

} // verus!
