//! The tape: an auto-extending sequence of fixed-width unsigned cells with a
//! single cursor. The cursor never moves left of cell 0, and the tape grows by
//! one zero cell whenever the cursor advances past its current end.

use vstd::prelude::*;

use crate::enums::{MemoryUnit, MemoryUnitType, TapeError};

verus! {

/// The numeric value a cell holds, widened to `u32` whatever its width.
pub open spec fn unit_value(u: MemoryUnit) -> u32 {
    match u {
        MemoryUnit::Int8Bit(x) => x as u32,
        MemoryUnit::Int32Bit(x) => x,
    }
}

/// The width a cell was created with.
pub open spec fn unit_width(u: MemoryUnit) -> MemoryUnitType {
    match u {
        MemoryUnit::Int8Bit(_) => MemoryUnitType::Int8Bit,
        MemoryUnit::Int32Bit(_) => MemoryUnitType::Int32Bit,
    }
}

/// The modulus that cell arithmetic of the given width wraps at.
pub open spec fn modulus(w: MemoryUnitType) -> int {
    match w {
        MemoryUnitType::Int8Bit => 256,
        MemoryUnitType::Int32Bit => 0x1_0000_0000,
    }
}

/// One more than `v`, wrapping at the width's modulus.
pub open spec fn wrap_inc(v: u32, w: MemoryUnitType) -> u32 {
    ((v + 1) % modulus(w)) as u32
}

/// One less than `v`, wrapping at the width's modulus.
pub open spec fn wrap_dec(v: u32, w: MemoryUnitType) -> u32 {
    ((v + modulus(w) - 1) % modulus(w)) as u32
}

/// The value a cell of width `w` holds after `n` single increments of `v`.
pub open spec fn iter_inc(v: u32, w: MemoryUnitType, n: nat) -> u32
    decreases n,
{
    if n == 0 {
        v
    } else {
        wrap_inc(iter_inc(v, w, (n - 1) as nat), w)
    }
}

/// Repeated increments add up modulo the width's modulus.
proof fn lemma_iter_inc_mod(v: u32, w: MemoryUnitType, n: nat)
    requires
        v < modulus(w),
    ensures
        iter_inc(v, w, n) == (v + n) % modulus(w),
    decreases n,
{
    let m = modulus(w);
    if n == 0 {
        vstd::arithmetic::div_mod::lemma_small_mod(v as nat, m as nat);
    } else {
        lemma_iter_inc_mod(v, w, (n - 1) as nat);
        vstd::arithmetic::div_mod::lemma_small_mod(1nat, m as nat);
        vstd::arithmetic::div_mod::lemma_add_mod_noop(v + n - 1, 1, m);
    }
}

/// A full cycle of single increments returns a cell to its starting value:
/// on an 8-bit cell, 256 consecutive increments wrap all the way around, so
/// the zero cell of a fresh 8-bit tape holds zero again afterwards.
pub proof fn lemma_increment_wraps_around(v: u32)
    requires
        v < 256,
    ensures
        iter_inc(v, MemoryUnitType::Int8Bit, 256) == v,
{
    lemma_iter_inc_mod(v, MemoryUnitType::Int8Bit, 256);
    vstd::arithmetic::div_mod::lemma_mod_multiples_vanish(1, v as int, 256);
    vstd::arithmetic::div_mod::lemma_small_mod(v as nat, 256nat);
}

/// Whether `v` is a Unicode scalar value, that is, a code point that is no
/// surrogate; exactly these values can be read out of a cell as a `char`.
pub open spec fn is_unicode_scalar_value(v: u32) -> bool {
    v < 0xD800 || (0xE000 <= v && v <= 0x10FFFF)
}

/// Relies on `char::from_u32` of std: it returns `Some` exactly when the given
/// code point is a Unicode scalar value (not a surrogate, at most 0x10FFFF),
/// and the character it returns has that code point.
pub assume_specification[ char::from_u32 ](v: u32) -> (r: Option<char>)
    ensures
        r is Some <==> is_unicode_scalar_value(v),
        r is Some ==> r->0 as u32 == v,
;

/// The tape: the cells, and the cursor (data pointer) as an index into them.
pub struct MemorySpace {
    pointer_location: usize,
    memory: Vec<MemoryUnit>,
}

impl MemorySpace {
    /// The cell values, widened to `u32`.
    pub closed spec fn cells(&self) -> Seq<u32> {
        Seq::new(self.memory@.len(), |i: int| unit_value(self.memory@[i]))
    }

    /// The cursor position.
    pub closed spec fn cursor(&self) -> int {
        self.pointer_location as int
    }

    /// The cell width the tape was created with, read off its first cell.
    pub closed spec fn width(&self) -> MemoryUnitType {
        unit_width(self.memory@[0])
    }

    /// Every cell is of the tape's one width.
    pub closed spec fn widths_ok(&self) -> bool {
        forall|i: int|
            0 <= i < self.memory@.len() ==> unit_width(#[trigger] self.memory@[i]) == self.width()
    }

    /// Well-formedness: at least one cell, the cursor inside the tape, and
    /// every cell of the same width.
    pub open spec fn wf(&self) -> bool {
        &&& self.cells().len() >= 1
        &&& 0 <= self.cursor() < self.cells().len()
        &&& self.widths_ok()
    }

    /// A fresh zero cell of the given width.
    fn zero_unit(memory_type: MemoryUnitType) -> (u: MemoryUnit)
        ensures
            unit_value(u) == 0,
            unit_width(u) == memory_type,
    {
        match memory_type {
            MemoryUnitType::Int8Bit => MemoryUnit::Int8Bit(0),
            MemoryUnitType::Int32Bit => MemoryUnit::Int32Bit(0),
        }
    }

    /// A tape of the given width: a single zero cell, the cursor on it.
    pub fn new(memory_type: MemoryUnitType) -> (m: Self)
        ensures
            m.wf(),
            m.width() == memory_type,
            m.cells() =~= seq![0u32],
            m.cursor() == 0,
    {
        let mut mem = Self { pointer_location: 0, memory: Vec::new() };
        mem.memory.push(Self::zero_unit(memory_type));
        mem
    }

    /// Move the cursor one cell to the right; when that leaves the tape, append
    /// one zero cell, so that existing cells are never discarded and the tape
    /// grows by exactly one cell. Never fails.
    pub fn pointer_increment(&mut self)
        requires
            old(self).wf(),
        ensures
            final(self).wf(),
            final(self).width() == old(self).width(),
            final(self).cursor() == old(self).cursor() + 1,
            old(self).cursor() + 1 < old(self).cells().len() ==> final(self).cells() == old(
                self,
            ).cells(),
            old(self).cursor() + 1 == old(self).cells().len() ==> final(self).cells() == old(
                self,
            ).cells().push(0u32),
    {
        let len = self.memory.len();
        self.pointer_location = self.pointer_location + 1;
        if self.pointer_location >= len {
            let unit = match self.memory[self.pointer_location - 1] {
                MemoryUnit::Int8Bit(_) => MemoryUnit::Int8Bit(0u8),
                MemoryUnit::Int32Bit(_) => MemoryUnit::Int32Bit(0u32),
            };
            self.memory.push(unit);
            assert(self.cells() =~= old(self).cells().push(0u32));
        } else {
            assert(self.cells() =~= old(self).cells());
        }
    }

    /// Move the cursor one cell to the left and report the new position;
    /// at cell 0 refuse with `TapeError::AtOrigin` and leave the tape as it is.
    pub fn pointer_decrement(&mut self) -> (r: Result<usize, TapeError>)
        requires
            old(self).wf(),
        ensures
            final(self).wf(),
            final(self).width() == old(self).width(),
            final(self).cells() == old(self).cells(),
            old(self).cursor() == 0 ==> r == Err::<usize, TapeError>(TapeError::AtOrigin)
                && final(self).cursor() == 0,
            old(self).cursor() > 0 ==> r == Ok::<usize, TapeError>(
                (old(self).cursor() - 1) as usize,
            ) && final(self).cursor() == old(self).cursor() - 1,
    {
        if self.pointer_location >= 1 {
            self.pointer_location = self.pointer_location - 1;
            Ok(self.pointer_location)
        } else {
            Err(TapeError::AtOrigin)
        }
    }

    /// Add one to the cell at the cursor, wrapping at the tape's width.
    pub fn data_increment(&mut self)
        requires
            old(self).wf(),
        ensures
            final(self).wf(),
            final(self).width() == old(self).width(),
            final(self).cursor() == old(self).cursor(),
            final(self).cells() == old(self).cells().update(
                old(self).cursor(),
                wrap_inc(old(self).cells()[old(self).cursor()], old(self).width()),
            ),
    {
        let p = self.pointer_location;
        let unit = match self.memory[p] {
            MemoryUnit::Int8Bit(x) => MemoryUnit::Int8Bit(
                if x == 255 {
                    0
                } else {
                    x + 1
                },
            ),
            MemoryUnit::Int32Bit(x) => MemoryUnit::Int32Bit(
                if x == 0xFFFF_FFFF {
                    0
                } else {
                    x + 1
                },
            ),
        };
        self.memory[p] = unit;
        assert(self.cells() =~= old(self).cells().update(
            old(self).cursor(),
            wrap_inc(old(self).cells()[old(self).cursor()], old(self).width()),
        ));
    }

    /// Take one from the cell at the cursor, wrapping at the tape's width.
    pub fn data_decrement(&mut self)
        requires
            old(self).wf(),
        ensures
            final(self).wf(),
            final(self).width() == old(self).width(),
            final(self).cursor() == old(self).cursor(),
            final(self).cells() == old(self).cells().update(
                old(self).cursor(),
                wrap_dec(old(self).cells()[old(self).cursor()], old(self).width()),
            ),
    {
        let p = self.pointer_location;
        let unit = match self.memory[p] {
            MemoryUnit::Int8Bit(x) => MemoryUnit::Int8Bit(
                if x == 0 {
                    255
                } else {
                    x - 1
                },
            ),
            MemoryUnit::Int32Bit(x) => MemoryUnit::Int32Bit(
                if x == 0 {
                    0xFFFF_FFFF
                } else {
                    x - 1
                },
            ),
        };
        self.memory[p] = unit;
        assert(self.cells() =~= old(self).cells().update(
            old(self).cursor(),
            wrap_dec(old(self).cells()[old(self).cursor()], old(self).width()),
        ));
    }

    /// Read the cell at the cursor as a character: `Some` exactly when its
    /// value is a Unicode scalar value, and then the character with that code
    /// point.
    pub fn get_data_as_char(&self) -> (r: Option<char>)
        requires
            self.wf(),
        ensures
            r is Some <==> is_unicode_scalar_value(self.cells()[self.cursor()]),
            r is Some ==> r->0 as u32 == self.cells()[self.cursor()],
    {
        let c: u32 = match self.memory[self.pointer_location] {
            MemoryUnit::Int8Bit(x) => x as u32,
            MemoryUnit::Int32Bit(x) => x,
        };
        char::from_u32(c)
    }

    /// Store a character's code point in the cell at the cursor, wrapped to the
    /// tape's width.
    pub fn write_data(&mut self, c: char)
        requires
            old(self).wf(),
        ensures
            final(self).wf(),
            final(self).width() == old(self).width(),
            final(self).cursor() == old(self).cursor(),
            final(self).cells() == old(self).cells().update(
                old(self).cursor(),
                (((c as u32) as int) % modulus(old(self).width())) as u32,
            ),
    {
        let p = self.pointer_location;
        let v = c as u32;
        let unit = match self.memory[p] {
            MemoryUnit::Int8Bit(_) => MemoryUnit::Int8Bit((v % 256) as u8),
            MemoryUnit::Int32Bit(_) => MemoryUnit::Int32Bit(v),
        };
        self.memory[p] = unit;
        assert(self.cells() =~= old(self).cells().update(
            old(self).cursor(),
            (((c as u32) as int) % modulus(old(self).width())) as u32,
        ));
    }

    /// Restore the tape to a single zero cell of the same width, the cursor on
    /// it, discarding all growth.
    pub fn reset(&mut self)
        requires
            old(self).wf(),
        ensures
            final(self).wf(),
            final(self).width() == old(self).width(),
            final(self).cells() =~= seq![0u32],
            final(self).cursor() == 0,
    {
        let unit = match self.memory[0] {
            MemoryUnit::Int8Bit(_) => MemoryUnit::Int8Bit(0u8),
            MemoryUnit::Int32Bit(_) => MemoryUnit::Int32Bit(0u32),
        };
        self.pointer_location = 0;
        self.memory = Vec::new();
        self.memory.push(unit);
    }

    /// Whether the cell at the cursor holds zero.
    pub fn is_data_at_pointer_zero(&self) -> (b: bool)
        requires
            self.wf(),
        ensures
            b == (self.cells()[self.cursor()] == 0),
    {
        match self.memory[self.pointer_location] {
            MemoryUnit::Int8Bit(x) => x == 0,
            MemoryUnit::Int32Bit(x) => x == 0,
        }
    }
}

} // verus!
