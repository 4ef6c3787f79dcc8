//! A width-by-height grid of booleans, packed into a bit vector.

use vstd::prelude::*;

verus! {

/// A vector of bits, stored packed by the `bitvec` crate.
#[verifier::external_body]
pub struct Bits {
    bv: bitvec::vec::BitVec,
}

/// The bits that a packed vector holds, first to last.
pub uninterp spec fn bits_of(b: Bits) -> Seq<bool>;

/// `BitVec::repeat`: a vector of `len` bits, each equal to `bit`. The crate
/// refuses lengths above an eighth of the address space, which are left out.
#[verifier::external_body]
fn bits_repeat(bit: bool, len: usize) -> (b: Bits)
    requires
        len <= usize::MAX / 8,
    ensures
        bits_of(b) == Seq::new(len as nat, |i: int| bit),
{
    Bits { bv: bitvec::vec::BitVec::repeat(bit, len) }
}

/// `BitVec::set_elements` with the all-zero pattern: every storage word is
/// overwritten with zero, so every bit reads `false`; the length stays.
#[verifier::external_body]
fn bits_set_elements(b: &mut Bits, element: usize)
    requires
        element == 0,
    ensures
        bits_of(*final(b)) == Seq::new(bits_of(*old(b)).len(), |i: int| false),
    no_unwind
{
    b.bv.set_elements(element);
}

/// Indexing a `BitVec`: the bit at `index`, which must be in range.
#[verifier::external_body]
fn bits_get(b: &Bits, index: usize) -> (bit: bool)
    requires
        index < bits_of(*b).len(),
    ensures
        bit == bits_of(*b)[index as int],
{
    b.bv[index]
}

/// `BitSlice::set`: writes `value` at `index`, which must be in range, and
/// leaves every other bit as it was.
#[verifier::external_body]
fn bits_set(b: &mut Bits, index: usize, value: bool)
    requires
        index < bits_of(*old(b)).len(),
    ensures
        bits_of(*final(b)) == bits_of(*old(b)).update(index as int, value),
    no_unwind
{
    b.bv.set(index, value);
}

/// `BitVec::clone`: a vector holding the same bits.
#[verifier::external_body]
fn bits_clone(b: &Bits) -> (copy: Bits)
    ensures
        bits_of(copy) == bits_of(*b),
{
    Bits { bv: b.bv.clone() }
}

/// A grid of booleans stored row by row: the cell `(x, y)` is bit
/// `y * width + x`.
pub struct BitGrid {
    width: u32,
    height: u32,
    bv: Bits,
}

/// The mathematical content of a [`BitGrid`].
pub struct BitGridView {
    pub width: nat,
    pub height: nat,
    pub bits: Seq<bool>,
}

impl BitGridView {
    /// The grid holds exactly one bit for each cell, and the cells can be
    /// counted in 32 bits.
    pub open spec fn wf(self) -> bool {
        &&& self.bits.len() == self.width * self.height
        &&& self.width * self.height <= u32::MAX
    }

    /// The row-major position of the cell `(x, y)`.
    pub open spec fn index(self, x: int, y: int) -> int {
        y * self.width + x
    }

    /// The value read at `(x, y)`: `false` outside the grid.
    pub open spec fn get(self, x: int, y: int) -> bool {
        if 0 <= x < self.width && 0 <= y < self.height {
            self.bits[self.index(x, y)]
        } else {
            false
        }
    }

    /// Whether the true cell `(x, y)` of this grid, shifted by the offset,
    /// names a bit that exists in `other`.
    pub open spec fn lands_in(self, other: BitGridView, x: int, y: int, dx: int, dy: int) -> bool {
        &&& x + dx <= u32::MAX
        &&& y + dy <= u32::MAX
        &&& (y + dy) * other.width <= u32::MAX
        &&& (y + dy) * other.width + (x + dx) <= u32::MAX
        &&& other.index(x + dx, y + dy) < other.bits.len()
    }

    /// Every true cell of this grid lands inside `other` when shifted.
    pub open spec fn fits_onto(self, other: BitGridView, dx: int, dy: int) -> bool {
        forall|x: int, y: int|
            0 <= x < self.width && 0 <= y < self.height && #[trigger] self.bits[self.index(x, y)]
                ==> self.lands_in(other, x, y, dx, dy)
    }

    /// The bits of `other` after the first `n` cells of this grid, in
    /// row-major order, have been applied onto it with the given offset.
    pub open spec fn applied(self, other: Seq<bool>, other_width: nat, dx: int, dy: int, n: int) -> Seq<bool>
        decreases n,
    {
        if n <= 0 || self.width == 0 {
            other
        } else {
            let before = self.applied(other, other_width, dx, dy, n - 1);
            let x = (n - 1) % (self.width as int);
            let y = (n - 1) / (self.width as int);
            if self.bits[n - 1] {
                before.update((y + dy) * other_width + (x + dx), true)
            } else {
                before
            }
        }
    }
}

impl View for BitGrid {
    type V = BitGridView;

    closed spec fn view(&self) -> BitGridView {
        BitGridView {
            width: self.width as nat,
            height: self.height as nat,
            bits: bits_of(self.bv),
        }
    }
}

impl Clone for BitGrid {
    fn clone(&self) -> (g: BitGrid)
        ensures
            g@ == self@,
    {
        proof {
            use_type_invariant(self);
        }
        BitGrid { width: self.width, height: self.height, bv: bits_clone(&self.bv) }
    }
}

impl BitGrid {
    #[verifier::type_invariant]
    spec fn inv(self) -> bool {
        self@.wf()
    }

    /// Whether a grid of these dimensions can be allocated.
    pub open spec fn spec_dims_fit(width: u32, height: u32) -> bool {
        &&& width * height <= u32::MAX
        &&& width * height <= usize::MAX / 8
    }

    /// A grid of the given dimensions with every cell `false`.
    pub fn new(width: u32, height: u32) -> (g: BitGrid)
        requires
            Self::spec_dims_fit(width, height),
        ensures
            g@.wf(),
            g@.width == width,
            g@.height == height,
            g@.bits == Seq::new((width * height) as nat, |i: int| false),
    {
        proof {
            lemma_product_fits(width, height);
        }
        BitGrid { width, height, bv: bits_repeat(false, (width * height) as usize) }
    }

    /// The number of columns. Every grid holds one bit for each cell.
    pub fn width(&self) -> (w: u32)
        ensures
            w == self@.width,
            self@.wf(),
    {
        proof {
            use_type_invariant(self);
        }
        self.width
    }

    /// The number of rows.
    pub fn height(&self) -> (h: u32)
        ensures
            h == self@.height,
            self@.wf(),
    {
        proof {
            use_type_invariant(self);
        }
        self.height
    }

    /// Replaces the bits by `width * height` true bits.
    pub fn set_all_ones(&mut self)
        requires
            Self::spec_dims_fit(old(self)@.width as u32, old(self)@.height as u32),
        ensures
            final(self)@.wf(),
            final(self)@.width == old(self)@.width,
            final(self)@.height == old(self)@.height,
            final(self)@.bits == Seq::new(old(self)@.width * old(self)@.height, |i: int| true),
    {
        proof {
            lemma_product_fits(self.width, self.height);
        }
        self.bv = bits_repeat(true, (self.width * self.height) as usize);
    }

    fn index(&self, x: u32, y: u32) -> (i: usize)
        requires
            y * self@.width + x <= u32::MAX,
        ensures
            i == self@.index(x as int, y as int),
    {
        assert(y * self.width <= y * self.width + x);
        (y * self.width + x) as usize
    }

    /// Sets every cell to `false`; the dimensions and the number of bits stay.
    pub fn zero_out_bits(&mut self)
        ensures
            final(self)@.width == old(self)@.width,
            final(self)@.height == old(self)@.height,
            final(self)@.bits == Seq::new(old(self)@.bits.len(), |i: int| false),
    {
        proof {
            use_type_invariant(&*self);
        }
        bits_set_elements(&mut self.bv, 0);
    }

    /// The value at `(x, y)`; `false` for a coordinate outside the grid.
    pub fn get_bit(&self, x: u32, y: u32) -> (bit: bool)
        ensures
            bit == self@.get(x as int, y as int),
    {
        proof {
            use_type_invariant(self);
        }
        if x >= self.width || y >= self.height {
            false
        } else {
            proof {
                lemma_cell_in_range(x as int, y as int, self.width as int, self.height as int);
            }
            let i = self.index(x, y);
            bits_get(&self.bv, i)
        }
    }

    /// Writes `value` into bit `y * width + x`, which must exist.
    pub fn set_bit(&mut self, x: u32, y: u32, value: bool)
        requires
            y * old(self)@.width + x <= u32::MAX,
            old(self)@.index(x as int, y as int) < old(self)@.bits.len(),
        ensures
            final(self)@ == (BitGridView {
                bits: old(self)@.bits.update(old(self)@.index(x as int, y as int), value),
                ..old(self)@
            }),
    {
        proof {
            use_type_invariant(&*self);
        }
        let index = self.index(x, y);
        bits_set(&mut self.bv, index, value);
    }

    /// Sets in `other` every cell that is true in this grid, shifted by the
    /// offset. Cells that are false here leave `other` untouched.
    pub fn apply_bits_onto(&self, other: &mut BitGrid, offset_x: u32, offset_y: u32)
        requires
            self@.fits_onto(old(other)@, offset_x as int, offset_y as int),
        ensures
            final(other)@ == (BitGridView {
                bits: self@.applied(
                    old(other)@.bits,
                    old(other)@.width,
                    offset_x as int,
                    offset_y as int,
                    (self@.width * self@.height) as int,
                ),
                ..old(other)@
            }),
    {
        let ghost dx = offset_x as int;
        let ghost dy = offset_y as int;
        let ghost start = other@;
        proof {
            use_type_invariant(self);
            use_type_invariant(&*other);
        }
        if self.width == 0 {
            assert(self@.width * self@.height == 0) by (nonlinear_arith)
                requires
                    self@.width == 0,
            ;
            return ;
        }
        let mut y: u32 = 0;
        while y < self.height
            invariant
                self@.wf(),
                self.width > 0,
                y <= self.height,
                self@.fits_onto(start, dx, dy),
                dx == offset_x,
                dy == offset_y,
                other@.width == start.width,
                other@.height == start.height,
                other@.bits.len() == start.bits.len(),
                other@.bits == self@.applied(start.bits, start.width, dx, dy, y * self@.width),
            decreases self.height - y,
        {
            let mut x: u32 = 0;
            while x < self.width
                invariant
                    self@.wf(),
                    self.width > 0,
                    y < self.height,
                    x <= self.width,
                    self@.fits_onto(start, dx, dy),
                    dx == offset_x,
                    dy == offset_y,
                    other@.width == start.width,
                    other@.height == start.height,
                    other@.bits.len() == start.bits.len(),
                    other@.bits == self@.applied(start.bits, start.width, dx, dy, y * self@.width + x),
                decreases self.width - x,
            {
                proof {
                    lemma_cell_in_range(x as int, y as int, self.width as int, self.height as int);
                    lemma_cell_of_index(x as int, y as int, self.width as int);
                }
                let i = self.index(x, y);
                if bits_get(&self.bv, i) {
                    assert(self@.bits[self@.index(x as int, y as int)]);
                    assert(self@.lands_in(start, x as int, y as int, dx, dy));
                    proof {
                        use_type_invariant(&*other);
                    }
                    let other_index = other.index(x + offset_x, y + offset_y);
                    bits_set(&mut other.bv, other_index, true);
                }
                x = x + 1;
            }
            proof {
                assert((y + 1) * self@.width == y * self@.width + self@.width) by (nonlinear_arith);
            }
            y = y + 1;
        }
        proof {
            assert(self@.height * self@.width == self@.width * self@.height) by (nonlinear_arith);
        }
    }
}

/// A product that fits in `u32` also fits in `usize`.
proof fn lemma_product_fits(width: u32, height: u32)
    requires
        width * height <= u32::MAX,
    ensures
        0 <= width * height <= usize::MAX,
{
    assert(0 <= width * height) by (nonlinear_arith)
        requires
            0 <= width,
            0 <= height,
    ;
}

/// A cell inside a `width`-by-`height` grid has a row-major index below
/// `width * height`.
proof fn lemma_cell_in_range(x: int, y: int, width: int, height: int)
    requires
        0 <= x < width,
        0 <= y < height,
    ensures
        0 <= y * width + x < width * height,
        0 <= y * width,
{
    assert(y * width + x < width * height) by (nonlinear_arith)
        requires
            0 <= x < width,
            0 <= y < height,
    ;
    assert(0 <= y * width) by (nonlinear_arith)
        requires
            0 <= y,
            0 < width,
    ;
}

/// Dividing a row-major index by the width gives back the cell.
proof fn lemma_cell_of_index(x: int, y: int, width: int)
    requires
        0 <= x < width,
        0 <= y,
    ensures
        (y * width + x) % width == x,
        (y * width + x) / width == y,
{
    vstd::arithmetic::div_mod::lemma_fundamental_div_mod_converse(y * width + x, width, y, x);
}

} // verus!
