//! A windowed witness cache: assigned field values over a rectangular
//! window of the trace grid, supporting row-relative read-back, bulk
//! replication of a template row, and access to the bound challenges.

use vstd::prelude::*;
use vstd::arithmetic::div_mod::lemma_small_mod;
use crate::field::{Fp, Field, fr_modulus, lemma_fp_value_injective};
use crate::word::Word;
use crate::challenges::Challenges;
use crate::expression::{Expression, WordLoHi, eval};

verus! {

/// A failure of the underlying grid to accept an assignment — here, a
/// write outside the region window. Recoverable: the caller aborts the
/// affected synthesis pass.
#[derive(Clone, Copy, PartialEq, Eq, Structural, Debug)]
pub enum Error {
    /// The grid rejected the assignment.
    Synthesis,
}

/// A rectangular window of the trace grid, caching every assigned value
/// for local read-back. `advice[c][r]` caches column `width_start + c` at
/// row `height_start + r`; unassigned cells hold the additive identity.
/// An assignment takes the realized value once and updates the grid cell
/// and the cache from that single value.
pub struct CachedRegion {
    pub advice: Vec<Vec<Fp>>,
    pub challenges: Challenges<Fp>,
    pub width_start: usize,
    pub height_start: usize,
}

impl CachedRegion {
    /// Number of columns of the window.
    pub open spec fn num_cols(&self) -> nat {
        self.advice@.len()
    }

    /// Number of rows of the window.
    pub open spec fn num_rows(&self) -> nat {
        if self.advice@.len() == 0 {
            0
        } else {
            self.advice@[0]@.len()
        }
    }

    /// The cached value at window-local column `col` and row `row`.
    pub open spec fn value_at(&self, col: int, row: int) -> Fp {
        self.advice@[col]@[row]
    }

    /// The cache as a sequence of column value sequences.
    pub open spec fn advice_view(&self) -> Seq<Seq<Fp>> {
        self.advice@.map_values(|v: Vec<Fp>| v@)
    }

    /// Every column has the window's height, every cached value is in
    /// canonical form, the challenges are bound to canonical values, and
    /// the window fits the grid's coordinate space.
    pub open spec fn wf(&self) -> bool {
        &&& forall|c: int|
            0 <= c < self.num_cols() ==> (#[trigger] self.advice@[c])@.len() == self.num_rows()
        &&& forall|c: int, r: int|
            0 <= c < self.num_cols() && 0 <= r < self.num_rows() ==> (#[trigger] self.value_at(
                c,
                r,
            )).wf()
        &&& self.challenges.keccak_input.wf()
        &&& self.challenges.lookup_input.wf()
        &&& self.width_start + self.num_cols() <= usize::MAX
        &&& self.height_start + self.num_rows() <= usize::MAX
    }

    /// Two cache states that describe the same window with the same bound
    /// challenges.
    pub open spec fn same_window(&self, other: &CachedRegion) -> bool {
        &&& self.width_start == other.width_start
        &&& self.height_start == other.height_start
        &&& self.num_cols() == other.num_cols()
        &&& self.num_rows() == other.num_rows()
        &&& self.challenges == other.challenges
    }

    /// Opens a window of `width` columns and `height` rows with every cell
    /// at the additive identity.
    pub fn new(
        width_start: usize,
        height_start: usize,
        width: usize,
        height: usize,
        challenges: Challenges<Fp>,
    ) -> (r: CachedRegion)
        requires
            width_start + width <= usize::MAX,
            height_start + height <= usize::MAX,
            challenges.keccak_input.wf(),
            challenges.lookup_input.wf(),
        ensures
            r.wf(),
            r.width_start == width_start,
            r.height_start == height_start,
            r.num_cols() == width,
            width > 0 ==> r.num_rows() == height,
            r.challenges == challenges,
            forall|c: int, rw: int|
                0 <= c < width && 0 <= rw < height ==> r.value_at(c, rw) == (Fp { lo: 0, hi: 0 }),
    {
        let mut advice: Vec<Vec<Fp>> = Vec::new();
        let mut c: usize = 0;
        while c < width
            invariant
                0 <= c <= width,
                advice@.len() == c,
                forall|cc: int| 0 <= cc < c ==> (#[trigger] advice@[cc])@.len() == height,
                forall|cc: int, rw: int|
                    0 <= cc < c && 0 <= rw < height ==> advice@[cc]@[rw] == (Fp { lo: 0, hi: 0 }),
            decreases width - c,
        {
            let mut col: Vec<Fp> = Vec::new();
            let mut r: usize = 0;
            while r < height
                invariant
                    0 <= r <= height,
                    col@.len() == r,
                    forall|rw: int| 0 <= rw < r ==> col@[rw] == (Fp { lo: 0, hi: 0 }),
                decreases height - r,
            {
                col.push(Fp { lo: 0, hi: 0 });
                r = r + 1;
            }
            advice.push(col);
            c = c + 1;
        }
        CachedRegion { advice, challenges, width_start, height_start }
    }

    /// Assigns an advice value at (global) `column` and row `offset`,
    /// caching it for later read-back; fails exactly when the cell lies
    /// outside the window.
    pub fn assign_advice(&mut self, column: usize, offset: usize, value: Fp) -> (r: Result<
        (),
        Error,
    >)
        requires
            old(self).wf(),
            value.wf(),
        ensures
            final(self).wf(),
            final(self).same_window(old(self)),
            r is Ok <==> (old(self).width_start <= column < old(self).width_start + old(
                self,
            ).num_cols() && old(self).height_start <= offset < old(self).height_start + old(
                self,
            ).num_rows()),
            r is Ok ==> final(self).value_at(column - old(self).width_start, offset - old(
                self,
            ).height_start) == value,
            r is Ok ==> forall|c: int, rw: int|
                0 <= c < old(self).num_cols() && 0 <= rw < old(self).num_rows() && !(c == column
                    - old(self).width_start && rw == offset - old(self).height_start)
                    ==> final(self).value_at(c, rw) == old(self).value_at(c, rw),
            r is Err ==> *final(self) == *old(self),
    {
        let width = self.advice.len();
        if column < self.width_start || column - self.width_start >= width {
            return Err(Error::Synthesis);
        }
        let ci = column - self.width_start;
        let height = self.advice[0].len();
        if offset < self.height_start || offset - self.height_start >= height {
            return Err(Error::Synthesis);
        }
        let ri = offset - self.height_start;
        self.advice[ci][ri] = value;
        proof {
            assert forall|c2: int|
                0 <= c2 < self.num_cols() implies (#[trigger] self.advice@[c2])@.len()
                == self.num_rows() by {
                assert(old(self).advice@[c2]@.len() == old(self).num_rows());
            }
            assert forall|c2: int, r2: int|
                0 <= c2 < self.num_cols() && 0 <= r2 < self.num_rows() implies (
            #[trigger] self.value_at(c2, r2)).wf() by {
                if !(c2 == ci && r2 == ri) {
                    assert(old(self).value_at(c2, r2).wf());
                }
            }
        }
        Ok(())
    }

    /// Reads back the cached value at `column` and row `row_index +
    /// rotation`; reading a cell outside the window is out of contract.
    pub fn get_advice(&self, row_index: usize, column_index: usize, rotation: i32) -> (r: Fp)
        requires
            self.wf(),
            self.width_start <= column_index < self.width_start + self.num_cols(),
            self.height_start <= row_index,
            0 <= row_index - self.height_start + rotation < self.num_rows(),
        ensures
            r == self.value_at(
                column_index - self.width_start,
                row_index - self.height_start + rotation,
            ),
            r.wf(),
    {
        let ci = column_index - self.width_start;
        let base = row_index - self.height_start;
        let ri: usize = if rotation >= 0 {
            base + (rotation as usize)
        } else {
            let m: i64 = -(rotation as i64);
            base - (m as usize)
        };
        proof {
            assert(ri == row_index - self.height_start + rotation);
            assert(self.value_at(ci as int, ri as int).wf());
        }
        self.advice[ci][ri]
    }

    /// The bound concrete challenge values for witness computation inside
    /// this window.
    pub fn challenges(&self) -> (r: &Challenges<Fp>)
        ensures
            *r == self.challenges,
    {
        &self.challenges
    }

    /// A 256-bit code-hash value as a pair of half-width field elements.
    pub fn code_hash(&self, n: Word) -> (r: WordLoHi<Fp>)
        ensures
            r.lo.wf(),
            r.hi.wf(),
            r.lo.value() == n.lo,
            r.hi.value() == n.hi,
    {
        WordLoHi { lo: Fp::from_u128(n.lo), hi: Fp::from_u128(n.hi) }
    }

    /// Replicates the window's first row into rows `[offset_begin,
    /// offset_end)` for every column whose template value is nonzero;
    /// columns with a zero template are skipped, their cells keeping the
    /// cache's zero default. Fails exactly when a nonempty range does not
    /// lie inside the window.
    pub fn replicate_assignment_for_range(
        &mut self,
        offset_begin: usize,
        offset_end: usize,
    ) -> (r: Result<(), Error>)
        requires
            old(self).wf(),
        ensures
            final(self).wf(),
            final(self).same_window(old(self)),
            r is Ok <==> (offset_begin >= offset_end || (old(self).height_start <= offset_begin
                && offset_end <= old(self).height_start + old(self).num_rows())),
            r is Ok ==> forall|c: int, rw: int|
                0 <= c < old(self).num_cols() && 0 <= rw < old(self).num_rows()
                    ==> final(self).value_at(c, rw) == replicated_value(
                    *old(self),
                    c,
                    rw,
                    offset_begin - old(self).height_start,
                    offset_end - old(self).height_start,
                ),
            r is Err ==> *final(self) == *old(self),
    {
        if offset_begin >= offset_end {
            return Ok(());
        }
        let width = self.advice.len();
        let height = if width == 0 {
            0
        } else {
            self.advice[0].len()
        };
        if offset_begin < self.height_start || offset_end > self.height_start + height {
            return Err(Error::Synthesis);
        }
        let ghost pre = *self;
        let ghost bl = offset_begin - self.height_start as int;
        let ghost el = offset_end - self.height_start as int;
        proof {
            assert forall|cc: int, rw: int|
                0 <= cc < width && 0 <= rw < height implies (
            #[trigger] self.advice@[cc]@[rw]).wf() by {
                assert(pre.value_at(cc, rw).wf());
            }
        }
        let mut c: usize = 0;
        while c < width
            invariant
                0 <= c <= width,
                pre.wf(),
                width == pre.num_cols(),
                height == pre.num_rows(),
                self.height_start <= offset_begin,
                offset_begin < offset_end,
                offset_end <= self.height_start + height,
                bl == offset_begin - self.height_start as int,
                el == offset_end - self.height_start as int,
                self.width_start == pre.width_start,
                self.height_start == pre.height_start,
                self.challenges == pre.challenges,
                self.advice@.len() == width,
                forall|cc: int| c <= cc < width ==> self.advice@[cc] == pre.advice@[cc],
                forall|cc: int| 0 <= cc < width ==> (#[trigger] self.advice@[cc])@.len() == height,
                forall|cc: int, rw: int|
                    0 <= cc < c && 0 <= rw < height ==> self.advice@[cc]@[rw] == replicated_value(
                        pre,
                        cc,
                        rw,
                        bl,
                        el,
                    ),
                forall|cc: int, rw: int|
                    0 <= cc < width && 0 <= rw < height ==> (#[trigger] self.advice@[cc]@[rw]).wf(),
            decreases width - c,
        {
            let template: Fp = self.advice[c][0];
            assert(template == pre.value_at(c as int, 0));
            if !template.is_zero() {
                let mut ofs: usize = offset_begin;
                while ofs < offset_end
                    invariant
                        0 <= c < width,
                        pre.wf(),
                        width == pre.num_cols(),
                        height == pre.num_rows(),
                        self.height_start <= offset_begin,
                        offset_begin <= ofs <= offset_end,
                        offset_end <= self.height_start + height,
                        bl == offset_begin - self.height_start as int,
                        el == offset_end - self.height_start as int,
                        self.width_start == pre.width_start,
                        self.height_start == pre.height_start,
                        self.challenges == pre.challenges,
                        self.advice@.len() == width,
                        template == pre.value_at(c as int, 0),
                        template.value() != 0,
                        forall|cc: int| c < cc < width ==> self.advice@[cc] == pre.advice@[cc],
                        forall|cc: int|
                            0 <= cc < width ==> (#[trigger] self.advice@[cc])@.len() == height,
                        forall|cc: int, rw: int|
                            0 <= cc < c && 0 <= rw < height ==> self.advice@[cc]@[rw]
                                == replicated_value(pre, cc, rw, bl, el),
                        forall|rw: int|
                            0 <= rw < height && !(bl <= rw < ofs - self.height_start)
                                ==> self.advice@[c as int]@[rw] == pre.advice@[c as int]@[rw],
                        forall|rw: int|
                            bl <= rw < ofs - self.height_start ==> self.advice@[c as int]@[rw]
                                == template,
                        forall|cc: int, rw: int|
                            0 <= cc < width && 0 <= rw < height
                                ==> (#[trigger] self.advice@[cc]@[rw]).wf(),
                    decreases offset_end - ofs,
                {
                    let ri = ofs - self.height_start;
                    self.advice[c][ri] = template;
                    ofs = ofs + 1;
                }
            }
            proof {
                assert forall|rw: int| 0 <= rw < height implies self.advice@[c as int]@[rw]
                    == replicated_value(pre, c as int, rw, bl, el) by {
                    if template.value() == 0 && bl <= rw < el {
                        assert(pre.value_at(c as int, 0).value() == 0);
                    }
                }
            }
            c = c + 1;
        }
        proof {
            assert forall|cc: int, rw: int|
                0 <= cc < self.num_cols() && 0 <= rw < self.num_rows() implies (
            #[trigger] self.value_at(cc, rw)).wf() by {
                assert(self.advice@[cc]@[rw].wf());
            }
        }
        Ok(())
    }
}

/// The value a cell holds after the window's first row is replicated over
/// the window-local row range `[begin, end)`: the template value where the
/// row is in the range and the template is nonzero, the prior value
/// elsewhere.
pub open spec fn replicated_value(pre: CachedRegion, c: int, rw: int, begin: int, end: int) -> Fp {
    if begin <= rw < end && pre.value_at(c, 0).value() != 0 {
        pre.value_at(c, 0)
    } else {
        pre.value_at(c, rw)
    }
}

/// Replicating a fully-assigned template row over a padding range whose
/// rows still hold the cache's zero default produces the same grid state
/// as re-assigning every row of the range to the template row's values.
pub proof fn lemma_replicate_matches_reassignment(
    pre: CachedRegion,
    post: CachedRegion,
    begin: int,
    end: int,
)
    requires
        pre.wf(),
        0 <= begin <= end <= pre.num_rows(),
        post.same_window(&pre),
        forall|c: int, rw: int|
            0 <= c < pre.num_cols() && 0 <= rw < pre.num_rows() ==> post.value_at(c, rw)
                == replicated_value(pre, c, rw, begin, end),
        forall|c: int, rw: int|
            0 <= c < pre.num_cols() && begin <= rw < end ==> (#[trigger] pre.value_at(
                c,
                rw,
            )).value() == 0,
    ensures
        forall|c: int, rw: int|
            0 <= c < pre.num_cols() && begin <= rw < end ==> #[trigger] post.value_at(c, rw)
                == pre.value_at(c, 0),
        forall|c: int, rw: int|
            0 <= c < pre.num_cols() && 0 <= rw < pre.num_rows() && !(begin <= rw < end)
                ==> #[trigger] post.value_at(c, rw) == pre.value_at(c, rw),
{
    assert forall|c: int, rw: int|
        0 <= c < pre.num_cols() && begin <= rw < end implies #[trigger] post.value_at(c, rw)
        == pre.value_at(c, 0) by {
        if pre.value_at(c, 0).value() == 0 {
            lemma_fp_value_injective(pre.value_at(c, rw), pre.value_at(c, 0));
        }
    }
}

/// An expression can be evaluated over a window at global row `offset`:
/// its constants are canonical, its challenge references name one of the
/// two challenges, and every cell query lands inside the window.
pub open spec fn evaluable(e: Expression, region: CachedRegion, offset: int) -> bool
    decreases e,
{
    match e {
        Expression::Constant(f) => f.wf(),
        Expression::Advice { column, rotation } => {
            &&& region.width_start <= column < region.width_start + region.num_cols()
            &&& 0 <= offset - region.height_start + rotation < region.num_rows()
        },
        Expression::Challenge(c) => c.index < 2,
        Expression::Negated(x) => evaluable(*x, region, offset),
        Expression::Sum(a, b) => evaluable(*a, region, offset) && evaluable(*b, region, offset),
        Expression::Product(a, b) => evaluable(*a, region, offset) && evaluable(
            *b,
            region,
            offset,
        ),
        Expression::Scaled(x, f) => evaluable(*x, region, offset) && f.wf(),
    }
}

impl Expression {
    /// Evaluates the expression over a window's cached values at global
    /// row `offset`, using the window's bound challenges; the result is
    /// the expression's value under the spec-level semantics.
    pub fn evaluate(&self, region: &CachedRegion, offset: usize) -> (r: Fp)
        requires
            region.wf(),
            region.height_start <= offset,
            evaluable(*self, *region, offset as int),
        ensures
            r.wf(),
            r.value() == eval(
                *self,
                region.advice_view(),
                region.width_start as int,
                offset - region.height_start,
                region.challenges.keccak_input,
                region.challenges.lookup_input,
            ),
        decreases self,
    {
        match self {
            Expression::Constant(f) => {
                proof {
                    lemma_small_mod(f.value(), fr_modulus());
                }
                *f
            },
            Expression::Advice { column, rotation } => {
                let v = region.get_advice(offset, *column, *rotation);
                proof {
                    lemma_small_mod(v.value(), fr_modulus());
                    assert(region.advice_view()[*column - region.width_start] == region.advice@[
                        *column - region.width_start]@);
                }
                v
            },
            Expression::Challenge(c) => {
                let v = if c.index == 0 {
                    region.challenges.keccak_input
                } else {
                    region.challenges.lookup_input
                };
                proof {
                    lemma_small_mod(v.value(), fr_modulus());
                }
                v
            },
            Expression::Negated(x) => x.evaluate(region, offset).neg(),
            Expression::Sum(a, b) => {
                let va = a.evaluate(region, offset);
                let vb = b.evaluate(region, offset);
                va.add(&vb)
            },
            Expression::Product(a, b) => {
                let va = a.evaluate(region, offset);
                let vb = b.evaluate(region, offset);
                va.mul(&vb)
            },
            Expression::Scaled(x, f) => {
                let vx = x.evaluate(region, offset);
                vx.mul(f)
            },
        }
    }
}

} // verus!
