use vstd::prelude::*;

verus! {

/// The pixel grid of an image: `width` columns and `height` rows.
#[derive(Clone, Copy, Debug, PartialEq, Eq, Structural)]
pub struct ImageSize {
    pub width: u32,
    pub height: u32,
}

impl ImageSize {
    /// The grid of an image `width` pixels wide whose height, derived from the
    /// width and the aspect ratio, truncated to `truncated_height`; an image has
    /// at least one row.
    pub fn new(width: u32, truncated_height: u32) -> (r: ImageSize)
        ensures
            r.width == width,
            r.height == if truncated_height > 0 {
                truncated_height
            } else {
                1
            },
    {
        let height: u32 = if truncated_height > 0 {
            truncated_height
        } else {
            1
        };
        ImageSize { width, height }
    }

    /// The number of pixels in the grid.
    pub fn pixel_count(&self) -> (r: u64)
        ensures
            r == self.width * self.height,
    {
        proof {
            vstd::arithmetic::mul::lemma_mul_upper_bound(
                self.width as int,
                u32::MAX as int,
                self.height as int,
                u32::MAX as int,
            );
        }
        self.width as u64 * self.height as u64
    }
}

/// One step of a render's walk over the grid.
#[derive(Clone, Copy, Debug, PartialEq, Eq, Structural)]
pub enum ScanStep {
    /// A new row begins; `remaining` rows, this one included, are still to do.
    Row { remaining: u32 },
    /// The pixel in column `i` of row `j` (row 0 is the top one) is next.
    Pixel { i: u32, j: u32 },
    /// Every pixel has been visited.
    Done,
}

/// The steps a walk takes per row: the row's notice, then one per pixel.
pub open spec fn row_steps(size: ImageSize) -> nat {
    size.width as nat + 1
}

/// The number of steps before a walk is done.
pub open spec fn step_count(size: ImageSize) -> nat {
    size.height as nat * row_steps(size)
}

/// The step at position `k` of the walk over `size`: rows from the top, each
/// announced with the number of rows left, then its pixels from the left.
pub open spec fn step_at(size: ImageSize, k: nat) -> ScanStep {
    if k >= step_count(size) {
        ScanStep::Done
    } else {
        let j = k / row_steps(size);
        let r = k % row_steps(size);
        if r == 0 {
            ScanStep::Row { remaining: (size.height - j) as u32 }
        } else {
            ScanStep::Pixel { i: (r - 1) as u32, j: j as u32 }
        }
    }
}

/// A walk over the pixel grid of an image in raster order, one step at a time.
pub struct Scan {
    size: ImageSize,
    row: u32,
    col: u32,
    in_row: bool,
}

impl Scan {
    /// The grid walked.
    pub closed spec fn grid(&self) -> ImageSize {
        self.size
    }

    /// How many steps of the walk have been taken.
    pub closed spec fn position(&self) -> nat {
        self.row as nat * row_steps(self.size) + if self.in_row {
            1 + self.col as nat
        } else {
            0
        }
    }

    /// The state is one a walk reaches.
    pub closed spec fn wf(&self) -> bool {
        &&& self.row <= self.size.height
        &&& self.in_row ==> self.row < self.size.height && self.col < self.size.width
        &&& !self.in_row ==> self.col == 0
    }

    /// A walk over `size` that has taken no step.
    pub fn new(size: ImageSize) -> (r: Scan)
        ensures
            r.wf(),
            r.grid() == size,
            r.position() == 0,
    {
        Scan { size, row: 0, col: 0, in_row: false }
    }

    /// Takes the next step of the walk; once it is done, it stays done.
    pub fn next(&mut self) -> (r: ScanStep)
        requires
            old(self).wf(),
        ensures
            final(self).wf(),
            final(self).grid() == old(self).grid(),
            r == step_at(old(self).grid(), old(self).position()),
            final(self).position() == if old(self).position() < step_count(old(self).grid()) {
                old(self).position() + 1
            } else {
                old(self).position()
            },
    {
        let ghost k = self.position();
        let ghost row0 = self.row as nat;
        let ghost col0 = self.col as nat;
        let ghost w = row_steps(self.size);
        let ghost rem: nat = if self.in_row {
            1 + self.col as nat
        } else {
            0
        };
        proof {
            assert(k == self.row as nat * w + rem);
            assert(rem < w);
            if self.row < self.size.height {
                vstd::arithmetic::div_mod::lemma_fundamental_div_mod_converse(
                    k as int,
                    w as int,
                    self.row as int,
                    rem as int,
                );
                assert(k < step_count(self.size)) by (nonlinear_arith)
                    requires
                        k == self.row as nat * w + rem,
                        rem < w,
                        self.row < self.size.height,
                        step_count(self.size) == self.size.height as nat * w,
                ;
            } else {
                assert(k >= step_count(self.size)) by (nonlinear_arith)
                    requires
                        k == self.row as nat * w + rem,
                        self.row >= self.size.height,
                        step_count(self.size) == self.size.height as nat * w,
                ;
            }
        }
        if self.row >= self.size.height {
            ScanStep::Done
        } else if !self.in_row {
            let remaining = self.size.height - self.row;
            if self.size.width == 0 {
                self.row = self.row + 1;
            } else {
                self.in_row = true;
            }
            proof {
                assert(self.position() == k + 1) by (nonlinear_arith)
                    requires
                        self.size.width == 0 ==> self.row == row0 + 1 && !self.in_row,
                        self.size.width != 0 ==> self.row == row0 && self.in_row
                            && self.col == 0,
                        k == row0 as nat * w,
                        w == self.size.width + 1,
                        self.position() == self.row as nat * w + if self.in_row {
                            1 + self.col as nat
                        } else {
                            0
                        },
                ;
            }
            ScanStep::Row { remaining }
        } else {
            let step = ScanStep::Pixel { i: self.col, j: self.row };
            if self.col + 1 < self.size.width {
                self.col = self.col + 1;
            } else {
                self.row = self.row + 1;
                self.col = 0;
                self.in_row = false;
            }
            proof {
                assert(self.position() == k + 1) by (nonlinear_arith)
                    requires
                        col0 + 1 < self.size.width ==> self.row == row0
                            && self.in_row && self.col == col0 + 1,
                        col0 + 1 >= self.size.width ==> self.row == row0 + 1
                            && !self.in_row && col0 + 1 == self.size.width,
                        k == row0 as nat * w + 1 + col0,
                        w == self.size.width + 1,
                        self.position() == self.row as nat * w + if self.in_row {
                            1 + self.col as nat
                        } else {
                            0
                        },
                ;
            }
            step
        }
    }
}

/// Row `j` of the grid is announced, with the number of rows left counting
/// it, at position `j * (width + 1)` of the walk.
pub proof fn lemma_row_announced(size: ImageSize, j: nat)
    requires
        j < size.height,
    ensures
        step_at(size, j * row_steps(size)) == (ScanStep::Row { remaining: (size.height - j) as u32 }),
{
    let w = row_steps(size);
    vstd::arithmetic::div_mod::lemma_fundamental_div_mod_converse((j * w) as int, w as int, j as int, 0);
    assert(j * w < step_count(size)) by (nonlinear_arith)
        requires
            j < size.height,
            w >= 1,
            step_count(size) == size.height as nat * w,
    ;
}

/// The pixel in column `i` of row `j` is visited at position
/// `j * (width + 1) + 1 + i` of the walk.
pub proof fn lemma_pixel_visited(size: ImageSize, i: nat, j: nat)
    requires
        i < size.width,
        j < size.height,
    ensures
        step_at(size, j * row_steps(size) + 1 + i) == (ScanStep::Pixel { i: i as u32, j: j as u32 }),
{
    let w = row_steps(size);
    let k = j * w + 1 + i;
    vstd::arithmetic::div_mod::lemma_fundamental_div_mod_converse(
        k as int,
        w as int,
        j as int,
        (1 + i) as int,
    );
    assert(k < step_count(size)) by (nonlinear_arith)
        requires
            k == j * w + 1 + i,
            1 + i < w,
            j < size.height,
            step_count(size) == size.height as nat * w,
    ;
}

/// A pixel step names a pixel of the grid, and stands at that pixel's own
/// position: no pixel is visited twice.
pub proof fn lemma_pixel_step_in_grid(size: ImageSize, k: nat)
    requires
        step_at(size, k) is Pixel,
    ensures
        ({
            let (i, j) = (step_at(size, k)->i as nat, step_at(size, k)->j as nat);
            &&& i < size.width
            &&& j < size.height
            &&& k == j * row_steps(size) + 1 + i
        }),
{
    let w = row_steps(size);
    let j = k / w;
    let r = k % w;
    vstd::arithmetic::div_mod::lemma_fundamental_div_mod(k as int, w as int);
    assert(j < size.height) by (nonlinear_arith)
        requires
            k == w * j + r,
            0 <= r,
            k < size.height as nat * w,
            w >= 1,
    ;
    assert(k < step_count(size));
    assert(0 < r < w);
    assert(w * j == j * w) by (nonlinear_arith);
    assert(step_at(size, k) == (ScanStep::Pixel { i: (r - 1) as u32, j: j as u32 }));
    assert(r - 1 < size.width);
}

/// Pixels are visited in raster order: a pixel visited later lies on a lower
/// row, or on the same row further right.
pub proof fn lemma_raster_order(size: ImageSize, k1: nat, k2: nat)
    requires
        k1 < k2,
        step_at(size, k1) is Pixel,
        step_at(size, k2) is Pixel,
    ensures
        ({
            let (i1, j1) = (step_at(size, k1)->i, step_at(size, k1)->j);
            let (i2, j2) = (step_at(size, k2)->i, step_at(size, k2)->j);
            j1 < j2 || (j1 == j2 && i1 < i2)
        }),
{
    let w = row_steps(size);
    lemma_pixel_step_in_grid(size, k1);
    lemma_pixel_step_in_grid(size, k2);
    let (i1, j1) = (step_at(size, k1)->i as nat, step_at(size, k1)->j as nat);
    let (i2, j2) = (step_at(size, k2)->i as nat, step_at(size, k2)->j as nat);
    assert(j1 < j2 || (j1 == j2 && i1 < i2)) by (nonlinear_arith)
        requires
            k1 == j1 * w + 1 + i1,
            k2 == j2 * w + 1 + i2,
            k1 < k2,
            i1 + 1 < w,
            i2 + 1 < w,
    ;
}

} // verus!
