use vstd::prelude::*;
use vstd::arithmetic::div_mod::{
    lemma_div_pos_is_pos, lemma_fundamental_div_mod, lemma_fundamental_div_mod_converse,
    lemma_mod_pos_bound,
};
use vstd::arithmetic::mul::lemma_mul_inequality;
use crate::point::{Axis, Point};

verus! {

/// Why a pixel buffer cannot be taken as an image.
#[derive(Clone, Copy, Debug, PartialEq, Eq, Structural)]
pub enum ImageError {
    /// The buffer does not hold exactly `width * height` pixels.
    ResolutionMismatch { width: usize, height: usize, len: usize },
}

/// A row-major buffer of packed pixels with its width (`size.x`) and height
/// (`size.y`).
pub struct SimpleImage {
    pub pixels: Vec<u32>,
    pub size: Point<usize>,
}

impl SimpleImage {
    /// The buffer holds one pixel for each cell of the grid.
    pub open spec fn wf(&self) -> bool {
        self.pixels@.len() == self.size.x * self.size.y
    }

    /// Takes `pixels` as an image of `size.x` by `size.y` pixels; fails unless
    /// it holds exactly that many.
    pub fn new(pixels: Vec<u32>, size: Point<usize>) -> (r: Result<SimpleImage, ImageError>)
        ensures
            pixels@.len() == size.x * size.y <==> r is Ok,
            r matches Ok(img) ==> img.pixels@ == pixels@ && img.size == size && img.wf(),
            r matches Err(e) ==> e == (ImageError::ResolutionMismatch {
                width: size.x,
                height: size.y,
                len: pixels.len(),
            }),
    {
        let fits = match size.x.checked_mul(size.y) {
            Some(n) => n == pixels.len(),
            None => false,
        };
        if !fits {
            return Err(
                ImageError::ResolutionMismatch { width: size.x, height: size.y, len: pixels.len() },
            );
        }
        Ok(SimpleImage { pixels, size })
    }

    /// The pixel at column `index.x` of row `index.y`.
    pub fn at(&self, index: Point<usize>) -> (r: u32)
        requires
            self.wf(),
            index.x < self.size.x,
            index.y < self.size.y,
        ensures
            r == pixel_at(self.pixels@, self.size.x as int, index.y as int, index.x as int),
    {
        let n = self.pixels.len();
        proof {
            lemma_cell_in_grid(index.y as int, index.x as int, self.size.x as int, self.size.y as int);
        }
        self.pixels[index.y * self.size.x + index.x]
    }

    /// Sets the pixel at column `index.x` of row `index.y` to `value`, and
    /// leaves the others as they were.
    pub fn set_at(&mut self, index: Point<usize>, value: u32)
        requires
            old(self).wf(),
            index.x < old(self).size.x,
            index.y < old(self).size.y,
        ensures
            final(self).size == old(self).size,
            final(self).pixels@ == old(self).pixels@.update(
                index.y * old(self).size.x + index.x,
                value,
            ),
            pixel_at(final(self).pixels@, final(self).size.x as int, index.y as int, index.x as int)
                == value,
    {
        let n = self.pixels.len();
        proof {
            lemma_cell_in_grid(index.y as int, index.x as int, self.size.x as int, self.size.y as int);
        }
        let i = index.y * self.size.x + index.x;
        self.pixels[i] = value;
    }

    /// Flips the image in place along `axis`: along `X` each row is reversed,
    /// along `Y` the order of the rows is.
    pub fn reverse(&mut self, axis: Axis)
        requires
            old(self).wf(),
        ensures
            final(self).wf(),
            final(self).size == old(self).size,
            final(self).pixels@ == flipped(
                old(self).pixels@,
                old(self).size.x as int,
                old(self).size.y as int,
                axis,
            ),
    {
        let w = self.size.x;
        let h = self.size.y;
        let n = self.pixels.len();
        let ghost orig = self.pixels@;
        match axis {
            Axis::X => {
                let mut y: usize = 0;
                while y < h
                    invariant
                        self.size.x == w && self.size.y == h,
                        self.pixels@.len() == w * h,
                        n == w * h,
                        orig.len() == w * h,
                        y <= h,
                        forall|row: int, col: int|
                            0 <= row < y && 0 <= col < w ==> #[trigger] pixel_at(self.pixels@, w as int, row, col)
                                == pixel_at(orig, w as int, row, w - 1 - col),
                        forall|row: int, col: int|
                            y <= row < h && 0 <= col < w ==> #[trigger] pixel_at(self.pixels@, w as int, row, col)
                                == pixel_at(orig, w as int, row, col),
                    decreases h - y,
                {
                    let mut x: usize = 0;
                    while x < w / 2
                        invariant
                            self.size.x == w && self.size.y == h,
                            self.pixels@.len() == w * h,
                            n == w * h,
                        n == w * h,
                            orig.len() == w * h,
                            y < h,
                            x <= w / 2,
                            forall|row: int, col: int|
                                0 <= row < y && 0 <= col < w ==> #[trigger] pixel_at(self.pixels@, w as int, row, col)
                                    == pixel_at(orig, w as int, row, w - 1 - col),
                            forall|row: int, col: int|
                                y < row < h && 0 <= col < w ==> #[trigger] pixel_at(self.pixels@, w as int, row, col)
                                    == pixel_at(orig, w as int, row, col),
                            forall|col: int|
                                0 <= col < w ==> #[trigger] pixel_at(self.pixels@, w as int, y as int, col)
                                    == if col < x || col >= w - x {
                                        pixel_at(orig, w as int, y as int, w - 1 - col)
                                    } else {
                                        pixel_at(orig, w as int, y as int, col)
                                    },
                        decreases w / 2 - x,
                    {
                        proof {
                            lemma_cell_in_grid(y as int, x as int, w as int, h as int);
                            lemma_cell_in_grid(y as int, w - 1 - x, w as int, h as int);
                        }
                        let i = y * w + x;
                        let j = y * w + (w - 1 - x);
                        let ghost before = self.pixels@;
                        proof {
                            assert(pixel_at(before, w as int, y as int, x as int) == pixel_at(orig, w as int, y as int, x as int));
                            assert(pixel_at(before, w as int, y as int, w - 1 - x) == pixel_at(orig, w as int, y as int, w - 1 - x));
                        }
                        let a = self.pixels[i];
                        let b = self.pixels[j];
                        self.pixels[i] = b;
                        self.pixels[j] = a;
                        proof {
                            assert(pixel_at(self.pixels@, w as int, y as int, x as int) == b);
                            assert(pixel_at(self.pixels@, w as int, y as int, w - 1 - x) == a);
                            assert forall|row: int, col: int|
                                0 <= row < h && 0 <= col < w && !(row == y && (col == x || col == w - 1 - x))
                                implies #[trigger] pixel_at(self.pixels@, w as int, row, col)
                                == pixel_at(before, w as int, row, col) by {
                                lemma_cell_in_grid(row, col, w as int, h as int);
                                lemma_same_cell(row, col, y as int, x as int, w as int);
                                lemma_same_cell(row, col, y as int, w - 1 - x, w as int);
                            }
                        }
                        x = x + 1;
                    }
                    y = y + 1;
                }
            },
            Axis::Y => {
                let mut y: usize = 0;
                while y < h / 2
                    invariant
                        self.size.x == w && self.size.y == h,
                        self.pixels@.len() == w * h,
                        n == w * h,
                        orig.len() == w * h,
                        y <= h / 2,
                        forall|row: int, col: int|
                            0 <= row < h && 0 <= col < w ==> #[trigger] pixel_at(self.pixels@, w as int, row, col)
                                == if row < y || row >= h - y {
                                    pixel_at(orig, w as int, h - 1 - row, col)
                                } else {
                                    pixel_at(orig, w as int, row, col)
                                },
                    decreases h / 2 - y,
                {
                    let mut x: usize = 0;
                    while x < w
                        invariant
                            self.size.x == w && self.size.y == h,
                            self.pixels@.len() == w * h,
                            n == w * h,
                        n == w * h,
                            orig.len() == w * h,
                            y < h / 2,
                            x <= w,
                            forall|row: int, col: int|
                                0 <= row < h && 0 <= col < w ==> #[trigger] pixel_at(self.pixels@, w as int, row, col)
                                    == if row < y || row >= h - y || ((row == y || row == h - 1 - y) && col < x) {
                                        pixel_at(orig, w as int, h - 1 - row, col)
                                    } else {
                                        pixel_at(orig, w as int, row, col)
                                    },
                        decreases w - x,
                    {
                        proof {
                            lemma_cell_in_grid(y as int, x as int, w as int, h as int);
                            lemma_cell_in_grid(h - 1 - y, x as int, w as int, h as int);
                        }
                        let i = y * w + x;
                        let j = (h - 1 - y) * w + x;
                        let ghost before = self.pixels@;
                        proof {
                            assert(pixel_at(before, w as int, y as int, x as int) == pixel_at(orig, w as int, y as int, x as int));
                            assert(pixel_at(before, w as int, h - 1 - y, x as int) == pixel_at(orig, w as int, h - 1 - y, x as int));
                        }
                        let a = self.pixels[i];
                        let b = self.pixels[j];
                        self.pixels[i] = b;
                        self.pixels[j] = a;
                        proof {
                            lemma_same_cell(y as int, x as int, h - 1 - y, x as int, w as int);
                            assert(pixel_at(self.pixels@, w as int, y as int, x as int) == b);
                            assert(pixel_at(self.pixels@, w as int, h - 1 - y, x as int) == a);
                            assert forall|row: int, col: int|
                                0 <= row < h && 0 <= col < w && !(col == x && (row == y || row == h - 1 - y))
                                implies #[trigger] pixel_at(self.pixels@, w as int, row, col)
                                == pixel_at(before, w as int, row, col) by {
                                lemma_cell_in_grid(row, col, w as int, h as int);
                                lemma_same_cell(row, col, y as int, x as int, w as int);
                                lemma_same_cell(row, col, h - 1 - y, x as int, w as int);
                            }
                        }
                        x = x + 1;
                    }
                    y = y + 1;
                }
            },
        }
        proof {
            lemma_grid_to_flipped(orig, self.pixels@, w as int, h as int, axis);
        }
    }
}

/// Two cells of a grid share an index only if they are the same cell.
pub proof fn lemma_same_cell(r1: int, c1: int, r2: int, c2: int, width: int)
    requires
        0 <= c1 < width,
        0 <= c2 < width,
    ensures
        r1 * width + c1 == r2 * width + c2 ==> r1 == r2 && c1 == c2,
{
    lemma_split_index(r1, c1, width);
    lemma_split_index(r2, c2, width);
}

/// A buffer that holds, cell by cell, what a flip puts there is the flipped
/// buffer.
pub proof fn lemma_grid_to_flipped(p: Seq<u32>, q: Seq<u32>, width: int, height: int, axis: Axis)
    requires
        0 <= width,
        0 <= height,
        p.len() == width * height,
        q.len() == width * height,
        forall|row: int, col: int|
            0 <= row < height && 0 <= col < width ==> #[trigger] pixel_at(q, width, row, col)
                == match axis {
                    Axis::X => pixel_at(p, width, row, width - 1 - col),
                    Axis::Y => pixel_at(p, width, height - 1 - row, col),
                },
    ensures
        q == flipped(p, width, height, axis),
{
    let f = flipped(p, width, height, axis);
    assert forall|i: int| 0 <= i < q.len() implies q[i] == f[i] by {
        assert(width > 0) by (nonlinear_arith)
            requires
                0 <= i < width * height,
                0 <= height,
        {
        }
        lemma_index_in_grid(i, width, height);
        let row = i / width;
        let col = i % width;
        lemma_flip_index_in_grid(row, col, width, height, axis);
        assert(pixel_at(q, width, row, col) == q[i]);
    }
    assert(q =~= f);
}

/// The pixel at `row` and `col` of a row-major buffer `width` pixels wide.
pub open spec fn pixel_at(p: Seq<u32>, width: int, row: int, col: int) -> u32 {
    p[row * width + col]
}

/// Where the pixel that a flip along `axis` brings to index `i` comes from.
pub open spec fn flip_index(i: int, width: int, height: int, axis: Axis) -> int {
    let row = i / width;
    let col = i % width;
    match axis {
        Axis::X => row * width + (width - 1 - col),
        Axis::Y => (height - 1 - row) * width + col,
    }
}

/// The buffer `p` of a `width` by `height` image flipped along `axis`: column
/// `col` exchanged with `width - 1 - col` for `X`, row `row` with
/// `height - 1 - row` for `Y`.
pub open spec fn flipped(p: Seq<u32>, width: int, height: int, axis: Axis) -> Seq<u32> {
    Seq::new(p.len(), |i: int| p[flip_index(i, width, height, axis)])
}

/// Row and column of an index into a row-major buffer.
pub proof fn lemma_split_index(row: int, col: int, width: int)
    requires
        0 <= col < width,
    ensures
        (row * width + col) / width == row,
        (row * width + col) % width == col,
{
    lemma_fundamental_div_mod_converse(row * width + col, width, row, col);
}

/// Every index below `width * height` has a row below `height` and a column
/// below `width`.
pub proof fn lemma_index_in_grid(i: int, width: int, height: int)
    requires
        0 <= i < width * height,
        0 < width,
    ensures
        0 <= i / width < height,
        0 <= i % width < width,
        i == (i / width) * width + i % width,
{
    lemma_fundamental_div_mod(i, width);
    lemma_div_pos_is_pos(i, width);
    lemma_mod_pos_bound(i, width);
    assert(width * (i / width) == (i / width) * width) by (nonlinear_arith);
    if i / width >= height {
        lemma_mul_inequality(height, i / width, width);
        assert(height * width == width * height) by (nonlinear_arith);
    }
}

/// Flipping a buffer along an axis twice gives back the buffer.
pub proof fn lemma_flip_twice(p: Seq<u32>, width: int, height: int, axis: Axis)
    requires
        0 <= width,
        0 <= height,
        p.len() == width * height,
    ensures
        flipped(flipped(p, width, height, axis), width, height, axis) == p,
{
    let q = flipped(p, width, height, axis);
    let r = flipped(q, width, height, axis);
    assert forall|i: int| 0 <= i < p.len() implies r[i] == p[i] by {
        assert(width > 0) by (nonlinear_arith)
            requires
                0 <= i < width * height,
                0 <= height,
        {
        }
        lemma_index_in_grid(i, width, height);
        let row = i / width;
        let col = i % width;
        lemma_flip_index_in_grid(row, col, width, height, axis);
        let j = flip_index(i, width, height, axis);
        match axis {
            Axis::X => {
                lemma_flip_index_in_grid(row, width - 1 - col, width, height, axis);
            },
            Axis::Y => {
                lemma_flip_index_in_grid(height - 1 - row, col, width, height, axis);
            },
        }
        assert(flip_index(j, width, height, axis) == i);
    }
    assert(r =~= p);
}

/// Where a flip takes the pixel at `row` and `col`, and that it stays in the
/// buffer.
pub proof fn lemma_flip_index_in_grid(row: int, col: int, width: int, height: int, axis: Axis)
    requires
        0 <= row < height,
        0 <= col < width,
    ensures
        flip_index(row * width + col, width, height, axis) == match axis {
            Axis::X => row * width + (width - 1 - col),
            Axis::Y => (height - 1 - row) * width + col,
        },
        0 <= row * width + col < width * height,
        0 <= flip_index(row * width + col, width, height, axis) < width * height,
{
    lemma_split_index(row, col, width);
    lemma_cell_in_grid(row, col, width, height);
    lemma_cell_in_grid(row, width - 1 - col, width, height);
    lemma_cell_in_grid(height - 1 - row, col, width, height);
}

/// The index of a cell of the grid lies in the buffer.
pub proof fn lemma_cell_in_grid(row: int, col: int, width: int, height: int)
    requires
        0 <= row < height,
        0 <= col < width,
    ensures
        0 <= row * width + col < width * height,
{
    assert(0 <= row * width + col < width * height) by (nonlinear_arith)
        requires
            0 <= row < height,
            0 <= col < width,
    {
        assert(row * width + width <= height * width) by (nonlinear_arith)
            requires
                row + 1 <= height,
                0 <= width,
        {
        }
    }
}

} // verus!
