//! Iteration grids and the images rendered from them.
//!
//! A grid is a dense `width` x `height` array of iteration counts stored
//! flat, the count for column `i` of row `j` at index `j * width + i`.
//! The sequential evaluator fills a grid pixel by pixel; a flat buffer
//! read back from a device dispatch is wrapped into the same type after
//! its length is checked, so both strategies meet one contract.

use crate::color::color_spec;
use crate::color::get_color;
use crate::color::Pixel;
use crate::kernel::escape_time;
use crate::kernel::escape_time_spec;
use crate::kernel::lemma_escape_time_in_range;
use vstd::arithmetic::div_mod::lemma_fundamental_div_mod_converse;
use vstd::prelude::*;

verus! {

/// A dense `width` x `height` grid of iteration counts.
pub struct IterationGrid {
    pub width: u32,
    pub height: u32,
    pub counts: Vec<u32>,
}

/// A flat index stays inside a grid when its coordinates do.
proof fn lemma_grid_index(i: int, j: int, width: int, height: int)
    by (nonlinear_arith)
    requires
        0 <= i < width,
        0 <= j < height,
    ensures
        0 <= j * width + i,
        j * width + i < width * height,
{
}

/// The counts of a sequentially evaluated grid: entry `k` holds the
/// escape time of column `k % width`, row `k / width`.
pub open spec fn sequential_counts(width: int, height: int, max_iter: nat) -> Seq<u32>
    recommends
        0 < width,
        0 < height,
{
    Seq::new(
        (width * height) as nat,
        |k: int| escape_time_spec(k % width, k / width, width, height, max_iter) as u32,
    )
}

impl IterationGrid {
    /// The grid holds exactly one count per pixel.
    pub open spec fn wf(self) -> bool {
        self.counts.len() == self.width * self.height
    }

    /// The count stored for column `i`, row `j`.
    pub open spec fn count_at(self, i: int, j: int) -> u32
        recommends
            self.wf(),
            0 <= i < self.width,
            0 <= j < self.height,
    {
        self.counts@[j * self.width + i]
    }

    /// Reads the count for pixel (i, j).
    pub fn get(&self, i: u32, j: u32) -> (n: u32)
        requires
            self.wf(),
            i < self.width,
            j < self.height,
        ensures
            n == self.count_at(i as int, j as int),
    {
        proof {
            lemma_grid_index(i as int, j as int, self.width as int, self.height as int);
        }
        let idx: usize = (j as usize) * (self.width as usize) + (i as usize);
        self.counts[idx]
    }

    /// Wraps a flat buffer of counts, one per pixel at index
    /// `j * width + i`, into a grid. Succeeds if and only if the buffer
    /// holds exactly `width * height` counts.
    pub fn from_flat(width: u32, height: u32, counts: Vec<u32>) -> (r: Option<IterationGrid>)
        ensures
            r is Some <==> counts.len() == width * height,
            match r {
                Some(g) => {
                    &&& g.wf()
                    &&& g.width == width
                    &&& g.height == height
                    &&& g.counts@ == counts@
                },
                None => counts.len() != width * height,
            },
    {
        proof {
            assert((width as u64) * (height as u64) <= 0xFFFF_FFFF_FFFF_FFFF)
                by (nonlinear_arith)
                requires
                    width <= 0xFFFF_FFFFu64,
                    height <= 0xFFFF_FFFFu64,
            ;
        }
        if (counts.len() as u64) == (width as u64) * (height as u64) {
            Some(IterationGrid { width, height, counts })
        } else {
            None
        }
    }
}

/// Evaluates every pixel of a `width` x `height` grid on the calling
/// thread, row by row, one escape-time computation per pixel. The result
/// is fully determined by the three parameters.
pub fn evaluate_sequential(width: u32, height: u32, max_iter: u32) -> (g: IterationGrid)
    requires
        0 < width,
        0 < height,
        width * height <= usize::MAX,
    ensures
        g.wf(),
        g.width == width,
        g.height == height,
        g.counts@ == sequential_counts(width as int, height as int, max_iter as nat),
        forall|k: int| 0 <= k < g.counts@.len() ==> #[trigger] g.counts@[k] <= max_iter,
{
    proof {
        lemma_sequential_counts_in_range(width as int, height as int, max_iter as nat);
    }
    let ghost target = sequential_counts(width as int, height as int, max_iter as nat);
    let mut counts: Vec<u32> = Vec::new();
    let mut j: u32 = 0;
    while j < height
        invariant
            0 < width,
            0 < height,
            width * height <= usize::MAX,
            j <= height,
            counts.len() == j * width,
            target == sequential_counts(width as int, height as int, max_iter as nat),
            forall|k: int| 0 <= k < counts.len() ==> counts@[k] == target[k],
        decreases height - j,
    {
        let mut i: u32 = 0;
        while i < width
            invariant
                0 < width,
                0 < height,
                width * height <= usize::MAX,
                j < height,
                i <= width,
                counts.len() == j * width + i,
                target == sequential_counts(width as int, height as int, max_iter as nat),
                forall|k: int| 0 <= k < counts.len() ==> counts@[k] == target[k],
            decreases width - i,
        {
            proof {
                lemma_grid_index(i as int, j as int, width as int, height as int);
                lemma_fundamental_div_mod_converse(
                    j as int * width as int + i as int,
                    width as int,
                    j as int,
                    i as int,
                );
            }
            let n = escape_time(i, j, width, height, max_iter);
            counts.push(n);
            i = i + 1;
        }
        j = j + 1;
        proof {
            assert((j - 1) * width + width == j * width) by (nonlinear_arith);
        }
    }
    proof {
        assert(height * width == width * height) by (nonlinear_arith);
        assert(counts@ =~= target);
    }
    IterationGrid { width, height, counts }
}

/// A sequentially evaluated grid holds, at index `j * width + i`, the
/// escape time of pixel (i, j): the flat indexing contract.
pub proof fn lemma_sequential_counts_entry(
    i: int,
    j: int,
    width: int,
    height: int,
    max_iter: nat,
)
    requires
        0 <= i < width,
        0 <= j < height,
        max_iter <= u32::MAX,
    ensures
        sequential_counts(width, height, max_iter)[j * width + i]
            == escape_time_spec(i, j, width, height, max_iter),
{
    lemma_grid_index(i, j, width, height);
    lemma_fundamental_div_mod_converse(j * width + i, width, j, i);
    lemma_escape_time_in_range(i, j, width, height, max_iter);
}

/// Every count of a sequentially evaluated grid lies in [0, max_iter].
pub proof fn lemma_sequential_counts_in_range(width: int, height: int, max_iter: nat)
    ensures
        forall|k: int|
            0 <= k < sequential_counts(width, height, max_iter).len()
                ==> #[trigger] sequential_counts(width, height, max_iter)[k] <= max_iter,
{
    assert forall|k: int|
        0 <= k < sequential_counts(width, height, max_iter).len() implies #[trigger] sequential_counts(
        width,
        height,
        max_iter,
    )[k] <= max_iter by {
        lemma_escape_time_in_range(k % width, k / width, width, height, max_iter);
    }
}

/// Evaluation is deterministic: two grids produced from the same
/// parameters hold identical counts, entry for entry.
pub proof fn lemma_evaluation_idempotent(
    g1: IterationGrid,
    g2: IterationGrid,
    width: u32,
    height: u32,
    max_iter: u32,
)
    requires
        g1.counts@ == sequential_counts(width as int, height as int, max_iter as nat),
        g2.counts@ == sequential_counts(width as int, height as int, max_iter as nat),
    ensures
        g1.counts@ == g2.counts@,
{
}

/// A `width` x `height` grid of RGB pixels, stored flat with the pixel
/// for column `i` of row `j` at index `j * width + i`.
pub struct Image {
    pub width: u32,
    pub height: u32,
    pub pixels: Vec<Pixel>,
}

impl Image {
    /// The image holds exactly one pixel per coordinate.
    pub open spec fn wf(self) -> bool {
        self.pixels.len() == self.width * self.height
    }

    /// The pixel stored for column `i`, row `j`.
    pub open spec fn pixel_at(self, i: int, j: int) -> Pixel
        recommends
            self.wf(),
            0 <= i < self.width,
            0 <= j < self.height,
    {
        self.pixels@[j * self.width + i]
    }

    /// Reads the pixel for column `i`, row `j`.
    pub fn get_pixel(&self, i: u32, j: u32) -> (p: Pixel)
        requires
            self.wf(),
            i < self.width,
            j < self.height,
        ensures
            p == self.pixel_at(i as int, j as int),
    {
        proof {
            lemma_grid_index(i as int, j as int, self.width as int, self.height as int);
        }
        let idx: usize = (j as usize) * (self.width as usize) + (i as usize);
        self.pixels[idx]
    }
}

/// Applies the color mapper to every count of a grid, producing the
/// grayscale image of the same dimensions: pixel `k` is the mapped color
/// of count `k`, and its three channels are equal.
pub fn render(grid: &IterationGrid, max_iter: u32) -> (img: Image)
    requires
        grid.wf(),
        max_iter >= 1,
    ensures
        img.wf(),
        img.width == grid.width,
        img.height == grid.height,
        forall|k: int|
            0 <= k < img.pixels.len()
                ==> #[trigger] img.pixels@[k] == color_spec(grid.counts@[k] as nat,
                max_iter as nat),
        forall|k: int|
            0 <= k < img.pixels.len()
                ==> (#[trigger] img.pixels@[k]).r == img.pixels@[k].g && img.pixels@[k].g
                == img.pixels@[k].b,
{
    let mut pixels: Vec<Pixel> = Vec::new();
    let mut k: usize = 0;
    while k < grid.counts.len()
        invariant
            max_iter >= 1,
            k <= grid.counts.len(),
            pixels.len() == k,
            forall|t: int|
                0 <= t < k ==> #[trigger] pixels@[t] == color_spec(grid.counts@[t] as nat,
                    max_iter as nat),
            forall|t: int|
                0 <= t < k ==> (#[trigger] pixels@[t]).r == pixels@[t].g && pixels@[t].g
                    == pixels@[t].b,
        decreases grid.counts.len() - k,
    {
        let n = grid.counts[k];
        let p = get_color(n, max_iter);
        pixels.push(p);
        k = k + 1;
    }
    Image { width: grid.width, height: grid.height, pixels }
}

} // verus!
