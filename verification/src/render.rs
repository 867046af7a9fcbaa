//! The bookkeeping of a render: the tiles that an image is cut into, the
//! buffer of each tile, putting the tiles together, the sample grid of a
//! pixel, and the steps of following one ray.
use vstd::prelude::*;

verus! {

/// The side of a tile, in pixels.
pub const BLOCK_SIZE: usize = 64;

/// A tile of an image: the pixels from column `xmin` up to, not including,
/// `xmax` and from row `ymin` up to, not including, `ymax`, kept row by row.
#[derive(Debug)]
pub struct ImageBlock<T> {
    pub xmin: usize,
    pub xmax: usize,
    pub ymin: usize,
    pub ymax: usize,
    pub buffer: Vec<T>,
}

impl<T> ImageBlock<T> {
    /// The number of columns of the tile.
    pub open spec fn width(&self) -> int {
        self.xmax - self.xmin
    }

    /// The number of rows of the tile.
    pub open spec fn height(&self) -> int {
        self.ymax - self.ymin
    }

    /// The bounds are in order, and the buffer has one place for each pixel.
    pub open spec fn wf(&self) -> bool {
        &&& self.xmin <= self.xmax
        &&& self.ymin <= self.ymax
        &&& self.buffer.len() == self.width() * self.height()
    }

    /// The tile holds the pixel in column `x` of row `y`.
    pub open spec fn holds(&self, x: int, y: int) -> bool {
        self.xmin <= x < self.xmax && self.ymin <= y < self.ymax
    }

    /// The place in the buffer of the pixel in column `x` of row `y`.
    pub open spec fn offset(&self, x: int, y: int) -> int {
        (x - self.xmin) + (y - self.ymin) * self.width()
    }

    /// The pixel in column `x` of row `y`.
    pub open spec fn pixel(&self, x: int, y: int) -> T {
        self.buffer@[self.offset(x, y)]
    }

    /// Every pixel of the tile lies in an image of `width` columns and
    /// `height` rows.
    pub open spec fn within(&self, width: int, height: int) -> bool {
        self.xmax <= width && self.ymax <= height
    }
}

/// In a grid of `w` columns and `h` rows, kept row by row, every cell has a
/// place, and the place gives the cell back.
pub proof fn lemma_offset(w: int, h: int, dx: int, dy: int)
    requires
        0 <= dx < w,
        0 <= dy < h,
    ensures
        0 <= dx + dy * w < w * h,
        0 <= dy * w + dx < h * w,
        (dy * w + dx) % w == dx,
        (dy * w + dx) / w == dy,
        (dx + dy * w) % w == dx,
        (dx + dy * w) / w == dy,
{
    assert(dy * w + w <= h * w) by (nonlinear_arith)
        requires
            0 <= dy < h,
            0 < w,
    ;
    assert(0 <= dy * w) by (nonlinear_arith)
        requires
            0 <= dy,
            0 < w,
    ;
    assert(h * w == w * h) by (nonlinear_arith);
    vstd::arithmetic::div_mod::lemma_fundamental_div_mod_converse(dx + dy * w, w, dy, dx);
}

/// Two cells of a grid with the same place are the same cell.
pub proof fn lemma_offset_injective(w: int, h: int, dx: int, dy: int, ex: int, ey: int)
    requires
        0 <= dx < w,
        0 <= dy < h,
        0 <= ex < w,
        0 <= ey < h,
        dx + dy * w == ex + ey * w,
    ensures
        dx == ex,
        dy == ey,
{
    lemma_offset(w, h, dx, dy);
    lemma_offset(w, h, ex, ey);
}

impl<T: Copy> ImageBlock<T> {
    /// A tile with every pixel set to `fill`.
    pub fn new(xmin: usize, xmax: usize, ymin: usize, ymax: usize, fill: T) -> (r: ImageBlock<T>)
        requires
            xmin <= xmax,
            ymin <= ymax,
            (xmax - xmin) * (ymax - ymin) <= usize::MAX,
        ensures
            r.wf(),
            r.xmin == xmin,
            r.xmax == xmax,
            r.ymin == ymin,
            r.ymax == ymax,
            forall|k: int| 0 <= k < r.buffer@.len() ==> r.buffer@[k] == fill,
    {
        let size = (xmax - xmin) * (ymax - ymin);
        let mut buffer: Vec<T> = Vec::new();
        let mut k: usize = 0;
        while k < size
            invariant
                k <= size,
                buffer@.len() == k,
                forall|j: int| 0 <= j < k ==> buffer@[j] == fill,
            decreases size - k,
        {
            buffer.push(fill);
            k = k + 1;
        }
        ImageBlock { xmin, xmax, ymin, ymax, buffer }
    }

    /// Sets the pixel in column `x` of row `y` to `c`.
    pub fn write(&mut self, x: usize, y: usize, c: T)
        requires
            old(self).wf(),
            old(self).holds(x as int, y as int),
        ensures
            final(self).wf(),
            final(self).xmin == old(self).xmin,
            final(self).xmax == old(self).xmax,
            final(self).ymin == old(self).ymin,
            final(self).ymax == old(self).ymax,
            final(self).buffer@ == old(self).buffer@.update(
                old(self).offset(x as int, y as int),
                c,
            ),
            final(self).pixel(x as int, y as int) == c,
            forall|x2: int, y2: int|
                old(self).holds(x2, y2) && (x2 != x || y2 != y) ==> final(self).pixel(x2, y2)
                    == old(self).pixel(x2, y2),
    {
        let width = self.xmax - self.xmin;
        proof {
            lemma_offset(self.width(), self.height(), x - self.xmin, y - self.ymin);
        }
        let at = (x - self.xmin) + (y - self.ymin) * width;
        self.buffer.set(at, c);
        proof {
            assert forall|x2: int, y2: int|
                old(self).holds(x2, y2) && (x2 != x || y2 != y) implies self.pixel(x2, y2) == old(
                self,
            ).pixel(x2, y2) by {
                lemma_offset(self.width(), self.height(), x2 - self.xmin, y2 - self.ymin);
                if self.offset(x2, y2) == at {
                    lemma_offset_injective(
                        self.width(),
                        self.height(),
                        x2 - self.xmin,
                        y2 - self.ymin,
                        x - self.xmin,
                        y - self.ymin,
                    );
                }
            }
        }
    }

    /// The pixel in column `x` of row `y`.
    pub fn get(&self, x: usize, y: usize) -> (c: T)
        requires
            self.wf(),
            self.holds(x as int, y as int),
        ensures
            c == self.pixel(x as int, y as int),
    {
        let width = self.xmax - self.xmin;
        proof {
            lemma_offset(self.width(), self.height(), x - self.xmin, y - self.ymin);
        }
        self.buffer[(x - self.xmin) + (y - self.ymin) * width]
    }
}

/// The number of tiles side by side along an edge of `length` pixels. Where
/// the length is a whole number of tiles, the last tile is empty.
pub open spec fn tiles_along(length: int) -> int {
    length / (BLOCK_SIZE as int) + 1
}

/// Where tile number `i` along an edge starts.
pub open spec fn tile_start(i: int) -> int {
    i * BLOCK_SIZE
}

/// Where tile number `i` along an edge of `length` pixels ends.
pub open spec fn tile_end(i: int, length: int) -> int {
    if (i + 1) * BLOCK_SIZE <= length {
        (i + 1) * BLOCK_SIZE
    } else {
        length
    }
}

/// The place, among the tiles of an image of `width` columns, of the tile
/// that holds the pixel in column `x` of row `y`.
pub open spec fn tile_index(x: int, y: int, width: int) -> int {
    (y / (BLOCK_SIZE as int)) * tiles_along(width) + x / (BLOCK_SIZE as int)
}

/// `block` is the tile in row `i` and column `j` of the tiles of an image
/// of `width` columns and `height` rows.
pub open spec fn is_tile<T>(block: ImageBlock<T>, i: int, j: int, width: int, height: int) -> bool {
    &&& block.wf()
    &&& block.xmin == tile_start(j)
    &&& block.xmax == tile_end(j, width)
    &&& block.ymin == tile_start(i)
    &&& block.ymax == tile_end(i, height)
}

/// Every pixel of `block` has the colour `fill`.
pub open spec fn is_filled<T>(block: ImageBlock<T>, fill: T) -> bool {
    forall|k: int| 0 <= k < block.buffer@.len() ==> block.buffer@[k] == fill
}

/// `blocks` are the tiles of an image of `width` columns and `height` rows,
/// row of tiles by row of tiles.
pub open spec fn is_tiling<T>(blocks: Seq<ImageBlock<T>>, width: int, height: int) -> bool {
    let cols = tiles_along(width);
    let rows = tiles_along(height);
    &&& blocks.len() == rows * cols
    &&& forall|k: int|
        0 <= k < blocks.len() ==> is_tile(#[trigger] blocks[k], k / cols, k % cols, width, height)
}

/// In a tiling every pixel of the image lies in one tile and in no other:
/// the tile whose row and column are the pixel's row and column divided by
/// the side of a tile.
pub proof fn lemma_tiling_covers<T>(
    blocks: Seq<ImageBlock<T>>,
    width: int,
    height: int,
    x: int,
    y: int,
)
    requires
        is_tiling(blocks, width, height),
        0 <= x < width,
        0 <= y < height,
    ensures
        0 <= tile_index(x, y, width) < blocks.len(),
        blocks[tile_index(x, y, width)].holds(x, y),
        forall|k: int|
            0 <= k < blocks.len() && (#[trigger] blocks[k]).holds(x, y) ==> k == tile_index(
                x,
                y,
                width,
            ),
{
    let cols = tiles_along(width);
    let rows = tiles_along(height);
    let i0 = y / 64;
    let j0 = x / 64;
    assert(0 <= i0 < rows && 0 <= j0 < cols);
    lemma_offset(cols, rows, j0, i0);
    let k0 = i0 * cols + j0;
    assert(is_tile(blocks[k0], k0 / cols, k0 % cols, width, height));
    assert forall|k: int| 0 <= k < blocks.len() && (#[trigger] blocks[k]).holds(x, y) implies k
        == k0 by {
        assert(is_tile(blocks[k], k / cols, k % cols, width, height));
        assert(k / cols == i0);
        assert(k % cols == j0);
        vstd::arithmetic::div_mod::lemma_fundamental_div_mod(k, cols);
        assert(cols * (k / cols) == (k / cols) * cols) by (nonlinear_arith);
    }
}

/// The tiles of an image of `width` columns and `height` rows, each pixel
/// set to `fill`.
pub fn image_blocks<T: Copy>(width: usize, height: usize, fill: T) -> (blocks: Vec<ImageBlock<T>>)
    ensures
        is_tiling(blocks@, width as int, height as int),
        forall|k: int|
            0 <= k < blocks@.len() ==> (#[trigger] blocks@[k]).wf() && blocks@[k].within(
                width as int,
                height as int,
            ) && is_filled(blocks@[k], fill),
{
    let cols = width / BLOCK_SIZE + 1;
    let rows = height / BLOCK_SIZE + 1;
    let mut blocks: Vec<ImageBlock<T>> = Vec::new();
    let mut i: usize = 0;
    while i < rows
        invariant
            i <= rows,
            cols == tiles_along(width as int),
            rows == tiles_along(height as int),
            blocks@.len() == i * cols,
            forall|k: int|
                0 <= k < blocks@.len() ==> is_tile(
                    #[trigger] blocks@[k],
                    k / (cols as int),
                    k % (cols as int),
                    width as int,
                    height as int,
                ) && blocks@[k].within(width as int, height as int) && is_filled(
                    blocks@[k],
                    fill,
                ),
        decreases rows - i,
    {
        let ymin = i * BLOCK_SIZE;
        let ymax = if height - ymin > BLOCK_SIZE {
            ymin + BLOCK_SIZE
        } else {
            height
        };
        let mut j: usize = 0;
        while j < cols
            invariant
                j <= cols,
                i < rows,
                cols == tiles_along(width as int),
                rows == tiles_along(height as int),
                ymin == tile_start(i as int),
                ymax == tile_end(i as int, height as int),
                ymin <= ymax <= height,
                ymax - ymin <= 64,
                blocks@.len() == i * cols + j,
                forall|k: int|
                    0 <= k < blocks@.len() ==> is_tile(
                        #[trigger] blocks@[k],
                        k / (cols as int),
                        k % (cols as int),
                        width as int,
                        height as int,
                    ) && blocks@[k].within(width as int, height as int) && is_filled(
                        blocks@[k],
                        fill,
                    ),
            decreases cols - j,
        {
            let xmin = j * BLOCK_SIZE;
            let xmax = if width - xmin > BLOCK_SIZE {
                xmin + BLOCK_SIZE
            } else {
                width
            };
            proof {
                assert((xmax - xmin) * (ymax - ymin) <= 64 * 64) by (nonlinear_arith)
                    requires
                        0 <= xmax - xmin <= 64,
                        0 <= ymax - ymin <= 64,
                ;
                lemma_offset(cols as int, rows as int, j as int, i as int);
            }
            let block = ImageBlock::new(xmin, xmax, ymin, ymax, fill);
            blocks.push(block);
            j = j + 1;
        }
        proof {
            assert((i + 1) * cols == i * cols + cols) by (nonlinear_arith);
        }
        i = i + 1;
    }
    blocks
}

/// The pixel in column `x` of row `y` of an image of `width` columns that is
/// kept row by row.
pub open spec fn image_pixel<T>(image: Seq<T>, width: int, x: int, y: int) -> T {
    image[y * width + x]
}

/// The pixel in column `x` of row `y` once `blocks` are laid, one after the
/// other, over an image of the colour `background`: that of the last block
/// which holds the pixel.
pub open spec fn assembled<T>(blocks: Seq<ImageBlock<T>>, x: int, y: int, background: T) -> T
    decreases blocks.len(),
{
    if blocks.len() == 0 {
        background
    } else if blocks.last().holds(x, y) {
        blocks.last().pixel(x, y)
    } else {
        assembled(blocks.drop_last(), x, y, background)
    }
}

/// Where one block alone holds a pixel, the assembled image has the pixel
/// of that block.
pub proof fn lemma_assembled_from_only_holder<T>(
    blocks: Seq<ImageBlock<T>>,
    x: int,
    y: int,
    background: T,
    k: int,
)
    requires
        0 <= k < blocks.len(),
        blocks[k].holds(x, y),
        forall|j: int| 0 <= j < blocks.len() && (#[trigger] blocks[j]).holds(x, y) ==> j == k,
    ensures
        assembled(blocks, x, y, background) == blocks[k].pixel(x, y),
    decreases blocks.len(),
{
    if k < blocks.len() - 1 {
        assert(!blocks.last().holds(x, y));
        lemma_assembled_from_only_holder(blocks.drop_last(), x, y, background, k);
    }
}

/// Putting the tiles of an image together gives every pixel the colour that
/// its tile holds for it.
pub proof fn lemma_assembled_tiling<T>(
    blocks: Seq<ImageBlock<T>>,
    width: int,
    height: int,
    background: T,
    x: int,
    y: int,
)
    requires
        is_tiling(blocks, width, height),
        0 <= x < width,
        0 <= y < height,
    ensures
        assembled(blocks, x, y, background) == blocks[tile_index(x, y, width)].pixel(x, y),
{
    lemma_tiling_covers(blocks, width, height, x, y);
    lemma_assembled_from_only_holder(blocks, x, y, background, tile_index(x, y, width));
}

/// Lays `blocks`, one after the other, over an image of `width` columns
/// and `height` rows of the colour `background`. The image is kept row by
/// row.
pub fn assemble_image<T: Copy>(
    width: usize,
    height: usize,
    blocks: &Vec<ImageBlock<T>>,
    background: T,
) -> (image: Vec<T>)
    requires
        width * height <= usize::MAX,
        forall|k: int|
            0 <= k < blocks@.len() ==> (#[trigger] blocks@[k]).wf() && blocks@[k].within(
                width as int,
                height as int,
            ),
    ensures
        image@.len() == width * height,
        forall|x: int, y: int|
            0 <= x < width && 0 <= y < height ==> #[trigger] image_pixel(
                image@,
                width as int,
                x,
                y,
            ) == assembled(blocks@, x, y, background),
{
    let size = width * height;
    let mut image: Vec<T> = Vec::new();
    let mut k: usize = 0;
    while k < size
        invariant
            k <= size,
            image@.len() == k,
            forall|j: int| 0 <= j < k ==> image@[j] == background,
        decreases size - k,
    {
        image.push(background);
        k = k + 1;
    }
    proof {
        assert(blocks@.take(0) =~= Seq::empty());
        assert forall|x: int, y: int|
            0 <= x < width && 0 <= y < height implies #[trigger] image_pixel(
            image@,
            width as int,
            x,
            y,
        ) == assembled(blocks@.take(0), x, y, background) by {
            lemma_offset(width as int, height as int, x, y);
        }
    }
    let mut b: usize = 0;
    while b < blocks.len()
        invariant
            b <= blocks@.len(),
            size == width * height,
            image@.len() == size,
            forall|k: int|
                0 <= k < blocks@.len() ==> (#[trigger] blocks@[k]).wf() && blocks@[k].within(
                    width as int,
                    height as int,
                ),
            forall|x: int, y: int|
                0 <= x < width && 0 <= y < height ==> #[trigger] image_pixel(
                    image@,
                    width as int,
                    x,
                    y,
                ) == assembled(blocks@.take(b as int), x, y, background),
        decreases blocks@.len() - b,
    {
        let block = &blocks[b];
        let ghost under = blocks@.take(b as int);
        proof {
            assert(blocks@.take(b as int + 1).drop_last() =~= under);
            assert(blocks@.take(b as int + 1).last() == *block);
        }
        let mut y: usize = block.ymin;
        while y < block.ymax
            invariant
                block.ymin <= y <= block.ymax,
                block.wf(),
                block.within(width as int, height as int),
                size == width * height,
                image@.len() == size,
                forall|x2: int, y2: int|
                    0 <= x2 < width && 0 <= y2 < height ==> #[trigger] image_pixel(
                        image@,
                        width as int,
                        x2,
                        y2,
                    ) == if block.holds(x2, y2) && y2 < y {
                        block.pixel(x2, y2)
                    } else {
                        assembled(under, x2, y2, background)
                    },
            decreases block.ymax - y,
        {
            let mut x: usize = block.xmin;
            while x < block.xmax
                invariant
                    block.xmin <= x <= block.xmax,
                    block.ymin <= y < block.ymax,
                    block.wf(),
                    block.within(width as int, height as int),
                    size == width * height,
                    image@.len() == size,
                    forall|x2: int, y2: int|
                        0 <= x2 < width && 0 <= y2 < height ==> #[trigger] image_pixel(
                            image@,
                            width as int,
                            x2,
                            y2,
                        ) == if block.holds(x2, y2) && (y2 < y || (y2 == y && x2 < x)) {
                            block.pixel(x2, y2)
                        } else {
                            assembled(under, x2, y2, background)
                        },
                decreases block.xmax - x,
            {
                proof {
                    lemma_offset(width as int, height as int, x as int, y as int);
                }
                let c = block.get(x, y);
                let ghost before = image@;
                image.set(y * width + x, c);
                proof {
                    assert forall|x2: int, y2: int|
                        0 <= x2 < width && 0 <= y2 < height implies #[trigger] image_pixel(
                        image@,
                        width as int,
                        x2,
                        y2,
                    ) == if block.holds(x2, y2) && (y2 < y || (y2 == y && x2 < x + 1)) {
                        block.pixel(x2, y2)
                    } else {
                        assembled(under, x2, y2, background)
                    } by {
                        lemma_offset(width as int, height as int, x2, y2);
                        if x2 != x || y2 != y {
                            if y2 * width + x2 == y * width + x {
                                lemma_offset_injective(
                                    width as int,
                                    height as int,
                                    x2,
                                    y2,
                                    x as int,
                                    y as int,
                                );
                            }
                            assert(image_pixel(image@, width as int, x2, y2) == image_pixel(
                                before,
                                width as int,
                                x2,
                                y2,
                            ));
                        }
                    }
                }
                x = x + 1;
            }
            y = y + 1;
        }
        b = b + 1;
    }
    proof {
        assert(blocks@.take(b as int) =~= blocks@);
    }
    image
}

/// The side of the sample grid of a pixel: the whole part of the square
/// root of the number of samples.
pub open spec fn is_sqrt(r: int, n: int) -> bool {
    0 <= r && r * r <= n < (r + 1) * (r + 1)
}

/// The side of the grid of samples that is laid over each pixel where
/// `samples_per_pixel` samples are asked for.
pub fn sqrt_spp(samples_per_pixel: usize) -> (r: usize)
    ensures
        is_sqrt(r as int, samples_per_pixel as int),
{
    let n: u128 = samples_per_pixel as u128;
    let mut lo: u128 = 0;
    let mut hi: u128 = 0x1_0000_0000;
    while hi - lo > 1
        invariant
            lo < hi <= 0x1_0000_0000,
            lo * lo <= n < hi * hi,
            n == samples_per_pixel,
        decreases hi - lo,
    {
        let mid = lo + (hi - lo) / 2;
        assert(mid * mid <= 0x1_0000_0000_0000_0000) by (nonlinear_arith)
            requires
                0 <= mid <= 0x1_0000_0000,
        ;
        if mid * mid <= n {
            lo = mid;
        } else {
            hi = mid;
        }
    }
    lo as usize
}

/// What a ray met.
#[derive(Debug, Clone, Copy, PartialEq, Eq, Structural)]
pub enum Encounter {
    /// Nothing.
    Miss,
    /// A surface that does not scatter.
    Absorbed,
    /// A surface that sends the ray on in one direction.
    Specular,
    /// A surface that scatters by a density.
    Diffuse,
}

/// What following a ray does next.
#[derive(Debug, Clone, Copy, PartialEq, Eq, Structural)]
pub enum RayStep {
    /// The ray gives the colour of the background.
    Background,
    /// The ray gives what the surface emits.
    Emission,
    /// The ray gives what the surface emits and, weakened, what the ray
    /// that leaves the surface gives; `depth` bounces are left for that ray.
    FollowSpecular { depth: usize },
    /// As `FollowSpecular`, for a ray drawn from the density of the surface
    /// mixed with that of the lights, or with itself where there are no
    /// lights.
    FollowSampled { depth: usize, toward_lights: bool },
}

/// Whether a ray with `depth` bounces left is followed at all. One with
/// none left gives black.
pub fn ray_is_followed(depth: usize) -> (r: bool)
    ensures
        r == (depth > 0),
{
    depth > 0
}

/// What following a ray, with `depth` bounces left, does after the ray met
/// `encounter` in a scene with `lights` lights.
pub fn ray_step(depth: usize, encounter: Encounter, lights: usize) -> (r: RayStep)
    requires
        depth > 0,
    ensures
        r == match encounter {
            Encounter::Miss => RayStep::Background,
            Encounter::Absorbed => RayStep::Emission,
            Encounter::Specular => RayStep::FollowSpecular { depth: (depth - 1) as usize },
            Encounter::Diffuse => RayStep::FollowSampled {
                depth: (depth - 1) as usize,
                toward_lights: lights > 0,
            },
        },
{
    match encounter {
        Encounter::Miss => RayStep::Background,
        Encounter::Absorbed => RayStep::Emission,
        Encounter::Specular => RayStep::FollowSpecular { depth: depth - 1 },
        Encounter::Diffuse => RayStep::FollowSampled {
            depth: depth - 1,
            toward_lights: lights > 0,
        },
    }
}

} // verus!
