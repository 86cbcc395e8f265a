//! Pixel grids held in memory, and the resampler that scales them.

use crate::arith::{lemma_product_bounded, lemma_quotient_below};
use vstd::arithmetic::div_mod::lemma_fundamental_div_mod;
use vstd::prelude::*;

verus! {

/// The colour of one pixel.
#[derive(Clone, Copy, Debug, PartialEq, Eq, Structural)]
pub struct Rgb {
    pub r: u8,
    pub g: u8,
    pub b: u8,
}

/// The mathematical model of a bitmap: its dimensions and its samples, three
/// bytes (red, green, blue) for each pixel, rows from top to bottom and each
/// row from left to right.
pub struct Grid {
    pub width: nat,
    pub height: nat,
    pub samples: Seq<u8>,
}

impl Grid {
    /// A grid is well formed when it holds three samples for each of its pixels.
    pub open spec fn wf(self) -> bool {
        &&& self.width <= u32::MAX
        &&& self.height <= u32::MAX
        &&& self.samples.len() == 3 * (self.width * self.height)
    }

    /// Whether `(x, y)` names a pixel of the grid.
    pub open spec fn contains(self, x: int, y: int) -> bool {
        0 <= x < self.width && 0 <= y < self.height
    }

    /// Where the red sample of pixel `(x, y)` stands among the samples.
    pub open spec fn offset(self, x: int, y: int) -> int {
        3 * (y * self.width + x)
    }

    /// The colour of pixel `(x, y)`.
    pub open spec fn pixel(self, x: int, y: int) -> Rgb {
        pixel_of(self.samples, self.width as int, x, y)
    }
}

/// The column or row of the source from which nearest-neighbour resampling
/// takes column or row `position` of the target, where the source has
/// `length` columns or rows and the target `new_length`.
pub uninterp spec fn nearest_index(position: u32, length: u32, new_length: u32) -> u32;

/// The colour of pixel `(x, y)` among the samples of a grid `width` pixels
/// wide.
pub open spec fn pixel_of(samples: Seq<u8>, width: int, x: int, y: int) -> Rgb {
    Rgb {
        r: samples[3 * (y * width + x)],
        g: samples[3 * (y * width + x) + 1],
        b: samples[3 * (y * width + x) + 2],
    }
}

/// The width and the height of a grid.
pub struct Dimensions {
    pub width: u32,
    pub height: u32,
}

/// Whether pixel `(x, y)` of the target of a resampling, where it is one,
/// is taken whole from the pixel in column `column` and row `row` of the
/// source, a pixel of the source. It says nothing where the dimensions stay,
/// where the source has no pixels, and where `(x, y)` is no pixel of the
/// target.
pub open spec fn takes_pixel(
    target: Seq<u8>,
    target_size: Dimensions,
    x: int,
    y: int,
    source: Seq<u8>,
    source_size: Dimensions,
    column: u32,
    row: u32,
) -> bool {
    (target_size != source_size && source_size.width > 0 && source_size.height > 0 && 0 <= x
        < target_size.width && 0 <= y < target_size.height) ==> {
        &&& column < source_size.width
        &&& row < source_size.height
        &&& pixel_of(target, target_size.width as int, x, y) == pixel_of(
            source,
            source_size.width as int,
            column as int,
            row as int,
        )
    }
}

/// Whether all samples are zero: the samples of a black image.
pub open spec fn is_black(samples: Seq<u8>) -> bool {
    forall|i: int| 0 <= i < samples.len() ==> #[trigger] samples[i] == 0
}

/// One of the three samples of a colour: red, green, blue.
pub open spec fn component(color: Rgb, channel: int) -> u8 {
    if channel == 0 {
        color.r
    } else if channel == 1 {
        color.g
    } else {
        color.b
    }
}

/// Whether the buffers needed to resample a grid `width` pixels wide to
/// `new_width` by `new_height` pixels can be addressed. The length of a row
/// must be a `usize`, even of a grid without rows: three samples for each
/// pixel of a row of the source and of the target, four for each pixel of a
/// row of the intermediate grid, which is as wide as the source and as high
/// as the target. And the buffers must fit in memory: sixteen bytes for
/// each cell of the intermediate grid, three bytes for each cell of the
/// target.
pub open spec fn resample_fits(width: int, new_width: int, new_height: int) -> bool {
    &&& 3 * width <= usize::MAX
    &&& 4 * width <= usize::MAX
    &&& 3 * new_width <= usize::MAX
    &&& 16 * (width * new_height) <= isize::MAX
    &&& 3 * (new_width * new_height) <= isize::MAX
}

/// The column of a grid from which column `x` of the grid resampled to
/// `new_width` by `new_height` pixels is taken: the column itself where the
/// dimensions stay.
pub open spec fn source_x(grid: Grid, new_width: u32, new_height: u32, x: int) -> int {
    if new_width == grid.width && new_height == grid.height {
        x
    } else {
        nearest_index(x as u32, grid.width as u32, new_width) as int
    }
}

/// The row of a grid from which row `y` of the grid resampled to
/// `new_width` by `new_height` pixels is taken: the row itself where the
/// dimensions stay.
pub open spec fn source_y(grid: Grid, new_width: u32, new_height: u32, y: int) -> int {
    if new_width == grid.width && new_height == grid.height {
        y
    } else {
        nearest_index(y as u32, grid.height as u32, new_height) as int
    }
}

/// A grid resampled to new dimensions by nearest-neighbour sampling: the
/// grid itself where the dimensions stay; else every pixel is the pixel of
/// the grid in its source column and row, or black where the grid has no
/// pixels.
pub open spec fn resampled(grid: Grid, new_width: u32, new_height: u32) -> Grid {
    if new_width == grid.width && new_height == grid.height {
        grid
    } else {
        Grid {
            width: new_width as nat,
            height: new_height as nat,
            samples: Seq::new(
                (3 * (new_width * new_height)) as nat,
                |i: int|
                    if grid.width == 0 || grid.height == 0 {
                        0u8
                    } else {
                        component(
                            grid.pixel(
                                source_x(grid, new_width, new_height, (i / 3) % (new_width as int)),
                                source_y(grid, new_width, new_height, (i / 3) / (new_width as int)),
                            ),
                            i % 3,
                        )
                    },
            ),
        }
    }
}

/// Whether pixel `(x, y)` of `scaled`, a grid resampled from `grid`, is the
/// pixel of `grid` in its source column and row.
pub open spec fn is_sample_of(scaled: Grid, grid: Grid, x: int, y: int) -> bool {
    let column = source_x(grid, scaled.width as u32, scaled.height as u32, x);
    let row = source_y(grid, scaled.width as u32, scaled.height as u32, y);
    grid.contains(column, row) && scaled.pixel(x, y) == grid.pixel(column, row)
}

/// Whether every pixel of `scaled`, a grid resampled from `grid`, is the
/// pixel of `grid` in its source column and row: no pixel is blended.
pub open spec fn is_sampled_from(scaled: Grid, grid: Grid) -> bool {
    forall|x: int, y: int| scaled.contains(x, y) ==> #[trigger] is_sample_of(scaled, grid, x, y)
}

/// `DynamicImage::resize_exact` of the image crate with
/// `FilterType::Nearest`, on an 8-bit RGB image given by its raw samples.
/// The contract claims that the result holds three samples for each pixel
/// of the new dimensions; that the crate copies the image where the
/// dimensions stay; that it else gives a black image where the source has
/// no pixels; and that it else takes every pixel whole from one pixel of the
/// source, whose column is a function of the target column and the two
/// widths alone and whose row is the same function of the target row and
/// the two heights, named `nearest_index`. The crate panics where the
/// length of one of its buffers, or of one row of it, is no `usize`, or
/// where a buffer is too large to allocate; `resample_fits` leaves those
/// dimensions out.
#[verifier::external_body]
fn resize_nearest(
    samples: &Vec<u8>,
    width: u32,
    height: u32,
    new_width: u32,
    new_height: u32,
) -> (resized: Vec<u8>)
    requires
        samples@.len() == 3 * (width * height),
        resample_fits(width as int, new_width as int, new_height as int),
    ensures
        resized@.len() == 3 * (new_width * new_height),
        new_width == width && new_height == height ==> resized@ == samples@,
        (new_width != width || new_height != height) && (width == 0 || height == 0) ==> is_black(
            resized@,
        ),
        (forall|x: int, y: int| #[trigger]
            takes_pixel(
                resized@,
                Dimensions { width: new_width, height: new_height },
                x,
                y,
                samples@,
                Dimensions { width, height },
                nearest_index(x as u32, width, new_width),
                nearest_index(y as u32, height, new_height),
            )),
{
    let source = image::RgbImage::from_raw(width, height, samples.clone()).unwrap();
    let scaled = image::DynamicImage::ImageRgb8(source).resize_exact(
        new_width,
        new_height,
        image::imageops::FilterType::Nearest,
    );
    scaled.into_rgb8().into_raw()
}

/// A decoded image: a rectangle of pixels.
pub struct Bitmap {
    width: u32,
    height: u32,
    samples: Vec<u8>,
}

impl View for Bitmap {
    type V = Grid;

    closed spec fn view(&self) -> Grid {
        Grid { width: self.width as nat, height: self.height as nat, samples: self.samples@ }
    }
}

impl Bitmap {
    #[verifier::type_invariant]
    spec fn well_formed(&self) -> bool {
        self@.wf()
    }

    /// Makes a bitmap from raw samples, three bytes for each pixel; `None`
    /// where the number of samples is not that of the dimensions.
    pub fn new(width: u32, height: u32, samples: Vec<u8>) -> (bitmap: Option<Bitmap>)
        ensures
            (match bitmap {
                Some(made) => made@.wf() && made@ == (Grid {
                    width: width as nat,
                    height: height as nat,
                    samples: samples@,
                }),
                None => samples@.len() != 3 * (width * height),
            }),
    {
        proof {
            lemma_product_bounded(width as int, height as int, 0xffff_ffff, 0xffff_ffff);
        }
        let wanted: u128 = 3 * (width as u128 * height as u128);
        if samples.len() as u128 == wanted {
            Some(Bitmap { width, height, samples })
        } else {
            None
        }
    }

    /// The number of columns.
    pub fn width(&self) -> (width: u32)
        ensures
            width == self@.width,
            self@.wf(),
    {
        proof {
            use_type_invariant(self);
        }
        self.width
    }

    /// The number of rows.
    pub fn height(&self) -> (height: u32)
        ensures
            height == self@.height,
            self@.wf(),
    {
        proof {
            use_type_invariant(self);
        }
        self.height
    }

    /// The colour of the pixel in column `x` of row `y`.
    pub fn get_pixel(&self, x: u32, y: u32) -> (pixel: Rgb)
        requires
            self@.contains(x as int, y as int),
        ensures
            pixel == self@.pixel(x as int, y as int),
    {
        proof {
            use_type_invariant(self);
            lemma_offset_in_range(self@, x as int, y as int);
            assert(self.samples.len() == self@.samples.len());
            assert(y * self.width + x < self@.width * self@.height);
        }
        let start: usize = 3 * (y as usize * self.width as usize + x as usize);
        Rgb { r: self.samples[start], g: self.samples[start + 1], b: self.samples[start + 2] }
    }

    /// Whether this bitmap can be resampled to the given dimensions within
    /// the memory that can be addressed.
    pub fn can_resize(&self, new_width: u32, new_height: u32) -> (fits: bool)
        ensures
            fits == resample_fits(self@.width as int, new_width as int, new_height as int),
    {
        proof {
            lemma_product_bounded(self.width as int, new_height as int, 0xffff_ffff, 0xffff_ffff);
            lemma_product_bounded(new_width as int, new_height as int, 0xffff_ffff, 0xffff_ffff);
        }
        let longest: u128 = usize::MAX as u128;
        let limit: u128 = isize::MAX as u128;
        let working: u128 = 16 * (self.width as u128 * new_height as u128);
        let target: u128 = 3 * (new_width as u128 * new_height as u128);
        3 * (self.width as u128) <= longest && 4 * (self.width as u128) <= longest && 3 * (
        new_width as u128) <= longest && working <= limit && target <= limit
    }

    /// Resamples the bitmap to exactly `new_width` by `new_height` pixels,
    /// each taken whole from the nearest pixel of the source.
    pub fn resize_exact(&self, new_width: u32, new_height: u32) -> (scaled: Bitmap)
        requires
            resample_fits(self@.width as int, new_width as int, new_height as int),
        ensures
            scaled@ == resampled(self@, new_width, new_height),
            scaled@.wf(),
            self@.width > 0 && self@.height > 0 ==> is_sampled_from(scaled@, self@),
    {
        proof {
            use_type_invariant(self);
        }
        let samples = resize_nearest(&self.samples, self.width, self.height, new_width, new_height);
        let scaled = Bitmap { width: new_width, height: new_height, samples };
        proof {
            lemma_resize_meets_model(self@, scaled@);
        }
        scaled
    }
}

/// Samples that are pixel for pixel those that the resampler promises are
/// the samples of the resampled grid.
proof fn lemma_resize_meets_model(grid: Grid, scaled: Grid)
    requires
        grid.wf(),
        scaled.wf(),
        scaled.width == grid.width && scaled.height == grid.height ==> scaled.samples
            == grid.samples,
        (scaled.width != grid.width || scaled.height != grid.height) && (grid.width == 0
            || grid.height == 0) ==> is_black(scaled.samples),
        forall|x: int, y: int| #[trigger]
            takes_pixel(
                scaled.samples,
                Dimensions { width: scaled.width as u32, height: scaled.height as u32 },
                x,
                y,
                grid.samples,
                Dimensions { width: grid.width as u32, height: grid.height as u32 },
                nearest_index(x as u32, grid.width as u32, scaled.width as u32),
                nearest_index(y as u32, grid.height as u32, scaled.height as u32),
            ),
    ensures
        scaled == resampled(grid, scaled.width as u32, scaled.height as u32),
        grid.width > 0 && grid.height > 0 ==> is_sampled_from(scaled, grid),
{
    let new_width = scaled.width as u32;
    let new_height = scaled.height as u32;
    let model = resampled(grid, new_width, new_height);
    if scaled.width == grid.width && scaled.height == grid.height {
        assert(scaled =~= grid);
    } else {
        assert forall|i: int| 0 <= i < scaled.samples.len() implies scaled.samples[i]
            == model.samples[i] by {
            if grid.width > 0 && grid.height > 0 {
                let cell = i / 3;
                lemma_quotient_below(cell, scaled.width as int, scaled.height as int);
                let x = cell % (scaled.width as int);
                let y = cell / (scaled.width as int);
                lemma_fundamental_div_mod(cell, scaled.width as int);
                assert(scaled.width * y == y * scaled.width) by (nonlinear_arith);
                assert(takes_pixel(
                    scaled.samples,
                    Dimensions { width: new_width, height: new_height },
                    x,
                    y,
                    grid.samples,
                    Dimensions { width: grid.width as u32, height: grid.height as u32 },
                    nearest_index(x as u32, grid.width as u32, new_width),
                    nearest_index(y as u32, grid.height as u32, new_height),
                ));
                assert(scaled.samples[i] == component(
                    pixel_of(scaled.samples, scaled.width as int, x, y),
                    i % 3,
                ));
            }
        }
        assert(scaled.samples =~= model.samples);
    }
    if grid.width > 0 && grid.height > 0 {
        assert forall|x: int, y: int| scaled.contains(x, y) implies #[trigger] is_sample_of(
            scaled,
            grid,
            x,
            y,
        ) by {
            assert(takes_pixel(
                scaled.samples,
                Dimensions { width: new_width, height: new_height },
                x,
                y,
                grid.samples,
                Dimensions { width: grid.width as u32, height: grid.height as u32 },
                nearest_index(x as u32, grid.width as u32, new_width),
                nearest_index(y as u32, grid.height as u32, new_height),
            ));
        }
    }
}

/// The three samples of a pixel of a well-formed grid stand among its samples.
pub proof fn lemma_offset_in_range(grid: Grid, x: int, y: int)
    requires
        grid.wf(),
        grid.contains(x, y),
    ensures
        0 <= grid.offset(x, y),
        grid.offset(x, y) + 2 < grid.samples.len(),
        0 <= y * grid.width <= y * grid.width + x < grid.width * grid.height,
{
    assert(y * grid.width + x < grid.width * grid.height) by (nonlinear_arith)
        requires
            0 <= x < grid.width,
            0 <= y < grid.height,
    ;
    assert(0 <= y * grid.width) by (nonlinear_arith)
        requires
            0 <= y,
            0 <= grid.width,
    ;
}

} // verus!
