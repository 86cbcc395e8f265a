//! The converter: an image and the settings of one run, checked once and
//! then rendered.

use crate::bitmap::{
    is_sample_of, is_sampled_from, resample_fits, resampled, source_x, source_y, Bitmap, Grid,
};
use crate::glyph::glyph_of;
use crate::paint::{is_plain, line_feeds, visible};
use crate::plan::{
    lemma_target_height_exact, spec_base_width, spec_target_height, OutputMode, Size,
};
use crate::ratio::CharRatio;
use crate::render::{
    glyph_at, is_rendering, lemma_order_independent, lemma_rendering_lines,
    lemma_rendering_shape, position,
};
use vstd::prelude::*;

verus! {

/// Why an image and its settings cannot be rendered.
#[derive(Clone, Copy, Debug, PartialEq, Eq, Structural)]
pub enum ConfigError {
    /// The image has no pixels.
    EmptyImage,
    /// The custom width is zero.
    ZeroWidth,
    /// The character ratio is not a positive number.
    NonPositiveRatio,
    /// The target grid is too large to be resampled in addressable memory.
    TooLarge,
}

/// The mathematical model of a converter: the image and the settings of a
/// run.
pub struct Job {
    pub image: Grid,
    pub size: Size,
    pub mode: OutputMode,
    pub custom_width: Option<u32>,
    pub char_ratio: CharRatio,
}

impl Job {
    /// The number of columns of the output: the custom width where one is
    /// given, else the width of the preset.
    pub open spec fn target_width(self) -> int {
        spec_base_width(self.size, self.custom_width)
    }

    /// The number of rows of the output.
    pub open spec fn target_height(self) -> int {
        spec_target_height(
            self.image.width as int,
            self.image.height as int,
            self.target_width(),
            self.char_ratio,
        )
    }

    /// What is wrong with the job, if anything: the first of the faults in
    /// the order of `ConfigError`.
    pub open spec fn fault(self) -> Option<ConfigError> {
        if self.image.width == 0 || self.image.height == 0 {
            Some(ConfigError::EmptyImage)
        } else if self.custom_width == Some(0u32) {
            Some(ConfigError::ZeroWidth)
        } else if !self.char_ratio.is_positive() {
            Some(ConfigError::NonPositiveRatio)
        } else if !resample_fits(
            self.image.width as int,
            self.target_width(),
            self.target_height(),
        ) {
            Some(ConfigError::TooLarge)
        } else {
            None
        }
    }

    /// The image resampled to the dimensions of the output.
    pub open spec fn target(self) -> Grid {
        resampled(self.image, self.target_width() as u32, self.target_height() as u32)
    }

    /// Whether `text` is an output of the job: a rendering of the resampled
    /// image in the mode of the job.
    pub open spec fn renders_to(self, text: Seq<char>) -> bool {
        is_rendering(text, self.target(), self.mode)
    }
}

/// An image together with the settings of one run, known to be renderable.
pub struct AsciiConverter {
    image: Bitmap,
    size: Size,
    mode: OutputMode,
    custom_width: Option<u32>,
    char_ratio: CharRatio,
}

impl View for AsciiConverter {
    type V = Job;

    closed spec fn view(&self) -> Job {
        Job {
            image: self.image@,
            size: self.size,
            mode: self.mode,
            custom_width: self.custom_width,
            char_ratio: self.char_ratio,
        }
    }
}

impl AsciiConverter {
    #[verifier::type_invariant]
    spec fn renderable(&self) -> bool {
        self@.image.wf() && self@.fault() is None
    }

    /// Checks an image and the settings of a run. Without a custom width the
    /// preset decides the width; without a character ratio it is one half.
    pub fn new_with_width(
        image: Bitmap,
        size: Size,
        mode: OutputMode,
        custom_width: Option<u32>,
        char_ratio: Option<CharRatio>,
    ) -> (made: Result<AsciiConverter, ConfigError>)
        ensures
            ({
                let job = Job {
                    image: image@,
                    size,
                    mode,
                    custom_width,
                    char_ratio: match char_ratio {
                        Some(ratio) => ratio,
                        None => CharRatio::half(),
                    },
                };
                match made {
                    Ok(converter) => converter@ == job && job.fault() is None,
                    Err(error) => job.fault() == Some(error),
                }
            }),
    {
        let ratio = match char_ratio {
            Some(ratio) => ratio,
            None => CharRatio::half(),
        };
        let source_width = image.width();
        let source_height = image.height();
        if source_width == 0 || source_height == 0 {
            return Err(ConfigError::EmptyImage);
        }
        match custom_width {
            Some(width) => {
                if width == 0 {
                    return Err(ConfigError::ZeroWidth);
                }
            },
            None => {},
        }
        if ratio.significand == 0 {
            return Err(ConfigError::NonPositiveRatio);
        }
        let target_width = crate::plan::base_width(size, custom_width);
        let target_height = crate::plan::target_height(
            source_width,
            source_height,
            target_width,
            ratio,
        );
        if !image.can_resize(target_width, target_height) {
            return Err(ConfigError::TooLarge);
        }
        Ok(AsciiConverter { image, size, mode, custom_width, char_ratio: ratio })
    }

    /// The dimensions of the output, in character cells: its width and its
    /// height.
    pub fn get_dimensions(&self) -> (dimensions: (u32, u32))
        ensures
            dimensions.0 == self@.target_width(),
            dimensions.1 == self@.target_height(),
            dimensions.0 > 0,
            self@.fault() is None,
    {
        proof {
            use_type_invariant(self);
        }
        let target_width = crate::plan::base_width(self.size, self.custom_width);
        let target_height = crate::plan::target_height(
            self.image.width(),
            self.image.height(),
            target_width,
            self.char_ratio,
        );
        (target_width, target_height)
    }

    /// The ramp character that stands for a brightness.
    pub fn pixel_to_ascii(&self, brightness: u8) -> (glyph: char)
        ensures
            glyph == glyph_of(brightness as int),
    {
        crate::glyph::pixel_to_ascii(brightness)
    }

    /// Renders the image: resampled to the dimensions of the output, every
    /// pixel taken whole from a pixel of the image, then one glyph for each
    /// pixel, row by row.
    pub fn convert(&self) -> (text: String)
        ensures
            self@.renders_to(text@),
            is_sampled_from(self@.target(), self@.image),
    {
        proof {
            use_type_invariant(self);
        }
        let (target_width, target_height) = self.get_dimensions();
        let resized = self.image.resize_exact(target_width, target_height);
        crate::render::render(&resized, self.mode)
    }
}

/// The output of a sound job has exactly as many lines as the target grid
/// has rows, each ended by a line feed, and each line shows exactly as many
/// glyphs as the grid has columns: with the colour directives taken out, the
/// character at column `x` of line `y` is the glyph of that pixel of the
/// resampled image, never a line feed, and a line feed ends the line.
pub proof fn lemma_output_shape(job: Job, text: Seq<char>)
    requires
        job.fault() is None,
        job.renders_to(text),
    ensures
        line_feeds(text) == job.target_height(),
        job.target_height() > 0 ==> text.len() > 0 && text.last() == '\n',
        visible(text).len() == job.target_height() * (job.target_width() + 1),
        forall|x: int, y: int|
            0 <= x < job.target_width() && 0 <= y < job.target_height() ==> (
            visible(text)[#[trigger] position(job.target(), x, y)] == glyph_at(job.target(), x, y)
                && glyph_at(job.target(), x, y) != '\n'),
        forall|y: int|
            0 <= y < job.target_height() ==> visible(text)[#[trigger] position(
                job.target(),
                job.target_width(),
                y,
            )] == '\n',
{
    lemma_target_height_exact(
        job.image.width as int,
        job.image.height as int,
        job.target_width(),
        job.char_ratio,
    );
    lemma_rendering_shape(text, job.target(), job.mode);
    lemma_rendering_lines(text, job.target(), job.mode);
    assert forall|x: int, y: int|
        0 <= x < job.target_width() && 0 <= y < job.target_height() implies job.target().contains(
        x,
        y,
    ) by {}
}

/// Rendering a job again shows the same characters. It gives the same
/// text, byte for byte, in monochrome, and in colour where neither text
/// holds a directive.
pub proof fn lemma_convert_repeatable(job: Job, first: Seq<char>, second: Seq<char>)
    requires
        job.renders_to(first),
        job.renders_to(second),
    ensures
        visible(first) == visible(second),
        job.mode == OutputMode::Monochrome ==> first == second,
        is_plain(first) && is_plain(second) ==> first == second,
{
    lemma_order_independent(first, second, job.target(), job.mode);
}

/// Whether the output shows, in column `x` of line `y`, the glyph of the
/// pixel of the image in the source column and row of that cell.
pub open spec fn shows_image_pixel(job: Job, text: Seq<char>, x: int, y: int) -> bool {
    let column = source_x(job.image, job.target_width() as u32, job.target_height() as u32, x);
    let row = source_y(job.image, job.target_width() as u32, job.target_height() as u32, y);
    job.image.contains(column, row) && visible(text)[position(job.target(), x, y)] == glyph_at(
        job.image,
        column,
        row,
    )
}

/// Resampling never blends: where the target grid takes its pixels whole
/// from the image, every glyph that the output shows is the glyph of a pixel
/// of the image, the one in the source column and row of its cell.
pub proof fn lemma_output_from_image(job: Job, text: Seq<char>)
    requires
        job.fault() is None,
        job.renders_to(text),
        is_sampled_from(job.target(), job.image),
    ensures
        forall|x: int, y: int|
            0 <= x < job.target_width() && 0 <= y < job.target_height()
                ==> #[trigger] shows_image_pixel(job, text, x, y),
{
    lemma_output_shape(job, text);
    lemma_target_height_exact(
        job.image.width as int,
        job.image.height as int,
        job.target_width(),
        job.char_ratio,
    );
    assert forall|x: int, y: int|
        0 <= x < job.target_width() && 0 <= y < job.target_height()
        implies #[trigger] shows_image_pixel(job, text, x, y) by {
        assert(job.target().contains(x, y));
        assert(is_sample_of(job.target(), job.image, x, y));
        assert(visible(text)[position(job.target(), x, y)] == glyph_at(job.target(), x, y));
    }
}

} // verus!
