//! The dimension planner: how many character cells the output gets.

use crate::arith::{
    lemma_product_bounded, lemma_product_positive, lemma_quotient_beyond, lemma_quotient_is_floor,
    lemma_quotient_vanishes,
};
use crate::ratio::{lemma_fraction_signs, lemma_pow2_below, power_of_two, CharRatio};
use vstd::arithmetic::power2::pow2;
use vstd::prelude::*;

verus! {

/// Preset output widths.
#[derive(Clone, Copy, Debug, PartialEq, Eq, Structural)]
pub enum Size {
    Small,
    Medium,
    Large,
}

/// Whether glyphs are written bare or wrapped in a colour directive.
#[derive(Clone, Copy, Debug, PartialEq, Eq, Structural)]
pub enum OutputMode {
    Monochrome,
    Color,
}

/// The width of a preset, in character cells.
pub open spec fn preset_width(size: Size) -> int {
    match size {
        Size::Small => 60,
        Size::Medium => 100,
        Size::Large => 150,
    }
}

/// The base width of a run: the custom width where one is given, else the
/// width of the preset.
pub open spec fn spec_base_width(size: Size, custom_width: Option<u32>) -> int {
    match custom_width {
        Some(width) => width as int,
        None => preset_width(size),
    }
}

/// The height that keeps the source's proportions at `base_width` columns,
/// corrected by the character ratio and rounded towards zero.
pub open spec fn exact_height(
    source_width: int,
    source_height: int,
    base_width: int,
    ratio: CharRatio,
) -> int {
    (source_height * base_width * ratio.numer()) / (source_width * ratio.denom())
}

/// The planned height: the exact height, held to what a `u32` can express.
pub open spec fn spec_target_height(
    source_width: int,
    source_height: int,
    base_width: int,
    ratio: CharRatio,
) -> int {
    let exact = exact_height(source_width, source_height, base_width, ratio);
    if exact <= u32::MAX {
        exact
    } else {
        u32::MAX as int
    }
}

/// The exact height is the quantity `source_height / source_width *
/// base_width * ratio` rounded towards zero: it is not negative, and, with
/// the fractions cleared, it is the one integer `t` with
/// `t <= quantity < t + 1`.
pub proof fn lemma_exact_height_truncates(
    source_width: int,
    source_height: int,
    base_width: int,
    ratio: CharRatio,
    t: int,
)
    requires
        source_width > 0,
        source_height >= 0,
        base_width >= 0,
    ensures
        0 <= exact_height(source_width, source_height, base_width, ratio),
        ({
            let scaled = source_height * base_width * ratio.numer();
            let cells = source_width * ratio.denom();
            t == exact_height(source_width, source_height, base_width, ratio) <==> t * cells
                <= scaled < (t + 1) * cells
        }),
{
    let scaled = source_height * base_width * ratio.numer();
    let cells = source_width * ratio.denom();
    lemma_fraction_signs(ratio);
    lemma_product_positive(source_width, ratio.denom());
    lemma_product_bounded(source_height, base_width, source_height, base_width);
    lemma_product_bounded(
        source_height * base_width,
        ratio.numer(),
        source_height * base_width,
        ratio.numer(),
    );
    lemma_quotient_is_floor(scaled, cells);
    assert((t + 1) * cells == t * cells + cells) by (nonlinear_arith);
    if t * cells <= scaled < (t + 1) * cells {
        vstd::arithmetic::div_mod::lemma_fundamental_div_mod_converse(
            scaled,
            cells,
            t,
            scaled - t * cells,
        );
    }
}

/// The planned height is the exact height wherever that is a `u32`; beyond,
/// it is the largest `u32`.
pub proof fn lemma_target_height_exact(
    source_width: int,
    source_height: int,
    base_width: int,
    ratio: CharRatio,
)
    requires
        source_width > 0,
        source_height >= 0,
        base_width >= 0,
    ensures
        0 <= spec_target_height(source_width, source_height, base_width, ratio) <= u32::MAX,
        exact_height(source_width, source_height, base_width, ratio) <= u32::MAX
            ==> spec_target_height(source_width, source_height, base_width, ratio) == exact_height(
            source_width,
            source_height,
            base_width,
            ratio,
        ),
        exact_height(source_width, source_height, base_width, ratio) > u32::MAX
            ==> spec_target_height(source_width, source_height, base_width, ratio) == u32::MAX,
{
    lemma_exact_height_truncates(source_width, source_height, base_width, ratio, 0);
}

/// Chooses the base width of a run.
pub fn base_width(size: Size, custom_width: Option<u32>) -> (width: u32)
    ensures
        width == spec_base_width(size, custom_width),
{
    match custom_width {
        Some(width) => width,
        None => match size {
            Size::Small => 60,
            Size::Medium => 100,
            Size::Large => 150,
        },
    }
}

/// Plans the height of the target grid.
pub fn target_height(
    source_width: u32,
    source_height: u32,
    base_width: u32,
    ratio: CharRatio,
) -> (height: u32)
    requires
        source_width > 0,
    ensures
        height == spec_target_height(
            source_width as int,
            source_height as int,
            base_width as int,
            ratio,
        ),
{
    proof {
        lemma_product_bounded(source_height as int, base_width as int, 0xffff_ffff, 0xffff_ffff);
        lemma_product_bounded(
            source_height * base_width,
            ratio.significand as int,
            0xffff_ffff_int * 0xffff_ffff_int,
            0xffff_ffff,
        );
        lemma_pow2_below(0, 0);
    }
    let product: u128 = source_height as u128 * base_width as u128 * ratio.significand as u128;
    let exact: u128 = if ratio.exponent >= 0 {
        let ghost scale = pow2(ratio.exponent as nat) as int;
        proof {
            lemma_pow2_below(0, ratio.exponent as nat);
            assert(source_height * base_width * ratio.numer() == product * scale)
                by (nonlinear_arith)
                requires
                    ratio.numer() == ratio.significand * scale,
                    product == source_height * base_width * ratio.significand,
            ;
            assert(source_width * ratio.denom() == source_width);
        }
        if product == 0 {
            proof {
                assert(product * scale == 0) by (nonlinear_arith)
                    requires
                        product == 0,
                ;
            }
            return 0;
        }
        if product >= 0x1_0000_0000_0000_0000 || ratio.exponent >= 64 {
            proof {
                if ratio.exponent >= 64 {
                    lemma_pow2_below(64, ratio.exponent as nat);
                }
                assert(product * scale >= 0x1_0000_0000_0000_0000) by (nonlinear_arith)
                    requires
                        product >= 1,
                        scale >= 1,
                        product >= 0x1_0000_0000_0000_0000 || scale >= 0x1_0000_0000_0000_0000,
                ;
                lemma_quotient_beyond(product * scale, source_width as int);
            }
            return u32::MAX;
        }
        proof {
            lemma_pow2_below(ratio.exponent as nat, 63);
            vstd::arithmetic::power2::lemma_pow2_strictly_increases(63, 64);
            lemma_product_bounded(
                product as int,
                scale,
                0xffff_ffff_ffff_ffff,
                0xffff_ffff_ffff_ffff,
            );
        }
        let scaled: u128 = product * power_of_two(ratio.exponent as u32);
        scaled / source_width as u128
    } else {
        let halvings: i64 = -(ratio.exponent as i64);
        let ghost scale = pow2(halvings as nat) as int;
        proof {
            assert(source_height * base_width * ratio.numer() == product);
            assert(source_width * ratio.denom() == source_width * scale);
        }
        if halvings >= 96 {
            proof {
                lemma_pow2_below(96, halvings as nat);
                assert(source_width * scale > product) by (nonlinear_arith)
                    requires
                        source_width >= 1,
                        scale >= 0x1_0000_0000_0000_0000_0000_0000,
                        product < 0x1_0000_0000_0000_0000_0000_0000,
                ;
                lemma_quotient_vanishes(product as int, source_width * scale);
            }
            return 0;
        }
        proof {
            lemma_pow2_below(halvings as nat, 95);
            lemma_product_bounded(
                source_width as int,
                scale,
                0xffff_ffff,
                0x8000_0000_0000_0000_0000_0000,
            );
            lemma_product_positive(source_width as int, scale);
        }
        let cells: u128 = source_width as u128 * power_of_two(halvings as u32);
        product / cells
    };
    if exact <= u32::MAX as u128 {
        exact as u32
    } else {
        u32::MAX
    }
}

} // verus!
