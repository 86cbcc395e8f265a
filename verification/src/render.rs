//! The renderer: from a grid of pixels to a block of text.

use crate::arith::lemma_quotient_below;
use crate::bitmap::{Bitmap, Grid};
use crate::glyph::{glyph_of_rgb, lemma_glyph_in_ramp, luminance, pixel_to_ascii};
use crate::paint::{
    escaped_after, is_painted, is_plain, lemma_line_feeds_concat, lemma_no_line_feeds,
    lemma_painted_line_feeds, lemma_painted_visible, lemma_plain_visible, lemma_strip_concat,
    line_feeds, paint, visible,
};
use crate::plan::OutputMode;
use rayon::iter::{IntoParallelIterator, ParallelIterator};
use vstd::arithmetic::div_mod::lemma_fundamental_div_mod_converse;
use vstd::prelude::*;

verus! {

/// The glyph that stands for pixel `(x, y)` of a grid.
pub open spec fn glyph_at(grid: Grid, x: int, y: int) -> char {
    let pixel = grid.pixel(x, y);
    glyph_of_rgb(pixel.r, pixel.g, pixel.b)
}

/// Row `y` of a grid in monochrome: one glyph for each pixel.
pub open spec fn mono_row(grid: Grid, y: int) -> Seq<char> {
    Seq::new(grid.width, |x: int| glyph_at(grid, x, y))
}

/// A grid in monochrome: its rows from top to bottom, each followed by a
/// line feed. Character `i` of the text is a line feed where it ends a row,
/// else the glyph of the pixel in column `i % (width + 1)` of row
/// `i / (width + 1)`.
pub open spec fn mono_text(grid: Grid) -> Seq<char> {
    let stride = grid.width as int + 1;
    Seq::new(
        grid.height * (grid.width + 1),
        |i: int|
            if i % stride == grid.width {
                '\n'
            } else {
                glyph_at(grid, i % stride, i / stride)
            },
    )
}

/// The parts of a text, put together in their order.
pub open spec fn concat(parts: Seq<Seq<char>>) -> Seq<char>
    decreases parts.len(),
{
    if parts.len() == 0 {
        Seq::empty()
    } else {
        concat(parts.drop_last()) + parts.last()
    }
}

/// Lines put together in their order, each followed by a line feed.
pub open spec fn join_lines(lines: Seq<Seq<char>>) -> Seq<char>
    decreases lines.len(),
{
    if lines.len() == 0 {
        Seq::empty()
    } else {
        join_lines(lines.drop_last()) + lines.last() + seq!['\n']
    }
}

/// The texts of a sequence of strings.
pub open spec fn texts(rows: Seq<String>) -> Seq<Seq<char>> {
    Seq::new(rows.len(), |i: int| rows[i]@)
}

/// Whether `text` is row `y` of a grid in colour: one painted glyph for each
/// pixel, each painted in the colour of its pixel.
pub open spec fn is_color_row(text: Seq<char>, grid: Grid, y: int) -> bool {
    exists|cells: Seq<Seq<char>>| #[trigger] is_color_cells(cells, grid, y) && text == concat(cells)
}

/// Whether `cells` are the painted glyphs of row `y` of a grid.
pub open spec fn is_color_cells(cells: Seq<Seq<char>>, grid: Grid, y: int) -> bool {
    &&& cells.len() == grid.width
    &&& forall|x: int|
        0 <= x < grid.width ==> is_painted(
            #[trigger] cells[x],
            glyph_at(grid, x, y),
            grid.pixel(x, y),
        )
}

/// Whether `text` is row `y` of a grid in the given mode.
pub open spec fn is_row(text: Seq<char>, grid: Grid, y: int, mode: OutputMode) -> bool {
    match mode {
        OutputMode::Monochrome => text == mono_row(grid, y),
        OutputMode::Color => is_color_row(text, grid, y),
    }
}

/// Whether `lines` are the rows of a grid in the given mode, from top to
/// bottom.
pub open spec fn is_rows(lines: Seq<Seq<char>>, grid: Grid, mode: OutputMode) -> bool {
    &&& lines.len() == grid.height
    &&& forall|y: int| 0 <= y < grid.height ==> is_row(#[trigger] lines[y], grid, y, mode)
}

/// Whether `text` is a rendering of a grid in the given mode: its rows from
/// top to bottom, each followed by a line feed. In monochrome there is one
/// such text.
pub open spec fn is_rendering(text: Seq<char>, grid: Grid, mode: OutputMode) -> bool {
    match mode {
        OutputMode::Monochrome => text == mono_text(grid),
        OutputMode::Color => exists|lines: Seq<Seq<char>>| #[trigger]
            is_rows(lines, grid, mode) && text == join_lines(lines),
    }
}

/// `String::push` of the standard library appends one character to the end
/// of the string.
pub assume_specification[ String::push ](text: &mut String, ch: char)
    ensures
        final(text)@ == old(text)@.push(ch),
;

/// Lines of one length, joined, form a text in which every line takes
/// `width + 1` characters, the last of them the line feed.
pub proof fn lemma_join_uniform(lines: Seq<Seq<char>>, width: int)
    requires
        0 <= width,
        forall|y: int| 0 <= y < lines.len() ==> (#[trigger] lines[y]).len() == width,
    ensures
        join_lines(lines).len() == lines.len() * (width + 1),
        forall|i: int|
            0 <= i < lines.len() * (width + 1) ==> #[trigger] join_lines(lines)[i] == (if i % (width
                + 1) == width {
                '\n'
            } else {
                lines[i / (width + 1)][i % (width + 1)]
            }),
    decreases lines.len(),
{
    let stride = width + 1;
    if lines.len() > 0 {
        let above = lines.drop_last();
        lemma_join_uniform(above, width);
        assert(lines.len() * stride == above.len() * stride + stride) by (nonlinear_arith)
            requires
                lines.len() == above.len() + 1,
        ;
        assert forall|i: int| 0 <= i < lines.len() * stride implies #[trigger] join_lines(lines)[i]
            == (if i % stride == width {
            '\n'
        } else {
            lines[i / stride][i % stride]
        }) by {
            if i >= above.len() * stride {
                lemma_fundamental_div_mod_converse(
                    i,
                    stride,
                    above.len() as int,
                    i - above.len() * stride,
                );
            } else {
                lemma_quotient_below(i, stride, above.len() as int);
            }
        }
    }
}

/// The rows of a grid in monochrome, joined, are the grid in monochrome.
pub proof fn lemma_join_mono_rows(lines: Seq<Seq<char>>, grid: Grid)
    requires
        is_rows(lines, grid, OutputMode::Monochrome),
    ensures
        join_lines(lines) == mono_text(grid),
{
    let width = grid.width as int;
    assert forall|y: int| 0 <= y < lines.len() implies (#[trigger] lines[y]).len() == width by {
        assert(is_row(lines[y], grid, y, OutputMode::Monochrome));
    }
    lemma_join_uniform(lines, width);
    assert forall|i: int| 0 <= i < grid.height * (width + 1) implies #[trigger] join_lines(
        lines,
    )[i] == mono_text(grid)[i] by {
        lemma_quotient_below(i, width + 1, grid.height as int);
        let y = i / (width + 1);
        assert(is_row(lines[y], grid, y, OutputMode::Monochrome));
    }
    assert(join_lines(lines) =~= mono_text(grid));
}

/// Renders one row of a grid: a glyph for each pixel, chosen by the
/// brightness of the pixel and, in colour, painted in the colour of the
/// pixel.
pub fn render_row(grid: &Bitmap, y: u32, mode: OutputMode) -> (line: String)
    requires
        y < grid@.height,
    ensures
        is_row(line@, grid@, y as int, mode),
{
    let width = grid.width();
    let mut line = String::new();
    let ghost mut cells: Seq<Seq<char>> = Seq::empty();
    let mut x: u32 = 0;
    while x < width
        invariant
            width == grid@.width,
            y < grid@.height,
            x <= width,
            cells.len() == x,
            line@ == concat(cells),
            mode == OutputMode::Monochrome ==> line@ == mono_row(grid@, y as int).take(x as int),
            forall|i: int|
                0 <= i < x ==> is_painted(
                    #[trigger] cells[i],
                    glyph_at(grid@, i, y as int),
                    grid@.pixel(i, y as int),
                ),
        decreases width - x,
    {
        let pixel = grid.get_pixel(x, y);
        let glyph = pixel_to_ascii(luminance(pixel.r, pixel.g, pixel.b));
        let ghost before = line@;
        let ghost painted = cells;
        match mode {
            OutputMode::Monochrome => {
                line.push(glyph);
                proof {
                    cells = cells.push(seq![glyph]);
                    assert(cells.drop_last() == painted);
                    assert(line@ == before + seq![glyph]);
                    assert(line@ == mono_row(grid@, y as int).take(x + 1));
                }
            },
            OutputMode::Color => {
                let cell = paint(glyph, pixel);
                line.append(cell.as_str());
                proof {
                    cells = cells.push(cell@);
                    assert(cells.drop_last() == painted);
                }
            },
        }
        x = x + 1;
    }
    proof {
        match mode {
            OutputMode::Monochrome => {
                assert(mono_row(grid@, y as int).take(width as int) == mono_row(grid@, y as int));
            },
            OutputMode::Color => {
                assert(is_color_cells(cells, grid@, y as int));
            },
        }
    }
    line
}

/// The parallel map of the rayon crate over the rows of a grid:
/// `into_par_iter` on the range of row numbers, `map` with `render_row`, and
/// `collect` into a vector. The contract claims that the vector holds, at
/// index `y`, what one call of `render_row` for row `y` returned, whichever
/// worker made the call and whenever it was done.
#[verifier::external_body]
fn render_rows(grid: &Bitmap, height: u32, mode: OutputMode) -> (rows: Vec<String>)
    requires
        height == grid@.height,
    ensures
        is_rows(texts(rows@), grid@, mode),
{
    (0..height).into_par_iter().map(|y| render_row(grid, y, mode)).collect()
}

/// Joins rows into one text, each row followed by a line feed.
pub fn join_rows(rows: &Vec<String>) -> (text: String)
    ensures
        text@ == join_lines(texts(rows@)),
{
    let mut text = String::new();
    let mut y: usize = 0;
    while y < rows.len()
        invariant
            y <= rows.len(),
            text@ == join_lines(texts(rows@).take(y as int)),
        decreases rows.len() - y,
    {
        text.append(rows[y].as_str());
        text.push('\n');
        proof {
            let done = texts(rows@).take(y + 1);
            assert(done.drop_last() == texts(rows@).take(y as int));
            assert(done.last() == rows[y as int]@);
        }
        y = y + 1;
    }
    assert(texts(rows@).take(rows.len() as int) == texts(rows@));
    text
}

/// Renders a grid as text, its rows rendered in parallel and put together
/// from top to bottom.
pub fn render(grid: &Bitmap, mode: OutputMode) -> (text: String)
    ensures
        is_rendering(text@, grid@, mode),
{
    let rows = render_rows(grid, grid.height(), mode);
    let text = join_rows(&rows);
    proof {
        match mode {
            OutputMode::Monochrome => {
                lemma_join_mono_rows(texts(rows@), grid@);
            },
            OutputMode::Color => {
                assert(is_rows(texts(rows@), grid@, mode));
            },
        }
    }
    text
}

/// Renders a grid as text, one row after the other.
pub fn render_sequential(grid: &Bitmap, mode: OutputMode) -> (text: String)
    ensures
        is_rendering(text@, grid@, mode),
{
    let height = grid.height();
    let mut rows: Vec<String> = Vec::new();
    let mut y: u32 = 0;
    while y < height
        invariant
            height == grid@.height,
            y <= height,
            rows@.len() == y,
            forall|i: int| 0 <= i < y ==> is_row(#[trigger] rows@[i]@, grid@, i, mode),
        decreases height - y,
    {
        let line = render_row(grid, y, mode);
        rows.push(line);
        y = y + 1;
    }
    let text = join_rows(&rows);
    proof {
        assert forall|i: int| 0 <= i < grid@.height implies is_row(
            #[trigger] texts(rows@)[i],
            grid@,
            i,
            mode,
        ) by {
            assert(is_row(rows@[i]@, grid@, i, mode));
        }
        match mode {
            OutputMode::Monochrome => {
                lemma_join_mono_rows(texts(rows@), grid@);
            },
            OutputMode::Color => {
                assert(is_rows(texts(rows@), grid@, mode));
            },
        }
    }
    text
}

/// Where each part shows one character and ends outside a directive, the
/// parts put together show those characters.
pub proof fn lemma_cells_visible(cells: Seq<Seq<char>>, glyphs: Seq<char>)
    requires
        cells.len() == glyphs.len(),
        forall|x: int|
            0 <= x < cells.len() ==> (visible(#[trigger] cells[x]) == seq![glyphs[x]]
                && !escaped_after(cells[x], false)),
    ensures
        visible(concat(cells)) == glyphs,
        !escaped_after(concat(cells), false),
    decreases cells.len(),
{
    if cells.len() > 0 {
        lemma_cells_visible(cells.drop_last(), glyphs.drop_last());
        lemma_strip_concat(concat(cells.drop_last()), cells.last(), false);
        assert(visible(cells[cells.len() - 1]) == seq![glyphs[cells.len() - 1]]);
        assert(glyphs == glyphs.drop_last() + seq![glyphs.last()]);
    } else {
        assert(glyphs == Seq::<char>::empty());
    }
}

/// Where each line ends outside a directive, the lines joined show what the
/// lines show, joined.
pub proof fn lemma_lines_visible(lines: Seq<Seq<char>>, shown: Seq<Seq<char>>)
    requires
        lines.len() == shown.len(),
        forall|y: int|
            0 <= y < lines.len() ==> (visible(#[trigger] lines[y]) == shown[y]
                && !escaped_after(lines[y], false)),
    ensures
        visible(join_lines(lines)) == join_lines(shown),
        !escaped_after(join_lines(lines), false),
    decreases lines.len(),
{
    if lines.len() > 0 {
        let feed = seq!['\n'];
        lemma_lines_visible(lines.drop_last(), shown.drop_last());
        lemma_plain_visible(feed);
        lemma_strip_concat(join_lines(lines.drop_last()), lines.last(), false);
        lemma_strip_concat(join_lines(lines.drop_last()) + lines.last(), feed, false);
        assert(visible(lines[lines.len() - 1]) == shown[lines.len() - 1]);
    }
}

/// A row shows its glyphs, whatever the mode, and ends outside a directive.
pub proof fn lemma_row_visible(text: Seq<char>, grid: Grid, y: int, mode: OutputMode)
    requires
        is_row(text, grid, y, mode),
    ensures
        visible(text) == mono_row(grid, y),
        !escaped_after(text, false),
{
    let glyphs = mono_row(grid, y);
    assert forall|x: int| 0 <= x < glyphs.len() implies #[trigger] glyphs[x] != '\x1b' by {
        let pixel = grid.pixel(x, y);
        lemma_glyph_in_ramp(pixel.r, pixel.g, pixel.b);
    }
    match mode {
        OutputMode::Monochrome => {
            lemma_plain_visible(text);
        },
        OutputMode::Color => {
            let cells = choose|cells: Seq<Seq<char>>| #[trigger]
                is_color_cells(cells, grid, y) && text == concat(cells);
            assert forall|x: int| 0 <= x < cells.len() implies visible(#[trigger] cells[x]) == seq![
                glyphs[x],
            ] && !escaped_after(cells[x], false) by {
                assert(glyphs[x] != '\x1b');
                lemma_painted_visible(cells[x], glyph_at(grid, x, y), grid.pixel(x, y));
            }
            lemma_cells_visible(cells, glyphs);
        },
    }
}

/// Where character `i` of a rendering stands that shows pixel `(x, y)`, or,
/// with `x` the width of the grid, the line feed of row `y`.
pub open spec fn position(grid: Grid, x: int, y: int) -> int {
    y * (grid.width + 1) + x
}

/// Every rendering of a grid shows the grid in monochrome: with the colour
/// directives taken out, it has one line for each row of the grid, each line
/// the glyphs of the pixels of its row, none of them a line feed, and then a
/// line feed.
pub proof fn lemma_rendering_shape(text: Seq<char>, grid: Grid, mode: OutputMode)
    requires
        is_rendering(text, grid, mode),
    ensures
        visible(text) == mono_text(grid),
        visible(text).len() == grid.height * (grid.width + 1),
        forall|x: int, y: int|
            grid.contains(x, y) ==> (visible(text)[#[trigger] position(grid, x, y)] == glyph_at(
                grid,
                x,
                y,
            ) && glyph_at(grid, x, y) != '\n'),
        forall|y: int|
            0 <= y < grid.height ==> visible(text)[#[trigger] position(grid, grid.width as int, y)]
                == '\n',
{
    let width = grid.width as int;
    let plain = mono_text(grid);
    assert forall|x: int, y: int| 0 <= x <= width && 0 <= y < grid.height implies {
        &&& 0 <= #[trigger] position(grid, x, y) < plain.len()
        &&& position(grid, x, y) / (width + 1) == y
        &&& position(grid, x, y) % (width + 1) == x
    } by {
        lemma_fundamental_div_mod_converse(position(grid, x, y), width + 1, y, x);
        assert(y * (width + 1) + x < grid.height * (width + 1)) by (nonlinear_arith)
            requires
                0 <= x <= width,
                0 <= y < grid.height,
        ;
        assert(0 <= y * (width + 1)) by (nonlinear_arith)
            requires
                0 <= y,
                0 <= width,
        ;
    }
    assert forall|x: int, y: int| grid.contains(x, y) implies glyph_at(grid, x, y) != '\n'
        && glyph_at(grid, x, y) != '\x1b' by {
        let pixel = grid.pixel(x, y);
        lemma_glyph_in_ramp(pixel.r, pixel.g, pixel.b);
    }
    match mode {
        OutputMode::Monochrome => {
            assert forall|i: int| 0 <= i < plain.len() implies #[trigger] plain[i] != '\x1b' by {
                lemma_quotient_below(i, width + 1, grid.height as int);
                let pixel = grid.pixel(i % (width + 1), i / (width + 1));
                lemma_glyph_in_ramp(pixel.r, pixel.g, pixel.b);
            }
            lemma_plain_visible(text);
        },
        OutputMode::Color => {
            let lines = choose|lines: Seq<Seq<char>>| #[trigger]
                is_rows(lines, grid, mode) && text == join_lines(lines);
            let shown = Seq::new(grid.height, |y: int| mono_row(grid, y));
            assert forall|y: int| 0 <= y < lines.len() implies visible(#[trigger] lines[y])
                == shown[y] && !escaped_after(lines[y], false) by {
                lemma_row_visible(lines[y], grid, y, mode);
            }
            lemma_lines_visible(lines, shown);
            lemma_join_mono_rows(shown, grid);
        },
    }
}

/// Parts without line feeds, put together, have none.
pub proof fn lemma_cells_line_feeds(cells: Seq<Seq<char>>)
    requires
        forall|x: int| 0 <= x < cells.len() ==> line_feeds(#[trigger] cells[x]) == 0,
    ensures
        line_feeds(concat(cells)) == 0,
    decreases cells.len(),
{
    if cells.len() > 0 {
        lemma_cells_line_feeds(cells.drop_last());
        lemma_line_feeds_concat(concat(cells.drop_last()), cells.last());
        assert(line_feeds(cells[cells.len() - 1]) == 0);
    }
}

/// Lines without line feeds, joined, have one line feed each, and the text
/// ends with the last of them.
pub proof fn lemma_lines_line_feeds(lines: Seq<Seq<char>>)
    requires
        forall|y: int| 0 <= y < lines.len() ==> line_feeds(#[trigger] lines[y]) == 0,
    ensures
        line_feeds(join_lines(lines)) == lines.len(),
        lines.len() > 0 ==> join_lines(lines).len() > 0 && join_lines(lines).last() == '\n',
    decreases lines.len(),
{
    if lines.len() > 0 {
        let feed = seq!['\n'];
        lemma_lines_line_feeds(lines.drop_last());
        lemma_line_feeds_concat(join_lines(lines.drop_last()), lines.last());
        lemma_line_feeds_concat(join_lines(lines.drop_last()) + lines.last(), feed);
        assert(line_feeds(lines[lines.len() - 1]) == 0);
        assert(line_feeds(feed) == 1) by {
            assert(feed.drop_last() == Seq::<char>::empty());
            reveal_with_fuel(line_feeds, 2);
        }
    }
}

/// A row holds no line feed, whatever the mode.
pub proof fn lemma_row_line_feeds(text: Seq<char>, grid: Grid, y: int, mode: OutputMode)
    requires
        is_row(text, grid, y, mode),
    ensures
        line_feeds(text) == 0,
{
    let glyphs = mono_row(grid, y);
    assert forall|x: int| 0 <= x < glyphs.len() implies #[trigger] glyphs[x] != '\n' by {
        let pixel = grid.pixel(x, y);
        lemma_glyph_in_ramp(pixel.r, pixel.g, pixel.b);
    }
    match mode {
        OutputMode::Monochrome => {
            lemma_no_line_feeds(text);
        },
        OutputMode::Color => {
            let cells = choose|cells: Seq<Seq<char>>| #[trigger]
                is_color_cells(cells, grid, y) && text == concat(cells);
            assert forall|x: int| 0 <= x < cells.len() implies line_feeds(#[trigger] cells[x])
                == 0 by {
                assert(glyphs[x] != '\n');
                lemma_painted_line_feeds(cells[x], glyph_at(grid, x, y), grid.pixel(x, y));
            }
            lemma_cells_line_feeds(cells);
        },
    }
}

/// Every rendering of a grid, colour directives and all, has exactly one
/// line feed for each row of the grid, and ends with a line feed unless the
/// grid has no rows.
pub proof fn lemma_rendering_lines(text: Seq<char>, grid: Grid, mode: OutputMode)
    requires
        is_rendering(text, grid, mode),
    ensures
        line_feeds(text) == grid.height,
        grid.height > 0 ==> text.len() > 0 && text.last() == '\n',
{
    let lines = match mode {
        OutputMode::Monochrome => Seq::new(grid.height, |y: int| mono_row(grid, y)),
        OutputMode::Color => choose|lines: Seq<Seq<char>>| #[trigger]
            is_rows(lines, grid, mode) && text == join_lines(lines),
    };
    if mode == OutputMode::Monochrome {
        lemma_join_mono_rows(lines, grid);
    }
    assert forall|y: int| 0 <= y < lines.len() implies line_feeds(#[trigger] lines[y]) == 0 by {
        lemma_row_line_feeds(lines[y], grid, y, mode);
    }
    lemma_lines_line_feeds(lines);
}

/// The text of a rendering does not depend on which worker renders which
/// row, nor on when: two renderings of one grid in one mode show the same
/// characters; in monochrome they are the same text; and in colour they are
/// the same text where neither holds a directive.
pub proof fn lemma_order_independent(
    first: Seq<char>,
    second: Seq<char>,
    grid: Grid,
    mode: OutputMode,
)
    requires
        is_rendering(first, grid, mode),
        is_rendering(second, grid, mode),
    ensures
        visible(first) == visible(second),
        mode == OutputMode::Monochrome ==> first == second,
        is_plain(first) && is_plain(second) ==> first == second,
{
    lemma_rendering_shape(first, grid, mode);
    lemma_rendering_shape(second, grid, mode);
    if is_plain(first) && is_plain(second) {
        lemma_plain_visible(first);
        lemma_plain_visible(second);
    }
}

} // verus!
