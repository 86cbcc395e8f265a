//! Colour directives: how a glyph is wrapped for a terminal, and what is left
//! of a text when the directives are taken out again.

use crate::bitmap::Rgb;
use colored::Colorize;
use vstd::prelude::*;

verus! {

/// The directive that selects the graphic rendition `code`.
pub open spec fn sgr_open(code: Seq<char>) -> Seq<char> {
    seq!['\x1b', '['] + code + seq!['m']
}

/// The directive that returns to the default rendition.
pub open spec fn sgr_reset() -> Seq<char> {
    seq!['\x1b', '[', '0', 'm']
}

/// The character of a decimal digit.
pub open spec fn digit_char(digit: int) -> char {
    seq!['0', '1', '2', '3', '4', '5', '6', '7', '8', '9'][digit]
}

/// A natural number written in decimal, without leading zeros.
pub open spec fn decimal(n: nat) -> Seq<char>
    decreases n,
{
    if n < 10 {
        seq![digit_char(n as int)]
    } else {
        decimal(n / 10).push(digit_char((n % 10) as int))
    }
}

/// The rendition code of a 24-bit foreground colour: `38;2;R;G;B`.
pub open spec fn truecolor_code(color: Rgb) -> Seq<char> {
    seq!['3', '8', ';', '2', ';'] + decimal(color.r as nat) + seq![';'] + decimal(color.g as nat)
        + seq![';'] + decimal(color.b as nat)
}

/// The rendition codes of the sixteen basic foreground colours: `30` to `37`
/// and `90` to `97`.
pub open spec fn is_basic_code(code: Seq<char>) -> bool {
    &&& code.len() == 2
    &&& code[0] == '3' || code[0] == '9'
    &&& '0' <= code[1] <= '7'
}

/// The codes by which a terminal may be asked for a foreground colour: the
/// 24-bit code of the colour itself, or the code of a basic colour that
/// stands in for it.
pub open spec fn is_foreground_code(code: Seq<char>, color: Rgb) -> bool {
    code == truecolor_code(color) || is_basic_code(code)
}

/// What a painted glyph may look like: the bare glyph where colour is
/// switched off, else the glyph between a foreground directive and a reset.
/// Where colour is switched off while the glyph is being painted, the reset
/// may stand without its directive.
pub open spec fn is_painted(text: Seq<char>, glyph: char, color: Rgb) -> bool {
    ||| text == seq![glyph]
    ||| text == seq![glyph] + sgr_reset()
    ||| exists|code: Seq<char>| #[trigger]
        is_foreground_code(code, color) && text == sgr_open(code) + seq![glyph] + sgr_reset()
}

/// `Colorize::truecolor` of the colored crate on the glyph, and the text
/// that the coloured string displays as. Whether there is any directive, and
/// whether it carries the colour itself or a basic colour, the crate decides
/// while the program runs, from the terminal and the variables of the
/// process. So the contract claims only that the text has one of the forms
/// of `is_painted`.
#[verifier::external_body]
pub(crate) fn paint(glyph: char, color: Rgb) -> (text: String)
    ensures
        is_painted(text@, glyph, color),
{
    format!("{}", glyph).truecolor(color.r, color.g, color.b).to_string()
}

/// The text that is left when rendition directives are taken out, read from
/// a position that is inside a directive (`escaped`) or not. A directive
/// runs from an escape character to the next `m`.
pub open spec fn strip_from(text: Seq<char>, escaped: bool) -> Seq<char>
    decreases text.len(),
{
    if text.len() == 0 {
        Seq::empty()
    } else if escaped {
        strip_from(text.drop_first(), text[0] != 'm')
    } else if text[0] == '\x1b' {
        strip_from(text.drop_first(), true)
    } else {
        seq![text[0]] + strip_from(text.drop_first(), false)
    }
}

/// Whether the end of `text` is inside a directive, read from a position
/// that is inside a directive (`escaped`) or not.
pub open spec fn escaped_after(text: Seq<char>, escaped: bool) -> bool
    decreases text.len(),
{
    if text.len() == 0 {
        escaped
    } else if escaped {
        escaped_after(text.drop_first(), text[0] != 'm')
    } else {
        escaped_after(text.drop_first(), text[0] == '\x1b')
    }
}

/// The visible characters of a text: what is left when its rendition
/// directives are taken out.
pub open spec fn visible(text: Seq<char>) -> Seq<char> {
    strip_from(text, false)
}

/// The number of line feeds in a text.
pub open spec fn line_feeds(text: Seq<char>) -> nat
    decreases text.len(),
{
    if text.len() == 0 {
        0
    } else if text.last() == '\n' {
        line_feeds(text.drop_last()) + 1
    } else {
        line_feeds(text.drop_last())
    }
}

/// The line feeds of a concatenation are those of its parts.
pub proof fn lemma_line_feeds_concat(first: Seq<char>, second: Seq<char>)
    ensures
        line_feeds(first + second) == line_feeds(first) + line_feeds(second),
    decreases second.len(),
{
    if second.len() == 0 {
        assert(first + second == first);
    } else {
        assert((first + second).drop_last() == first + second.drop_last());
        lemma_line_feeds_concat(first, second.drop_last());
    }
}

/// A text without a line feed character has no line feeds.
pub proof fn lemma_no_line_feeds(text: Seq<char>)
    requires
        forall|i: int| 0 <= i < text.len() ==> #[trigger] text[i] != '\n',
    ensures
        line_feeds(text) == 0,
    decreases text.len(),
{
    if text.len() > 0 {
        let rest = text.drop_last();
        assert forall|i: int| 0 <= i < rest.len() implies #[trigger] rest[i] != '\n' by {
            assert(rest[i] == text[i]);
        }
        lemma_no_line_feeds(rest);
    }
}

/// Stripping a concatenation strips its parts, the second from the state in
/// which the first ends.
pub proof fn lemma_strip_concat(first: Seq<char>, second: Seq<char>, escaped: bool)
    ensures
        strip_from(first + second, escaped) == strip_from(first, escaped) + strip_from(
            second,
            escaped_after(first, escaped),
        ),
        escaped_after(first + second, escaped) == escaped_after(
            second,
            escaped_after(first, escaped),
        ),
    decreases first.len(),
{
    if first.len() == 0 {
        assert(first + second == second);
    } else {
        assert((first + second).drop_first() == first.drop_first() + second);
        let next = if escaped {
            first[0] != 'm'
        } else {
            first[0] == '\x1b'
        };
        lemma_strip_concat(first.drop_first(), second, next);
    }
}

/// Whether a text holds no escape character, and so no directive.
pub open spec fn is_plain(text: Seq<char>) -> bool {
    forall|i: int| 0 <= i < text.len() ==> #[trigger] text[i] != '\x1b'
}

/// A text without an escape character is visible as it stands.
pub proof fn lemma_plain_visible(text: Seq<char>)
    requires
        is_plain(text),
    ensures
        visible(text) == text,
        !escaped_after(text, false),
    decreases text.len(),
{
    if text.len() > 0 {
        let rest = text.drop_first();
        assert forall|i: int| 0 <= i < rest.len() implies #[trigger] rest[i] != '\x1b' by {
            assert(rest[i] == text[i + 1]);
        }
        lemma_plain_visible(rest);
        assert(text[0] != '\x1b');
        assert(text == seq![text[0]] + rest);
    }
}

/// The decimal form of a number holds digits only.
pub proof fn lemma_decimal_digits(n: nat)
    ensures
        decimal(n).len() >= 1,
        forall|i: int| 0 <= i < decimal(n).len() ==> '0' <= #[trigger] decimal(n)[i] <= '9',
    decreases n,
{
    if n >= 10 {
        lemma_decimal_digits(n / 10);
    }
}

/// No foreground code holds the letter that ends a directive, nor a line
/// feed.
pub proof fn lemma_code_is_open(code: Seq<char>, color: Rgb)
    requires
        is_foreground_code(code, color),
    ensures
        forall|i: int| 0 <= i < code.len() ==> #[trigger] code[i] != 'm' && code[i] != '\n',
{
    lemma_decimal_digits(color.r as nat);
    lemma_decimal_digits(color.g as nat);
    lemma_decimal_digits(color.b as nat);
}

/// Inside a directive, characters other than its last letter are skipped.
pub proof fn lemma_strip_inside(code: Seq<char>)
    requires
        forall|i: int| 0 <= i < code.len() ==> #[trigger] code[i] != 'm',
    ensures
        strip_from(code, true) == Seq::<char>::empty(),
        escaped_after(code, true),
    decreases code.len(),
{
    if code.len() > 0 {
        let rest = code.drop_first();
        assert forall|i: int| 0 <= i < rest.len() implies #[trigger] rest[i] != 'm' by {
            assert(rest[i] == code[i + 1]);
        }
        lemma_strip_inside(rest);
    }
}

/// A directive is invisible and ends outside of itself.
pub proof fn lemma_strip_directive(code: Seq<char>)
    requires
        forall|i: int| 0 <= i < code.len() ==> #[trigger] code[i] != 'm',
    ensures
        visible(sgr_open(code)) == Seq::<char>::empty(),
        !escaped_after(sgr_open(code), false),
{
    let head = seq!['\x1b', '['];
    let tail = seq!['m'];
    lemma_strip_inside(code);
    assert(strip_from(head, false) == Seq::<char>::empty() && escaped_after(head, false)) by {
        reveal_with_fuel(strip_from, 3);
        reveal_with_fuel(escaped_after, 3);
    }
    assert(strip_from(tail, true) == Seq::<char>::empty() && !escaped_after(tail, true)) by {
        reveal_with_fuel(strip_from, 2);
        reveal_with_fuel(escaped_after, 2);
    }
    lemma_strip_concat(head, code, false);
    lemma_strip_concat(head + code, tail, false);
}

/// Of a painted glyph, the glyph alone is visible.
pub proof fn lemma_painted_visible(text: Seq<char>, glyph: char, color: Rgb)
    requires
        is_painted(text, glyph, color),
        glyph != '\x1b',
    ensures
        visible(text) == seq![glyph],
        !escaped_after(text, false),
{
    let bare = seq![glyph];
    let reset = sgr_reset();
    assert(strip_from(bare, false) == bare && !escaped_after(bare, false)) by {
        reveal_with_fuel(strip_from, 2);
        reveal_with_fuel(escaped_after, 2);
    }
    assert(reset == sgr_open(seq!['0']));
    lemma_strip_directive(seq!['0']);
    lemma_strip_concat(bare, reset, false);
    if text == bare {
    } else if text == bare + reset {
    } else {
        let code = choose|code: Seq<char>| #[trigger]
            is_foreground_code(code, color) && text == sgr_open(code) + bare + reset;
        lemma_code_is_open(code, color);
        lemma_strip_directive(code);
        lemma_strip_concat(sgr_open(code), bare, false);
        lemma_strip_concat(sgr_open(code) + bare, reset, false);
    }
}

/// A painted glyph holds no line feed.
pub proof fn lemma_painted_line_feeds(text: Seq<char>, glyph: char, color: Rgb)
    requires
        is_painted(text, glyph, color),
        glyph != '\n',
    ensures
        line_feeds(text) == 0,
{
    let bare = seq![glyph];
    let reset = sgr_reset();
    if text == bare {
    } else if text == bare + reset {
    } else {
        let code = choose|code: Seq<char>| #[trigger]
            is_foreground_code(code, color) && text == sgr_open(code) + bare + reset;
        lemma_code_is_open(code, color);
    }
    lemma_no_line_feeds(text);
}

} // verus!
