//! Mapping brightness to characters and rendering a grid of brightness as
//! text.

use crate::ImageData;
use vstd::arithmetic::div_mod::lemma_fundamental_div_mod_converse;
use vstd::prelude::*;

verus! {

/// The characters that stand for brightness, from the darkest to the
/// lightest.
pub const CHARACTERS: [char; 8] = [' ', '.', ',', ':', 'i', 'l', 'w', 'W'];

/// The place in `CHARACTERS` of the character for `brightness`: the
/// brightness as a share of 255, spread over the places and rounded to the
/// nearest one.
pub open spec fn gradient_index(brightness: u8) -> int {
    (2 * brightness * (CHARACTERS@.len() - 1) + 255) / 510
}

/// The character that stands for `brightness`.
pub open spec fn symbol_of(brightness: u8) -> char {
    CHARACTERS@[gradient_index(brightness)]
}

/// The text of a grid that is `width` wide: the characters of each row,
/// every row closed by a line break. What is left of `data` after the last
/// whole row is not shown, and a grid without width has no text.
pub open spec fn rendered(data: Seq<u8>, width: int) -> Seq<char> {
    if width <= 0 {
        Seq::empty()
    } else {
        Seq::new(
            ((data.len() as int / width) * (width + 1)) as nat,
            |at: int|
                if at % (width + 1) == width {
                    '\n'
                } else {
                    symbol_of(data[(at / (width + 1)) * width + at % (width + 1)])
                },
        )
    }
}

/// With eight characters the places are sevenths of full brightness.
pub proof fn lemma_gradient_index_in_sevenths(brightness: u8)
    ensures
        CHARACTERS@.len() == 8,
        gradient_index(brightness) == (14 * brightness + 255) / 510,
{
    assert(CHARACTERS@.len() == 8);
    assert(2 * brightness * (CHARACTERS@.len() - 1) == 14 * brightness) by (nonlinear_arith)
        requires
            CHARACTERS@.len() == 8,
    ;
}

/// The place of a character is a place of `CHARACTERS`, and it is the place
/// nearest to the brightness as a share of 255: black is the first
/// character, white the last.
pub proof fn lemma_gradient_index_is_nearest(brightness: u8)
    ensures
        0 <= gradient_index(brightness) < CHARACTERS@.len(),
        -255 <= 2 * (7 * brightness - 255 * gradient_index(brightness)) < 255,
        brightness == 0 ==> gradient_index(brightness) == 0,
        brightness == 255 ==> gradient_index(brightness) == 7,
{
    lemma_gradient_index_in_sevenths(brightness);
}

/// A brighter sample never gets a darker character.
pub proof fn lemma_gradient_index_monotonic(darker: u8, brighter: u8)
    requires
        darker <= brighter,
    ensures
        gradient_index(darker) <= gradient_index(brighter),
{
    lemma_gradient_index_in_sevenths(darker);
    lemma_gradient_index_in_sevenths(brighter);
}

/// The character that stands for `brightness`.
pub fn get_ascii_character(brightness: &u8) -> (symbol: char)
    ensures
        symbol == symbol_of(*brightness),
{
    let places: usize = CHARACTERS.len() - 1;
    let doubled: usize = 2 * (*brightness as usize) * places + 255;
    CHARACTERS[doubled / 510]
}

/// `String::push` appends the given character to the end of the string.
pub assume_specification[ String::push ](text: &mut String, symbol: char)
    ensures
        final(text)@ == old(text)@.push(symbol),
;

/// In a text whose rows are `width` characters and a line break, the
/// character in row `row` and column `column` stands at
/// `row * (width + 1) + column`.
proof fn lemma_text_position(row: int, column: int, width: int, rows: int)
    requires
        0 <= row < rows,
        0 <= column <= width,
    ensures
        0 <= row * (width + 1) + column < rows * (width + 1),
        (row * (width + 1) + column) / (width + 1) == row,
        (row * (width + 1) + column) % (width + 1) == column,
        (row + 1) * (width + 1) == row * (width + 1) + width + 1,
        0 <= row * width,
        row * width + width <= rows * width,
{
    assert(0 <= row * (width + 1) && row * (width + 1) + width + 1 <= rows * (width + 1) && (row
        + 1) * (width + 1) == row * (width + 1) + width + 1 && 0 <= row * width && row * width
        + width <= rows * width) by (nonlinear_arith)
        requires
            0 <= row < rows,
            0 <= width,
    ;
    lemma_fundamental_div_mod_converse(row * (width + 1) + column, width + 1, row, column);
}

/// The text of a grid that holds one byte for each of its `width` by
/// `height` cells has one line for each row: the characters of the row's
/// cells from left to right, then a line break.
pub proof fn lemma_rendered_grid(data: Seq<u8>, width: int, height: int)
    requires
        0 < width,
        0 <= height,
        data.len() == width * height,
    ensures
        rendered(data, width).len() == height * (width + 1),
        forall|row: int, column: int|
            #![trigger rendered(data, width)[row * (width + 1) + column]]
            0 <= row < height && 0 <= column < width ==> rendered(data, width)[row * (width + 1)
                + column] == symbol_of(data[row * width + column]),
        forall|row: int|
            #![trigger rendered(data, width)[row * (width + 1) + width]]
            0 <= row < height ==> rendered(data, width)[row * (width + 1) + width] == '\n',
{
    assert(width * height == height * width) by (nonlinear_arith);
    lemma_fundamental_div_mod_converse(data.len() as int, width, height, 0);
    assert forall|row: int, column: int| 0 <= row < height && 0 <= column <= width implies 0
        <= #[trigger] (row * (width + 1) + column) < height * (width + 1) && (row * (width + 1)
        + column) / (width + 1) == row && (row * (width + 1) + column) % (width + 1)
        == column by {
        lemma_text_position(row, column, width, height);
    }
}

impl ImageData {
    /// Renders a grid of brightness as text: one character for each cell and
    /// a line break after each row of `width` cells.
    pub fn render(&self) -> (text: String)
        ensures
            text@ == rendered(self.data@, self.width as int),
    {
        let mut text = String::new();
        if self.width == 0 {
            return text;
        }
        let width: usize = self.width;
        let rows: usize = self.data.len() / width;
        let ghost expected = rendered(self.data@, width as int);
        assert(rows * width <= self.data@.len()) by (nonlinear_arith)
            requires
                rows == self.data@.len() as int / (width as int),
                width > 0,
        ;
        let mut row: usize = 0;
        while row < rows
            invariant
                width == self.width,
                width > 0,
                rows == self.data@.len() as int / (width as int),
                rows * width <= self.data@.len() <= usize::MAX,
                row <= rows,
                expected == rendered(self.data@, width as int),
                text@.len() == row * (width + 1),
                forall|at: int| 0 <= at < text@.len() ==> text@[at] == expected[at],
            decreases rows - row,
        {
            proof {
                lemma_text_position(row as int, 0, width as int, rows as int);
            }
            let offset: usize = row * width;
            let mut column: usize = 0;
            while column < width
                invariant
                    width == self.width,
                    width > 0,
                    rows == self.data@.len() as int / (width as int),
                    rows * width <= self.data@.len() <= usize::MAX,
                    row < rows,
                    column <= width,
                    offset == row * width,
                    offset + width <= rows * width,
                    expected == rendered(self.data@, width as int),
                    text@.len() == row * (width + 1) + column,
                    forall|at: int| 0 <= at < text@.len() ==> text@[at] == expected[at],
                decreases width - column,
            {
                proof {
                    lemma_text_position(row as int, column as int, width as int, rows as int);
                }
                text.push(get_ascii_character(&self.data[offset + column]));
                column = column + 1;
            }
            proof {
                lemma_text_position(row as int, width as int, width as int, rows as int);
            }
            text.push('\n');
            row = row + 1;
        }
        assert(text@ =~= expected);
        text
    }
}

} // verus!
