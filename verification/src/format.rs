//! The layout of a hex view and its rendering, row by row.
use crate::byte_mapping::{as_char, glyph, CODEPAGE_0850};
use crate::color::{
    foreground, parsed_color, sort_by_start, sorted_by_start, stably_sorted, stdout_is_terminal,
    style_at, ColorRange, Colors, Spec,
};
use crate::sink::{plain, styled, Cell, ColorlessString, Sink, WriteFailed};
use std::ops::Range;
use vstd::prelude::*;
use vstd::slice::slice_subrange;

verus! {

/// The number of blank slots on each side of a row's bytes.
#[derive(Clone, Copy, Debug, PartialEq, Eq)]
pub struct Padding {
    pub left: usize,
    pub right: usize,
}

impl Padding {
    /// Padding on both sides.
    pub fn new(left_padding: usize, right_padding: usize) -> (padding: Padding)
        ensures
            padding.left == left_padding,
            padding.right == right_padding,
    {
        Padding { left: left_padding, right: right_padding }
    }

    /// Padding on the left only.
    pub fn from_left(left_padding: usize) -> (padding: Padding)
        ensures
            padding.left == left_padding,
            padding.right == 0,
    {
        Padding { left: left_padding, right: 0 }
    }

    /// Padding on the right only.
    pub fn from_right(right_padding: usize) -> (padding: Padding)
        ensures
            padding.left == 0,
            padding.right == right_padding,
    {
        Padding { left: 0, right: right_padding }
    }
}

impl Default for Padding {
    /// No padding.
    fn default() -> (padding: Padding)
        ensures
            padding.left == 0,
            padding.right == 0,
    {
        Padding { left: 0, right: 0 }
    }
}

/// The number of blank slots before the first byte: where in its row the
/// address offset falls.
pub open spec fn begin_padding(address_offset: int, row_width: int) -> int {
    address_offset % row_width
}

/// The number of blank slots that fill the last row after `data_size`
/// slots.
pub open spec fn end_padding(data_size: int, row_width: int) -> int {
    (row_width - data_size % row_width) % row_width
}

/// The number of blank slots before the first byte of a view.
pub fn calculate_begin_padding(address_offset: usize, row_width: usize) -> (padding: usize)
    requires
        row_width != 0,
    ensures
        padding == begin_padding(address_offset as int, row_width as int),
        padding < row_width,
        padding <= address_offset,
{
    proof {
        assert((address_offset as int) % (row_width as int) <= address_offset) by (nonlinear_arith)
            requires
                row_width > 0,
                address_offset >= 0,
        ;
    }
    address_offset % row_width
}

/// The number of blank slots after the last byte of a view whose blank
/// slots at the start and bytes are `data_size` together.
pub fn calculate_end_padding(data_size: usize, row_width: usize) -> (padding: usize)
    requires
        row_width != 0,
    ensures
        padding == end_padding(data_size as int, row_width as int),
        padding < row_width,
        (data_size + padding) % (row_width as int) == 0,
{
    proof {
        lemma_end_padding_fills(data_size as int, row_width as int);
    }
    (row_width - data_size % row_width) % row_width
}

/// Both paddings are less than the row width, and the end padding is what
/// is missing to a whole number of rows.
pub proof fn lemma_end_padding_fills(data_size: int, row_width: int)
    requires
        0 <= data_size,
        0 < row_width,
    ensures
        0 <= begin_padding(data_size, row_width) < row_width,
        0 <= end_padding(data_size, row_width) < row_width,
        (data_size + end_padding(data_size, row_width)) % row_width == 0,
        data_size % row_width == 0 ==> end_padding(data_size, row_width) == 0,
        data_size % row_width != 0 ==> end_padding(data_size, row_width) == row_width - data_size
            % row_width,
{
    let rest = data_size % row_width;
    if rest == 0 {
        assert((row_width - 0) % row_width == 0) by (nonlinear_arith)
            requires
                0 < row_width,
        ;
    } else {
        assert((row_width - rest) % row_width == row_width - rest) by (nonlinear_arith)
            requires
                0 < rest < row_width,
        ;
        assert((data_size + (row_width - rest)) % row_width == 0) by (nonlinear_arith)
            requires
                0 < row_width,
                rest == data_size % row_width,
                0 <= data_size,
        ;
    }
}

/// The sixteen hexadecimal digits, upper case.
pub open spec fn hex_digits() -> Seq<char> {
    seq!['0', '1', '2', '3', '4', '5', '6', '7', '8', '9', 'A', 'B', 'C', 'D', 'E', 'F']
}

/// A number in hexadecimal, upper case, most significant digit first, with
/// leading zeros up to `width` digits and never fewer than one digit.
pub open spec fn hex_text(value: nat, width: nat) -> Seq<char>
    decreases value, width,
{
    if value < 16 && width <= 1 {
        seq![hex_digits()[value as int]]
    } else {
        hex_text(value / 16, if width > 0 {
            (width - 1) as nat
        } else {
            0
        }).push(hex_digits()[(value % 16) as int])
    }
}

/// The hexadecimal digit for the low four bits of a number.
pub fn hex_char(value: u8) -> (digit: char)
    ensures
        digit == hex_digits()[value as int % 16],
{
    match value % 16 {
        0 => '0',
        1 => '1',
        2 => '2',
        3 => '3',
        4 => '4',
        5 => '5',
        6 => '6',
        7 => '7',
        8 => '8',
        9 => '9',
        10 => 'A',
        11 => 'B',
        12 => 'C',
        13 => 'D',
        14 => 'E',
        _ => 'F',
    }
}

/// `String::push` appends the character to the end of the string.
pub assume_specification[ String::push ](text: &mut String, ch: char)
    ensures
        final(text)@ == old(text)@.push(ch),
;

/// Appends a number in hexadecimal, with at least `width` digits.
pub fn push_hex(text: &mut String, value: u128, width: usize)
    ensures
        final(text)@ == old(text)@ + hex_text(value as nat, width as nat),
    decreases value, width,
{
    if value >= 16 || width > 1 {
        push_hex(
            text,
            value / 16,
            if width > 0 {
                width - 1
            } else {
                0
            },
        );
    }
    text.push(hex_char((value % 16) as u8));
}

/// The number of digits of a number in hexadecimal is the width asked for
/// at least, and exactly that where the number fits in so many digits.
pub proof fn lemma_hex_text_len(value: nat, width: nat)
    ensures
        hex_text(value, width).len() >= width,
        hex_text(value, width).len() >= 1,
        width >= 1 && value < vstd::arithmetic::power::pow(16, width) ==> hex_text(
            value,
            width,
        ).len() == width,
    decreases value, width,
{
    vstd::arithmetic::power::lemma_pow1(16);
    if value < 16 && width <= 1 {
    } else {
        let less = if width > 0 {
            (width - 1) as nat
        } else {
            0
        };
        lemma_hex_text_len(value / 16, less);
        if width >= 1 && value < vstd::arithmetic::power::pow(16, width) {
            if width == 1 {
            } else {
                vstd::arithmetic::power::lemma_pow_adds(16, 1, less);
                assert(vstd::arithmetic::power::pow(16, width) == 16 * vstd::arithmetic::power::pow(
                    16,
                    less,
                ));
                assert(value / 16 < vstd::arithmetic::power::pow(16, less)) by (nonlinear_arith)
                    requires
                        value < 16 * vstd::arithmetic::power::pow(16, less),
                ;
            }
        }
    }
}

/// A byte in hexadecimal has two digits: the high half, then the low half.
pub proof fn lemma_hex_text_of_byte(value: u8)
    ensures
        hex_text(value as nat, 2) == seq![
            hex_digits()[value as int / 16],
            hex_digits()[value as int % 16],
        ],
{
    let high = (value as nat) / 16;
    assert(high < 16);
    assert(hex_text(high, 1) == seq![hex_digits()[high as int]]);
    assert(hex_text(value as nat, 2) == hex_text(high, 1).push(
        hex_digits()[(value as nat % 16) as int],
    ));
    assert(seq![hex_digits()[high as int]].push(hex_digits()[(value as nat % 16) as int])
        =~= seq![hex_digits()[value as int / 16], hex_digits()[value as int % 16]]);
}

/// One position of a row: a byte with the style it is shown in, or a blank
/// that pads the row.
pub enum Slot {
    Blank,
    Byte { value: u8, style: Option<Spec> },
}

/// The slots of a row: `left` blanks, the bytes, `right` blanks. The byte
/// at place `i` of `bytes` has the style of data index `base + i`; a sink
/// that drops styles gets none.
pub open spec fn line_slots(
    left: nat,
    bytes: Seq<u8>,
    colors: Seq<(Spec, Range<usize>)>,
    base: int,
    right: nat,
    colorful: bool,
) -> Seq<Slot> {
    Seq::new(
        left + bytes.len() + right,
        |j: int|
            if left <= j < left + bytes.len() {
                Slot::Byte {
                    value: bytes[j - left],
                    style: if colorful {
                        style_at(colors, base + j - left)
                    } else {
                        None
                    },
                }
            } else {
                Slot::Blank
            },
    )
}

/// What stands before slot `at` of the hex column: nothing before the
/// first slot, one space before every other.
pub open spec fn separator(at: int) -> Seq<char> {
    if at == 0 {
        Seq::empty()
    } else {
        seq![' ']
    }
}

/// A slot in the hex column: two digits in the byte's style, or two spaces.
pub open spec fn hex_slot(slot: Slot) -> Seq<Cell> {
    match slot {
        Slot::Blank => styled(seq![' ', ' '], None),
        Slot::Byte { value, style } => styled(hex_text(value as nat, 2), style),
    }
}

/// A slot in the character column: the byte's glyph in the byte's style, or
/// one space.
pub open spec fn char_slot(slot: Slot, codepage: Seq<char>, fallback: char) -> Seq<Cell> {
    match slot {
        Slot::Blank => styled(seq![' '], None),
        Slot::Byte { value, style } => styled(seq![glyph(value, codepage, fallback)], style),
    }
}

/// The hex column of a row: its slots, separated by single spaces.
pub open spec fn hex_column(slots: Seq<Slot>) -> Seq<Cell>
    decreases slots.len(),
{
    if slots.len() == 0 {
        Seq::empty()
    } else {
        hex_column(slots.drop_last()) + styled(separator(slots.len() - 1), None) + hex_slot(
            slots.last(),
        )
    }
}

/// The character column of a row: its slots, one after the other.
pub open spec fn char_column(slots: Seq<Slot>, codepage: Seq<char>, fallback: char) -> Seq<Cell>
    decreases slots.len(),
{
    if slots.len() == 0 {
        Seq::empty()
    } else {
        char_column(slots.drop_last(), codepage, fallback) + char_slot(
            slots.last(),
            codepage,
            fallback,
        )
    }
}

/// A row: the address in at least eight hexadecimal digits, two spaces, the
/// hex column, two spaces, and the character column between `| ` and ` |`.
pub open spec fn line_cells(
    address: nat,
    slots: Seq<Slot>,
    codepage: Seq<char>,
    fallback: char,
) -> Seq<Cell> {
    styled(hex_text(address, 8), None) + styled(seq![' ', ' '], None) + hex_column(slots) + styled(
        seq![' ', ' '],
        None,
    ) + styled(seq!['|', ' '], None) + char_column(slots, codepage, fallback) + styled(
        seq![' ', '|'],
        None,
    )
}

/// The hex column grows slot by slot.
pub proof fn lemma_hex_column_step(slots: Seq<Slot>, done: int)
    requires
        0 <= done < slots.len(),
    ensures
        hex_column(slots.take(done + 1)) == hex_column(slots.take(done)) + styled(
            separator(done),
            None,
        ) + hex_slot(slots[done]),
{
    let upto = slots.take(done + 1);
    assert(upto.drop_last() =~= slots.take(done));
    assert(upto.last() == slots[done]);
}

/// The character column grows slot by slot.
pub proof fn lemma_char_column_step(
    slots: Seq<Slot>,
    codepage: Seq<char>,
    fallback: char,
    done: int,
)
    requires
        0 <= done < slots.len(),
    ensures
        char_column(slots.take(done + 1), codepage, fallback) == char_column(
            slots.take(done),
            codepage,
            fallback,
        ) + char_slot(slots[done], codepage, fallback),
{
    let upto = slots.take(done + 1);
    assert(upto.drop_last() =~= slots.take(done));
    assert(upto.last() == slots[done]);
}

/// What a view is made of, as plain mathematics: the data, and how it is to
/// be shown.
pub struct Config {
    /// The bytes to show.
    pub data: Seq<u8>,
    /// The address of the first byte.
    pub address_offset: nat,
    /// The number of slots in a row.
    pub row_width: nat,
    /// The table that gives each byte its glyph.
    pub codepage: Seq<char>,
    /// The glyph of a byte that the table has none for.
    pub replacement_character: char,
    /// The styled ranges of data indices, sorted by start.
    pub colors: Seq<(Spec, Range<usize>)>,
    /// Whether styles are wanted even where the output is no terminal.
    pub force_color: bool,
}

impl Config {
    /// The number of blank slots before the first byte.
    pub open spec fn left_padding(self) -> int {
        begin_padding(self.address_offset as int, self.row_width as int)
    }

    /// The number of slots up to the last byte: the blanks at the start and
    /// the bytes.
    pub open spec fn filled(self) -> int {
        self.left_padding() + self.data.len()
    }

    /// The number of blank slots after the last byte.
    pub open spec fn right_padding(self) -> int {
        end_padding(self.filled(), self.row_width as int)
    }

    /// The number of rows. There is always one: a view without bytes and
    /// without padding shows a row without slots.
    pub open spec fn row_count(self) -> int {
        if self.filled() <= self.row_width {
            1
        } else {
            (self.filled() + self.right_padding()) / (self.row_width as int)
        }
    }

    /// The number of blank slots at the start of a row: only the first row
    /// has any.
    pub open spec fn row_left(self, row: int) -> int {
        if row == 0 {
            self.left_padding()
        } else {
            0
        }
    }

    /// The number of blank slots at the end of a row: only the last row has
    /// any.
    pub open spec fn row_right(self, row: int) -> int {
        if row == self.row_count() - 1 {
            self.right_padding()
        } else {
            0
        }
    }

    /// The data index of a row's first byte.
    pub open spec fn row_start(self, row: int) -> int {
        if row == 0 {
            0
        } else {
            row * self.row_width - self.left_padding()
        }
    }

    /// The data index after a row's last byte.
    pub open spec fn row_end(self, row: int) -> int {
        if row == self.row_count() - 1 {
            self.data.len() as int
        } else {
            (row + 1) * self.row_width - self.left_padding()
        }
    }

    /// The address shown at the start of a row: that of its first slot.
    pub open spec fn row_address(self, row: int) -> int {
        self.address_offset - self.left_padding() + row * self.row_width
    }

    /// Whether a line break is written before a row: before every row but
    /// the first. The rows are joined by line breaks, and none stands
    /// before the first row or after the last.
    pub open spec fn break_before(self, row: int) -> bool {
        row > 0
    }

    /// The slots of a row.
    pub open spec fn row_slots(self, row: int, colorful: bool) -> Seq<Slot> {
        line_slots(
            self.row_left(row) as nat,
            self.data.subrange(self.row_start(row), self.row_end(row)),
            self.colors,
            self.row_start(row),
            self.row_right(row) as nat,
            colorful,
        )
    }

    /// A row as it is written, with the line break before it if it has one.
    pub open spec fn row_cells(self, row: int, colorful: bool) -> Seq<Cell> {
        (if self.break_before(row) {
            styled(seq!['\n'], None)
        } else {
            Seq::empty()
        }) + line_cells(
            self.row_address(row) as nat,
            self.row_slots(row, colorful),
            self.codepage,
            self.replacement_character,
        )
    }

    /// The first `rows` rows as they are written.
    pub open spec fn cells_upto(self, rows: int, colorful: bool) -> Seq<Cell>
        decreases rows,
    {
        if rows <= 0 {
            Seq::empty()
        } else {
            self.cells_upto(rows - 1, colorful) + self.row_cells(rows - 1, colorful)
        }
    }

    /// The whole view as it is written to a sink that keeps styles
    /// (`colorful`) or to one that drops them.
    pub open spec fn cells(self, colorful: bool) -> Seq<Cell> {
        self.cells_upto(self.row_count(), colorful)
    }

    /// The whole view as plain text.
    pub open spec fn text(self) -> Seq<char> {
        plain(self.cells(false))
    }
}

/// The rows tile the slots: both paddings are less than the row width, and
/// unless the view has no slot at all, blanks and bytes together are the
/// row count times the row width.
pub proof fn lemma_rows_fill(cfg: Config)
    requires
        cfg.row_width > 0,
    ensures
        0 <= cfg.left_padding() < cfg.row_width,
        0 <= cfg.right_padding() < cfg.row_width,
        cfg.left_padding() <= cfg.address_offset,
        cfg.row_count() >= 1,
        cfg.filled() == 0 ==> cfg.right_padding() == 0,
        cfg.filled() > 0 ==> cfg.row_count() * cfg.row_width == cfg.filled() + cfg.right_padding(),
        cfg.filled() > cfg.row_width ==> cfg.row_count() >= 2,
        cfg.filled() % (cfg.row_width as int) == 0 <==> cfg.right_padding() == 0,
{
    let width = cfg.row_width as int;
    let filled = cfg.filled();
    let right = cfg.right_padding();
    assert(0 <= cfg.left_padding() < width && cfg.left_padding() <= cfg.address_offset)
        by (nonlinear_arith)
        requires
            cfg.left_padding() == (cfg.address_offset as int) % width,
            width > 0,
    ;
    lemma_end_padding_fills(filled, width);
    let total = filled + right;
    assert(total == width * (total / width) + total % width) by (nonlinear_arith)
        requires
            width > 0,
    ;
    if filled <= width {
        if 0 < filled < width {
            assert(filled % width == filled) by (nonlinear_arith)
                requires
                    0 < filled < width,
            ;
        } else if filled == width {
            assert(filled % width == 0) by (nonlinear_arith)
                requires
                    filled == width,
                    width > 0,
            ;
        } else {
            assert(filled % width == 0) by (nonlinear_arith)
                requires
                    filled == 0,
                    width > 0,
            ;
        }
    } else {
        assert(total / width >= 2) by (nonlinear_arith)
            requires
                total == width * (total / width),
                total > width,
                width > 0,
        ;
        assert(cfg.row_count() * width == total) by (nonlinear_arith)
            requires
                total == width * (total / width),
                cfg.row_count() == total / width,
        ;
    }
}

/// A view whose blanks and bytes fit in one row has that one row, with both
/// paddings and no line break.
pub proof fn lemma_single_row(cfg: Config)
    requires
        cfg.row_width > 0,
        cfg.filled() <= cfg.row_width,
    ensures
        cfg.row_count() == 1,
        cfg.row_left(0) == cfg.left_padding(),
        cfg.row_right(0) == cfg.right_padding(),
        cfg.row_start(0) == 0,
        cfg.row_end(0) == cfg.data.len(),
        cfg.row_address(0) == cfg.address_offset - cfg.left_padding(),
        !cfg.break_before(0),
{
    assert(0 * (cfg.row_width as int) == 0) by (nonlinear_arith);
}

/// In a view of several rows that starts with blanks, the first row holds
/// the blanks and as many bytes as fill the row, and has no line break.
pub proof fn lemma_first_row(cfg: Config)
    requires
        cfg.row_width > 0,
        cfg.filled() > cfg.row_width,
        cfg.left_padding() != 0,
    ensures
        cfg.row_count() >= 2,
        cfg.row_left(0) == cfg.left_padding(),
        cfg.row_right(0) == 0,
        cfg.row_start(0) == 0,
        cfg.row_end(0) == cfg.row_width - cfg.left_padding(),
        cfg.row_end(0) <= cfg.data.len(),
        cfg.row_address(0) == cfg.address_offset - cfg.left_padding(),
        !cfg.break_before(0),
{
    lemma_rows_fill(cfg);
    assert(0 * (cfg.row_width as int) == 0) by (nonlinear_arith);
    assert((0 + 1) * (cfg.row_width as int) == cfg.row_width) by (nonlinear_arith);
}

/// In a view of several rows, a row that starts at data index `offset` and
/// has a full row of bytes left holds just those bytes. A line break
/// stands before it unless it is the first row.
pub proof fn lemma_full_row(cfg: Config, row: int, offset: int)
    requires
        cfg.row_width > 0,
        cfg.filled() > cfg.row_width,
        0 <= row,
        row > 0 || cfg.left_padding() == 0,
        offset + cfg.left_padding() == row * cfg.row_width,
        offset + cfg.row_width <= cfg.data.len(),
    ensures
        row < cfg.row_count(),
        cfg.row_left(row) == 0,
        cfg.row_right(row) == 0,
        cfg.row_start(row) == offset,
        cfg.row_end(row) == offset + cfg.row_width,
        cfg.row_address(row) == cfg.address_offset + offset,
        cfg.break_before(row) == (row > 0),
        offset + cfg.row_width + cfg.left_padding() == (row + 1) * cfg.row_width,
{
    lemma_rows_fill(cfg);
    let width = cfg.row_width as int;
    let rows = cfg.row_count();
    assert((row + 1) * width == row * width + width) by (nonlinear_arith);
    assert(row + 1 <= rows) by (nonlinear_arith)
        requires
            (row + 1) * width <= rows * width,
            width > 0,
    ;
    if row + 1 == rows {
        assert(cfg.right_padding() == 0);
    }
}

/// In a view of several rows, once less than a full row of bytes is left
/// from data index `offset` on: if the view ends in blanks, one more row
/// holds the bytes that are left and the blanks, after a line break;
/// otherwise all rows are written.
pub proof fn lemma_last_row(cfg: Config, row: int, offset: int)
    requires
        cfg.row_width > 0,
        cfg.filled() > cfg.row_width,
        0 <= row,
        row > 0 || cfg.left_padding() == 0,
        offset + cfg.left_padding() == row * cfg.row_width,
        offset <= cfg.data.len(),
        cfg.data.len() - offset < cfg.row_width,
    ensures
        cfg.right_padding() == 0 ==> row == cfg.row_count(),
        cfg.right_padding() != 0 ==> {
            &&& row == cfg.row_count() - 1
            &&& cfg.row_left(row) == 0
            &&& cfg.row_right(row) == cfg.right_padding()
            &&& cfg.row_start(row) == offset
            &&& cfg.row_end(row) == cfg.data.len()
            &&& cfg.row_address(row) == cfg.address_offset + offset
            &&& cfg.break_before(row) == (row > 0)
            &&& row > 0
        },
{
    lemma_rows_fill(cfg);
    let width = cfg.row_width as int;
    let rows = cfg.row_count();
    assert((row + 1) * width == row * width + width) by (nonlinear_arith);
    assert((row + 2) * width == row * width + 2 * width) by (nonlinear_arith);
    if cfg.right_padding() == 0 {
        assert(rows < row + 1) by (nonlinear_arith)
            requires
                rows * width < (row + 1) * width,
                width > 0,
        ;
        assert(row <= rows) by (nonlinear_arith)
            requires
                row * width <= rows * width,
                width > 0,
        ;
    } else {
        assert(rows < row + 2) by (nonlinear_arith)
            requires
                rows * width < (row + 2) * width,
                width > 0,
        ;
        assert(row < rows) by (nonlinear_arith)
            requires
                row * width < rows * width,
                width > 0,
        ;
    }
}

/// Writing one more row after the first `row` rows gives the first
/// `row + 1` rows, whatever stood in the sink before.
pub proof fn lemma_rows_written(cfg: Config, before: Seq<Cell>, row: int, colorful: bool)
    requires
        0 <= row,
    ensures
        before + cfg.cells_upto(row, colorful) + cfg.row_cells(row, colorful) == before
            + cfg.cells_upto(row + 1, colorful),
{
    assert(before + cfg.cells_upto(row, colorful) + cfg.row_cells(row, colorful) =~= before + (
    cfg.cells_upto(row, colorful) + cfg.row_cells(row, colorful)));
}

/// The rows written grow by one row at a time.
pub proof fn lemma_cells_upto_step(cfg: Config, row: int, colorful: bool)
    requires
        0 <= row,
    ensures
        cfg.cells_upto(row + 1, colorful) == cfg.cells_upto(row, colorful) + cfg.row_cells(
            row,
            colorful,
        ),
        cfg.cells_upto(0, colorful) == Seq::<Cell>::empty(),
{
}

/// What is written in place of a view whose row width is zero.
pub open spec fn invalid_width_text() -> Seq<char> {
    "Invalid HexView::width"@
}

/// Why a view was not rendered.
#[derive(Clone, Copy, Debug, PartialEq, Eq)]
pub enum RenderError {
    /// The row width is zero.
    InvalidConfiguration,
    /// The sink did not take what was written to it.
    SinkWriteFailure,
}

/// Turns a sink's failure into the reason why rendering stopped.
pub fn sunk(written: Result<(), WriteFailed>) -> (done: Result<(), RenderError>)
    ensures
        written is Ok ==> done is Ok,
        written is Err ==> done == Err::<(), RenderError>(RenderError::SinkWriteFailure),
{
    match written {
        Ok(()) => Ok(()),
        Err(_) => Err(RenderError::SinkWriteFailure),
    }
}

/// The configuration of how to display the data.
pub struct HexView<'a> {
    address_offset: usize,
    codepage: &'a [char],
    data: &'a [u8],
    replacement_character: char,
    row_width: usize,
    colors: Colors,
    force_color: bool,
}

impl<'a> View for HexView<'a> {
    type V = Config;

    closed spec fn view(&self) -> Config {
        Config {
            data: self.data@,
            address_offset: self.address_offset as nat,
            row_width: self.row_width as nat,
            codepage: self.codepage@,
            replacement_character: self.replacement_character,
            colors: self.colors@,
            force_color: self.force_color,
        }
    }
}

impl<'a> HexView<'a> {
    #[verifier::type_invariant]
    spec fn colors_are_sorted(self) -> bool {
        sorted_by_start(self.colors@)
    }

    /// Constructs a new view for the given data without offset and using
    /// codepage 850, a row width of 16 and `.` as replacement character.
    pub fn new(data: &'a [u8]) -> (view: HexView<'a>)
        ensures
            view@ == (Config {
                data: data@,
                address_offset: 0,
                row_width: 16,
                codepage: CODEPAGE_0850@,
                replacement_character: '.',
                colors: Seq::empty(),
                force_color: false,
            }),
    {
        HexView {
            address_offset: 0,
            codepage: &CODEPAGE_0850,
            data: data,
            replacement_character: '.',
            row_width: 16,
            colors: Colors::new(),
            force_color: false,
        }
    }

    /// Writes the hex column of one row: the bytes in hexadecimal between
    /// the row's blanks. The cursor says which bytes are styled; it must
    /// stand at the row's first byte.
    pub fn fmt_bytes_as_hex<W: Sink>(
        f: &mut W,
        bytes: &[u8],
        color_range: &mut ColorRange,
        padding: &Padding,
    ) -> (done: Result<(), WriteFailed>)
        requires
            old(color_range).wf(),
        ensures
            final(color_range).wf(),
            final(color_range).ranges() == old(color_range).ranges(),
            final(color_range).base() == old(color_range).base(),
            final(f).keeps_color() == old(f).keeps_color(),
            final(f).reliable() == old(f).reliable(),
            old(f).reliable() ==> done is Ok,
            done is Ok ==> final(f).cells() == old(f).cells() + hex_column(
                line_slots(
                    padding.left as nat,
                    bytes@,
                    old(color_range).ranges(),
                    old(color_range).base(),
                    padding.right as nat,
                    old(f).keeps_color(),
                ),
            ),
    {
        let ghost slots = line_slots(
            padding.left as nat,
            bytes@,
            color_range.ranges(),
            color_range.base(),
            padding.right as nat,
            f.keeps_color(),
        );
        let ghost before = f.cells();
        let mut separator: &str = "";
        proof {
            reveal_strlit("");
            reveal_strlit(" ");
            reveal_strlit("  ");
            assert(slots.take(0) =~= Seq::empty());
            assert(before + hex_column(slots.take(0)) =~= before);
        }
        let mut blank: usize = 0;
        while blank < padding.left
            invariant
                blank <= padding.left,
                separator@ == self::separator(blank as int),
                color_range.wf(),
                color_range.ranges() == old(color_range).ranges(),
                color_range.base() == old(color_range).base(),
                f.keeps_color() == old(f).keeps_color(),
                f.reliable() == old(f).reliable(),
                f.cells() == before + hex_column(slots.take(blank as int)),
                slots.len() == padding.left + bytes@.len() + padding.right,
                forall|j: int| 0 <= j < padding.left ==> slots[j] == Slot::Blank,
            decreases padding.left - blank,
        {
            f.write_str(separator)?;
            f.write_str("  ")?;
            proof {
                reveal_strlit(" ");
                reveal_strlit("  ");
                lemma_hex_column_step(slots, blank as int);
                assert("  "@ =~= seq![' ', ' ']);
                assert(f.cells() =~= before + (hex_column(slots.take(blank as int)) + styled(
                    self::separator(blank as int),
                    None,
                ) + hex_slot(slots[blank as int])));
            }
            separator = " ";
            blank += 1;
        }
        let mut i: usize = 0;
        while i < bytes.len()
            invariant
                i <= bytes@.len(),
                separator@ == self::separator(padding.left + i),
                color_range.wf(),
                color_range.ranges() == old(color_range).ranges(),
                color_range.base() == old(color_range).base(),
                f.keeps_color() == old(f).keeps_color(),
                f.reliable() == old(f).reliable(),
                f.cells() == before + hex_column(slots.take(padding.left + i)),
                slots == line_slots(
                    padding.left as nat,
                    bytes@,
                    old(color_range).ranges(),
                    old(color_range).base(),
                    padding.right as nat,
                    old(f).keeps_color(),
                ),
            decreases bytes@.len() - i,
        {
            let mut digits = String::new();
            push_hex(&mut digits, bytes[i] as u128, 2);
            let style = color_range.get(i);
            f.write_str(separator)?;
            match style {
                Some(rgb) => {
                    f.write_colored(rgb, digits.as_str())?;
                },
                None => {
                    f.write_str(digits.as_str())?;
                },
            }
            proof {
                reveal_strlit(" ");
                lemma_hex_column_step(slots, padding.left + i);
                assert(digits@ =~= hex_text(bytes@[i as int] as nat, 2));
                assert(f.cells() =~= before + (hex_column(slots.take(padding.left + i)) + styled(
                    self::separator(padding.left + i),
                    None,
                ) + hex_slot(slots[padding.left + i])));
            }
            separator = " ";
            i += 1;
        }
        let ghost filled = padding.left + bytes@.len();
        let mut blank: usize = 0;
        while blank < padding.right
            invariant
                blank <= padding.right,
                filled == padding.left + bytes@.len(),
                separator@ == self::separator(filled + blank),
                color_range.wf(),
                color_range.ranges() == old(color_range).ranges(),
                color_range.base() == old(color_range).base(),
                f.keeps_color() == old(f).keeps_color(),
                f.reliable() == old(f).reliable(),
                f.cells() == before + hex_column(slots.take(filled + blank)),
                slots.len() == filled + padding.right,
                forall|j: int| filled <= j < slots.len() ==> slots[j] == Slot::Blank,
            decreases padding.right - blank,
        {
            f.write_str(separator)?;
            f.write_str("  ")?;
            proof {
                reveal_strlit(" ");
                reveal_strlit("  ");
                lemma_hex_column_step(slots, filled + blank);
                assert("  "@ =~= seq![' ', ' ']);
                assert(f.cells() =~= before + (hex_column(slots.take(filled + blank)) + styled(
                    self::separator(filled + blank),
                    None,
                ) + hex_slot(slots[filled + blank])));
            }
            separator = " ";
            blank += 1;
        }
        proof {
            assert(slots.take(slots.len() as int) =~= slots);
        }
        Ok(())
    }

    /// Writes the character column of one row: each byte as its glyph under
    /// the codepage, between the row's blanks. The cursor says which bytes
    /// are styled; it must stand at the row's first byte.
    pub fn fmt_bytes_as_char<W: Sink>(
        f: &mut W,
        cp: &[char],
        repl_char: char,
        bytes: &[u8],
        color_range: &mut ColorRange,
        padding: &Padding,
    ) -> (done: Result<(), WriteFailed>)
        requires
            old(color_range).wf(),
        ensures
            final(color_range).wf(),
            final(color_range).ranges() == old(color_range).ranges(),
            final(color_range).base() == old(color_range).base(),
            final(f).keeps_color() == old(f).keeps_color(),
            final(f).reliable() == old(f).reliable(),
            old(f).reliable() ==> done is Ok,
            done is Ok ==> final(f).cells() == old(f).cells() + char_column(
                line_slots(
                    padding.left as nat,
                    bytes@,
                    old(color_range).ranges(),
                    old(color_range).base(),
                    padding.right as nat,
                    old(f).keeps_color(),
                ),
                cp@,
                repl_char,
            ),
    {
        let ghost slots = line_slots(
            padding.left as nat,
            bytes@,
            color_range.ranges(),
            color_range.base(),
            padding.right as nat,
            f.keeps_color(),
        );
        let ghost before = f.cells();
        proof {
            assert(slots.take(0) =~= Seq::empty());
            assert(before + char_column(slots.take(0), cp@, repl_char) =~= before);
        }
        let mut blank: usize = 0;
        while blank < padding.left
            invariant
                blank <= padding.left,
                color_range.wf(),
                color_range.ranges() == old(color_range).ranges(),
                color_range.base() == old(color_range).base(),
                f.keeps_color() == old(f).keeps_color(),
                f.reliable() == old(f).reliable(),
                f.cells() == before + char_column(slots.take(blank as int), cp@, repl_char),
                slots.len() == padding.left + bytes@.len() + padding.right,
                forall|j: int| 0 <= j < padding.left ==> slots[j] == Slot::Blank,
            decreases padding.left - blank,
        {
            f.write_str(" ")?;
            proof {
                reveal_strlit(" ");
                lemma_char_column_step(slots, cp@, repl_char, blank as int);
                assert(" "@ =~= seq![' ']);
                assert(f.cells() =~= before + (char_column(
                    slots.take(blank as int),
                    cp@,
                    repl_char,
                ) + char_slot(slots[blank as int], cp@, repl_char)));
            }
            blank += 1;
        }
        let mut i: usize = 0;
        while i < bytes.len()
            invariant
                i <= bytes@.len(),
                color_range.wf(),
                color_range.ranges() == old(color_range).ranges(),
                color_range.base() == old(color_range).base(),
                f.keeps_color() == old(f).keeps_color(),
                f.reliable() == old(f).reliable(),
                f.cells() == before + char_column(slots.take(padding.left + i), cp@, repl_char),
                slots == line_slots(
                    padding.left as nat,
                    bytes@,
                    old(color_range).ranges(),
                    old(color_range).base(),
                    padding.right as nat,
                    old(f).keeps_color(),
                ),
            decreases bytes@.len() - i,
        {
            let mut shown = String::new();
            shown.push(as_char(bytes[i], cp, repl_char));
            match color_range.get(i) {
                Some(rgb) => {
                    f.write_colored(rgb, shown.as_str())?;
                },
                None => {
                    f.write_str(shown.as_str())?;
                },
            }
            proof {
                lemma_char_column_step(slots, cp@, repl_char, padding.left + i);
                assert(shown@ =~= seq![glyph(bytes@[i as int], cp@, repl_char)]);
                assert(f.cells() =~= before + (char_column(
                    slots.take(padding.left + i),
                    cp@,
                    repl_char,
                ) + char_slot(slots[padding.left + i], cp@, repl_char)));
            }
            i += 1;
        }
        let ghost filled = padding.left + bytes@.len();
        let mut blank: usize = 0;
        while blank < padding.right
            invariant
                blank <= padding.right,
                filled == padding.left + bytes@.len(),
                color_range.wf(),
                color_range.ranges() == old(color_range).ranges(),
                color_range.base() == old(color_range).base(),
                f.keeps_color() == old(f).keeps_color(),
                f.reliable() == old(f).reliable(),
                f.cells() == before + char_column(slots.take(filled + blank), cp@, repl_char),
                slots.len() == filled + padding.right,
                forall|j: int| filled <= j < slots.len() ==> slots[j] == Slot::Blank,
            decreases padding.right - blank,
        {
            f.write_str(" ")?;
            proof {
                reveal_strlit(" ");
                lemma_char_column_step(slots, cp@, repl_char, filled + blank);
                assert(" "@ =~= seq![' ']);
                assert(f.cells() =~= before + (char_column(
                    slots.take(filled + blank),
                    cp@,
                    repl_char,
                ) + char_slot(slots[filled + blank], cp@, repl_char)));
            }
            blank += 1;
        }
        proof {
            assert(slots.take(slots.len() as int) =~= slots);
        }
        Ok(())
    }

    /// Writes one row: the address, the hex column and the character
    /// column. The cursor must stand at the row's first byte.
    pub fn fmt_line<W: Sink>(
        f: &mut W,
        address: u128,
        cp: &[char],
        repl_char: char,
        bytes: &[u8],
        color_range: &mut ColorRange,
        padding: &Padding,
    ) -> (done: Result<(), WriteFailed>)
        requires
            old(color_range).wf(),
        ensures
            final(color_range).wf(),
            final(color_range).ranges() == old(color_range).ranges(),
            final(color_range).base() == old(color_range).base(),
            final(f).keeps_color() == old(f).keeps_color(),
            final(f).reliable() == old(f).reliable(),
            old(f).reliable() ==> done is Ok,
            done is Ok ==> final(f).cells() == old(f).cells() + line_cells(
                address as nat,
                line_slots(
                    padding.left as nat,
                    bytes@,
                    old(color_range).ranges(),
                    old(color_range).base(),
                    padding.right as nat,
                    old(f).keeps_color(),
                ),
                cp@,
                repl_char,
            ),
    {
        let ghost slots = line_slots(
            padding.left as nat,
            bytes@,
            color_range.ranges(),
            color_range.base(),
            padding.right as nat,
            f.keeps_color(),
        );
        let ghost before = f.cells();
        proof {
            reveal_strlit("  ");
            reveal_strlit("| ");
            reveal_strlit(" |");
            assert("  "@ =~= seq![' ', ' ']);
            assert("| "@ =~= seq!['|', ' ']);
            assert(" |"@ =~= seq![' ', '|']);
        }
        let mut digits = String::new();
        push_hex(&mut digits, address, 8);
        f.write_str(digits.as_str())?;

        let mut cr = color_range.clone();
        f.write_str("  ")?;
        Self::fmt_bytes_as_hex(f, bytes, color_range, padding)?;
        f.write_str("  ")?;

        f.write_str("| ")?;
        Self::fmt_bytes_as_char(f, cp, repl_char, bytes, &mut cr, padding)?;
        f.write_str(" |")?;
        proof {
            assert(digits@ =~= hex_text(address as nat, 8));
            assert(f.cells() =~= before + line_cells(address as nat, slots, cp@, repl_char));
        }
        Ok(())
    }

    /// Renders the view into the sink, row by row.
    ///
    /// A row width of zero is refused: a note is written in place of the
    /// view, and the error is returned. Otherwise the rows are written one
    /// after the other, with a line break between one row and the next, and
    /// rendering stops at the first write that the sink does not take.
    pub fn fmt<W: Sink>(&self, buffer: &mut W) -> (done: Result<(), RenderError>)
        ensures
            final(buffer).keeps_color() == old(buffer).keeps_color(),
            final(buffer).reliable() == old(buffer).reliable(),
            self@.row_width == 0 <==> done == Err::<(), RenderError>(
                RenderError::InvalidConfiguration,
            ),
            self@.row_width == 0 && old(buffer).reliable() ==> final(buffer).cells() == old(
                buffer,
            ).cells() + styled(invalid_width_text(), None),
            self@.row_width > 0 && old(buffer).reliable() ==> done is Ok,
            done is Ok ==> final(buffer).cells() == old(buffer).cells() + self@.cells(
                old(buffer).keeps_color(),
            ),
    {
        if self.row_width == 0 {
            let _ = buffer.write_str("Invalid HexView::width");
            return Err(RenderError::InvalidConfiguration);
        }
        let ghost cfg = self@;
        let ghost colorful = buffer.keeps_color();
        let ghost before = buffer.cells();
        let width = self.row_width;
        let len = self.data.len();
        let begin_padding = calculate_begin_padding(self.address_offset, width);
        let end_padding = Self::end_padding_after(begin_padding, len, width);
        let mut address: u128 = (self.address_offset - begin_padding) as u128;
        let mut offset: usize = 0;
        proof {
            use_type_invariant(self);
            lemma_cells_upto_step(cfg, 0, colorful);
            assert(before + cfg.cells_upto(0, colorful) =~= before);
        }
        let mut color_range = ColorRange::new(&self.colors);

        if len <= width - begin_padding {
            proof {
                lemma_single_row(cfg);
            }
            self.fmt_row(
                buffer,
                Ghost(0),
                false,
                address,
                0,
                len,
                &mut color_range,
                &Padding::new(begin_padding, end_padding),
            )?;
            proof {
                lemma_rows_written(cfg, before, 0, colorful);
            }
            return Ok(());
        }
        let ghost mut row: int = 0;
        let mut line_break = false;

        if begin_padding != 0 {
            proof {
                lemma_first_row(cfg);
            }
            self.fmt_row(
                buffer,
                Ghost(0),
                false,
                address,
                0,
                width - begin_padding,
                &mut color_range,
                &Padding::from_left(begin_padding),
            )?;
            offset = offset + (width - begin_padding);
            address = address + (width as u128);
            line_break = true;
            proof {
                lemma_rows_written(cfg, before, 0, colorful);
                row = 1;
                assert(1 * (width as int) == width) by (nonlinear_arith);
            }
        }
        proof {
            assert(0 * (width as int) == 0) by (nonlinear_arith);
        }
        while len - offset >= width
            invariant
                cfg == self@,
                width == self.row_width,
                len == self.data@.len(),
                width > 0,
                cfg.filled() > cfg.row_width,
                begin_padding == cfg.left_padding(),
                0 <= row,
                row > 0 || begin_padding == 0,
                line_break == (row > 0),
                offset <= len,
                offset + begin_padding == row * width,
                address == cfg.address_offset + offset,
                color_range.wf(),
                color_range.ranges() == cfg.colors,
                colorful == old(buffer).keeps_color(),
                buffer.keeps_color() == colorful,
                buffer.reliable() == old(buffer).reliable(),
                buffer.cells() == before + cfg.cells_upto(row, colorful),
            decreases len - offset,
        {
            proof {
                lemma_full_row(cfg, row, offset as int);
            }
            self.fmt_row(
                buffer,
                Ghost(row),
                line_break,
                address,
                offset,
                offset + width,
                &mut color_range,
                &Padding::default(),
            )?;
            proof {
                lemma_rows_written(cfg, before, row, colorful);
                row = row + 1;
            }
            offset = offset + width;
            address = address + (width as u128);
            line_break = true;
        }

        proof {
            lemma_last_row(cfg, row, offset as int);
        }
        if end_padding != 0 {
            self.fmt_row(
                buffer,
                Ghost(row),
                true,
                address,
                offset,
                len,
                &mut color_range,
                &Padding::from_right(end_padding),
            )?;
            proof {
                lemma_rows_written(cfg, before, row, colorful);
            }
        }
        Ok(())
    }

    /// Writes row `row` of the view after the rows before it: a line break
    /// where the row has one, then the row.
    fn fmt_row<W: Sink>(
        &self,
        buffer: &mut W,
        Ghost(row): Ghost<int>,
        line_break: bool,
        address: u128,
        start: usize,
        end: usize,
        color_range: &mut ColorRange,
        padding: &Padding,
    ) -> (done: Result<(), RenderError>)
        requires
            old(color_range).wf(),
            old(color_range).ranges() == self@.colors,
            0 <= row,
            start <= end <= self@.data.len(),
            self@.row_start(row) == start,
            self@.row_end(row) == end,
            self@.row_left(row) == padding.left,
            self@.row_right(row) == padding.right,
            self@.row_address(row) == address,
            self@.break_before(row) == line_break,
        ensures
            final(color_range).wf(),
            final(color_range).ranges() == old(color_range).ranges(),
            final(buffer).keeps_color() == old(buffer).keeps_color(),
            final(buffer).reliable() == old(buffer).reliable(),
            old(buffer).reliable() ==> done is Ok,
            done is Err ==> done == Err::<(), RenderError>(RenderError::SinkWriteFailure),
            done is Ok ==> final(buffer).cells() == old(buffer).cells() + self@.row_cells(
                row,
                old(buffer).keeps_color(),
            ),
    {
        let ghost cfg = self@;
        let ghost colorful = buffer.keeps_color();
        let ghost sofar = buffer.cells();
        let slice = slice_subrange(self.data, start, end);
        color_range.update_offset(start);
        if line_break {
            sunk(buffer.write_str("\n"))?;
        }
        sunk(
            Self::fmt_line(
                buffer,
                address,
                self.codepage,
                self.replacement_character,
                slice,
                color_range,
                padding,
            ),
        )?;
        proof {
            reveal_strlit("\n");
            assert("\n"@ =~= seq!['\n']);
            assert(buffer.cells() =~= sofar + cfg.row_cells(row, colorful));
        }
        Ok(())
    }

    /// The number of blank slots after the last byte, given the number of
    /// blank slots before the first and the number of bytes.
    fn end_padding_after(begin_padding: usize, len: usize, row_width: usize) -> (padding: usize)
        requires
            begin_padding < row_width,
        ensures
            padding == end_padding(begin_padding + len, row_width as int),
            padding < row_width,
    {
        let rest = len % row_width;
        let rest = if rest >= row_width - begin_padding {
            rest - (row_width - begin_padding)
        } else {
            begin_padding + rest
        };
        proof {
            assert(rest == (begin_padding + len) % (row_width as int)) by (nonlinear_arith)
                requires
                    row_width > 0,
                    0 <= begin_padding < row_width,
                    rest == if len % row_width >= row_width - begin_padding {
                        len % row_width - (row_width - begin_padding)
                    } else {
                        begin_padding + len % row_width
                    },
            ;
            assert((rest as int) % (row_width as int) == rest) by (nonlinear_arith)
                requires
                    rest == (begin_padding + len) % (row_width as int),
                    row_width > 0,
            ;
        }
        calculate_end_padding(rest, row_width)
    }

    /// The view as plain text: the rows, joined by line breaks, without any
    /// style.
    pub fn to_string(&self) -> (text: String)
        requires
            self@.row_width > 0,
        ensures
            text@ == self@.text(),
    {
        let mut plain_text = ColorlessString(String::new());
        let _ = self.fmt(&mut plain_text);
        proof {
            assert(styled(plain_text.0@, None) =~= self@.cells(false));
            assert(plain(styled(plain_text.0@, None)) =~= plain_text.0@);
        }
        plain_text.0
    }

    /// Whether the view is to be printed with its styles, given whether the
    /// output is a terminal: when it is one, or when color is forced.
    pub fn use_color(&self, is_terminal: bool) -> (colored: bool)
        ensures
            colored == (self@.force_color || is_terminal),
    {
        self.force_color || is_terminal
    }

    /// Whether the view is to be printed to standard output with its
    /// styles: when color is forced, or else when the system says that
    /// standard output is a terminal.
    pub fn detect_color(&self) -> (colored: bool)
        ensures
            self@.force_color ==> colored,
    {
        if self.force_color {
            true
        } else {
            self.use_color(stdout_is_terminal())
        }
    }

    /// The address of the first byte.
    pub fn address_offset(&self) -> (offset: usize)
        ensures
            offset == self@.address_offset,
    {
        self.address_offset
    }

    /// The number of slots in a row.
    pub fn row_width(&self) -> (width: usize)
        ensures
            width == self@.row_width,
    {
        self.row_width
    }

    /// The bytes that the view shows.
    pub fn data(&self) -> (data: &'a [u8])
        ensures
            data@ == self@.data,
    {
        self.data
    }

    /// The table that gives each byte its glyph.
    pub fn codepage(&self) -> (codepage: &'a [char])
        ensures
            codepage@ == self@.codepage,
    {
        self.codepage
    }

    /// The glyph of a byte that the codepage has none for.
    pub fn replacement_character(&self) -> (ch: char)
        ensures
            ch == self@.replacement_character,
    {
        self.replacement_character
    }

    /// The styled ranges, sorted by start.
    pub fn colors(&self) -> (colors: &Colors)
        ensures
            colors@ == self@.colors,
            sorted_by_start(colors@),
    {
        proof {
            use_type_invariant(self);
        }
        &self.colors
    }

    /// Whether styles are wanted even where the output is no terminal.
    pub fn force_color(&self) -> (forced: bool)
        ensures
            forced == self@.force_color,
    {
        self.force_color
    }
}

/// A builder for a [`HexView`].
pub struct HexViewBuilder<'a> {
    address_offset: usize,
    codepage: &'a [char],
    data: &'a [u8],
    replacement_character: char,
    row_width: usize,
    colors: Colors,
    force_color: bool,
}

impl<'a> View for HexViewBuilder<'a> {
    type V = Config;

    /// The configuration under construction. Its color ranges stand in the
    /// order in which they were added.
    closed spec fn view(&self) -> Config {
        Config {
            data: self.data@,
            address_offset: self.address_offset as nat,
            row_width: self.row_width as nat,
            codepage: self.codepage@,
            replacement_character: self.replacement_character,
            colors: self.colors@,
            force_color: self.force_color,
        }
    }
}

impl<'a> HexViewBuilder<'a> {
    /// Constructs a new builder for the given data, with the settings of
    /// [`HexView::new`].
    pub fn new(data: &'a [u8]) -> (builder: HexViewBuilder<'a>)
        ensures
            builder@ == (Config {
                data: data@,
                address_offset: 0,
                row_width: 16,
                codepage: CODEPAGE_0850@,
                replacement_character: '.',
                colors: Seq::empty(),
                force_color: false,
            }),
    {
        HexViewBuilder {
            address_offset: 0,
            codepage: &CODEPAGE_0850,
            data: data,
            replacement_character: '.',
            row_width: 16,
            colors: Colors::new(),
            force_color: false,
        }
    }

    /// Configures the address offset of the view under construction.
    pub fn address_offset(self, offset: usize) -> (builder: HexViewBuilder<'a>)
        ensures
            builder@ == (Config { address_offset: offset as nat, ..self@ }),
    {
        let mut builder = self;
        builder.address_offset = offset;
        builder
    }

    /// Forces styles to be printed even where the output is no terminal.
    pub fn force_color(self) -> (builder: HexViewBuilder<'a>)
        ensures
            builder@ == (Config { force_color: true, ..self@ }),
    {
        let mut builder = self;
        builder.force_color = true;
        builder
    }

    /// Configures the codepage of the view under construction.
    pub fn codepage<'b: 'a>(self, codepage: &'b [char]) -> (builder: HexViewBuilder<'a>)
        ensures
            builder@ == (Config { codepage: codepage@, ..self@ }),
    {
        let mut builder = self;
        builder.codepage = codepage;
        builder
    }

    /// Configures the replacement character of the view under construction:
    /// the character shown for bytes that the codepage has no glyph for.
    pub fn replacement_character(self, ch: char) -> (builder: HexViewBuilder<'a>)
        ensures
            builder@ == (Config { replacement_character: ch, ..self@ }),
    {
        let mut builder = self;
        builder.replacement_character = ch;
        builder
    }

    /// Configures the row width of the view under construction. A width of
    /// zero is accepted here and refused when the view is rendered.
    pub fn row_width(self, width: usize) -> (builder: HexViewBuilder<'a>)
        ensures
            builder@ == (Config { row_width: width as nat, ..self@ }),
    {
        let mut builder = self;
        builder.row_width = width;
        builder
    }

    /// Adds the styled ranges of `colors` after those added before.
    pub fn add_colors(self, colors: Colors) -> (builder: HexViewBuilder<'a>)
        ensures
            builder@ == (Config { colors: self@.colors + colors@, ..self@ }),
    {
        let mut builder = self;
        let mut colors = colors;
        builder.colors.append(&mut colors);
        builder
    }

    /// Adds a range shown in the foreground color that `color` names.
    pub fn add_color(self, color: &str, range: Range<usize>) -> (builder: HexViewBuilder<'a>)
        requires
            parsed_color(color@) is Some,
        ensures
            builder@ == (Config {
                colors: self@.colors.push((foreground(parsed_color(color@).unwrap(), false), range)),
                ..self@
            }),
    {
        let mut builder = self;
        match Spec::named(color) {
            Some(spec) => {
                builder.colors.push((spec, range));
            },
            None => {},
        }
        builder
    }

    /// Adds a range shown in the foreground color that `color` names, where
    /// it names one; otherwise hands the builder back as it was.
    pub fn try_add_color(self, color: &str, range: Range<usize>) -> (added: Result<
        HexViewBuilder<'a>,
        HexViewBuilder<'a>,
    >)
        ensures
            parsed_color(color@) is Some <==> added is Ok,
            added matches Ok(builder) ==> builder@ == (Config {
                colors: self@.colors.push((foreground(parsed_color(color@).unwrap(), false), range)),
                ..self@
            }),
            added matches Err(builder) ==> builder@ == self@,
    {
        if Spec::named(color).is_some() {
            Ok(self.add_color(color, range))
        } else {
            Err(self)
        }
    }

    /// Constructs the view. Its color ranges are those that were added,
    /// sorted by start; ranges with the same start keep the order in which
    /// they were added.
    pub fn finish(self) -> (view: HexView<'a>)
        ensures
            view@ == (Config { colors: view@.colors, ..self@ }),
            stably_sorted(view@.colors, self@.colors),
    {
        HexView {
            address_offset: self.address_offset,
            codepage: self.codepage,
            data: self.data,
            replacement_character: self.replacement_character,
            row_width: self.row_width,
            colors: sort_by_start(self.colors),
            force_color: self.force_color,
        }
    }
}

} // verus!
