//! Facts about the layout and the rendering that hold of every view.
use crate::byte_mapping::glyph;
use crate::color::{style_at, Spec};
use crate::format::{
    char_column, char_slot, hex_column, hex_digits, hex_slot, hex_text, lemma_hex_text_len,
    lemma_hex_text_of_byte, lemma_rows_fill, line_cells, separator, Config, Slot,
};
use crate::sink::{plain, styled, Cell};
use vstd::prelude::*;

verus! {

/// The blanks at the start of a view are the address offset modulo the row
/// width. They stand in the first row, and no other row starts with blanks.
pub proof fn lemma_left_padding(cfg: Config, row: int)
    requires
        cfg.row_width > 0,
    ensures
        cfg.left_padding() == cfg.address_offset % cfg.row_width,
        0 <= cfg.left_padding() < cfg.row_width,
        cfg.row_left(0) == cfg.left_padding(),
        row != 0 ==> cfg.row_left(row) == 0,
{
    lemma_rows_fill(cfg);
}

/// The rows split the data: each row holds a stretch of the bytes, the
/// first row starts at the first byte, each later row starts where the row
/// before it ended, and the last row ends at the last byte.
pub proof fn lemma_rows_split_the_data(cfg: Config, row: int)
    requires
        cfg.row_width > 0,
        0 <= row < cfg.row_count(),
    ensures
        0 <= cfg.row_start(row) <= cfg.row_end(row) <= cfg.data.len(),
        cfg.row_start(0) == 0,
        row + 1 < cfg.row_count() ==> cfg.row_start(row + 1) == cfg.row_end(row),
        row + 1 == cfg.row_count() ==> cfg.row_end(row) == cfg.data.len(),
{
    lemma_rows_fill(cfg);
    let width = cfg.row_width as int;
    let rows = cfg.row_count();
    let left = cfg.left_padding();
    assert((row + 1) * width == row * width + width) by (nonlinear_arith);
    if cfg.filled() > width {
        assert(row * width >= width || row == 0) by (nonlinear_arith)
            requires
                row >= 0,
                width > 0,
        ;
        if row + 1 < rows {
            assert((row + 1) * width <= (rows - 1) * width) by (nonlinear_arith)
                requires
                    row + 1 <= rows - 1,
                    width > 0,
            ;
            assert((rows - 1) * width == rows * width - width) by (nonlinear_arith);
        } else {
            assert(row * width == rows * width - width) by (nonlinear_arith)
                requires
                    row == rows - 1,
            ;
        }
    }
}

/// Every row has exactly as many slots as the row is wide: its blanks on
/// the left, its bytes and its blanks on the right add up to the row width,
/// and so do the slots of its hex column, which are separated by single
/// spaces, and of its character column.
///
/// The one view that this does not hold of has no slot at all: no bytes,
/// and an address offset that is a multiple of the row width.
pub proof fn lemma_row_has_row_width_slots(cfg: Config, row: int, colorful: bool)
    requires
        cfg.row_width > 0,
        cfg.filled() > 0,
        0 <= row < cfg.row_count(),
    ensures
        cfg.row_left(row) + (cfg.row_end(row) - cfg.row_start(row)) + cfg.row_right(row)
            == cfg.row_width,
        cfg.row_slots(row, colorful).len() == cfg.row_width,
        hex_column(cfg.row_slots(row, colorful)).len() == 3 * cfg.row_width - 1,
        char_column(
            cfg.row_slots(row, colorful),
            cfg.codepage,
            cfg.replacement_character,
        ).len() == cfg.row_width,
{
    lemma_rows_fill(cfg);
    lemma_rows_split_the_data(cfg, row);
    let width = cfg.row_width as int;
    let rows = cfg.row_count();
    assert((row + 1) * width == row * width + width) by (nonlinear_arith);
    if cfg.filled() > width && row == rows - 1 {
        assert(row * width == rows * width - width) by (nonlinear_arith)
            requires
                row == rows - 1,
        ;
    }
    let slots = cfg.row_slots(row, colorful);
    assert(cfg.data.subrange(cfg.row_start(row), cfg.row_end(row)).len() == cfg.row_end(row)
        - cfg.row_start(row));
    lemma_hex_column_len(slots);
    lemma_char_column_len(slots, cfg.codepage, cfg.replacement_character);
}

/// A slot of the hex column is two characters wide.
pub proof fn lemma_hex_slot_len(slot: Slot)
    ensures
        hex_slot(slot).len() == 2,
{
    match slot {
        Slot::Blank => {},
        Slot::Byte { value, style } => {
            lemma_hex_text_of_byte(value);
        },
    }
}

/// The hex column of a row of `n` slots is `3 n - 1` characters long: two
/// for each slot and one for each separator between slots.
pub proof fn lemma_hex_column_len(slots: Seq<Slot>)
    ensures
        hex_column(slots).len() == if slots.len() == 0 {
            0
        } else {
            3 * slots.len() - 1
        },
    decreases slots.len(),
{
    if slots.len() > 0 {
        lemma_hex_column_len(slots.drop_last());
        lemma_hex_slot_len(slots.last());
    }
}

/// The character column of a row has one character for each slot.
pub proof fn lemma_char_column_len(slots: Seq<Slot>, codepage: Seq<char>, fallback: char)
    ensures
        char_column(slots, codepage, fallback).len() == slots.len(),
    decreases slots.len(),
{
    if slots.len() > 0 {
        lemma_char_column_len(slots.drop_last(), codepage, fallback);
    }
}

/// Where a slot stands in the hex column: slot `at` takes the two
/// characters from `3 at` on, and a space stands before every slot but the
/// first.
pub proof fn lemma_hex_column_at(slots: Seq<Slot>, at: int)
    requires
        0 <= at < slots.len(),
    ensures
        hex_column(slots).len() == 3 * slots.len() - 1,
        hex_column(slots)[3 * at] == hex_slot(slots[at])[0],
        hex_column(slots)[3 * at + 1] == hex_slot(slots[at])[1],
        at > 0 ==> hex_column(slots)[3 * at - 1] == (' ', None::<Spec>),
    decreases slots.len(),
{
    let front = slots.drop_last();
    lemma_hex_column_len(slots);
    lemma_hex_column_len(front);
    lemma_hex_slot_len(slots.last());
    if at < slots.len() - 1 {
        lemma_hex_column_at(front, at);
        assert(front[at] == slots[at]);
    }
}

/// Where a slot stands in the character column: slot `at` is character
/// `at`.
pub proof fn lemma_char_column_at(slots: Seq<Slot>, codepage: Seq<char>, fallback: char, at: int)
    requires
        0 <= at < slots.len(),
    ensures
        char_column(slots, codepage, fallback).len() == slots.len(),
        char_column(slots, codepage, fallback)[at] == char_slot(slots[at], codepage, fallback)[0],
    decreases slots.len(),
{
    let front = slots.drop_last();
    lemma_char_column_len(slots, codepage, fallback);
    lemma_char_column_len(front, codepage, fallback);
    if at < slots.len() - 1 {
        lemma_char_column_at(front, codepage, fallback, at);
        assert(front[at] == slots[at]);
    }
}

/// The place in a written row of the first hex digit of slot `at`, for an
/// address of `digits` digits.
pub open spec fn hex_place(digits: int, at: int) -> int {
    digits + 2 + 3 * at
}

/// The place in a written row of the glyph of slot `at`, for an address of
/// `digits` digits and a row of `slots` slots.
pub open spec fn char_place(digits: int, slots: int, at: int) -> int {
    digits + 2 + (3 * slots - 1) + 4 + at
}

/// What a written row holds for each of its slots. A byte's two hex digits
/// and its glyph all carry the byte's style; a blank is spaces without
/// style.
pub proof fn lemma_line_shows_slot(
    address: nat,
    slots: Seq<Slot>,
    codepage: Seq<char>,
    fallback: char,
    at: int,
)
    requires
        0 <= at < slots.len(),
    ensures
        ({
            let line = line_cells(address, slots, codepage, fallback);
            let digits = hex_text(address, 8).len() as int;
            let hex = hex_place(digits, at);
            let shown = char_place(digits, slots.len() as int, at);
            &&& digits >= 8
            &&& line.len() == digits + 4 * slots.len() + 7
            &&& match slots[at] {
                Slot::Byte { value, style } => {
                    &&& line[hex] == (hex_digits()[value as int / 16], style)
                    &&& line[hex + 1] == (hex_digits()[value as int % 16], style)
                    &&& line[shown] == (glyph(value, codepage, fallback), style)
                },
                Slot::Blank => {
                    &&& line[hex] == (' ', None::<Spec>)
                    &&& line[hex + 1] == (' ', None::<Spec>)
                    &&& line[shown] == (' ', None::<Spec>)
                },
            }
        }),
{
    lemma_hex_text_len(address, 8);
    lemma_hex_column_at(slots, at);
    lemma_char_column_at(slots, codepage, fallback, at);
    match slots[at] {
        Slot::Byte { value, style } => {
            lemma_hex_text_of_byte(value);
        },
        Slot::Blank => {},
    }
}

/// Whether a place in a written row belongs to one of the row's slots: to
/// its two hex digits or to its glyph.
pub open spec fn in_a_slot(digits: int, slots: int, place: int) -> bool {
    exists|at: int|
        0 <= at < slots && (place == #[trigger] hex_place(digits, at) || place == hex_place(
            digits,
            at,
        ) + 1 || place == char_place(digits, slots, at))
}

/// Outside its slots a written row carries no style: the address, the
/// spaces between the slots of the hex column, and the frame of the
/// character column.
pub proof fn lemma_line_frame_is_plain(
    address: nat,
    slots: Seq<Slot>,
    codepage: Seq<char>,
    fallback: char,
    place: int,
)
    requires
        0 <= place < line_cells(address, slots, codepage, fallback).len(),
        !in_a_slot(hex_text(address, 8).len() as int, slots.len() as int, place),
    ensures
        line_cells(address, slots, codepage, fallback)[place].1 is None,
{
    let digits = hex_text(address, 8).len() as int;
    let count = slots.len() as int;
    lemma_hex_text_len(address, 8);
    lemma_hex_column_len(slots);
    lemma_char_column_len(slots, codepage, fallback);
    let column = digits + 2;
    if count > 0 && column <= place < column + 3 * count - 1 {
        let at = (place - column) / 3;
        let within = (place - column) % 3;
        assert(0 <= at < count && place == column + 3 * at + within && 0 <= within < 3)
            by (nonlinear_arith)
            requires
                at == (place - column) / 3,
                within == (place - column) % 3,
                0 <= place - column < 3 * count - 1,
        ;
        assert(place != hex_place(digits, at) && place != hex_place(digits, at) + 1);
        assert(within == 2);
        lemma_hex_column_at(slots, at + 1);
    } else if count > 0 && column + 3 * count - 1 + 4 <= place < column + 3 * count - 1 + 4
        + count {
        let at = place - (column + 3 * count - 1 + 4);
        assert(hex_place(digits, at) == digits + 2 + 3 * at);
        assert(place == char_place(digits, count, at));
    }
}

/// Color locality: in the output for a sink that keeps styles, the two hex
/// digits and the glyph of every byte carry the style that the color
/// ranges give to the byte's data index, which is that of the first range
/// covering the index, or none where no range does.
pub proof fn lemma_color_locality(cfg: Config, row: int, index: int)
    requires
        cfg.row_width > 0,
        0 <= row < cfg.row_count(),
        cfg.row_start(row) <= index < cfg.row_end(row),
    ensures
        ({
            let slots = cfg.row_slots(row, true);
            let line = line_cells(
                cfg.row_address(row) as nat,
                slots,
                cfg.codepage,
                cfg.replacement_character,
            );
            let at = cfg.row_left(row) + index - cfg.row_start(row);
            let digits = hex_text(cfg.row_address(row) as nat, 8).len() as int;
            let style = style_at(cfg.colors, index);
            &&& 0 <= index < cfg.data.len()
            &&& 0 <= at < slots.len()
            &&& slots[at] == (Slot::Byte { value: cfg.data[index], style })
            &&& line[hex_place(digits, at)] == (hex_digits()[cfg.data[index] as int / 16], style)
            &&& line[hex_place(digits, at) + 1] == (
                hex_digits()[cfg.data[index] as int % 16],
                style,
            )
            &&& line[char_place(digits, slots.len() as int, at)] == (
                glyph(cfg.data[index], cfg.codepage, cfg.replacement_character),
                style,
            )
        }),
{
    lemma_rows_fill(cfg);
    lemma_rows_split_the_data(cfg, row);
    let slots = cfg.row_slots(row, true);
    let at = cfg.row_left(row) + index - cfg.row_start(row);
    let bytes = cfg.data.subrange(cfg.row_start(row), cfg.row_end(row));
    assert(bytes[index - cfg.row_start(row)] == cfg.data[index]);
    assert(0 <= cfg.row_right(row));
    lemma_line_shows_slot(
        cfg.row_address(row) as nat,
        slots,
        cfg.codepage,
        cfg.replacement_character,
        at,
    );
}

/// The blanks of a row carry no style, whatever the color ranges say.
pub proof fn lemma_blanks_are_plain(cfg: Config, row: int, at: int)
    requires
        cfg.row_width > 0,
        0 <= row < cfg.row_count(),
        0 <= at < cfg.row_slots(row, true).len(),
        at < cfg.row_left(row) || at >= cfg.row_left(row) + (cfg.row_end(row) - cfg.row_start(
            row,
        )),
    ensures
        ({
            let slots = cfg.row_slots(row, true);
            let line = line_cells(
                cfg.row_address(row) as nat,
                slots,
                cfg.codepage,
                cfg.replacement_character,
            );
            let digits = hex_text(cfg.row_address(row) as nat, 8).len() as int;
            &&& slots[at] == Slot::Blank
            &&& line[hex_place(digits, at)] == (' ', None::<Spec>)
            &&& line[hex_place(digits, at) + 1] == (' ', None::<Spec>)
            &&& line[char_place(digits, slots.len() as int, at)] == (' ', None::<Spec>)
        }),
{
    lemma_rows_fill(cfg);
    lemma_rows_split_the_data(cfg, row);
    let slots = cfg.row_slots(row, true);
    assert(0 <= cfg.row_right(row));
    lemma_line_shows_slot(
        cfg.row_address(row) as nat,
        slots,
        cfg.codepage,
        cfg.replacement_character,
        at,
    );
}

/// Rendering is a function of the settings: two views with the same data,
/// address offset, row width, codepage, replacement character and color
/// ranges give the same output, character by character and style by
/// style. Rendering one view twice therefore gives the same output twice.
pub proof fn lemma_output_is_determined(first: Config, second: Config, colorful: bool)
    requires
        first.data == second.data,
        first.address_offset == second.address_offset,
        first.row_width == second.row_width,
        first.codepage == second.codepage,
        first.replacement_character == second.replacement_character,
        first.colors == second.colors,
    ensures
        first.row_count() == second.row_count(),
        first.cells(colorful) == second.cells(colorful),
        first.text() == second.text(),
{
    lemma_same_rows(first, second, first.row_count(), colorful);
    lemma_same_rows(first, second, first.row_count(), false);
}

/// Two views with the same settings have the same first `rows` rows.
pub proof fn lemma_same_rows(first: Config, second: Config, rows: int, colorful: bool)
    requires
        first.data == second.data,
        first.address_offset == second.address_offset,
        first.row_width == second.row_width,
        first.codepage == second.codepage,
        first.replacement_character == second.replacement_character,
        first.colors == second.colors,
    ensures
        first.cells_upto(rows, colorful) == second.cells_upto(rows, colorful),
    decreases rows,
{
    if rows > 0 {
        lemma_same_rows(first, second, rows - 1, colorful);
        assert(first.row_cells(rows - 1, colorful) == second.row_cells(rows - 1, colorful));
    }
}

/// Styled text with its styles taken away.
pub open spec fn unstyled(cells: Seq<Cell>) -> Seq<Cell> {
    styled(plain(cells), None)
}

/// A slot with its style taken away.
pub open spec fn bare(slot: Slot) -> Slot {
    match slot {
        Slot::Blank => Slot::Blank,
        Slot::Byte { value, style } => Slot::Byte { value, style: None },
    }
}

/// Taking the styles away goes through concatenation.
pub proof fn lemma_unstyled_concat(front: Seq<Cell>, back: Seq<Cell>)
    ensures
        unstyled(front + back) == unstyled(front) + unstyled(back),
{
    assert(unstyled(front + back) =~= unstyled(front) + unstyled(back));
}

/// Text in one style, with the style taken away, is the text in no style.
pub proof fn lemma_unstyled_styled(text: Seq<char>, style: Option<Spec>)
    ensures
        unstyled(styled(text, style)) == styled(text, None),
        plain(styled(text, style)) == text,
{
    assert(plain(styled(text, style)) =~= text);
}

/// The hex column of bare slots is the hex column of the slots with the
/// styles taken away.
pub proof fn lemma_hex_column_unstyled(slots: Seq<Slot>, stripped: Seq<Slot>)
    requires
        stripped.len() == slots.len(),
        forall|at: int| 0 <= at < slots.len() ==> stripped[at] == bare(#[trigger] slots[at]),
    ensures
        hex_column(stripped) == unstyled(hex_column(slots)),
    decreases slots.len(),
{
    if slots.len() == 0 {
        assert(unstyled(hex_column(slots)) =~= Seq::empty());
    } else {
        let front = slots.drop_last();
        let stripped_front = stripped.drop_last();
        assert forall|at: int| 0 <= at < front.len() implies stripped_front[at] == bare(
            #[trigger] front[at],
        ) by {
            assert(front[at] == slots[at]);
        }
        lemma_hex_column_unstyled(front, stripped_front);
        let gap = styled(separator(slots.len() - 1), None);
        assert(stripped.last() == bare(slots[slots.len() - 1]));
        match slots.last() {
            Slot::Blank => {
                lemma_unstyled_styled(seq![' ', ' '], None);
            },
            Slot::Byte { value, style } => {
                lemma_unstyled_styled(hex_text(value as nat, 2), style);
            },
        }
        lemma_unstyled_styled(separator(slots.len() - 1), None);
        lemma_unstyled_concat(hex_column(front), gap);
        lemma_unstyled_concat(hex_column(front) + gap, hex_slot(slots.last()));
    }
}

/// The character column of bare slots is the character column of the slots
/// with the styles taken away.
pub proof fn lemma_char_column_unstyled(
    slots: Seq<Slot>,
    stripped: Seq<Slot>,
    codepage: Seq<char>,
    fallback: char,
)
    requires
        stripped.len() == slots.len(),
        forall|at: int| 0 <= at < slots.len() ==> stripped[at] == bare(#[trigger] slots[at]),
    ensures
        char_column(stripped, codepage, fallback) == unstyled(
            char_column(slots, codepage, fallback),
        ),
    decreases slots.len(),
{
    if slots.len() == 0 {
        assert(unstyled(char_column(slots, codepage, fallback)) =~= Seq::empty());
    } else {
        let front = slots.drop_last();
        let stripped_front = stripped.drop_last();
        assert forall|at: int| 0 <= at < front.len() implies stripped_front[at] == bare(
            #[trigger] front[at],
        ) by {
            assert(front[at] == slots[at]);
        }
        lemma_char_column_unstyled(front, stripped_front, codepage, fallback);
        assert(stripped.last() == bare(slots[slots.len() - 1]));
        match slots.last() {
            Slot::Blank => {
                lemma_unstyled_styled(seq![' '], None);
            },
            Slot::Byte { value, style } => {
                lemma_unstyled_styled(seq![glyph(value, codepage, fallback)], style);
            },
        }
        lemma_unstyled_concat(
            char_column(front, codepage, fallback),
            char_slot(slots.last(), codepage, fallback),
        );
    }
}

/// A row written to a sink that drops styles is the row written to one
/// that keeps them, with the styles taken away.
pub proof fn lemma_row_unstyled(cfg: Config, row: int)
    requires
        cfg.row_width > 0,
        0 <= row < cfg.row_count(),
    ensures
        cfg.row_cells(row, false) == unstyled(cfg.row_cells(row, true)),
{
    lemma_rows_fill(cfg);
    lemma_rows_split_the_data(cfg, row);
    let slots = cfg.row_slots(row, true);
    let stripped = cfg.row_slots(row, false);
    let address = cfg.row_address(row) as nat;
    assert(0 <= cfg.row_right(row));
    assert forall|at: int| 0 <= at < slots.len() implies stripped[at] == bare(
        #[trigger] slots[at],
    ) by {}
    lemma_hex_column_unstyled(slots, stripped);
    lemma_char_column_unstyled(slots, stripped, cfg.codepage, cfg.replacement_character);
    let line_break = if cfg.break_before(row) {
        styled(seq!['\n'], None)
    } else {
        Seq::empty()
    };
    let a = styled(hex_text(address, 8), None);
    let b = styled(seq![' ', ' '], None);
    let c = hex_column(slots);
    let d = styled(seq!['|', ' '], None);
    let e = char_column(slots, cfg.codepage, cfg.replacement_character);
    let f = styled(seq![' ', '|'], None);
    lemma_unstyled_styled(hex_text(address, 8), None);
    lemma_unstyled_styled(seq![' ', ' '], None);
    lemma_unstyled_styled(seq!['|', ' '], None);
    lemma_unstyled_styled(seq![' ', '|'], None);
    lemma_unstyled_styled(seq!['\n'], None);
    assert(unstyled(line_break) =~= line_break);
    lemma_unstyled_concat(a, b);
    lemma_unstyled_concat(a + b, c);
    lemma_unstyled_concat(a + b + c, b);
    lemma_unstyled_concat(a + b + c + b, d);
    lemma_unstyled_concat(a + b + c + b + d, e);
    lemma_unstyled_concat(a + b + c + b + d + e, f);
    lemma_unstyled_concat(line_break, a + b + c + b + d + e + f);
}

/// The first `rows` rows written to a sink that drops styles are those
/// written to one that keeps them, with the styles taken away.
pub proof fn lemma_rows_unstyled(cfg: Config, rows: int)
    requires
        cfg.row_width > 0,
        rows <= cfg.row_count(),
    ensures
        cfg.cells_upto(rows, false) == unstyled(cfg.cells_upto(rows, true)),
    decreases rows,
{
    if rows <= 0 {
        assert(unstyled(cfg.cells_upto(rows, true)) =~= Seq::empty());
    } else {
        lemma_rows_unstyled(cfg, rows - 1);
        lemma_row_unstyled(cfg, rows - 1);
        lemma_unstyled_concat(cfg.cells_upto(rows - 1, true), cfg.row_cells(rows - 1, true));
    }
}

/// A sink that drops styles gets the same text as one that keeps them: the
/// plain text of a view is its styled output with the styles taken away.
pub proof fn lemma_plain_text_is_the_styled_text(cfg: Config)
    requires
        cfg.row_width > 0,
    ensures
        cfg.cells(false) == unstyled(cfg.cells(true)),
        cfg.text() == plain(cfg.cells(true)),
{
    lemma_rows_unstyled(cfg, cfg.row_count());
    lemma_unstyled_styled(plain(cfg.cells(true)), None);
}

/// An address below 2^32 is written in exactly eight digits.
pub proof fn lemma_small_address_has_eight_digits(address: nat)
    requires
        address < 0x1_0000_0000,
    ensures
        hex_text(address, 8).len() == 8,
{
    let a1 = address / 16;
    let a2 = a1 / 16;
    let a3 = a2 / 16;
    let a4 = a3 / 16;
    let a5 = a4 / 16;
    let a6 = a5 / 16;
    let a7 = a6 / 16;
    assert(a7 < 16);
    assert(hex_text(a7, 1).len() == 1);
    assert(hex_text(a6, 2).len() == 2);
    assert(hex_text(a5, 3).len() == 3);
    assert(hex_text(a4, 4).len() == 4);
    assert(hex_text(a3, 5).len() == 5);
    assert(hex_text(a2, 6).len() == 6);
    assert(hex_text(a1, 7).len() == 7);
}

/// The number of line breaks written with the first `rows` rows: one
/// between each row and the next.
pub open spec fn breaks_upto(rows: int) -> int {
    if rows <= 0 {
        0
    } else {
        rows - 1
    }
}

/// The length of the first `rows` rows, where every address has eight
/// digits: each row takes four characters for each slot and fifteen more,
/// and each line break takes one.
pub proof fn lemma_rows_len(cfg: Config, rows: int, colorful: bool)
    requires
        cfg.row_width > 0,
        cfg.filled() > 0,
        cfg.address_offset + cfg.data.len() <= 0x1_0000_0000,
        0 <= rows <= cfg.row_count(),
    ensures
        cfg.cells_upto(rows, colorful).len() == rows * (4 * cfg.row_width + 15) + breaks_upto(
            rows,
        ),
    decreases rows,
{
    let width = cfg.row_width as int;
    if rows > 0 {
        let row = rows - 1;
        lemma_rows_len(cfg, row, colorful);
        lemma_rows_fill(cfg);
        lemma_rows_split_the_data(cfg, row);
        lemma_row_has_row_width_slots(cfg, row, colorful);
        assert(row * width >= 0) by (nonlinear_arith)
            requires
                row >= 0,
                width > 0,
        ;
        assert(0 <= cfg.row_address(row) < 0x1_0000_0000);
        lemma_small_address_has_eight_digits(cfg.row_address(row) as nat);
        assert(rows * (4 * width + 15) == row * (4 * width + 15) + (4 * width + 15))
            by (nonlinear_arith)
            requires
                rows == row + 1,
        ;
    } else {
        assert(0 * (4 * width + 15) == 0) by (nonlinear_arith);
    }
}

/// The length of a view's text, where every address has eight digits.
pub proof fn lemma_text_len(cfg: Config)
    requires
        cfg.row_width > 0,
        cfg.filled() > 0,
        cfg.address_offset + cfg.data.len() <= 0x1_0000_0000,
    ensures
        cfg.text().len() == cfg.row_count() * (4 * cfg.row_width + 15) + breaks_upto(
            cfg.row_count(),
        ),
{
    lemma_rows_fill(cfg);
    lemma_rows_len(cfg, cfg.row_count(), false);
}

/// A narrower row never gives fewer rows: of two views of the same data
/// whose first byte stands at the start of a row, the one with the
/// narrower rows has at least as many rows as the other. It has more
/// exactly when as many of its rows as the other view has cannot hold the
/// data.
pub proof fn lemma_narrower_rows_are_not_fewer(narrow: Config, wide: Config)
    requires
        narrow.data == wide.data,
        0 < narrow.row_width <= wide.row_width,
        narrow.left_padding() == 0,
        wide.left_padding() == 0,
    ensures
        narrow.row_count() >= wide.row_count(),
        narrow.row_count() > wide.row_count() <==> wide.row_count() * narrow.row_width
            < narrow.data.len(),
{
    lemma_rows_fill(narrow);
    lemma_rows_fill(wide);
    let len = narrow.data.len() as int;
    let few = wide.row_count();
    let many = narrow.row_count();
    let thin = narrow.row_width as int;
    if len > 0 {
        assert(many >= few) by (nonlinear_arith)
            requires
                many * thin >= len,
                few * wide.row_width - wide.row_width < len,
                0 < thin <= wide.row_width,
                many >= 1,
                few >= 1,
        ;
        if few * thin < len {
            assert(many > few) by (nonlinear_arith)
                requires
                    many * thin >= len,
                    few * thin < len,
                    thin > 0,
            ;
        } else {
            assert(many <= few) by (nonlinear_arith)
                requires
                    many * thin - thin < len,
                    few * thin >= len,
                    thin > 0,
            ;
        }
    } else {
        assert(few * thin > 0) by (nonlinear_arith)
            requires
                few == 1,
                thin > 0,
        ;
    }
}

/// More rows with no fewer blanks make a longer text: of two views of the
/// same data whose first byte stands at the start of a row and whose
/// addresses have eight digits, the one with more rows has more
/// characters, unless it ends in fewer blanks.
pub proof fn lemma_more_rows_are_longer(narrow: Config, wide: Config)
    requires
        narrow.data == wide.data,
        narrow.address_offset == wide.address_offset,
        narrow.row_width > 0,
        wide.row_width > 0,
        narrow.data.len() > 0,
        narrow.left_padding() == 0,
        wide.left_padding() == 0,
        narrow.row_count() > wide.row_count(),
        narrow.right_padding() >= wide.right_padding(),
        narrow.address_offset + narrow.data.len() <= 0x1_0000_0000,
    ensures
        narrow.text().len() > wide.text().len(),
{
    lemma_rows_fill(narrow);
    lemma_rows_fill(wide);
    lemma_text_len(narrow);
    lemma_text_len(wide);
    let few = wide.row_count();
    let many = narrow.row_count();
    let thin = narrow.row_width as int;
    let broad = wide.row_width as int;
    assert(many * (4 * thin + 15) == 4 * (many * thin) + 15 * many) by (nonlinear_arith);
    assert(few * (4 * broad + 15) == 4 * (few * broad) + 15 * few) by (nonlinear_arith);
}

/// Narrowing the rows of a view whose rows are all full gives more rows and
/// a longer text: of two views of the same data, both without blanks at
/// either end and with addresses of eight digits, the one with the
/// narrower rows has more rows and more characters.
///
/// With blanks at the end this need not hold: ten bytes take two rows at
/// a width of six as at a width of nine, and the text is shorter at six.
pub proof fn lemma_narrower_full_rows_are_more(narrow: Config, wide: Config)
    requires
        narrow.data == wide.data,
        narrow.address_offset == wide.address_offset,
        0 < narrow.row_width < wide.row_width,
        narrow.data.len() > 0,
        narrow.left_padding() == 0,
        wide.left_padding() == 0,
        narrow.right_padding() == 0,
        wide.right_padding() == 0,
        narrow.address_offset + narrow.data.len() <= 0x1_0000_0000,
    ensures
        narrow.row_count() > wide.row_count(),
        narrow.text().len() > wide.text().len(),
{
    lemma_rows_fill(narrow);
    lemma_rows_fill(wide);
    lemma_text_len(narrow);
    lemma_text_len(wide);
    let len = narrow.data.len() as int;
    let few = wide.row_count();
    let many = narrow.row_count();
    let thin = narrow.row_width as int;
    let broad = wide.row_width as int;
    assert(many > few) by (nonlinear_arith)
        requires
            many * thin == len,
            few * broad == len,
            0 < thin < broad,
            len > 0,
            many >= 1,
            few >= 1,
    ;
    assert(many * (4 * thin + 15) == 4 * len + 15 * many) by (nonlinear_arith)
        requires
            many * thin == len,
    ;
    assert(few * (4 * broad + 15) == 4 * len + 15 * few) by (nonlinear_arith)
        requires
            few * broad == len,
    ;
}

/// The address of a row is that of the row before it plus the row width.
/// The first row's address is the address offset less the blanks before
/// the first byte, which is a multiple of the row width.
pub proof fn lemma_addresses_step_by_row_width(cfg: Config, row: int)
    requires
        cfg.row_width > 0,
    ensures
        cfg.row_address(row + 1) == cfg.row_address(row) + cfg.row_width,
        cfg.row_address(0) == cfg.address_offset - cfg.left_padding(),
        cfg.row_address(0) >= 0,
        cfg.row_address(0) % (cfg.row_width as int) == 0,
{
    lemma_rows_fill(cfg);
    let width = cfg.row_width as int;
    let offset = cfg.address_offset as int;
    assert((row + 1) * width == row * width + width) by (nonlinear_arith);
    assert(0 * width == 0) by (nonlinear_arith);
    assert((offset - offset % width) % width == 0) by (nonlinear_arith)
        requires
            width > 0,
            offset >= 0,
    ;
}

} // verus!
