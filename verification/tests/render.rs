use hexplay::byte_mapping::{as_char, CODEPAGE_0850, CODEPAGE_1252, CODEPAGE_ASCII, NIL};
use hexplay::color::{blue, green, red, yellow_bold, ColorlessString, Colors, Spec};
use hexplay::format::{
    calculate_begin_padding, calculate_end_padding, hex_char, push_hex, sunk, HexView,
    Padding, RenderError,
};
use hexplay::sink::{ColoredString, Forward, Sink, StyledWrite, WriteFailed};
use hexplay::HexViewBuilder;

/// A writer that takes a number of writes and then fails.
struct Brittle {
    text: String,
    styled: usize,
    writes_left: usize,
}

impl StyledWrite for Brittle {
    fn write_plain(&mut self, text: &str) -> Result<(), WriteFailed> {
        if self.writes_left == 0 {
            return Err(WriteFailed);
        }
        self.writes_left -= 1;
        self.text.push_str(text);
        Ok(())
    }

    fn write_styled(&mut self, _spec: &Spec, text: &str) -> Result<(), WriteFailed> {
        self.write_plain(text)?;
        self.styled += 1;
        Ok(())
    }
}

fn brittle(writes_left: usize) -> Forward<Brittle> {
    Forward::new(Brittle {
        text: String::new(),
        styled: 0,
        writes_left,
    })
}

fn styled_chars(sink: &ColoredString) -> Vec<(char, Option<Spec>)> {
    let mut cells = Vec::new();
    for span in &sink.0 {
        for ch in span.text.chars() {
            cells.push((ch, span.style));
        }
    }
    cells
}

fn plain_text(cells: &[(char, Option<Spec>)]) -> String {
    cells.iter().map(|cell| cell.0).collect()
}

#[test]
fn a_row_width_of_zero_is_refused_with_a_note() {
    let data = [1u8, 2, 3];
    let view = HexViewBuilder::new(&data).row_width(0).finish();
    let mut sink = ColorlessString(String::new());
    assert_eq!(view.fmt(&mut sink), Err(RenderError::InvalidConfiguration));
    assert_eq!(sink.0, "Invalid HexView::width");
    let mut colored = ColoredString(Vec::new());
    assert_eq!(
        view.fmt(&mut colored),
        Err(RenderError::InvalidConfiguration)
    );
    assert_eq!(plain_text(&styled_chars(&colored)), "Invalid HexView::width");
}

#[test]
fn a_row_width_of_zero_is_refused_even_if_the_sink_fails() {
    let data = [1u8, 2, 3];
    let view = HexViewBuilder::new(&data).row_width(0).finish();
    let mut sink = brittle(0);
    assert_eq!(view.fmt(&mut sink), Err(RenderError::InvalidConfiguration));
    assert_eq!(sink.get_ref().text, "");
    let mut sink = brittle(9);
    assert_eq!(view.fmt(&mut sink), Err(RenderError::InvalidConfiguration));
    assert_eq!(sink.into_inner().text, "Invalid HexView::width");
}

#[test]
fn a_failing_sink_stops_the_rendering() {
    let data = [0x61u8; 40];
    let view = HexViewBuilder::new(&data).finish();
    let whole = view.to_string();
    for writes in [0usize, 1, 2, 5, 20, 60] {
        let mut sink = brittle(writes);
        assert_eq!(view.fmt(&mut sink), Err(RenderError::SinkWriteFailure));
        let writer = sink.into_inner();
        assert_eq!(writer.writes_left, 0);
        assert!(whole.starts_with(&writer.text));
        assert!(writer.text.len() < whole.len());
    }
    let mut sink = brittle(100_000);
    assert_eq!(view.fmt(&mut sink), Ok(()));
    assert_eq!(sink.get_ref().text, whole);
    assert_eq!(sink.into_inner().styled, 0);
}

#[test]
fn a_writer_is_handed_the_styled_bytes_in_their_style() {
    let data = [0x61u8; 4];
    let view = HexViewBuilder::new(&data)
        .row_width(4)
        .add_colors(vec![(red(), 1..3)])
        .finish();
    let mut sink = brittle(100_000);
    assert!(sink.write_str("> ").is_ok());
    assert!(sink.write_colored(&red(), "!").is_ok());
    assert_eq!(view.fmt(&mut sink), Ok(()));
    let writer = sink.into_inner();
    assert_eq!(writer.text, "> !00000000  61 61 61 61  | aaaa |");
    assert_eq!(writer.styled, 1 + 2 * 2);
}

#[test]
fn a_sink_failure_becomes_a_render_error() {
    assert_eq!(sunk(Ok(())), Ok(()));
    assert_eq!(sunk(Err(WriteFailed)), Err(RenderError::SinkWriteFailure));
}

#[test]
fn rendering_into_a_sink_appends_to_what_it_holds() {
    let data = [0x41u8];
    let view = HexViewBuilder::new(&data).row_width(1).finish();
    let mut sink = ColorlessString(String::from(">> "));
    assert_eq!(view.fmt(&mut sink), Ok(()));
    assert_eq!(sink.0, ">> 00000000  41  | A |");
}

#[test]
fn no_data_at_an_aligned_address_gives_a_row_without_slots() {
    let view = HexViewBuilder::new(&[]).finish();
    assert_eq!(view.to_string(), "00000000    |  |");
    let view = HexViewBuilder::new(&[]).address_offset(32).finish();
    assert_eq!(view.to_string(), "00000020    |  |");
}

#[test]
fn no_data_at_an_unaligned_address_gives_a_row_of_blanks() {
    let view = HexViewBuilder::new(&[])
        .address_offset(5)
        .row_width(8)
        .finish();
    assert_eq!(
        view.to_string(),
        "00000000                           |          |"
    );
}

#[test]
fn aligned_data_of_several_rows_starts_with_its_first_row() {
    let data: Vec<u8> = (0x30u8..0x38).collect();
    let view = HexViewBuilder::new(&data).row_width(4).finish();
    assert_eq!(
        view.to_string(),
        "00000000  30 31 32 33  | 0123 |\n00000004  34 35 36 37  | 4567 |"
    );
    let view = HexViewBuilder::new(&data[..6]).row_width(4).finish();
    assert_eq!(
        view.to_string(),
        "00000000  30 31 32 33  | 0123 |\n00000004  34 35        | 45   |"
    );
}

#[test]
fn unaligned_data_of_several_rows_starts_without_a_line_break() {
    let data: Vec<u8> = (0x30u8..0x3A).collect();
    let view = HexViewBuilder::new(&data)
        .row_width(4)
        .address_offset(0x12)
        .finish();
    assert_eq!(
        view.to_string(),
        "00000010        30 31  |   01 |\n00000014  32 33 34 35  | 2345 |\n00000018  36 37 38 39  | 6789 |"
    );
    let view = HexViewBuilder::new(&data)
        .row_width(4)
        .address_offset(0x13)
        .finish();
    assert_eq!(
        view.to_string(),
        "00000010           30  |    0 |\n00000014  31 32 33 34  | 1234 |\n00000018  35 36 37 38  | 5678 |\n0000001C  39           | 9    |"
    );
}

#[test]
fn a_row_width_of_one_gives_a_row_for_each_byte() {
    let data = [0x00u8, 0x7F, 0xFF];
    let view = HexViewBuilder::new(&data)
        .row_width(1)
        .codepage(&CODEPAGE_ASCII)
        .finish();
    assert_eq!(
        view.to_string(),
        "00000000  00  | . |\n00000001  7F  | . |\n00000002  FF  | . |"
    );
}

#[test]
fn every_row_has_as_many_slots_as_the_row_is_wide() {
    let data: Vec<u8> = (0u8..=255).collect();
    for width in [1usize, 2, 3, 7, 8, 16, 17, 100, 255, 256, 300] {
        for offset in [0usize, 1, 5, 16, 54, 255, 1000] {
            for len in [1usize, 2, 15, 16, 17, 100, 256] {
                let view = HexViewBuilder::new(&data[..len])
                    .row_width(width)
                    .address_offset(offset)
                    .finish();
                let text = view.to_string();
                let left = offset % width;
                let rows = if left + len <= width {
                    1
                } else {
                    (left + len + width - 1) / width
                };
                let lines: Vec<&str> = text.split('\n').collect();
                assert_eq!(lines.len(), rows);
                for (row, line) in lines.iter().enumerate() {
                    let chars: Vec<char> = line.chars().collect();
                    assert_eq!(chars.len(), 8 + 2 + (3 * width - 1) + 4 + width + 2);
                    let address: String = chars[..8].iter().collect();
                    assert_eq!(address, format!("{:08X}", offset - left + row * width));
                    assert_eq!(chars[8], ' ');
                    assert_eq!(chars[9], ' ');
                    for slot in 0..width {
                        let place = 10 + 3 * slot;
                        let hex: String = chars[place..place + 2].iter().collect();
                        let glyph = chars[10 + 3 * width - 1 + 4 + slot];
                        if slot > 0 {
                            assert_eq!(chars[place - 1], ' ');
                        }
                        let at = row * width + slot;
                        if at < left || at >= left + len {
                            assert_eq!(hex, "  ");
                            assert_eq!(glyph, ' ');
                        } else {
                            let byte = data[at - left];
                            assert_eq!(hex, format!("{:02X}", byte));
                            assert_eq!(glyph, as_char(byte, &CODEPAGE_0850, '.'));
                        }
                    }
                    let frame: String = chars[10 + 3 * width - 1..10 + 3 * width + 3]
                        .iter()
                        .collect();
                    assert_eq!(frame, "  | ");
                    let end: String = chars[chars.len() - 2..].iter().collect();
                    assert_eq!(end, " |");
                }
            }
        }
    }
}

#[test]
fn the_left_padding_is_the_offset_modulo_the_row_width() {
    for width in 1usize..40 {
        for offset in 0usize..100 {
            assert_eq!(calculate_begin_padding(offset, width), offset % width);
            let padding = calculate_end_padding(offset, width);
            assert!(padding < width);
            assert_eq!((offset + padding) % width, 0);
        }
    }
    assert_eq!(calculate_begin_padding(usize::MAX, 16), 15);
    assert_eq!(calculate_end_padding(usize::MAX, 16), 1);
}

#[test]
fn rendering_twice_gives_the_same_output() {
    let data: Vec<u8> = (0u8..=255).collect();
    let colors: Colors = vec![(red(), 42..72), (yellow_bold(), 10..11)];
    let view = HexViewBuilder::new(&data[3..200])
        .address_offset(3)
        .row_width(14)
        .add_colors(colors)
        .finish();
    assert_eq!(view.to_string(), view.to_string());
    let mut first = ColoredString(Vec::new());
    let mut second = ColoredString(Vec::new());
    assert_eq!(view.fmt(&mut first), Ok(()));
    assert_eq!(view.fmt(&mut second), Ok(()));
    assert_eq!(first.0, second.0);
    assert_eq!(plain_text(&styled_chars(&first)), view.to_string());
}

#[test]
fn the_address_goes_up_by_the_row_width_from_row_to_row() {
    let data = [0u8; 100];
    let view = HexViewBuilder::new(&data)
        .row_width(7)
        .address_offset(0x1234)
        .finish();
    let text = view.to_string();
    let addresses: Vec<usize> = text
        .split('\n')
        .map(|line| usize::from_str_radix(&line[..8], 16).unwrap())
        .collect();
    assert_eq!(addresses[0], 0x1234 - 0x1234 % 7);
    for pair in addresses.windows(2) {
        assert_eq!(pair[1], pair[0] + 7);
    }
    assert_eq!(addresses.len(), (0x1234 % 7 + 100 + 6) / 7);
}

#[test]
fn an_address_beyond_eight_digits_is_written_in_full() {
    let data = [0x41u8; 3];
    let view = HexViewBuilder::new(&data)
        .row_width(2)
        .address_offset(0xF_FFFF_FFFF)
        .finish();
    assert_eq!(
        view.to_string(),
        "FFFFFFFFE     41  |  A |\n1000000000  41 41  | AA |"
    );
}

#[test]
fn an_address_at_the_end_of_the_address_space_does_not_wrap() {
    let data = [0x41u8; 3];
    let view = HexViewBuilder::new(&data)
        .row_width(2)
        .address_offset(usize::MAX)
        .finish();
    let text = view.to_string();
    let lines: Vec<&str> = text.lines().collect();
    assert_eq!(lines.len(), 2);
    let first = u128::from_str_radix(lines[0].split(' ').next().unwrap(), 16).unwrap();
    let second = u128::from_str_radix(lines[1].split(' ').next().unwrap(), 16).unwrap();
    assert_eq!(first, usize::MAX as u128 - 1);
    assert_eq!(second, usize::MAX as u128 + 1);
}

#[test]
fn every_byte_has_a_glyph_under_every_table() {
    let short = ['x', NIL, 'z'];
    for byte in 0u8..=255 {
        assert_eq!(as_char(byte, &[], '.'), '.');
        let ascii = as_char(byte, &CODEPAGE_ASCII, '?');
        if (32..127).contains(&byte) {
            assert_eq!(ascii, byte as char);
        } else {
            assert_eq!(ascii, '?');
        }
        let shown = as_char(byte, &short, '-');
        match byte {
            0 => assert_eq!(shown, 'x'),
            2 => assert_eq!(shown, 'z'),
            _ => assert_eq!(shown, '-'),
        }
        let dos = as_char(byte, &CODEPAGE_0850, '.');
        if byte == 0 || byte == 255 {
            assert_eq!(dos, '.');
        } else {
            assert_eq!(dos, CODEPAGE_0850[byte as usize]);
        }
        let ansi = as_char(byte, &CODEPAGE_1252, '.');
        assert!(ansi == '.' || ansi == CODEPAGE_1252[byte as usize]);
        assert_ne!(ansi, NIL);
    }
    assert_eq!(as_char(0x80, &CODEPAGE_1252, '.'), '\u{20ac}');
    assert_eq!(as_char(0x81, &CODEPAGE_1252, '.'), '.');
    assert_eq!(as_char(0x01, &CODEPAGE_0850, '.'), '\u{263a}');
}

#[test]
fn a_colored_byte_is_styled_in_both_columns() {
    let data: Vec<u8> = (0u8..=255).collect();
    let colors: Colors = vec![
        (red(), 42..72),
        (yellow_bold(), 10..11),
        (green(), 32..38),
        (blue(), 200..226),
        (blue(), 60..80),
    ];
    for (offset, width) in [(0usize, 16usize), (5, 16), (3, 7), (100, 1), (20, 300)] {
        let view = HexViewBuilder::new(&data)
            .address_offset(offset)
            .row_width(width)
            .add_colors(colors.clone())
            .finish();
        let mut sink = ColoredString(Vec::new());
        assert_eq!(view.fmt(&mut sink), Ok(()));
        let cells = styled_chars(&sink);
        assert_eq!(plain_text(&cells), view.to_string());
        let style_of = |index: usize| -> Option<Spec> {
            if index == 10 {
                Some(yellow_bold())
            } else if (32..38).contains(&index) {
                Some(green())
            } else if (42..72).contains(&index) {
                Some(red())
            } else if (72..80).contains(&index) || (200..226).contains(&index) {
                Some(blue())
            } else {
                None
            }
        };
        let left = offset % width;
        let line_len = 8 + 2 + (3 * width - 1) + 4 + width + 2;
        let mut start = 0;
        let mut row = 0;
        let mut styled = 0;
        while start < cells.len() {
            if row > 0 {
                assert_eq!(cells[start], ('\n', None));
                start += 1;
            }
            let line = &cells[start..start + line_len];
            for (place, cell) in line.iter().enumerate() {
                let slot = if (10..10 + 3 * width - 1).contains(&place) && (place - 10) % 3 < 2
                {
                    Some((place - 10) / 3)
                } else if (10 + 3 * width + 3..10 + 3 * width + 3 + width).contains(&place) {
                    Some(place - (10 + 3 * width + 3))
                } else {
                    None
                };
                let expected = match slot {
                    Some(slot) if row * width + slot >= left => {
                        style_of(row * width + slot - left)
                    }
                    _ => None,
                };
                if row * width + slot.unwrap_or(0) < left + data.len() || slot.is_none() {
                    assert_eq!(cell.1, expected);
                } else {
                    assert_eq!(cell.1, None);
                }
                if cell.1.is_some() {
                    styled += 1;
                }
            }
            start += line_len;
            row += 1;
        }
        assert_eq!(styled, 3 * (1 + 6 + 30 + 8 + 26));
    }
}

#[test]
fn of_overlapping_ranges_the_least_start_wins_and_then_the_first_given() {
    let data = [0u8; 12];
    let view = HexViewBuilder::new(&data)
        .add_colors(vec![(red(), 5..10), (blue(), 0..12)])
        .add_colors(vec![(green(), 0..3), (yellow_bold(), 11..12)])
        .finish();
    assert_eq!(
        view.colors(),
        &vec![
            (blue(), 0..12),
            (green(), 0..3),
            (red(), 5..10),
            (yellow_bold(), 11..12)
        ]
    );
    let mut sink = ColoredString(Vec::new());
    assert_eq!(view.fmt(&mut sink), Ok(()));
    let cells = styled_chars(&sink);
    for index in 0..12 {
        assert_eq!(cells[10 + 3 * index].1, Some(blue()));
        assert_eq!(cells[10 + 3 * index + 1].1, Some(blue()));
        assert_eq!(cells[10 + 47 + 4 + index].1, Some(blue()));
    }
    for index in 12..16 {
        assert_eq!(cells[10 + 3 * index].1, None);
        assert_eq!(cells[10 + 47 + 4 + index].1, None);
    }
    let view = HexViewBuilder::new(&data)
        .add_colors(vec![(red(), 0..2), (blue(), 0..4), (green(), 1..6)])
        .finish();
    let mut sink = ColoredString(Vec::new());
    assert_eq!(view.fmt(&mut sink), Ok(()));
    let cells = styled_chars(&sink);
    let styles: Vec<Option<Spec>> = (0..7).map(|index| cells[10 + 3 * index].1).collect();
    assert_eq!(
        styles,
        vec![
            Some(red()),
            Some(red()),
            Some(blue()),
            Some(blue()),
            Some(green()),
            Some(green()),
            None
        ]
    );
}

#[test]
fn a_colorless_sink_gets_the_text_of_a_colored_view() {
    let data = [0x61u8; 4];
    let view = HexViewBuilder::new(&data)
        .row_width(4)
        .add_colors(vec![(red(), 1..3)])
        .finish();
    assert_eq!(view.to_string(), "00000000  61 61 61 61  | aaaa |");
    let mut sink = ColoredString(Vec::new());
    assert_eq!(view.fmt(&mut sink), Ok(()));
    let cells = styled_chars(&sink);
    let styles: Vec<Option<Spec>> = cells.iter().map(|cell| cell.1).collect();
    let mut expected = vec![None; cells.len()];
    for place in [13, 14, 16, 17, 26, 27] {
        expected[place] = Some(red());
    }
    assert_eq!(styles, expected);
}

#[test]
fn narrower_rows_give_more_rows_and_more_text_when_all_rows_are_full() {
    let data: Vec<u8> = (0..64).collect();
    let mut last_rows = 0;
    let mut last_len = 0;
    for width in [64usize, 32, 16, 8, 4, 2, 1] {
        let text = HexViewBuilder::new(&data)
            .row_width(width)
            .finish()
            .to_string();
        let rows = text.split('\n').count();
        assert_eq!(rows, 64 / width);
        assert_eq!(text.chars().count(), rows * (4 * width + 15) + rows - 1);
        assert!(rows > last_rows);
        assert!(text.chars().count() > last_len);
        last_rows = rows;
        last_len = text.chars().count();
    }
}

#[test]
fn narrower_rows_with_blanks_at_the_end_need_not_give_more() {
    let data = [0u8; 10];
    let six = HexViewBuilder::new(&data).row_width(6).finish().to_string();
    let nine = HexViewBuilder::new(&data).row_width(9).finish().to_string();
    assert_eq!(six.split('\n').count(), 2);
    assert_eq!(nine.split('\n').count(), 2);
    assert!(six.len() < nine.len());
}

#[test]
fn all_bytes_at_the_default_width_take_sixteen_full_rows() {
    let data: Vec<u8> = (0u16..256u16).map(|v| v as u8).collect();
    let text = HexViewBuilder::new(&data).finish().to_string();
    let lines: Vec<&str> = text.split('\n').collect();
    assert_eq!(lines.len(), 16);
    assert_eq!(
        lines[4],
        "00000040  40 41 42 43 44 45 46 47 48 49 4A 4B 4C 4D 4E 4F  | @ABCDEFGHIJKLMNO |"
    );
    for (row, line) in lines.iter().enumerate() {
        assert!(line.starts_with(&format!("{:08X}  {:02X} ", 16 * row, 16 * row)));
        let chars: Vec<char> = line.chars().collect();
        assert_eq!(chars.len(), 8 + 2 + 47 + 4 + 16 + 2);
        let hex: String = chars[10..57].iter().collect();
        let slots: Vec<&str> = hex.split(' ').collect();
        assert_eq!(slots.len(), 16);
        for (slot, digits) in slots.iter().enumerate() {
            assert_eq!(*digits, format!("{:02X}", row * 16 + slot));
        }
        let glyphs: Vec<char> = chars[61..77].to_vec();
        assert_eq!(glyphs.len(), 16);
        for (slot, glyph) in glyphs.iter().enumerate() {
            assert_eq!(
                *glyph,
                as_char((row * 16 + slot) as u8, &CODEPAGE_0850, '.')
            );
        }
    }
}

#[test]
fn a_new_view_has_the_default_settings() {
    let data = [1u8, 2, 3];
    let view = HexView::new(&data);
    assert_eq!(view.address_offset(), 0);
    assert_eq!(view.row_width(), 16);
    assert_eq!(view.data(), &data[..]);
    assert_eq!(view.codepage(), &CODEPAGE_0850[..]);
    assert_eq!(view.replacement_character(), '.');
    assert!(view.colors().is_empty());
    assert!(!view.force_color());
    assert_eq!(
        view.to_string(),
        HexViewBuilder::new(&data).finish().to_string()
    );
}

#[test]
fn the_builder_sets_each_setting() {
    let data = [1u8, 2, 3];
    let table = ['a', 'b'];
    let view = HexViewBuilder::new(&data)
        .address_offset(7)
        .row_width(5)
        .codepage(&table)
        .replacement_character('#')
        .force_color()
        .add_colors(vec![(blue(), 2..3)])
        .add_color("red", 0..1)
        .add_colors(vec![(green(), 0..2)])
        .finish();
    assert_eq!(view.address_offset(), 7);
    assert_eq!(view.row_width(), 5);
    assert_eq!(view.data(), &data[..]);
    assert_eq!(view.codepage(), &table[..]);
    assert_eq!(view.replacement_character(), '#');
    assert!(view.force_color());
    assert_eq!(
        view.colors(),
        &vec![(red(), 0..1), (green(), 0..2), (blue(), 2..3)]
    );
    assert_eq!(
        view.to_string(),
        "00000005        01 02 03  |   b## |"
    );
}

#[test]
fn a_color_that_has_no_name_is_not_added() {
    let data = [1u8];
    let added = HexViewBuilder::new(&data).try_add_color("Blue", 0..1);
    let view = match added {
        Ok(builder) => builder.finish(),
        Err(_) => panic!("blue is a color"),
    };
    assert_eq!(view.colors(), &vec![(blue(), 0..1)]);
    let added = HexViewBuilder::new(&data)
        .add_colors(vec![(green(), 0..1)])
        .try_add_color("bluish", 0..1);
    let view = match added {
        Ok(_) => panic!("bluish is no color"),
        Err(builder) => builder.finish(),
    };
    assert_eq!(view.colors(), &vec![(green(), 0..1)]);
}

#[test]
fn color_is_used_on_a_terminal_or_when_forced() {
    let data = [1u8];
    let plain = HexViewBuilder::new(&data).finish();
    assert!(!plain.use_color(false));
    assert!(plain.use_color(true));
    let forced = HexViewBuilder::new(&data).force_color().finish();
    assert!(forced.use_color(false));
    assert!(forced.use_color(true));
    assert!(forced.detect_color());
}

#[test]
fn numbers_are_written_in_upper_case_hexadecimal() {
    let digits: String = (0u8..16).map(hex_char).collect();
    assert_eq!(digits, "0123456789ABCDEF");
    assert_eq!(hex_char(0x1F), 'F');
    assert_eq!(hex_char(0xA0), '0');
    let mut text = String::from("x");
    push_hex(&mut text, 0, 0);
    assert_eq!(text, "x0");
    push_hex(&mut text, 0, 1);
    assert_eq!(text, "x00");
    push_hex(&mut text, 0xAB, 2);
    assert_eq!(text, "x00AB");
    push_hex(&mut text, 0xC, 2);
    assert_eq!(text, "x00AB0C");
    let mut text = String::new();
    push_hex(&mut text, 0x1234, 8);
    assert_eq!(text, "00001234");
    let mut text = String::new();
    push_hex(&mut text, 0x1_2345_6789, 8);
    assert_eq!(text, "123456789");
    let mut text = String::new();
    push_hex(&mut text, u128::MAX, 8);
    assert_eq!(text, "F".repeat(32));
    for value in [0u128, 1, 15, 16, 255, 256, 0xFFFF_FFFF, 0x1_0000_0000] {
        let mut text = String::new();
        push_hex(&mut text, value, 8);
        assert_eq!(text, format!("{:08X}", value));
        let mut text = String::new();
        push_hex(&mut text, value, 2);
        assert_eq!(text, format!("{:02X}", value));
    }
}

#[test]
fn a_row_is_written_from_its_parts() {
    let colors: Colors = vec![(red(), 1..2)];
    let mut cursor = hexplay::color::ColorRange::new(&colors);
    let mut sink = ColoredString(Vec::new());
    let padding = Padding::new(1, 2);
    assert_eq!(
        HexView::fmt_line(
            &mut sink,
            0x20,
            &CODEPAGE_ASCII,
            '.',
            &[0x41, 0x00, 0x43],
            &mut cursor,
            &padding
        ),
        Ok(())
    );
    let cells = styled_chars(&sink);
    assert_eq!(
        plain_text(&cells),
        "00000020     41 00 43        |  A.C   |"
    );
    let styled: Vec<usize> = (0..cells.len())
        .filter(|place| cells[*place].1 == Some(red()))
        .collect();
    assert_eq!(styled, vec![16, 17, 33]);

    let mut cursor = hexplay::color::ColorRange::new(&colors);
    cursor.update_offset(1);
    let mut sink = ColorlessString(String::new());
    assert_eq!(
        HexView::fmt_bytes_as_hex(&mut sink, &[0xAB, 0xCD], &mut cursor, &Padding::from_left(1)),
        Ok(())
    );
    assert_eq!(sink.0, "   AB CD");
    let mut sink = ColorlessString(String::new());
    assert_eq!(
        HexView::fmt_bytes_as_char(
            &mut sink,
            &CODEPAGE_ASCII,
            '?',
            &[0x41, 0xCD],
            &mut cursor,
            &Padding::from_right(2)
        ),
        Ok(())
    );
    assert_eq!(sink.0, "A?  ");
}
