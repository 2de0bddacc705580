use hexplay::format::{calculate_begin_padding, calculate_end_padding, Padding};
use hexplay::HexViewBuilder;

#[test]
fn test_begin_padding() {
    assert_eq!(calculate_begin_padding(0, 16), 0);
    assert_eq!(calculate_begin_padding(16, 16), 0);
    assert_eq!(calculate_begin_padding(54, 16), 6);
}

#[test]
fn a_full_line_is_formatted_as_expected() {
    let data: Vec<u8> = (0x40..0x40 + 0xF + 1).collect();

    let row_view = HexViewBuilder::new(&data).row_width(data.len()).finish();

    let result = row_view.to_string();

    assert_eq!(
        result,
        "00000000  40 41 42 43 44 45 46 47 48 49 4A 4B 4C 4D 4E 4F  | @ABCDEFGHIJKLMNO |"
    );
}

#[test]
fn an_incomplete_line_is_padded_on_the_right() {
    let data = ['a' as u8; 10];

    let row_view = HexViewBuilder::new(&data).row_width(16).finish();

    let result = row_view.to_string();

    assert_eq!(
        result,
        "00000000  61 61 61 61 61 61 61 61 61 61                    | aaaaaaaaaa       |"
    );
}

#[test]
fn an_unaligned_address_causes_padded_on_the_left() {
    let data = ['a' as u8; 11];

    let row_view = HexViewBuilder::new(&data)
        .address_offset(5)
        .row_width(16)
        .finish();

    let result = row_view.to_string();
    println!("{}", result);

    assert_eq!(
        result,
        "00000000                 61 61 61 61 61 61 61 61 61 61 61  |      aaaaaaaaaaa |"
    );
}

#[test]
fn an_unaligned_incomplete_line_causes_padding_on_both_sides() {
    let data = ['a' as u8; 8];

    let row_view = HexViewBuilder::new(&data)
        .address_offset(5)
        .row_width(16)
        .finish();

    let result = row_view.to_string();
    println!("{}", result);

    assert_eq!(
        result,
        "00000000                 61 61 61 61 61 61 61 61           |      aaaaaaaa    |"
    );
}

#[test]
fn decreasing_the_row_width_increases_the_total_character_count() {
    let data: Vec<u8> = (0..64).collect();

    let short_row_view = HexViewBuilder::new(&data).row_width(1).finish();
    let long_row_view = HexViewBuilder::new(&data).row_width(16).finish();

    let short_row_result = short_row_view.to_string();
    let long_row_result = long_row_view.to_string();

    assert!(long_row_result.len() < short_row_result.len());
}

#[test]
fn the_address_offset_is_zero_by_default() {
    let data = [99; 16];

    let row_view = HexViewBuilder::new(&data).row_width(16).finish();

    let result = row_view.to_string();
    let address_offset_str = format!("{:X}", 0);

    assert!(result.contains(&address_offset_str));
}

#[test]
fn the_address_offset_is_used_when_given() {
    let data = [0; 16];

    let address_offset = data.len() * 10;
    let row_view = HexViewBuilder::new(&data)
        .row_width(16)
        .address_offset(address_offset)
        .finish();

    let result = row_view.to_string();
    let address_offset_str = format!("{:X}", address_offset);

    assert!(result.contains(&address_offset_str));
}

#[test]
fn the_address_offset_increases_by_the_row_width_for_each_row() {
    let data = [0; 16 * 5];

    let address_offset = data.len() * 10;
    let row_view = HexViewBuilder::new(&data)
        .row_width(16)
        .address_offset(address_offset)
        .finish();

    let result = row_view.to_string();
    let row_2_address_offset_str = format!("{:X}", address_offset + 2 * row_view.row_width());
    let row_4_address_offset_str = format!("{:X}", address_offset + 4 * row_view.row_width());

    assert!(result.contains(&row_2_address_offset_str));
    assert!(result.contains(&row_4_address_offset_str));
}

#[test]
fn the_row_width_is_16_by_default() {
    let data = [0; 17];

    let one_line_result = HexViewBuilder::new(&data[0..16]).finish().to_string();
    let two_line_result = HexViewBuilder::new(&data[0..17]).finish().to_string();

    println!("{}", one_line_result);
    println!("{}", two_line_result);

    assert_eq!(1, one_line_result.lines().count());
    assert_eq!(2, two_line_result.lines().count());
}

#[test]
fn the_replacement_character_is_dot_by_default() {
    let data = [0; 1];
    let empty_cp = [];

    let result = HexViewBuilder::new(&data)
        .codepage(&empty_cp)
        .finish()
        .to_string();

    println!("{}", result);

    assert!(result.contains('.'));
}

#[test]
fn the_replacement_character_can_be_changed() {
    let data = [0; 1];
    let empty_cp = [];

    let result = HexViewBuilder::new(&data)
        .codepage(&empty_cp)
        .replacement_character(std::char::REPLACEMENT_CHARACTER)
        .finish()
        .to_string();

    println!("{}", result);

    assert!(result.contains(std::char::REPLACEMENT_CHARACTER));
}

#[test]
fn all_characters_can_be_printed() {
    let data: Vec<u8> = (0u16..256u16).map(|v| v as u8).collect();

    let dump_view = HexViewBuilder::new(&data)
        .address_offset(20)
        .row_width(8)
        .finish();

    let result = dump_view.to_string();
    println!("{}", result);

    assert!(!result.is_empty());
}

#[test]
fn padding_constructors_set_the_sides() {
    assert_eq!(Padding::new(3, 4), Padding { left: 3, right: 4 });
    assert_eq!(Padding::from_left(3), Padding { left: 3, right: 0 });
    assert_eq!(Padding::from_right(4), Padding { left: 0, right: 4 });
    assert_eq!(Padding::default(), Padding { left: 0, right: 0 });
}

#[test]
fn the_end_padding_fills_the_last_row() {
    assert_eq!(calculate_end_padding(0, 16), 0);
    assert_eq!(calculate_end_padding(16, 16), 0);
    assert_eq!(calculate_end_padding(17, 16), 15);
    assert_eq!(calculate_end_padding(10, 16), 6);
    assert_eq!(calculate_end_padding(5 + 8, 16), 3);
}

#[test]
fn a_subslice_with_its_offset_is_shown_in_three_rows() {
    let data: Vec<u8> = (0u8..200u8).collect();
    let view = HexViewBuilder::new(&data[40..72])
        .address_offset(40)
        .row_width(16)
        .finish();
    let result = view.to_string();
    let mut lines = result.lines();
    assert_eq!(
        "00000020                          28 29 2A 2B 2C 2D 2E 2F  |         ()*+,-./ |",
        lines.next().unwrap()
    );
    assert_eq!(
        "00000030  30 31 32 33 34 35 36 37 38 39 3A 3B 3C 3D 3E 3F  | 0123456789:;<=>? |",
        lines.next().unwrap()
    );
    assert_eq!(
        "00000040  40 41 42 43 44 45 46 47                          | @ABCDEFG         |",
        lines.next().unwrap()
    );
    assert_eq!(None, lines.next());
}
