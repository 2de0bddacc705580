use hexplay::color::{
    black, black_bold, blue, blue_bold, cyan, cyan_bold, green, green_bold, magenta,
    is_sorted_by_start, magenta_bold, red, red_bold, sort_by_start, white, white_bold, yellow,
    yellow_bold, Color, ColorRange, Colors, Spec,
};

fn fg(color: Color, bold: bool) -> Spec {
    Spec {
        fg: Some(color),
        bg: None,
        bold,
        intense: false,
        underline: false,
    }
}

#[test]
fn the_named_styles_set_the_foreground_and_boldness() {
    assert_eq!(red(), fg(Color::Red, false));
    assert_eq!(red_bold(), fg(Color::Red, true));
    assert_eq!(blue(), fg(Color::Blue, false));
    assert_eq!(blue_bold(), fg(Color::Blue, true));
    assert_eq!(green(), fg(Color::Green, false));
    assert_eq!(green_bold(), fg(Color::Green, true));
    assert_eq!(yellow(), fg(Color::Yellow, false));
    assert_eq!(yellow_bold(), fg(Color::Yellow, true));
    assert_eq!(magenta(), fg(Color::Magenta, false));
    assert_eq!(magenta_bold(), fg(Color::Magenta, true));
    assert_eq!(black(), fg(Color::Black, false));
    assert_eq!(black_bold(), fg(Color::Black, true));
    assert_eq!(cyan(), fg(Color::Cyan, false));
    assert_eq!(cyan_bold(), fg(Color::Cyan, true));
    assert_eq!(white(), fg(Color::White, false));
    assert_eq!(white_bold(), fg(Color::White, true));
}

#[test]
fn a_new_style_sets_nothing() {
    assert_eq!(
        Spec::new(),
        Spec {
            fg: None,
            bg: None,
            bold: false,
            intense: false,
            underline: false,
        }
    );
}

#[test]
fn a_color_name_is_read_in_any_case() {
    assert_eq!(Spec::named("red"), Some(fg(Color::Red, false)));
    assert_eq!(Spec::named("RED"), Some(fg(Color::Red, false)));
    assert_eq!(Spec::named("Magenta"), Some(fg(Color::Magenta, false)));
    assert_eq!(Spec::named("black"), Some(fg(Color::Black, false)));
    assert_eq!(Spec::named("blue"), Some(fg(Color::Blue, false)));
    assert_eq!(Spec::named("green"), Some(fg(Color::Green, false)));
    assert_eq!(Spec::named("cyan"), Some(fg(Color::Cyan, false)));
    assert_eq!(Spec::named("yellow"), Some(fg(Color::Yellow, false)));
    assert_eq!(Spec::named("white"), Some(fg(Color::White, false)));
}

#[test]
fn a_color_is_read_from_numbers() {
    assert_eq!(Spec::named("12"), Some(fg(Color::Ansi256(12), false)));
    assert_eq!(Spec::named("0x10"), Some(fg(Color::Ansi256(16), false)));
    assert_eq!(Spec::named("1,2,0xff"), Some(fg(Color::Rgb(1, 2, 255), false)));
}

#[test]
fn a_text_that_names_no_color_gives_no_style() {
    assert_eq!(Spec::named("reddish"), None);
    assert_eq!(Spec::named(""), None);
    assert_eq!(Spec::named("256"), None);
    assert_eq!(Spec::named("1,2"), None);
}

#[test]
fn a_parsed_color_becomes_a_plain_foreground() {
    assert_eq!(Spec::from_parsed(None), None);
    assert_eq!(
        Spec::from_parsed(Some(Color::Cyan)),
        Some(fg(Color::Cyan, false))
    );
    assert_eq!(Spec::with_fg(Color::Cyan, true), fg(Color::Cyan, true));
}

#[test]
fn sorting_orders_by_start_and_keeps_ties_in_order() {
    let colors: Colors = vec![
        (red(), 42..72),
        (yellow_bold(), 10..11),
        (green(), 32..38),
        (blue(), 10..20),
        (cyan(), 0..1),
        (white(), 32..33),
    ];
    let sorted = sort_by_start(colors);
    assert_eq!(
        sorted,
        vec![
            (cyan(), 0..1),
            (yellow_bold(), 10..11),
            (blue(), 10..20),
            (green(), 32..38),
            (white(), 32..33),
            (red(), 42..72),
        ]
    );
}

#[test]
fn a_list_is_sorted_when_no_start_goes_down() {
    assert!(is_sorted_by_start(&Vec::new()));
    assert!(is_sorted_by_start(&vec![(red(), 3..1)]));
    assert!(is_sorted_by_start(&vec![(red(), 0..9), (blue(), 0..1), (red(), 4..5)]));
    assert!(!is_sorted_by_start(&vec![(red(), 0..9), (blue(), 5..6), (red(), 4..5)]));
    assert!(!is_sorted_by_start(&vec![(red(), 1..9), (blue(), 0..6)]));
    let colors: Colors = vec![(red(), 42..72), (yellow_bold(), 10..11), (green(), 32..38)];
    assert!(!is_sorted_by_start(&colors));
    assert!(is_sorted_by_start(&sort_by_start(colors)));
}

#[test]
fn sorting_nothing_gives_nothing() {
    assert_eq!(sort_by_start(Vec::new()), Vec::new());
}

#[test]
fn the_cursor_gives_the_first_covering_range() {
    let colors: Colors = vec![(red(), 2..4), (blue(), 3..8), (green(), 10..12)];
    let mut cursor = ColorRange::new(&colors);
    assert_eq!(cursor.get(0), None);
    assert_eq!(cursor.get(1), None);
    assert_eq!(cursor.get(2), Some(&red()));
    assert_eq!(cursor.get(3), Some(&red()));
    assert_eq!(cursor.get(4), Some(&blue()));
    assert_eq!(cursor.get(7), Some(&blue()));
    assert_eq!(cursor.get(8), None);
    assert_eq!(cursor.get(9), None);
    assert_eq!(cursor.get(10), Some(&green()));
    assert_eq!(cursor.get(11), Some(&green()));
    assert_eq!(cursor.get(12), None);
    assert_eq!(cursor.get(1000), None);
}

#[test]
fn the_cursor_answers_relative_to_its_offset() {
    let colors: Colors = vec![(red(), 2..4), (blue(), 16..18)];
    let mut cursor = ColorRange::new(&colors);
    cursor.update_offset(16);
    assert_eq!(cursor.get(0), Some(&blue()));
    assert_eq!(cursor.get(1), Some(&blue()));
    assert_eq!(cursor.get(2), None);
}

#[test]
fn the_cursor_may_be_asked_for_a_lower_index_again() {
    let colors: Colors = vec![(red(), 2..4), (blue(), 6..8)];
    let mut cursor = ColorRange::new(&colors);
    assert_eq!(cursor.get(7), Some(&blue()));
    assert_eq!(cursor.get(2), Some(&red()));
    assert_eq!(cursor.get(6), Some(&blue()));
    cursor.update_offset(0);
    assert_eq!(cursor.get(3), Some(&red()));
}

#[test]
fn a_copy_of_the_cursor_walks_on_its_own() {
    let colors: Colors = vec![(red(), 0..1), (blue(), 1..2)];
    let mut cursor = ColorRange::new(&colors);
    let mut copy = cursor.clone();
    assert_eq!(cursor.get(1), Some(&blue()));
    assert_eq!(copy.get(0), Some(&red()));
    assert_eq!(copy.get(1), Some(&blue()));
}

#[test]
fn an_index_beyond_the_largest_number_has_no_style() {
    let colors: Colors = vec![(red(), 0..usize::MAX)];
    let mut cursor = ColorRange::new(&colors);
    cursor.update_offset(usize::MAX);
    assert_eq!(cursor.get(0), None);
    assert_eq!(cursor.get(1), None);
    cursor.update_offset(usize::MAX - 1);
    assert_eq!(cursor.get(0), Some(&red()));
}

#[test]
fn an_empty_or_backward_range_covers_nothing() {
    let colors: Colors = vec![(red(), 3..3), (blue(), 5..2), (green(), 6..7)];
    let mut cursor = ColorRange::new(&colors);
    for index in 0..6 {
        assert_eq!(cursor.get(index), None);
    }
    assert_eq!(cursor.get(6), Some(&green()));
}
