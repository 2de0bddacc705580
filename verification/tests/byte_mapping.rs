use hexplay::byte_mapping::{as_char, CODEPAGE_ASCII, NIL};

#[test]
fn test_hardcoded_ascii_table_matches_the_generated_one() {
    let codepage: Vec<char> = std::iter::empty()
        .chain(std::iter::repeat(NIL).take(32)) // The first 32 control characters
        .chain((32..127).map(|c| std::char::from_u32(c).unwrap())) // The following 95 printable chars
        .chain(std::iter::once(NIL)) // The DEL character
        .chain(std::iter::repeat(NIL).take(128)) // The characters for the 8th bit
        .collect();

    assert_eq!(&CODEPAGE_ASCII[..], &*codepage);
}

#[test]
fn a_byte_outside_a_short_table_is_shown_as_the_fallback() {
    let table = ['a', 'b'];
    assert_eq!(as_char(0, &table, '.'), 'a');
    assert_eq!(as_char(1, &table, '.'), 'b');
    assert_eq!(as_char(2, &table, '.'), '.');
    assert_eq!(as_char(255, &table, '.'), '.');
    assert_eq!(as_char(0, &[], '?'), '?');
}
