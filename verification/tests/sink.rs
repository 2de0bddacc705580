use hexplay::color::{blue, red, ColorlessString, Spec};
use hexplay::sink::{ColoredString, Sink, Span, WriteFailed};

#[test]
fn the_colorless_sink_keeps_text_and_drops_styles() {
    let mut sink = ColorlessString(String::from("ab"));
    assert!(!sink.supports_color());
    assert_eq!(sink.write_str("cd"), Ok(()));
    assert_eq!(sink.write_colored(&red(), "ef"), Ok(()));
    sink.set_color(&blue());
    assert_eq!(sink.write_str("g"), Ok(()));
    sink.reset();
    sink.flush();
    assert_eq!(sink.0, "abcdefg");
}

#[test]
fn the_colorless_sink_takes_utf8_bytes() {
    let mut sink = ColorlessString(String::new());
    assert_eq!(sink.write("h\u{e9}llo".as_bytes()), 6);
    assert_eq!(sink.write(b""), 0);
    assert_eq!(sink.write("\u{263a}".as_bytes()), 3);
    assert_eq!(sink.0, "h\u{e9}llo\u{263a}");
}

#[test]
fn the_colored_sink_keeps_each_run_with_its_style() {
    let mut sink = ColoredString(Vec::new());
    assert!(sink.supports_color());
    assert_eq!(sink.write_str("ab"), Ok(()));
    assert_eq!(sink.write_colored(&red(), "cd"), Ok(()));
    assert_eq!(sink.write_str(""), Ok(()));
    assert_eq!(
        sink.0,
        vec![
            Span {
                text: String::from("ab"),
                style: None
            },
            Span {
                text: String::from("cd"),
                style: Some(red())
            },
            Span {
                text: String::new(),
                style: None
            },
        ]
    );
}

#[test]
fn a_write_failure_is_a_value_of_its_own() {
    let failed: Result<(), WriteFailed> = Err(WriteFailed);
    assert_eq!(failed, Err(WriteFailed));
    assert_ne!(failed, Ok(()));
    let spec: Spec = red();
    assert_ne!(spec, blue());
}
