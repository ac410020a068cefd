use bcon::utils::color::{parse_hex_color, parse_osc_color};

#[test]
fn test_parse_hex_color() {
    assert_eq!(parse_hex_color("ff0000"), Some((255, 0, 0)));
    assert_eq!(parse_hex_color("00ff00"), Some((0, 255, 0)));
    assert_eq!(parse_hex_color("0000ff"), Some((0, 0, 255)));
    assert_eq!(parse_hex_color("#ff0000"), Some((255, 0, 0)));
    assert_eq!(parse_hex_color("f00"), Some((255, 0, 0)));
    assert_eq!(parse_hex_color("#f00"), Some((255, 0, 0)));
    assert_eq!(parse_hex_color("invalid"), None);
}

#[test]
fn test_parse_osc_color() {
    assert_eq!(parse_osc_color(b"#ff0000"), Some((255, 0, 0)));
    assert_eq!(parse_osc_color(b"rgb:ff/00/00"), Some((255, 0, 0)));
    assert_eq!(parse_osc_color(b"rgb:ffff/0000/0000"), Some((255, 0, 0)));
}

#[test]
fn hex_color_edge_cases() {
    assert_eq!(parse_hex_color("##abc"), Some((0xaa, 0xbb, 0xcc)));
    assert_eq!(parse_hex_color("+f+f+f"), None);
    assert_eq!(parse_hex_color("+ff"), None);
    assert_eq!(parse_hex_color("ff00"), None);
    assert_eq!(parse_hex_color("gg0000"), None);
}

#[test]
fn osc_color_edge_cases() {
    assert_eq!(parse_osc_color(b"rgb:f/8/0"), Some((255, 136, 0)));
    assert_eq!(parse_osc_color(b"rgb:1234/5678/9abc"), Some((0x12, 0x56, 0x9a)));
    assert_eq!(parse_osc_color(b"rgb:123/00/00"), None);
    assert_eq!(parse_osc_color(b"rgb:ff/00"), None);
    assert_eq!(parse_osc_color(b"rgb:ff/00/00/00"), None);
    assert_eq!(parse_osc_color(b"ff0000"), None);
    assert_eq!(parse_osc_color(b"#\xff\xfe"), None);
}

#[test]
fn colour_fields_cutting_a_character_are_invalid() {
    // "aé" + "bcd": the field boundary at byte 2 falls inside 'é'
    assert_eq!(parse_hex_color("a\u{e9}bcd"), None);
    assert_eq!(parse_hex_color("\u{65e5}\u{672c}"), None);
    assert_eq!(parse_osc_color("#a\u{e9}bcd".as_bytes()), None);
    assert_eq!(parse_osc_color(b"#+f+f+f"), None);
    assert_eq!(parse_osc_color(b"rgb:+f/00/00"), None);
}
