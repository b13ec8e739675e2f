use light::effects::{parse_hex_color, MatrixTestEffect, MonochromeEffect, TurnOffEffect};
use light::layout::Color;

const RED: Color = Color { r: 255, g: 0, b: 0 };
const GREEN: Color = Color { r: 0, g: 255, b: 0 };
const BLUE: Color = Color { r: 0, g: 0, b: 255 };
const WHITE: Color = Color { r: 255, g: 255, b: 255 };

#[test]
fn hex_colors() {
    assert_eq!(parse_hex_color("#FF8000"), Some(Color { r: 255, g: 128, b: 0 }));
    assert_eq!(parse_hex_color("  ff8000  "), Some(Color { r: 255, g: 128, b: 0 }));
    assert_eq!(parse_hex_color("#f80"), Some(Color { r: 255, g: 136, b: 0 }));
    assert_eq!(parse_hex_color("#11223344"), Some(Color { r: 0x11, g: 0x22, b: 0x33 }));
    assert_eq!(parse_hex_color("#12345"), None);
    assert_eq!(parse_hex_color("#GG0000"), None);
    assert_eq!(parse_hex_color(""), None);
}

#[test]
fn monochrome_fills_its_color() {
    let mut e = MonochromeEffect::new();
    assert_eq!(e.color, WHITE);
    e.set_color(parse_hex_color("#0000ff"));
    e.set_color(parse_hex_color("nonsense"));
    assert_eq!(e.color, BLUE);
    let mut buf = vec![Color::default(); 3];
    e.tick(&mut buf);
    assert_eq!(buf, vec![BLUE; 3]);
    assert_eq!(e.id(), "monochrome");
}

#[test]
fn turn_off_is_black() {
    let mut buf = vec![WHITE; 4];
    TurnOffEffect.tick(&mut buf);
    assert_eq!(buf, vec![Color { r: 0, g: 0, b: 0 }; 4]);
    assert_eq!(TurnOffEffect.name(), "Turn Off");
}

#[test]
fn matrix_test_pattern() {
    let mut e = MatrixTestEffect::new();
    e.resize(4, 4);
    // At 60 ms the scan line is on row 1.
    let mut buf = vec![Color::default(); 16];
    e.tick(60, &mut buf);
    assert_eq!(buf[0], RED);
    assert_eq!(buf[3], GREEN);
    assert_eq!(&buf[4..8], &[WHITE; 4]);
    assert_eq!(buf[8], BLUE);
    assert_eq!(buf[15], WHITE);
    assert_eq!(buf[14], WHITE);
    assert_eq!(buf[13], BLUE);
}

#[test]
fn matrix_test_leaves_extra_leds() {
    let mut e = MatrixTestEffect::new();
    e.resize(2, 1);
    let mut buf = vec![Color { r: 1, g: 1, b: 1 }; 3];
    e.tick(0, &mut buf);
    // Row 0 is the scan line at 0 ms.
    assert_eq!(&buf[..2], &[WHITE, WHITE]);
    assert_eq!(buf[2], Color { r: 1, g: 1, b: 1 });
}
