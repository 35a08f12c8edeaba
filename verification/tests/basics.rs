use waveform::color::{hexadecimal_to_decimal, hexcolor_to_rgb};
use waveform::paths::target_path;

#[test]
fn max() {
    let vector = vec![0_f64, 1_f64, 2_f64];
    let max = vector.iter().cloned().fold(f64::MIN, f64::max);
    assert_eq!(max, 2_f64);
}

#[test]
fn hex_to_dec() {
    assert_eq!(i64::from_str_radix("ff", 16).unwrap(), 255);
    assert_eq!(i64::from_str_radix("00", 16).unwrap(), 0);
    assert_eq!(i64::from_str_radix("01", 16).unwrap(), 1);
}

#[test]
fn empty() {
    assert!("".is_empty())
}

#[test]
fn target() {
    assert_eq!(target_path("", ""), ".png".to_string());
    assert_eq!(target_path("", "/a/b.mp3"), "/a/b.mp3.png".to_string());
    assert_eq!(target_path("", "a/b.mp3"), "a/b.mp3.png".to_string());
    assert_eq!(
        target_path("output.png", "/a/b.mp3"),
        "output.png/b.mp3.png".to_string()
    );
    assert_eq!(target_path("/output", "/a/b.mp3"), "/output/b.mp3.png".to_string());
    assert_eq!(target_path("/output/", "/a/b.mp3"), "/output/b.mp3.png".to_string());
}

#[test]
fn target_without_file_name_is_empty() {
    assert_eq!(target_path("/output", ""), String::new());
    assert_eq!(target_path("/output", "/"), String::new());
    assert_eq!(target_path("/output", "a/.."), String::new());
    assert_eq!(target_path("/output", "."), String::new());
}

#[test]
fn target_skips_trailing_dot_components() {
    assert_eq!(target_path("/o", "a/."), "/o/a.png".to_string());
    assert_eq!(target_path("/o", "a/./."), "/o/a.png".to_string());
    assert_eq!(target_path("/o", "./b.mp3"), "/o/b.mp3.png".to_string());
    assert_eq!(target_path("/o", "a.mp3/"), "/o/a.mp3.png".to_string());
}

#[test]
fn hex_parses_channel_bytes() {
    assert_eq!(hexadecimal_to_decimal("ff"), 255);
    assert_eq!(hexadecimal_to_decimal("00"), 0);
    assert_eq!(hexadecimal_to_decimal("01"), 1);
    assert_eq!(hexadecimal_to_decimal("+7f"), 127);
    // truncated to the low byte, as a 64-bit parse cast down would be
    assert_eq!(hexadecimal_to_decimal("1ff"), 255);
    // a negative value keeps its two's-complement low byte
    assert_eq!(hexadecimal_to_decimal("-01"), 255);
    // text that does not parse yields 0
    assert_eq!(hexadecimal_to_decimal("zz"), 0);
    assert_eq!(hexadecimal_to_decimal(""), 0);
    assert_eq!(hexadecimal_to_decimal("-"), 0);
    // a value over the 64-bit signed range does not parse
    assert_eq!(hexadecimal_to_decimal("ffffffffffffffffff"), 0);
}

#[test]
fn color_parses_rgb_groups() {
    let c = hexcolor_to_rgb("#ffffff");
    assert_eq!((c.red, c.green, c.blue), (255, 255, 255));
    let c = hexcolor_to_rgb("000000");
    assert_eq!((c.red, c.green, c.blue), (0, 0, 0));
    let c = hexcolor_to_rgb("#102030");
    assert_eq!((c.red, c.green, c.blue), (16, 32, 48));
}
