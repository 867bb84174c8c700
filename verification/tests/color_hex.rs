use woven_shell::color::hex_rgba;

#[test]
fn six_and_eight_digit_colours() {
    assert_eq!(hex_rgba("#c792ea"), (0xc7, 0x92, 0xea, 255));
    assert_eq!(hex_rgba("C792EA"), (0xc7, 0x92, 0xea, 255));
    assert_eq!(hex_rgba("#80112233"), (0x11, 0x22, 0x33, 0x80));
    assert_eq!(hex_rgba("##0a0010"), (0x0a, 0x00, 0x10, 255));
}

#[test]
fn bad_pairs_and_lengths() {
    assert_eq!(hex_rgba("#zz1122"), (0, 0x11, 0x22, 255));
    assert_eq!(hex_rgba("#zz112233"), (0x11, 0x22, 0x33, 255));
    assert_eq!(hex_rgba("#123"), (0, 0, 0, 255));
    assert_eq!(hex_rgba(""), (0, 0, 0, 255));
    assert_eq!(hex_rgba("+a+b+c"), (10, 11, 12, 255));
}
