use osdockx::color::{read_hex_color, HexReading};

fn channels(value: &str) -> Option<(u8, u8, u8, u8)> {
    match read_hex_color(value) {
        HexReading::Read(c) => c,
        HexReading::SplitsCharacter => panic!("unexpected character split in {value:?}"),
    }
}

#[test]
fn hex_colors_read_six_and_eight_digits() {
    assert_eq!(channels("#ff8000"), Some((255, 128, 0, 255)));
    assert_eq!(channels("ff8000"), Some((255, 128, 0, 255)));
    assert_eq!(channels("#00000080"), Some((0, 0, 0, 128)));
    assert_eq!(channels("#cfd5dbff"), Some((207, 213, 219, 255)));
    assert_eq!(channels("#ABCDEF"), Some((171, 205, 239, 255)));
}

#[test]
fn hex_colors_reject_wrong_lengths_and_digits() {
    assert_eq!(channels("#12345"), None);
    assert_eq!(channels("#1234567"), None);
    assert_eq!(channels(""), None);
    assert_eq!(channels("#gg0000"), None);
    assert_eq!(channels("#12 456"), None);
}

#[test]
fn hex_colors_accept_a_leading_plus_in_a_channel() {
    // Each channel is read as an unsigned base-16 number, which may carry a `+`.
    assert_eq!(channels("#+f0000"), Some((15, 0, 0, 255)));
}

#[test]
fn hex_colors_with_multibyte_characters() {
    // "é1234" takes six bytes; its first channel is not a hex number.
    assert_eq!(channels("é1234"), None);
    // "aé123" takes six bytes, and the first channel ends inside "é".
    assert!(matches!(read_hex_color("aé123"), HexReading::SplitsCharacter));
}
