use kitty_graphics::{diacritic_to_index, image_id_from_fg, KITTY_PLACEHOLDER_CHAR};

#[test]
fn test_image_id_from_fg() {
    assert_eq!(image_id_from_fg(0x01, 0x02, 0x03), 0x010203);
    assert_eq!(image_id_from_fg(0xff, 0xff, 0xff), 0xffffff);
}

#[test]
fn colors_round_trip() {
    for id in [0u32, 1, 0xff, 0x100, 0xabcdef, 0xff_ffff] {
        let r = ((id >> 16) & 0xff) as u8;
        let g = ((id >> 8) & 0xff) as u8;
        let b = (id & 0xff) as u8;
        assert_eq!(image_id_from_fg(r, g, b), id);
    }
}

#[test]
fn diacritics_count_from_the_first() {
    assert_eq!(diacritic_to_index('\u{305}'), 0);
    assert_eq!(diacritic_to_index('\u{30d}'), 8);
    assert_eq!(diacritic_to_index('a'), 0);
    assert_eq!(diacritic_to_index('\u{10305}'), 0);
    assert_eq!(diacritic_to_index(KITTY_PLACEHOLDER_CHAR), 0xebe9);
}

#[test]
fn placeholder_character() {
    assert_eq!(KITTY_PLACEHOLDER_CHAR as u32, 0x10EEEE);
}
