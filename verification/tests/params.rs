use kitty_graphics::decimal::{parse_i32, parse_u16_or, parse_u32, push_decimal};
use kitty_graphics::KittyParams;

#[test]
fn test_parse_params() {
    let p = KittyParams::parse(b"a=T,f=100,s=640,v=480,i=12345,m=1");
    assert_eq!(p.action, b'T');
    assert_eq!(p.format, 100);
    assert_eq!(p.width, 640);
    assert_eq!(p.height, 480);
    assert_eq!(p.image_id, 12345);
    assert!(p.more_chunks);
}

#[test]
fn defaults() {
    let p = KittyParams::parse(b"");
    assert_eq!(p, KittyParams { action: b'T', cursor_move: true, ..KittyParams::default() });
    assert_eq!(p.format, 0);
    assert!(!p.more_chunks);
}

#[test]
fn cursor_moves_by_default() {
    assert!(KittyParams::parse(b"a=T").cursor_move);
    assert!(KittyParams::parse(b"C=0").cursor_move);
    assert!(!KittyParams::parse(b"C=1").cursor_move);
    assert!(KittyParams::parse(b"C=1,C=0").cursor_move);
}

#[test]
fn remaining_keys() {
    let p = KittyParams::parse(b"q=2,t=d,C=0,U=1,d=A,z=-5");
    assert_eq!(p.quiet, 2);
    assert_eq!(p.transmission, b'd');
    assert!(p.cursor_move);
    assert!(p.unicode_place);
    assert_eq!(p.delete_what, b'A');
    assert_eq!(p.z_index, -5);
}

#[test]
fn fields_that_are_no_pairs_are_ignored() {
    let p = KittyParams::parse(b"i=,i,=5,ii=6,x=9,,s:7,v=8");
    let expected =
        KittyParams { action: b'T', cursor_move: true, height: 8, ..KittyParams::default() };
    assert_eq!(p, expected);
}

#[test]
fn later_pair_counts() {
    let p = KittyParams::parse(b"i=1,s=2,i=3");
    assert_eq!(p.image_id, 3);
    assert_eq!(p.width, 2);
    assert_eq!(KittyParams::parse(b"m=1,m=0").more_chunks, false);
}

#[test]
fn quiet_wraps_below_the_digits() {
    assert_eq!(KittyParams::parse(b"q=1").quiet, 1);
    assert_eq!(KittyParams::parse(b"q=/").quiet, 255);
}

#[test]
fn unsigned_numbers() {
    assert_eq!(parse_u32(b"0"), 0);
    assert_eq!(parse_u32(b"+17"), 17);
    assert_eq!(parse_u32(b"0000000000017"), 17);
    assert_eq!(parse_u32(b"4294967295"), 4294967295);
    assert_eq!(parse_u32(b"4294967296"), 0);
    assert_eq!(parse_u32(b"99999999999999999999999"), 0);
    assert_eq!(parse_u32(b"-1"), 0);
    assert_eq!(parse_u32(b"12x"), 0);
    assert_eq!(parse_u32(b""), 0);
    assert_eq!(parse_u32(b"+"), 0);
    assert_eq!(parse_u32(b"\xff"), 0);
    assert_eq!(parse_u16_or(b"65535", 1), 65535);
    assert_eq!(parse_u16_or(b"65536", 1), 1);
}

#[test]
fn signed_numbers() {
    assert_eq!(parse_i32(b"-2147483648"), i32::MIN);
    assert_eq!(parse_i32(b"-2147483649"), 0);
    assert_eq!(parse_i32(b"2147483647"), i32::MAX);
    assert_eq!(parse_i32(b"2147483648"), 0);
    assert_eq!(parse_i32(b"+3"), 3);
    assert_eq!(parse_i32(b"-"), 0);
    assert_eq!(parse_i32(b"--3"), 0);
    assert_eq!(parse_i32(b"+-3"), 0);
}

#[test]
fn numbers_written_down_are_read_again() {
    for n in [0u32, 9, 10, 99, 100, 12345, u32::MAX] {
        let mut out = Vec::new();
        push_decimal(&mut out, n);
        assert_eq!(out, n.to_string().into_bytes());
        assert_eq!(parse_u32(&out), n);
    }
}
