use kitty_graphics::extract_last_cup;

#[test]
fn position_counts_from_zero() {
    assert_eq!(extract_last_cup(b"\x1b[5;10H"), Some((4, 9)));
    assert_eq!(extract_last_cup(b"text\x1b[65535;1Hmore"), Some((65534, 0)));
}

#[test]
fn last_sequence_counts() {
    assert_eq!(extract_last_cup(b"\x1b[1;2H..\x1b[3;4H.."), Some((2, 3)));
}

#[test]
fn missing_parameters_count_as_one() {
    assert_eq!(extract_last_cup(b"\x1b[H"), Some((0, 0)));
    assert_eq!(extract_last_cup(b"\x1b[7H"), Some((6, 0)));
    assert_eq!(extract_last_cup(b"\x1b[;8H"), Some((0, 7)));
    assert_eq!(extract_last_cup(b"\x1b[0;0H"), Some((0, 0)));
}

#[test]
fn numbers_out_of_range_count_as_one() {
    assert_eq!(extract_last_cup(b"\x1b[70000;3H"), Some((0, 2)));
    assert_eq!(extract_last_cup(b"\x1b[2;3;9H"), Some((1, 2)));
}

#[test]
fn text_after_the_sequence_does_not_matter() {
    assert_eq!(extract_last_cup(b"\x1b[5;10HHello"), Some((4, 9)));
    assert_eq!(extract_last_cup(b"\x1b[5;10H\x1b[31mHello H"), Some((4, 9)));
}

#[test]
fn other_sequences_are_no_positions() {
    assert_eq!(extract_last_cup(b"\x1b[31mHello"), None);
    assert_eq!(extract_last_cup(b"\x1b[31mH"), None);
    assert_eq!(extract_last_cup(b"\x1b[+5;-3H"), None);
    assert_eq!(extract_last_cup(b"\x1b[?5H"), None);
}

#[test]
fn no_sequence_gives_none() {
    assert_eq!(extract_last_cup(b""), None);
    assert_eq!(extract_last_cup(b"Hello"), None);
    assert_eq!(extract_last_cup(b"\x1b[5;10"), None);
}

#[test]
fn bytes_that_are_no_text_do_not_hide_a_position() {
    assert_eq!(extract_last_cup(b"\x1b[5;10H\x1b[\xffH"), Some((4, 9)));
    assert_eq!(extract_last_cup(b"\x1b[5;5H\x1b[\xff;3H"), Some((4, 4)));
    assert_eq!(extract_last_cup(b"\x1b[\xc3H"), None);
}

#[test]
fn search_goes_back_only_so_far() {
    // Nineteen bytes of parameters are the most.
    assert_eq!(extract_last_cup(b"\x1b[0000000000000000003H"), Some((2, 0)));
    assert_eq!(extract_last_cup(b"\x1b[00000000000000000003H"), None);
    assert_eq!(extract_last_cup(b"\x1b[2;2H 00000000000000000000000000H"), Some((1, 1)));
}
