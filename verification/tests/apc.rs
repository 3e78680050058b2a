use kitty_graphics::extract_kitty_apc_buffered;

#[test]
fn test_extract_kitty_apc_none() {
    let mut pending = Vec::new();
    let (filtered, apcs) = extract_kitty_apc_buffered(b"hello world", &mut pending);
    assert!(apcs.is_empty());
    assert_eq!(filtered, b"hello world");
}

#[test]
fn test_extract_kitty_apc_simple() {
    let mut pending = Vec::new();
    let input = b"\x1b_Ga=q,i=31;AAAA\x1b\\rest";
    let (filtered, apcs) = extract_kitty_apc_buffered(input, &mut pending);
    assert_eq!(filtered, b"rest");
    assert_eq!(apcs.len(), 1);
    assert_eq!(&apcs[0], b"a=q,i=31;AAAA");
}

#[test]
fn test_extract_kitty_apc_mixed() {
    let mut pending = Vec::new();
    let input = b"before\x1b_Ga=d,d=A\x1b\\after";
    let (filtered, apcs) = extract_kitty_apc_buffered(input, &mut pending);
    assert_eq!(filtered, b"beforeafter");
    assert_eq!(apcs.len(), 1);
    assert_eq!(&apcs[0], b"a=d,d=A");
}

#[test]
fn short_terminator_ends_a_command() {
    let mut pending = Vec::new();
    let (filtered, apcs) = extract_kitty_apc_buffered(b"x\x1b_Gone\x9cy\x1b_Gtwo\x9c", &mut pending);
    assert_eq!(filtered, b"xy");
    assert_eq!(apcs, vec![b"one".to_vec(), b"two".to_vec()]);
    assert!(pending.is_empty());
}

#[test]
fn other_apc_passes_through() {
    let mut pending = Vec::new();
    let input = b"\x1b_Xdata\x1b\\tail\x1b[0m";
    let (filtered, apcs) = extract_kitty_apc_buffered(input, &mut pending);
    assert_eq!(filtered, input);
    assert!(apcs.is_empty());
    assert!(pending.is_empty());
}

#[test]
fn unfinished_command_is_kept_for_the_next_read() {
    let mut pending = Vec::new();
    let (filtered, apcs) = extract_kitty_apc_buffered(b"a\x1b_Gi=1;AA", &mut pending);
    assert_eq!(filtered, b"a");
    assert!(apcs.is_empty());
    assert_eq!(pending, b"\x1b_Gi=1;AA");

    let (filtered, apcs) = extract_kitty_apc_buffered(b"BB\x1b", &mut pending);
    assert!(filtered.is_empty());
    assert!(apcs.is_empty());
    assert_eq!(pending, b"\x1b_Gi=1;AABB\x1b");

    let (filtered, apcs) = extract_kitty_apc_buffered(b"\\z", &mut pending);
    assert_eq!(filtered, b"z");
    assert_eq!(apcs, vec![b"i=1;AABB".to_vec()]);
    assert!(pending.is_empty());
}

#[test]
fn every_cut_gives_the_same() {
    let input = b"ab\x1b_Gi=7;QUJD\x1b\\cd\x9ce";
    for cut in 0..=input.len() {
        let mut pending = Vec::new();
        let (mut filtered, mut apcs) = extract_kitty_apc_buffered(&input[..cut], &mut pending);
        let (more, later) = extract_kitty_apc_buffered(&input[cut..], &mut pending);
        filtered.extend(more);
        apcs.extend(later);
        assert_eq!(filtered, b"abcd\x9ce");
        assert_eq!(apcs, vec![b"i=7;QUJD".to_vec()]);
        assert!(pending.is_empty());
    }
}

#[test]
fn cut_inside_the_introducer_is_kept() {
    let mut pending = Vec::new();
    let (filtered, apcs) = extract_kitty_apc_buffered(b"a\x1b", &mut pending);
    assert_eq!(filtered, b"a");
    assert!(apcs.is_empty());
    assert_eq!(pending, b"\x1b");
    let (filtered, apcs) = extract_kitty_apc_buffered(b"_Gx\x1b\\", &mut pending);
    assert!(filtered.is_empty());
    assert_eq!(apcs, vec![b"x".to_vec()]);
    assert!(pending.is_empty());

    let (filtered, apcs) = extract_kitty_apc_buffered(b"\x1b_", &mut pending);
    assert!(filtered.is_empty());
    assert!(apcs.is_empty());
    assert_eq!(pending, b"\x1b_");
    let (filtered, apcs) = extract_kitty_apc_buffered(b"Ga=q\x1b\\ok", &mut pending);
    assert_eq!(filtered, b"ok");
    assert_eq!(apcs, vec![b"a=q".to_vec()]);
    assert!(pending.is_empty());
}

#[test]
fn what_only_looked_like_a_command_passes_through_later() {
    let mut pending = Vec::new();
    let (filtered, _) = extract_kitty_apc_buffered(b"x\x1b", &mut pending);
    assert_eq!(filtered, b"x");
    let (filtered, apcs) = extract_kitty_apc_buffered(b"[0m", &mut pending);
    assert_eq!(filtered, b"\x1b[0m");
    assert!(apcs.is_empty());
    assert!(pending.is_empty());

    let (filtered, _) = extract_kitty_apc_buffered(b"\x1b\x1b_", &mut pending);
    assert_eq!(filtered, b"\x1b");
    assert_eq!(pending, b"\x1b_");
    let (filtered, _) = extract_kitty_apc_buffered(b"X", &mut pending);
    assert_eq!(filtered, b"\x1b_X");
    assert!(pending.is_empty());
}

#[test]
fn one_byte_at_a_time_gives_the_same() {
    let input = b"a\x1b\x1b_Gone\x9c\x1b_X\x1b_Gtwo\x1b\x1b\\b";
    let mut pending = Vec::new();
    let mut filtered = Vec::new();
    let mut apcs = Vec::new();
    for b in input {
        let (more, later) = extract_kitty_apc_buffered(&[*b], &mut pending);
        filtered.extend(more);
        apcs.extend(later);
    }
    assert_eq!(filtered, b"a\x1b\x1b_Xb");
    assert_eq!(apcs, vec![b"one".to_vec(), b"two\x1b".to_vec()]);
    assert!(pending.is_empty());
}
