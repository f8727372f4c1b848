use mini_dbg::debuginfo::{basename, line_in_window};
use mini_dbg::util::{parse_address, parse_maps_base};

#[test]
fn parses_prefixed_hex_addresses() {
    assert_eq!(parse_address("0x1129"), Some(0x1129));
    assert_eq!(parse_address("0X2A"), Some(42));
    assert_eq!(parse_address("0x555555554000"), Some(0x555555554000));
}

#[test]
fn parses_bare_hex_addresses() {
    assert_eq!(parse_address("1f"), Some(31));
    assert_eq!(parse_address("DEADbeef"), Some(0xDEAD_BEEF));
    assert_eq!(parse_address("0"), Some(0));
    assert_eq!(parse_address("+ff"), Some(255));
}

#[test]
fn rejects_malformed_addresses() {
    assert_eq!(parse_address(""), None);
    assert_eq!(parse_address("0x"), None);
    assert_eq!(parse_address("main"), None);
    assert_eq!(parse_address("0x12g4"), None);
    assert_eq!(parse_address("-4"), None);
    assert_eq!(parse_address("++1"), None);
}

#[test]
fn rejects_addresses_beyond_the_address_space() {
    assert_eq!(parse_address("0xffffffffffffffff"), Some(usize::MAX));
    assert_eq!(parse_address("0x10000000000000000"), None);
}

#[test]
fn reads_load_base_from_maps_line() {
    let line = "555555554000-555555558000 r-xp 00000000 08:01 1835009 /home/u/a.out";
    assert_eq!(parse_maps_base(line), Some(0x555555554000));
    assert_eq!(parse_maps_base("0-1000 rw-p"), Some(0));
}

#[test]
fn rejects_malformed_maps_line() {
    assert_eq!(parse_maps_base(""), None);
    assert_eq!(parse_maps_base("-555555558000"), None);
    assert_eq!(parse_maps_base("zz-1000"), None);
}

#[test]
fn basename_takes_the_last_component() {
    assert_eq!(basename("/home/u/src/main.c"), "main.c");
    assert_eq!(basename("main.c"), "main.c");
    assert_eq!(basename("a/b/"), "");
    assert_eq!(basename(""), "");
}

#[test]
fn listing_window_flags_the_current_line() {
    // After the first stop of a hit-and-continue run, the rendered line is
    // the first statement's: the window around line 1 with radius 1 shows
    // file lines 1 and 2 and marks line 1.
    assert_eq!(line_in_window(0, 1, 1), (true, true));
    assert_eq!(line_in_window(1, 1, 1), (true, false));
    assert_eq!(line_in_window(2, 1, 1), (false, false));
    // A stop deeper in the file: line 5, radius 1 shows lines 4 to 6.
    assert_eq!(line_in_window(2, 5, 1), (false, false));
    assert_eq!(line_in_window(3, 5, 1), (true, false));
    assert_eq!(line_in_window(4, 5, 1), (true, true));
    assert_eq!(line_in_window(5, 5, 1), (true, false));
    assert_eq!(line_in_window(6, 5, 1), (false, false));
}
