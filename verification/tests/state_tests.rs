use guise::convert::{cast_u16, cast_u32, cast_usize};
use guise::ctrl_state::{open, set_open, set_text_cursor, set_value, text_cursor, value};

#[test]
fn text_cursor_round_trips_little_endian() {
    let mut s = [0u8; 64];
    set_text_cursor(&mut s, 0x0102_0304);
    assert_eq!(text_cursor(&s), 0x0102_0304);
    assert_eq!(&s[0..4], &[4, 3, 2, 1]);
    assert!(s[4..].iter().all(|b| *b == 0));
}

#[test]
fn value_round_trips_negative_numbers() {
    let mut s = [7u8; 64];
    set_value(&mut s, -2);
    assert_eq!(value(&s), -2);
    assert_eq!(&s[4..8], &[0xfe, 0xff, 0xff, 0xff]);
    assert_eq!(s[3], 7);
    assert_eq!(s[8], 7);
    set_value(&mut s, i32::MIN);
    assert_eq!(value(&s), i32::MIN);
}

#[test]
fn fields_do_not_disturb_each_other() {
    let mut s = [0u8; 64];
    set_text_cursor(&mut s, 42);
    set_value(&mut s, 1234);
    assert_eq!(text_cursor(&s), 42);
    assert_eq!(value(&s), 1234);
}

#[test]
fn open_flag_round_trips() {
    let mut s = [9u8; 64];
    assert!(!open(&s));
    set_open(&mut s, true);
    assert!(open(&s));
    assert_eq!(s[0], 1);
    assert_eq!(s[1], 9);
    set_open(&mut s, false);
    assert!(!open(&s));
    assert_eq!(s[0], 0);
}

#[test]
fn casts_keep_values() {
    assert_eq!(cast_u16(65535), 65535u16);
    assert_eq!(cast_u32(4_000_000_000), 4_000_000_000u32);
    assert_eq!(cast_usize(123), 123usize);
}
