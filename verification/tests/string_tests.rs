use arrayvec::ArrayString;
use guise::string::{TextStorage, VecString};

#[test]
fn vec_string_new_is_empty() {
    let s = VecString::new_in();
    assert_eq!(s.len(), 0);
    assert_eq!(s.as_str(), "");
}

#[test]
fn vec_string_from_str_keeps_text() {
    let s = VecString::from_str_in("héllo");
    assert_eq!(s.as_str(), "héllo");
    assert_eq!(s.len(), 6);
}

#[test]
fn vec_string_from_utf8_accepts_valid_bytes() {
    let s = VecString::from_utf8_in("añb".as_bytes()).unwrap();
    assert_eq!(s.as_str(), "añb");
    let v = VecString::from_utf8_vec(vec![0x61, 0x62]).unwrap();
    assert_eq!(v.as_str(), "ab");
}

#[test]
fn vec_string_from_utf8_rejects_invalid_bytes() {
    assert!(VecString::from_utf8_in(&[0x61, 0xff, 0x62]).is_err());
    assert!(VecString::from_utf8_vec(vec![0xc3]).is_err());
    assert!(VecString::from_utf8_in(&[0xe2, 0x82]).is_err());
}

#[test]
fn vec_string_truncate_keeps_prefix() {
    let mut s = VecString::from_str_in("añb");
    s.truncate(3);
    assert_eq!(s.as_str(), "añ");
    s.truncate(1);
    assert_eq!(s.as_str(), "a");
    s.truncate(1);
    assert_eq!(s.as_str(), "a");
}

#[test]
fn vec_string_try_extend_appends() {
    let mut s = VecString::from_str_in("ab");
    assert!(s.try_extend("cé").is_ok());
    assert_eq!(s.as_str(), "abcé");
    assert!(s.try_extend("").is_ok());
    assert_eq!(s.as_str(), "abcé");
}

#[test]
fn vec_string_try_splice_inserts() {
    let mut s = VecString::from_str_in("held");
    assert!(s.try_splice(2, 0, "llo wor").is_ok());
    assert_eq!(s.as_str(), "hello world");
}

#[test]
fn vec_string_try_splice_deletes() {
    let mut s = VecString::from_str_in("hello world");
    assert!(s.try_splice(5, 6, "").is_ok());
    assert_eq!(s.as_str(), "hello");
}

#[test]
fn vec_string_try_splice_replaces_longer_and_shorter() {
    let mut s = VecString::from_str_in("abcdef");
    assert!(s.try_splice(1, 2, "XYZW").is_ok());
    assert_eq!(s.as_str(), "aXYZWdef");
    assert!(s.try_splice(1, 4, "Q").is_ok());
    assert_eq!(s.as_str(), "aQdef");
    assert!(s.try_splice(0, 1, "ñ").is_ok());
    assert_eq!(s.as_str(), "ñQdef");
}

#[test]
fn vec_string_try_splice_at_end_appends() {
    let mut s = VecString::new_in();
    assert!(s.try_splice(0, 0, "abc").is_ok());
    assert_eq!(s.as_str(), "abc");
    assert!(s.try_splice(3, 0, "d").is_ok());
    assert_eq!(s.as_str(), "abcd");
}

#[test]
fn vec_string_clear_empties() {
    let mut s = VecString::from_str_in("abc");
    s.clear();
    assert_eq!(s.as_str(), "");
    assert_eq!(s.len(), 0);
}

#[test]
fn string_storage_splices_and_extends() {
    let mut s = String::from("añb");
    assert!(TextStorage::try_splice(&mut s, 1, 2, "x").is_ok());
    assert_eq!(s, "axb");
    assert!(TextStorage::try_extend(&mut s, "yz").is_ok());
    assert_eq!(s, "axbyz");
    TextStorage::truncate(&mut s, 2);
    assert_eq!(s, "ax");
    assert_eq!(TextStorage::as_str(&s), "ax");
}

#[test]
fn inline_storage_splices_within_capacity() {
    let mut s: ArrayString<64> = ArrayString::new();
    assert!(TextStorage::try_extend(&mut s, "hello").is_ok());
    assert!(TextStorage::try_splice(&mut s, 1, 3, "ipp").is_ok());
    assert_eq!(TextStorage::as_str(&s), "hippo");
    assert!(TextStorage::try_splice(&mut s, 0, 2, "").is_ok());
    assert_eq!(TextStorage::as_str(&s), "ppo");
    TextStorage::truncate(&mut s, 1);
    assert_eq!(TextStorage::as_str(&s), "p");
}

#[test]
fn inline_storage_refuses_what_does_not_fit() {
    let mut s: ArrayString<64> = ArrayString::new();
    let sixty = "0123456789".repeat(6);
    assert!(TextStorage::try_extend(&mut s, &sixty).is_ok());
    assert!(TextStorage::try_extend(&mut s, "abcde").is_err());
    assert_eq!(TextStorage::as_str(&s), sixty.as_str());
    assert!(TextStorage::try_splice(&mut s, 10, 0, "abcde").is_err());
    assert_eq!(TextStorage::as_str(&s), sixty.as_str());
    assert!(TextStorage::try_splice(&mut s, 10, 1, "abcde").is_ok());
    assert_eq!(TextStorage::as_str(&s).len(), 64);
    assert_eq!(&TextStorage::as_str(&s)[8..16], "89abcde1");
    assert!(TextStorage::try_splice(&mut s, 0, 1, "ñ").is_err());
    assert!(TextStorage::try_splice(&mut s, 0, 2, "ñ").is_ok());
    assert!(TextStorage::as_str(&s).starts_with("ñ2"));
}

#[test]
fn inline_storage_extends_to_exactly_full() {
    let mut s: ArrayString<64> = ArrayString::new();
    let full = "x".repeat(64);
    assert!(TextStorage::try_extend(&mut s, &full).is_ok());
    assert!(TextStorage::try_extend(&mut s, "").is_ok());
    assert!(TextStorage::try_extend(&mut s, "y").is_err());
    assert_eq!(TextStorage::as_str(&s), full.as_str());
}

#[test]
fn wide_inline_storage_holds_128_bytes() {
    let mut s: ArrayString<128> = ArrayString::new();
    let hundred = "0123456789".repeat(10);
    assert!(TextStorage::try_extend(&mut s, &hundred).is_ok());
    assert!(TextStorage::try_splice(&mut s, 5, 0, &"x".repeat(28)).is_ok());
    assert_eq!(TextStorage::as_str(&s).len(), 128);
    assert_eq!(&TextStorage::as_str(&s)[..7], "01234xx");
    assert!(TextStorage::try_extend(&mut s, "y").is_err());
    assert!(TextStorage::try_splice(&mut s, 0, 0, "z").is_err());
    assert!(TextStorage::try_splice(&mut s, 0, 1, "z").is_ok());
    assert!(TextStorage::as_str(&s).starts_with("z1234"));
    TextStorage::truncate(&mut s, 3);
    assert_eq!(TextStorage::as_str(&s), "z12");
}

#[test]
fn invalid_utf8_gives_the_error_of_from_utf8() {
    for bytes in [vec![0x61, 0xff, 0x62], vec![0xc3], vec![0xe2, 0x82], vec![0x61, 0x62, 0xed, 0xa0, 0x80]] {
        let expected = core::str::from_utf8(&bytes).unwrap_err();
        let err = VecString::from_utf8_in(&bytes).err().unwrap();
        assert_eq!(err, expected);
        assert_eq!(err.valid_up_to(), expected.valid_up_to());
        assert_eq!(VecString::from_utf8_vec(bytes.clone()).err().unwrap(), expected);
    }
    assert_eq!(VecString::from_utf8_in(&[0x61, 0xff]).err().unwrap().valid_up_to(), 1);
}
