use guise::autocomplete::{autocomplete_matches, autocomplete_open_after, autocomplete_pick, str_contains};
use guise::draw_list::{DrawCommand, DrawList};
use guise::int_input::{int_input_commit, parse_i32};
use guise::size::percent_number;

#[test]
fn str_contains_finds_substrings() {
    assert!(str_contains("hello world", "o w"));
    assert!(str_contains("hello", ""));
    assert!(str_contains("héllo", "él"));
    assert!(!str_contains("hello", "hellos"));
    assert!(!str_contains("hello", "lol"));
}

#[test]
fn autocomplete_lists_candidates_containing_text() {
    let candidates = ["apple", "banana", "grape", "pineapple", "apricot"];
    let r = autocomplete_matches("ap", &candidates);
    assert_eq!(r.as_slice(), &[0, 2, 3, 4]);
    let r = autocomplete_matches("nan", &candidates);
    assert_eq!(r.as_slice(), &[1]);
    let r = autocomplete_matches("zz", &candidates);
    assert!(r.as_slice().is_empty());
}

#[test]
fn autocomplete_of_empty_text_is_empty() {
    let candidates = ["a", "b"];
    let r = autocomplete_matches("", &candidates);
    assert!(r.as_slice().is_empty());
}

#[test]
fn autocomplete_stops_at_twenty() {
    let owned: Vec<String> = (0..30).map(|i| format!("item{i}")).collect();
    let candidates: Vec<&str> = owned.iter().map(|s| s.as_str()).collect();
    let r = autocomplete_matches("item", &candidates);
    let expected: Vec<usize> = (0..20).collect();
    assert_eq!(r.as_slice(), expected.as_slice());
}

#[test]
fn percent_number_strips_the_sign() {
    assert_eq!(percent_number("50%").ok(), Some("50"));
    assert_eq!(percent_number("%").ok(), Some(""));
    assert_eq!(percent_number("12.5%").ok(), Some("12.5"));
    assert!(percent_number("50").is_err());
    assert!(percent_number("").is_err());
    assert!(percent_number("5%0").is_err());
}

#[test]
fn parse_i32_reads_what_from_str_reads() {
    for text in ["0", "42", "-42", "+7", "007", "-0", "2147483647", "-2147483648", "", "-", "+",
        " 1", "1 ", "1_000", "2147483648", "-2147483649", "99999999999", "12a", "--1", "+-1"]
    {
        assert_eq!(parse_i32(text), text.parse::<i32>().ok(), "{text:?}");
    }
    assert_eq!(parse_i32("-2147483648"), Some(i32::MIN));
    assert_eq!(parse_i32("0000000000000000000012"), Some(12));
}

#[test]
fn int_input_commit_clamps_and_reports_changes() {
    let mut value = 5;
    assert!(int_input_commit("12", &mut value, 0, 10));
    assert_eq!(value, 10);
    assert!(!int_input_commit("10", &mut value, 0, 10));
    assert_eq!(value, 10);
    assert!(int_input_commit("-3", &mut value, -5, 10));
    assert_eq!(value, -3);
    assert!(!int_input_commit("abc", &mut value, -5, 10));
    assert_eq!(value, -3);
    assert!(int_input_commit("-9", &mut value, -5, 10));
    assert_eq!(value, -5);
}

#[test]
fn draw_list_indexes_quads_and_merges_commands() {
    let mut list: DrawList<u8, u8> = DrawList::new();
    list.push_quad([1, 2, 3, 4], 9, false, 7);
    assert_eq!(list.vertices(), &[1, 2, 3, 4]);
    assert_eq!(list.indices(), &[0, 1, 2, 2, 3, 0]);
    assert_eq!(list.commands(), &[DrawCommand { scissor_rect: 9, texture_id: 7, index_count: 6 }]);
    // Same scissor and texture: the command grows.
    list.push_quad([5, 6, 7, 8], 9, true, 7);
    assert_eq!(&list.indices()[6..], &[4, 5, 6, 6, 7, 4]);
    assert_eq!(list.commands(), &[DrawCommand { scissor_rect: 9, texture_id: 7, index_count: 12 }]);
    // Another texture: a new command.
    list.push_quad([0; 4], 9, true, 8);
    assert_eq!(list.commands().len(), 2);
    assert_eq!(list.commands()[1], DrawCommand { scissor_rect: 9, texture_id: 8, index_count: 6 });
    // Another scissor rectangle: a new command.
    list.push_quad([0; 4], 3, false, 8);
    assert_eq!(list.commands().len(), 3);
    assert_eq!(list.indices().len(), 24);
    assert_eq!(list.vertices().len() % 4, 0);
    assert_eq!(list.indices().len(), list.vertices().len() / 4 * 6);
    let covered: u32 = list.commands().iter().map(|c| c.index_count).sum();
    assert_eq!(covered as usize, list.indices().len());
    assert!(list.commands().iter().all(|c| c.index_count > 0));
    assert!(list.indices().iter().all(|&i| (i as usize) < list.vertices().len()));
    list.clear();
    assert!(list.vertices().is_empty() && list.indices().is_empty() && list.commands().is_empty());
}

#[test]
fn autocomplete_pick_replaces_the_text() {
    let mut s = guise::string::VecString::from_str_in("ap");
    autocomplete_pick(&mut s, "apple");
    assert_eq!(s.as_str(), "apple");
    let mut small: arrayvec::ArrayString<64> = arrayvec::ArrayString::new();
    small.push_str("x");
    let long = "y".repeat(65);
    autocomplete_pick(&mut small, &long);
    assert_eq!(small.as_str(), "");
}

#[test]
fn autocomplete_opens_while_active_and_closes_on_pick_or_leaving() {
    assert!(autocomplete_open_after(false, true, false, false));
    assert!(autocomplete_open_after(true, false, false, false));
    assert!(!autocomplete_open_after(false, false, false, false));
    assert!(!autocomplete_open_after(true, true, true, false));
    assert!(!autocomplete_open_after(true, false, false, true));
}
