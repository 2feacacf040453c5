use blit_server::id_map::IdMap;
use blit_server::random::{drawn_u32, drawn_u64, random_u32, random_u64};
use blit_server::text::{
    join_path, parse_unsigned, push_number, same_text, split_at_char, starts_with, trim,
};
use blit_server::text_map::TextMap;

#[test]
fn white_space_is_trimmed_as_unicode_has_it() {
    for s in ["", " ", "\u{2003}a b\u{3000}\n", "\u{85}x", "\u{200b}y", "plain", "\u{feff}z "] {
        assert_eq!(trim(s), s.trim());
    }
}

#[test]
fn numbers_are_read_and_written() {
    for s in ["0", "+7", "007", "18446744073709551615", "18446744073709551616", "", "+", "-1", "1 "]
    {
        assert_eq!(parse_unsigned(s, u64::MAX), s.parse::<u64>().ok());
        assert_eq!(parse_unsigned(s, 255), s.parse::<u8>().ok().map(u64::from));
    }
    let mut t = String::from("n=");
    push_number(&mut t, 0);
    push_number(&mut t, u64::MAX);
    assert_eq!(t, "n=018446744073709551615");
}

#[test]
fn texts_are_split_and_joined() {
    assert_eq!(split_at_char(":a::b", ':'), vec!["", "a", "", "b"]);
    assert_eq!(split_at_char("", ':'), vec![""]);
    assert_eq!(join_path("/a", "b"), "/a/b");
    assert_eq!(join_path("/a/", "b"), "/a/b");
    assert_eq!(join_path("", "b"), "b");
    assert_eq!(join_path("/a", "/b"), "/b");
    assert!(starts_with("prefix", "pre"));
    assert!(!starts_with("pre", "prefix"));
    assert!(same_text("\u{e9}", "\u{e9}"));
    assert!(!same_text("e", "\u{e9}"));
}

#[test]
fn maps_keep_one_value_to_a_key_in_order() {
    let mut m = IdMap::new();
    m.insert(9, 'a');
    m.insert(3, 'b');
    m.insert(9, 'c');
    assert_eq!((m.len(), m.id_at(0), m.id_at(1)), (2, 3, 9));
    assert_eq!(m.get(9), Some(&'c'));
    assert_eq!(m.remove(9), Some('c'));
    assert_eq!(m.remove(9), None);
    let mut m = TextMap::new();
    assert_eq!(m.insert("b".to_string(), 1), None);
    assert_eq!(m.insert("b".to_string(), 2), Some(1));
    assert_eq!(m.get("b"), Some(&2));
    assert_eq!(m.remove("a"), None);
    assert_eq!(m.remove("b"), Some(2));
    assert_eq!(m.len(), 0);
}

#[test]
fn drawn_bytes_are_read_from_the_low_one_up() {
    assert_eq!(drawn_u64(Ok(()), &vec![1, 2, 0, 0, 0, 0, 0, 0x80]), Ok(0x8000_0000_0000_0201));
    assert_eq!(drawn_u32(Ok(()), &vec![1, 2, 3, 0xff]), Ok(0xff03_0201));
    assert_eq!(drawn_u64(Err("no source".to_string()), &vec![1; 8]), Err("no source".to_string()));
    assert_eq!(drawn_u32(Err("no source".to_string()), &vec![1; 4]), Err("no source".to_string()));
}

#[test]
fn random_numbers_differ() {
    let wide: Vec<u64> = (0..8).map(|_| random_u64().unwrap()).collect();
    assert!(wide.iter().any(|n| *n != wide[0]));
    assert!(wide.iter().any(|n| *n > u64::from(u32::MAX)));
    let narrow: Vec<u32> = (0..8).map(|_| random_u32().unwrap()).collect();
    assert!(narrow.iter().any(|n| *n != narrow[0]));
}
