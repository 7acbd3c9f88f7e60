use kv_router::id_map::IdMap;
use kv_router::text::{
    contains, drop_final_slashes, is_before, lower, parse_usize, render_number, starts_with, trim,
    visible_text,
};

#[test]
fn identifiers_map_to_their_newest_value() {
    let mut map: IdMap<u32> = IdMap::new();
    assert_eq!(map.len(), 0);
    map.insert(7, 1);
    map.insert(8, 2);
    map.insert(7, 3);
    assert_eq!(map.len(), 2);
    assert_eq!(map.get(7), Some(&3));
    assert!(map.contains(8));
    map.remove(7);
    assert_eq!(map.get(7), None);
    assert_eq!(map.len(), 1);
}

#[test]
fn texts_behave_as_those_of_the_standard_library() {
    for text in ["", " a ", "\tA b\u{3000}", "A//", "/", "\u{85}x\u{a0}", "+12", "007", "12x"] {
        assert_eq!(trim(text), text.trim());
        assert_eq!(lower(text), text.to_ascii_lowercase());
        assert_eq!(drop_final_slashes(text), text.trim_end_matches('/'));
        assert_eq!(parse_usize(text), text.parse::<usize>().ok());
        assert_eq!(starts_with(text, "A"), text.starts_with("A"));
        assert_eq!(contains(text, "x"), text.contains("x"));
        assert_eq!(is_before(text, "A b"), text < "A b");
    }
    assert_eq!(parse_usize("18446744073709551615"), Some(usize::MAX));
    assert_eq!(parse_usize("18446744073709551616"), None);
    assert_eq!(parse_usize("+"), None);
    assert_eq!(render_number(0), "0");
    assert_eq!(render_number(u64::MAX), "18446744073709551615");
    assert_eq!(visible_text(&b"a b\t~".to_vec()).as_deref(), Some("a b\t~"));
    assert_eq!(visible_text(&vec![0x7f]), None);
    assert_eq!(visible_text(&vec![0x0a]), None);
}
