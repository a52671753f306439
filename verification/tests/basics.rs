use accelrd::graph::components;
use accelrd::number::{dec_i64, dec_padded, float_literal, hex_padded, parse_i32, parse_u32, parse_u64};
use accelrd::paths::{file_name, join, parent, parts_of, same_path};
use accelrd::scan::{fields, lines, rsplit_after, split_once, strip_prefix, trim, CharClass};
use accelrd::sorting::sort_texts;
use accelrd::text::less;
use accelrd::textmap::TextMap;

#[test]
fn numerals_read_back() {
    assert_eq!(parse_u64("18446744073709551615"), Some(u64::MAX));
    assert_eq!(parse_u64("18446744073709551616"), None);
    assert_eq!(parse_u64("+7"), Some(7));
    assert_eq!(parse_u64(""), None);
    assert_eq!(parse_u32("4294967296"), None);
    assert_eq!(parse_i32("-2147483648"), Some(i32::MIN));
    assert_eq!(dec_i64(i64::MIN), "-9223372036854775808");
    assert_eq!(hex_padded(255, 4), "00ff");
    assert_eq!(dec_padded(7, 2), "07");
    for n in [0u64, 9, 10, 12345, u64::MAX] {
        assert_eq!(parse_u64(&accelrd::number::dec(n)), Some(n));
    }
}

#[test]
fn floats_as_the_standard_library_reads_them() {
    for s in [
        "1", "1.5", ".5", "5.", "1e3", "-1E-3", "+2", "inf", "-Infinity", "NaN", "nan", "", ".", "e3", "1e", "1.2.3",
        "0x1", " 1", "infin", "+", "1_0",
    ] {
        assert_eq!(float_literal(s), s.parse::<f64>().is_ok(), "{}", s);
    }
}

#[test]
fn pieces_of_text() {
    assert_eq!(trim("\u{2003} a b\n"), "a b");
    assert_eq!(lines("a\r\nb\n\nc"), vec!["a", "b", "", "c"]);
    assert_eq!(fields(" a\tb  c ", CharClass::Space), vec!["a", "b", "c"]);
    assert_eq!(split_once("k: v: w", ':'), Some(("k".to_string(), " v: w".to_string())));
    assert_eq!(rsplit_after("a.b.c", '.').as_deref(), Some("c"));
    assert_eq!(rsplit_after("abc", '.'), None);
    assert_eq!(strip_prefix("card0", "card").as_deref(), Some("0"));
}

#[test]
fn texts_compare_as_in_the_standard_library() {
    for (a, b) in [("a", "b"), ("", "a"), ("ab", "a"), ("é", "z"), ("same", "same")] {
        assert_eq!(less(a, b), a < b);
        assert_eq!(less(b, a), b < a);
    }
    let v = vec!["b".to_string(), "é".to_string(), "a".to_string(), "b".to_string()];
    let mut w = v.clone();
    w.sort();
    assert_eq!(sort_texts(v), w);
}

#[test]
fn maps_keep_their_keys_in_order() {
    let mut m = TextMap::new();
    m.insert("b".to_string(), 1);
    m.insert("a".to_string(), 2);
    m.insert("b".to_string(), 3);
    assert_eq!(m.len(), 2);
    assert_eq!(m.get("b"), Some(&3));
    let keys: Vec<&str> = m.entries().iter().map(|e| e.0.as_str()).collect();
    assert_eq!(keys, vec!["a", "b"]);
    assert_eq!(m.remove("a"), Some(2));
    assert_eq!(m.remove("a"), None);
    assert!(m.contains_key("b"));
}

#[test]
fn paths_by_their_parts() {
    assert_eq!(file_name("/a/b/").as_deref(), Some("b"));
    assert_eq!(file_name("/"), None);
    assert_eq!(join("/a", "b"), "/a/b");
    assert!(same_path(&parent("/a/b").unwrap(), &parts_of("/a/")));
    assert!(parent("/").is_none());
}

#[test]
fn linked_parts_of_a_graph() {
    let parts = components(&vec![vec![2], vec![], vec![0], vec![4], vec![3]]);
    let mut sizes: Vec<usize> = parts.iter().map(|p| p.len()).collect();
    sizes.sort();
    assert_eq!(sizes, vec![2, 2]);
}
