use hydra::text::{
    chars_of, contains_str, decimal_string, decimal_string_u32, prefix_before_char,
    remove_all_str, same_text, segment_after_last, trim_char,
};

#[test]
fn decimal_strings_match_std() {
    for n in [0u64, 7, 10, 99, 100, 1234567890, u64::MAX] {
        assert_eq!(decimal_string(n), n.to_string());
    }
    assert_eq!(decimal_string_u32(u32::MAX), u32::MAX.to_string());
}

#[test]
fn string_operations_match_std() {
    let samples = ["", "a.b.c", "...", "abc", "x/y/z", "/", "\n\nx\n", "héllo.wörld"];
    for s in samples {
        assert_eq!(prefix_before_char(s, '.'), s.split('.').next().unwrap());
        assert_eq!(segment_after_last(s, '/'), s.split('/').last().unwrap());
        assert_eq!(trim_char(s, '\n'), s.trim_matches('\n'));
        assert_eq!(remove_all_str(s, "."), s.replace('.', ""));
        assert_eq!(chars_of(s), s.chars().collect::<Vec<char>>());
        for p in ["", ".", "b.c", "zz", "ö"] {
            assert_eq!(contains_str(s, p), s.contains(p), "{s:?} contains {p:?}");
        }
    }
    assert!(same_text("abc", "abc"));
    assert!(!same_text("abc", "abd"));
    assert!(!same_text("ab", "abc"));
    assert_eq!(remove_all_str("aaa", "aa"), "a");
    assert_eq!(remove_all_str("abc", ""), "abc");
}
