use matsux_term::text::{
    byte_len_of, chars_of, decimal_chars, display_name_of, file_name_of, join_path, join_strings,
    lines_of, owned, push_byte_prefix, push_pad2, push_prefix, same_text, string_of,
    to_lowercase, trim_chars, words_of, CharClass,
};

fn s(v: &Vec<char>) -> String {
    v.iter().collect()
}

#[test]
fn chars_round_trip() {
    let v = chars_of("hé\u{1F600}");
    assert_eq!(v, vec!['h', 'é', '\u{1F600}']);
    assert_eq!(string_of(&v), "hé\u{1F600}");
    assert_eq!(owned("abc"), "abc");
}

#[test]
fn decimal_digits() {
    assert_eq!(s(&decimal_chars(0)), "0");
    assert_eq!(s(&decimal_chars(7)), "7");
    assert_eq!(s(&decimal_chars(1234567890)), "1234567890");
    assert_eq!(s(&decimal_chars(u64::MAX)), u64::MAX.to_string());
    let mut t = String::new();
    push_pad2(&mut t, 5);
    push_pad2(&mut t, 42);
    assert_eq!(t, "0542");
}

#[test]
fn trimming_whitespace_and_quotes() {
    let t = trim_chars(&chars_of(" \t\u{a0}x y\u{3000}\n"), &CharClass::Whitespace);
    assert_eq!(s(&t), "x y");
    let q = trim_chars(&chars_of("\"\"abc\""), &CharClass::Is('"'));
    assert_eq!(s(&q), "abc");
    let e = trim_chars(&chars_of("   "), &CharClass::Whitespace);
    assert!(e.is_empty());
}

#[test]
fn lines_like_std() {
    for text in ["", "a", "a\n", "a\r\nb", "a\n\nb\n", "\r", "x\r\n", "a\rb\n"] {
        let got: Vec<String> = lines_of(&chars_of(text)).iter().map(s).collect();
        let want: Vec<String> = text.lines().map(|l| l.to_string()).collect();
        assert_eq!(got, want, "lines of {:?}", text);
    }
}

#[test]
fn words_like_std() {
    for text in ["", "  ", "one", " two  words ", "a\tb\nc\u{2003}d"] {
        let got: Vec<String> = words_of(&chars_of(text)).iter().map(s).collect();
        let want: Vec<String> = text.split_whitespace().map(|w| w.to_string()).collect();
        assert_eq!(got, want, "words of {:?}", text);
    }
}

#[test]
fn file_names_like_path() {
    for p in ["/usr/bin/", "tmp/foo.txt", "foo.txt/.", "foo.txt/.//", "foo.txt/..", "/", "", ".", "./a", "a/./b"] {
        let got = file_name_of(p);
        let want = std::path::Path::new(p).file_name().map(|n| n.to_str().unwrap().to_string());
        assert_eq!(got, want, "file name of {:?}", p);
    }
    assert_eq!(display_name_of("/a/b/c.rs"), "c.rs");
    assert_eq!(display_name_of("/"), "/");
}

#[test]
fn joining_paths() {
    assert_eq!(join_path("/home/u", "a.rs"), "/home/u/a.rs");
    assert_eq!(join_path("/home/u/", "a.rs"), "/home/u/a.rs");
    assert_eq!(join_path("", "a.rs"), "a.rs");
    assert_eq!(join_path("/home/u", "/etc/x"), "/etc/x");
    assert_eq!(join_path("/r", ""), "/r/");
}

#[test]
fn prefixes_and_joins() {
    let mut t = owned(">");
    push_prefix(&mut t, "åäöabc", 4);
    assert_eq!(t, ">åäöa");
    let mut u = String::new();
    push_prefix(&mut u, "ab", 10);
    assert_eq!(u, "ab");
    let parts = vec!["a".to_string(), "b".to_string(), "c".to_string()];
    assert_eq!(join_strings(&parts, ", "), "a, b, c");
    assert_eq!(join_strings(&Vec::new(), ", "), "");
    assert!(same_text("ab", "ab"));
    assert!(!same_text("ab", "abc"));
}

#[test]
fn byte_prefixes() {
    assert_eq!(byte_len_of("å"), 2);
    let mut t = String::new();
    push_byte_prefix(&mut t, "abcdef", 3);
    assert_eq!(t, "abc");
    assert_eq!(to_lowercase("ÅBC"), "åbc");
}
