use std::path::{Component as StdComponent, Path};

use kurumi_containerd::env::Environment;
use kurumi_containerd::order::stable_order;
use kurumi_containerd::path::{
    is_absolute, join_paths, leads_up, parent_path, path_components, path_file_name, strip_root,
    Component,
};
use kurumi_containerd::text::{
    chars_of, compare_texts, contains_bytes, contains_text, decimal_text, is_whitespace, lines_of,
    parse_number, split_text, trimmed, trimmed_start, two_digit_text, words_of, Side,
};

fn collect(chars: &[char]) -> String {
    chars.iter().collect()
}

#[test]
fn whitespace_is_that_of_unicode() {
    let mut code: u32 = 0;
    while code < 0x11_0000 {
        if let Some(c) = char::from_u32(code) {
            assert_eq!(is_whitespace(c), c.is_whitespace(), "{code:x}");
        }
        code += 1;
    }
}

#[test]
fn trims_and_splits_like_std() {
    for text in ["", " ", "a", "  a b\t", "\u{3000}x\u{a0}", "a\nb\r\nc\n", "\n\n", "a\r", "a\r\nb"]
    {
        let chars = chars_of(text);
        assert_eq!(collect(&trimmed(&chars)), text.trim());
        assert_eq!(collect(&trimmed_start(&chars)), text.trim_start());
        assert_eq!(lines_of(text), text.lines().collect::<Vec<_>>());
        assert_eq!(words_of(text), text.split_whitespace().collect::<Vec<_>>());
        assert_eq!(split_text(&chars, 'b'), text.split('b').collect::<Vec<_>>());
    }
}

#[test]
fn numbers_are_written_and_read_back() {
    for number in [0, 1, 9, 10, 99, 1_234_567, u64::MAX] {
        assert_eq!(decimal_text(number), number.to_string());
        assert_eq!(parse_number(&decimal_text(number), u64::MAX), Some(number));
    }
    assert_eq!(parse_number("+7", 10), Some(7));
    assert_eq!(parse_number("11", 10), None);
    assert_eq!(parse_number("", 10), None);
    assert_eq!(parse_number("+", 10), None);
    assert_eq!(parse_number("-1", 10), None);
    assert_eq!(parse_number("18446744073709551616", u64::MAX), None);
    assert_eq!(parse_number("007", 10), Some(7));
    assert_eq!(two_digit_text(3), "03");
    assert_eq!(two_digit_text(42), "42");
}

#[test]
fn texts_are_found_and_compared() {
    assert!(contains_text("nodev overlay\n", "overlay"));
    assert!(!contains_text("over", "overlay"));
    assert!(contains_text("x", ""));
    assert!(contains_bytes(b"exec busybox init", b"busybox"));
    assert!(!contains_bytes(b"busy box", b"busybox"));
    assert!(matches!(compare_texts("a", "b"), Side::Before));
    assert!(matches!(compare_texts("a", "a"), Side::Same));
    assert!(matches!(compare_texts("ab", "a"), Side::After));
}

#[test]
fn path_components_are_those_of_std() {
    for text in [
        "", "/", ".", "..", "a", "a/b", "/a/b/", "//a//b", "./a", "a/./b", "/./a", "../a/..",
        "a/..", "/..", "...", "a/.", "./", "././a",
    ] {
        let expected: Vec<Component<String>> = Path::new(text)
            .components()
            .map(|component| match component {
                StdComponent::RootDir => Component::RootDir,
                StdComponent::CurDir => Component::CurDir,
                StdComponent::ParentDir => Component::ParentDir,
                StdComponent::Normal(name) => Component::Normal(name.to_str().unwrap().to_owned()),
                StdComponent::Prefix(_) => unreachable!(),
            })
            .collect();
        assert_eq!(path_components(text), expected, "{text}");
        assert_eq!(is_absolute(text), Path::new(text).is_absolute());
        assert_eq!(
            leads_up(text),
            Path::new(text).components().any(|c| c == StdComponent::ParentDir)
        );
        assert_eq!(
            path_file_name(text),
            Path::new(text).file_name().map(|name| name.to_str().unwrap().to_owned()),
            "{text}"
        );
        assert_eq!(join_paths("/base", text), Path::new("/base").join(text).to_str().unwrap());
        assert_eq!(join_paths("base/", text), Path::new("base/").join(text).to_str().unwrap());
        assert_eq!(join_paths("", text), Path::new("").join(text).to_str().unwrap());
    }
}

#[test]
fn parents_and_roots_are_stripped() {
    for text in ["", "/", "a", "/a", "a/b", "/a/b", "/a/b/", "a//b", "/a/./b"] {
        assert_eq!(
            parent_path(text),
            Path::new(text).parent().map(|parent| parent.to_str().unwrap().to_owned()),
            "{text}"
        );
    }
    assert_eq!(strip_root("/sbin/init"), "sbin/init");
    assert_eq!(strip_root("sbin/init"), "sbin/init");
}

#[test]
fn environments_are_sorted_and_merged() {
    let mut environment = Environment::new();
    environment.insert("B".to_owned(), "1".to_owned());
    environment.insert("A".to_owned(), "2".to_owned());
    environment.insert("B".to_owned(), "3".to_owned());
    assert_eq!(environment.len(), 2);
    assert_eq!(environment.entry(0).key, "A");
    assert_eq!(environment.entry(1).key, "B");
    assert_eq!(environment.get("B").unwrap(), "3");
    assert_eq!(environment.get("C"), None);
    let mut other = environment.copy();
    other.insert("C".to_owned(), "4".to_owned());
    environment.insert("A".to_owned(), "5".to_owned());
    other.extend(&environment);
    assert_eq!(other.get("A").unwrap(), "5");
    assert_eq!(other.get("C").unwrap(), "4");
    assert_eq!(environment.get("C"), None);
}

#[test]
fn sorting_is_stable() {
    let names: Vec<String> = ["b", "a", "b", "a"].iter().map(|name| name.to_string()).collect();
    assert_eq!(stable_order(&names), [1, 3, 0, 2]);
}
