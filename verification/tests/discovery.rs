use upkeep::discovery::{
    build_package_list, contains_name, derive_packages, extract_tokens, is_whitespace,
};

fn names(items: &[&str]) -> Vec<String> {
    items.iter().map(|s| s.to_string()).collect()
}

#[test]
fn listing_with_duplicate_and_excluded_name() {
    let output = "alpha 1.0\nbeta 2.0\nexcluded-1 3.0\nalpha 1.0\n";
    let list = derive_packages(output, &names(&["excluded-1"]));
    assert_eq!(list, names(&["alpha", "beta"]));
}

#[test]
fn empty_listing_gives_empty_package_list() {
    assert_eq!(derive_packages("", &names(&["excluded-1"])), Vec::<String>::new());
    assert_eq!(derive_packages("", &[]), Vec::<String>::new());
}

#[test]
fn listing_of_blank_and_indented_lines_gives_empty_package_list() {
    let output = "\n   \n\t\n  Package Version\n  ------- -------\n";
    assert_eq!(extract_tokens(output), Vec::<String>::new());
    assert_eq!(derive_packages(output, &[]), Vec::<String>::new());
}

#[test]
fn listing_whose_names_are_all_excluded_gives_empty_package_list() {
    let output = "Package Version\n------- -------\n";
    let list = derive_packages(output, &names(&["Package", "-------"]));
    assert_eq!(list, Vec::<String>::new());
}

#[test]
fn tokens_are_the_leading_names_of_the_lines() {
    let tokens = extract_tokens("alpha 1.0\nbeta 2.0\nexcluded-1 3.0\nalpha 1.0\n");
    assert_eq!(tokens, names(&["alpha", "beta", "excluded-1", "alpha"]));
}

#[test]
fn token_is_the_longest_run_without_whitespace() {
    assert_eq!(extract_tokens("alpha==1.0 (latest)"), names(&["alpha==1.0"]));
    assert_eq!(extract_tokens("a\tb"), names(&["a"]));
    assert_eq!(extract_tokens("name"), names(&["name"]));
    assert_eq!(extract_tokens("name\n"), names(&["name"]));
}

#[test]
fn line_that_begins_with_whitespace_is_skipped() {
    assert_eq!(extract_tokens(" alpha 1.0\nbeta 2.0\n\tgamma\n"), names(&["beta"]));
    assert_eq!(extract_tokens("\n\nalpha\n\n"), names(&["alpha"]));
}

#[test]
fn last_line_needs_no_line_feed() {
    assert_eq!(extract_tokens("alpha 1\nbeta"), names(&["alpha", "beta"]));
    assert_eq!(extract_tokens("alpha 1\nbeta 2"), names(&["alpha", "beta"]));
}

#[test]
fn carriage_return_ends_a_name_but_not_a_line() {
    assert_eq!(extract_tokens("alpha\r\nbeta\r\n"), names(&["alpha", "beta"]));
    assert_eq!(extract_tokens("alpha\rbeta\n"), names(&["alpha"]));
}

#[test]
fn names_may_hold_characters_beyond_ascii() {
    assert_eq!(extract_tokens("größe 1\n日本語\u{3000}2\n"), names(&["größe", "日本語"]));
    assert_eq!(extract_tokens("a\u{a0}b\n"), names(&["a"]));
    assert_eq!(extract_tokens("\u{2003}a\n"), Vec::<String>::new());
}

#[test]
fn whitespace_is_the_unicode_property() {
    for c in ['\t', '\n', '\u{b}', '\u{c}', '\r', ' ', '\u{85}', '\u{a0}', '\u{1680}', '\u{2000}',
        '\u{2005}', '\u{200a}', '\u{2028}', '\u{2029}', '\u{202f}', '\u{205f}', '\u{3000}']
    {
        assert!(is_whitespace(c));
    }
    for c in ['a', '-', '0', '\u{8}', '\u{e}', '\u{1f}', '!', '\u{84}', '\u{86}', '\u{9f}',
        '\u{a1}', '\u{167f}', '\u{1681}', '\u{1fff}', '\u{200b}', '\u{2027}', '\u{202a}',
        '\u{202e}', '\u{2030}', '\u{205e}', '\u{2060}', '\u{2fff}', '\u{3001}', '\u{feff}']
    {
        assert!(!is_whitespace(c));
    }
}

#[test]
fn whitespace_agrees_with_the_standard_library() {
    let mut n: u32 = 0;
    while n <= 0x10FFFF {
        if let Some(c) = char::from_u32(n) {
            assert_eq!(is_whitespace(c), c.is_whitespace());
        }
        n += 1;
    }
}

#[test]
fn package_list_keeps_the_first_occurrence_of_each_name() {
    let tokens = names(&["b", "a", "b", "c", "a", "b"]);
    assert_eq!(build_package_list(&tokens, &[]), names(&["b", "a", "c"]));
}

#[test]
fn package_list_drops_every_excluded_name() {
    let tokens = names(&["a", "x", "b", "y", "x", "c"]);
    let list = build_package_list(&tokens, &names(&["x", "y", "z"]));
    assert_eq!(list, names(&["a", "b", "c"]));
}

#[test]
fn package_list_of_no_tokens_is_empty() {
    assert_eq!(build_package_list(&[], &names(&["x"])), Vec::<String>::new());
}

#[test]
fn package_list_has_no_duplicates_and_no_excluded_names() {
    let output = "p 1\nq 2\np 3\nr 4\nq 5\ns 6\nr 7\n";
    let excluded = names(&["q"]);
    let list = derive_packages(output, &excluded);
    assert_eq!(list, names(&["p", "r", "s"]));
    for (i, a) in list.iter().enumerate() {
        assert!(!excluded.contains(a));
        for b in list.iter().skip(i + 1) {
            assert_ne!(a, b);
        }
    }
}

#[test]
fn deriving_twice_gives_the_same_list() {
    let output = "alpha 1.0\nbeta 2.0\n";
    let first = derive_packages(output, &[]);
    let second = derive_packages(output, &[]);
    assert_eq!(first, second);
    assert_eq!(build_package_list(&first, &[]), first);
}

#[test]
fn contains_name_compares_whole_names() {
    let list = names(&["alpha", "beta"]);
    assert!(contains_name(&list, &"alpha".to_string()));
    assert!(contains_name(&list, &"beta".to_string()));
    assert!(!contains_name(&list, &"alph".to_string()));
    assert!(!contains_name(&list, &"".to_string()));
    assert!(!contains_name(&[], &"alpha".to_string()));
}
