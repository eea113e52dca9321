use diff_test::order::{rank, Rank};
use diff_test::path::{extended, key_chars, make_key, PathIndex};
use diff_test::sorting::{identity_indices, is_before, sort_indices};
use diff_test::text::{
    append, append_str, chars_of, ends_with, first_visible_char, last_visible_char, matches_at,
    push_decimal, replace_all, same_text, starts_with, string_of, strip_id_tail, whitespace,
};

fn chars(s: &str) -> Vec<char> {
    s.chars().collect()
}

#[test]
fn chars_and_strings_round_trip() {
    assert_eq!(chars_of("héllo ✓"), chars("héllo ✓"));
    assert_eq!(string_of(&chars("héllo ✓")), "héllo ✓");
    assert_eq!(chars_of(""), Vec::<char>::new());
    assert_eq!(string_of(&Vec::new()), "");
}

#[test]
fn append_adds_at_the_end() {
    let mut out = chars("ab");
    append(&mut out, &chars("cd"));
    append_str(&mut out, "é");
    assert_eq!(out, chars("abcdé"));
}

#[test]
fn same_text_compares_characters() {
    assert!(same_text(&chars("abc"), &chars("abc")));
    assert!(!same_text(&chars("abc"), &chars("abd")));
    assert!(!same_text(&chars("abc"), &chars("ab")));
    assert!(same_text(&chars(""), &chars("")));
}

#[test]
fn prefixes_and_suffixes() {
    assert!(starts_with(&chars("doc.flaws.x"), &chars("doc.flaws")));
    assert!(starts_with(&chars("doc"), &chars("")));
    assert!(!starts_with(&chars("doc"), &chars("doc.")));
    assert!(!starts_with(&chars("xdoc.flaws"), &chars("doc.flaws")));
    assert!(ends_with(&chars("doc.body.0.value.id"), &chars("value.id")));
    assert!(!ends_with(&chars("id"), &chars("value.id")));
    assert!(!ends_with(&chars("doc.body.0.value.ids"), &chars("value.id")));
    assert!(matches_at(&chars("abcabc"), &chars("bc"), 4));
    assert!(!matches_at(&chars("abcabc"), &chars("bc"), 5));
    assert!(!matches_at(&chars("abcabc"), &chars("bc"), 7));
    assert!(matches_at(&chars("abc"), &chars(""), 3));
}

#[test]
fn replace_all_takes_matches_from_the_left() {
    let replace = |s: &str, pat: &str, rep: &str| string_of(&replace_all(&chars(s), &chars(pat), &chars(rep)));
    assert_eq!(replace("a\n  b\n    c", "\n  ", "\n"), "a\nb\n  c");
    assert_eq!(replace("aaa", "aa", "b"), "ba");
    assert_eq!(replace("a::b:c", "::", "_doublecolon_"), "a_doublecolon_b:c");
    assert_eq!(replace("abc", "", "x"), "abc");
    assert_eq!(replace("", "a", "x"), "");
    assert_eq!(replace("abc", "abcd", "x"), "abc");
    assert_eq!(replace("*a*", "*", "_star_"), "_star_a_star_");
}

#[test]
fn replace_all_agrees_with_str_replace() {
    for (s, pat, rep) in [
        ("abababa", "aba", "x"),
        ("a\n  b", "\n  ", "\n"),
        ("xxxx", "xx", "xxx"),
        ("héllo wörld", "ö", "oe"),
        ("no match", "zz", "y"),
    ] {
        assert_eq!(string_of(&replace_all(&chars(s), &chars(pat), &chars(rep))), s.replace(pat, rep));
    }
}

#[test]
fn strip_id_tail_removes_counters() {
    let strip = |s: &str| string_of(&strip_id_tail(&chars(s)));
    assert_eq!(strip("heading_2"), "heading");
    assert_eq!(strip("heading_3"), "heading");
    assert_eq!(strip("heading__12_"), "heading");
    assert_eq!(strip("heading_2a"), "heading_2a");
    assert_eq!(strip("h2o"), "h2o");
    assert_eq!(strip("2024"), "");
    assert_eq!(strip(""), "");
    assert_eq!(strip("٣"), "٣");
}

#[test]
fn decimal_writing() {
    for n in [0usize, 1, 9, 10, 11, 99, 100, 12345, usize::MAX] {
        let mut out = chars("x");
        push_decimal(&mut out, n);
        assert_eq!(string_of(&out), format!("x{n}"));
    }
}

#[test]
fn whitespace_is_unicode_white_space() {
    for code in 0..0x3100u32 {
        if let Some(c) = char::from_u32(code) {
            assert_eq!(whitespace(c), c.is_whitespace(), "{code:x}");
        }
    }
    assert!(!whitespace('\u{feff}'));
}

#[test]
fn visible_characters() {
    assert_eq!(first_visible_char(&chars(" \n\t<p>")), Some('<'));
    assert_eq!(last_visible_char(&chars("<p> \u{a0}\n")), Some('>'));
    assert_eq!(first_visible_char(&chars("  ")), None);
    assert_eq!(last_visible_char(&chars("")), None);
    assert_eq!(first_visible_char(&chars("a")), Some('a'));
}

#[test]
fn rank_orders_like_strings() {
    let samples = ["", "a", "ab", "abc", "b", "B", "doc.1", "doc.10", "doc.2", "é", "z", "zz"];
    for a in samples {
        for b in samples {
            let expected = match a.cmp(b) {
                std::cmp::Ordering::Less => Rank::Before,
                std::cmp::Ordering::Equal => Rank::Same,
                std::cmp::Ordering::Greater => Rank::After,
            };
            assert_eq!(rank(&chars(a), &chars(b)), expected, "{a:?} {b:?}");
            assert_eq!(is_before(&chars(a), &chars(b)), a < b);
        }
    }
}

#[test]
fn sort_indices_is_stable() {
    let keys: Vec<Vec<char>> = ["b", "a", "c", "a", "b", ""].iter().map(|s| chars(s)).collect();
    assert_eq!(sort_indices(&keys), vec![5, 1, 3, 0, 4, 2]);
    assert_eq!(sort_indices(&Vec::new()), Vec::<usize>::new());
    assert_eq!(identity_indices(4), vec![0, 1, 2, 3]);
    assert_eq!(identity_indices(0), Vec::<usize>::new());
}

#[test]
fn keys_join_steps_with_dots() {
    let path = vec![
        PathIndex::Object("doc".to_string()),
        PathIndex::Object("body".to_string()),
        PathIndex::Array(12),
        PathIndex::Object("value".to_string()),
    ];
    assert_eq!(make_key(&path), "doc.body.12.value");
    assert_eq!(string_of(&key_chars(&path)), "doc.body.12.value");
    assert_eq!(make_key(&Vec::new()), "");
    assert_eq!(make_key(&vec![PathIndex::Array(0)]), "0");
    assert_eq!(make_key(&vec![PathIndex::Object("a.b".to_string()), PathIndex::Object(String::new())]), "a.b.");
    let longer = extended(&path, PathIndex::Array(3));
    assert_eq!(make_key(&longer), "doc.body.12.value.3");
    assert_eq!(path.len(), 4);
}
