use dab::search::between_slice;
use dab::search::contains_slice;
use dab::search::ends_with_slice;
use dab::search::find_slice;
use dab::search::matches_at;
use dab::search::starts_with_slice;
use dab::search::DelimitedSlice;
use dab::split::field_slice;
use dab::split::remove_all_slice;
use dab::split::split_lines;
use dab::split::token_slice;
use dab::text::from_chars;
use dab::text::is_blank_slice;
use dab::text::scan_prefix;
use dab::text::scan_suffix;
use dab::text::slices_equal;
use dab::text::strip_both_slice;
use dab::text::strip_prefix_slice;
use dab::text::strip_suffix_slice;
use dab::text::to_chars;
use dab::text::trim_slice;
use dab::text::CharClass;
use dab::unique::contains_string;
use dab::unique::push_unique_string;

fn chars(s: &str) -> Vec<char> {
    s.chars().collect()
}

fn text(v: &[char]) -> String {
    v.iter().collect()
}

fn lines_of(s: &str) -> Vec<String> {
    split_lines(&chars(s)).iter().map(|l| text(l)).collect()
}

#[test]
fn characters_round_trip() {
    assert_eq!(to_chars("a\u{e9}\u{1f600}"), vec!['a', '\u{e9}', '\u{1f600}']);
    assert_eq!(from_chars(&['x', '\u{2603}']), "x\u{2603}");
    assert_eq!(from_chars(&to_chars("round trip")), "round trip");
    assert!(to_chars("").is_empty());
}

#[test]
fn lines_split_like_the_standard_library() {
    for sample in [
        "",
        "\n",
        "a",
        "a\n",
        "a\nb",
        "a\r\nb\r\n",
        "a\r",
        "a\r\n\r\n",
        "\r\n",
        "a\n\nb\n\n",
        "x\ry\nz",
        "\r\r\n",
        "end\r",
    ] {
        let expected: Vec<String> = sample.lines().map(|l| l.to_string()).collect();
        assert_eq!(lines_of(sample), expected, "sample {:?}", sample);
    }
}

#[test]
fn lines_have_exact_values() {
    assert_eq!(lines_of("one\r\ntwo\n\nthree"), vec!["one", "two", "", "three"]);
    assert_eq!(lines_of("\n"), vec![""]);
    assert!(lines_of("").is_empty());
}

#[test]
fn trim_agrees_with_the_standard_library() {
    for sample in ["", " ", "  a  ", "\t\r\n a b \u{a0}", "\u{2003}x\u{3000}", "x", "\u{85}y\u{1680}", "\u{200b} z"] {
        assert_eq!(text(trim_slice(&chars(sample))), sample.trim(), "sample {:?}", sample);
        assert_eq!(is_blank_slice(&chars(sample)), sample.trim().is_empty());
    }
}

#[test]
fn whitespace_class_agrees_with_the_standard_library() {
    for code in 0u32..0x3100 {
        if let Some(c) = char::from_u32(code) {
            assert_eq!(CharClass::Whitespace.contains(c), c.is_whitespace(), "code {:x}", code);
            assert_eq!(CharClass::NonWhitespace.contains(c), !c.is_whitespace());
        }
    }
    assert!(!CharClass::Whitespace.contains('\u{feff}'));
    assert!(CharClass::Exactly('q').contains('q'));
    assert!(!CharClass::Exactly('q').contains('Q'));
    assert!(CharClass::Except('q').contains('Q'));
    assert!(!CharClass::Except('q').contains('q'));
}

#[test]
fn prefixes_and_suffixes_are_measured() {
    let s = chars("aaabcaa");
    assert_eq!(scan_prefix(&s, 0, CharClass::Exactly('a')), 3);
    assert_eq!(scan_prefix(&s, 3, CharClass::Exactly('a')), 0);
    assert_eq!(scan_prefix(&s, 5, CharClass::Exactly('a')), 2);
    assert_eq!(scan_prefix(&s, 7, CharClass::Exactly('a')), 0);
    assert_eq!(scan_suffix(&s, 7, CharClass::Exactly('a')), 2);
    assert_eq!(scan_suffix(&s, 3, CharClass::Exactly('a')), 3);
    assert_eq!(scan_suffix(&s, 0, CharClass::Exactly('a')), 0);
    assert_eq!(text(strip_prefix_slice(&s, CharClass::Exactly('a'))), "bcaa");
    assert_eq!(text(strip_suffix_slice(&s, CharClass::Exactly('a'))), "aaabc");
    assert_eq!(text(strip_both_slice(&s, CharClass::Exactly('a'))), "bc");
    assert_eq!(text(strip_both_slice(&chars("aaaa"), CharClass::Exactly('a'))), "");
}

#[test]
fn search_agrees_with_the_standard_library() {
    let samples = ["", "a", "abcabc", "aaa", "xx>>> y <<<", "\u{e9}t\u{e9}"];
    let patterns = ["", "a", "bc", "aa", "abcabcd", ">>> ", "\u{e9}", "t\u{e9}"];
    for s in samples {
        for p in patterns {
            let expected = s.find(p).map(|byte| s[..byte].chars().count());
            assert_eq!(find_slice(&chars(s), &chars(p)), expected, "{:?} in {:?}", p, s);
            assert_eq!(contains_slice(&chars(s), &chars(p)), s.contains(p));
            assert_eq!(starts_with_slice(&chars(s), &chars(p)), s.starts_with(p));
            assert_eq!(ends_with_slice(&chars(s), &chars(p)), s.ends_with(p));
        }
    }
}

#[test]
fn occurrences_are_checked_at_a_position() {
    let s = chars("abcabc");
    assert!(matches_at(&s, &chars("abc"), 0));
    assert!(matches_at(&s, &chars("abc"), 3));
    assert!(!matches_at(&s, &chars("abc"), 1));
    assert!(!matches_at(&s, &chars("abc"), 4));
    assert!(matches_at(&s, &chars(""), 6));
    assert!(!matches_at(&s, &chars(""), 7));
    assert!(slices_equal(&s, &chars("abcabc")));
    assert!(!slices_equal(&s, &chars("abcabd")));
    assert!(!slices_equal(&s, &chars("abc")));
}

#[test]
fn text_between_markers_is_found() {
    let line = chars("k='v' k='w'");
    match between_slice(&line, &chars("k='"), &chars("'")) {
        DelimitedSlice::Value(v) => assert_eq!(text(v), "v"),
        _ => panic!("a value stands between the markers"),
    }
    assert!(matches!(between_slice(&line, &chars("z='"), &chars("'")), DelimitedSlice::Absent));
    assert!(matches!(between_slice(&chars("k='v"), &chars("k='"), &chars("'")), DelimitedSlice::Unclosed));
    match between_slice(&chars("k=''"), &chars("k='"), &chars("'")) {
        DelimitedSlice::Value(v) => assert!(v.is_empty()),
        _ => panic!("an empty value stands between the markers"),
    }
}

#[test]
fn fields_agree_with_the_standard_library() {
    for s in ["", "a", "a:b", "a:b:c", ":", "::", "a:", ":b", "k=v=w"] {
        for sep in [':', '='] {
            for n in 0..4usize {
                let expected = s.split(sep).nth(n).map(|f| f.to_string());
                let got = field_slice(&chars(s), sep, n).map(|f| text(f));
                assert_eq!(got, expected, "field {} of {:?}", n, s);
            }
        }
    }
}

#[test]
fn tokens_agree_with_the_standard_library() {
    for s in ["", " ", "a", "  a  ", "a b", "\ta\u{a0}b  c\n", "one  two\tthree four five six"] {
        for n in 0..6usize {
            let expected = s.split_whitespace().nth(n).map(|t| t.to_string());
            let got = token_slice(&chars(s), n).map(|t| text(t));
            assert_eq!(got, expected, "token {} of {:?}", n, s);
        }
    }
}

#[test]
fn removal_agrees_with_the_standard_library() {
    let samples = ["", "a", "package:com.x", "package:package:", "ppackage:ackage:", "aaaa", "aaa", "x,y,,z"];
    let patterns = ["package:", "aa", ",", "", "zzzzzzzzzz"];
    for s in samples {
        for p in patterns {
            assert_eq!(text(&remove_all_slice(&chars(s), &chars(p))), s.replace(p, ""), "{:?} from {:?}", p, s);
        }
    }
}

#[test]
fn unique_push_keeps_first_seen_order() {
    let mut items: Vec<String> = Vec::new();
    for item in ["b", "a", "b", "c", "a", "B"] {
        push_unique_string(&mut items, item.to_string());
    }
    assert_eq!(items, vec!["b", "a", "c", "B"]);
    assert!(contains_string(&items, &"c".to_string()));
    assert!(!contains_string(&items, &"d".to_string()));
}
