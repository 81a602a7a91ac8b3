use dotparser::text::{
    contains, find, find_char, lower, matches_at, parse_u32, push_decimal, replace, rfind_char,
    same, spells, split, split_lines, starts_with, strip, strip_end, strip_end_matches,
    strip_matches, strip_start, take, to_chars, to_string, CharClass,
};

fn chars(s: &str) -> Vec<char> {
    s.chars().collect()
}

fn text(s: &[char]) -> String {
    s.iter().collect()
}

fn texts(parts: Vec<&[char]>) -> Vec<String> {
    parts.into_iter().map(text).collect()
}

#[test]
fn strip_removes_unicode_white_space() {
    assert_eq!(text(strip(&chars("  \t a b \r\n"))), "a b");
    assert_eq!(text(strip(&chars("\u{a0}\u{2003}x\u{3000}\u{85}"))), "x");
    assert_eq!(text(strip(&chars("\u{200b}x"))), "\u{200b}x");
    assert_eq!(text(strip(&chars("   "))), "");
    assert_eq!(text(strip(&chars(""))), "");
}

#[test]
fn white_space_agrees_with_the_standard_library() {
    for code in 0..0x3100u32 {
        if let Some(c) = char::from_u32(code) {
            assert_eq!(CharClass::is_space(c), c.is_whitespace(), "U+{:04X}", code);
            assert_eq!(CharClass::Whitespace.test(c), c.is_whitespace());
        }
    }
}

#[test]
fn word_and_symbol_characters() {
    for c in ['a', 'z', 'A', 'Z', '0', '9', '_'] {
        assert!(CharClass::is_word(c));
        assert!(CharClass::Word.test(c));
        assert!(!CharClass::Symbol.test(c));
    }
    for c in ['-', '>', '<', '\\', '~', '=', '.', '@', '\''] {
        assert!(!CharClass::is_word(c));
        assert!(CharClass::Symbol.test(c));
    }
    for c in [' ', '\t', '"', ':'] {
        assert!(!CharClass::Word.test(c));
        assert!(!CharClass::Symbol.test(c));
    }
    assert!(!CharClass::is_word('é'));
    assert!(CharClass::Exactly('x').test('x'));
    assert!(!CharClass::Exactly('x').test('y'));
}

#[test]
fn strip_variants() {
    assert_eq!(text(strip_start(&chars("  a  "), CharClass::Whitespace)), "a  ");
    assert_eq!(text(strip_end(&chars("  a  "), CharClass::Whitespace)), "  a");
    assert_eq!(text(strip_matches(&chars("\"\"a\"b\"\""), '"')), "a\"b");
    assert_eq!(text(strip_end_matches(&chars(";a;;"), ';')), ";a");
    assert_eq!(text(strip_matches(&chars("\"\""), '"')), "");
}

#[test]
fn take_splits_after_the_longest_prefix() {
    let s = chars("abc_1->x");
    let (head, rest) = take(&s, CharClass::Word);
    assert_eq!((text(head), text(rest)), ("abc_1".to_string(), "->x".to_string()));
    let (head, rest) = take(&s, CharClass::Symbol);
    assert_eq!((text(head), text(rest)), ("".to_string(), "abc_1->x".to_string()));
    let t = chars("->>");
    let (head, rest) = take(&t, CharClass::Symbol);
    assert_eq!((text(head), text(rest)), ("->>".to_string(), "".to_string()));
}

#[test]
fn find_gives_the_first_occurrence() {
    assert_eq!(find(&chars("a->b->c"), &chars("->")), Some(1));
    assert_eq!(find(&chars("a->b"), &chars("--")), None);
    assert_eq!(find(&chars("aaa"), &chars("aa")), Some(0));
    assert_eq!(find(&chars("ab"), &chars("abc")), None);
    assert_eq!(find(&chars("abc"), &chars("")), Some(0));
    assert_eq!(find(&chars(""), &chars("")), Some(0));
    assert_eq!(find(&chars("xxab"), &chars("ab")), Some(2));
}

#[test]
fn contains_starts_with_and_matches_at() {
    assert!(contains(&chars("digraph {"), &chars("graph")));
    assert!(!contains(&chars("graph {"), &chars("digraph")));
    assert!(starts_with(&chars("rankdir=LR"), &chars("rankdir")));
    assert!(!starts_with(&chars(" rankdir"), &chars("rankdir")));
    assert!(matches_at(&chars("abcd"), &chars("cd"), 2));
    assert!(!matches_at(&chars("abcd"), &chars("cd"), 3));
    assert!(!matches_at(&chars("abcd"), &chars("cd"), 9));
    assert!(same(&chars("abc"), &chars("abc")));
    assert!(!same(&chars("abc"), &chars("abd")));
    assert!(!same(&chars("abc"), &chars("ab")));
    assert!(spells(&chars("label"), "label"));
    assert!(!spells(&chars("Label"), "label"));
}

#[test]
fn find_char_and_rfind_char() {
    assert_eq!(find_char(&chars("a[b[c"), '['), 1);
    assert_eq!(find_char(&chars("abc"), '['), 3);
    assert_eq!(find_char(&chars(""), '['), 0);
    assert_eq!(rfind_char(&chars("a]b]c"), ']'), Some(3));
    assert_eq!(rfind_char(&chars("abc"), ']'), None);
    assert_eq!(rfind_char(&chars("]"), ']'), Some(0));
}

#[test]
fn split_keeps_empty_pieces() {
    assert_eq!(texts(split(&chars("a,b,,c"), ',')), vec!["a", "b", "", "c"]);
    assert_eq!(texts(split(&chars(""), ',')), vec![""]);
    assert_eq!(texts(split(&chars(","), ',')), vec!["", ""]);
    assert_eq!(texts(split(&chars("k=v"), '=')), vec!["k", "v"]);
}

#[test]
fn split_lines_follows_the_standard_library() {
    for s in ["", "a", "a\n", "a\nb", "a\r\nb\r\n", "\n", "\n\n", "a\rb", "a\r", "a\n\rb\r\r\n", "x\n\n y \n"] {
        let expected: Vec<String> = s.lines().map(|l| l.to_string()).collect();
        assert_eq!(texts(split_lines(&chars(s))), expected, "{:?}", s);
    }
}

#[test]
fn replace_takes_occurrences_from_the_left() {
    assert_eq!(text(&replace(&chars("a\\nb\\n"), &chars("\\n"), &chars(" "))), "a b ");
    assert_eq!(text(&replace(&chars("aaa"), &chars("aa"), &chars("b"))), "ba");
    assert_eq!(text(&replace(&chars("abc"), &chars("x"), &chars("y"))), "abc");
    for (s, pat, with) in [
        ("abc", "", "y"),
        ("", "", "y"),
        ("a", "", "--"),
        ("a\\nb", "\\n", " "),
        ("aaaa", "aa", "a"),
        ("xyz", "z", ""),
    ] {
        assert_eq!(text(&replace(&chars(s), &chars(pat), &chars(with))), s.replace(pat, with));
    }
    assert_eq!(text(&replace(&chars("abc"), &chars(""), &chars("y"))), "yaybycy");
    assert_eq!(text(&replace(&chars("abab"), &chars("ab"), &chars(""))), "");
}

#[test]
fn parse_u32_reads_decimal_numbers() {
    assert_eq!(parse_u32(&chars("0")), Some(0));
    assert_eq!(parse_u32(&chars("2")), Some(2));
    assert_eq!(parse_u32(&chars("+17")), Some(17));
    assert_eq!(parse_u32(&chars("007")), Some(7));
    assert_eq!(parse_u32(&chars("4294967295")), Some(u32::MAX));
    assert_eq!(parse_u32(&chars("4294967296")), None);
    assert_eq!(parse_u32(&chars("99999999999999999999")), None);
    assert_eq!(parse_u32(&chars("")), None);
    assert_eq!(parse_u32(&chars("+")), None);
    assert_eq!(parse_u32(&chars("-1")), None);
    assert_eq!(parse_u32(&chars("1 ")), None);
    assert_eq!(parse_u32(&chars("1x")), None);
    assert_eq!(parse_u32(&chars("٣")), None);
    for s in ["12", "+0", "++1", "4294967290", "42949672950", "1_000"] {
        assert_eq!(parse_u32(&chars(s)), s.parse::<u32>().ok(), "{:?}", s);
    }
}

#[test]
fn push_decimal_writes_numbers() {
    for n in [0u64, 7, 10, 99, 100, 4294967295, 18446744073709551615] {
        let mut out = chars("n=");
        push_decimal(&mut out, n);
        assert_eq!(text(&out), format!("n={}", n));
    }
}

#[test]
fn conversions_keep_the_characters() {
    let s = "héllo → wörld";
    assert_eq!(to_chars(s), chars(s));
    assert_eq!(to_string(&chars(s)), s);
    assert_eq!(to_string(&[]), "");
}

#[test]
fn lower_gives_the_lowercase_form() {
    assert_eq!(text(&lower(&chars("Hello WORLD"))), "hello world");
    assert_eq!(text(&lower(&chars("ΑΣ"))), "ας");
    assert_eq!(text(&lower(&chars(""))), "");
}
