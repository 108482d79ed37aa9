use cps_deps::text::{
    chars_of, find_in, join_strings, matches_at, replace, slice_of, split_lines, split_words,
    trim_chars,
};

fn chars(s: &str) -> Vec<char> {
    s.chars().collect()
}

fn text(v: &[char]) -> String {
    v.iter().collect()
}

fn texts(v: &[Vec<char>]) -> Vec<String> {
    v.iter().map(|line| text(line)).collect()
}

#[test]
fn chars_of_gives_every_character() {
    assert_eq!(chars_of("a\u{e9}\u{1f600}z"), vec!['a', '\u{e9}', '\u{1f600}', 'z']);
    assert_eq!(chars_of(""), Vec::<char>::new());
}

#[test]
fn slice_of_takes_a_range() {
    let s = chars("hello");
    assert_eq!(text(&slice_of(&s, 1, 3)), "el");
    assert_eq!(text(&slice_of(&s, 0, 5)), "hello");
    assert_eq!(text(&slice_of(&s, 5, 5)), "");
}

#[test]
fn matches_at_compares_in_place() {
    let s = chars("-I/usr");
    assert!(matches_at(&s, &chars("-I"), 0));
    assert!(!matches_at(&s, &chars("-I"), 1));
    assert!(matches_at(&s, &chars("usr"), 3));
    assert!(!matches_at(&s, &chars("usr"), 4));
    assert!(!matches_at(&s, &chars("usr"), 400));
    assert!(matches_at(&s, &chars(""), 6));
    assert!(!matches_at(&s, &chars(""), 7));
    assert!(!matches_at(&chars("ab"), &chars("abc"), 0));
}

#[test]
fn find_in_agrees_with_std() {
    for (s, pat) in [
        ("a ${b} c", "${"),
        ("a $ {b} c", "${"),
        ("${", "${"),
        ("$", "${"),
        ("", "${"),
        ("", ""),
        ("abc", ""),
        ("xx${", "${"),
    ] {
        assert_eq!(find_in(&chars(s), &chars(pat)), s.contains(pat), "{:?} in {:?}", pat, s);
    }
}

#[test]
fn replace_takes_occurrences_from_the_left() {
    assert_eq!(text(&replace(&chars("aaa"), &chars("aa"), &chars("b"))), "ba");
    assert_eq!(text(&replace(&chars("${a}${a}"), &chars("${a}"), &chars("/usr"))), "/usr/usr");
    assert_eq!(text(&replace(&chars("x${a}y"), &chars("${a}"), &chars(""))), "xy");
    assert_eq!(text(&replace(&chars("abc"), &chars("abcd"), &chars("x"))), "abc");
    assert_eq!(text(&replace(&chars("abc"), &chars(""), &chars("x"))), "abc");
    assert_eq!(text(&replace(&chars(""), &chars("a"), &chars("x"))), "");
}

#[test]
fn replace_agrees_with_std() {
    for (s, from, to) in [
        ("libdir=${prefix}/lib ${prefix}", "${prefix}", "/usr"),
        ("aaaa", "aa", "a"),
        ("abab", "ab", "abab"),
        ("no match", "zz", "y"),
        ("$${a}}", "${a}", "{"),
        ("tail${a", "${a}", "x"),
    ] {
        assert_eq!(
            text(&replace(&chars(s), &chars(from), &chars(to))),
            s.replace(from, to),
            "{:?}",
            s
        );
    }
}

#[test]
fn split_lines_agrees_with_std() {
    for s in [
        "",
        "a",
        "a\n",
        "a\nb",
        "a\r\nb\r\n",
        "\n",
        "\n\n",
        "a\n\nb\n",
        "a\r",
        "a\rb\n",
        "\r\n",
        "\r\r\n",
        "x\n\r",
    ] {
        let expected: Vec<String> = s.lines().map(String::from).collect();
        assert_eq!(texts(&split_lines(&chars(s))), expected, "{:?}", s);
    }
}

#[test]
fn trim_chars_agrees_with_std() {
    for s in ["", " ", "  a  ", "\t a b \n", "a", "\u{a0}x\u{2003}", " \u{e9} ", "\r\n"] {
        assert_eq!(text(&trim_chars(&chars(s))), s.trim(), "{:?}", s);
    }
}

#[test]
fn split_words_agrees_with_std() {
    for s in ["", " ", "a", " a ", "a b", "  -I/x \t -DY=1\n-O2  ", "\u{a0}a\u{2003}b", "a\r\nb"] {
        let expected: Vec<String> = s.split_whitespace().map(String::from).collect();
        assert_eq!(texts(&split_words(&chars(s))), expected, "{:?}", s);
    }
}

#[test]
fn join_strings_puts_the_separator_between() {
    let items = vec!["a".to_string(), "".to_string(), "c".to_string()];
    assert_eq!(join_strings(&items, ", "), "a, , c");
    assert_eq!(join_strings(&items[..1].to_vec(), ", "), "a");
    assert_eq!(join_strings(&Vec::new(), ", "), "");
    assert_eq!(join_strings(&items, ""), "ac");
}

#[test]
fn white_space_is_what_std_takes_for_it() {
    for n in 0..=0x10FFFFu32 {
        if let Some(c) = char::from_u32(n) {
            assert_eq!(cps_deps::text::char_is_whitespace(c), c.is_whitespace(), "U+{:04X}", n);
        }
    }
}
