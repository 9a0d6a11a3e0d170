use pentest_report::text::{replace_chars, split_lines, to_chars, to_text};

fn chars_of(s: &str) -> Vec<char> {
    s.chars().collect()
}

fn lines(s: &str) -> Vec<String> {
    split_lines(&chars_of(s)).iter().map(|line| line.iter().collect()).collect()
}

fn replaced(text: &str, pattern: &str, with: &str) -> String {
    replace_chars(&chars_of(text), &chars_of(pattern), &chars_of(with)).iter().collect()
}

#[test]
fn to_chars_gives_every_character() {
    assert_eq!(to_chars(""), Vec::<char>::new());
    assert_eq!(to_chars("a:b"), vec!['a', ':', 'b']);
    assert_eq!(to_chars("h\u{e9}llo \u{2603}"), vec!['h', '\u{e9}', 'l', 'l', 'o', ' ', '\u{2603}']);
}

#[test]
fn to_text_gives_the_string_back() {
    assert_eq!(to_text(&[]), "");
    assert_eq!(to_text(&['a', ':', 'b']), "a:b");
    for s in ["", "plain", "h\u{e9}llo \u{2603}\n", "{{ date }}"] {
        assert_eq!(to_text(&to_chars(s)), s);
    }
}

#[test]
fn split_lines_of_an_empty_text_is_empty() {
    assert_eq!(lines(""), Vec::<String>::new());
}

#[test]
fn split_lines_ends_lines_at_line_feeds() {
    assert_eq!(lines("a"), vec!["a"]);
    assert_eq!(lines("a\n"), vec!["a"]);
    assert_eq!(lines("a\nb"), vec!["a", "b"]);
    assert_eq!(lines("a\nb\n"), vec!["a", "b"]);
    assert_eq!(lines("\n"), vec![""]);
    assert_eq!(lines("a\n\nb"), vec!["a", "", "b"]);
    assert_eq!(lines("\n\n"), vec!["", ""]);
}

#[test]
fn split_lines_drops_a_carriage_return_before_a_line_feed_only() {
    assert_eq!(lines("a\r\nb"), vec!["a", "b"]);
    assert_eq!(lines("a\r\n"), vec!["a"]);
    assert_eq!(lines("\r\n"), vec![""]);
    assert_eq!(lines("a\r\r\nb"), vec!["a\r", "b"]);
    assert_eq!(lines("a\rb\nc"), vec!["a\rb", "c"]);
    assert_eq!(lines("a\nb\r"), vec!["a", "b\r"]);
    assert_eq!(lines("\r"), vec!["\r"]);
}

#[test]
fn split_lines_agrees_with_the_lines_of_std() {
    let texts = [
        "",
        "a",
        "a\n",
        "a\nb",
        "\n",
        "\n\n\n",
        "a\r\nb\r\n",
        "a\r",
        "\r",
        "\r\n",
        "\r\r\n",
        "a\rb",
        "title:Acme Report\nprepared_for:Acme Co",
        "one\n\ntwo\r\n\r\nthree\r",
        "h\u{e9}\n\u{2603}\r\n",
    ];
    for text in texts {
        let expected: Vec<String> = text.lines().map(|line| line.to_string()).collect();
        assert_eq!(lines(text), expected, "the lines of {:?}", text);
    }
}

#[test]
fn replace_chars_replaces_every_occurrence() {
    assert_eq!(replaced("a-b-c", "-", "+"), "a+b+c");
    assert_eq!(replaced("{{ x }} and {{ x }}", "{{ x }}", "1"), "1 and 1");
    assert_eq!(replaced("abc", "abc", ""), "");
    assert_eq!(replaced("abc", "c", "cc"), "abcc");
    assert_eq!(replaced("abc", "a", "xyz"), "xyzbc");
}

#[test]
fn replace_chars_leaves_a_text_without_the_pattern() {
    assert_eq!(replaced("abc", "d", "x"), "abc");
    assert_eq!(replaced("ab", "abc", "x"), "ab");
    assert_eq!(replaced("", "a", "x"), "");
    assert_eq!(replaced("{ x }}", "{{ x }}", "1"), "{ x }}");
}

#[test]
fn replace_chars_takes_occurrences_from_the_left_without_overlap() {
    assert_eq!(replaced("aaa", "aa", "b"), "ba");
    assert_eq!(replaced("aaaa", "aa", "b"), "bb");
    assert_eq!(replaced("ababa", "aba", "x"), "xba");
    assert_eq!(replaced("{{{ x }}", "{{ x }}", "1"), "{1");
}

#[test]
fn replace_chars_does_not_look_into_what_it_put_in() {
    assert_eq!(replaced("ab", "a", "aa"), "aab");
    assert_eq!(replaced("xay", "a", "a"), "xay");
}

#[test]
fn replace_chars_with_an_empty_pattern_changes_nothing() {
    assert_eq!(replaced("abc", "", "x"), "abc");
    assert_eq!(replaced("", "", "x"), "");
}

#[test]
fn replace_chars_agrees_with_the_replace_of_std() {
    let cases = [
        ("", "a", "b"),
        ("aaa", "a", ""),
        ("aaa", "aa", "a"),
        ("abcabcabc", "bc", "{{ x }}"),
        ("{{ a }}{{ b }}{{ a }}", "{{ a }}", "{{ b }}"),
        ("h\u{e9}llo h\u{e9}", "h\u{e9}", "\u{2603}"),
        ("mississippi", "issi", "ISSI"),
        ("xxxx", "xxx", "y"),
    ];
    for (text, pattern, with) in cases {
        assert_eq!(replaced(text, pattern, with), text.replace(pattern, with));
    }
}
