use gitagent::text::{find_first, has_substring, item_text, join_from, lines_of, matches_at,
    parse_count, slice_of, split_on, to_chars, to_text, trim, Strip};

fn chars(s: &str) -> Vec<char> {
    s.chars().collect()
}

fn texts(v: &Vec<Vec<char>>) -> Vec<String> {
    v.iter().map(|piece| piece.iter().collect::<String>()).collect()
}

#[test]
fn to_chars_gives_every_character_in_order() {
    assert_eq!(to_chars("a\u{e9}\u{1F600}z"), vec!['a', '\u{e9}', '\u{1F600}', 'z']);
    assert_eq!(to_chars(""), Vec::<char>::new());
}

#[test]
fn to_text_builds_the_string_character_by_character() {
    assert_eq!(to_text(&vec!['f', 'o', 'o', '.', 't', 'x', 't']), "foo.txt");
    assert_eq!(to_text(&vec![]), "");
    assert_eq!(to_text(&vec!['\u{e9}', '\0', '\n']), "\u{e9}\0\n");
}

#[test]
fn text_survives_the_way_to_characters_and_back() {
    for s in ["", "plain", "tab\tand\0nul", "acentua\u{e7}\u{e3}o \u{2603}"] {
        assert_eq!(to_text(&to_chars(s)), s);
    }
}

#[test]
fn slice_of_copies_the_given_range() {
    let v = chars("0123456789");
    assert_eq!(slice_of(&v, 2, 5), chars("234"));
    assert_eq!(slice_of(&v, 0, 10), v);
    assert_eq!(slice_of(&v, 7, 7), Vec::<char>::new());
}

#[test]
fn item_text_is_empty_past_the_end() {
    let items = vec![chars("a"), chars("bc")];
    assert_eq!(item_text(&items, 0), "a");
    assert_eq!(item_text(&items, 1), "bc");
    assert_eq!(item_text(&items, 2), "");
    assert_eq!(item_text(&items, 9), "");
}

#[test]
fn matches_at_compares_the_window() {
    let hay = chars("abcabd");
    assert!(matches_at(&hay, &chars("abc"), 0));
    assert!(!matches_at(&hay, &chars("abc"), 3));
    assert!(matches_at(&hay, &chars("abd"), 3));
    assert!(matches_at(&hay, &chars(""), 6));
}

#[test]
fn find_first_gives_the_first_occurrence() {
    assert_eq!(find_first(&chars("xxabxxab"), &chars("ab")), Some(2));
    assert_eq!(find_first(&chars("ab"), &chars("ab")), Some(0));
    assert_eq!(find_first(&chars("aab"), &chars("ab")), Some(1));
    assert_eq!(find_first(&chars("abc"), &chars("")), Some(0));
    assert_eq!(find_first(&chars(""), &chars("")), Some(0));
    assert_eq!(find_first(&chars("abc"), &chars("abcd")), None);
    assert_eq!(find_first(&chars("abc"), &chars("cb")), None);
    assert_eq!(find_first(&chars("a-a--a---"), &chars("---")), Some(6));
}

#[test]
fn find_first_agrees_with_str_find_on_ascii() {
    let hays = ["", "a", "---GITAGENT_END---", "x---GITAGENT_END---y", "--GITAGENT_END--", "aaa"];
    let pats = ["", "a", "aa", "---", "---GITAGENT_END---", "END"];
    for hay in hays {
        for pat in pats {
            assert_eq!(find_first(&chars(hay), &chars(pat)), hay.find(pat), "{:?} in {:?}", pat, hay);
            assert_eq!(has_substring(&chars(hay), &chars(pat)), hay.contains(pat));
        }
    }
}

#[test]
fn has_substring_counts_characters_not_bytes() {
    assert!(has_substring(&chars("caf\u{e9}/new.txt"), &chars("\u{e9}/new")));
    assert!(!has_substring(&chars("old.txt"), &chars("new.txt")));
    assert!(has_substring(&chars("old.txt -> new.txt"), &chars("old.txt")));
}

#[test]
fn split_on_keeps_empty_pieces() {
    assert_eq!(texts(&split_on(&chars("a\0b\0c"), '\0')), vec!["a", "b", "c"]);
    assert_eq!(texts(&split_on(&chars(""), '\0')), vec![""]);
    assert_eq!(texts(&split_on(&chars("\0"), '\0')), vec!["", ""]);
    assert_eq!(texts(&split_on(&chars("a\0\0b"), '\0')), vec!["a", "", "b"]);
    assert_eq!(texts(&split_on(&chars("a\0"), '\0')), vec!["a", ""]);
    assert_eq!(texts(&split_on(&chars("3\t0\tfoo.txt"), '\t')), vec!["3", "0", "foo.txt"]);
}

#[test]
fn split_on_agrees_with_str_split() {
    for s in ["", "|", "a|b", "||", "a||b|", "no bars", "h|a|d|s|more", "\u{e9}|\u{e8}"] {
        let expected: Vec<String> = s.split('|').map(|p| p.to_string()).collect();
        assert_eq!(texts(&split_on(&chars(s), '|')), expected, "{:?}", s);
    }
}

#[test]
fn lines_of_ends_lines_at_line_feeds() {
    assert_eq!(texts(&lines_of(&chars("a\nb\nc"))), vec!["a", "b", "c"]);
    assert_eq!(texts(&lines_of(&chars("a\nb\n"))), vec!["a", "b"]);
    assert_eq!(texts(&lines_of(&chars(""))), Vec::<String>::new());
    assert_eq!(texts(&lines_of(&chars("\n"))), vec![""]);
    assert_eq!(texts(&lines_of(&chars("\n\n"))), vec!["", ""]);
    assert_eq!(texts(&lines_of(&chars("\nabc"))), vec!["", "abc"]);
}

#[test]
fn lines_of_takes_a_carriage_return_before_a_line_feed_off() {
    assert_eq!(texts(&lines_of(&chars("a\r\nb"))), vec!["a", "b"]);
    assert_eq!(texts(&lines_of(&chars("a\r\n"))), vec!["a"]);
    assert_eq!(texts(&lines_of(&chars("a\r"))), vec!["a\r"]);
    assert_eq!(texts(&lines_of(&chars("a\r\r\nb"))), vec!["a\r", "b"]);
    assert_eq!(texts(&lines_of(&chars("\r\n"))), vec![""]);
    assert_eq!(texts(&lines_of(&chars("a\rb\n"))), vec!["a\rb"]);
}

#[test]
fn lines_of_agrees_with_str_lines() {
    for s in ["", "x", "x\n", "\nx", "x\r\ny\r\n", "foo\nbar\n\r\nbaz\r", "\r", "\n\r\n\n", "a\n\nb"] {
        let expected: Vec<String> = s.lines().map(|l| l.to_string()).collect();
        assert_eq!(texts(&lines_of(&chars(s))), expected, "{:?}", s);
    }
}

#[test]
fn join_from_puts_line_feeds_between_lines() {
    let ls = vec![chars("skip"), chars("one"), chars(""), chars("three")];
    assert_eq!(join_from(&ls, 1), chars("one\n\nthree"));
    assert_eq!(join_from(&ls, 0), chars("skip\none\n\nthree"));
    assert_eq!(join_from(&ls, 3), chars("three"));
    assert_eq!(join_from(&ls, 4), chars(""));
    assert_eq!(join_from(&vec![chars(""), chars("")], 0), chars("\n"));
}

#[test]
fn trim_takes_the_given_character_off_both_ends() {
    assert_eq!(trim(&chars("\0\0a\0b\0"), Strip::Char('\0')), chars("a\0b"));
    assert_eq!(trim(&chars("\0\0\0"), Strip::Char('\0')), chars(""));
    assert_eq!(trim(&chars(""), Strip::Char('\0')), chars(""));
    assert_eq!(trim(&chars("ab"), Strip::Char('\0')), chars("ab"));
    assert_eq!(trim(&chars(" \0a\0 "), Strip::Char('\0')), chars(" \0a\0 "));
}

#[test]
fn trim_takes_white_space_off_both_ends() {
    assert_eq!(trim(&chars("  main \t\r\n"), Strip::Whitespace), chars("main"));
    assert_eq!(trim(&chars("\u{a0}\u{2003}v1.0\u{3000}\u{85}"), Strip::Whitespace), chars("v1.0"));
    assert_eq!(trim(&chars(" a b "), Strip::Whitespace), chars("a b"));
    assert_eq!(trim(&chars(" \t "), Strip::Whitespace), chars(""));
    assert_eq!(trim(&chars("\0x\0"), Strip::Whitespace), chars("\0x\0"));
}

#[test]
fn white_space_is_what_std_calls_white_space() {
    let mut code: u32 = 0;
    while code <= 0x3100 {
        if let Some(c) = char::from_u32(code) {
            assert_eq!(Strip::Whitespace.takes(c), c.is_whitespace(), "U+{:04X}", code);
        }
        code += 1;
    }
    assert!(!Strip::Whitespace.takes('\u{200B}'));
    assert!(!Strip::Whitespace.takes('\u{FEFF}'));
    assert!(Strip::Char('x').takes('x'));
    assert!(!Strip::Char('x').takes(' '));
}

#[test]
fn trim_agrees_with_str_trim() {
    for s in ["", " ", "x", "  x", "x  ", "\t x y \n", "\u{2028}z\u{205F}", "\u{1680}\u{202F}"] {
        assert_eq!(to_text(&trim(&chars(s), Strip::Whitespace)), s.trim(), "{:?}", s);
    }
    for s in ["", "\0", "\0x", "x\0\0", "\0\0x\0y\0"] {
        assert_eq!(to_text(&trim(&chars(s), Strip::Char('\0'))), s.trim_matches('\0'), "{:?}", s);
    }
}

#[test]
fn parse_count_reads_decimal_numbers() {
    assert_eq!(parse_count(&chars("0")), 0);
    assert_eq!(parse_count(&chars("3")), 3);
    assert_eq!(parse_count(&chars("007")), 7);
    assert_eq!(parse_count(&chars("1234567890")), 1234567890);
    assert_eq!(parse_count(&chars("+15")), 15);
    assert_eq!(parse_count(&chars("4294967295")), 4294967295);
}

#[test]
fn parse_count_is_zero_for_what_is_no_count() {
    assert_eq!(parse_count(&chars("-")), 0);
    assert_eq!(parse_count(&chars("")), 0);
    assert_eq!(parse_count(&chars("+")), 0);
    assert_eq!(parse_count(&chars("-5")), 0);
    assert_eq!(parse_count(&chars("++5")), 0);
    assert_eq!(parse_count(&chars("5+")), 0);
    assert_eq!(parse_count(&chars(" 5")), 0);
    assert_eq!(parse_count(&chars("5 ")), 0);
    assert_eq!(parse_count(&chars("1e3")), 0);
    assert_eq!(parse_count(&chars("12a")), 0);
    assert_eq!(parse_count(&chars("\u{664}")), 0);
    assert_eq!(parse_count(&chars("4294967296")), 0);
    assert_eq!(parse_count(&chars("99999999999999999999999999")), 0);
    assert_eq!(parse_count(&chars("4294967296x")), 0);
}

#[test]
fn parse_count_agrees_with_std_parse() {
    for s in ["", "0", "-", "+", "+0", "-0", "42", "0042", "4294967295", "4294967296", "18446744073709551616", "1_000", "0x10", "٣"] {
        assert_eq!(parse_count(&chars(s)), s.parse::<u32>().unwrap_or(0), "{:?}", s);
    }
}

#[test]
fn pieces_joined_by_the_delimiter_are_the_text_again() {
    for s in ["", "\n", "a", "a\nb", "\n\na\n", "x\r\ny", "one\ntwo\nthree\n"] {
        let pieces = split_on(&chars(s), '\n');
        assert!(!pieces.is_empty());
        for piece in &pieces {
            assert!(!piece.contains(&'\n'));
        }
        assert_eq!(to_text(&join_from(&pieces, 0)), s, "{:?}", s);
    }
}

#[test]
fn trimmed_text_neither_begins_nor_ends_with_what_is_stripped() {
    for s in ["", "  ", " a ", "\t\ta b\n", "ab", "\u{3000}x"] {
        let t = trim(&chars(s), Strip::Whitespace);
        if let (Some(first), Some(last)) = (t.first(), t.last()) {
            assert!(!Strip::Whitespace.takes(*first));
            assert!(!Strip::Whitespace.takes(*last));
        }
        assert!(s.contains(&to_text(&t)));
    }
}
