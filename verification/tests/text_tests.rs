use os_active::text::{
    chars_of, contains_str, eq_ignore_ascii_case_chars, find_chars, first_word_chars, lines_chars,
    lowercase_chars, parse_i64_chars, remove_char_chars, split_any_chars, split_once_str,
    string_of, trim_char_chars, trim_chars, trim_start_char_chars,
};

const SAMPLES: [&str; 12] = [
    "",
    "\n",
    "a",
    "a\n",
    "a\r\nb",
    "a\rb\r",
    "\n\nx\n\n",
    "  spaced  \t",
    "\u{3000}全角\u{3000}",
    "key=val=ue",
    "2027/2/4 17:50:22",
    "+12 -0 99999999999999999999 -9223372036854775808 9223372036854775807 x1",
];

fn to_string(v: &Vec<char>) -> String {
    v.iter().collect()
}

#[test]
fn lines_like_std() {
    for s in SAMPLES {
        let ours: Vec<String> = lines_chars(&chars_of(s)).iter().map(to_string).collect();
        let std: Vec<String> = s.lines().map(|l| l.to_string()).collect();
        assert_eq!(ours, std, "{s:?}");
    }
}

#[test]
fn trim_like_std() {
    for s in SAMPLES {
        assert_eq!(to_string(&trim_chars(&chars_of(s))), s.trim(), "{s:?}");
        assert_eq!(to_string(&trim_char_chars(&chars_of(s), 'a')), s.trim_matches('a'));
        assert_eq!(to_string(&trim_start_char_chars(&chars_of(s), '\n')), s.trim_start_matches('\n'));
    }
}

#[test]
fn search_like_std() {
    for s in SAMPLES {
        for pat in ["=", "a", "\n", "2/", "xyz", ""] {
            assert_eq!(contains_str(&chars_of(s), pat), s.contains(pat));
            let ours = split_once_str(&chars_of(s), pat).map(|(a, b)| (to_string(&a), to_string(&b)));
            let std = s.split_once(pat).map(|(a, b)| (a.to_string(), b.to_string()));
            assert_eq!(ours, std, "{s:?} {pat:?}");
            let found = find_chars(&chars_of(s), &chars_of(pat));
            let std_found = s.find(pat).map(|b| s[..b].chars().count());
            assert_eq!(found, std_found);
        }
    }
}

#[test]
fn split_like_std() {
    let seps = vec!['-', '/', '.', ' ', ':'];
    for s in SAMPLES {
        let ours: Vec<String> = split_any_chars(&chars_of(s), &seps).iter().map(to_string).collect();
        let std: Vec<String> = s.split(|c: char| seps.contains(&c)).map(|p| p.to_string()).collect();
        assert_eq!(ours, std, "{s:?}");
    }
}

#[test]
fn parse_like_std() {
    for s in SAMPLES {
        for piece in s.split(' ') {
            assert_eq!(parse_i64_chars(&chars_of(piece)), piece.parse::<i64>().ok(), "{piece:?}");
        }
    }
    for piece in ["+", "-", "", "007", "-9223372036854775809", "9223372036854775808", "１"] {
        assert_eq!(parse_i64_chars(&chars_of(piece)), piece.parse::<i64>().ok(), "{piece:?}");
    }
}

#[test]
fn other_text_operations() {
    assert_eq!(to_string(&remove_char_chars(&chars_of("a b  c "), ' ')), "abc");
    assert!(eq_ignore_ascii_case_chars(&chars_of("To Be Filled"), &chars_of("to be filled")));
    assert!(!eq_ignore_ascii_case_chars(&chars_of("ÄB"), &chars_of("äb")));
    assert_eq!(first_word_chars(&chars_of("  2027/2/4 17:50 ")).map(|w| to_string(&w)), Some("2027/2/4".to_string()));
    assert_eq!(first_word_chars(&chars_of("   ")), None);
    assert_eq!(to_string(&lowercase_chars("ÄBC Activated")), "äbc activated");
    assert_eq!(string_of(&chars_of("激活")), "激活");
}
