use elysium::text::{
    begins_with, blank, chars_of, copy_text, copy_texts, decimal_text, has_part, is_listed, joined,
    lines_of, parse_number, same, split_at, split_at_first, stem_of, string_of, trimmed,
    two_digit_text,
};

fn strings(list: &Vec<Vec<char>>) -> Vec<String> {
    list.iter().map(|v| v.iter().collect()).collect()
}

#[test]
fn strings_and_characters() {
    assert_eq!(chars_of("a光b"), vec!['a', '光', 'b']);
    assert_eq!(string_of(&vec!['二', ' ', 'x']), "二 x");
    assert!(same("abc", "abc"));
    assert!(!same("abc", "abd"));
    assert!(!same("abc", "ab"));
    assert_eq!(copy_text(&Some("q".to_string())), Some("q".to_string()));
    assert_eq!(copy_text(&None), None);
    assert_eq!(copy_texts(&vec!["a".to_string(), "".to_string()]), vec!["a", ""]);
    assert!(is_listed(&vec!["a".to_string(), "b".to_string()], "b"));
    assert!(!is_listed(&vec!["a".to_string(), "b".to_string()], "c"));
}

#[test]
fn splitting_is_that_of_std() {
    for s in ["", ",", "a", "a,b", ",a,,b,", "光,灵"] {
        let expected: Vec<String> = s.split(',').map(|x| x.to_string()).collect();
        assert_eq!(strings(&split_at(&chars_of(s), ',')), expected);
        let once = split_at_first(&chars_of(s), ',').map(|(a, b)| (string_of(&a), string_of(&b)));
        let expected = s.split_once(',').map(|(a, b)| (a.to_string(), b.to_string()));
        assert_eq!(once, expected);
    }
}

#[test]
fn lines_are_those_of_std() {
    for s in ["", "\n", "a", "a\n", "a\r\nb", "a\r\n\r\nb\r", "\r", "\r\n", "a\n\n", "x\ry\nz"] {
        let expected: Vec<String> = s.lines().map(|x| x.to_string()).collect();
        assert_eq!(strings(&lines_of(&chars_of(s))), expected, "{:?}", s);
    }
}

#[test]
fn white_space_is_that_of_std() {
    for i in 0..0x11_0000u32 {
        if let Some(c) = char::from_u32(i) {
            assert_eq!(blank(c), c.is_whitespace(), "{:x}", i);
        }
    }
    for s in ["", " ", "  a ", "\t\u{3000}光 b\u{a0}\n", "a"] {
        assert_eq!(string_of(&trimmed(&chars_of(s))), s.trim());
    }
}

#[test]
fn parts_and_prefixes() {
    for (s, p) in [("", ""), ("abc", ""), ("abc", "bc"), ("abc", "abc"), ("abc", "abcd"), ("aab", "ab"), ("abc", "x")] {
        assert_eq!(has_part(&chars_of(s), &chars_of(p)), s.contains(p));
        assert_eq!(begins_with(&chars_of(s), &chars_of(p)), s.starts_with(p));
    }
}

#[test]
fn stems_of_files() {
    for f in ["a.png", ".png", "png", "a.b.png", "a.PNG", "光.png", "a.png.png", "..png", "xpng", ""] {
        let p = std::path::Path::new(f);
        let expected = if p.extension().map(|x| x == "png").unwrap_or(false) {
            p.file_stem().map(|s| s.to_string_lossy().into_owned())
        } else {
            None
        };
        assert_eq!(stem_of(f, "png"), expected, "{}", f);
    }
}

#[test]
fn joining_is_that_of_std() {
    for list in [vec![], vec!["a"], vec!["a", "b"], vec!["", "x", ""]] {
        let owned: Vec<String> = list.iter().map(|s| s.to_string()).collect();
        assert_eq!(joined(&owned, ", "), list.join(", "));
    }
}

#[test]
fn numbers_are_written_and_read_back() {
    for n in [0u64, 1, 9, 10, 99, 100, 12345, u64::MAX] {
        assert_eq!(decimal_text(n), n.to_string());
        assert_eq!(two_digit_text(n), format!("{:02}", n));
        assert_eq!(parse_number(&decimal_text(n), u64::MAX), Some(n));
    }
}

#[test]
fn numbers_are_read_as_std_reads_them() {
    for s in [
        "", "+", "-", "+5", "++5", "-0", "-1", "007", "4294967295", "4294967296", "12a", " 1", "1 ",
        "18446744073709551615", "18446744073709551616", "99999999999999999999999", "0", "+0", "１",
    ] {
        assert_eq!(parse_number(s, u64::MAX), s.parse::<u64>().ok(), "{:?}", s);
        assert_eq!(
            parse_number(s, u32::MAX as u64),
            s.parse::<u32>().ok().map(|n| n as u64),
            "{:?}",
            s
        );
    }
    assert_eq!(parse_number("7", 6), None);
    assert_eq!(parse_number("0", 0), Some(0));
}
