use raytracer::text::{chars_of, parse_usize, split_chars, trim_chars, words_of, IntError};

fn chars(s: &str) -> Vec<char> {
    s.chars().collect()
}

fn strings(v: Vec<Vec<char>>) -> Vec<String> {
    v.into_iter().map(|c| c.into_iter().collect()).collect()
}

#[test]
fn usize_parsing_agrees_with_std() {
    let samples = [
        "", "+", "-", "0", "7", "+7", "-7", "12a", "a12", "007", "++1", "18446744073709551615",
        "18446744073709551616", "99999999999999999999x", "1 2", "٣",
    ];
    for s in samples {
        let expected = s.parse::<usize>().map_err(|e| match e.kind() {
            std::num::IntErrorKind::Empty => IntError::Empty,
            std::num::IntErrorKind::InvalidDigit => IntError::InvalidDigit,
            std::num::IntErrorKind::PosOverflow => IntError::PosOverflow,
            other => panic!("unexpected {other:?}"),
        });
        assert_eq!(parse_usize(&chars(s)), expected, "parsing {s:?}");
    }
}

#[test]
fn trimming_agrees_with_std() {
    for s in ["", "   ", " a b ", "\t\u{00a0}x\u{2003}", "\r\nline\r\n", "none"] {
        let t: String = trim_chars(&chars(s)).into_iter().collect();
        assert_eq!(t, s.trim());
    }
}

#[test]
fn splitting_agrees_with_std() {
    for s in ["", "/", "1//3", "a/b/c", "//", "x"] {
        let pieces = strings(split_chars(&chars(s), '/'));
        let expected: Vec<String> = s.split('/').map(String::from).collect();
        assert_eq!(pieces, expected);
    }
}

#[test]
fn words_skip_empty_pieces() {
    assert_eq!(strings(words_of(&chars("  f  1 2   3 "))), vec!["f", "1", "2", "3"]);
    assert!(words_of(&chars("    ")).is_empty());
}

#[test]
fn characters_of_a_string() {
    assert_eq!(chars_of("héllo"), vec!['h', 'é', 'l', 'l', 'o']);
}

#[test]
fn trimming_removes_every_unicode_white_space_character() {
    let white: Vec<char> = [
        0x09u32, 0x0A, 0x0B, 0x0C, 0x0D, 0x20, 0x85, 0xA0, 0x1680, 0x2000, 0x2005, 0x200A,
        0x2028, 0x2029, 0x202F, 0x205F, 0x3000,
    ]
    .iter()
    .map(|v| char::from_u32(*v).unwrap())
    .collect();
    let mut line = white.clone();
    line.push('v');
    line.extend(white.iter());
    assert_eq!(trim_chars(&line), vec!['v']);

    let kept: Vec<char> = ['\u{200B}', '\u{180E}', 'x'].to_vec();
    assert_eq!(trim_chars(&kept), kept);
}

#[test]
fn the_white_space_list_is_what_std_decides() {
    let listed = |v: u32| {
        (0x09..=0x0D).contains(&v)
            || v == 0x20
            || v == 0x85
            || v == 0xA0
            || v == 0x1680
            || (0x2000..=0x200A).contains(&v)
            || v == 0x2028
            || v == 0x2029
            || v == 0x202F
            || v == 0x205F
            || v == 0x3000
    };
    for c in (0..=0x10FFFFu32).filter_map(char::from_u32) {
        assert_eq!(c.is_whitespace(), listed(c as u32), "{c:?}");
    }
}
