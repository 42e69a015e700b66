use wireguard_conf::number::{parse_number, push_decimal};
use wireguard_conf::text::{
    find_char, has_class, is_whitespace, range_is, split_ranges, strip_range, to_chars, to_string,
    CharClass,
};

fn chars(s: &str) -> Vec<char> {
    s.chars().collect()
}

fn text(v: &Vec<char>, r: (usize, usize)) -> String {
    v[r.0..r.1].iter().collect()
}

#[test]
fn white_space_is_what_the_standard_library_calls_white_space() {
    let mut n: u32 = 0;
    while n <= 0x10FFFF {
        if let Some(c) = char::from_u32(n) {
            assert_eq!(is_whitespace(c), c.is_whitespace());
        }
        n += 1;
    }
}

#[test]
fn brackets_are_the_two_square_brackets() {
    assert!(has_class(CharClass::Bracket, '['));
    assert!(has_class(CharClass::Bracket, ']'));
    assert!(!has_class(CharClass::Bracket, '('));
    assert!(!has_class(CharClass::Bracket, ' '));
    assert!(has_class(CharClass::Space, ' '));
    assert!(!has_class(CharClass::Space, '['));
}

#[test]
fn characters_and_strings_convert_both_ways() {
    let v = to_chars("a€𝄞 z");
    assert_eq!(v, vec!['a', '€', '𝄞', ' ', 'z']);
    assert_eq!(to_string(&v, 0, 5), "a€𝄞 z");
    assert_eq!(to_string(&v, 1, 3), "€𝄞");
    assert_eq!(to_string(&v, 2, 2), "");
    assert_eq!(to_chars(""), Vec::<char>::new());
}

#[test]
fn stripping_white_space_agrees_with_trim() {
    let samples = ["", " ", "a", "  a  ", "\t\r\n a b \u{a0}\u{3000}", "a ", " a", "\u{85}x\u{2028}", " \n "];
    for s in samples {
        let v = chars(s);
        let r = strip_range(&v, 0, v.len(), CharClass::Space);
        assert_eq!(text(&v, r), s.trim());
    }
}

#[test]
fn stripping_happens_within_the_range() {
    let v = chars("xx  a b  yy");
    assert_eq!(strip_range(&v, 2, 9, CharClass::Space), (4, 7));
    assert_eq!(strip_range(&v, 0, 11, CharClass::Space), (0, 11));
    let r = strip_range(&v, 2, 4, CharClass::Space);
    assert_eq!(r.0, r.1);
}

#[test]
fn stripping_brackets_agrees_with_trim_matches() {
    let samples = ["[Peer]", "[[Peer]]", "[]", "[", "Peer", "[a]b[c]", "][x][", "[ Peer ]"];
    for s in samples {
        let v = chars(s);
        let r = strip_range(&v, 0, v.len(), CharClass::Bracket);
        assert_eq!(text(&v, r), s.trim_matches(|c| c == '[' || c == ']'));
    }
}

#[test]
fn find_gives_the_first_position_or_the_end() {
    let v = chars("a=b=c");
    assert_eq!(find_char(&v, 0, 5, '='), 1);
    assert_eq!(find_char(&v, 2, 5, '='), 3);
    assert_eq!(find_char(&v, 4, 5, '='), 5);
    assert_eq!(find_char(&v, 0, 1, '='), 1);
    assert_eq!(find_char(&v, 2, 2, '='), 2);
}

#[test]
fn range_is_compares_the_whole_range() {
    let v = chars("[Peer]");
    assert!(range_is(&v, 1, 5, "Peer"));
    assert!(!range_is(&v, 0, 5, "Peer"));
    assert!(!range_is(&v, 1, 4, "Peer"));
    assert!(!range_is(&v, 1, 5, "Peek"));
    assert!(range_is(&v, 3, 3, ""));
}

#[test]
fn split_agrees_with_the_standard_split() {
    let samples = ["", "a", "a\tb", "\t", "\t\t", "a\t\tb\t", "\ta", "no tabs here"];
    for s in samples {
        let v = chars(s);
        let got: Vec<String> = split_ranges(&v, 0, v.len(), '\t').iter().map(|r| text(&v, *r)).collect();
        let expected: Vec<String> = s.split('\t').map(|p| p.to_string()).collect();
        assert_eq!(got, expected);
    }
}

#[test]
fn split_stays_within_the_range() {
    let v = chars("a,b,c,d");
    assert_eq!(split_ranges(&v, 2, 5, ','), vec![(2, 3), (4, 5)]);
    assert_eq!(split_ranges(&v, 3, 3, ','), vec![(3, 3)]);
}

#[test]
fn numbers_are_read_as_the_standard_library_reads_them() {
    let samples = [
        "", "0", "1", "25", "51820", "65535", "65536", "99999", "100000", "000", "00065535",
        "0000000000000000000000001", "+", "+0", "+65535", "+65536", "-", "-0", "-1", "++1", "+-1",
        " 1", "1 ", "1_000", "0x10", "1e3", "１２", "٣", "12a", "a12", "6553a", "4294967296",
        "18446744073709551616", "655350",
    ];
    for s in samples {
        let v = chars(s);
        assert_eq!(parse_number(&v, 0, v.len()), s.parse::<u16>().ok());
    }
}

#[test]
fn numbers_are_read_within_the_range() {
    let v = chars("ab123cd");
    assert_eq!(parse_number(&v, 2, 5), Some(123));
    assert_eq!(parse_number(&v, 2, 6), None);
    assert_eq!(parse_number(&v, 3, 3), None);
}

#[test]
fn numbers_are_written_as_the_standard_library_writes_them() {
    let mut n: u16 = 0;
    loop {
        let mut s = String::from("n=");
        push_decimal(&mut s, n);
        assert_eq!(s, format!("n={}", n));
        if n == u16::MAX {
            break;
        }
        n += 1;
    }
}
