use tmux_mem::decimal::{parse_i32_chars, parse_i64_chars, parse_u64_chars};
use tmux_mem::text::{
    contains_text, ends_with_text, from_chars, is_space_char, lines_chars, lower_char,
    lowercase_chars, split_chars, starts_with_text, to_chars, trim_chars, trim_start_chars,
    words_chars,
};

fn chars(s: &str) -> Vec<char> {
    s.chars().collect()
}

fn texts(parts: &[Vec<char>]) -> Vec<String> {
    parts.iter().map(|p| p.iter().collect()).collect()
}

fn corpus() -> Vec<String> {
    let mut all: Vec<String> = [
        "", " ", "a", " a ", "\ta b\n", "a\nb", "a\nb\n", "a\r\nb\r\n", "a\rb", "\n", "\n\n", "\r\n",
        "\r", "a\n\nb", "x\r\r\ny", "tab\tseparated\t\tfields\t", "\t", "a:b:c", ":", "::", "a:",
        ":a", "  lead", "trail  ", "\u{a0}nbsp\u{a0}", "\u{2003}em\u{3000}", "\u{85}next\u{85}",
        "\u{1680}ogham", "\u{200b}zero width", "\u{feff}bom", "mixed \t\n\r\u{b}\u{c} white",
        "TOTAL  1 2  3\t4   5K", "Physical footprint:   1.5G", "größe ✓ 𝄞", "UPPER lower MiXeD ÄÖ",
        "12", "+12", "-12", " 12", "12 ", "0012", "-0", "+", "-", "1-2", "2147483647",
        "2147483648", "-2147483648", "-2147483649", "9223372036854775807", "9223372036854775808",
        "-9223372036854775808", "-9223372036854775809", "18446744073709551615",
        "18446744073709551616", "000000000000000000000000000001", "１２", "1_000", "0x1f", "1e3",
    ]
    .iter()
    .map(|s| s.to_string())
    .collect();
    let mut seed: u64 = 42;
    let alphabet: Vec<char> = " \t\n\r:ab.Z09+-e\u{a0}\u{2028}é".chars().collect();
    for _ in 0..3000 {
        let mut s = String::new();
        seed = seed.wrapping_mul(6364136223846793005).wrapping_add(1442695040888963407);
        let len = (seed >> 59) as usize;
        for _ in 0..len {
            seed = seed.wrapping_mul(6364136223846793005).wrapping_add(1442695040888963407);
            s.push(alphabet[(seed >> 33) as usize % alphabet.len()]);
        }
        all.push(s);
    }
    all
}

#[test]
fn white_space_is_what_the_standard_library_says() {
    for code in 0..=0x10FFFFu32 {
        if let Some(c) = char::from_u32(code) {
            assert_eq!(is_space_char(c), c.is_whitespace(), "for U+{:04X}", code);
            assert_eq!(lower_char(c), c.to_ascii_lowercase(), "for U+{:04X}", code);
        }
    }
}

#[test]
fn characters_go_in_and_out_unchanged() {
    for s in corpus() {
        assert_eq!(to_chars(&s), chars(&s));
        assert_eq!(from_chars(&chars(&s)), s);
    }
}

#[test]
fn trimming_agrees_with_the_standard_library() {
    for s in corpus() {
        assert_eq!(trim_chars(&chars(&s)), chars(s.trim()), "for {:?}", s);
        assert_eq!(trim_start_chars(&chars(&s)), chars(s.trim_start()), "for {:?}", s);
        assert_eq!(lowercase_chars(&chars(&s)), chars(&s.to_ascii_lowercase()), "for {:?}", s);
    }
}

#[test]
fn splitting_agrees_with_the_standard_library() {
    for s in corpus() {
        let expected: Vec<String> = s.lines().map(|l| l.to_string()).collect();
        assert_eq!(texts(&lines_chars(&chars(&s))), expected, "lines of {:?}", s);
        for sep in ['\t', ':', ' '] {
            let expected: Vec<String> = s.split(sep).map(|l| l.to_string()).collect();
            assert_eq!(texts(&split_chars(&chars(&s), sep)), expected, "split of {:?}", s);
        }
        let expected: Vec<String> = s.split_whitespace().map(|l| l.to_string()).collect();
        assert_eq!(texts(&words_chars(&chars(&s))), expected, "words of {:?}", s);
    }
}

#[test]
fn searching_agrees_with_the_standard_library() {
    let needles = ["", "a", "ab", " ", "\n", "TOTAL", "minus reserved", ":", "é", "ba", "a b"];
    for s in corpus() {
        for needle in needles {
            let v = chars(&s);
            assert_eq!(starts_with_text(&v, needle), s.starts_with(needle), "{:?} {:?}", s, needle);
            assert_eq!(ends_with_text(&v, needle), s.ends_with(needle), "{:?} {:?}", s, needle);
            assert_eq!(contains_text(&v, needle), s.contains(needle), "{:?} {:?}", s, needle);
        }
    }
}

#[test]
fn numbers_are_read_as_the_standard_library_reads_them() {
    for s in corpus() {
        let v = chars(&s);
        assert_eq!(parse_u64_chars(&v), s.parse::<u64>().ok(), "for {:?}", s);
        assert_eq!(parse_i64_chars(&v), s.parse::<i64>().ok(), "for {:?}", s);
        assert_eq!(parse_i32_chars(&v), s.parse::<i32>().ok(), "for {:?}", s);
    }
}
