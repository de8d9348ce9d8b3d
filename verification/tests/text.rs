//! Text operations, held against those of the standard library.

use deepseek_swarm::text::{
    contains, decimal, has_char, is_whitespace, lines, same_text, starts_with, tail_after_last,
    to_ascii_lowercase, trim, trim_start,
};

const SAMPLES: [&str; 12] = [
    "",
    " ",
    "a",
    "  a b  ",
    "\t\u{a0}x\u{3000}\n",
    "ÄÖ Zz",
    "one\ntwo\r\nthree",
    "end\n",
    "\n\n",
    "cr\r",
    "a\r\r\nb",
    "p/q/r.txt",
];

#[test]
fn whitespace_is_that_of_the_standard_library() {
    for code in 0..=0x10_ffffu32 {
        if let Some(c) = char::from_u32(code) {
            assert_eq!(is_whitespace(c), c.is_whitespace(), "{code:x}");
        }
    }
}

#[test]
fn trimming_and_case_agree_with_the_standard_library() {
    for s in SAMPLES {
        assert_eq!(trim(s), s.trim());
        assert_eq!(trim_start(s), s.trim_start());
        assert_eq!(to_ascii_lowercase(s), s.to_ascii_lowercase());
        assert_eq!(trim(trim(s)), trim(s));
    }
}

#[test]
fn lines_agree_with_the_standard_library() {
    for s in SAMPLES {
        let expected: Vec<&str> = s.lines().collect();
        assert_eq!(lines(s), expected);
    }
}

#[test]
fn searching_agrees_with_the_standard_library() {
    for s in SAMPLES {
        for pattern in ["", "a", "two", "\n", "r.t", "Ö Z"] {
            assert_eq!(contains(s, pattern), s.contains(pattern));
            assert_eq!(starts_with(s, pattern), s.starts_with(pattern));
            assert_eq!(same_text(s, pattern), s == pattern);
        }
        for c in ['/', '\n', 'Z'] {
            assert_eq!(has_char(s, c), s.contains(c));
            let tail = s.rsplit_once(c).map(|(_, tail)| tail).unwrap_or(s);
            assert_eq!(tail_after_last(s, c), tail);
        }
    }
}

#[test]
fn numbers_are_written_in_decimal() {
    for n in [0, 7, 10, 99, 100, 12345, u64::MAX] {
        assert_eq!(decimal(n), n.to_string());
    }
}
