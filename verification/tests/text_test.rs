use mini_agent::bytes;
use mini_agent::number;
use mini_agent::text;

#[test]
fn white_space_is_that_of_unicode() {
    for n in 0..=0x10ffff_u32 {
        if let Some(c) = char::from_u32(n) {
            assert_eq!(text::is_white(c), c.is_whitespace());
        }
    }
}

const SAMPLES: [&str; 12] = [
    "",
    " ",
    "a",
    "  a b  ",
    "a\nb",
    "a\r\nb\r\n",
    "\n\n",
    "a\r",
    "--a--",
    "…ä\u{3000}ö ",
    "aaa",
    "one  two\tthree\nfour",
];

#[test]
fn trimming_and_splitting() {
    for s in SAMPLES.iter() {
        assert_eq!(text::trim(s), s.trim());
        assert_eq!(text::trim_start(s), s.trim_start());
        assert_eq!(text::lines(s), s.lines().map(|l| l.to_string()).collect::<Vec<_>>());
        assert_eq!(text::words(s), s.split_whitespace().map(|l| l.to_string()).collect::<Vec<_>>());
        assert_eq!(text::split(s, "a"), s.split("a").map(|l| l.to_string()).collect::<Vec<_>>());
        assert_eq!(text::split(s, "aa"), s.split("aa").map(|l| l.to_string()).collect::<Vec<_>>());
        assert_eq!(text::strip_leading(s, '-'), s.trim_start_matches('-'));
        assert_eq!(text::strip_trailing(s, '-'), s.trim_end_matches('-'));
        assert_eq!(text::chars_of(s), s.chars().collect::<Vec<_>>());
    }
}

#[test]
fn searching_and_replacing() {
    for s in SAMPLES.iter() {
        for p in ["", "a", "aa", "two", "\n"].iter() {
            assert_eq!(text::contains(s, p), s.contains(p));
            assert_eq!(text::starts_with(s, p), s.starts_with(p));
            assert_eq!(text::ends_with(s, p), s.ends_with(p));
            assert_eq!(text::replace_all(s, p, "<>"), s.replace(p, "<>"));
            assert_eq!(
                text::find(s, p),
                s.find(p).map(|i| s[..i].chars().count())
            );
        }
    }
}

#[test]
fn joining_and_order() {
    let parts = vec!["a".to_string(), "".to_string(), "b".to_string()];
    assert_eq!(text::join(&parts, ", "), "a, , b");
    assert_eq!(text::join(&vec![], ", "), "");
    for a in SAMPLES.iter() {
        for b in SAMPLES.iter() {
            assert_eq!(text::in_order(a, b), a <= b);
            assert_eq!(text::same(a, b), a == b);
        }
    }
    assert!(text::eq_ignore_case("Streamable-HTTP", "streamable-http"));
    assert!(!text::eq_ignore_case("ä", "Ä"));
    assert_eq!(text::concat5("a", "b", "c", "d", "e"), "abcde");
}

#[test]
fn lines_come_apart_as_they_were_joined() {
    let parts = vec!["one".to_string(), "".to_string(), "two".to_string()];
    assert_eq!(text::lines(&text::join(&parts, "\n")), parts);
    let with_end = vec!["one".to_string(), "".to_string()];
    assert_eq!(text::lines(&text::join(&with_end, "\n")), vec!["one".to_string()]);
}

#[test]
fn cutting_in_bytes() {
    assert_eq!(bytes::len("aé"), 3);
    assert!(bytes::can_cut("aé", 1));
    assert!(!bytes::can_cut("aé", 2));
    assert!(!bytes::can_cut("aé", 4));
    assert_eq!(bytes::prefix("aé", 1), "a");
    assert_eq!(bytes::suffix("aé", 1), "é");
}

#[test]
fn numbers_are_written_in_decimal() {
    for n in [0u64, 7, 10, 99, 12345, u64::MAX].iter() {
        assert_eq!(number::show(*n), n.to_string());
    }
    for n in [0i64, -1, 42, i64::MIN, i64::MAX].iter() {
        assert_eq!(number::show_signed(*n), n.to_string());
    }
    assert_eq!(number::show_size(usize::MAX), usize::MAX.to_string());
}
