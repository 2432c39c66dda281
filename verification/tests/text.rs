use rest_client_lsp::text::{
    after_prefix, bytes_of, chars_before, chars_of, contains_in, ends_with_in, equal_ignoring_case,
    find_in, head_of, lines_of, lowered, rfind_in, same_text, starts_with_in, string_of, trimmed,
    white_space,
};

const SAMPLES: [&str; 12] = [
    "",
    " ",
    "plain",
    "  both ends\t",
    "a\nb\r\nc",
    "a\n\nb\n",
    "\r\n",
    "end\r",
    "{{{x}}} {{y}}",
    "caf\u{e9} \u{1f600} {{z}}\u{3000}",
    "\u{a0}no break\u{a0}",
    "text/HTML; charset=UTF-8",
];

#[test]
fn white_space_is_that_of_the_standard_library() {
    for code in 0..=0x10ffffu32 {
        if let Some(c) = char::from_u32(code) {
            assert_eq!(white_space(c), c.is_whitespace(), "{code:x}");
        }
    }
}

#[test]
fn trimming_is_that_of_the_standard_library() {
    for sample in SAMPLES {
        assert_eq!(string_of(trimmed(&chars_of(sample))), sample.trim());
    }
}

#[test]
fn lines_are_those_of_the_standard_library() {
    for sample in SAMPLES {
        let rows: Vec<String> = lines_of(sample).iter().map(|row| string_of(row)).collect();
        let expected: Vec<String> = sample.lines().map(|line| line.to_string()).collect();
        assert_eq!(rows, expected);
    }
}

#[test]
fn searching_is_that_of_the_standard_library() {
    for sample in SAMPLES {
        let chars = chars_of(sample);
        for pattern in ["{{", "}}", "a", "\n", "zz"] {
            let wanted = chars_of(pattern);
            let first = find_in(&chars, &wanted).map(|i| string_of(&chars[..i]).len());
            assert_eq!(first, sample.find(pattern));
            let last = rfind_in(&chars, &wanted).map(|i| string_of(&chars[..i]).len());
            assert_eq!(last, sample.rfind(pattern));
            assert_eq!(contains_in(&chars, &wanted), sample.contains(pattern));
            assert_eq!(starts_with_in(&chars, &wanted), sample.starts_with(pattern));
            assert_eq!(ends_with_in(&chars, &wanted), sample.ends_with(pattern));
            let rest = after_prefix(&chars, &wanted).map(string_of);
            assert_eq!(rest.as_deref(), sample.strip_prefix(pattern));
        }
    }
}

#[test]
fn last_occurrence_may_overlap() {
    assert_eq!(rfind_in(&chars_of("{{{"), &chars_of("{{")), Some(1));
    assert_eq!(find_in(&chars_of("{{{"), &chars_of("{{")), Some(0));
}

#[test]
fn head_ends_at_the_first_separator() {
    assert_eq!(string_of(head_of(&chars_of("a.b.c"), '.')), "a");
    assert_eq!(string_of(head_of(&chars_of(".b"), '.')), "");
    assert_eq!(string_of(head_of(&chars_of("abc"), '.')), "abc");
}

#[test]
fn lower_case_is_ascii_only() {
    for sample in SAMPLES {
        assert_eq!(string_of(&lowered(&chars_of(sample))), sample.to_ascii_lowercase());
    }
    assert_eq!(string_of(&lowered(&chars_of("\u{c9}A"))), "\u{c9}a");
    assert!(equal_ignoring_case("Content-TYPE", "content-type"));
    assert!(!equal_ignoring_case("content_type", "content-type"));
    assert!(same_text("a", "a"));
    assert!(!same_text("a", "A"));
}

#[test]
fn offsets_count_bytes() {
    let line = chars_of("a\u{e9}\u{1f600}b");
    assert_eq!(bytes_of(&line), 8);
    assert_eq!(chars_before(&line, 0), Some(0));
    assert_eq!(chars_before(&line, 1), Some(1));
    assert_eq!(chars_before(&line, 2), None);
    assert_eq!(chars_before(&line, 3), Some(2));
    assert_eq!(chars_before(&line, 5), None);
    assert_eq!(chars_before(&line, 7), Some(3));
    assert_eq!(chars_before(&line, 8), Some(4));
    assert_eq!(chars_before(&line, 99), Some(4));
}
