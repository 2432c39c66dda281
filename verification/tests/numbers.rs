use rest_client_lsp::numbers::{decimal_of, hex_of, parse_usize};

#[test]
fn numerals_are_those_of_the_standard_library() {
    for n in [0u64, 1, 9, 10, 99, 100, 255, 4096, u32::MAX as u64, u64::MAX] {
        assert_eq!(decimal_of(n), format!("{n}"));
        assert_eq!(hex_of(n), format!("{n:x}"));
    }
}

#[test]
fn numbers_are_read_as_by_the_standard_library() {
    for text in [
        "", "+", "-", "0", "007", "+7", "-7", "7 ", " 7", "1_0", "12a", "18446744073709551615",
        "18446744073709551616", "99999999999999999999999",
    ] {
        assert_eq!(parse_usize(text), text.parse::<usize>().ok(), "{text}");
    }
}
