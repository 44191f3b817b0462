use gridrock::text::{chars_of, parse_u16, parse_u32, parse_u64, push_decimal, string_from_chars, trim_chars};

#[test]
fn parse_numbers_like_std() {
    for s in ["0", "42", "+42", "007", "18446744073709551615", "18446744073709551616", "", "+", "-1", " 1", "1a", "4294967295", "4294967296", "65535", "65536"] {
        assert_eq!(parse_u64(s), s.parse::<u64>().ok(), "u64 {:?}", s);
        assert_eq!(parse_u32(s), s.parse::<u32>().ok(), "u32 {:?}", s);
        assert_eq!(parse_u16(s), s.parse::<u16>().ok(), "u16 {:?}", s);
    }
}

#[test]
fn decimal_writing() {
    for n in [0u64, 7, 10, 99, 50051, u64::MAX] {
        let mut s = String::from("x");
        push_decimal(&mut s, n);
        assert_eq!(s, format!("x{}", n));
    }
}

#[test]
fn chars_and_trim() {
    let s = " \t héllo wörld \u{3000}\n";
    assert_eq!(chars_of(s), s.chars().collect::<Vec<char>>());
    let trimmed = trim_chars(&chars_of(s));
    assert_eq!(string_from_chars(&trimmed), s.trim());
    assert_eq!(string_from_chars(&trim_chars(&chars_of("   "))), "");
}

#[test]
fn white_space_matches_std_for_every_char() {
    for code in 0u32..=0x10FFFF {
        if let Some(c) = char::from_u32(code) {
            assert_eq!(gridrock::text::is_white_space_char(c), c.is_whitespace(), "{:#x}", code);
        }
    }
}
