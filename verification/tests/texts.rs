use qmux_endpoint::text::decimal_string;
use qmux_endpoint::text::parse_usize;
use qmux_endpoint::text::trim;

#[test]
fn trim_is_that_of_std() {
    for text in ["", " ", "a", " a ", "\t\r\n a b \u{b}\u{c}", "\u{a0}x\u{3000}", "\u{200b}x\u{200b}"] {
        assert_eq!(trim(text), text.trim());
    }
    for code in 0..0x11_0000u32 {
        if let Some(c) = char::from_u32(code) {
            if c.is_whitespace() {
                assert_eq!(trim(&format!("{}a{}", c, c)), "a");
            }
        }
    }
    for code in 0..0x3100u32 {
        if let Some(c) = char::from_u32(code) {
            let text = c.to_string();
            assert_eq!(trim(&text), text.trim());
        }
    }
}

#[test]
fn decimal_is_that_of_std() {
    for n in [0, 1, 9, 10, 99, 100, 200, 404, 65_535, 10_000_000, u64::MAX] {
        assert_eq!(decimal_string(n), n.to_string());
    }
}

#[test]
fn parse_is_that_of_std() {
    let max = usize::MAX.to_string();
    let over = format!("{}0", max);
    let next = (usize::MAX as u128 + 1).to_string();
    for text in ["", "0", "+0", "-0", "12", "+12", "1+", "0x10", "\u{661}", &max, &over, &next, "000"] {
        assert_eq!(parse_usize(text), text.parse::<usize>().ok());
    }
}

#[test]
fn decimal_round_trip() {
    for n in [0, 7, 10, 4096, usize::MAX] {
        assert_eq!(parse_usize(&decimal_string(n as u64)), Some(n));
    }
}
