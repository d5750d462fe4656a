use svd_encoder::cases::{change_case, CaseStyle};
use svd_encoder::numbers::{format_number, parse_number, NumberFormat};

#[test]
fn format_decimal_exact() {
    assert_eq!(format_number(0, Some(NumberFormat::Dec)), "0");
    assert_eq!(format_number(255, Some(NumberFormat::Dec)), "255");
    assert_eq!(format_number(1_000_000, Some(NumberFormat::Dec)), "1000000");
    assert_eq!(
        format_number(u64::MAX, Some(NumberFormat::Dec)),
        "18446744073709551615"
    );
}

#[test]
fn format_hex_exact() {
    assert_eq!(format_number(0, Some(NumberFormat::LowerHex)), "0x0");
    assert_eq!(format_number(255, Some(NumberFormat::LowerHex)), "0xff");
    assert_eq!(format_number(255, Some(NumberFormat::UpperHex)), "0xFF");
    assert_eq!(
        format_number(0x4002_0000, Some(NumberFormat::LowerHex)),
        "0x40020000"
    );
    assert_eq!(
        format_number(u64::MAX, Some(NumberFormat::UpperHex)),
        "0xFFFFFFFFFFFFFFFF"
    );
}

#[test]
fn format_default_is_decimal() {
    assert_eq!(format_number(1234, None), "1234");
}

#[test]
fn number_round_trip() {
    let values = [0u64, 1, 9, 10, 15, 16, 255, 4096, 0x4002_0000, u64::MAX];
    let styles = [
        NumberFormat::Dec,
        NumberFormat::LowerHex,
        NumberFormat::UpperHex,
    ];
    for v in values {
        for st in styles {
            let s = format_number(v, Some(st));
            assert_eq!(parse_number(&s, st), Some(v));
        }
    }
}

#[test]
fn parse_rejects_malformed() {
    assert_eq!(parse_number("", NumberFormat::Dec), None);
    assert_eq!(parse_number("12a", NumberFormat::Dec), None);
    assert_eq!(parse_number("ff", NumberFormat::LowerHex), None);
    assert_eq!(parse_number("0x", NumberFormat::LowerHex), None);
    assert_eq!(parse_number("0xFF", NumberFormat::LowerHex), None);
    assert_eq!(parse_number("0xff", NumberFormat::UpperHex), None);
}

#[test]
fn parse_rejects_overflow() {
    assert_eq!(parse_number("18446744073709551616", NumberFormat::Dec), None);
    assert_eq!(
        parse_number("0x10000000000000000", NumberFormat::LowerHex),
        None
    );
}

#[test]
fn change_case_upper_and_lower() {
    assert_eq!(change_case("timer0", Some(CaseStyle::Upper)), "TIMER0");
    assert_eq!(change_case("TIMER0", Some(CaseStyle::Lower)), "timer0");
    assert_eq!(change_case("GpIo_A1", Some(CaseStyle::Upper)), "GPIO_A1");
    assert_eq!(change_case("GpIo_A1", Some(CaseStyle::Lower)), "gpio_a1");
}

#[test]
fn change_case_passthrough_without_style() {
    assert_eq!(change_case("MiXeD_42", None), "MiXeD_42");
}

#[test]
fn change_case_keeps_unclassified_characters() {
    assert_eq!(change_case("a-b.c_1", Some(CaseStyle::Upper)), "A-B.C_1");
    assert_eq!(change_case("0x_42", Some(CaseStyle::Upper)), "0X_42");
}

#[test]
fn change_case_idempotent() {
    let once = change_case("Uart_rx0", Some(CaseStyle::Upper));
    let twice = change_case(&once, Some(CaseStyle::Upper));
    assert_eq!(once, twice);
}
