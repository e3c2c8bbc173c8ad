use pricing::amount::{
    add_clamped, parse_price, price_from, scale_clamped, AMOUNT_SCALE, DEPOSIT_MULTIPLIER,
    DISCOUNT_PLACES, FULL_DISCOUNT, MULTIPLIER_SCALE, PRICE_PLACES, PRICE_SCALE,
};
use pricing::number::{read_decimal, read_integer, Reading};
use pricing::row::{discount_from, parse_discount, parse_quantity, quantity_from};

fn decimal(text: &str, places: u32, limit: u64) -> Reading {
    let chars: Vec<char> = text.chars().collect();
    read_decimal(&chars, places, limit)
}

fn integer(text: &str, limit: u64) -> Reading {
    let chars: Vec<char> = text.chars().collect();
    read_integer(&chars, limit)
}

fn exact(negative: bool, magnitude: u64) -> Reading {
    Reading::Exact { negative, magnitude }
}

#[test]
fn the_scales_fit_together() {
    assert_eq!(PRICE_SCALE, 10i64.pow(PRICE_PLACES));
    assert_eq!(FULL_DISCOUNT, 100 * 10u32.pow(DISCOUNT_PLACES));
    assert_eq!(
        AMOUNT_SCALE,
        PRICE_SCALE as i128 * FULL_DISCOUNT as i128 * MULTIPLIER_SCALE as i128
    );
    assert_eq!(DEPOSIT_MULTIPLIER * 2, MULTIPLIER_SCALE);
}

#[test]
fn plain_decimals_are_read_exactly() {
    assert_eq!(decimal("0", 2, 1000), exact(false, 0));
    assert_eq!(decimal("7", 2, 1000), exact(false, 700));
    assert_eq!(decimal("7.5", 2, 1000), exact(false, 750));
    assert_eq!(decimal("7.25", 2, 1000), exact(false, 725));
    assert_eq!(decimal("007.250", 2, 1000), exact(false, 725));
    assert_eq!(decimal(".5", 2, 1000), exact(false, 50));
    assert_eq!(decimal("5.", 2, 1000), exact(false, 500));
    assert_eq!(decimal("+1.5", 1, 1000), exact(false, 15));
    assert_eq!(decimal("-1.5", 1, 1000), exact(true, 15));
    assert_eq!(decimal("-0", 3, 1000), exact(true, 0));
    assert_eq!(decimal("10", 2, 1000), exact(false, 1000));
}

#[test]
fn digits_beyond_the_places_are_cut_off() {
    assert_eq!(decimal("1.999", 2, 1000), exact(false, 199));
    assert_eq!(decimal("-1.999", 2, 1000), exact(true, 199));
    assert_eq!(decimal("0.009", 2, 1000), exact(false, 0));
    assert_eq!(decimal("0.00999999999999999999999999999999999999", 2, 1000), exact(false, 0));
    assert_eq!(decimal("1.23456789", 0, 1000), exact(false, 1));
    assert_eq!(decimal("33.33333", 4, 1_000_000), exact(false, 333_333));
}

#[test]
fn powers_of_ten_shift_the_digits() {
    assert_eq!(decimal("1e1", 2, 100_000), exact(false, 1000));
    assert_eq!(decimal("1E1", 2, 100_000), exact(false, 1000));
    assert_eq!(decimal("1e+2", 0, 100_000), exact(false, 100));
    assert_eq!(decimal("1.5e2", 1, 100_000), exact(false, 1500));
    assert_eq!(decimal("25e-1", 1, 100_000), exact(false, 25));
    assert_eq!(decimal("25e-1", 0, 100_000), exact(false, 2));
    assert_eq!(decimal("25e-2", 0, 100_000), exact(false, 0));
    assert_eq!(decimal("25e-3", 0, 100_000), exact(false, 0));
    assert_eq!(decimal("123456e-3", 1, 100_000), exact(false, 1234));
    assert_eq!(decimal("5.e1", 0, 100_000), exact(false, 50));
    assert_eq!(decimal(".5e1", 0, 100_000), exact(false, 5));
    assert_eq!(decimal("-2e0", 0, 100_000), exact(true, 2));
    assert_eq!(decimal("1e-0", 0, 100_000), exact(false, 1));
    assert_eq!(decimal("0.000001e6", 0, 100_000), exact(false, 1));
    assert_eq!(decimal("1000000e-6", 0, 100_000), exact(false, 1));
}

#[test]
fn huge_powers_of_ten_are_read_without_counting_them_out() {
    let limit = u64::MAX;
    assert_eq!(decimal("1e99999999999999999999999999999999999999999", 0, limit),
        Reading::Beyond { negative: false });
    assert_eq!(decimal("-1e99999999999999999999999999999999999999999", 0, limit),
        Reading::Beyond { negative: true });
    assert_eq!(decimal("0e99999999999999999999999999999999999999999", 0, limit), exact(false, 0));
    assert_eq!(decimal("0.000e99999999999999999999999999999999999999999", 6, limit),
        exact(false, 0));
    assert_eq!(decimal("1e-99999999999999999999999999999999999999999", 6, limit),
        exact(false, 0));
    assert_eq!(decimal("987654321e-99999999999999999999999999999999999999999", 6, limit),
        exact(false, 0));
    assert_eq!(decimal("1e79228162514264337593543950336", 0, limit),
        Reading::Beyond { negative: false });
    assert_eq!(decimal("1e79228162514264337593543950337", 0, limit),
        Reading::Beyond { negative: false });
    assert_eq!(decimal("1e-79228162514264337593543950336", 0, limit), exact(false, 0));
    assert_eq!(decimal("1e-79228162514264337593543950337", 0, limit), exact(false, 0));
    assert_eq!(decimal("1e400", 0, limit), Reading::Beyond { negative: false });
    assert_eq!(decimal("1e-400", 6, limit), exact(false, 0));
}

#[test]
fn a_magnitude_is_exact_up_to_the_limit_and_beyond_it_after() {
    assert_eq!(decimal("10.00", 2, 1000), exact(false, 1000));
    assert_eq!(decimal("10.01", 2, 1000), Reading::Beyond { negative: false });
    assert_eq!(decimal("-10.01", 2, 1000), Reading::Beyond { negative: true });
    assert_eq!(decimal("18446744073709551615", 0, u64::MAX), exact(false, u64::MAX));
    assert_eq!(decimal("18446744073709551616", 0, u64::MAX), Reading::Beyond { negative: false });
    assert_eq!(decimal("1844674407370955161.5", 1, u64::MAX), exact(false, u64::MAX));
    assert_eq!(decimal("1844674407370955161.6", 1, u64::MAX), Reading::Beyond { negative: false });
    assert_eq!(decimal("0", 0, 0), exact(false, 0));
    assert_eq!(decimal("1", 0, 0), Reading::Beyond { negative: false });
    assert_eq!(decimal("0.9", 0, 0), exact(false, 0));
    let long = "9".repeat(500);
    assert_eq!(decimal(&long, 0, u64::MAX), Reading::Beyond { negative: false });
    let small = format!("0.{}1", "0".repeat(500));
    assert_eq!(decimal(&small, 6, u64::MAX), exact(false, 0));
    let back = format!("{}e-495", "9".repeat(500));
    assert_eq!(decimal(&back, 0, u64::MAX), exact(false, 99999));
}

#[test]
fn what_is_no_decimal_number_is_invalid() {
    let samples = [
        "", "+", "-", ".", "+.", "-.", "e5", ".e5", "1e", "1e+", "1e-", "1e1.5", "1.2.3", "1,5",
        " 1", "1 ", "1 000", "1_000", "0x10", "1e 5", "++1", "--1", "+-1", "1-", "1.5f", "abc",
        "inf", "-inf", "infinity", "nan", "NaN", "١٢٣", "1e١", "½", "1..", "..1", "1e5e5", "e",
        "E", "1.e", "٣.٥",
    ];
    for sample in samples {
        assert_eq!(decimal(sample, 4, 1_000_000), Reading::Invalid, "{sample:?}");
    }
}

#[test]
fn decimals_agree_with_floating_point_where_that_is_exact() {
    let samples = [
        "0", "1", "2.5", "100", "99.75", "0.125", "12.5e1", "125e-2", "1e2", "+3.25", "64",
        ".5", "5.", "0.5e1", "1024e-3",
    ];
    for sample in samples {
        let float: f64 = sample.parse().unwrap();
        let expected = (float * 1000.0).floor() as u64;
        assert_eq!(decimal(sample, 3, u64::MAX), exact(false, expected), "{sample:?}");
    }
}

#[test]
fn every_decimal_that_floating_point_rejects_is_invalid() {
    let alphabet = ['0', '7', '.', 'e', 'E', '+', '-', ' ', 'x'];
    let mut texts: Vec<String> = vec![String::new()];
    for _ in 0..4 {
        let mut longer = Vec::new();
        for text in &texts {
            for c in alphabet {
                let mut next = text.clone();
                next.push(c);
                longer.push(next);
            }
        }
        for text in &longer {
            let accepted = decimal(text, 2, u64::MAX) != Reading::Invalid;
            assert_eq!(accepted, text.parse::<f64>().is_ok(), "{text:?}");
        }
        texts = longer;
    }
}

#[test]
fn integers_are_a_sign_and_digits() {
    assert_eq!(integer("0", 100), exact(false, 0));
    assert_eq!(integer("42", 100), exact(false, 42));
    assert_eq!(integer("+42", 100), exact(false, 42));
    assert_eq!(integer("-42", 100), exact(true, 42));
    assert_eq!(integer("-0", 100), exact(true, 0));
    assert_eq!(integer("0042", 100), exact(false, 42));
    assert_eq!(integer("100", 100), exact(false, 100));
    assert_eq!(integer("101", 100), Reading::Beyond { negative: false });
    assert_eq!(integer("-101", 100), Reading::Beyond { negative: true });
    for sample in ["", "+", "-", "4.2", "4.", ".4", "4e2", " 4", "4 ", "4_2", "four", "٤"] {
        assert_eq!(integer(sample, 100), Reading::Invalid, "{sample:?}");
    }
}

#[test]
fn every_integer_that_the_standard_library_reads_is_read_alike() {
    let alphabet = ['0', '9', '+', '-', '.', ' '];
    let mut texts: Vec<String> = vec![String::new()];
    for _ in 0..4 {
        let mut longer = Vec::new();
        for text in &texts {
            for c in alphabet {
                let mut next = text.clone();
                next.push(c);
                longer.push(next);
            }
        }
        for text in &longer {
            let expected = match text.parse::<i64>() {
                Ok(n) => exact(n < 0 || text.starts_with('-'), n.unsigned_abs()),
                Err(_) => Reading::Invalid,
            };
            assert_eq!(integer(text, i64::MAX as u64), expected, "{text:?}");
        }
        texts = longer;
    }
}

#[test]
fn a_quantity_is_an_integer_from_zero_up() {
    assert_eq!(parse_quantity(Some("3")), 3);
    assert_eq!(parse_quantity(Some(" 3\n")), 3);
    assert_eq!(parse_quantity(Some("+3")), 3);
    assert_eq!(parse_quantity(Some("0")), 0);
    assert_eq!(parse_quantity(Some("007")), 7);
    assert_eq!(parse_quantity(Some("9223372036854775807")), i64::MAX);
}

#[test]
fn a_quantity_that_is_absent_or_unreadable_or_negative_is_zero() {
    assert_eq!(parse_quantity(None), 0);
    for sample in [
        "", " ", "-1", "-0", "-9223372036854775808", "-9223372036854775809",
        "9223372036854775808", "99999999999999999999999", "3.0", "3.", "1e2", "three", "3 4",
        "0x3", "+", "-", "3\u{200b}",
    ] {
        assert_eq!(parse_quantity(Some(sample)), 0, "{sample:?}");
    }
}

#[test]
fn a_quantity_is_what_the_standard_library_reads_raised_to_zero() {
    for sample in ["12", " -5 ", "+0", "x", "4294967296", "\t77\t", "1 2", "--3", "9223372036854775807"] {
        let expected = sample.trim().parse::<i64>().ok().unwrap_or(0).max(0);
        assert_eq!(parse_quantity(Some(sample)), expected, "{sample:?}");
        let chars: Vec<char> = sample.chars().collect();
        assert_eq!(quantity_from(&chars), expected, "{sample:?}");
    }
}

#[test]
fn a_discount_is_a_percentage_in_ten_thousandths() {
    assert_eq!(parse_discount(Some("0")), 0);
    assert_eq!(parse_discount(Some("10")), 100_000);
    assert_eq!(parse_discount(Some(" 10 ")), 100_000);
    assert_eq!(parse_discount(Some("12.5")), 125_000);
    assert_eq!(parse_discount(Some("0.0001")), 1);
    assert_eq!(parse_discount(Some("0.00009")), 0);
    assert_eq!(parse_discount(Some("33.33339")), 333_333);
    assert_eq!(parse_discount(Some("99.9999")), 999_999);
    assert_eq!(parse_discount(Some("100")), FULL_DISCOUNT);
    assert_eq!(parse_discount(Some("1e1")), 100_000);
    assert_eq!(parse_discount(Some("+.5")), 5_000);
}

#[test]
fn a_discount_stays_between_zero_and_a_hundred_percent() {
    assert_eq!(parse_discount(Some("150")), FULL_DISCOUNT);
    assert_eq!(parse_discount(Some("100.0001")), FULL_DISCOUNT);
    assert_eq!(parse_discount(Some("1e300")), FULL_DISCOUNT);
    assert_eq!(parse_discount(Some("99999999999999999999999999")), FULL_DISCOUNT);
    assert_eq!(parse_discount(Some("-1")), 0);
    assert_eq!(parse_discount(Some("-0.0")), 0);
    assert_eq!(parse_discount(Some("-1e300")), 0);
    assert_eq!(parse_discount(Some("-99999999999999999999999999")), 0);
}

#[test]
fn a_discount_that_is_absent_or_unreadable_is_zero() {
    assert_eq!(parse_discount(None), 0);
    for sample in ["", " ", "ten", "10%", "1,5", "1.2.3", "nan", "inf", "-inf", "1e", "--1", "."] {
        assert_eq!(parse_discount(Some(sample)), 0, "{sample:?}");
        let chars: Vec<char> = sample.chars().collect();
        assert_eq!(discount_from(&chars), 0, "{sample:?}");
    }
}

#[test]
fn a_discount_is_what_floating_point_reads_where_that_is_exact() {
    for sample in ["0", "25", "12.5", "  7.25", "150", "-3", "junk", "1e2", "0.5e1", "100"] {
        let float = sample.trim().parse::<f64>().ok().unwrap_or(0.0).clamp(0.0, 100.0);
        let expected = (float * 10_000.0) as u32;
        assert_eq!(parse_discount(Some(sample)), expected, "{sample:?}");
    }
}

#[test]
fn a_price_counts_millionths() {
    assert_eq!(parse_price("20.0"), Some(20_000_000));
    assert_eq!(parse_price("100"), Some(100_000_000));
    assert_eq!(parse_price("0.000001"), Some(1));
    assert_eq!(parse_price("0.0000019"), Some(1));
    assert_eq!(parse_price("19.99"), Some(19_990_000));
    assert_eq!(parse_price("-19.99"), Some(-19_990_000));
    assert_eq!(parse_price("-0.0000019"), Some(-1));
    assert_eq!(parse_price("1e3"), Some(1_000_000_000));
    assert_eq!(parse_price("0"), Some(0));
    assert_eq!(parse_price("-0"), Some(0));
    assert_eq!(parse_price("9223372036854.775807"), Some(i64::MAX));
    assert_eq!(parse_price("-9223372036854.775807"), Some(-i64::MAX));
}

#[test]
fn a_price_that_is_unreadable_or_too_large_is_none() {
    for sample in [
        "", " 20", "20 ", "twenty", "$20", "20,00", "9223372036854.775808",
        "-9223372036854.775808", "1e13", "1e999", "inf", "nan",
    ] {
        assert_eq!(parse_price(sample), None, "{sample:?}");
        let chars: Vec<char> = sample.chars().collect();
        assert_eq!(price_from(&chars), None, "{sample:?}");
    }
}

#[test]
fn sums_stay_at_the_bounds() {
    assert_eq!(add_clamped(1, 2), 3);
    assert_eq!(add_clamped(-5, 2), -3);
    assert_eq!(add_clamped(i128::MAX, 0), i128::MAX);
    assert_eq!(add_clamped(i128::MAX, 1), i128::MAX);
    assert_eq!(add_clamped(i128::MAX, i128::MAX), i128::MAX);
    assert_eq!(add_clamped(i128::MIN, -1), i128::MIN);
    assert_eq!(add_clamped(i128::MIN, i128::MIN), i128::MIN);
    assert_eq!(add_clamped(i128::MAX, i128::MIN), -1);
    assert_eq!(add_clamped(0, i128::MIN), i128::MIN);
}

#[test]
fn products_stay_at_the_bounds() {
    assert_eq!(scale_clamped(6, 7), 42);
    assert_eq!(scale_clamped(-6, 7), -42);
    assert_eq!(scale_clamped(6, 0), 0);
    assert_eq!(scale_clamped(0, i128::MAX), 0);
    assert_eq!(scale_clamped(i128::MAX, 1), i128::MAX);
    assert_eq!(scale_clamped(i128::MAX, 2), i128::MAX);
    assert_eq!(scale_clamped(i128::MIN, 1), i128::MIN);
    assert_eq!(scale_clamped(i128::MIN, 2), i128::MIN);
    assert_eq!(scale_clamped(i128::MAX / 2 + 1, 2), i128::MAX);
    assert_eq!(scale_clamped(i128::MIN / 2 - 1, 2), i128::MIN);
    assert_eq!(scale_clamped(i128::MAX / 2, 2), i128::MAX - 1);
}
