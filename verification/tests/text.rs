use graph_editor::text::{
    cost_text, index_text, number_text, parse_index, parse_weight, weight_text,
};

#[test]
fn parse_index_reads_plain_digits() {
    assert_eq!(parse_index("0"), Some(0));
    assert_eq!(parse_index("7"), Some(7));
    assert_eq!(parse_index("0042"), Some(42));
    assert_eq!(parse_index("+5"), Some(5));
    assert_eq!(parse_index(&usize::MAX.to_string()), Some(usize::MAX));
}

#[test]
fn parse_index_rejects_everything_else() {
    for text in ["", "+", "-1", "-0", " 1", "1 ", "1.0", "1e2", "12a", "++1", "1+", "٣", "0x10"] {
        assert_eq!(parse_index(text), None, "{:?}", text);
    }
}

#[test]
fn parse_index_rejects_what_does_not_fit() {
    let too_big = format!("{}0", usize::MAX);
    assert_eq!(parse_index(&too_big), None);
    assert_eq!(parse_index("340282366920938463463374607431768211456"), None);
}

#[test]
fn parse_index_agrees_with_the_standard_parser() {
    for text in ["0", "1", "+1", "007", "", "+", "-", "-3", "3-", "4294967296", "a", "1_000"] {
        assert_eq!(parse_index(text), text.parse::<usize>().ok(), "{:?}", text);
    }
}

#[test]
fn parse_weight_reads_thousandths() {
    assert_eq!(parse_weight("5"), Some(5000));
    assert_eq!(parse_weight("1"), Some(1000));
    assert_eq!(parse_weight("0"), Some(0));
    assert_eq!(parse_weight("2.5"), Some(2500));
    assert_eq!(parse_weight("0.001"), Some(1));
    assert_eq!(parse_weight("+3.25"), Some(3250));
    assert_eq!(parse_weight(".5"), Some(500));
    assert_eq!(parse_weight("5."), Some(5000));
    assert_eq!(parse_weight("007.070"), Some(7070));
}

#[test]
fn parse_weight_drops_digits_beyond_the_third() {
    assert_eq!(parse_weight("1.2345"), Some(1234));
    assert_eq!(parse_weight("1.9999"), Some(1999));
    assert_eq!(parse_weight("0.0009"), Some(0));
}

#[test]
fn parse_weight_rejects_everything_else() {
    for text in [
        "", ".", "+", "+.", "-1", "-0.5", "1e3", "inf", "NaN", "1..2", "1.2.3", "1,5", " 1", "1 ",
        "1.5x", "x", "½", "1.٥",
    ] {
        assert_eq!(parse_weight(text), None, "{:?}", text);
    }
}

#[test]
fn parse_weight_rejects_what_does_not_fit() {
    assert_eq!(parse_weight("18446744073709551.615"), Some(u64::MAX));
    assert_eq!(parse_weight("18446744073709551.616"), None);
    assert_eq!(parse_weight("18446744073709552"), None);
    assert_eq!(parse_weight("99999999999999999999999999"), None);
}

#[test]
fn index_text_writes_decimal() {
    assert_eq!(index_text(0), "0");
    assert_eq!(index_text(9), "9");
    assert_eq!(index_text(10), "10");
    assert_eq!(index_text(120034), "120034");
    assert_eq!(index_text(usize::MAX), usize::MAX.to_string());
    assert_eq!(number_text(u64::MAX as u128), "18446744073709551615");
    assert_eq!(number_text(u128::MAX), "340282366920938463463374607431768211455");
}

#[test]
fn index_text_reads_back() {
    for n in [0usize, 1, 9, 10, 99, 100, 12345, usize::MAX] {
        assert_eq!(parse_index(&index_text(n)), Some(n));
    }
}

#[test]
fn weight_text_shows_one_to_three_decimals() {
    assert_eq!(weight_text(7000), "7.0");
    assert_eq!(weight_text(1000), "1.0");
    assert_eq!(weight_text(0), "0.0");
    assert_eq!(weight_text(2500), "2.5");
    assert_eq!(weight_text(1250), "1.25");
    assert_eq!(weight_text(1), "0.001");
    assert_eq!(weight_text(10), "0.01");
    assert_eq!(weight_text(1005), "1.005");
    assert_eq!(weight_text(u64::MAX), "18446744073709551.615");
}

#[test]
fn cost_text_writes_what_weight_text_writes() {
    for w in [0u64, 1, 999, 1000, 7000, 1250, u64::MAX] {
        assert_eq!(cost_text(w as u128), weight_text(w));
    }
    assert_eq!(cost_text(2 * u64::MAX as u128), "36893488147419103.23");
    assert_eq!(cost_text(u128::MAX), "340282366920938463463374607431768211.455");
}

#[test]
fn weight_text_reads_back() {
    for w in [0u64, 1, 10, 100, 999, 1000, 1001, 1010, 1100, 123456, u64::MAX] {
        assert_eq!(parse_weight(&weight_text(w)), Some(w));
    }
}

#[test]
fn weight_text_agrees_with_one_decimal_formatting_of_tenths() {
    for tenths in [0u64, 1, 5, 10, 25, 70, 1234] {
        assert_eq!(weight_text(tenths * 100), format!("{:.1}", tenths as f64 / 10.0));
    }
}
