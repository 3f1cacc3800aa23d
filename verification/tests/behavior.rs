use currency::math::times;
use currency::Currency;

#[test]
fn constructors_work() {
    let blank = Currency::new();
    assert_eq!(blank.symbol(), None);
    assert_eq!(blank.value(), 0);

    let plain = Currency::from_value(4711);
    assert_eq!(plain.symbol(), None);
    assert_eq!(plain.value(), 4711);

    assert_eq!(Currency::from(50), Currency { symbol: None, value: 50 });
    assert_eq!(Currency::from(('€', 50)), Currency { symbol: Some('€'), value: 50 });
    assert_eq!(Currency::from((50, '€')), Currency { symbol: Some('€'), value: 50 });
}

#[test]
fn add_identity_both_orders() {
    // The default amount absorbs any symbol from the left.
    let a = Currency { symbol: Some('$'), value: -321 };
    assert_eq!(Currency::default().add(a), a);

    // From the right it is an identity for symbol-free amounts.
    let b = Currency { symbol: None, value: 77 };
    assert_eq!(b.add(Currency::default()), b);
    assert_eq!(Currency::default().add(b), b);
}

#[test]
fn add_sub_round_trip() {
    let a = Currency { symbol: Some('¥'), value: 1234 };
    let b = Currency { symbol: Some('¥'), value: -991 };
    assert_eq!(a.add(b).sub(b), a);
    assert_eq!(b.add(a).sub(a), b);
}

#[test]
fn wildcard_absorbs_only_from_the_left() {
    let w = Currency { symbol: None, value: 100 };
    let e = Currency { symbol: Some('€'), value: 25 };
    assert_eq!(w.add(e), Currency { symbol: Some('€'), value: 125 });
}

#[test]
fn ordering_ignores_the_symbol() {
    // Ordering compares the values alone; comparing across symbols is the
    // caller's own responsibility.
    let d = Currency { symbol: Some('$'), value: 1 };
    let e = Currency { symbol: Some('€'), value: 2 };
    assert!(d < e);
    let f = Currency { symbol: Some('€'), value: 1 };
    assert_eq!(d.partial_cmp(&f), Some(std::cmp::Ordering::Equal));
    assert!(d != f);
}

#[test]
fn division_truncates_toward_zero() {
    let x = Currency { symbol: Some('$'), value: -63 };
    assert_eq!(x.div(2), Currency { symbol: Some('$'), value: -31 });
    let y = Currency { symbol: Some('$'), value: 63 };
    assert_eq!(y.div(-2), Currency { symbol: Some('$'), value: -31 });
    assert_eq!(y.div(2), Currency { symbol: Some('$'), value: 31 });
}

#[test]
fn multiplication_is_commutative() {
    let x = Currency { symbol: Some('£'), value: -17 };
    assert_eq!(x.mul(-3), Currency { symbol: Some('£'), value: 51 });
    assert_eq!(times(-3, x), Currency { symbol: Some('£'), value: 51 });
}

#[test]
fn parse_rejects_unmatched_input() {
    // Trailing characters beyond the shape are a failure, not a prefix parse.
    assert_eq!(Currency::from_string("12.3456"), None);
    assert_eq!(Currency::from_string("1234.567"), None);
    assert_eq!(Currency::from_string("12,00.50"), None);
    assert_eq!(Currency::from_string("$12x"), None);
    assert_eq!(Currency::from_string("12 00"), None);
    // No digits at all.
    assert_eq!(Currency::from_string(""), None);
    assert_eq!(Currency::from_string("   "), None);
    assert_eq!(Currency::from_string("-"), None);
    assert_eq!(Currency::from_string("€"), None);
    assert_eq!(Currency::from_string("abc"), None);
    // A sign after the symbol is out of place.
    assert_eq!(Currency::from_string("$-12"), None);
    assert_eq!(Currency::from_string("--12"), None);
    // A one-digit fraction is not recognized.
    assert_eq!(Currency::from_string("1,2"), None);
}

#[test]
fn parse_rejects_overflow() {
    // Twenty digits of minor units exceed the machine range.
    assert_eq!(Currency::from_string("99999999999999999999"), None);
    // Without a fraction the digits are scaled by one hundred, which can
    // overflow on its own.
    assert_eq!(Currency::from_string("92233720368547758.07"), Some(Currency {
        symbol: None,
        value: 9223372036854775807,
    }));
    assert_eq!(Currency::from_string("92233720368547759"), None);
}

#[test]
fn parse_trims_whitespace() {
    assert_eq!(Currency::from_string("  $4.32\t"), Some(Currency {
        symbol: Some('$'),
        value: 432,
    }));
    // Unicode whitespace trims too: padding never changes the result.
    assert_eq!(Currency::from_string("\u{a0}12"), Some(Currency { symbol: None, value: 1200 }));
    assert_eq!(Currency::from_string("\u{a0}12"), Currency::from_string("12"));
    assert_eq!(Currency::from_string("\u{2003}$4.32\u{3000}"), Some(Currency {
        symbol: Some('$'),
        value: 432,
    }));
    // The whitespace must still surround the amount, not interrupt it.
    assert_eq!(Currency::from_string("1\u{a0}2"), None);
}

#[test]
fn parse_accepts_other_currency_symbols() {
    assert_eq!(Currency::from_string("₿1.00"), Some(Currency { symbol: Some('₿'), value: 100 }));
    assert_eq!(Currency::from_string("＄5"), Some(Currency { symbol: Some('＄'), value: 500 }));
    assert_eq!(Currency::from_string("₹99,00"), Some(Currency { symbol: Some('₹'), value: 9900 }));
}

#[test]
fn parse_grouped_numbers() {
    assert_eq!(Currency::from_string("424.44"), Some(Currency { symbol: None, value: 42444 }));
    assert_eq!(Currency::from_string("£12,00"), Some(Currency { symbol: Some('£'), value: 1200 }));
    assert_eq!(Currency::from_string("¥12"), Some(Currency { symbol: Some('¥'), value: 1200 }));
    assert_eq!(Currency::from_string("1.000"), Some(Currency { symbol: None, value: 100000 }));
    assert_eq!(Currency::from_string("1.000.000"), Some(Currency {
        symbol: None,
        value: 100000000,
    }));
    assert_eq!(Currency::from_string("$4.32"), Some(Currency { symbol: Some('$'), value: 432 }));
    assert_eq!(Currency::from_string("-$4.32"), Some(Currency { symbol: Some('$'), value: -432 }));
}

#[test]
fn formatting_views() {
    let a = Currency { symbol: Some('$'), value: 1210 };
    assert_eq!(a.prefix().to_string(), "$12.10");
    let b = Currency { symbol: None, value: 1210 };
    assert_eq!(b.prefix().to_string(), "12.10");
    let c = Currency { symbol: Some('€'), value: 100099 };
    assert_eq!(c.postfix().to_string(), "1000,99€");
    let d = Currency { symbol: None, value: 100099 };
    assert_eq!(d.postfix().to_string(), "1000,99");
    let e = Currency { symbol: Some('€'), value: -50 };
    assert_eq!(e.postfix().to_string(), "-0,50€");
    assert_eq!(e.prefix().to_string(), "€-0.50");
}
