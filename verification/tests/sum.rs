use currency::Currency;

#[test]
fn sum_up() {
    let list = vec![
        Currency { symbol: Some('£'), value: 1000 },
        Currency { symbol: Some('£'), value: 0100 },
        Currency { symbol: Some('£'), value: 0010 },
        Currency { symbol: Some('£'), value: 0001 },
    ];

    let fold = list.iter().fold(Currency::default(), |acc, x| acc.add(*x));
    assert_eq!(fold, Currency { symbol: Some('£'), value: 1111 });

    let sum: Currency = Currency::sum(&list);
    assert_eq!(sum, Currency { symbol: Some('£'), value: 1111 });
}

#[test]
fn sum_of_empty_is_default() {
    let list: Vec<Currency> = vec![];
    assert_eq!(Currency::sum(&list), Currency::default());
}

#[test]
fn sum_matches_repeated_addition() {
    let list = vec![
        Currency { symbol: Some('€'), value: 5 },
        Currency { symbol: Some('€'), value: -12 },
        Currency { symbol: Some('€'), value: 700 },
    ];
    let fold = list.iter().fold(Currency::default(), |acc, x| acc.add(*x));
    assert_eq!(Currency::sum(&list), fold);
    assert_eq!(Currency::sum(&list), Currency { symbol: Some('€'), value: 693 });
}
