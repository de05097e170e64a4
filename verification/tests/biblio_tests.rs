use vb_manager::biblio::MyMaybeTyped;
use vb_manager::biblio::{
    MyDate, MyNumeric, MyNumericDelimiter, MyNumericValue, MyPageRanges, MyPageRangesPart,
};

fn num(v: i32) -> MyNumeric {
    MyNumeric { value: MyNumericValue::Number(v), prefix: None, suffix: None }
}

fn num_with(v: i32, prefix: &str) -> MyNumeric {
    MyNumeric {
        value: MyNumericValue::Number(v),
        prefix: Some(Box::new(prefix.to_string())),
        suffix: None,
    }
}

#[test]
fn no_page_ranges_give_zero() {
    let n = MyNumeric::from_page_ranges(MyPageRanges { ranges: vec![] });
    assert_eq!(n, num(0));
}

#[test]
fn a_single_page_gives_a_number() {
    let n = MyNumeric::from_page_ranges(MyPageRanges {
        ranges: vec![MyPageRangesPart::SinglePage(num_with(5, "p."))],
    });
    assert_eq!(n, num_with(5, "p."));
}

#[test]
fn ranges_and_separators_give_a_delimited_set() {
    let ranges = MyPageRanges {
        ranges: vec![
            MyPageRangesPart::Range(num(1), num(4)),
            MyPageRangesPart::Comma,
            MyPageRangesPart::SinglePage(num(7)),
            MyPageRangesPart::Ampersand,
            MyPageRangesPart::EscapedRange(num(9), num(11)),
        ],
    };
    let n = MyNumeric::from_page_ranges(ranges);
    assert_eq!(
        n.value,
        MyNumericValue::NumberSet(vec![
            (1, Some(MyNumericDelimiter::Hyphen)),
            (4, Some(MyNumericDelimiter::Comma)),
            (7, Some(MyNumericDelimiter::Ampersand)),
            (9, Some(MyNumericDelimiter::Hyphen)),
            (11, None),
        ])
    );
    assert_eq!(n.prefix, None);
}

#[test]
fn the_first_affix_given_is_kept() {
    let ranges = MyPageRanges {
        ranges: vec![
            MyPageRangesPart::SinglePage(num(1)),
            MyPageRangesPart::Comma,
            MyPageRangesPart::SinglePage(num_with(2, "S.")),
            MyPageRangesPart::Comma,
            MyPageRangesPart::SinglePage(num_with(3, "p.")),
        ],
    };
    let n = MyNumeric::from_page_ranges(ranges);
    assert_eq!(n.prefix, Some(Box::new("S.".to_string())));
}

#[test]
fn a_set_becomes_ranges_and_pages() {
    let n = MyNumeric {
        value: MyNumericValue::NumberSet(vec![
            (1, Some(MyNumericDelimiter::Hyphen)),
            (4, Some(MyNumericDelimiter::Comma)),
            (7, None),
        ]),
        prefix: Some(Box::new("p.".to_string())),
        suffix: None,
    };
    let r = MyPageRanges::from_numeric(n);
    assert_eq!(
        r.ranges,
        vec![
            MyPageRangesPart::Range(num_with(1, "p."), num_with(4, "p.")),
            MyPageRangesPart::Comma,
            MyPageRangesPart::SinglePage(num_with(7, "p.")),
        ]
    );
}

#[test]
fn a_trailing_hyphen_becomes_a_single_page() {
    let n = MyNumeric {
        value: MyNumericValue::NumberSet(vec![(3, Some(MyNumericDelimiter::Hyphen))]),
        prefix: None,
        suffix: None,
    };
    assert_eq!(MyPageRanges::from_numeric(n).ranges, vec![MyPageRangesPart::SinglePage(num(3))]);
}

#[test]
fn representable_numerics_survive_the_page_range_form() {
    let set = MyNumeric {
        value: MyNumericValue::NumberSet(vec![
            (1, Some(MyNumericDelimiter::Hyphen)),
            (4, Some(MyNumericDelimiter::Comma)),
            (7, None),
            (9, Some(MyNumericDelimiter::Hyphen)),
            (12, Some(MyNumericDelimiter::Ampersand)),
            (15, None),
        ]),
        prefix: Some(Box::new("S.".to_string())),
        suffix: Some(Box::new("f".to_string())),
    };
    let back = MyNumeric::from_page_ranges(MyPageRanges::from_numeric(set.clone()));
    assert_eq!(back, set);
    let single = num_with(42, "p.");
    assert_eq!(MyNumeric::from_page_ranges(MyPageRanges::from_numeric(single.clone())), single);
}

#[test]
fn a_set_of_one_undelimited_number_comes_back_as_a_number() {
    let n = MyNumeric {
        value: MyNumericValue::NumberSet(vec![(8, None)]),
        prefix: None,
        suffix: None,
    };
    assert_eq!(MyNumeric::from_page_ranges(MyPageRanges::from_numeric(n)), num(8));
}

#[test]
fn dates_count_months_and_days_from_one() {
    let d = MyDate::from_zero_based(2020, Some(0), Some(30), false);
    assert_eq!(d, MyDate { year: 2020, month: Some(1), day: Some(31), approximate: false });
    assert_eq!(d.to_zero_based(), (2020, Some(0), Some(30), false));
    let z = MyDate { year: -5, month: Some(0), day: None, approximate: true };
    assert_eq!(z.to_zero_based(), (-5, Some(0), None, true));
}

#[test]
fn typed_page_ranges_are_stored_as_numerics() {
    let typed = MyMaybeTyped::Typed(MyPageRanges { ranges: vec![MyPageRangesPart::SinglePage(num(12))] });
    assert_eq!(typed.to_numeric(), MyMaybeTyped::Typed(num(12)));
    let text: MyMaybeTyped<MyPageRanges> = MyMaybeTyped::String("xii".to_string());
    assert_eq!(text.to_numeric(), MyMaybeTyped::String("xii".to_string()));
    let back = MyMaybeTyped::Typed(num(3)).to_page_ranges();
    assert_eq!(back, MyMaybeTyped::Typed(MyPageRanges { ranges: vec![MyPageRangesPart::SinglePage(num(3))] }));
}

#[test]
fn alternating_page_ranges_come_back_from_their_numeric_form() {
    let ranges = MyPageRanges {
        ranges: vec![
            MyPageRangesPart::Range(num_with(1, "p."), num_with(4, "p.")),
            MyPageRangesPart::Ampersand,
            MyPageRangesPart::SinglePage(num_with(7, "p.")),
        ],
    };
    let back = MyPageRanges::from_numeric(MyNumeric::from_page_ranges(ranges.clone()));
    assert_eq!(back, ranges);
}
