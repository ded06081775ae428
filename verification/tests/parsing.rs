use factory_ratio::{parse_rational, ClassSet, ItemAmounts, Machine, Ratio};

#[test]
fn rational_terminating_fractions_are_exact() {
    // "2.5" is exactly 5/2 and "13.375" exactly 107/8 (value equality).
    assert_eq!(parse_rational("2.5").unwrap(), Ratio::new(5, 2));
    assert_eq!(parse_rational("13.375").unwrap(), Ratio::new(107, 8));
}

#[test]
fn rational_integers_are_exact() {
    let r = parse_rational("42").unwrap();
    assert_eq!(r.num, 42);
    assert_eq!(r.den, 1);
    let n = parse_rational("-7").unwrap();
    assert_eq!(n.num, -7);
    assert_eq!(n.den, 1);
}

#[test]
fn rational_fields_are_digits_over_power_of_ten() {
    let r = parse_rational("2.5").unwrap();
    assert_eq!(r.num, 25);
    assert_eq!(r.den, 10);
    let r = parse_rational("-2.5").unwrap();
    assert_eq!(r.num, -25);
    assert_eq!(r.den, 10);
}

#[test]
fn rational_tolerates_bare_point_forms() {
    assert_eq!(parse_rational("2.").unwrap(), Ratio::new(2, 1));
    assert_eq!(parse_rational(".5").unwrap(), Ratio::new(1, 2));
}

#[test]
fn rational_rejects_malformed() {
    assert!(parse_rational("").is_none());
    assert!(parse_rational(".").is_none());
    assert!(parse_rational("a.5").is_none());
    assert!(parse_rational("1.2.3").is_none());
    assert!(parse_rational("1e3").is_none());
}

#[test]
fn rational_zero() {
    let z = parse_rational("0").unwrap();
    assert_eq!(z.num, 0);
    assert!(z.is_zero());
}

#[test]
fn item_amounts_empty_input_is_empty_list() {
    let ia = ItemAmounts::parse("").unwrap();
    assert_eq!(ia.0.len(), 0);
    let ia = ItemAmounts::parse("()").unwrap();
    assert_eq!(ia.0.len(), 0);
}

#[test]
fn item_amounts_single_record() {
    let ia = ItemAmounts::parse("(ItemClass=\"/Foo/Bar.Desc_Wood_C'\",Amount=4)").unwrap();
    assert_eq!(ia.0.len(), 1);
    assert_eq!(ia.0[0].0.as_str(), "Desc_Wood_C");
    assert_eq!(ia.0[0].1, 4);
}

#[test]
fn item_amounts_preserve_source_order() {
    let ia = ItemAmounts::parse(
        "((ItemClass=\"/A/B.Iron_C'\",Amount=3),(ItemClass=\"/A/C.Copper_C'\",Amount=12))",
    )
    .unwrap();
    assert_eq!(ia.0.len(), 2);
    assert_eq!(ia.0[0].0.as_str(), "Iron_C");
    assert_eq!(ia.0[0].1, 3);
    assert_eq!(ia.0[1].0.as_str(), "Copper_C");
    assert_eq!(ia.0[1].1, 12);
}

#[test]
fn item_amounts_reject_malformed() {
    // missing outer wrapping parentheses on non-empty content
    assert!(ItemAmounts::parse("ItemClass=\"/A.B'\",Amount=1").is_none());
    // missing the expected delimiter before the amount
    assert!(ItemAmounts::parse("(ItemClass=\"/A.B'\"Amount=1)").is_none());
    // path without the trailing apostrophe
    assert!(ItemAmounts::parse("(ItemClass=\"/A.B\",Amount=1)").is_none());
    // path without any dot
    assert!(ItemAmounts::parse("(ItemClass=\"AB'\",Amount=1)").is_none());
    // no digits
    assert!(ItemAmounts::parse("(ItemClass=\"/A.B'\",Amount=)").is_none());
}

#[test]
fn class_set_strips_path_and_quote() {
    let cs: ClassSet<Machine> = ClassSet::parse("(\"/A/B.Foo_C'\",\"/A/C.Bar_C'\")").unwrap();
    let names: Vec<&str> = cs.0.iter().map(|n| n.as_str()).collect();
    assert_eq!(names.len(), 2);
    assert!(names.contains(&"Foo_C"));
    assert!(names.contains(&"Bar_C"));
}

#[test]
fn class_set_is_order_irrelevant_and_dedups() {
    let a: ClassSet<Machine> = ClassSet::parse("(\"/A/B.Foo_C'\",\"/A/C.Bar_C'\")").unwrap();
    let b: ClassSet<Machine> = ClassSet::parse("(\"/A/C.Bar_C'\",\"/A/B.Foo_C'\")").unwrap();
    let mut an: Vec<&str> = a.0.iter().map(|n| n.as_str()).collect();
    let mut bn: Vec<&str> = b.0.iter().map(|n| n.as_str()).collect();
    an.sort();
    bn.sort();
    assert_eq!(an, bn);

    let d: ClassSet<Machine> = ClassSet::parse("(\"/A/B.Foo_C'\",\"/X/Y.Foo_C'\")").unwrap();
    assert_eq!(d.0.len(), 1);
    assert_eq!(d.0[0].as_str(), "Foo_C");
}

#[test]
fn class_set_empty_and_malformed() {
    let e: ClassSet<Machine> = ClassSet::parse("").unwrap();
    assert_eq!(e.0.len(), 0);
    assert!(ClassSet::<Machine>::parse("\"/A.B\"").is_none());
    assert!(ClassSet::<Machine>::parse("(\"/A.B\"").is_none());
    assert!(ClassSet::<Machine>::parse("(\"AB\")").is_none());
}

#[test]
fn ratio_arithmetic_is_exact() {
    let a = Ratio::new(1, 3);
    let b = Ratio::new(3, 1);
    let p = a.mul(&b).unwrap();
    assert_eq!(p, Ratio::new(1, 1));
    let q = Ratio::new(1, 1).div(&a).unwrap();
    assert_eq!(q, Ratio::new(3, 1));
    assert_eq!(Ratio::new(5, 2).ceil(), 3);
    assert_eq!(Ratio::new(4, 2).ceil(), 2);
    assert_eq!(Ratio::new(-5, 2).ceil(), -2);
    assert_eq!(Ratio::new(0, 7).ceil(), 0);
    assert_eq!(Ratio::new(2, 5).recip().unwrap(), Ratio::new(5, 2));
    assert_eq!(Ratio::new(2, 5).neg().unwrap(), Ratio::new(-2, 5));
}

#[test]
fn rational_rejects_values_out_of_range() {
    // magnitude beyond i64
    assert!(parse_rational("99999999999999999999").is_none());
    // denominator 10^19 exceeds i64
    assert!(parse_rational("0.1234567890123456789").is_none());
    // exactly representable extremes still parse
    assert_eq!(
        parse_rational("9223372036854775807").unwrap(),
        Ratio::new(9223372036854775807, 1)
    );
    assert_eq!(parse_rational("-9223372036854775808").unwrap().num, i64::MIN);
}
