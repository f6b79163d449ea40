use easy_pdf::decimal::Decimal;
use easy_pdf::geometry::unit::Unit;

#[test]
fn test_cm() {
    let cm = Unit::Cm(Decimal::new(254, 2));
    assert_eq!(cm.decimal_value(), Decimal::new(254, 2));
    assert_eq!(Unit::Cm(Decimal::new(254, 2)).cm(), cm);
    assert_eq!(Unit::Pixel(Decimal::from(96)).cm(), cm);
    assert_eq!(Unit::Point(Decimal::from(72)).cm(), cm);
    assert_eq!(Unit::Inch(Decimal::from(1)).cm(), cm);
    assert_eq!(Unit::Mil(Decimal::from(1000)).cm(), cm);
    assert_eq!(Unit::Mm(Decimal::new(254, 1)).cm(), cm);
}

#[test]
fn test_pixel() {
    let px = Unit::Pixel(Decimal::from(96));
    assert_eq!(px.decimal_value(), Decimal::from(96));
    assert_eq!(Unit::Cm(Decimal::new(254, 2)).pixel(), px);
    assert_eq!(Unit::Pixel(Decimal::from(96)).pixel(), px);
    assert_eq!(Unit::Point(Decimal::from(72)).pixel(), px);
    assert_eq!(Unit::Inch(Decimal::from(1)).pixel(), px);
    assert_eq!(Unit::Mil(Decimal::from(1000)).pixel(), px);
    assert_eq!(Unit::Mm(Decimal::new(254, 1)).pixel(), px);
}

#[test]
fn test_point() {
    let pt = Unit::Point(Decimal::from(72));
    assert_eq!(pt.decimal_value(), Decimal::from(72));
    assert_eq!(Unit::Cm(Decimal::new(254, 2)).point(), pt);
    assert_eq!(Unit::Pixel(Decimal::from(96)).point(), pt);
    assert_eq!(Unit::Point(Decimal::from(72)).point(), pt);
    assert_eq!(Unit::Inch(Decimal::from(1)).point(), pt);
    assert_eq!(Unit::Mil(Decimal::from(1000)).point(), pt);
    assert_eq!(Unit::Mm(Decimal::new(254, 1)).point(), pt);
}

#[test]
fn test_inch() {
    let inch = Unit::Inch(Decimal::from(1));
    assert_eq!(inch.decimal_value(), Decimal::from(1));
    assert_eq!(Unit::Cm(Decimal::new(254, 2)).inch(), inch);
    assert_eq!(Unit::Pixel(Decimal::from(96)).inch(), inch);
    assert_eq!(Unit::Point(Decimal::from(72)).inch(), inch);
    assert_eq!(Unit::Inch(Decimal::from(1)).inch(), inch);
    assert_eq!(Unit::Mil(Decimal::from(1000)).inch(), inch);
    assert_eq!(Unit::Mm(Decimal::new(254, 1)).inch(), inch);
}

#[test]
fn test_mil() {
    let mil = Unit::Mil(Decimal::from(1000));
    assert_eq!(mil.decimal_value(), Decimal::from(1000));
    assert_eq!(Unit::Cm(Decimal::new(254, 2)).mil(), mil);
    assert_eq!(Unit::Pixel(Decimal::from(96)).mil(), mil);
    assert_eq!(Unit::Point(Decimal::from(72)).mil(), mil);
    assert_eq!(Unit::Inch(Decimal::from(1)).mil(), mil);
    assert_eq!(Unit::Mil(Decimal::from(1000)).mil(), mil);
    assert_eq!(Unit::Mm(Decimal::new(254, 1)).mil(), mil);
}

#[test]
fn test_mm() {
    let mm = Unit::Mm(Decimal::new(254, 1));
    assert_eq!(mm.decimal_value(), Decimal::new(254, 1));
    assert_eq!(Unit::Cm(Decimal::new(254, 2)).mm(), mm);
    assert_eq!(Unit::Pixel(Decimal::from(96)).mm(), mm);
    assert_eq!(Unit::Point(Decimal::from(72)).mm(), mm);
    assert_eq!(Unit::Inch(Decimal::from(1)).mm(), mm);
    assert_eq!(Unit::Mil(Decimal::from(1000)).mm(), mm);
    assert_eq!(Unit::Mm(Decimal::new(254, 1)).mm(), mm);
}

#[test]
fn test_add() {
    let cm = Unit::Cm(Decimal::new(254, 2)); // 1 inch
    let px = Unit::Pixel(Decimal::from(96)); // 1 inch
    let pt = Unit::Point(Decimal::from(72)); // 1 inch
    let inch = Unit::Inch(Decimal::from(1));
    let mil = Unit::Mil(Decimal::from(1000)); // 1 inch
    let mm = Unit::Mm(Decimal::new(254, 1)); // 1 inch

    assert_eq!(inch.add(&cm), Unit::Inch(Decimal::from(2)));
    assert_eq!(inch.add(&px), Unit::Inch(Decimal::from(2)));
    assert_eq!(inch.add(&pt), Unit::Inch(Decimal::from(2)));
    assert_eq!(inch.add(&inch), Unit::Inch(Decimal::from(2)));
    assert_eq!(inch.add(&mil), Unit::Inch(Decimal::from(2)));
    assert_eq!(inch.add(&mm), Unit::Inch(Decimal::from(2)));

    let mut units = Unit::default();
    units = units.add(&cm);
    assert_eq!(units, Unit::Point(Decimal::from(72 * 1)));
    units = units.add(&px);
    assert_eq!(units, Unit::Point(Decimal::from(72 * 2)));
    units = units.add(&pt);
    assert_eq!(units, Unit::Point(Decimal::from(72 * 3)));
    units = units.add(&inch);
    assert_eq!(units, Unit::Point(Decimal::from(72 * 4)));
    units = units.add(&mil);
    assert_eq!(units, Unit::Point(Decimal::from(72 * 5)));
    units = units.add(&mm);
    assert_eq!(units, Unit::Point(Decimal::from(72 * 6)));
}

#[test]
fn test_subtract() {
    let cm = Unit::Cm(Decimal::new(254, 2)); // 1 inch
    let px = Unit::Pixel(Decimal::from(96)); // 1 inch
    let pt = Unit::Point(Decimal::from(72)); // 1 inch
    let inch = Unit::Inch(Decimal::from(1));
    let mil = Unit::Mil(Decimal::from(1000)); // 1 inch
    let mm = Unit::Mm(Decimal::new(254, 1)); // 1 inch

    let inch3 = Unit::Inch(Decimal::from(3));

    assert_eq!(inch3.sub(&cm), Unit::Inch(Decimal::from(2)));
    assert_eq!(inch3.sub(&px), Unit::Inch(Decimal::from(2)));
    assert_eq!(inch3.sub(&pt), Unit::Inch(Decimal::from(2)));
    assert_eq!(inch3.sub(&inch), Unit::Inch(Decimal::from(2)));
    assert_eq!(inch3.sub(&mil), Unit::Inch(Decimal::from(2)));
    assert_eq!(inch3.sub(&mm), Unit::Inch(Decimal::from(2)));

    let mut units = Unit::default();
    units = units.sub(&cm);
    assert_eq!(units, Unit::Point(Decimal::from(-72 * 1)));
    units = units.sub(&px);
    assert_eq!(units, Unit::Point(Decimal::from(-72 * 2)));
    units = units.sub(&pt);
    assert_eq!(units, Unit::Point(Decimal::from(-72 * 3)));
    units = units.sub(&inch);
    assert_eq!(units, Unit::Point(Decimal::from(-72 * 4)));
    units = units.sub(&mil);
    assert_eq!(units, Unit::Point(Decimal::from(-72 * 5)));
    units = units.sub(&mm);
    assert_eq!(units, Unit::Point(Decimal::from(-72 * 6)));
}

#[test]
fn test_multiply() {
    let cm = Unit::Cm(Decimal::new(254, 2)); // 1 inch
    let px = Unit::Pixel(Decimal::from(96)); // 1 inch
    let pt = Unit::Point(Decimal::from(72)); // 1 inch
    let inch = Unit::Inch(Decimal::from(1));
    let mil = Unit::Mil(Decimal::from(1000)); // 1 inch
    let mm = Unit::Mm(Decimal::new(254, 1)); // 1 inch

    assert_eq!(inch.mul(&cm), Unit::Inch(Decimal::new(254, 2)));
    assert_eq!(inch.mul(&px), Unit::Inch(Decimal::new(96, 0)));
    assert_eq!(inch.mul(&pt), Unit::Inch(Decimal::new(72, 0)));
    assert_eq!(inch.mul(&inch), Unit::Inch(Decimal::new(1, 0)));
    assert_eq!(inch.mul(&mil), Unit::Inch(Decimal::new(1000, 0)));
    assert_eq!(inch.mul(&mm), Unit::Inch(Decimal::new(254, 1)));

    let mut units = Unit::from(1);
    units = units.mul(&cm);
    assert_eq!(units, Unit::Point(Decimal::new(254, 2)));
    units = units.mul(&px);
    assert_eq!(units, Unit::Point(Decimal::new(24384, 2)));
    units = units.mul(&pt);
    assert_eq!(units, Unit::Point(Decimal::new(1755648, 2)));
    units = units.mul(&inch);
    assert_eq!(units, Unit::Point(Decimal::new(1755648, 2)));
    units = units.mul(&mil);
    assert_eq!(units, Unit::Point(Decimal::from(17556480)));
    units = units.mul(&mm);
    assert_eq!(units, Unit::Point(Decimal::from(445934592)));

    assert_eq!(
        Unit::Inch(Decimal::from(2)).mul(&Unit::Point(Decimal::from(72))),
        Unit::Inch(Decimal::from(144))
    )
}

#[test]
fn test_divide() {
    let cm = Unit::Cm(Decimal::new(254, 2)); // 1 inch
    let px = Unit::Pixel(Decimal::from(96)); // 1 inch
    let pt = Unit::Point(Decimal::from(72)); // 1 inch
    let inch = Unit::Inch(Decimal::from(1));
    let mil = Unit::Mil(Decimal::from(1000)); // 1 inch
    let mm = Unit::Mm(Decimal::new(254, 1)); // 1 inch

    assert_eq!(inch.div(&cm).real_value(), Decimal::new(39370, 5));
    assert_eq!(inch.div(&px).real_value(), Decimal::new(1042, 5));
    assert_eq!(inch.div(&pt).real_value(), Decimal::new(1389, 5));
    assert_eq!(inch.div(&inch).real_value(), Decimal::new(1, 0));
    assert_eq!(inch.div(&mil).real_value(), Decimal::new(1, 3));
    assert_eq!(inch.div(&mm).real_value(), Decimal::new(3937, 5));

    let mut units = Unit::from(6912);
    units = units.div(&cm);
    assert_eq!(units.real_value(), Decimal::new(272125984, 5));
    units = units.div(&px);
    assert_eq!(units.real_value(), Decimal::new(2834646, 5));
    units = units.div(&pt);
    assert_eq!(units.real_value(), Decimal::new(3937, 4));
    units = units.div(&inch);
    assert_eq!(units.real_value(), Decimal::new(3937, 4));
    units = units.div(&mil);
    assert_eq!(units.real_value(), Decimal::new(39, 5));
    units = units.div(&mm);
    assert_eq!(units.real_value(), Decimal::new(2, 5));

    assert_eq!(
        Unit::Inch(Decimal::from(72)).div(&Unit::Point(Decimal::from(36))),
        Unit::Inch(Decimal::from(2))
    )
}
