use oculante::bbox::AnnoationBoundingBox;
use oculante::decimal::{parse_decimal, parse_integer, push_decimal, push_integer, round_div_of, LIMIT, UNIT};
use oculante::geometry::Point;
use oculante::text::{chars_of, compare_text, split_at_separators, TextOrder};
use oculante::yolo_labels::{FormatError, Label, Labels, Unnormaliser};

fn chars(s: &str) -> Vec<char> {
    s.chars().collect()
}

fn decimal(s: &str) -> Option<i128> {
    parse_decimal(&chars(s))
}

fn written(v: i128) -> String {
    let mut out = String::new();
    push_decimal(&mut out, v);
    out
}

fn label(class: u32, x: i128, y: i128, w: i128, h: i128) -> Label {
    Label {
        label_index: class,
        x_centre: x,
        y_centre: y,
        width: w,
        height: h,
        probability: None,
        object_id: None,
    }
}

#[test]
fn text_is_split_at_every_separator() {
    let pieces = split_at_separators(&chars("a b\tc"), ' ', '\t');
    assert_eq!(pieces, vec![chars("a"), chars("b"), chars("c")]);
    let pieces = split_at_separators(&chars(" a  b "), ' ', '\t');
    assert_eq!(pieces, vec![chars(""), chars("a"), chars(""), chars("b"), chars("")]);
    assert_eq!(split_at_separators(&chars(""), ' ', '\t'), vec![chars("")]);
    assert_eq!(split_at_separators(&chars("\n"), '\n', '\n'), vec![chars(""), chars("")]);
    assert_eq!(chars_of("a\u{e9}\u{1f600}b"), chars("a\u{e9}\u{1f600}b"));
}

#[test]
fn texts_are_ordered_like_strings() {
    let samples = ["", "A", "B", "LControl", "LShift", "Left", "a", "ab", "b", "\u{e9}", "\u{1f600}"];
    for a in samples {
        for b in samples {
            let want = match a.cmp(b) {
                std::cmp::Ordering::Less => TextOrder::Before,
                std::cmp::Ordering::Equal => TextOrder::Same,
                std::cmp::Ordering::Greater => TextOrder::After,
            };
            assert_eq!(compare_text(&chars(a), &chars(b)), want, "{a:?} and {b:?}");
        }
    }
}

#[test]
fn decimals_are_read_exactly() {
    assert_eq!(decimal("0"), Some(0));
    assert_eq!(decimal("1"), Some(UNIT));
    assert_eq!(decimal("0.5"), Some(5_000_000_000));
    assert_eq!(decimal("-0.25"), Some(-2_500_000_000));
    assert_eq!(decimal("+2.75"), Some(27_500_000_000));
    assert_eq!(decimal(".5"), Some(5_000_000_000));
    assert_eq!(decimal("5."), Some(50_000_000_000));
    assert_eq!(decimal("-.5"), Some(-5_000_000_000));
    assert_eq!(decimal("007.070"), Some(70_700_000_000));
    assert_eq!(decimal("0.0000000001"), Some(1));
    assert_eq!(decimal("0.716797"), Some(7_167_970_000));
    assert_eq!(decimal("-0"), Some(0));
}

#[test]
fn digits_behind_the_tenth_are_cut_off() {
    assert_eq!(decimal("0.00000000019"), Some(1));
    assert_eq!(decimal("0.99999999999999999999999999999999999999999"), Some(9_999_999_999));
    assert_eq!(decimal("-0.00000000009"), Some(0));
    assert_eq!(decimal("1.00000000000000000000000000000000000000001"), Some(UNIT));
}

#[test]
fn what_is_no_decimal_is_not_read() {
    for text in
        ["", ".", "+", "-", "+.", "abc", "1.2.3", "--1", "+-1", " 1", "1 ", "1,5", "0x10", "inf", "NaN", "1_000", "\u{0661}"]
    {
        assert_eq!(decimal(text), None, "{text:?}");
    }
}

#[test]
fn decimals_are_read_with_an_exponent() {
    assert_eq!(decimal("1e0"), Some(UNIT));
    assert_eq!(decimal("1e5"), Some(100_000 * UNIT));
    assert_eq!(decimal("1E-3"), Some(10_000_000));
    assert_eq!(decimal("1e-05"), Some(100_000));
    assert_eq!(decimal("-2.5e-1"), Some(-2_500_000_000));
    assert_eq!(decimal("1.5e1"), Some(15 * UNIT));
    assert_eq!(decimal("15e-1"), Some(15 * UNIT / 10));
    assert_eq!(decimal("+.5E+1"), Some(5 * UNIT));
    assert_eq!(decimal("5.e-1"), Some(UNIT / 2));
    assert_eq!(decimal("1e-10"), Some(1));
    assert_eq!(decimal("1e-11"), Some(0));
    assert_eq!(decimal("9.99e-11"), Some(0));
    assert_eq!(decimal("0.00000000001e1"), Some(1));
    assert_eq!(decimal("123456789012345678901234567890e-25"), Some(123_456_789_012_345));
    assert_eq!(decimal("0.000000000000000000001e21"), Some(UNIT));
    assert_eq!(decimal("1e9"), Some(1_000_000_000 * UNIT));
    assert_eq!(decimal("4.294967295e9"), Some(4_294_967_295 * UNIT));
    assert_eq!(decimal("4.294967296e9"), None);
    assert_eq!(decimal("1e10"), None);
    assert_eq!(decimal("-1e10"), None);
    assert_eq!(decimal("0e10"), Some(0));
    assert_eq!(decimal("0.000e99999999999999999999999999999999999999999999"), Some(0));
    assert_eq!(decimal("1e99999999999999999999999999999999999999999999"), None);
    assert_eq!(decimal("1e-99999999999999999999999999999999999999999999"), Some(0));
    assert_eq!(decimal("0.0001e19342813113834066795298816"), None);
    assert_eq!(decimal("7e-19342813113834066795298816"), Some(0));
    for text in ["e5", "1e", "1e+", "1e-", "1e5.0", "1e 5", "1ee5", "1e5e5", ".e5", "-e1", "1e++1", "e", "E", "1x5"] {
        assert_eq!(decimal(text), None, "{text:?}");
    }
}

#[test]
fn decimals_are_read_as_floating_point_numbers_are() {
    for text in [
        "0", "1", "0.5", "-0.25", ".5", "5.", "+2.75", "1e5", "1E-3", "-2.5e-1", "0.716797", "12345.678",
        "", ".", "+", "e5", "1e", "1.2.3", "abc", " 1", "1 ", "--1", "1e5.0", "0x10", "1_000",
    ] {
        assert_eq!(decimal(text).is_some(), text.parse::<f64>().is_ok(), "{text:?}");
        if let Some(v) = decimal(text) {
            let want = text.parse::<f64>().unwrap();
            assert!((v as f64 / UNIT as f64 - want).abs() <= 1e-10 * want.abs().max(1.0), "{text:?}");
        }
    }
}

#[test]
fn decimals_out_of_range_are_not_read() {
    assert_eq!(decimal("4294967295.9999999999"), Some(LIMIT - 1));
    assert_eq!(decimal("-4294967295.9999999999"), Some(-LIMIT + 1));
    assert_eq!(decimal("4294967296"), None);
    assert_eq!(decimal("-4294967296.0"), None);
    assert_eq!(decimal("99999999999999999999999999999999999999999999999999"), None);
    assert_eq!(decimal("000000000000000000000000000000000000000000000000001"), Some(UNIT));
}

#[test]
fn integers_are_read_with_their_sign() {
    let integer = |s: &str| parse_integer(&chars(s));
    assert_eq!(integer("0"), Some(0));
    assert_eq!(integer("42"), Some(42));
    assert_eq!(integer("+42"), Some(42));
    assert_eq!(integer("-42"), Some(-42));
    assert_eq!(integer("0042"), Some(42));
    assert_eq!(integer("9223372036854775807"), Some(i64::MAX));
    assert_eq!(integer("-9223372036854775807"), Some(-i64::MAX));
    assert_eq!(integer("9223372036854775808"), None);
    assert_eq!(integer("-9223372036854775808"), None);
    for text in ["", "+", "-", "1.0", "1.", "a", "1a", " 1", "1 "] {
        assert_eq!(integer(text), None, "{text:?}");
    }
}

#[test]
fn decimals_are_written_with_as_few_digits_as_needed() {
    assert_eq!(written(0), "0");
    assert_eq!(written(UNIT), "1");
    assert_eq!(written(5_000_000_000), "0.5");
    assert_eq!(written(-2_500_000_000), "-0.25");
    assert_eq!(written(1), "0.0000000001");
    assert_eq!(written(-1), "-0.0000000001");
    assert_eq!(written(3_333_333_333), "0.3333333333");
    assert_eq!(written(1_230_000_000_000), "123");
    assert_eq!(written(1_230_400_000_000), "123.04");
    assert_eq!(written(10_000_000_010), "1.000000001");
    assert_eq!(written(LIMIT - 1), "4294967295.9999999999");
    assert_eq!(written(i128::MAX), "17014118346046923173168730371.5884105727");
    assert_eq!(written(i128::MIN), "-17014118346046923173168730371.5884105728");
}

#[test]
fn integers_are_written_in_decimal() {
    let text = |v: i128| {
        let mut out = String::from(">");
        push_integer(&mut out, v);
        out
    };
    assert_eq!(text(0), ">0");
    assert_eq!(text(9), ">9");
    assert_eq!(text(10), ">10");
    assert_eq!(text(-10), ">-10");
    assert_eq!(text(4_294_967_295), ">4294967295");
    assert_eq!(text(i128::MIN), format!(">{}", i128::MIN));
}

#[test]
fn what_is_written_is_read_back() {
    for v in [0, 1, -1, 9, 10, UNIT - 1, UNIT, UNIT + 1, 3_333_333_333, -7_167_970_000, LIMIT - 1, -LIMIT + 1] {
        assert_eq!(decimal(&written(v)), Some(v), "{v}");
    }
}

#[test]
fn quotients_are_rounded_to_the_nearest() {
    assert_eq!(round_div_of(7, 2), 4);
    assert_eq!(round_div_of(-7, 2), -4);
    assert_eq!(round_div_of(5, 2), 3);
    assert_eq!(round_div_of(-5, 2), -3);
    assert_eq!(round_div_of(1, 3), 0);
    assert_eq!(round_div_of(2, 3), 1);
    assert_eq!(round_div_of(-2, 3), -1);
    assert_eq!(round_div_of(0, 7), 0);
    assert_eq!(round_div_of(9, 1), 9);
    assert_eq!(round_div_of(i128::MAX, 1), i128::MAX);
    assert_eq!(round_div_of(i128::MIN, 1), i128::MIN);
    assert_eq!(round_div_of(i128::MIN, u64::MAX), -9223372036854775809);
    assert_eq!(round_div_of(10 * UNIT, 3), 33_333_333_333);
}

#[test]
fn a_line_of_five_fields_is_a_label() {
    assert_eq!(
        Label::parse_line("3 0.5 0.25 0.125 1"),
        Ok(label(3, 5_000_000_000, 2_500_000_000, 1_250_000_000, UNIT))
    );
    assert_eq!(
        Label::parse_line("0\t0.716797\t0.395833\t0.216406\t0.147222"),
        Ok(label(0, 7_167_970_000, 3_958_330_000, 2_164_060_000, 1_472_220_000))
    );
    assert_eq!(Label::parse_line("9999 0 0 0 0"), Ok(label(9999, 0, 0, 0, 0)));
    assert_eq!(Label::parse_line("4294967295 0 0 0 0"), Ok(label(u32::MAX, 0, 0, 0, 0)));
    assert_eq!(Label::parse_line("1 -0.5 1.5 0 2"), Ok(label(1, -5_000_000_000, 15_000_000_000, 0, 2 * UNIT)));
}

#[test]
fn fields_may_have_an_exponent() {
    assert_eq!(
        Label::parse_line("1 5e-1 2.5E-1 1e-05 1e0"),
        Ok(label(1, UNIT / 2, UNIT / 4, 100_000, UNIT))
    );
    assert_eq!(Label::parse_line("1e1 0 0 0 0"), Err(FormatError::InvalidNumber));
}

#[test]
fn labels_can_be_walked_through() {
    let labels = Labels::parse_document("0 0 0 0 0\n1 0 0 0 0\n2 0 0 0 0").ok().unwrap();
    assert_eq!(labels.len(), 3);
    assert_eq!(labels.iter().map(|l| l.label_index).collect::<Vec<u32>>(), vec![0, 1, 2]);
    assert_eq!(labels[1], label(1, 0, 0, 0, 0));
}

#[test]
fn probability_and_object_id_are_optional() {
    let with_probability = Label { probability: Some(9_000_000_000), ..label(1, UNIT, UNIT, UNIT, UNIT) };
    assert_eq!(Label::parse_line("1 1 1 1 1 0.9"), Ok(with_probability));
    let with_both = Label { object_id: Some(-12), ..with_probability };
    assert_eq!(Label::parse_line("1 1 1 1 1 0.9 -12"), Ok(with_both));
    // What follows the seventh field is not looked at.
    assert_eq!(Label::parse_line("1 1 1 1 1 0.9 -12 what ever"), Ok(with_both));
    assert_eq!(Label::parse_line("1 1 1 1 1 0.9 -12 "), Ok(with_both));
}

#[test]
fn a_line_with_fewer_than_five_fields_is_no_label() {
    for line in ["", "1", "1 2 3 4", "a b c d", "1\t2\t3\t4", "0.5"] {
        assert_eq!(Label::parse_line(line), Err(FormatError::MissingField), "{line:?}");
    }
}

#[test]
fn a_field_that_is_no_number_makes_the_line_no_label() {
    for line in [
        "x 0.5 0.5 0.5 0.5",
        "1.0 0.5 0.5 0.5 0.5",
        "-1 0.5 0.5 0.5 0.5",
        "4294967296 0.5 0.5 0.5 0.5",
        "1 x 0.5 0.5 0.5",
        "1 0.5 0,5 0.5 0.5",
        "1 0.5 0.5 1e-3x 0.5",
        "1 0.5 0.5 1e10 0.5",
        "1 0.5 0.5 0.5 NaN",
        "1 0.5 0.5 0.5 4294967296",
        "1 0.5 0.5 0.5 0.5 p",
        "1 0.5 0.5 0.5 0.5 0.9 1.5",
        "1 0.5 0.5 0.5 0.5 0.9 9223372036854775808",
        "1  0.5 0.5 0.5 0.5",
        " 1 0.5 0.5 0.5 0.5",
        "1 0.5 0.5 0.5 0.5 ",
        "1 0.5 0.5 0.5 0.5\r",
    ] {
        assert_eq!(Label::parse_line(line), Err(FormatError::InvalidNumber), "{line:?}");
    }
}

#[test]
fn a_document_holds_one_label_per_line() {
    let labels = Labels::parse_document("0 0.5 0.5 0.2 0.2\n\n1 0.1 0.2 0.3 0.4 0.9\n").ok().unwrap();
    assert_eq!(
        labels.labels,
        vec![
            label(0, 5_000_000_000, 5_000_000_000, 2_000_000_000, 2_000_000_000),
            Label { probability: Some(9_000_000_000), ..label(1, UNIT / 10, UNIT / 5, 3 * UNIT / 10, 2 * UNIT / 5) },
        ]
    );
    assert!(Labels::parse_document("").ok().unwrap().labels.is_empty());
    assert!(Labels::parse_document("\n\n\n").ok().unwrap().labels.is_empty());
    assert_eq!(Labels::parse_document("7 1 1 1 1").ok().unwrap().labels, vec![label(7, UNIT, UNIT, UNIT, UNIT)]);
}

#[test]
fn one_bad_line_fails_the_whole_document() {
    let error = |text: &str| Labels::parse_document(text).err();
    assert_eq!(error("0 0.5 0.5 0.2 0.2\n0 0.5 0.5 0.2\n"), Some(FormatError::MissingField));
    assert_eq!(error("0 0.5 0.5 0.2 0.2\n0 0.5 0.5 0.2 x\n"), Some(FormatError::InvalidNumber));
    // The first line that is no label gives the reason.
    assert_eq!(error("x 0 0 0 0\n1 2 3"), Some(FormatError::InvalidNumber));
    assert_eq!(error("1 2 3\nx 0 0 0 0"), Some(FormatError::MissingField));
    assert_eq!(error(" "), Some(FormatError::MissingField));
    // A line that ends with a carriage return is no label.
    assert_eq!(error("0 0.5 0.5 0.2 0.2\r\n"), Some(FormatError::InvalidNumber));
}

#[test]
fn unnormalise_multiplies_by_the_image() {
    let l = Label { probability: Some(UNIT / 2), object_id: Some(3), ..label(2, 5_000_000_000, 2_500_000_000, UNIT / 10, -UNIT) };
    let scaled = l.unnormalise((640, 480));
    assert_eq!(scaled.x_centre, 320 * UNIT);
    assert_eq!(scaled.y_centre, 120 * UNIT);
    assert_eq!(scaled.width, 64 * UNIT);
    assert_eq!(scaled.height, -480 * UNIT);
    assert_eq!(scaled.label_index, 2);
    assert_eq!(scaled.probability, Some(UNIT / 2));
    assert_eq!(scaled.object_id, Some(3));
    let edge = label(0, LIMIT - 1, -LIMIT + 1, 0, 1).unnormalise((u32::MAX, u32::MAX));
    assert_eq!(edge.x_centre, (LIMIT - 1) * (u32::MAX as i128));
    assert_eq!(edge.y_centre, (-LIMIT + 1) * (u32::MAX as i128));
    assert_eq!(edge.height, u32::MAX as i128);
    assert_eq!(l.unnormalise((0, 0)), Label { x_centre: 0, y_centre: 0, width: 0, height: 0, ..l });
}

#[test]
fn all_labels_of_an_image_are_unnormalised() {
    let labels = Labels { labels: vec![label(0, UNIT / 2, UNIT / 2, UNIT, UNIT), label(1, 0, UNIT, 0, 0)] };
    let scaled = labels.unnormalise((10, 20));
    assert_eq!(scaled.labels, vec![label(0, 5 * UNIT, 10 * UNIT, 10 * UNIT, 20 * UNIT), label(1, 0, 20 * UNIT, 0, 0)]);
    assert!(Labels { labels: vec![] }.unnormalise((10, 20)).labels.is_empty());
}

#[test]
fn a_label_in_grid_units_becomes_a_box() {
    let b = label(4, 320 * UNIT, 120 * UNIT, 64 * UNIT, 48 * UNIT).to_bounding_box().unwrap();
    assert_eq!(b.center(), Point { x: 320, y: 120 });
    assert_eq!(b.size(), (64, 48));
    assert_eq!(b.class_id(), 4);
    assert!(b.is_placed());
    // Halves are rounded away from zero.
    let b = label(0, UNIT / 2, -UNIT / 2, UNIT / 2 - 1, 3 * UNIT / 2).to_bounding_box().unwrap();
    assert_eq!(b.center(), Point { x: 1, y: -1 });
    assert_eq!(b.size(), (0, 2));
}

#[test]
fn a_label_that_is_no_box_on_the_grid_becomes_none() {
    let none = |l: Label| l.to_bounding_box().is_none();
    assert!(none(label(0, 0, 0, -UNIT, 0)));
    assert!(none(label(0, 0, 0, 0, -UNIT)));
    assert!(!none(label(0, 0, 0, -UNIT / 2 + 1, 0)));
    assert!(none(label(0, (i32::MAX as i128 + 1) * UNIT, 0, 0, 0)));
    assert!(!none(label(0, (i32::MAX as i128) * UNIT, (i32::MIN as i128) * UNIT, 0, 0)));
    assert!(none(label(0, 0, (i32::MIN as i128 - 1) * UNIT, 0, 0)));
    assert!(none(label(0, 0, 0, (u32::MAX as i128 + 1) * UNIT, 0)));
    assert!(none(label(0, 0, 0, (u32::MAX as i128) * UNIT, 0)));
    assert!(!none(label(0, -UNIT, -UNIT, (u32::MAX as i128) * UNIT, (u32::MAX as i128) * UNIT)));
    assert!(none(label(0, (i32::MAX as i128) * UNIT, 0, UNIT, 0)));
    assert!(none(label(0, i128::MAX, i128::MIN, i128::MAX, i128::MIN)));
}

#[test]
fn a_box_becomes_a_normalised_label() {
    let b = AnnoationBoundingBox::from_center(320, 120, 64, 48, 4);
    assert_eq!(b.to_normalized_label(640, 480), Ok(label(4, UNIT / 2, UNIT / 4, UNIT / 10, UNIT / 10)));
    let third = AnnoationBoundingBox::from_center(1, 2, 1, 2, 0);
    assert_eq!(
        third.to_normalized_label(3, 3),
        Ok(label(0, 3_333_333_333, 6_666_666_667, 3_333_333_333, 6_666_666_667))
    );
    let left = AnnoationBoundingBox::from_center(-1, -2, 0, 0, 0);
    assert_eq!(left.to_normalized_label(3, 3), Ok(label(0, -3_333_333_333, -6_666_666_667, 0, 0)));
    assert_eq!(AnnoationBoundingBox::unplaced(8).to_normalized_label(3, 3), Ok(label(8, 0, 0, 0, 0)));
}

#[test]
fn a_box_is_written_as_a_line() {
    let b = AnnoationBoundingBox::from_center(50, 50, 20, 20, 3);
    assert_eq!(b.to_yolo_label_str(100, 100).ok().unwrap(), "3 0.5 0.5 0.2 0.2");
    assert_eq!(b.to_yolo_label_str(50, 200).ok().unwrap(), "3 1 0.25 0.4 0.1");
    assert_eq!(b.to_yolo_label_str(3, 7).ok().unwrap(), "3 16.6666666667 7.1428571429 6.6666666667 2.8571428571");
    let b = AnnoationBoundingBox::from_center(-5, 0, 0, 1, 0);
    assert_eq!(b.to_yolo_label_str(10, 10).ok().unwrap(), "0 -0.5 0 0 0.1");
}

#[test]
fn an_image_without_extent_has_no_labels() {
    let b = AnnoationBoundingBox::from_center(50, 50, 20, 20, 3);
    assert_eq!(b.to_yolo_label_str(0, 100), Err(FormatError::EmptyImage));
    assert_eq!(b.to_yolo_label_str(100, 0), Err(FormatError::EmptyImage));
    assert_eq!(b.to_normalized_label(0, 0), Err(FormatError::EmptyImage));
    assert!(b.to_normalized_label(1, 1).is_ok());
}

#[test]
fn a_label_is_written_with_its_optional_fields() {
    let l = label(1, UNIT / 2, UNIT / 4, UNIT, 0);
    assert_eq!(l.to_line(), "1 0.5 0.25 1 0");
    let l = Label { probability: Some(UNIT * 9 / 10), ..l };
    assert_eq!(l.to_line(), "1 0.5 0.25 1 0 0.9");
    let l = Label { object_id: Some(-3), ..l };
    assert_eq!(l.to_line(), "1 0.5 0.25 1 0 0.9 -3");
    assert_eq!(Label::parse_line(&l.to_line()), Ok(l));
    // Without a probability there is no place for the object id.
    let l = Label { probability: None, ..l };
    assert_eq!(l.to_line(), "1 0.5 0.25 1 0");
}

#[test]
fn round_trip() {
    let images = [(1, 1), (3, 7), (640, 480), (1920, 1080), (4096, 2160), (u32::MAX, u32::MAX), (1, u32::MAX)];
    let boxes = [
        (0, 0, 1, 1),
        (1, 1, 1, 1),
        (320, 240, 64, 48),
        (639, 479, 1, 1),
        (17, 5, 33, 9),
        (1000, 1000, 2000, 2000),
        (-40, -2, 7, 3),
        (i32::MAX, i32::MAX, 0, 0),
        (i32::MIN, i32::MIN, 1, 1),
        (-1, -1, u32::MAX, u32::MAX),
    ];
    for (w, h) in images {
        for (x, y, bw, bh) in boxes {
            for class in [0, 7, 9999, u32::MAX] {
                let b = AnnoationBoundingBox::from_center(x, y, bw, bh, class);
                let line = b.to_yolo_label_str(w, h).ok().unwrap();
                let read = Label::parse_line(&line).ok().unwrap();
                let back = read.unnormalise((w, h)).to_bounding_box().unwrap();
                assert_eq!(back.center(), b.center(), "{line} on {w}x{h}");
                assert_eq!(back.size(), b.size(), "{line} on {w}x{h}");
                assert_eq!(back.class_id(), class);
                assert!(back.is_placed());
            }
        }
    }
}

#[test]
fn fractions_of_a_box_inside_the_image_lie_between_zero_and_one() {
    for (x, y, w, h) in [(0, 0, 0, 0), (5, 5, 10, 10), (9, 9, 1, 1), (3, 7, 5, 2)] {
        let l = AnnoationBoundingBox::from_center(x, y, w, h, 0).to_normalized_label(10, 10).ok().unwrap();
        for v in [l.x_centre, l.y_centre, l.width, l.height] {
            assert!(0 <= v && v <= UNIT);
        }
    }
}

#[test]
fn a_document_that_was_written_is_read_back() {
    let boxes = vec![
        AnnoationBoundingBox::from_center(100, 200, 50, 60, 1),
        AnnoationBoundingBox::from_center(333, 77, 1, 479, 2),
    ];
    let mut text = String::new();
    for b in &boxes {
        text.push_str(&b.to_yolo_label_str(640, 480).ok().unwrap());
        text.push('\n');
    }
    assert_eq!(text, "1 0.15625 0.4166666667 0.078125 0.125\n2 0.5203125 0.1604166667 0.0015625 0.9979166667\n");
    let labels = Labels::parse_document(&text).ok().unwrap().unnormalise((640, 480));
    let read: Vec<AnnoationBoundingBox> = labels.labels.iter().map(|l| l.to_bounding_box().unwrap()).collect();
    assert_eq!(read.len(), 2);
    for (a, b) in read.iter().zip(&boxes) {
        assert_eq!(a.center(), b.center());
        assert_eq!(a.size(), b.size());
        assert_eq!(a.class_id(), b.class_id());
    }
}

#[test]
fn written_fractions_are_the_quotients() {
    for (w, h) in [(1u32, 1u32), (3, 7), (640, 480), (1920, 1080), (u32::MAX, 1)] {
        for (x, y, bw, bh) in [(0, 0, 1u32, 1u32), (320, 240, 64, 48), (-17, 5, 33, 9), (i32::MAX, i32::MIN, 0, 0)] {
            let line = AnnoationBoundingBox::from_center(x, y, bw, bh, 5).to_yolo_label_str(w, h).ok().unwrap();
            let fields: Vec<f64> = line.split(' ').map(|f| f.parse().unwrap()).collect();
            let want = [
                5.0,
                x as f64 / w as f64,
                y as f64 / h as f64,
                bw as f64 / w as f64,
                bh as f64 / h as f64,
            ];
            assert_eq!(fields.len(), 5);
            for (got, want) in fields.iter().zip(want) {
                assert!((got - want).abs() <= 0.5e-10 + want.abs() * 1e-15, "{line}: {got} for {want}");
            }
        }
    }
}
