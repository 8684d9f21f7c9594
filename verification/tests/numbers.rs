use text_nodes::item::Item;
use text_nodes::number::{
    format_number, number_text, string_to_number, NumberFormat, RenderedNumber, Rendering,
};

fn item<T>(element: T) -> Item<T, ()> {
    Item::new_from_element(element)
}

/// A number written with every amount of decimal places that can carry meaning.
fn rendered(number: f64) -> RenderedNumber {
    RenderedNumber {
        is_zero: number == 0.,
        magnitude: number.abs().log10().floor() as usize,
        renderings: (0..=16)
            .map(|p| {
                let text = format!("{number:.p$}");
                let round_trips = text.parse::<f64>() == Ok(number);
                Rendering { text, round_trips }
            })
            .collect(),
    }
}

fn show(number: f64, places: u32, fixed: bool, thousands: &str, start_at_10000: bool) -> String {
    format_number(
        item(rendered(number)),
        item(places),
        item(".".to_string()),
        item(fixed),
        item(!thousands.is_empty()),
        item(thousands.to_string()),
        item(start_at_10000),
    )
    .element
}

fn format(places: usize, fixed: bool) -> NumberFormat {
    NumberFormat {
        decimal_places: places,
        decimal_separator: ",".to_string(),
        fixed_decimals: fixed,
        use_thousands_separator: true,
        thousands_separator: "'".to_string(),
        start_at_10000: false,
    }
}

#[test]
fn decimal_places_are_fixed_or_trimmed() {
    assert_eq!(show(3.14159, 2, true, "", false), "3.14");
    assert_eq!(show(3.0, 2, true, "", false), "3.00");
    assert_eq!(show(3.0, 2, false, "", false), "3");
    assert_eq!(show(3.5, 4, false, "", false), "3.5");
    assert_eq!(show(3.5, 4, true, "", false), "3.5000");
    assert_eq!(show(3.7, 0, true, "", false), "4");
    assert_eq!(show(-0.5, 1, true, "", false), "-0.5");
    assert_eq!(show(0.0, 3, true, "", false), "0.000");
    assert_eq!(show(1.05, 1, false, "", false), "1.1");
}

#[test]
fn float_noise_is_replaced_by_zeros() {
    assert_eq!(show(0.1, 20, true, "", false), "0.10000000000000000000");
    assert_eq!(show(0.1f32 as f64, 10, true, "", false), "0.1000000015");
    assert_eq!(show(0.1, 20, false, "", false), "0.1");
    assert_eq!(show(123456789012345680.0, 3, true, "", false), "123456789012345680.000");
}

#[test]
fn whole_digits_are_grouped_in_threes() {
    assert_eq!(show(1234567.0, 0, true, ",", false), "1,234,567");
    assert_eq!(show(123456.0, 0, true, ",", false), "123,456");
    assert_eq!(show(123.0, 0, true, ",", false), "123");
    assert_eq!(show(-1234.5, 2, true, ",", false), "-1,234.50");
    assert_eq!(show(1234567.0, 0, true, "→←", false), "1→←234→←567");
}

#[test]
fn four_digits_can_be_left_ungrouped() {
    assert_eq!(show(1234.0, 0, true, ",", true), "1234");
    assert_eq!(show(12345.0, 0, true, ",", true), "12,345");
    assert_eq!(show(-1234.0, 0, true, ",", true), "-1234");
}

#[test]
fn grouping_needs_a_separator() {
    let number = item(rendered(12345.0));
    let shown = format_number(
        number,
        item(0),
        item(".".to_string()),
        item(true),
        item(true),
        item(String::new()),
        item(false),
    );
    assert_eq!(shown.element, "12345");
}

#[test]
fn numbers_without_digits_are_shown_as_they_are_written() {
    assert_eq!(show(f64::INFINITY, 0, true, "", false), "inf");
    assert_eq!(show(f64::NAN, 2, true, "", false), "NaN.00");
    assert_eq!(show(f64::NEG_INFINITY, 2, false, "", false), "-inf");
}

#[test]
fn formatted_numbers_keep_their_attributes() {
    let number = Item::from_parts(rendered(1.0), vec![("tag".to_string(), 3u8)]);
    let shown = format_number(
        number,
        Item::new_from_element(0),
        Item::new_from_element(".".to_string()),
        Item::new_from_element(true),
        Item::new_from_element(false),
        Item::new_from_element(",".to_string()),
        Item::new_from_element(false),
    );
    assert_eq!(shown.attributes, vec![("tag".to_string(), 3u8)]);
}

#[test]
fn written_numbers_are_taken_apart() {
    assert_eq!(format(2, true).show("-1234.50", 2), "-1'234,50");
    assert_eq!(format(4, true).show("-1234.50", 2), "-1'234,5000");
    assert_eq!(format(4, false).show("-1234.50", 2), "-1'234,5");
    assert_eq!(format(2, false).show("10.00", 2), "10");
    assert_eq!(format(0, false).show("", 0), "");
}

#[test]
fn places_are_the_fewest_that_read_back() {
    assert_eq!(rendered(0.1).places(10), 1);
    assert_eq!(rendered(0.125).places(10), 3);
    assert_eq!(rendered(0.125).places(2), 2);
    assert_eq!(rendered(42.0).places(5), 0);
    assert_eq!(rendered(1. / 3.).places(99), 16);
}

#[test]
fn numbers_are_read_without_surrounding_white_space() {
    assert_eq!(number_text(&item(" \t-1e3\n".to_string())), "-1e3");
}

#[test]
fn strings_that_are_no_numbers_fall_back() {
    let read = |s: &str| {
        let string = item(s.to_string());
        let parsed = number_text(&string).parse::<f64>().ok();
        string_to_number(string, parsed, item(-1.)).element
    };
    assert_eq!(read(" 2.5 "), 2.5);
    assert_eq!(read("+7"), 7.);
    assert_eq!(read("1e-3"), 0.001);
    assert_eq!(read("x"), -1.);
    assert_eq!(read(""), -1.);
}

#[test]
fn plainly_formatted_numbers_are_shown_as_written() {
    for number in [0.5, -12.25, 1234.125, -0.0625] {
        for places in 0..4usize {
            let text = format!("{number:.places$}");
            let plain = NumberFormat {
                decimal_separator: ".".to_string(),
                use_thousands_separator: false,
                ..format(places, true)
            };
            assert_eq!(plain.show(&text, places), text);
        }
    }
}

#[test]
fn grouping_adds_separators_and_nothing_else() {
    for number in [0.0, 12.5, -123.25, 1234.0, -12345.125, 1234567.75, 1e15] {
        for (fixed, places) in [(true, 0), (true, 3), (false, 3)] {
            let plain = show(number, places, fixed, "", false);
            for start_at_10000 in [false, true] {
                let grouped = show(number, places, fixed, ",", start_at_10000);
                assert_eq!(grouped.replace(',', ""), plain);
                let decimals = grouped.split_once('.').map_or("", |parts| parts.1);
                assert!(!decimals.contains(','));
            }
        }
    }
}
