use text_nodes::align::TextAlign;
use text_nodes::attribute::{Attribute, TextAttribute, TextValue};
use text_nodes::item::{
    font_or_fallback, text_item_font, Item, Resource, TextItemAttributes, ATTR_BLEND_MODE, ATTR_EDITOR_LAYER_PATH,
    ATTR_FONT, ATTR_FONT_SIZE, ATTR_LETTER_TILT, ATTR_MAX_WIDTH, ATTR_OPACITY, ATTR_OPACITY_FILL, ATTR_TEXT_ALIGN,
    ATTR_TRANSFORM,
};
use text_nodes::mapping::{map_string, read_string, resume, MapStep, VarArg};
use text_nodes::serialize::{serialize, written_or_error, Value};
use text_nodes::shape::{shape_text_item, shape_text_list, ShapedItem};
use text_nodes::spacing::{Double, Justification};
use text_nodes::typesetting::TypesettingConfig;

fn double(value: f64) -> Double {
    Double { bits: value.to_bits() }
}

type Style = Attribute<String>;

fn styled_text(values: Vec<(&str, TextValue)>) -> Item<String, Style> {
    styled(values.into_iter().map(|(key, value)| (key, Attribute::Text(value))).collect())
}

fn styled(attributes: Vec<(&str, Style)>) -> Item<String, Style> {
    let mut item = Item::new_from_element("text".to_string());
    for (key, value) in attributes {
        item.set_attribute(key, value);
    }
    item
}

/// An attribute in words.
fn described(attribute: Option<&Style>) -> String {
    match attribute {
        None => "none".to_string(),
        Some(Attribute::Text(TextValue::Number(number))) => format!("number {}", f64::from_bits(number.bits)),
        Some(Attribute::Transform(value)) => format!("transform {value}"),
        Some(Attribute::LayerPath(value)) => format!("path {value}"),
        Some(Attribute::BlendMode(value)) => format!("blend {value}"),
        Some(_) => "other".to_string(),
    }
}

fn text(s: &str) -> Item<String, u8> {
    Item::new_from_element(s.to_string())
}

#[test]
fn attributes_read_back_as_they_were_set() {
    let mut item: Item<u8, i32> = Item::new_from_element(1);
    assert_eq!(item.attribute("a"), None);
    item.set_attribute("a", 1);
    item.set_attribute("b", 2);
    item.set_attribute("a", 3);
    assert_eq!(item.attribute("a"), Some(&3));
    assert_eq!(item.attribute("b"), Some(&2));
    assert_eq!(item.attribute("c"), None);
    let (element, attributes) = item.into_parts();
    assert_eq!(element, 1);
    assert_eq!(attributes, [("a".to_string(), 3), ("b".to_string(), 2)]);
}

#[test]
fn resources_start_empty_and_copy_their_bytes() {
    assert!(Resource::default().is_empty());
    let font = Resource { data: vec![1, 2] };
    assert!(!font.is_empty());
    assert_eq!(font.clone().data, [1, 2]);
}

#[test]
fn fonts_fall_back_where_the_item_carries_none() {
    let fallback = || Resource { data: vec![9] };
    let font = |item: &Item<String, Style>| text_item_font(item, fallback()).data;
    assert_eq!(font(&styled(vec![])), [9]);
    assert_eq!(font(&styled_text(vec![(ATTR_FONT, TextValue::Font(Resource::default()))])), [9]);
    assert_eq!(font(&styled_text(vec![(ATTR_FONT, TextValue::Font(Resource { data: vec![1] }))])), [1]);
    assert_eq!(font(&styled_text(vec![(ATTR_FONT, TextValue::Number(double(1.)))])), [9]);
    assert_eq!(font_or_fallback(Resource { data: vec![1] }, fallback()).data, [1]);
    assert_eq!(font_or_fallback(Resource { data: vec![] }, fallback()).data, [9]);
}

#[test]
fn attributes_are_read_by_their_type() {
    let item = styled(vec![
        ("number", Attribute::Text(TextValue::Number(double(2.)))),
        ("optional", Attribute::Text(TextValue::OptionalNumber(None))),
        ("other", Attribute::Other("x".to_string())),
    ]);
    assert_eq!(item.typography("number", double(1.)), double(2.));
    assert_eq!(item.typography("number", TextAlign::AlignRight), TextAlign::AlignRight);
    assert_eq!(item.typography("optional", Some(double(1.))), None);
    assert_eq!(item.typography("optional", double(1.)), double(1.));
    assert_eq!(item.typography("other", double(3.)), double(3.));
    assert_eq!(item.typography("absent", double(4.)), double(4.));
    let justification = Justification::default();
    let stored = TextValue::Justification(justification);
    assert_eq!(Justification::held(&stored), Some(justification));
    assert_eq!(Double::held(&stored), None);
    assert_eq!(Option::<Double>::held(&stored), None);
    assert_eq!(TextAlign::held(&TextValue::Align(TextAlign::JustifyAll)), Some(TextAlign::JustifyAll));
    assert!(Resource::held(&stored).is_none());
}

/// An item of another kind can tell its typography too.
struct Bold;

impl TextItemAttributes for Bold {
    fn typography<T: TextAttribute>(&self, _key: &str, default: T) -> T {
        default
    }
}

#[test]
fn other_items_can_have_typography() {
    let defaults = TypesettingConfig::plain(double(24.), double(1.2));
    assert!(TypesettingConfig::from_text_item(&Bold, defaults) == defaults);
}

#[test]
fn typography_falls_back_where_it_is_unset() {
    let defaults = TypesettingConfig::plain(double(24.), double(1.2));
    assert_eq!(defaults.font_size, double(24.));
    assert_eq!(defaults.line_height_ratio, double(1.2));
    assert_eq!(defaults.letter_tilt, double(0.));
    assert_eq!(defaults.max_width, None);
    assert_eq!(defaults.max_height, None);
    assert_eq!(defaults.align, TextAlign::AlignLeft);
    assert_eq!(defaults.justification, Justification::default());
    assert_eq!(TypesettingConfig::from_text_item(&styled(vec![]), defaults), defaults);
}

#[test]
fn typography_is_read_from_the_item() {
    let defaults = TypesettingConfig::plain(double(24.), double(1.2));
    let item = styled_text(vec![
        (ATTR_FONT_SIZE, TextValue::Number(double(12.))),
        (ATTR_MAX_WIDTH, TextValue::OptionalNumber(Some(double(100.)))),
        (ATTR_TEXT_ALIGN, TextValue::Align(TextAlign::JustifyAll)),
        // A value of another type counts as unset.
        (ATTR_LETTER_TILT, TextValue::Align(TextAlign::JustifyAll)),
    ]);
    let read = TypesettingConfig::from_text_item(&item, defaults);
    assert_eq!(
        read,
        TypesettingConfig {
            font_size: double(12.),
            max_width: Some(double(100.)),
            align: TextAlign::JustifyAll,
            ..defaults
        }
    );
}

#[test]
fn shaped_geometry_takes_over_the_attributes_of_its_text() {
    let item = styled(vec![
        (ATTR_EDITOR_LAYER_PATH, Attribute::LayerPath("path".to_string())),
        (ATTR_BLEND_MODE, Attribute::BlendMode("multiply".to_string())),
        (ATTR_OPACITY, Attribute::Text(TextValue::Number(double(0.5)))),
        // An attribute of another kind counts as unset.
        (ATTR_OPACITY_FILL, Attribute::Other("x".to_string())),
    ]);
    let mut first: Item<u8, Style> = Item::new_from_element(1);
    first.set_attribute(ATTR_TRANSFORM, Attribute::Transform("local".to_string()));
    first.set_attribute(ATTR_OPACITY, Attribute::Text(TextValue::Number(double(1.))));
    first.set_attribute("kept", Attribute::BlendMode("kept".to_string()));
    let second = Item::new_from_element(2u8);
    let shaped = vec![
        ShapedItem { item: first, transform: Some("moved local".to_string()) },
        ShapedItem { item: second, transform: None },
    ];
    let result = shape_text_item(&item, shaped);
    assert_eq!(result.iter().map(|item| item.element).collect::<Vec<_>>(), [1, 2]);
    assert_eq!(described(result[0].attribute(ATTR_TRANSFORM)), "transform moved local");
    assert_eq!(described(result[1].attribute(ATTR_TRANSFORM)), "none");
    for produced in &result {
        assert_eq!(described(produced.attribute(ATTR_EDITOR_LAYER_PATH)), "path path");
        assert_eq!(described(produced.attribute(ATTR_BLEND_MODE)), "blend multiply");
        assert_eq!(described(produced.attribute(ATTR_OPACITY)), "number 0.5");
        assert_eq!(described(produced.attribute(ATTR_OPACITY_FILL)), "none");
    }
    assert_eq!(described(result[0].attribute("kept")), "blend kept");
}

#[test]
fn empty_texts_have_no_geometry() {
    let item: Item<String, Attribute<String>> = Item::new_from_element(String::new());
    let placeholder = ShapedItem { item: Item::new_from_element(1u8), transform: None };
    assert!(shape_text_item(&item, vec![placeholder]).is_empty());
}

#[test]
fn shaped_lists_are_flattened_in_order() {
    let shaped = |elements: Vec<u8>| -> Vec<ShapedItem<u8, String>> {
        elements
            .into_iter()
            .map(|element| ShapedItem { item: Item::new_from_element(element), transform: None })
            .collect()
    };
    let strings = vec![
        (Item::new_from_element("ab".to_string()), shaped(vec![1, 2])),
        (Item::new_from_element(String::new()), shaped(vec![3])),
        (Item::new_from_element("c".to_string()), shaped(vec![4])),
    ];
    let elements = |items: Vec<Item<u8, Attribute<String>>>| -> Vec<u8> {
        items.into_iter().map(|item| item.element).collect()
    };
    assert_eq!(elements(shape_text_list(strings)), [1, 2, 4]);
    let first = vec![(Item::new_from_element("ab".to_string()), shaped(vec![1, 2]))];
    let second = vec![
        (Item::new_from_element(String::new()), shaped(vec![3])),
        (Item::new_from_element("c".to_string()), shaped(vec![4])),
    ];
    assert_eq!(elements(shape_text_list(first)), [1, 2]);
    assert_eq!(elements(shape_text_list(second)), [4]);
}

#[test]
fn mapping_evaluates_every_string_in_order_with_its_index() {
    let mut step = map_string(vec![text("a"), text("b"), text("c")]);
    let mut seen = vec![];
    let list = loop {
        match step {
            MapStep::Evaluate { index, row, waiting } => {
                seen.push((index, row.element.clone()));
                step = resume(waiting, text(&format!("{}{index}", row.element)));
            }
            MapStep::Finished(list) => break list,
        }
    };
    let expected: Vec<(usize, String)> =
        vec![(0, "a".to_string()), (1, "b".to_string()), (2, "c".to_string())];
    assert_eq!(seen, expected);
    assert_eq!(list.into_iter().map(|item| item.element).collect::<Vec<_>>(), ["a0", "b1", "c2"]);
}

#[test]
fn mapping_an_empty_list_evaluates_nothing() {
    assert!(matches!(map_string::<u8>(vec![]), MapStep::Finished(list) if list.is_empty()));
}

#[test]
fn the_current_string_is_read_inside_a_loop() {
    let mut item = text("now");
    item.set_attribute("tag", 4);
    let read = read_string(VarArg::Text(item));
    assert_eq!(read.element, "now");
    assert_eq!(read.attribute("tag"), Some(&4));
    for outside in [VarArg::Missing, VarArg::OtherType] {
        let read: Item<String, u8> = read_string(outside);
        assert_eq!(read.element, "");
        assert!(read.attributes.is_empty());
    }
}

#[test]
fn values_are_written_as_json() {
    let json = |value: Value| serialize(Item::<Value, u8>::new_from_element(value)).element;
    assert_eq!(json(Value::Text("a\"b\\c\n\t\r\u{8}\u{c}\u{1}\u{1f}\u{7f}é/".to_string())), "\"a\\\"b\\\\c\\n\\t\\r\\b\\f\\u0001\\u001f\u{7f}é/\"");
    assert_eq!(json(Value::Text(String::new())), "\"\"");
    assert_eq!(json(Value::Bool(true)), "true");
    assert_eq!(json(Value::Bool(false)), "false");
    assert_eq!(json(Value::U32(0)), "0");
    assert_eq!(json(Value::U32(4_294_967_295)), "4294967295");
    assert_eq!(json(Value::U64(18_446_744_073_709_551_615)), "18446744073709551615");
}

#[test]
fn values_that_cannot_be_written_are_an_error() {
    let json = |value: Value| serialize(Item::<Value, u8>::new_from_element(value)).element;
    assert_eq!(json(Value::Written(Some("[1.0,2.0]".to_string()))), "[1.0,2.0]");
    assert_eq!(json(Value::Written(None)), "Serialization Error");
    assert_eq!(written_or_error(Some("1.5".to_string())), "1.5");
    assert_eq!(written_or_error(None), "Serialization Error");
}
