//! How a text is set: its size, the width and height it may take, and the fitting of its lines.

use crate::align::TextAlign;
use crate::attribute::{TextAttribute, TextValue};
use crate::item::{
    Stored, TextItemAttributes, ATTR_FONT_SIZE, ATTR_JUSTIFICATION, ATTR_LETTER_TILT, ATTR_LINE_HEIGHT,
    ATTR_MAX_HEIGHT, ATTR_MAX_WIDTH, ATTR_TEXT_ALIGN,
};
use crate::spacing::{default_justification, Double, Justification};
use vstd::prelude::*;

verus! {

/// How a text is set.
#[derive(Debug, Clone, Copy)]
pub struct TypesettingConfig {
    pub font_size: Double,
    pub line_height_ratio: Double,
    pub letter_tilt: Double,
    pub max_width: Option<Double>,
    pub max_height: Option<Double>,
    pub align: TextAlign,
    pub justification: Justification,
}

/// The value where there is one, or the default.
pub open spec fn or_default<T>(stored: Option<T>, default: T) -> T {
    match stored {
        Some(value) => value,
        None => default,
    }
}

/// Whether `r` is the value stored, or the default where none of its type is, if that is known.
pub open spec fn read_exactly<T: TextAttribute>(stored: Stored, default: T, r: T) -> bool {
    !(stored is Unknown) ==> r == or_default(stored.held::<T>(), default)
}

/// Whether two limits equal one another: there is neither, or both are the same number.
pub open spec fn limits_equal(a: Option<Double>, b: Option<Double>) -> bool {
    match (a, b) {
        (Some(a), Some(b)) => a.equal(b),
        (None, None) => true,
        _ => false,
    }
}

/// Whether two limits equal one another.
fn same_limit(a: Option<Double>, b: Option<Double>) -> (r: bool)
    ensures
        r == limits_equal(a, b),
{
    match (a, b) {
        (Some(a), Some(b)) => a == b,
        (None, None) => true,
        _ => false,
    }
}

impl vstd::std_specs::cmp::PartialEqSpecImpl for TypesettingConfig {
    open spec fn obeys_eq_spec() -> bool {
        true
    }

    open spec fn eq_spec(&self, other: &TypesettingConfig) -> bool {
        self.equal(*other)
    }
}

impl PartialEq for TypesettingConfig {
    fn eq(&self, other: &TypesettingConfig) -> (r: bool) {
        self.font_size == other.font_size && self.line_height_ratio == other.line_height_ratio
            && self.letter_tilt == other.letter_tilt && same_limit(self.max_width, other.max_width)
            && same_limit(self.max_height, other.max_height) && self.align == other.align
            && self.justification == other.justification
    }
}

impl TypesettingConfig {
    /// Whether the text is set alike, its numbers compared as numbers are.
    pub open spec fn equal(self, other: TypesettingConfig) -> bool {
        &&& self.font_size.equal(other.font_size)
        &&& self.line_height_ratio.equal(other.line_height_ratio)
        &&& self.letter_tilt.equal(other.letter_tilt)
        &&& limits_equal(self.max_width, other.max_width)
        &&& limits_equal(self.max_height, other.max_height)
        &&& self.align == other.align
        &&& self.justification.equal(other.justification)
    }

    /// The typography of a text that says nothing of it: upright, flush left and without limits.
    pub fn plain(font_size: Double, line_height_ratio: Double) -> (r: Self)
        ensures
            r.font_size == font_size,
            r.line_height_ratio == line_height_ratio,
            r.letter_tilt == (Double { bits: 0 }),
            r.max_width is None,
            r.max_height is None,
            r.align == TextAlign::AlignLeft,
            r.justification == default_justification(),
    {
        TypesettingConfig {
            font_size,
            line_height_ratio,
            letter_tilt: Double { bits: 0 },
            max_width: None,
            max_height: None,
            align: TextAlign::AlignLeft,
            justification: Justification::default(),
        }
    }

    /// Reads a text item's typography, falling back to each attribute's implicit default where the
    /// item leaves it unset.
    pub fn from_text_item<I: TextItemAttributes>(item: &I, defaults: Self) -> (r: Self)
        ensures
            call_ensures(
                I::typography::<Double>,
                (item, ATTR_FONT_SIZE, defaults.font_size),
                r.font_size,
            ),
            call_ensures(
                I::typography::<Double>,
                (item, ATTR_LINE_HEIGHT, defaults.line_height_ratio),
                r.line_height_ratio,
            ),
            call_ensures(
                I::typography::<Double>,
                (item, ATTR_LETTER_TILT, defaults.letter_tilt),
                r.letter_tilt,
            ),
            call_ensures(
                I::typography::<Option<Double>>,
                (item, ATTR_MAX_WIDTH, defaults.max_width),
                r.max_width,
            ),
            call_ensures(
                I::typography::<Option<Double>>,
                (item, ATTR_MAX_HEIGHT, defaults.max_height),
                r.max_height,
            ),
            call_ensures(
                I::typography::<TextAlign>,
                (item, ATTR_TEXT_ALIGN, defaults.align),
                r.align,
            ),
            call_ensures(
                I::typography::<Justification>,
                (item, ATTR_JUSTIFICATION, defaults.justification),
                r.justification,
            ),
            read_exactly(item.stored_value(ATTR_FONT_SIZE@), defaults.font_size, r.font_size),
            read_exactly(
                item.stored_value(ATTR_LINE_HEIGHT@),
                defaults.line_height_ratio,
                r.line_height_ratio,
            ),
            read_exactly(item.stored_value(ATTR_LETTER_TILT@), defaults.letter_tilt, r.letter_tilt),
            read_exactly(item.stored_value(ATTR_MAX_WIDTH@), defaults.max_width, r.max_width),
            read_exactly(item.stored_value(ATTR_MAX_HEIGHT@), defaults.max_height, r.max_height),
            read_exactly(item.stored_value(ATTR_TEXT_ALIGN@), defaults.align, r.align),
            read_exactly(
                item.stored_value(ATTR_JUSTIFICATION@),
                defaults.justification,
                r.justification,
            ),
    {
        TypesettingConfig {
            font_size: item.typography(ATTR_FONT_SIZE, defaults.font_size),
            line_height_ratio: item.typography(ATTR_LINE_HEIGHT, defaults.line_height_ratio),
            letter_tilt: item.typography(ATTR_LETTER_TILT, defaults.letter_tilt),
            max_width: item.typography(ATTR_MAX_WIDTH, defaults.max_width),
            max_height: item.typography(ATTR_MAX_HEIGHT, defaults.max_height),
            align: item.typography(ATTR_TEXT_ALIGN, defaults.align),
            justification: item.typography(ATTR_JUSTIFICATION, defaults.justification),
        }
    }
}

/// A value that an item stores is read where it is of the type asked for, and the default where it is of
/// another or where there is none.
pub proof fn lemma_typography_read(
    number: Double,
    limit: Option<Double>,
    align: TextAlign,
    justification: Justification,
    default: TypesettingConfig,
    r: TypesettingConfig,
)
    ensures
        read_exactly(Stored::Value(TextValue::Number(number)), default.font_size, r.font_size)
            <==> r.font_size == number,
        read_exactly(Stored::Value(TextValue::OptionalNumber(limit)), default.max_width, r.max_width)
            <==> r.max_width == limit,
        read_exactly(Stored::Value(TextValue::Align(align)), default.align, r.align) <==> r.align
            == align,
        read_exactly(
            Stored::Value(TextValue::Justification(justification)),
            default.justification,
            r.justification,
        ) <==> r.justification == justification,
        read_exactly(Stored::Unset, default.font_size, r.font_size) <==> r.font_size
            == default.font_size,
        read_exactly(Stored::Unset, default.max_width, r.max_width) <==> r.max_width
            == default.max_width,
        read_exactly(Stored::Unset, default.align, r.align) <==> r.align == default.align,
        read_exactly(Stored::Unset, default.justification, r.justification) <==> r.justification
            == default.justification,
        read_exactly(Stored::Value(TextValue::Align(align)), default.font_size, r.font_size)
            <==> r.font_size == default.font_size,
        read_exactly(Stored::Value(TextValue::OptionalNumber(limit)), default.font_size, r.font_size)
            <==> r.font_size == default.font_size,
        read_exactly(Stored::Value(TextValue::Number(number)), default.max_width, r.max_width)
            <==> r.max_width == default.max_width,
        read_exactly(Stored::Value(TextValue::Number(number)), default.align, r.align) <==> r.align
            == default.align,
        read_exactly(
            Stored::Value(TextValue::Number(number)),
            default.justification,
            r.justification,
        ) <==> r.justification == default.justification,
{
}

/// Texts are set alike exactly where everything about them is alike.
pub proof fn lemma_alike_in_all(a: TypesettingConfig, b: TypesettingConfig, x: Double, y: Double)
    ensures
        a.equal(b) ==> a.font_size.equal(b.font_size) && a.line_height_ratio.equal(
            b.line_height_ratio,
        ) && a.letter_tilt.equal(b.letter_tilt) && a.align == b.align && a.justification.equal(
            b.justification,
        ) && (a.max_width is None <==> b.max_width is None) && (a.max_height is None
            <==> b.max_height is None),
        a.equal(b) && a.max_width == Some(x) && b.max_width == Some(y) ==> x.equal(y),
        a.equal(b) && a.max_height == Some(x) && b.max_height == Some(y) ==> x.equal(y),
        a.font_size.equal(b.font_size) && a.line_height_ratio.equal(b.line_height_ratio)
            && a.letter_tilt.equal(b.letter_tilt) && a.align == b.align && a.justification.equal(
            b.justification,
        ) && a.max_width is None && b.max_width is None && a.max_height is None && b.max_height is None
            ==> a.equal(b),
        a.font_size.equal(b.font_size) && a.line_height_ratio.equal(b.line_height_ratio)
            && a.letter_tilt.equal(b.letter_tilt) && a.align == b.align && a.justification.equal(
            b.justification,
        ) && a.max_width == Some(x) && b.max_width == Some(y) && x.equal(y) && a.max_height is None
            && b.max_height is None ==> a.equal(b),
        a.font_size.equal(b.font_size) && a.line_height_ratio.equal(b.line_height_ratio)
            && a.letter_tilt.equal(b.letter_tilt) && a.align == b.align && a.justification.equal(
            b.justification,
        ) && a.max_width is None && b.max_width is None && a.max_height == Some(x) && b.max_height
            == Some(y) && x.equal(y) ==> a.equal(b),
{
}

/// The typography of a text that says nothing of it fits words between 80 and 133 percent of their
/// natural spaces, and nothing else.
pub proof fn lemma_default_justification()
    ensures
        default_justification().word_spacing.minimum.bits == 0x4054_0000_0000_0000,
        default_justification().word_spacing.desired.bits == 0x4059_0000_0000_0000,
        default_justification().word_spacing.maximum.bits == 0x4060_a000_0000_0000,
        default_justification().letter_spacing.minimum.bits == 0,
        default_justification().letter_spacing.desired.bits == 0,
        default_justification().letter_spacing.maximum.bits == 0,
        default_justification().glyph_scaling.minimum.bits == 0x4059_0000_0000_0000,
        default_justification().glyph_scaling.desired.bits == 0x4059_0000_0000_0000,
        default_justification().glyph_scaling.maximum.bits == 0x4059_0000_0000_0000,
{
}

/// Two limits are equal where there is neither, or where both are equal numbers; and texts are set alike
/// exactly where, beside all else, both of their limits are.
pub proof fn lemma_limits_alike(a: TypesettingConfig, b: TypesettingConfig, x: Double, y: Double)
    ensures
        limits_equal(None, None),
        !limits_equal(Some(x), None),
        !limits_equal(None, Some(x)),
        limits_equal(Some(x), Some(y)) <==> x.equal(y),
        a.equal(b) <==> a.font_size.equal(b.font_size) && a.line_height_ratio.equal(
            b.line_height_ratio,
        ) && a.letter_tilt.equal(b.letter_tilt) && limits_equal(a.max_width, b.max_width)
            && limits_equal(a.max_height, b.max_height) && a.align == b.align
            && a.justification.equal(b.justification),
{
}

} // verus!
