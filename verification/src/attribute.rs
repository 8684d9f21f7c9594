//! The attributes of styled text, and the typography that is read from them.

use crate::align::TextAlign;
use crate::item::{Item, Resource, Stored, TextItemAttributes};
use crate::spacing::{Double, Justification};
use vstd::prelude::*;

verus! {

/// What an attribute of the typography of a text can be.
pub enum TextValue {
    /// A number, such as a font size or an opacity.
    Number(Double),
    /// A number or none, such as the width at which lines wrap.
    OptionalNumber(Option<Double>),
    /// An alignment of lines.
    Align(TextAlign),
    /// The ranges that justified lines are fitted within.
    Justification(Justification),
    /// A font.
    Font(Resource),
}

/// An attribute of a styled text, or of the geometry it is shaped into. What the library does not look
/// into is of type `A`.
pub enum Attribute<A> {
    /// A value of typography.
    Text(TextValue),
    /// An affine transform.
    Transform(A),
    /// A path that leads to a layer in the editor.
    LayerPath(A),
    /// A way to mix with what lies below.
    BlendMode(A),
    /// Anything else.
    Other(A),
}

/// A type that values of typography are read as.
pub trait TextAttribute: Clone + 'static {
    /// The value as one of this type, where it is one.
    spec fn held_by(stored: TextValue) -> Option<Self>;

    /// A copy of the value as one of this type, where it is one.
    fn held(stored: &TextValue) -> (r: Option<Self>)
        ensures
            match Self::held_by(*stored) {
                Some(value) => r is Some && cloned(value, r->Some_0),
                None => r is None,
            },
    ;
}

impl TextAttribute for Double {
    open spec fn held_by(stored: TextValue) -> Option<Self> {
        match stored {
            TextValue::Number(value) => Some(value),
            _ => None,
        }
    }

    fn held(stored: &TextValue) -> (r: Option<Self>) {
        match stored {
            TextValue::Number(value) => Some(value.clone()),
            _ => None,
        }
    }
}

impl TextAttribute for Option<Double> {
    open spec fn held_by(stored: TextValue) -> Option<Self> {
        match stored {
            TextValue::OptionalNumber(value) => Some(value),
            _ => None,
        }
    }

    fn held(stored: &TextValue) -> (r: Option<Self>) {
        match stored {
            TextValue::OptionalNumber(value) => Some(value.clone()),
            _ => None,
        }
    }
}

impl TextAttribute for TextAlign {
    open spec fn held_by(stored: TextValue) -> Option<Self> {
        match stored {
            TextValue::Align(value) => Some(value),
            _ => None,
        }
    }

    fn held(stored: &TextValue) -> (r: Option<Self>) {
        match stored {
            TextValue::Align(value) => Some(value.clone()),
            _ => None,
        }
    }
}

impl TextAttribute for Justification {
    open spec fn held_by(stored: TextValue) -> Option<Self> {
        match stored {
            TextValue::Justification(value) => Some(value),
            _ => None,
        }
    }

    fn held(stored: &TextValue) -> (r: Option<Self>) {
        match stored {
            TextValue::Justification(value) => Some(value.clone()),
            _ => None,
        }
    }
}

impl TextAttribute for Resource {
    open spec fn held_by(stored: TextValue) -> Option<Self> {
        match stored {
            TextValue::Font(value) => Some(value),
            _ => None,
        }
    }

    fn held(stored: &TextValue) -> (r: Option<Self>) {
        match stored {
            TextValue::Font(value) => Some(value.clone()),
            _ => None,
        }
    }
}

impl<A> TextItemAttributes for Item<String, Attribute<A>> {
    open spec fn stored_value(&self, key: Seq<char>) -> Stored {
        match self.stored(key) {
            Some(Attribute::Text(value)) => Stored::Value(value),
            _ => Stored::Unset,
        }
    }

    fn typography<T: TextAttribute>(&self, key: &str, default: T) -> (r: T) {
        match self.attribute(key) {
            Some(Attribute::Text(stored)) => match T::held(stored) {
                Some(value) => value,
                None => default,
            },
            _ => default,
        }
    }
}

/// Of an item without attributes every one is known to be unset.
pub proof fn lemma_bare_item_sets_nothing<A>(item: Item<String, Attribute<A>>, key: Seq<char>)
    requires
        item.attributes@.len() == 0,
    ensures
        item.stored_value(key) is Unset,
{
}

/// Every value of typography is one of exactly one type, and is itself as one of that type.
pub proof fn lemma_values_have_one_type(
    number: Double,
    limit: Option<Double>,
    align: TextAlign,
    justification: Justification,
    font: Resource,
)
    ensures
        Double::held_by(TextValue::Number(number)) == Some(number),
        Option::<Double>::held_by(TextValue::OptionalNumber(limit)) == Some(limit),
        TextAlign::held_by(TextValue::Align(align)) == Some(align),
        Justification::held_by(TextValue::Justification(justification)) == Some(justification),
        Resource::held_by(TextValue::Font(font)) == Some(font),
        Double::held_by(TextValue::OptionalNumber(limit)) is None,
        Double::held_by(TextValue::Align(align)) is None,
        Double::held_by(TextValue::Justification(justification)) is None,
        Double::held_by(TextValue::Font(font)) is None,
        Option::<Double>::held_by(TextValue::Number(number)) is None,
        Option::<Double>::held_by(TextValue::Align(align)) is None,
        Option::<Double>::held_by(TextValue::Justification(justification)) is None,
        Option::<Double>::held_by(TextValue::Font(font)) is None,
        TextAlign::held_by(TextValue::Number(number)) is None,
        TextAlign::held_by(TextValue::OptionalNumber(limit)) is None,
        TextAlign::held_by(TextValue::Justification(justification)) is None,
        TextAlign::held_by(TextValue::Font(font)) is None,
        Justification::held_by(TextValue::Number(number)) is None,
        Justification::held_by(TextValue::OptionalNumber(limit)) is None,
        Justification::held_by(TextValue::Align(align)) is None,
        Justification::held_by(TextValue::Font(font)) is None,
        Resource::held_by(TextValue::Number(number)) is None,
        Resource::held_by(TextValue::OptionalNumber(limit)) is None,
        Resource::held_by(TextValue::Align(align)) is None,
        Resource::held_by(TextValue::Justification(justification)) is None,
{
}

/// An item is known to store the typography that stands under a key, and nothing where none does.
pub proof fn lemma_stored_typography<A>(item: Item<String, Attribute<A>>, key: Seq<char>)
    ensures
        item.stored(key) is None ==> item.stored_value(key) is Unset,
        item.stored(key) matches Some(Attribute::Text(value)) ==> item.stored_value(key)
            == Stored::Value(value),
        item.stored(key) matches Some(attribute) ==> !(attribute is Text) ==> item.stored_value(
            key,
        ) is Unset,
{
}

} // verus!
