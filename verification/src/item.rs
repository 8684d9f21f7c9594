//! An element and the attributes that travel with it.

use crate::attribute::{TextAttribute, TextValue};
use vstd::prelude::*;

verus! {

/// The key of the font that a text is drawn with.
pub const ATTR_FONT: &'static str = "font";

/// The key of the size that a text is drawn at.
pub const ATTR_FONT_SIZE: &'static str = "font_size";

/// The key of the distance between lines, as a multiple of the font size.
pub const ATTR_LINE_HEIGHT: &'static str = "line_height";

/// The key of the slant of the letters.
pub const ATTR_LETTER_TILT: &'static str = "letter_tilt";

/// The key of the width at which lines wrap.
pub const ATTR_MAX_WIDTH: &'static str = "max_width";

/// The key of the height past which lines are not drawn.
pub const ATTR_MAX_HEIGHT: &'static str = "max_height";

/// The key of the alignment of lines.
pub const ATTR_TEXT_ALIGN: &'static str = "text_align";

/// The key of the ranges that justified lines are fitted within.
pub const ATTR_JUSTIFICATION: &'static str = "justification";

/// The key of the placement of drawn geometry.
pub const ATTR_TRANSFORM: &'static str = "transform";

/// The key of the path that leads to a layer in the editor.
pub const ATTR_EDITOR_LAYER_PATH: &'static str = "editor_layer_path";

/// The key of the way drawn geometry mixes with what lies below it.
pub const ATTR_BLEND_MODE: &'static str = "blend_mode";

/// The key of the opacity of drawn geometry.
pub const ATTR_OPACITY: &'static str = "opacity";

/// The key of the opacity of the fill alone.
pub const ATTR_OPACITY_FILL: &'static str = "opacity_fill";

/// An element, with attributes of type `A` stored under keys.
pub struct Item<T, A> {
    pub element: T,
    pub attributes: Vec<(String, A)>,
}

/// The place of the attribute stored under `key`, where there is one.
pub open spec fn attribute_index<A>(attributes: Seq<(String, A)>, key: Seq<char>) -> Option<int>
    decreases attributes.len(),
{
    if attributes.len() == 0 {
        None
    } else if attributes.last().0@ == key {
        Some(attributes.len() - 1)
    } else {
        attribute_index(attributes.drop_last(), key)
    }
}

/// The attribute stored under `key`, where there is one.
pub open spec fn attribute_of<A>(attributes: Seq<(String, A)>, key: Seq<char>) -> Option<A> {
    match attribute_index(attributes, key) {
        Some(i) => Some(attributes[i].1),
        None => None,
    }
}

/// What is stored does not depend on an attribute, at the end, of another key.
proof fn lemma_attribute_push<A>(attributes: Seq<(String, A)>, pair: (String, A), key: Seq<char>)
    ensures
        attribute_of(attributes.push(pair), key) == if pair.0@ == key {
            Some(pair.1)
        } else {
            attribute_of(attributes, key)
        },
{
    lemma_attribute_index(attributes, key);
    assert(attributes.push(pair).drop_last() == attributes);
}

/// Where an attribute is stored, its key stands.
proof fn lemma_attribute_index<A>(attributes: Seq<(String, A)>, key: Seq<char>)
    ensures
        attribute_index(attributes, key) matches Some(i) ==> 0 <= i < attributes.len()
            && attributes[i].0@ == key,
    decreases attributes.len(),
{
    if attributes.len() > 0 {
        lemma_attribute_index(attributes.drop_last(), key);
    }
}

/// Another value in an attribute's place leaves those of other keys as they are.
proof fn lemma_attribute_update<A>(
    attributes: Seq<(String, A)>,
    i: int,
    pair: (String, A),
    key: Seq<char>,
)
    requires
        0 <= i < attributes.len(),
        attributes[i].0@ == pair.0@,
    ensures
        attribute_index(attributes.update(i, pair), key) == attribute_index(attributes, key),
    decreases attributes.len(),
{
    let updated = attributes.update(i, pair);
    if i < attributes.len() - 1 {
        assert(updated.drop_last() == attributes.drop_last().update(i, pair));
        lemma_attribute_update(attributes.drop_last(), i, pair, key);
    } else {
        assert(updated.drop_last() == attributes.drop_last());
    }
}

impl<T, A> Item<T, A> {
    /// The attribute stored under `key`, where there is one.
    pub open spec fn stored(self, key: Seq<char>) -> Option<A> {
        attribute_of(self.attributes@, key)
    }

    /// An item without attributes.
    pub fn new_from_element(element: T) -> (r: Self)
        ensures
            r.element == element,
            r.attributes@ == Seq::<(String, A)>::empty(),
    {
        Item { element, attributes: Vec::new() }
    }

    /// An item of the given parts.
    pub fn from_parts(element: T, attributes: Vec<(String, A)>) -> (r: Self)
        ensures
            r.element == element,
            r.attributes == attributes,
    {
        Item { element, attributes }
    }

    /// The element and the attributes.
    pub fn into_parts(self) -> (r: (T, Vec<(String, A)>))
        ensures
            r.0 == self.element,
            r.1 == self.attributes,
    {
        (self.element, self.attributes)
    }

    /// The place of the attribute stored under `key`, where there is one.
    fn position(&self, key: &String) -> (r: Option<usize>)
        ensures
            match r {
                Some(i) => attribute_index(self.attributes@, key@) == Some(i as int),
                None => attribute_index(self.attributes@, key@) is None,
            },
    {
        let mut i = self.attributes.len();
        assert(self.attributes@.take(i as int) == self.attributes@);
        while i > 0
            invariant
                i <= self.attributes@.len(),
                attribute_index(self.attributes@, key@) == attribute_index(
                    self.attributes@.take(i as int),
                    key@,
                ),
            decreases i,
        {
            assert(self.attributes@.take(i as int).drop_last() == self.attributes@.take(i - 1));
            if self.attributes[i - 1].0 == *key {
                return Some(i - 1);
            }
            i = i - 1;
        }
        None
    }

    /// The attribute stored under `key`, where there is one.
    pub fn attribute(&self, key: &str) -> (r: Option<&A>)
        ensures
            match r {
                Some(value) => self.stored(key@) == Some(*value),
                None => self.stored(key@) is None,
            },
    {
        proof {
            lemma_attribute_index(self.attributes@, key@);
        }
        match self.position(&key.to_owned()) {
            Some(i) => Some(&self.attributes[i].1),
            None => None,
        }
    }

    /// Stores `value` under `key`, in place of what was stored there.
    pub fn set_attribute(&mut self, key: &str, value: A)
        ensures
            final(self).element == old(self).element,
            exists|stored_key: String| #[trigger]
                stored_key@ == key@ && final(self).attributes@ == match attribute_index(
                    old(self).attributes@,
                    key@,
                ) {
                    Some(i) => old(self).attributes@.update(i, (stored_key, value)),
                    None => old(self).attributes@.push((stored_key, value)),
                },
            forall|other: Seq<char>| #[trigger]
                final(self).stored(other) == if other == key@ {
                    Some(value)
                } else {
                    old(self).stored(other)
                },
    {
        let key = key.to_owned();
        let ghost before = self.attributes@;
        proof {
            lemma_attribute_index(before, key@);
        }
        match self.position(&key) {
            Some(i) => {
                let ghost pair = (key, value);
                self.attributes.set(i, (key, value));
                proof {
                    assert(self.attributes@ == before.update(i as int, pair));
                    assert forall|other: Seq<char>| #[trigger] self.stored(other) == if other
                        == pair.0@ {
                        Some(value)
                    } else {
                        attribute_of(before, other)
                    } by {
                        lemma_attribute_index(before, other);
                        lemma_attribute_update(before, i as int, pair, other);
                    }
                }
            },
            None => {
                let ghost pair = (key, value);
                self.attributes.push((key, value));
                proof {
                    assert forall|other: Seq<char>| #[trigger] self.stored(other) == if other
                        == pair.0@ {
                        Some(value)
                    } else {
                        attribute_of(before, other)
                    } by {
                        lemma_attribute_push(before, pair, other);
                    }
                }
            },
        }
    }
}

/// The bytes of a font or of another file that a document carries.
pub struct Resource {
    pub data: Vec<u8>,
}

impl Default for Resource {
    /// A resource without bytes.
    fn default() -> (r: Self)
        ensures
            r.data@ == Seq::<u8>::empty(),
    {
        Resource { data: Vec::new() }
    }
}

impl Clone for Resource {
    fn clone(&self) -> (r: Self)
        ensures
            r.data@ == self.data@,
    {
        Resource { data: self.data.clone() }
    }
}

impl Resource {
    /// Whether the resource has no bytes.
    pub fn is_empty(&self) -> (r: bool)
        ensures
            r == (self.data@.len() == 0),
    {
        self.data.len() == 0
    }
}

/// What is known of what an item stores under a key.
pub enum Stored {
    /// Nothing: the item does not say.
    Unknown,
    /// The item stores no typography there.
    Unset,
    /// The item stores this value.
    Value(TextValue),
}

impl Stored {
    /// The value of type `T` that is stored, where it is known to be one.
    pub open spec fn held<T: TextAttribute>(self) -> Option<T> {
        match self {
            Stored::Value(value) => T::held_by(value),
            _ => None,
        }
    }
}

/// The typography attributes a styled string carries, read the same way by everything that draws one.
pub trait TextItemAttributes {
    /// What is known of what the item stores under `key`. An item may leave it unsaid.
    open spec fn stored_value(&self, key: Seq<char>) -> Stored {
        Stored::Unknown
    }

    /// The attribute stored under `key`, or `default` if the item leaves it unset or stores another type there.
    fn typography<T: TextAttribute>(&self, key: &str, default: T) -> (r: T)
        ensures
            !(self.stored_value(key@) is Unknown) ==> match self.stored_value(key@).held::<T>() {
                Some(value) => cloned(value, r),
                None => r == default,
            },
    ;
}

/// The font that an item carries, or the fallback where it is empty.
pub open spec fn or_fallback(font: Resource, fallback: Resource) -> Resource {
    if font.data@.len() == 0 {
        fallback
    } else {
        font
    }
}

/// The font that an item carries, or the fallback where it is empty.
pub fn font_or_fallback(font: Resource, fallback: Resource) -> (r: Resource)
    ensures
        r == or_fallback(font, fallback),
{
    if font.is_empty() {
        fallback
    } else {
        font
    }
}

/// Whether `font` is what an item may give for its font, where it gives an empty one if it has none.
pub open spec fn font_read<I: TextItemAttributes>(item: I, font: Resource) -> bool {
    exists|unset: Resource|
        unset.data@.len() == 0 && #[trigger] call_ensures(
            I::typography::<Resource>,
            (&item, ATTR_FONT, unset),
            font,
        )
}

/// The font a text item is drawn with, substituting the given fallback when it carries none.
pub fn text_item_font<I: TextItemAttributes>(item: &I, fallback: Resource) -> (r: Resource)
    ensures
        exists|font: Resource| #[trigger]
            font_read(*item, font) && r == or_fallback(font, fallback),
        !(item.stored_value(ATTR_FONT@) is Unknown) ==> match item.stored_value(ATTR_FONT@).held::<
            Resource,
        >() {
            Some(font) => if font.data@.len() == 0 {
                r == fallback
            } else {
                r.data@ == font.data@
            },
            None => r == fallback,
        },
{
    let unset = Resource::default();
    let ghost given = unset;
    let font: Resource = item.typography(ATTR_FONT, unset);
    assert(call_ensures(I::typography::<Resource>, (item, ATTR_FONT, given), font));
    assert(font_read(*item, font));
    font_or_fallback(font, fallback)
}

/// An attribute is found under its key and under no other, and one that is added last is found before all
/// others of its key. Nothing is found where there are none.
pub proof fn lemma_attributes_found<T, A>(item: Item<T, A>, fewer: Item<T, A>, key: Seq<char>)
    ensures
        item.attributes@.len() == 0 ==> item.stored(key) is None,
        item.attributes@.len() > 0 && item.attributes@.last().0@ == key ==> item.stored(key) == Some(
            item.attributes@.last().1,
        ) && attribute_index(item.attributes@, key) == Some(item.attributes@.len() - 1),
        item.attributes@.len() > 0 && item.attributes@.last().0@ != key && fewer.attributes@
            == item.attributes@.drop_last() ==> item.stored(key) == fewer.stored(key)
            && attribute_index(item.attributes@, key) == attribute_index(fewer.attributes@, key),
{
    lemma_attribute_index(item.attributes@, key);
    if item.attributes@.len() > 0 {
        lemma_attribute_index(item.attributes@.drop_last(), key);
    }
}

/// A font with bytes is used, and the fallback in the place of one without.
pub proof fn lemma_fallback_for_empty_fonts(font: Resource, fallback: Resource)
    ensures
        font.data@.len() > 0 ==> or_fallback(font, fallback) == font,
        font.data@.len() == 0 ==> or_fallback(font, fallback) == fallback,
{
}

/// A value that is known to be stored is held as what it is, and nothing is held where none is.
pub proof fn lemma_known_value_held<T: TextAttribute>(value: TextValue)
    ensures
        Stored::Value(value).held::<T>() == T::held_by(value),
        Stored::Unset.held::<T>() is None,
{
}

} // verus!
