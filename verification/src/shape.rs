//! Shaped text: geometry that carries on the attributes of the text it was shaped from.

use crate::attribute::{Attribute, TextValue};
use crate::item::{
    Item, ATTR_BLEND_MODE, ATTR_EDITOR_LAYER_PATH, ATTR_OPACITY, ATTR_OPACITY_FILL, ATTR_TRANSFORM,
};
use vstd::prelude::*;

verus! {

/// Geometry that a text was shaped into.
pub struct ShapedItem<V, A> {
    /// The geometry, with the attributes that the shaping gave it.
    pub item: Item<V, Attribute<A>>,
    /// The transform of the text followed by that of the geometry, unless the text has none.
    pub transform: Option<A>,
}

/// Whether `after` is a copy of the text's own attribute where that is a path to a layer, and otherwise
/// as it was before.
pub open spec fn path_taken_over<A: Clone>(
    own: Option<Attribute<A>>,
    before: Option<Attribute<A>>,
    after: Option<Attribute<A>>,
) -> bool {
    match own {
        Some(Attribute::LayerPath(path)) => after matches Some(Attribute::LayerPath(copy)) && cloned(
            path,
            copy,
        ),
        _ => after == before,
    }
}

/// Whether `after` is a copy of the text's own attribute where that is a blend mode, and otherwise as
/// it was before.
pub open spec fn blend_taken_over<A: Clone>(
    own: Option<Attribute<A>>,
    before: Option<Attribute<A>>,
    after: Option<Attribute<A>>,
) -> bool {
    match own {
        Some(Attribute::BlendMode(mode)) => after matches Some(Attribute::BlendMode(copy)) && cloned(
            mode,
            copy,
        ),
        _ => after == before,
    }
}

/// The text's own attribute where that is a number, and otherwise what was there before.
pub open spec fn number_taken_over<A>(own: Option<Attribute<A>>, before: Option<Attribute<A>>) -> Option<
    Attribute<A>,
> {
    match own {
        Some(Attribute::Text(TextValue::Number(number))) => Some(
            Attribute::Text(TextValue::Number(number)),
        ),
        _ => before,
    }
}

/// Whether `after` is shaped geometry with the attributes of its text: the transform, where the text
/// has one, and those of the layer path, the blend mode and the opacities that the text has. All
/// others are as the shaping gave them.
pub open spec fn restyled<V, A: Clone>(
    text: Item<String, Attribute<A>>,
    shaped: ShapedItem<V, A>,
    after: Item<V, Attribute<A>>,
) -> bool {
    let before = shaped.item;
    &&& after.element == before.element
    &&& after.stored(ATTR_TRANSFORM@) == match shaped.transform {
        Some(value) => Some(Attribute::Transform(value)),
        None => before.stored(ATTR_TRANSFORM@),
    }
    &&& path_taken_over(
        text.stored(ATTR_EDITOR_LAYER_PATH@),
        before.stored(ATTR_EDITOR_LAYER_PATH@),
        after.stored(ATTR_EDITOR_LAYER_PATH@),
    )
    &&& blend_taken_over(
        text.stored(ATTR_BLEND_MODE@),
        before.stored(ATTR_BLEND_MODE@),
        after.stored(ATTR_BLEND_MODE@),
    )
    &&& after.stored(ATTR_OPACITY@) == number_taken_over(
        text.stored(ATTR_OPACITY@),
        before.stored(ATTR_OPACITY@),
    )
    &&& after.stored(ATTR_OPACITY_FILL@) == number_taken_over(
        text.stored(ATTR_OPACITY_FILL@),
        before.stored(ATTR_OPACITY_FILL@),
    )
    &&& forall|key: Seq<char>|
        key != ATTR_TRANSFORM@ && key != ATTR_EDITOR_LAYER_PATH@ && key != ATTR_BLEND_MODE@ && key
            != ATTR_OPACITY@ && key != ATTR_OPACITY_FILL@ ==> #[trigger] after.stored(key)
            == before.stored(key)
}

/// Whether `after` is what a text is shaped into: nothing for an empty text, otherwise all the
/// geometry in its order, each item with the attributes of the text.
pub open spec fn shaped_as<V, A: Clone>(
    text: Item<String, Attribute<A>>,
    shaped: Seq<ShapedItem<V, A>>,
    after: Seq<Item<V, Attribute<A>>>,
) -> bool {
    if text.element@.len() == 0 {
        after.len() == 0
    } else {
        &&& after.len() == shaped.len()
        &&& forall|i: int| 0 <= i < shaped.len() ==> restyled(text, shaped[i], #[trigger] after[i])
    }
}

/// The lengths of the keys that geometry takes over, all different.
proof fn lemma_keys_differ()
    ensures
        ATTR_TRANSFORM@.len() == 9,
        ATTR_EDITOR_LAYER_PATH@.len() == 17,
        ATTR_BLEND_MODE@.len() == 10,
        ATTR_OPACITY@.len() == 7,
        ATTR_OPACITY_FILL@.len() == 12,
{
    reveal_strlit("transform");
    reveal_strlit("editor_layer_path");
    reveal_strlit("blend_mode");
    reveal_strlit("opacity");
    reveal_strlit("opacity_fill");
}

/// Stores the text's own number under `key`, where it has one there.
fn take_over_number<V, A>(
    text: &Item<String, Attribute<A>>,
    key: &str,
    item: &mut Item<V, Attribute<A>>,
)
    ensures
        final(item).element == old(item).element,
        final(item).stored(key@) == number_taken_over(text.stored(key@), old(item).stored(key@)),
        forall|other: Seq<char>|
            other != key@ ==> #[trigger] final(item).stored(other) == old(item).stored(other),
{
    if let Some(Attribute::Text(TextValue::Number(number))) = text.attribute(key) {
        item.set_attribute(key, Attribute::Text(TextValue::Number(*number)));
    }
}

/// Gives geometry the attributes of the text it was shaped from.
fn restyle<V, A: Clone>(text: &Item<String, Attribute<A>>, shaped: ShapedItem<V, A>) -> (r: Item<
    V,
    Attribute<A>,
>)
    ensures
        restyled(*text, shaped, r),
{
    let mut result = shaped.item;
    proof {
        lemma_keys_differ();
    }
    if let Some(value) = shaped.transform {
        result.set_attribute(ATTR_TRANSFORM, Attribute::Transform(value));
    }
    if let Some(Attribute::LayerPath(path)) = text.attribute(ATTR_EDITOR_LAYER_PATH) {
        result.set_attribute(ATTR_EDITOR_LAYER_PATH, Attribute::LayerPath(path.clone()));
    }
    if let Some(Attribute::BlendMode(mode)) = text.attribute(ATTR_BLEND_MODE) {
        result.set_attribute(ATTR_BLEND_MODE, Attribute::BlendMode(mode.clone()));
    }
    take_over_number(text, ATTR_OPACITY, &mut result);
    take_over_number(text, ATTR_OPACITY_FILL, &mut result);
    result
}

/// Gives the geometry that a single styled string item was shaped into the transform and blending
/// attributes of the item. An empty string has no geometry.
pub fn shape_text_item<V, A: Clone>(
    item: &Item<String, Attribute<A>>,
    shaped: Vec<ShapedItem<V, A>>,
) -> (r: Vec<Item<V, Attribute<A>>>)
    ensures
        shaped_as(*item, shaped@, r@),
{
    let mut result: Vec<Item<V, Attribute<A>>> = Vec::new();
    if item.element.as_str().is_empty() {
        return result;
    }
    for produced in it: shaped.into_iter()
        invariant
            it.seq() == shaped@,
            result@.len() == it.index(),
            forall|i: int|
                0 <= i < it.index() ==> restyled(*item, shaped@[i], #[trigger] result@[i]),
    {
        result.push(restyle(item, produced));
    }
    result
}

/// Whether `after` is what a list of texts is shaped into: the geometry of each, one after another.
pub open spec fn list_shaped_as<V, A: Clone>(
    strings: Seq<(Item<String, Attribute<A>>, Vec<ShapedItem<V, A>>)>,
    after: Seq<Item<V, Attribute<A>>>,
) -> bool {
    exists|parts: Seq<Seq<Item<V, Attribute<A>>>>|
        {
            &&& after == #[trigger] parts.flatten()
            &&& parts.len() == strings.len()
            &&& forall|i: int|
                0 <= i < strings.len() ==> shaped_as(
                    strings[i].0,
                    strings[i].1@,
                    #[trigger] parts[i],
                )
        }
}

/// Gives the geometry of each string item of a list the attributes of that item, flattening the
/// per-item results.
pub fn shape_text_list<V, A: Clone>(
    strings: Vec<(Item<String, Attribute<A>>, Vec<ShapedItem<V, A>>)>,
) -> (r: Vec<Item<V, Attribute<A>>>)
    ensures
        list_shaped_as(strings@, r@),
{
    let mut result: Vec<Item<V, Attribute<A>>> = Vec::new();
    let ghost mut parts: Seq<Seq<Item<V, Attribute<A>>>> = Seq::empty();
    for pair in it: strings.into_iter()
        invariant
            it.seq() == strings@,
            result@ == parts.flatten(),
            parts.len() == it.index(),
            forall|i: int|
                0 <= i < it.index() ==> shaped_as(
                    strings@[i].0,
                    strings@[i].1@,
                    #[trigger] parts[i],
                ),
    {
        let (item, shaped) = pair;
        let mut produced = shape_text_item(&item, shaped);
        proof {
            parts.lemma_flatten_push(produced@);
            parts = parts.push(produced@);
        }
        result.append(&mut produced);
    }
    result
}

/// Two lists of texts put together are shaped into what the one is, followed by what the other is.
pub proof fn lemma_shaped_lists_concatenate<V, A: Clone>(
    a: Seq<(Item<String, Attribute<A>>, Vec<ShapedItem<V, A>>)>,
    b: Seq<(Item<String, Attribute<A>>, Vec<ShapedItem<V, A>>)>,
    after: Seq<Item<V, Attribute<A>>>,
)
    ensures
        list_shaped_as(a + b, after) <==> exists|first: Seq<Item<V, Attribute<A>>>, second: Seq<
            Item<V, Attribute<A>>,
        >|
            #![trigger list_shaped_as(a, first), list_shaped_as(b, second)]
            after == first + second && list_shaped_as(a, first) && list_shaped_as(b, second),
{
    let n = a.len() as int;
    if list_shaped_as(a + b, after) {
        let parts = choose|parts: Seq<Seq<Item<V, Attribute<A>>>>|
            {
                &&& after == #[trigger] parts.flatten()
                &&& parts.len() == (a + b).len()
                &&& forall|i: int|
                    0 <= i < (a + b).len() ==> shaped_as(
                        (a + b)[i].0,
                        (a + b)[i].1@,
                        #[trigger] parts[i],
                    )
            };
        let front = parts.take(n);
        let back = parts.skip(n);
        assert(parts == front + back);
        vstd::seq_lib::lemma_flatten_concat(front, back);
        assert forall|i: int| 0 <= i < a.len() implies shaped_as(
            a[i].0,
            a[i].1@,
            #[trigger] front[i],
        ) by {
            assert(shaped_as((a + b)[i].0, (a + b)[i].1@, parts[i]));
        }
        assert forall|i: int| 0 <= i < b.len() implies shaped_as(
            b[i].0,
            b[i].1@,
            #[trigger] back[i],
        ) by {
            assert((a + b)[n + i] == b[i]);
            assert(shaped_as((a + b)[n + i].0, (a + b)[n + i].1@, parts[n + i]));
        }
        assert(list_shaped_as(a, front.flatten()));
        assert(list_shaped_as(b, back.flatten()));
    }
    if exists|first: Seq<Item<V, Attribute<A>>>, second: Seq<Item<V, Attribute<A>>>|
        #![trigger list_shaped_as(a, first), list_shaped_as(b, second)]
        after == first + second && list_shaped_as(a, first) && list_shaped_as(b, second) {
        let (first, second) = choose|
            first: Seq<Item<V, Attribute<A>>>,
            second: Seq<Item<V, Attribute<A>>>,
        |
            #![trigger list_shaped_as(a, first), list_shaped_as(b, second)]
            after == first + second && list_shaped_as(a, first) && list_shaped_as(b, second);
        let front = choose|parts: Seq<Seq<Item<V, Attribute<A>>>>|
            {
                &&& first == #[trigger] parts.flatten()
                &&& parts.len() == a.len()
                &&& forall|i: int|
                    0 <= i < a.len() ==> shaped_as(a[i].0, a[i].1@, #[trigger] parts[i])
            };
        let back = choose|parts: Seq<Seq<Item<V, Attribute<A>>>>|
            {
                &&& second == #[trigger] parts.flatten()
                &&& parts.len() == b.len()
                &&& forall|i: int|
                    0 <= i < b.len() ==> shaped_as(b[i].0, b[i].1@, #[trigger] parts[i])
            };
        let parts = front + back;
        vstd::seq_lib::lemma_flatten_concat(front, back);
        assert forall|i: int| 0 <= i < (a + b).len() implies shaped_as(
            (a + b)[i].0,
            (a + b)[i].1@,
            #[trigger] parts[i],
        ) by {
            if i < n {
                assert(shaped_as(a[i].0, a[i].1@, front[i]));
            } else {
                assert(shaped_as(b[i - n].0, b[i - n].1@, back[i - n]));
            }
        }
        assert(after == parts.flatten());
    }
}

/// A list of one text is shaped into what that text is: nothing, where the text is empty.
pub proof fn lemma_shaped_list_of_one<V, A: Clone>(
    text: Item<String, Attribute<A>>,
    shaped: Vec<ShapedItem<V, A>>,
    after: Seq<Item<V, Attribute<A>>>,
)
    ensures
        list_shaped_as(seq![(text, shaped)], after) <==> shaped_as(text, shaped@, after),
        text.element@.len() == 0 ==> (list_shaped_as(seq![(text, shaped)], after) <==> after.len()
            == 0),
{
    let list = seq![(text, shaped)];
    if list_shaped_as(list, after) {
        let parts = choose|parts: Seq<Seq<Item<V, Attribute<A>>>>|
            {
                &&& after == #[trigger] parts.flatten()
                &&& parts.len() == list.len()
                &&& forall|i: int|
                    0 <= i < list.len() ==> shaped_as(list[i].0, list[i].1@, #[trigger] parts[i])
            };
        parts.lemma_flatten_one_element();
        assert(shaped_as(list[0].0, list[0].1@, parts[0]));
    }
    if shaped_as(text, shaped@, after) {
        let parts = seq![after];
        parts.lemma_flatten_one_element();
        assert(after == parts.flatten());
        assert forall|i: int| 0 <= i < list.len() implies shaped_as(
            list[i].0,
            list[i].1@,
            #[trigger] parts[i],
        ) by {}
    }
}

/// Geometry keeps its shape and takes over what its text has: its path to a layer, its blend mode, its
/// opacity and that of its fill, each under its own key and of its own kind. What the text does not have
/// stays as the shaping gave it, and so does everything under other keys.
pub proof fn lemma_geometry_restyled<V, A: Clone>(
    text: Item<String, Attribute<A>>,
    shaped: ShapedItem<V, A>,
    after: Item<V, Attribute<A>>,
    key: Seq<char>,
)
    requires
        restyled(text, shaped, after),
    ensures
        after.element == shaped.item.element,
        shaped.transform matches Some(transform) ==> after.stored("transform"@) == Some(
            Attribute::Transform(transform),
        ),
        shaped.transform is None ==> after.stored("transform"@) == shaped.item.stored("transform"@),
        text.stored("editor_layer_path"@) matches Some(Attribute::LayerPath(path)) ==> (after.stored(
            "editor_layer_path"@,
        ) matches Some(Attribute::LayerPath(copy)) && cloned(path, copy)),
        !(text.stored("editor_layer_path"@) matches Some(Attribute::LayerPath(_))) ==> after.stored(
            "editor_layer_path"@,
        ) == shaped.item.stored("editor_layer_path"@),
        text.stored("blend_mode"@) matches Some(Attribute::BlendMode(mode)) ==> (after.stored(
            "blend_mode"@,
        ) matches Some(Attribute::BlendMode(copy)) && cloned(mode, copy)),
        !(text.stored("blend_mode"@) matches Some(Attribute::BlendMode(_))) ==> after.stored(
            "blend_mode"@,
        ) == shaped.item.stored("blend_mode"@),
        text.stored("opacity"@) matches Some(Attribute::Text(TextValue::Number(number)))
            ==> after.stored("opacity"@) == Some(Attribute::<A>::Text(TextValue::Number(number))),
        !(text.stored("opacity"@) matches Some(Attribute::Text(TextValue::Number(_))))
            ==> after.stored("opacity"@) == shaped.item.stored("opacity"@),
        text.stored("opacity_fill"@) matches Some(Attribute::Text(TextValue::Number(number)))
            ==> after.stored("opacity_fill"@) == Some(
            Attribute::<A>::Text(TextValue::Number(number)),
        ),
        !(text.stored("opacity_fill"@) matches Some(Attribute::Text(TextValue::Number(_))))
            ==> after.stored("opacity_fill"@) == shaped.item.stored("opacity_fill"@),
        key != "transform"@ && key != "editor_layer_path"@ && key != "blend_mode"@ && key
            != "opacity"@ && key != "opacity_fill"@ ==> after.stored(key) == shaped.item.stored(key),
{
}

/// All the geometry of a text that is not empty is kept, in its order, each item with the attributes of
/// the text. An empty text has none.
pub proof fn lemma_all_geometry_kept<V, A: Clone>(
    text: Item<String, Attribute<A>>,
    shaped: Seq<ShapedItem<V, A>>,
    after: Seq<Item<V, Attribute<A>>>,
    i: int,
)
    requires
        shaped_as(text, shaped, after),
    ensures
        text.element@.len() == 0 ==> after.len() == 0,
        text.element@.len() > 0 ==> after.len() == shaped.len(),
        text.element@.len() > 0 && 0 <= i < shaped.len() ==> restyled(text, shaped[i], after[i]),
{
}

} // verus!
