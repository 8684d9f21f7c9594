//! What is decided while a text is laid out: which font it uses, how its lines are broken, and how
//! large the frame around it is.

use crate::align::TextAlign;
use crate::spacing::Double;
use crate::typesetting::or_default;
use std::collections::HashMap;
use vstd::prelude::*;

verus! {

broadcast use vstd::std_specs::hash::group_hash_axioms;

/// How the lines of a text are broken.
#[derive(Debug, Clone, Copy, PartialEq, Eq)]
pub enum LineBreaking {
    /// Where the lines of a second composition break, whose spacing is the narrowest allowed: a word
    /// stays on a line whenever the line can be compressed to hold it.
    AsNarrowest,
    /// Where the text, as it is laid out, reaches the width given, if one is.
    AsLaidOut,
}

/// Decides how the lines of a text are broken.
pub fn line_breaking(align: TextAlign, has_max_width: bool) -> (r: LineBreaking)
    ensures
        r == if has_max_width && align.justified() {
            LineBreaking::AsNarrowest
        } else {
            LineBreaking::AsLaidOut
        },
{
    if has_max_width && align.is_justified() {
        LineBreaking::AsNarrowest
    } else {
        LineBreaking::AsLaidOut
    }
}

/// How many there are in all, of as many as each entry says.
pub open spec fn total(counts: Seq<usize>) -> int
    decreases counts.len(),
{
    if counts.len() == 0 {
        0
    } else {
        total(counts.drop_last()) + counts.last()
    }
}

/// The first entries add up to no more than all of them.
proof fn lemma_total_take(counts: Seq<usize>, i: int)
    requires
        0 <= i <= counts.len(),
    ensures
        0 <= total(counts.take(i)) <= total(counts),
    decreases counts.len(),
{
    if i == counts.len() {
        assert(counts.take(i) == counts);
        if i > 0 {
            lemma_total_take(counts.drop_last(), i - 1);
            assert(counts.drop_last().take(i - 1) == counts.drop_last());
        }
    } else {
        lemma_total_take(counts.drop_last(), i);
        assert(counts.drop_last().take(i) == counts.take(i));
    }
}

/// How many clusters each line holds, of the counts of its runs: the lower bits of that number,
/// which is how a layout takes the length of a line.
pub fn clusters_per_line(lines: &Vec<Vec<usize>>) -> (r: Vec<u32>)
    requires
        forall|i: int| 0 <= i < lines@.len() ==> total((#[trigger] lines@[i])@) <= usize::MAX,
    ensures
        r@.len() == lines@.len(),
        forall|i: int|
            0 <= i < lines@.len() ==> #[trigger] r@[i] == total(lines@[i]@) % 0x1_0000_0000,
{
    let n = lines.len();
    let mut result: Vec<u32> = Vec::new();
    for i in 0..n
        invariant
            n == lines@.len(),
            forall|k: int| 0 <= k < lines@.len() ==> total((#[trigger] lines@[k])@) <= usize::MAX,
            result@.len() == i,
            forall|k: int| 0 <= k < i ==> #[trigger] result@[k] == total(lines@[k]@) % 0x1_0000_0000,
    {
        let runs = &lines[i];
        let m = runs.len();
        let mut sum: usize = 0;
        assert(total(lines@[i as int]@) <= usize::MAX);
        for j in 0..m
            invariant
                m == runs@.len(),
                total(runs@) <= usize::MAX,
                sum == total(runs@.take(j as int)),
        {
            proof {
                lemma_total_take(runs@, j + 1);
                assert(runs@.take(j + 1).drop_last() == runs@.take(j as int));
            }
            sum = sum + runs[j];
        }
        assert(runs@.take(m as int) == runs@);
        let wide = sum as u64;
        assert(wide as u32 == wide % 0x1_0000_0000) by (bit_vector);
        result.push(#[verifier::truncate] (wide as u32));
    }
    result
}

/// The width and the height of the frame around a text: the limits it was given, or else what it was
/// laid out to.
pub fn frame_size(
    max_width: Option<Double>,
    max_height: Option<Double>,
    layout_size: (Double, Double),
) -> (r: (Double, Double))
    ensures
        r.0 == or_default(max_width, layout_size.0),
        r.1 == or_default(max_height, layout_size.1),
{
    (max_width.unwrap_or(layout_size.0), max_height.unwrap_or(layout_size.1))
}

/// The width and the height of a text: nothing where it has no layout, and what it was laid out to
/// where that is tested for clipping.
pub open spec fn bounds(
    layout_size: Option<(Double, Double)>,
    max_width: Option<Double>,
    max_height: Option<Double>,
    for_clipping_test: bool,
) -> (Double, Double) {
    match layout_size {
        None => (Double { bits: 0 }, Double { bits: 0 }),
        Some((width, height)) => if for_clipping_test {
            (width, height)
        } else {
            (or_default(max_width, width), or_default(max_height, height))
        },
    }
}

/// Calculates the bounding box of a text from the size it was laid out to, if it was.
pub fn bounding_box(
    layout_size: Option<(Double, Double)>,
    max_width: Option<Double>,
    max_height: Option<Double>,
    for_clipping_test: bool,
) -> (r: (Double, Double))
    ensures
        r == bounds(layout_size, max_width, max_height, for_clipping_test),
{
    match layout_size {
        None => (Double { bits: 0 }, Double { bits: 0 }),
        Some(size) => if for_clipping_test {
            size
        } else {
            frame_size(max_width, max_height, size)
        },
    }
}

/// Checks if text lines are being clipped due to height constraints: whether the text is laid out
/// higher than the limit it was given.
pub fn lines_clipping(
    layout_size: Option<(Double, Double)>,
    max_width: Option<Double>,
    max_height: Option<Double>,
) -> (r: bool)
    ensures
        r == match max_height {
            None => false,
            Some(limit) => limit.less(bounds(layout_size, max_width, max_height, true).1),
        },
{
    match max_height {
        None => false,
        Some(limit) => limit.is_less_than(
            bounding_box(layout_size, max_width, max_height, true).1,
        ),
    }
}

/// Without limits the bounding box of a text is what it was laid out to, and with both limits it is
/// them, whatever the text was laid out to.
pub proof fn lemma_limits_bound(layout_size: (Double, Double), width: Double, height: Double)
    ensures
        bounds(Some(layout_size), None, None, false) == layout_size,
        bounds(Some(layout_size), Some(width), Some(height), false) == (width, height),
{
}

/// The first glyph of a text, of those of its runs, unless there is none.
pub fn first_glyph<G: Copy>(runs: &Vec<Vec<G>>) -> (r: Option<G>)
    ensures
        ({
            let glyphs = runs@.map_values(|run: Vec<G>| run@).flatten();
            r == if glyphs.len() == 0 {
                None
            } else {
                Some(glyphs[0])
            }
        }),
{
    let n = runs.len();
    let ghost views = runs@.map_values(|run: Vec<G>| run@);
    assert(views.take(0).flatten() == Seq::<G>::empty());
    for i in 0..n
        invariant
            n == runs@.len(),
            views == runs@.map_values(|run: Vec<G>| run@),
            views.take(i as int).flatten().len() == 0,
    {
        proof {
            assert(views.take(i + 1) == views.take(i as int).push(views[i as int]));
            views.take(i as int).lemma_flatten_push(views[i as int]);
            assert(views == views.take(i + 1) + views.skip(i + 1));
            vstd::seq_lib::lemma_flatten_concat(views.take(i + 1), views.skip(i + 1));
        }
        if runs[i].len() > 0 {
            return Some(runs[i][0]);
        }
    }
    assert(views.take(n as int) == views);
    None
}

/// The fonts that are already registered, each by the hash of its resource.
pub struct FontCache<F> {
    fonts: HashMap<u64, F>,
}

impl<F> View for FontCache<F> {
    type V = Map<u64, F>;

    closed spec fn view(&self) -> Map<u64, F> {
        self.fonts@
    }
}

/// The first font of the first family, of those that registering a resource gave.
pub open spec fn first_font<I, F>(families: Seq<(I, Vec<F>)>) -> Option<(I, F)> {
    if families.len() > 0 && families[0].1@.len() > 0 {
        Some((families[0].0, families[0].1@[0]))
    } else {
        None
    }
}

impl<F> FontCache<F> {
    /// A cache that holds no font.
    pub fn new() -> (r: Self)
        ensures
            r@ == Map::<u64, F>::empty(),
    {
        FontCache { fonts: HashMap::new() }
    }

    /// The font remembered for a resource.
    pub fn cached(&self, hash: u64) -> (r: Option<&F>)
        ensures
            match r {
                Some(font) => self@.contains_key(hash) && *font == self@[hash],
                None => !self@.contains_key(hash),
            },
    {
        self.fonts.get(&hash)
    }

    /// Remembers a font that was just registered, if its family has a name, and gives that name.
    pub fn remember(&mut self, hash: u64, font: F, family_name: Option<String>) -> (r: Option<
        String,
    >)
        ensures
            r == family_name,
            final(self)@ == if family_name is Some {
                old(self)@.insert(hash, font)
            } else {
                old(self)@
            },
            family_name is Some ==> final(self)@.contains_key(hash) && final(self)@[hash] == font,
    {
        if family_name.is_some() {
            self.fonts.insert(hash, font);
        }
        family_name
    }
}

/// The font that is used without registering its resource again: the one remembered, if its family
/// still has a name.
pub fn reuse_font<F>(cached: Option<F>, family_name: Option<String>) -> (r: Option<(String, F)>)
    ensures
        match (cached, family_name) {
            (Some(font), Some(name)) => r == Some((name, font)),
            _ => r is None,
        },
{
    match (cached, family_name) {
        (Some(font), Some(name)) => Some((name, font)),
        _ => None,
    }
}

/// The font that a registered resource stands for: the first of the first family, if there is one.
pub fn choose_font<I: Copy, F>(families: &Vec<(I, Vec<F>)>) -> (r: Option<(I, &F)>)
    ensures
        match r {
            Some((family, font)) => first_font(families@) == Some((family, *font)),
            None => first_font(families@) is None,
        },
{
    if families.len() == 0 || families[0].1.len() == 0 {
        None
    } else {
        Some((families[0].0, &families[0].1[0]))
    }
}

/// Each side of the bounding box follows its own limit, whatever the other limit is: with a limit it is
/// that, and without one it is that side of the layout. Tested for clipping, the box is that of the
/// layout, whatever the limits are. A text without a layout has no size.
pub proof fn lemma_sides_follow_their_limits(
    layout_size: (Double, Double),
    limit: Double,
    max_width: Option<Double>,
    max_height: Option<Double>,
)
    ensures
        bounds(Some(layout_size), Some(limit), max_height, false).0 == limit,
        bounds(Some(layout_size), None, max_height, false).0 == layout_size.0,
        bounds(Some(layout_size), max_width, Some(limit), false).1 == limit,
        bounds(Some(layout_size), max_width, None, false).1 == layout_size.1,
        bounds(Some(layout_size), max_width, max_height, true) == layout_size,
        bounds(None, max_width, max_height, false) == (Double { bits: 0 }, Double { bits: 0 }),
        bounds(None, max_width, max_height, true) == (Double { bits: 0 }, Double { bits: 0 }),
{
}

/// What is given stands, and the default only where nothing is: so does each side of a frame.
pub proof fn lemma_given_or_default<T>(given: T, default: T)
    ensures
        or_default(Some(given), default) == given,
        or_default(None, default) == default,
{
}

/// The clusters of a line are those of its runs together: one more run adds its own.
pub proof fn lemma_total_grows(counts: Seq<usize>, count: usize)
    ensures
        total(Seq::empty()) == 0,
        total(counts.push(count)) == total(counts) + count,
{
    assert(counts.push(count).drop_last() == counts);
}

/// The font of a resource is the first of its first family, and there is none where that family has
/// none, whatever the others have.
pub proof fn lemma_first_font<I, F>(family: I, fonts: Vec<F>, others: Seq<(I, Vec<F>)>)
    ensures
        first_font(Seq::<(I, Vec<F>)>::empty()) is None,
        fonts@.len() > 0 ==> first_font(seq![(family, fonts)] + others) == Some((family, fonts@[0])),
        fonts@.len() == 0 ==> first_font(seq![(family, fonts)] + others) is None,
{
}

} // verus!
