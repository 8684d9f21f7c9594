//! What is decided about the lines of a laid-out text: where each stands in its column, and which of
//! its glyphs share the extra spacing of a fitted line.

use crate::align::{Alignment, TextAlign};
use crate::strings::{trim_text, trimmed_end};
use vstd::prelude::*;
use vstd::utf8::{decode_utf8, encode_utf8, is_char_boundary};

verus! {

/// The range of a line, in bytes of the text.
#[derive(Debug, Clone, Copy, PartialEq, Eq)]
pub struct LineRange {
    pub start: usize,
    pub end: usize,
}

/// One cluster of glyphs of a line.
#[derive(Debug, Clone, Copy, PartialEq, Eq)]
pub struct Cluster {
    /// The byte of the text at which the cluster starts.
    pub start: usize,
    /// Whether the cluster is a space, or one that does not break.
    pub is_space: bool,
}

/// How a line is placed in its column.
#[derive(Debug, Clone, Copy, PartialEq, Eq)]
pub enum LinePlacement {
    /// As it was laid out.
    AsLaidOut,
    /// In the middle of the column.
    Centered,
    /// At the right margin.
    FlushRight,
    /// Fitted to the width of the column, its extra spacing shared over spaces and over gaps between
    /// glyphs.
    Fitted { spaces: usize, gaps: usize },
}

/// What is decided about a line that is drawn.
#[derive(Debug, Clone, Copy, PartialEq, Eq)]
pub struct LinePlan {
    pub placement: LinePlacement,
    /// The byte of the text at which the white space begins that hangs past the margin.
    pub visible_end: usize,
}

/// The part of a text in a range of bytes, unless the range leaves the text or cuts a character.
pub open spec fn range_text(text: Seq<char>, range: LineRange) -> Option<Seq<char>> {
    let bytes = encode_utf8(text);
    if range.start <= range.end <= bytes.len() && is_char_boundary(bytes, range.start as int)
        && is_char_boundary(bytes, range.end as int) {
        Some(decode_utf8(bytes.subrange(range.start as int, range.end as int)))
    } else {
        None
    }
}

/// The text of a line, or none where its range gives none.
pub open spec fn line_text(text: Seq<char>, range: LineRange) -> Seq<char> {
    match range_text(text, range) {
        Some(line) => line,
        None => Seq::empty(),
    }
}

/// Whether a line ends a paragraph: it ends the text, or it ends with a line break.
pub open spec fn ends_paragraph(text: Seq<char>, range: LineRange) -> bool {
    ||| range.end == encode_utf8(text).len()
    ||| line_text(text, range).len() > 0 && line_text(text, range).last() == '\n'
}

/// How a line is placed, where it does not stay as laid out. Only justified alignments fill the
/// column; the last line of each of their paragraphs takes the correction that its mode asks for.
pub open spec fn line_correction(align: TextAlign, last: bool) -> Option<Alignment> {
    if !align.justified() {
        None
    } else if !last {
        Some(Alignment::Justify)
    } else {
        align.correction()
    }
}

/// Where the white space that a line ends with begins.
pub open spec fn visible_end(text: Seq<char>, range: LineRange) -> int {
    let line = line_text(text, range);
    range.end - (encode_utf8(line).len() - encode_utf8(trimmed_end(line)).len())
}

/// How many clusters start before `visible_end`.
pub open spec fn fitted_glyphs(clusters: Seq<Cluster>, visible_end: int) -> nat {
    clusters.filter(|c: Cluster| c.start < visible_end).len()
}

/// How many spaces start before `visible_end`.
pub open spec fn fitted_spaces(clusters: Seq<Cluster>, visible_end: int) -> nat {
    clusters.filter(|c: Cluster| c.start < visible_end && c.is_space).len()
}

/// The clusters of all the runs of a line.
pub open spec fn line_clusters(runs: Seq<Vec<Cluster>>) -> Seq<Cluster> {
    runs.map_values(|run: Vec<Cluster>| run@).flatten()
}

/// What is decided about a line that is drawn.
pub open spec fn line_plan(
    text: Seq<char>,
    align: TextAlign,
    range: LineRange,
    clusters: Seq<Cluster>,
) -> LinePlan {
    let end = visible_end(text, range);
    let placement = match line_correction(align, ends_paragraph(text, range)) {
        None => LinePlacement::AsLaidOut,
        Some(Alignment::Center) => LinePlacement::Centered,
        Some(Alignment::Right) => LinePlacement::FlushRight,
        Some(_) => {
            let glyphs = fitted_glyphs(clusters, end);
            LinePlacement::Fitted {
                spaces: fitted_spaces(clusters, end) as usize,
                gaps: if glyphs > 0 {
                    (glyphs - 1) as usize
                } else {
                    0
                },
            }
        },
    };
    LinePlan { placement, visible_end: end as usize }
}

/// Two texts after one another are encoded one after another.
proof fn lemma_encode_concat(a: Seq<char>, b: Seq<char>)
    ensures
        encode_utf8(a + b) == encode_utf8(a) + encode_utf8(b),
    decreases a.len(),
{
    if a.len() == 0 {
        assert(a + b == b);
    } else {
        lemma_encode_concat(a.drop_first(), b);
        assert((a + b).drop_first() == a.drop_first() + b);
    }
}

/// What is left of a text without the white space at its end is how the text begins.
proof fn lemma_trimmed_end_prefix(text: Seq<char>)
    ensures
        trimmed_end(text).len() <= text.len(),
        trimmed_end(text) == text.take(trimmed_end(text).len() as int),
    decreases text.len(),
{
    if text.len() > 0 && crate::text::white_space(text.last()) {
        lemma_trimmed_end_prefix(text.drop_last());
    } else {
        assert(text.take(text.len() as int) == text);
    }
}

/// The white space at the end of a line begins within the text, and not behind the end of the line. A
/// line that does not end with white space is visible to its end.
pub proof fn lemma_visible_end(text: Seq<char>, range: LineRange)
    ensures
        0 <= visible_end(text, range) <= range.end,
        line_text(text, range).len() > 0 && !crate::text::white_space(line_text(text, range).last())
            ==> visible_end(text, range) == range.end,
{
    let bytes = encode_utf8(text);
    let line = line_text(text, range);
    let kept = trimmed_end(line);
    lemma_trimmed_end_prefix(line);
    assert(line == kept + line.skip(kept.len() as int));
    lemma_encode_concat(kept, line.skip(kept.len() as int));
    if range_text(text, range) is Some {
        lemma_range_encoding(text, range);
        assert(encode_utf8(line).len() == range.end - range.start);
    } else {
        assert(encode_utf8(line).len() == 0);
    }
}

/// The bytes of a range of a text encode the text of that range.
proof fn lemma_range_encoding(text: Seq<char>, range: LineRange)
    requires
        range_text(text, range) is Some,
    ensures
        ({
            let bytes = encode_utf8(text);
            let tail = bytes.subrange(range.start as int, bytes.len() as int);
            &&& vstd::utf8::valid_utf8(bytes)
            &&& vstd::utf8::valid_utf8(tail)
            &&& is_char_boundary(tail, range.end - range.start)
            &&& tail.subrange(0, range.end - range.start) == bytes.subrange(
                range.start as int,
                range.end as int,
            )
            &&& encode_utf8(line_text(text, range)) == bytes.subrange(
                range.start as int,
                range.end as int,
            )
        }),
{
    let bytes = encode_utf8(text);
    let start = range.start as int;
    let end = range.end as int;
    let tail = bytes.subrange(start, bytes.len() as int);
    vstd::utf8::encode_utf8_valid_utf8(text);
    vstd::utf8::valid_utf8_split(bytes, start);
    if end < bytes.len() {
        vstd::utf8::is_char_boundary_iff_not_is_continuation_byte(bytes, end);
        vstd::utf8::is_char_boundary_iff_not_is_continuation_byte(tail, end - start);
        assert(tail[end - start] == bytes[end]);
    } else {
        vstd::utf8::is_char_boundary_start_end_of_seq(tail);
    }
    assert(tail.subrange(0, end - start) == bytes.subrange(start, end));
    vstd::utf8::valid_utf8_split(tail, end - start);
    vstd::utf8::decode_utf8_encode_utf8(bytes.subrange(start, end));
}

/// The part of a text in a range of bytes, unless the range leaves the text or cuts a character.
pub fn text_in_range(text: &str, range: LineRange) -> (r: Option<&str>)
    ensures
        match range_text(text@, range) {
            Some(line) => r matches Some(s) && s@ == line,
            None => r is None,
        },
{
    let n = text.as_bytes().len();
    if range.start <= range.end && range.end <= n && text.is_char_boundary(range.start)
        && text.is_char_boundary(range.end) {
        proof {
            lemma_range_encoding(text@, range);
        }
        let tail = text.split_at(range.start).1;
        let line = tail.split_at(range.end - range.start).0;
        proof {
            vstd::utf8::encode_utf8_decode_utf8(line@);
        }
        Some(line)
    } else {
        None
    }
}

/// Counts the space glyphs and glyphs of `clusters` that a fitted line shares its extra spacing
/// over, skipping the trailing whitespace that hangs past the margin.
pub fn count_fitted(clusters: &Vec<Cluster>, visible_end: usize) -> (r: (usize, usize))
    ensures
        r.0 == fitted_spaces(clusters@, visible_end as int),
        r.1 == fitted_glyphs(clusters@, visible_end as int),
        r.0 <= r.1 <= clusters@.len(),
{
    let n = clusters.len();
    let mut spaces: usize = 0;
    let mut glyphs: usize = 0;
    let ghost drawn = |c: Cluster| c.start < visible_end;
    let ghost drawn_space = |c: Cluster| c.start < visible_end && c.is_space;
    assert(clusters@.take(0) == Seq::<Cluster>::empty());
    reveal(Seq::filter);
    for i in 0..n
        invariant
            n == clusters@.len(),
            spaces <= glyphs <= i,
            drawn == (|c: Cluster| c.start < visible_end),
            drawn_space == (|c: Cluster| c.start < visible_end && c.is_space),
            glyphs == clusters@.take(i as int).filter(drawn).len(),
            spaces == clusters@.take(i as int).filter(drawn_space).len(),
    {
        reveal(Seq::filter);
        assert(clusters@.take(i + 1).drop_last() == clusters@.take(i as int));
        if clusters[i].start < visible_end {
            glyphs = glyphs + 1;
            if clusters[i].is_space {
                spaces = spaces + 1;
            }
        }
    }
    assert(clusters@.take(n as int) == clusters@);
    (spaces, glyphs)
}

/// The same, over all the runs of a line.
fn count_line(runs: &Vec<Vec<Cluster>>, visible_end: usize) -> (r: (usize, usize))
    requires
        line_clusters(runs@).len() <= usize::MAX,
    ensures
        r.0 == fitted_spaces(line_clusters(runs@), visible_end as int),
        r.1 == fitted_glyphs(line_clusters(runs@), visible_end as int),
{
    let n = runs.len();
    let mut spaces: usize = 0;
    let mut glyphs: usize = 0;
    let ghost views = runs@.map_values(|run: Vec<Cluster>| run@);
    let ghost drawn = |c: Cluster| c.start < visible_end;
    let ghost drawn_space = |c: Cluster| c.start < visible_end && c.is_space;
    proof {
        reveal(Seq::filter);
        assert(views.take(0).flatten() == Seq::<Cluster>::empty());
    }
    for i in 0..n
        invariant
            n == runs@.len(),
            line_clusters(runs@).len() <= usize::MAX,
            views == runs@.map_values(|run: Vec<Cluster>| run@),
            drawn == (|c: Cluster| c.start < visible_end),
            drawn_space == (|c: Cluster| c.start < visible_end && c.is_space),
            spaces <= glyphs <= views.take(i as int).flatten().len(),
            glyphs == views.take(i as int).flatten().filter(drawn).len(),
            spaces == views.take(i as int).flatten().filter(drawn_space).len(),
    {
        let (run_spaces, run_glyphs) = count_fitted(&runs[i], visible_end);
        proof {
            let before = views.take(i as int);
            let upto = views.take(i + 1);
            assert(upto == before.push(views[i as int]));
            before.lemma_flatten_push(views[i as int]);
            Seq::filter_distributes_over_add(before.flatten(), views[i as int], drawn);
            Seq::filter_distributes_over_add(before.flatten(), views[i as int], drawn_space);
            assert(views == upto + views.skip(i + 1));
            vstd::seq_lib::lemma_flatten_concat(upto, views.skip(i + 1));
        }
        spaces = spaces + run_spaces;
        glyphs = glyphs + run_glyphs;
    }
    assert(views.take(n as int) == views);
    (spaces, glyphs)
}

/// Decides how one line of a laid-out text is drawn, or that it is not, because it lies past the
/// height of its block.
///
/// The white space that the line ends with hangs past the margin: it counts towards neither the
/// fitted width nor the items sharing the extra spacing. Extra letter spacing lands in the gaps
/// between glyphs, one fewer than the glyphs themselves.
pub fn plan_line(
    text: &str,
    align: TextAlign,
    range: LineRange,
    runs: &Vec<Vec<Cluster>>,
    past_max_height: bool,
) -> (r: Option<LinePlan>)
    requires
        line_clusters(runs@).len() <= usize::MAX,
    ensures
        r == if past_max_height {
            None
        } else {
            Some(line_plan(text@, align, range, line_clusters(runs@)))
        },
{
    if past_max_height {
        return None;
    }
    let n = text.as_bytes().len();
    let line = match text_in_range(text, range) {
        Some(line) => line,
        None => "",
    };
    proof {
        reveal_strlit("");
        assert(line@ == line_text(text@, range));
        lemma_visible_end(text@, range);
        lemma_trimmed_end_prefix(line@);
        let kept = trimmed_end(line@);
        assert(line@ == kept + line@.skip(kept.len() as int));
        lemma_encode_concat(kept, line@.skip(kept.len() as int));
    }
    let kept = trim_text(line, false, true);
    let hanging = line.as_bytes().len() - kept.as_str().as_bytes().len();
    let visible_end = range.end - hanging;
    let count = line.unicode_len();
    let last = range.end == n || (count > 0 && line.get_char(count - 1) == '\n');
    let correction = if !align.is_justified() {
        None
    } else if !last {
        Some(Alignment::Justify)
    } else {
        align.last_line_correction()
    };
    let placement = match correction {
        None => LinePlacement::AsLaidOut,
        Some(Alignment::Center) => LinePlacement::Centered,
        Some(Alignment::Right) => LinePlacement::FlushRight,
        Some(_) => {
            let (spaces, glyphs) = count_line(runs, visible_end);
            LinePlacement::Fitted { spaces, gaps: glyphs.saturating_sub(1) }
        },
    };
    Some(LinePlan { placement, visible_end })
}

/// Only justified alignments move a line from where it was laid out. Their lines are fitted to the
/// column, but for the last of each paragraph: that one is fitted where all lines are to be, and
/// otherwise centered, flush right or left where it was.
pub proof fn lemma_placements(
    text: Seq<char>,
    align: TextAlign,
    range: LineRange,
    clusters: Seq<Cluster>,
)
    ensures
        ({
            let placement = line_plan(text, align, range, clusters).placement;
            let last = ends_paragraph(text, range);
            &&& placement is Fitted <==> align.justified() && (!last || align is JustifyAll)
            &&& placement is Centered <==> last && align is JustifyCenter
            &&& placement is FlushRight <==> last && align is JustifyRight
            &&& placement is AsLaidOut <==> !align.justified() || (last && align is JustifyLeft)
        }),
{
}

/// What a line shares its extra spacing over is what its runs do, together.
pub proof fn lemma_runs_share(first: Seq<Cluster>, rest: Seq<Cluster>, visible_end: int)
    ensures
        fitted_glyphs(first + rest, visible_end) == fitted_glyphs(first, visible_end)
            + fitted_glyphs(rest, visible_end),
        fitted_spaces(first + rest, visible_end) == fitted_spaces(first, visible_end)
            + fitted_spaces(rest, visible_end),
{
    Seq::filter_distributes_over_add(first, rest, |c: Cluster| c.start < visible_end);
    Seq::filter_distributes_over_add(first, rest, |c: Cluster| c.start < visible_end && c.is_space);
}

/// A fitted line shares its extra spacing over every cluster of it that is a space and starts before the
/// white space at its end, and over the gaps between all of its clusters that do: one fewer than them,
/// and none where there is none.
pub proof fn lemma_fitted_counts(
    text: Seq<char>,
    align: TextAlign,
    range: LineRange,
    clusters: Seq<Cluster>,
)
    requires
        clusters.len() <= usize::MAX,
    ensures
        ({
            let plan = line_plan(text, align, range, clusters);
            let end = plan.visible_end;
            let glyphs = clusters.filter(|c: Cluster| c.start < end).len();
            let spaces = clusters.filter(|c: Cluster| c.start < end && c.is_space).len();
            &&& end == visible_end(text, range)
            &&& plan.placement matches LinePlacement::Fitted { spaces: s, gaps: g } ==> {
                &&& s == spaces
                &&& glyphs > 0 ==> g + 1 == glyphs
                &&& glyphs == 0 ==> g == 0
                &&& spaces == fitted_spaces(clusters, end as int)
                &&& glyphs == fitted_glyphs(clusters, end as int)
            }
        }),
{
    lemma_visible_end(text, range);
    let plan = line_plan(text, align, range, clusters);
    let end = plan.visible_end;
    let v = visible_end(text, range);
    assert(end == v);
    let drawn = |c: Cluster| c.start < end;
    let space = |c: Cluster| c.start < end && c.is_space;
    lemma_filter_len(clusters, drawn);
    lemma_filter_len(clusters, space);
    assert((|c: Cluster| c.start < v) =~= drawn);
    assert((|c: Cluster| c.start < v && c.is_space) =~= space);
}

/// Of a list no more is left than it holds.
proof fn lemma_filter_len(clusters: Seq<Cluster>, wanted: spec_fn(Cluster) -> bool)
    ensures
        clusters.filter(wanted).len() <= clusters.len(),
    decreases clusters.len(),
{
    reveal(Seq::filter);
    if clusters.len() > 0 {
        lemma_filter_len(clusters.drop_last(), wanted);
    }
}

/// One more cluster adds a glyph where it starts before the end, and a space where it is one too.
pub proof fn lemma_fitted_counts_grow(clusters: Seq<Cluster>, cluster: Cluster, end: int)
    ensures
        fitted_glyphs(Seq::empty(), end) == 0,
        fitted_spaces(Seq::empty(), end) == 0,
        fitted_glyphs(clusters.push(cluster), end) == fitted_glyphs(clusters, end) + if cluster.start
            < end {
            1int
        } else {
            0
        },
        fitted_spaces(clusters.push(cluster), end) == fitted_spaces(clusters, end) + if cluster.start
            < end && cluster.is_space {
            1int
        } else {
            0
        },
{
    reveal(Seq::filter);
    assert(clusters.push(cluster).drop_last() == clusters);
}

/// The beginning of a text ends where a character does.
proof fn lemma_boundary(before: Seq<char>, behind: Seq<char>)
    ensures
        encode_utf8(before + behind) == encode_utf8(before) + encode_utf8(behind),
        vstd::utf8::valid_utf8(encode_utf8(before + behind)),
        is_char_boundary(encode_utf8(before + behind), encode_utf8(before).len() as int),
    decreases before.len(),
{
    let all = before + behind;
    let bytes = encode_utf8(all);
    lemma_encode_concat(before, behind);
    vstd::utf8::encode_utf8_valid_utf8(all);
    if before.len() > 0 {
        let rest = before.drop_first();
        assert(all.drop_first() == rest + behind);
        lemma_boundary(rest, behind);
        vstd::utf8::encode_utf8_first_scalar(all);
        let first = vstd::utf8::encode_scalar(all[0] as u32);
        assert(encode_utf8(all) == first + encode_utf8(rest + behind));
        assert(encode_utf8(before) == first + encode_utf8(rest));
        assert(vstd::utf8::pop_first_scalar(bytes) =~= encode_utf8(rest + behind));
    }
}

/// A line, as far as it is visible and with the white space behind that, is the part of the text that
/// its range of bytes stands for. It ends a paragraph where nothing comes behind it or where it ends
/// with a line break, and is visible up to its white space.
pub proof fn lemma_line_of_text(
    before: Seq<char>,
    shown: Seq<char>,
    hanging: Seq<char>,
    behind: Seq<char>,
    range: LineRange,
)
    requires
        shown.len() > 0 ==> !crate::text::white_space(shown.last()),
        forall|i: int|
            0 <= i < hanging.len() ==> crate::text::white_space(#[trigger] hanging[i]),
        range.start == encode_utf8(before).len(),
        range.end == encode_utf8(before + (shown + hanging)).len(),
    ensures
        ({
            let text = before + (shown + hanging) + behind;
            let line = shown + hanging;
            &&& range_text(text, range) == Some(line)
            &&& visible_end(text, range) == encode_utf8(before + shown).len()
            &&& ends_paragraph(text, range) <==> behind.len() == 0 || (line.len() > 0 && line.last()
                == '\n')
        }),
{
    let line = shown + hanging;
    let text = before + line + behind;
    let bytes = encode_utf8(text);
    assert(text == before + (line + behind));
    lemma_boundary(before, line + behind);
    lemma_boundary(before + line, behind);
    lemma_encode_concat(before, line);
    lemma_encode_concat(line, behind);
    lemma_encode_concat(before, shown);
    lemma_encode_concat(shown, hanging);
    assert(bytes.subrange(range.start as int, range.end as int) =~= encode_utf8(line));
    vstd::utf8::encode_utf8_decode_utf8(line);
    assert(range_text(text, range) == Some(line));
    lemma_trimmed_hanging(shown, hanging);
    if behind.len() > 0 {
        lemma_encoded_len(behind);
    }
}

/// The white space behind a text that does not end with any is what is trimmed at its end.
proof fn lemma_trimmed_hanging(shown: Seq<char>, hanging: Seq<char>)
    requires
        shown.len() > 0 ==> !crate::text::white_space(shown.last()),
        forall|i: int|
            0 <= i < hanging.len() ==> crate::text::white_space(#[trigger] hanging[i]),
    ensures
        trimmed_end(shown + hanging) == shown,
    decreases hanging.len(),
{
    let line = shown + hanging;
    if hanging.len() > 0 {
        let fewer = hanging.drop_last();
        assert forall|i: int| 0 <= i < fewer.len() implies crate::text::white_space(
            #[trigger] fewer[i],
        ) by {
            assert(fewer[i] == hanging[i]);
        }
        assert(line.last() == hanging[hanging.len() - 1]);
        assert(line.drop_last() == shown + fewer);
        lemma_trimmed_hanging(shown, fewer);
    } else {
        assert(line == shown);
    }
}

/// Every character takes a byte or more.
pub(crate) proof fn lemma_encoded_len(text: Seq<char>)
    ensures
        text.len() <= encode_utf8(text).len(),
    decreases text.len(),
{
    if text.len() > 0 {
        lemma_encoded_len(text.drop_first());
    }
}

/// A line whose range leaves the text, runs backwards or cuts a character has no text, so all of it is
/// visible, and it ends a paragraph only where it ends the text.
pub proof fn lemma_line_without_text(text: Seq<char>, range: LineRange)
    ensures
        range.start > range.end || range.end > encode_utf8(text).len() || !is_char_boundary(
            encode_utf8(text),
            range.start as int,
        ) || !is_char_boundary(encode_utf8(text), range.end as int) ==> {
            &&& range_text(text, range) is None
            &&& visible_end(text, range) == range.end
            &&& ends_paragraph(text, range) <==> range.end == encode_utf8(text).len()
        },
{
}

/// The clusters of a line are those of all of its runs, in their order: one more run adds its own.
pub proof fn lemma_line_clusters_grow(runs: Seq<Vec<Cluster>>, run: Vec<Cluster>)
    ensures
        line_clusters(Seq::empty()).len() == 0,
        line_clusters(runs.push(run)) == line_clusters(runs) + run@,
{
    let view = |run: Vec<Cluster>| run@;
    assert(Seq::<Vec<Cluster>>::empty().map_values(view) == Seq::<Seq<Cluster>>::empty());
    assert(runs.push(run).map_values(view) == runs.map_values(view).push(run@));
    runs.map_values(view).lemma_flatten_push(run@);
}

} // verus!
