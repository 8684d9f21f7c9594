//! The alignment of lines of text.

use vstd::prelude::*;

verus! {

/// Alignment of lines of type within a text block.
#[derive(Debug, Clone, Copy, Default, PartialEq, Eq, Hash, Structural)]
pub enum TextAlign {
    #[default]
    AlignLeft,
    AlignCenter,
    AlignRight,
    JustifyLeft,
    JustifyCenter,
    JustifyRight,
    JustifyAll,
}

/// How a line is placed in its column.
#[derive(Debug, Clone, Copy, PartialEq, Eq, Hash)]
pub enum Alignment {
    /// Flush with the left margin.
    Left,
    /// In the middle.
    Center,
    /// Flush with the right margin.
    Right,
    /// Stretched to both margins.
    Justify,
}

impl vstd::std_specs::convert::FromSpecImpl<TextAlign> for Alignment {
    open spec fn obeys_from_spec() -> bool {
        true
    }

    open spec fn from_spec(align: TextAlign) -> Self {
        align.layout_alignment()
    }
}

/// The alignment a block is laid out with. The justified modes lay out left-aligned, because their
/// lines are fitted afterwards within limits that a layout's own justification cannot express.
impl From<TextAlign> for Alignment {
    fn from(align: TextAlign) -> (r: Self) {
        match align {
            TextAlign::AlignCenter => Alignment::Center,
            TextAlign::AlignRight => Alignment::Right,
            _ => Alignment::Left,
        }
    }
}

impl TextAlign {
    /// The alignment a block is laid out with.
    pub open spec fn layout_alignment(self) -> Alignment {
        match self {
            TextAlign::AlignCenter => Alignment::Center,
            TextAlign::AlignRight => Alignment::Right,
            _ => Alignment::Left,
        }
    }

    /// Whether lines of this alignment are stretched to fill the column width.
    pub open spec fn justified(self) -> bool {
        self is JustifyLeft || self is JustifyCenter || self is JustifyRight || self is JustifyAll
    }

    /// How the last line of a paragraph is placed, where it does not stay as it was laid out.
    pub open spec fn correction(self) -> Option<Alignment> {
        match self {
            TextAlign::JustifyCenter => Some(Alignment::Center),
            TextAlign::JustifyRight => Some(Alignment::Right),
            TextAlign::JustifyAll => Some(Alignment::Justify),
            _ => None,
        }
    }

    /// The CSS values of `text-align` and `text-align-last`.
    pub open spec fn css_values(self) -> (Seq<char>, Seq<char>) {
        match self {
            TextAlign::AlignLeft => ("left"@, "auto"@),
            TextAlign::AlignCenter => ("center"@, "auto"@),
            TextAlign::AlignRight => ("right"@, "auto"@),
            TextAlign::JustifyLeft => ("justify"@, "auto"@),
            TextAlign::JustifyCenter => ("justify"@, "center"@),
            TextAlign::JustifyRight => ("justify"@, "right"@),
            TextAlign::JustifyAll => ("justify"@, "justify"@),
        }
    }

    /// Whether lines of this alignment are stretched to fill the column width, and so are fitted
    /// within the ranges of a justification.
    pub fn is_justified(self) -> (r: bool)
        ensures
            r == self.justified(),
    {
        matches!(
            self,
            TextAlign::JustifyLeft | TextAlign::JustifyCenter | TextAlign::JustifyRight
                | TextAlign::JustifyAll
        )
    }

    /// How the last line of a paragraph is placed, or `None` if it is simply left where the layout
    /// put it.
    ///
    /// `JustifyLeft` returns `None` because its last line stays flush left. The other justify modes
    /// need it shifted (`Center`/`Right`) or fitted to the full column width like any other line
    /// (`Justify`, for `JustifyAll`).
    pub fn last_line_correction(self) -> (r: Option<Alignment>)
        ensures
            r == self.correction(),
    {
        match self {
            TextAlign::JustifyCenter => Some(Alignment::Center),
            TextAlign::JustifyRight => Some(Alignment::Right),
            TextAlign::JustifyAll => Some(Alignment::Justify),
            _ => None,
        }
    }

    /// CSS `(text-align, text-align-last)` values approximating this alignment for an editable text
    /// overlay.
    pub fn css(self) -> (r: (&'static str, &'static str))
        ensures
            (r.0@, r.1@) == self.css_values(),
    {
        match self {
            TextAlign::AlignLeft => ("left", "auto"),
            TextAlign::AlignCenter => ("center", "auto"),
            TextAlign::AlignRight => ("right", "auto"),
            TextAlign::JustifyLeft => ("justify", "auto"),
            TextAlign::JustifyCenter => ("justify", "center"),
            TextAlign::JustifyRight => ("justify", "right"),
            TextAlign::JustifyAll => ("justify", "justify"),
        }
    }
}

/// Only justified alignments correct the last line of a paragraph, and exactly they are justified in
/// CSS. None of them is justified by the layout, which leaves them flush left.
pub proof fn lemma_justified_alignments(align: TextAlign)
    ensures
        align.correction() is Some ==> align.justified(),
        align.justified() <==> align.css_values().0 == "justify"@,
        align.justified() ==> align.layout_alignment() == Alignment::Left,
        align.layout_alignment() != Alignment::Justify,
{
    reveal_strlit("left");
    reveal_strlit("center");
    reveal_strlit("right");
    reveal_strlit("justify");
    assert("left"@.len() == 4);
    assert("center"@.len() == 6);
    assert("right"@.len() == 5);
    assert("justify"@.len() == 7);
}

} // verus!
