use text_nodes::align::{Alignment, TextAlign};
use text_nodes::layout::{
    count_fitted, plan_line, text_in_range, Cluster, LinePlacement, LinePlan, LineRange,
};
use TextAlign::{
    AlignCenter, AlignLeft, AlignRight, JustifyAll, JustifyCenter, JustifyLeft, JustifyRight,
};

const ALL: [TextAlign; 7] =
    [AlignLeft, AlignCenter, AlignRight, JustifyLeft, JustifyCenter, JustifyRight, JustifyAll];

/// One cluster for each byte of a range of a text.
fn clusters(text: &str, range: LineRange) -> Vec<Cluster> {
    (range.start..range.end)
        .map(|start| Cluster { start, is_space: text.as_bytes()[start] == b' ' })
        .collect()
}

fn plan(text: &str, align: TextAlign, start: usize, end: usize) -> LinePlan {
    let range = LineRange { start, end };
    let all = clusters(text, range);
    // Two runs, so that what is counted is counted over both.
    let middle = all.len() / 2;
    let runs = vec![all[..middle].to_vec(), all[middle..].to_vec()];
    plan_line(text, align, range, &runs, false).unwrap()
}

#[test]
fn justified_alignments_are_the_four_that_fill_the_column() {
    let justified: Vec<TextAlign> = ALL.into_iter().filter(|align| align.is_justified()).collect();
    assert_eq!(justified, [JustifyLeft, JustifyCenter, JustifyRight, JustifyAll]);
    assert_eq!(TextAlign::default(), AlignLeft);
}

#[test]
fn last_lines_are_corrected_by_their_mode() {
    let corrections: Vec<Option<Alignment>> =
        ALL.into_iter().map(|align| align.last_line_correction()).collect();
    assert_eq!(
        corrections,
        [
            None,
            None,
            None,
            None,
            Some(Alignment::Center),
            Some(Alignment::Right),
            Some(Alignment::Justify)
        ]
    );
}

#[test]
fn css_values_approximate_each_alignment() {
    assert_eq!(AlignLeft.css(), ("left", "auto"));
    assert_eq!(AlignCenter.css(), ("center", "auto"));
    assert_eq!(AlignRight.css(), ("right", "auto"));
    assert_eq!(JustifyLeft.css(), ("justify", "auto"));
    assert_eq!(JustifyCenter.css(), ("justify", "center"));
    assert_eq!(JustifyRight.css(), ("justify", "right"));
    assert_eq!(JustifyAll.css(), ("justify", "justify"));
}

#[test]
fn justified_blocks_are_laid_out_flush_left() {
    let alignments: Vec<Alignment> = ALL.into_iter().map(Alignment::from).collect();
    assert_eq!(
        alignments,
        [
            Alignment::Left,
            Alignment::Center,
            Alignment::Right,
            Alignment::Left,
            Alignment::Left,
            Alignment::Left,
            Alignment::Left
        ]
    );
}

#[test]
fn lines_of_other_alignments_stay_as_laid_out() {
    for align in [AlignLeft, AlignCenter, AlignRight] {
        assert_eq!(plan("one two three", align, 0, 8).placement, LinePlacement::AsLaidOut);
        assert_eq!(plan("one two three", align, 8, 13).placement, LinePlacement::AsLaidOut);
    }
}

#[test]
fn justified_lines_share_their_spacing_over_what_is_visible() {
    // The space behind "two" hangs past the margin.
    for align in [JustifyLeft, JustifyCenter, JustifyRight, JustifyAll] {
        assert_eq!(
            plan("one two three", align, 0, 8),
            LinePlan { placement: LinePlacement::Fitted { spaces: 1, gaps: 6 }, visible_end: 7 }
        );
    }
}

#[test]
fn the_last_line_of_a_text_takes_its_correction() {
    let placement = |align| plan("one two three", align, 8, 13).placement;
    assert_eq!(placement(JustifyLeft), LinePlacement::AsLaidOut);
    assert_eq!(placement(JustifyCenter), LinePlacement::Centered);
    assert_eq!(placement(JustifyRight), LinePlacement::FlushRight);
    assert_eq!(placement(JustifyAll), LinePlacement::Fitted { spaces: 0, gaps: 4 });
}

#[test]
fn a_line_break_ends_a_paragraph() {
    let plan_of = |align| plan("one two\nthree", align, 0, 8);
    assert_eq!(plan_of(JustifyLeft).placement, LinePlacement::AsLaidOut);
    assert_eq!(plan_of(JustifyCenter).placement, LinePlacement::Centered);
    assert_eq!(
        plan_of(JustifyAll),
        LinePlan { placement: LinePlacement::Fitted { spaces: 1, gaps: 6 }, visible_end: 7 }
    );
}

#[test]
fn lines_past_the_height_of_the_block_are_not_drawn() {
    let range = LineRange { start: 0, end: 3 };
    assert_eq!(plan_line("abc", JustifyAll, range, &vec![], true), None);
}

#[test]
fn a_line_of_white_space_has_no_gaps() {
    assert_eq!(
        plan("   x", JustifyAll, 0, 3),
        LinePlan { placement: LinePlacement::Fitted { spaces: 0, gaps: 0 }, visible_end: 0 }
    );
}

#[test]
fn hanging_white_space_is_measured_in_bytes() {
    // An ideographic space takes three bytes.
    assert_eq!(plan("é\u{3000}x", JustifyLeft, 0, 5).visible_end, 2);
}

#[test]
fn ranges_that_cut_a_character_have_no_text() {
    assert_eq!(text_in_range("aé", LineRange { start: 0, end: 2 }), None);
    assert_eq!(text_in_range("aé", LineRange { start: 2, end: 3 }), None);
    assert_eq!(text_in_range("aé", LineRange { start: 1, end: 3 }), Some("é"));
    assert_eq!(text_in_range("aé", LineRange { start: 0, end: 4 }), None);
    assert_eq!(text_in_range("aé", LineRange { start: 3, end: 1 }), None);
    assert_eq!(text_in_range("aé", LineRange { start: 3, end: 3 }), Some(""));
}

#[test]
fn clusters_behind_the_visible_end_are_not_counted() {
    let text = "a b c  ";
    let all = clusters(text, LineRange { start: 0, end: 7 });
    assert_eq!(count_fitted(&all, 5), (2, 5));
    assert_eq!(count_fitted(&all, 7), (4, 7));
    assert_eq!(count_fitted(&all, 0), (0, 0));
    let (first, rest) = (all[..3].to_vec(), all[3..].to_vec());
    let (a, b) = (count_fitted(&first, 5), count_fitted(&rest, 5));
    assert_eq!((a.0 + b.0, a.1 + b.1), (2, 5));
}
