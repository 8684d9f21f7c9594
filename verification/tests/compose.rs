use text_nodes::align::TextAlign;
use text_nodes::compose::{
    bounding_box, choose_font, clusters_per_line, first_glyph, frame_size, line_breaking,
    lines_clipping, reuse_font, FontCache, LineBreaking,
};
use text_nodes::spacing::Double;

fn double(value: f64) -> Double {
    Double { bits: value.to_bits() }
}

fn size(width: f64, height: f64) -> (Double, Double) {
    (double(width), double(height))
}

#[test]
fn only_justified_text_of_limited_width_breaks_as_its_narrowest() {
    assert_eq!(line_breaking(TextAlign::JustifyLeft, true), LineBreaking::AsNarrowest);
    assert_eq!(line_breaking(TextAlign::JustifyAll, true), LineBreaking::AsNarrowest);
    assert_eq!(line_breaking(TextAlign::JustifyLeft, false), LineBreaking::AsLaidOut);
    assert_eq!(line_breaking(TextAlign::AlignCenter, true), LineBreaking::AsLaidOut);
}

#[test]
fn clusters_of_the_runs_of_a_line_add_up() {
    assert_eq!(clusters_per_line(&vec![vec![3, 4], vec![], vec![5]]), [7, 0, 5]);
    assert_eq!(clusters_per_line(&vec![vec![0xffff_ffff, 3]]), [2]);
}

#[test]
fn a_frame_is_the_limits_or_the_layout() {
    assert_eq!(frame_size(Some(double(10.)), None, size(3., 4.)), size(10., 4.));
    assert_eq!(frame_size(None, Some(double(20.)), size(3., 4.)), size(3., 20.));
}

#[test]
fn bounding_boxes_are_the_limits_unless_tested_for_clipping() {
    let (width, height) = (Some(double(10.)), Some(double(20.)));
    assert_eq!(bounding_box(Some(size(3., 4.)), width, height, false), size(10., 20.));
    assert_eq!(bounding_box(Some(size(3., 4.)), width, height, true), size(3., 4.));
    assert_eq!(bounding_box(Some(size(3., 4.)), None, None, false), size(3., 4.));
    assert_eq!(bounding_box(None, width, height, false), size(0., 0.));
}

#[test]
fn lines_clip_where_the_layout_is_higher_than_its_limit() {
    let layout = Some(size(3., 40.));
    assert!(lines_clipping(layout, None, Some(double(39.))));
    assert!(!lines_clipping(layout, None, Some(double(40.))));
    assert!(!lines_clipping(layout, None, None));
    assert!(!lines_clipping(None, None, Some(double(1.))));
    assert!(lines_clipping(None, None, Some(double(-1.))));
    assert!(!lines_clipping(layout, None, Some(double(f64::NAN))));
}

#[test]
fn the_first_glyph_is_that_of_the_first_run_with_one() {
    assert_eq!(first_glyph(&vec![vec![], vec![5, 6], vec![7]]), Some(5));
    assert_eq!(first_glyph::<u8>(&vec![vec![], vec![]]), None);
}

#[test]
fn remembered_fonts_are_found_again() {
    let mut cache: FontCache<&str> = FontCache::new();
    assert_eq!(cache.cached(1), None);
    assert_eq!(cache.remember(1, "sans", Some("Family".to_string())), Some("Family".to_string()));
    assert_eq!(cache.cached(1), Some(&"sans"));
    assert_eq!(cache.cached(2), None);
    assert_eq!(cache.remember(2, "serif", None), None);
    assert_eq!(cache.cached(2), None);
    cache.remember(1, "mono", Some("Other".to_string()));
    assert_eq!(cache.cached(1), Some(&"mono"));
}

#[test]
fn a_font_is_reused_while_its_family_has_a_name() {
    let name = || Some("Family".to_string());
    assert_eq!(reuse_font(Some(1), name()), Some(("Family".to_string(), 1)));
    assert_eq!(reuse_font(Some(1), None), None);
    assert_eq!(reuse_font::<u8>(None, name()), None);
}

#[test]
fn a_resource_stands_for_its_first_font() {
    assert_eq!(choose_font(&vec![(1, vec!['a', 'b']), (2, vec!['c'])]), Some((1, &'a')));
    assert_eq!(choose_font::<i32, char>(&vec![(1, vec![]), (2, vec!['c'])]), None);
    assert_eq!(choose_font::<i32, char>(&vec![]), None);
}
