use leptless::geometry::column_ratio;
use leptless::geometry::segmentation_mode;
use leptless::geometry::ColumnRatio;
use leptless::geometry::GlyphBox;
use leptless::geometry::SegmentationMode;

#[test]
fn no_glyphs_yields_zero_ratio_and_auto_mode() {
    let glyphs: Vec<GlyphBox> = Vec::new();
    let ratio = column_ratio(100, &glyphs);
    assert_eq!(ratio.span, 0);
    assert_eq!(ratio.width, 100);
    assert_eq!(
        segmentation_mode(&ratio),
        SegmentationMode::AutoWithOrientationDetection
    );
}

#[test]
fn full_width_glyphs_yield_ratio_one_and_single_block() {
    let glyphs = vec![
        GlyphBox { left: 0, right: 40 },
        GlyphBox { left: 60, right: 100 },
    ];
    let ratio = column_ratio(100, &glyphs);
    assert_eq!(ratio.span, 100);
    assert_eq!(ratio.width, 100);
    assert_eq!(segmentation_mode(&ratio), SegmentationMode::SingleBlock);
}

#[test]
fn boundary_ratio_four_fifths_is_not_single_block() {
    // width 100, glyphs spanning left 10 to right 90: ratio exactly 0.80,
    // and 0.80 is not strictly above the cut.
    let glyphs = vec![GlyphBox { left: 10, right: 90 }];
    let ratio = column_ratio(100, &glyphs);
    assert_eq!(ratio.span, 80);
    assert_eq!(
        segmentation_mode(&ratio),
        SegmentationMode::AutoWithOrientationDetection
    );
}

#[test]
fn ratio_just_above_the_cut_is_single_block() {
    let glyphs = vec![GlyphBox { left: 10, right: 91 }];
    let ratio = column_ratio(100, &glyphs);
    assert_eq!(ratio.span, 81);
    assert_eq!(segmentation_mode(&ratio), SegmentationMode::SingleBlock);
}

#[test]
fn span_tracks_extreme_edges_over_all_glyphs() {
    let glyphs = vec![
        GlyphBox { left: 30, right: 40 },
        GlyphBox { left: 5, right: 12 },
        GlyphBox { left: 50, right: 95 },
    ];
    let ratio = column_ratio(100, &glyphs);
    assert_eq!(ratio.span, 90);
    assert_eq!(segmentation_mode(&ratio), SegmentationMode::SingleBlock);
}

#[test]
fn mode_is_a_function_of_the_ratio_alone() {
    let a = ColumnRatio { span: 80, width: 100 };
    let b = ColumnRatio { span: 800, width: 1000 };
    assert_eq!(segmentation_mode(&a), segmentation_mode(&b));
}
