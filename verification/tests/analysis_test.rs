use tomegane::analysis::{
    classify_window, elevated_runs, AnalysisMode, measure_visual_diff, summary_kind, union_hotspots, Coverage, Region,
    SummaryKind,
};

#[test]
fn visual_diff_counts_pixels_and_boxes_them() {
    // A 4x3 frame where two pixels change by at least 18 and one by 17.
    let previous = vec![0u8; 12];
    let mut current = vec![0u8; 12];
    current[5] = 18; // (1, 1)
    current[10] = 200; // (2, 2)
    current[3] = 17; // below the threshold
    let d = measure_visual_diff(&previous, &current, 4, 3);
    assert_eq!(d.changed_pixels, 2);
    assert_eq!(d.hotspot, Some(Region { x: 1, y: 1, width: 2, height: 2 }));
}

#[test]
fn visual_diff_without_change_has_no_hotspot() {
    let frame = vec![9u8; 20];
    let d = measure_visual_diff(&frame, &frame, 5, 4);
    assert_eq!(d.changed_pixels, 0);
    assert_eq!(d.hotspot, None);
    let empty = measure_visual_diff(&[], &[], 0, 0);
    assert_eq!(empty.changed_pixels, 0);
}

#[test]
fn visual_diff_counts_decreases_too() {
    let previous = vec![255u8, 255, 255, 255];
    let current = vec![255u8, 0, 255, 237];
    let d = measure_visual_diff(&previous, &current, 2, 2);
    assert_eq!(d.changed_pixels, 2);
    assert_eq!(d.hotspot, Some(Region { x: 1, y: 0, width: 1, height: 2 }));
}

#[test]
fn union_of_hotspots_spans_all_boxes() {
    let spots = vec![
        None,
        Some(Region { x: 10, y: 14, width: 10, height: 20 }),
        Some(Region { x: 6, y: 14, width: 4, height: 2 }),
        None,
    ];
    assert_eq!(union_hotspots(&spots), Some(Region { x: 6, y: 14, width: 14, height: 20 }));
    assert_eq!(union_hotspots(&[None, None]), None);
    assert_eq!(union_hotspots(&[]), None);
}

#[test]
fn elevated_pairs_group_into_maximal_windows() {
    let flags = [false, true, true, false, true, false, false, true, true];
    assert_eq!(elevated_runs(&flags), vec![(1, 3), (4, 5), (7, 9)]);
    assert_eq!(elevated_runs(&[true, true]), vec![(0, 2)]);
    assert_eq!(elevated_runs(&[false, false]), vec![]);
    assert_eq!(elevated_runs(&[]), vec![]);
}

#[test]
fn window_assessments() {
    assert!(classify_window(1, None, false).starts_with("Elevated change without a stable hotspot"));
    assert!(classify_window(3, Some(Coverage::Localized), false).starts_with("Sustained localized churn"));
    assert!(classify_window(2, Some(Coverage::Localized), true).starts_with("A short localized jump"));
    assert!(classify_window(2, Some(Coverage::Sectional), true).starts_with("Repeated updates inside a section"));
    assert!(classify_window(2, Some(Coverage::Broad), true).starts_with("Most of the frame changed together"));
    assert!(classify_window(2, Some(Coverage::Broad), false).starts_with("Large regions changed together"));
}

#[test]
fn summary_kinds() {
    assert_eq!(summary_kind(None, true), SummaryKind::Quiet);
    assert_eq!(summary_kind(None, false), SummaryKind::Diffuse);
    assert_eq!(summary_kind(Some((1, Some(Coverage::Localized))), false), SummaryKind::SharpLocalized);
    assert_eq!(summary_kind(Some((2, Some(Coverage::Localized))), true), SummaryKind::SustainedLocalized);
    assert_eq!(summary_kind(Some((1, Some(Coverage::Sectional))), false), SummaryKind::Sectional);
    assert_eq!(summary_kind(Some((1, Some(Coverage::Broad))), false), SummaryKind::Broad);
    assert_eq!(summary_kind(Some((4, None)), false), SummaryKind::Broad);
}

#[test]
fn overview_is_the_default_mode() {
    assert_eq!(AnalysisMode::default(), AnalysisMode::Overview);
}
