use amdgpu_top_nvitop::gauge::{
    bar_colors, bar_text, fill_segments, percent_text, track_width, BarColors, GaugeColor, Kind,
};
use amdgpu_top_nvitop::theme::UtilKind;

#[test]
fn kinds_map_to_util_kinds() {
    assert!(matches!(Kind::Gpu.util_kind(), UtilKind::Gpu));
    assert!(matches!(Kind::Mem.util_kind(), UtilKind::Mem));
    assert!(matches!(Kind::Npu.util_kind(), UtilKind::Npu));
}

#[test]
fn track_is_what_the_reserved_columns_leave() {
    // "CPU " + " " + " 62%" = 9 reserved
    assert_eq!(track_width("CPU", " 62%", 40, 0), 31);
    // plus two separators and a 10-wide value field
    assert_eq!(track_width("CPU", " 62%", 40, 10), 19);
    assert_eq!(track_width("CPU", " 62%", 5, 0), 0);
}

#[test]
fn fill_uses_full_and_partial_blocks() {
    let (fill, empty) = fill_segments(10, 13);
    assert_eq!(fill, "█▋");
    assert_eq!(empty, "░░░░░░░░");
    let (fill, empty) = fill_segments(4, 32);
    assert_eq!(fill, "████");
    assert_eq!(empty, "");
    let (fill, empty) = fill_segments(3, 0);
    assert_eq!(fill, "");
    assert_eq!(empty, "░░░");
}

#[test]
fn partial_block_glyphs() {
    let glyphs: Vec<String> = (1usize..8).map(|r| fill_segments(1, r).0).collect();
    assert_eq!(glyphs, vec!["▏", "▎", "▍", "▌", "▋", "▊", "▉"]);
}

#[test]
fn bar_without_value_field() {
    let b = bar_text("GFX", " 50%", "", 20, 0, Some(44));
    assert_eq!(b.label, "GFX ");
    assert_eq!(b.fill, "█████▌");
    assert_eq!(b.empty, "░░░░░");
    assert_eq!(b.pct, "  50%");
    assert!(b.value.is_none());
}

#[test]
fn bar_with_value_field_right_aligns_value() {
    let b = bar_text("MEM", " 10%", "1G", 30, 6, Some(0));
    assert_eq!(b.value.as_deref(), Some("      1G"));
    // 30 - (4 + 1 + 4 + 2 + 6) = 13
    assert_eq!(b.empty.chars().count(), 13);
}

#[test]
fn bar_without_percentage_is_all_empty() {
    let b = bar_text("NPU", " N/A", "", 12, 0, None);
    assert_eq!(b.fill, "");
    assert_eq!(b.empty, "░░░");
}

#[test]
fn bars_of_one_width_line_up() {
    for (label, pct, n) in [("CPU", " 62%", 40usize), ("MEM", "100%", 88), ("SWP", "  0%", 0)] {
        let b = bar_text(label, pct, "", 20, 0, Some(n));
        let total = b.label.chars().count()
            + b.fill.chars().count()
            + b.empty.chars().count()
            + b.pct.chars().count();
        assert_eq!(total, 20);
    }
}

#[test]
fn percentages_line_up_whatever_the_label() {
    let mut columns = Vec::new();
    for (label, n) in [("GFX", 10usize), ("MEMORY", 30), ("N", 0)] {
        let b = bar_text(label, " 42%", "7G", 40, 5, Some(n));
        columns.push(b.label.chars().count() + b.fill.chars().count() + b.empty.chars().count());
    }
    // 40 - (1 + 4 + 2 + 5)
    assert_eq!(columns, vec![28, 28, 28]);
}

#[test]
fn percent_texts_take_four_columns() {
    assert_eq!(percent_text(Some(0)), "  0%");
    assert_eq!(percent_text(Some(62)), " 62%");
    assert_eq!(percent_text(Some(100)), "100%");
    assert_eq!(percent_text(None), " N/A");
}

#[test]
fn gauges_of_one_width_line_up() {
    let mut columns = Vec::new();
    for (label, p, n) in [("CPU", Some(0u64), 0usize), ("MEMORY", Some(100), 8 * 18), ("N", None, 0)] {
        let pct = percent_text(p);
        let b = bar_text(label, &pct, "", 30, 0, p.map(|_| n));
        columns.push(b.label.chars().count() + b.fill.chars().count() + b.empty.chars().count());
    }
    // 30 - 5
    assert_eq!(columns, vec![25, 25, 25]);
}

#[test]
fn gauge_part_colors() {
    assert_eq!(
        bar_colors(true),
        BarColors {
            label: GaugeColor::GraphText,
            fill: GaugeColor::Util,
            empty: GaugeColor::Inactive,
            pct: GaugeColor::Util,
            value: GaugeColor::MainFg,
        }
    );
    let none = bar_colors(false);
    assert_eq!(none.fill, GaugeColor::Inactive);
    assert_eq!(none.pct, GaugeColor::Inactive);
    assert_eq!(none.label, GaugeColor::GraphText);
}
