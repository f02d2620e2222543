use amdgpu_top_nvitop::history::{History, SparkCell};

#[test]
fn empty_history_reads_zero() {
    let h = History::new(4);
    assert_eq!(h.buf_last(), 0);
}

#[test]
fn last_after_push_is_capped_value() {
    let mut h = History::new(3);
    h.push(42);
    assert_eq!(h.buf_last(), 42);
    h.push(150);
    assert_eq!(h.buf_last(), 100);
    h.push(100);
    assert_eq!(h.buf_last(), 100);
}

#[test]
fn keeps_only_most_recent_samples() {
    let mut h = History::new(2);
    h.push(5);
    h.push(200);
    h.push(50);
    // holds [100, 50]
    let cells = h.sparkline_cells(2);
    assert_eq!(cells, vec![SparkCell::Level(8), SparkCell::Level(4)]);
    assert_eq!(h.buf_last(), 50);
}

#[test]
fn sparkline_pads_with_blanks_after_samples() {
    let mut h = History::new(10);
    h.push(0);
    h.push(13);
    h.push(100);
    let cells = h.sparkline_cells(5);
    assert_eq!(
        cells,
        vec![
            SparkCell::Baseline,
            SparkCell::Level(1),
            SparkCell::Level(8),
            SparkCell::Blank,
            SparkCell::Blank,
        ]
    );
}

#[test]
fn sparkline_narrower_than_history_shows_latest() {
    let mut h = History::new(10);
    for v in [10u64, 25, 37, 62, 88] {
        h.push(v);
    }
    // 37*8/100 = 2, 62*8/100 = 4, 88*8/100 = 7
    let cells = h.sparkline_cells(3);
    assert_eq!(cells, vec![SparkCell::Level(2), SparkCell::Level(4), SparkCell::Level(7)]);
}

#[test]
fn low_samples_start_the_ramp() {
    let mut h = History::new(3);
    h.push(0);
    h.push(5);
    h.push(12);
    assert_eq!(
        h.sparkline_cells(3),
        vec![SparkCell::Baseline, SparkCell::Level(1), SparkCell::Level(1)]
    );
}

#[test]
fn zero_width_sparkline_is_empty() {
    let mut h = History::new(2);
    h.push(12);
    assert!(h.sparkline_cells(0).is_empty());
}

#[test]
fn glyphs_follow_the_eighths_ramp() {
    assert_eq!(SparkCell::Blank.glyph(), ' ');
    assert_eq!(SparkCell::Baseline.glyph(), '▁');
    let ramp: Vec<char> = (1u8..=8).map(|r| SparkCell::Level(r).glyph()).collect();
    assert_eq!(ramp, vec!['▁', '▂', '▃', '▄', '▅', '▆', '▇', '█']);
}
