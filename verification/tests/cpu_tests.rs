use amdgpu_top_nvitop::cpu::{
    cpu_line_counts_fit, cpu_model_from, parse_cpu_line, sample_due, stat_text_fits, CpuTicks,
    MemCounters, SampleTimer,
};

#[test]
fn cpu_line_subtracts_guest_time() {
    // idle = idle + iowait = 40 + 50; total = 550 - guest (90)
    assert_eq!(parse_cpu_line("cpu  10 20 30 40 50 60 70 80 90 100"), Some((460, 90)));
    assert_eq!(parse_cpu_line("cpu 1 2 3 4 5 6 7 8 9 10"), Some((46, 9)));
    assert_eq!(parse_cpu_line("cpu 1 2 3 4 5 6 7 8 9"), Some((36, 9)));
    assert_eq!(parse_cpu_line("cpu 1 2 3 4 5 6 7 8"), Some((36, 9)));
}

#[test]
fn cpu_line_needs_four_counters() {
    assert_eq!(parse_cpu_line("cpu 1 2 3"), None);
    assert_eq!(parse_cpu_line("cpu 1 2 3 4"), Some((10, 4)));
    assert_eq!(parse_cpu_line(""), None);
}

#[test]
fn cpu_line_skips_words_that_are_not_numbers() {
    assert_eq!(parse_cpu_line("cpu0 1 x 2 3 4"), Some((10, 4)));
    assert_eq!(parse_cpu_line("cpu0 1 2 3 +4 5"), Some((15, 9)));
}

#[test]
fn cpu_line_overflow_is_detected() {
    assert!(!cpu_line_counts_fit("cpu 18446744073709551615 1 0 0"));
    assert!(cpu_line_counts_fit("cpu 18446744073709551614 1 0 0"));
    assert!(cpu_line_counts_fit("cpu 1 2"));
}

#[test]
fn stat_deltas_between_samples() {
    let mut t = CpuTicks::new();
    let first = "cpu 100 0 0 100\ncpu0 50 0 0 50\ncpu1 50 0 0 50\nintr 5 6 7 8\n";
    let d = t.advance(first);
    assert_eq!(d.total, Some((200, 100)));
    // cores not seen before count from themselves
    assert_eq!(d.per_core, vec![(0, 0), (0, 0)]);

    let second = "cpu 150 0 0 150\ncpu0 80 0 0 70\ncpu1 70 0 0 80\n";
    let d = t.advance(second);
    assert_eq!(d.total, Some((100, 50)));
    assert_eq!(d.per_core, vec![(50, 20), (50, 30)]);
}

#[test]
fn counters_going_backwards_count_as_zero() {
    let mut t = CpuTicks::new();
    t.advance("cpu 100 0 0 100\ncpu0 100 0 0 100");
    let d = t.advance("cpu 10 0 0 10\ncpu0 10 0 0 10");
    assert_eq!(d.total, Some((0, 0)));
    assert_eq!(d.per_core, vec![(0, 0)]);
}

#[test]
fn unparsed_first_line_keeps_previous_total() {
    let mut t = CpuTicks::new();
    t.advance("cpu 100 0 0 100");
    let d = t.advance("garbage\ncpu0 1 2 3 4\ncpu 5 5 5 5 5");
    assert_eq!(d.total, None);
    // the aggregate `cpu ` line later on is not a core line
    assert_eq!(d.per_core, vec![(0, 0)]);
    let d = t.advance("cpu 150 0 0 150");
    assert_eq!(d.total, Some((100, 50)));
    assert!(d.per_core.is_empty());
}

#[test]
fn stat_text_overflow_is_detected() {
    assert!(stat_text_fits("cpu 1 2 3 4\ncpu0 1 2 3 4\n"));
    assert!(!stat_text_fits("cpu 1 2 3 4\ncpu0 18446744073709551615 1 0 0\n"));
    // lines that are not summed do not matter
    assert!(stat_text_fits("cpu 1 2 3 4\nintr 18446744073709551615 1 0 0\n"));
    assert!(stat_text_fits(""));
}

#[test]
fn meminfo_sets_the_four_counters() {
    let mut m = MemCounters::new();
    assert_eq!(
        m,
        MemCounters { mem_total_kb: 1, mem_avail_kb: 1, swap_total_kb: 0, swap_free_kb: 0 }
    );
    m.apply_meminfo(
        "MemTotal:       16000 kB\nMemFree: 1 kB\nMemAvailable:    4000 kB\nSwapTotal: 2000 kB\nSwapFree: 500 kB\nBogus: x\n",
    );
    assert_eq!(
        m,
        MemCounters { mem_total_kb: 16000, mem_avail_kb: 4000, swap_total_kb: 2000, swap_free_kb: 500 }
    );
    assert_eq!(m.mem_used_kb(), 12000);
    assert_eq!(m.swap_used_kb(), 1500);
}

#[test]
fn meminfo_lines_without_numbers_change_nothing() {
    let mut m = MemCounters::new();
    m.apply_meminfo("MemTotal: lots\nSwapTotal:\nMemAvailable: 7\nMemAvailable: 9");
    assert_eq!(m.mem_total_kb, 1);
    assert_eq!(m.swap_total_kb, 0);
    assert_eq!(m.mem_avail_kb, 9);
    // available above total: nothing in use
    assert_eq!(m.mem_used_kb(), 0);
}

#[test]
fn cpu_model_from_first_model_name_line() {
    let text = "processor\t: 0\nmodel name\t: AMD Ryzen 9 7950X 16-Core Processor\nmodel name\t: other\n";
    assert_eq!(cpu_model_from(Some(text)), "AMD Ryzen 9 7950X 16-Core Processor");
    assert_eq!(cpu_model_from(Some("model name : a:b")), "a:b");
    assert_eq!(cpu_model_from(Some("model name\t: Foo: Bar\n")), "Foo: Bar");
    assert_eq!(cpu_model_from(Some("model name without colon\nmodel name: x")), "x");
}

#[test]
fn cpu_model_defaults_to_cpu() {
    assert_eq!(cpu_model_from(None), "CPU");
    assert_eq!(cpu_model_from(Some("processor : 0\n")), "CPU");
}

#[test]
fn samples_are_due_every_200_ms() {
    assert!(sample_due(None));
    assert!(!sample_due(Some(199)));
    assert!(sample_due(Some(200)));
}

#[test]
fn resampling_the_same_text_shows_no_time() {
    let mut t = CpuTicks::new();
    let text = "cpu 10 20 30 40\ncpu0 5 5 5 5\ncpu1 1 2 3 4\n";
    t.advance(text);
    let d = t.advance(text);
    assert_eq!(d.total, Some((0, 0)));
    assert_eq!(d.per_core, vec![(0, 0), (0, 0)]);
}

#[test]
fn samples_are_taken_at_least_200_ms_apart() {
    let ms = 1_000_000u128;
    let mut t = SampleTimer::new();
    assert!(t.tick(5 * ms));
    assert!(!t.tick(5 * ms + 199 * ms + 999_999));
    assert!(t.tick(205 * ms));
    assert!(!t.tick(300 * ms));
    assert!(!t.tick(404 * ms));
    assert!(t.tick(405 * ms));
    // a clock reading before the last sample counts as no time passed
    assert!(!t.tick(ms));
}
