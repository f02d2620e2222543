use amdgpu_top_nvitop::panels::{
    area_height_idx, core_summary, cpu_temp_text, gpu_sparkline_width, npu_ctx_count,
    gpu_collapsed_text, gpu_title_texts, npu_collapsed_texts, npu_fw_text, processes_summary,
    short_name, PanelState, Section,
};

fn state(has_npu: bool) -> PanelState {
    PanelState {
        has_npu,
        cpu_collapsed: false,
        gpu_collapsed: false,
        npu_collapsed: false,
        processes_collapsed: false,
        gpus: 2,
        npu_contexts: 9,
    }
}

#[test]
fn section_heights() {
    let p = state(true);
    assert_eq!(p.section_height(Section::Cpu), 9);
    assert_eq!(p.section_height(Section::Gpu), 12);
    // at most six NPU contexts are shown
    assert_eq!(p.section_height(Section::Npu), 12);
    assert_eq!(p.section_height(Section::Processes), 15);
    let mut q = p;
    q.npu_contexts = 2;
    assert_eq!(q.section_height(Section::Npu), 8);
}

#[test]
fn collapsed_sections_take_three_rows() {
    let mut p = state(true);
    p.gpu_collapsed = true;
    assert!(p.is_collapsed(Section::Gpu));
    assert!(!p.is_collapsed(Section::Cpu));
    assert_eq!(p.section_height(Section::Gpu), 3);
}

#[test]
fn layout_rows_with_and_without_npu() {
    assert_eq!(state(true).heights(), vec![1, 9, 12, 12, 15, 1]);
    assert_eq!(state(false).heights(), vec![1, 9, 12, 15, 1]);
}

#[test]
fn footer_is_the_last_row() {
    for has_npu in [false, true] {
        assert_eq!(area_height_idx(has_npu), state(has_npu).heights().len() - 1);
    }
    assert_eq!(area_height_idx(false), 4);
    assert_eq!(area_height_idx(true), 5);
}

#[test]
fn npu_contexts_are_summed() {
    assert_eq!(npu_ctx_count(&vec![2, 3, 0]), 5);
    assert_eq!(npu_ctx_count(&Vec::new()), 0);
}

#[test]
fn short_names_collapse_marketing_text() {
    assert_eq!(short_name("AMD Radeon Graphics (rev c1)"), "Radeon (rev c1)");
    assert_eq!(short_name("AMD Radeon RX 7900 XTX"), "Radeon RX 7900 XTX");
    assert_eq!(short_name("Some Other GPU"), "Some Other GPU");
    assert_eq!(
        short_name("AMD Radeon RX 7900 XTX (0000:03:00.0) extra"),
        "Radeon RX 7900 XTX (0000:03:"
    );
}

#[test]
fn core_summary_mean_and_count() {
    assert_eq!(core_summary(&Vec::new()), "n/a");
    assert_eq!(core_summary(&vec![3000, 4001]), "3500MHz (2 cores)");
    assert_eq!(core_summary(&vec![400]), "400MHz (1 cores)");
}

#[test]
fn cpu_temperature_in_whole_degrees() {
    assert_eq!(cpu_temp_text(Some(45_500)), " CPU temp: 45°C  ");
    assert_eq!(cpu_temp_text(Some(-1_500)), " CPU temp: -1°C  ");
    assert_eq!(cpu_temp_text(None), " CPU temp: n/a  ");
}

#[test]
fn collapsed_processes_text() {
    assert_eq!(processes_summary(0), " 0 processes ");
    assert_eq!(processes_summary(12), " 12 processes ");
}

#[test]
fn gpu_sparkline_takes_what_the_gauge_leaves() {
    assert_eq!(gpu_sparkline_width(44), None);
    assert_eq!(gpu_sparkline_width(45), Some(1));
    assert_eq!(gpu_sparkline_width(120), Some(76));
    assert_eq!(gpu_sparkline_width(0), None);
}

#[test]
fn gpu_height_is_the_only_one_bounded() {
    let mut p = state(false);
    p.gpus = u16::MAX;
    assert_eq!(p.section_height(Section::Cpu), 9);
    assert_eq!(p.section_height(Section::Processes), 15);
}

#[test]
fn collapsed_gpu_text() {
    assert_eq!(
        gpu_collapsed_text("AMD Radeon Graphics", 7, 42),
        " Radeon   7% gfx  42% mem  "
    );
    assert_eq!(gpu_collapsed_text("X", 100, -1), " X 100% gfx  -1% mem  ");
}

#[test]
fn gpu_title_parts() {
    assert_eq!(
        gpu_title_texts("AMD Radeon RX 7600", 3, false),
        vec![" Radeon RX 7600 ", "(3) ", "dGPU"]
    );
    assert_eq!(gpu_title_texts("iGPU", 199, true)[2], "APU");
}

#[test]
fn collapsed_npu_texts() {
    assert_eq!(npu_collapsed_texts(5, 2), vec!["   5% ", "2 contexts  "]);
    assert_eq!(npu_collapsed_texts(100, 0), vec![" 100% ", "0 contexts  "]);
}

#[test]
fn npu_firmware_text_takes_the_first_known() {
    assert_eq!(npu_fw_text(&vec![None, Some("1.5.2".to_string()), Some("9".to_string())]), "fw 1.5.2  ");
    assert_eq!(npu_fw_text(&vec![None]), "fw   ");
    assert_eq!(npu_fw_text(&Vec::new()), "fw   ");
}
