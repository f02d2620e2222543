use amdgpu_top_nvitop::rows::{
    device_row, gpu_stats_texts, npu_row, process_row, process_rows, DeviceReading, NpuReading,
    ProcReading,
};

fn device() -> DeviceReading {
    DeviceReading {
        bus: 3,
        is_npu: false,
        name: "AMD Radeon RX 7900 XTX (0000:03:00.0)".to_string(),
        gfx: Some(7),
        vram_used: 512 * 1_048_576,
        vram_size: 16_384 * 1_048_576,
        temp: Some(45),
        power: Some(30),
        power_cap: Some(250),
        sclk: Some(800),
        mclk: None,
        fan: Some(1200),
    }
}

fn process(pid: i32, name: &str) -> ProcReading {
    ProcReading {
        pid,
        name: name.to_string(),
        vram_kib: 2048,
        gtt_kib: 1023,
        gfx: 12,
        compute: 0,
        dma: 3,
        cpu: 45,
    }
}

#[test]
fn device_row_cells() {
    assert_eq!(
        device_row(&device(), 3),
        vec![
            "3",
            "GPU",
            "AMD Radeon RX 7900 XTX (0000:03:00.0)",
            "   7",
            "   3",
            "512/16384M",
            " 45C",
            " 30W/250W",
            " 800M",
            "    -",
            "1200r",
        ]
    );
}

#[test]
fn device_row_without_sensors() {
    let d = DeviceReading {
        bus: 0xc1,
        is_npu: true,
        name: "NPU".to_string(),
        gfx: None,
        vram_used: 0,
        vram_size: 0,
        temp: None,
        power: Some(5),
        power_cap: None,
        sclk: None,
        mclk: None,
        fan: None,
    };
    assert_eq!(
        device_row(&d, 0),
        vec!["193", "NPU", "NPU", "   -", "   0", "0/0M", "  -", "  5W", "    -", "    -", "    -"]
    );
    let mut e = d;
    e.temp = Some(-5);
    e.power = None;
    e.power_cap = Some(9);
    let row = device_row(&e, 100);
    assert_eq!(row[4], " 100");
    assert_eq!(row[6], " -5C");
    assert_eq!(row[7], "  -");
}

#[test]
fn process_row_cells() {
    assert_eq!(
        process_row(3, &process(1234, "firefox")),
        vec!["3", "1234", "firefox", "2M", "0M", "12", "0", "3", "45"]
    );
    let long = process(-1, "a-very-long-process-name-indeed");
    assert_eq!(process_row(0, &long)[2], "a-very-long-process-name");
    assert_eq!(process_row(0, &long)[1], "-1");
}

#[test]
fn process_rows_across_devices() {
    let devices = vec![
        (3u8, vec![process(1, "a"), process(2, "b")]),
        (4u8, Vec::new()),
        (5u8, vec![process(3, "c")]),
    ];
    let rows = process_rows(&devices);
    assert_eq!(rows.len(), 3);
    assert_eq!(rows[0][0], "3");
    assert_eq!(rows[1][1], "2");
    assert_eq!(rows[2][0], "5");
    assert_eq!(rows[2][2], "c");
}

#[test]
fn no_processes_gives_a_notice_row() {
    let rows = process_rows(&vec![(3u8, Vec::new())]);
    assert_eq!(rows, vec![vec!["No processes using GPU memory".to_string()]]);
    assert_eq!(process_rows(&Vec::new()).len(), 1);
}

#[test]
fn npu_row_cells() {
    let p = NpuReading {
        pid: 77,
        name: "ollama".to_string(),
        contexts: 2,
        memory_kib: 4096,
        npu: 33,
    };
    assert_eq!(npu_row(&p), vec!["77", "ollama", "2", "4096K", "33"]);
}

#[test]
fn gpu_stats_parts() {
    assert_eq!(
        gpu_stats_texts(Some(50), Some(30), None, Some(2500), Some(1000), None),
        vec!["  50°C ", " 30W ", " sclk 2500M mclk 1000M ", "fan     -"]
    );
    assert_eq!(
        gpu_stats_texts(None, Some(30), Some(120), None, Some(96), Some(800)),
        vec!["   - ", " 30/120W ", " sclk     - mclk   96M ", "fan  800r"]
    );
    assert_eq!(
        gpu_stats_texts(Some(7), None, Some(120), None, None, None)[1],
        "   - "
    );
}
