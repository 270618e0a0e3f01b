use sysinfo::commands::{pipx_command, program, queries, update_command, Found, Query};
use sysinfo::cpu::{cpu_times, cpu_times_fit, load_between, CpuTimes, Load};
use sysinfo::gpu::{card_device, detect_gpus, gpu_cards, lspci_name, CardProbe};
use sysinfo::host::{
    cpu_frequencies, cpu_governor, cpuinfo_field, euid, loadavg, os_pretty_name, process_count,
    read_u64, uptime, uptime_seconds, user_writable, HostTexts, Owner, StaticInfo,
};
use sysinfo::hwmon::{
    cpu_driver, find_chip, find_cpu_chip, read_all_hwmon, read_hwmon_dir, sensor_files, sensor_kind,
    sensor_name, HwmonChip, HwmonDir, Measured, SensorFile, SensorKind, CPU_CHIPS,
};
use sysinfo::keys::{on_key, Action, Key, KeyEvent};
use sysinfo::memory::{active_algorithm, amd_vram, ram_usage, ram_usage_fits, zram_devices};
use sysinfo::net::{local_ips, net_bytes, speed_between, NetBytes, Speed};
use sysinfo::updates::{
    aur_helper, check_updates, count_updates, npm_counted, pipx_packages, AurProbe, Helper, Listing,
    Listings, Manager, NpmProbe, UpdatesInfo, MANAGERS,
};
use sysinfo::wifi::{wifi_capabilities, wifi_frequencies};

fn strings(list: &[&str]) -> Vec<String> {
    list.iter().map(|s| s.to_string()).collect()
}

fn text(s: &str) -> Option<String> {
    Some(s.to_string())
}

// ---------------------------------------------------------------------------
// host

#[test]
fn a_number_in_a_file() {
    assert_eq!(read_u64("1024\n"), 1024);
    assert_eq!(read_u64(""), 0);
    assert_eq!(read_u64("n/a"), 0);
}

#[test]
fn effective_user() {
    let status = "Name:\tbash\nUid:\t1000\t1001\t1000\t1000\nGid:\t1000\n";
    assert_eq!(euid(status), 1001);
    assert_eq!(euid("Uid:\t0\t0\t0\t0\n"), 0);
    assert_eq!(euid("Uid:\t1000\n"), u32::MAX);
    assert_eq!(euid("Uid:\t1 x\n"), u32::MAX);
    assert_eq!(euid(""), u32::MAX);
}

#[test]
fn writable_directories() {
    let mine = Some(Owner { uid: 1000, mode: 0o40755 });
    assert!(user_writable(1000, mine));
    assert!(!user_writable(1001, mine));
    assert!(!user_writable(1000, Some(Owner { uid: 1000, mode: 0o40555 })));
    assert!(!user_writable(1000, None));
    assert!(user_writable(0, None));
}

#[test]
fn pretty_names() {
    assert_eq!(os_pretty_name("NAME=\"Arch\"\nPRETTY_NAME=\"Arch Linux\"\n"), "Arch Linux");
    assert_eq!(os_pretty_name("PRETTY_NAME=Void\nPRETTY_NAME=\"Other\""), "Void");
    assert_eq!(os_pretty_name("NAME=x\n"), "Linux");
    assert_eq!(os_pretty_name(""), "Linux");
}

#[test]
fn fields_of_cpuinfo() {
    let cpuinfo = "processor\t: 0\nmodel name\t: AMD Ryzen 9: 7950X\nmodel name\t: other\n";
    assert_eq!(cpuinfo_field(cpuinfo, "model name"), "AMD Ryzen 9");
    assert_eq!(cpuinfo_field(cpuinfo, "flags"), "Unknown");
    assert_eq!(cpuinfo_field("model name\n", "model name"), "Unknown");
}

#[test]
fn seconds_since_boot() {
    assert_eq!(uptime_seconds("12345.67 54321.00\n"), text("12345.67"));
    assert_eq!(uptime_seconds("\n"), None);
}

#[test]
fn spans_of_time() {
    assert_eq!(uptime(0), "0m");
    assert_eq!(uptime(59), "0m");
    assert_eq!(uptime(3599), "59m");
    assert_eq!(uptime(3600), "1h 0m");
    assert_eq!(uptime(86399), "23h 59m");
    assert_eq!(uptime(86400), "1d 0h 0m");
    assert_eq!(uptime(90061), "1d 1h 1m");
}

#[test]
fn units_of_a_span_add_up() {
    let secs: u64 = 1_234_567;
    assert_eq!(uptime(secs), "14d 6h 56m");
    assert_eq!(14 * 86400 + 6 * 3600 + 56 * 60, secs - secs % 60);
}

#[test]
fn load_averages() {
    assert_eq!(
        loadavg("0.52 0.58 0.59 1/1021 12345\n"),
        ("0.52  0.58  0.59".to_string(), "1/1021".to_string())
    );
    assert_eq!(loadavg("0.1 0.2 0.3"), ("0.1  0.2  0.3".to_string(), "N/A".to_string()));
    assert_eq!(loadavg("0.1 0.2"), ("Unknown".to_string(), "N/A".to_string()));
    assert_eq!(loadavg(""), ("Unknown".to_string(), "N/A".to_string()));
}

#[test]
fn processes_are_numeric_names() {
    assert_eq!(process_count(&strings(&["1", "42", "self", "4x", "meminfo", "7"])), 3);
    assert_eq!(process_count(&Vec::new()), 0);
}

#[test]
fn governors() {
    assert_eq!(cpu_governor("schedutil\n"), "schedutil");
    assert_eq!(cpu_governor(" \n"), "Unknown");
    assert_eq!(cpu_governor(""), "Unknown");
}

#[test]
fn frequencies_of_cpuinfo() {
    let cpuinfo = "cpu MHz\t\t: 3400.123\nmodel name : x\ncpu MHz : bad\ncpu MHz\n";
    assert_eq!(cpu_frequencies(cpuinfo), strings(&["3400.123", "bad"]));
}

#[test]
fn static_facts_are_put_together() {
    let info = StaticInfo::collect(&HostTexts {
        hostname: "box\n".to_string(),
        os_release: "PRETTY_NAME=\"Arch Linux\"\n".to_string(),
        kernel: "6.9.1\n".to_string(),
        arch: "x86_64".to_string(),
        cpuinfo: "model name : CPU\n".to_string(),
        iw: "\tVHT Capabilities\n\t* 5180 MHz [36]\n".to_string(),
        mhz: vec![5180],
        lspci: String::new(),
        cards: vec![CardProbe {
            card: "card0".to_string(),
            driver: text("xe"),
            pci_addr: None,
            hwmon_id: None,
        }],
    });
    assert_eq!(info.hostname, "box");
    assert_eq!(info.os_name, "Arch Linux");
    assert_eq!(info.kernel, "6.9.1");
    assert_eq!(info.arch, "x86_64");
    assert_eq!(info.cpu_model, "CPU");
    assert_eq!(info.wifi_standard, "Wi-Fi 5 (802.11ac)");
    assert_eq!(info.wifi_bands, "5 GHz");
    assert_eq!(info.gpus.len(), 1);
    assert_eq!(info.gpus[0].name, "GPU [xe]");
}

// ---------------------------------------------------------------------------
// graphics cards

const LSPCI: &str = "00:02.0 \"VGA compatible controller\" \"Intel Corporation\" \"Device 4680\" -r0c\n\
03:00.0 \"VGA compatible controller\" \"Advanced Micro Devices, Inc. [AMD/ATI]\" \"Navi 31\" -rc8\n\
04:00.0 \"Short\"\n";

#[test]
fn names_of_devices() {
    assert_eq!(lspci_name(LSPCI, "0000:03:00.0"), text("AMD/ATI Navi 31"));
    assert_eq!(lspci_name(LSPCI, "0000:00:02.0"), text("Intel Corporation Device 4680"));
    assert_eq!(lspci_name(LSPCI, "03:00.0"), text("AMD/ATI Navi 31"));
    assert_eq!(lspci_name(LSPCI, "0000:04:00.0"), None);
    assert_eq!(lspci_name(LSPCI, "0000:05:00.0"), None);
    assert_eq!(lspci_name(LSPCI, "0000:"), None);
    assert_eq!(lspci_name(LSPCI, ""), None);
    assert_eq!(lspci_name("a \"c\" \"V [x] y\" \"D\"", "a"), text("V [x] y D"));
}

#[test]
fn cards_are_card_and_a_number() {
    let names = strings(&["card10", "card1", "card0-DP-1", "renderD128", "card", "version", "card0"]);
    assert_eq!(gpu_cards(&names), strings(&["card0", "card1", "card10"]));
    assert_eq!(card_device("card0"), "/sys/class/drm/card0/device");
}

#[test]
fn cards_are_detected_in_order() {
    let gpus = detect_gpus(
        LSPCI,
        &vec![
            CardProbe {
                card: "card1".to_string(),
                driver: text("amdgpu"),
                pci_addr: text("0000:03:00.0"),
                hwmon_id: text("hwmon4"),
            },
            CardProbe { card: "version".to_string(), driver: None, pci_addr: None, hwmon_id: None },
            CardProbe { card: "card0".to_string(), driver: None, pci_addr: None, hwmon_id: None },
        ],
    );
    assert_eq!(gpus.len(), 2);
    assert_eq!(gpus[0].driver, "unknown");
    assert_eq!(gpus[0].name, "GPU [unknown]");
    assert_eq!(gpus[0].hwmon_id, None);
    assert_eq!(gpus[0].dev_path, "/sys/class/drm/card0/device");
    assert_eq!(gpus[1].driver, "amdgpu");
    assert_eq!(gpus[1].name, "AMD/ATI Navi 31");
    assert_eq!(gpus[1].hwmon_id, text("hwmon4"));
}

// ---------------------------------------------------------------------------
// wireless hardware

#[test]
fn frequencies_stand_before_their_unit() {
    let out = "\t\t\t* 2412 MHz [1] (22.0 dBm)\n\t\t\t* 5955.0 MHz [1]\nMHz\nnone\n";
    assert_eq!(wifi_frequencies(out), strings(&["2412", "5955.0"]));
}

#[test]
fn standards_by_generation() {
    let caps = |out: &str, mhz: Vec<u64>| wifi_capabilities(out, &mhz).0;
    assert_eq!(caps("EHT Capabilities\nHE Capabilities\n", vec![]), "Wi-Fi 7 (802.11be)");
    assert_eq!(caps("HE MAC Capabilities\n", vec![5955]), "Wi-Fi 6E (802.11ax)");
    assert_eq!(caps("HE Capabilities\nHT Capabilities", vec![5180]), "Wi-Fi 6 (802.11ax)");
    assert_eq!(caps("VHT Capabilities\n", vec![]), "Wi-Fi 5 (802.11ac)");
    assert_eq!(caps("HT Capabilities\n", vec![]), "Wi-Fi 4 (802.11n)");
    assert_eq!(caps("Wiphy phy0\n", vec![]), "Legacy (802.11a/b/g)");
    assert_eq!(caps("", vec![2412]), "N/A");
}

#[test]
fn bands_by_frequency() {
    let bands = |mhz: Vec<u64>| wifi_capabilities("Wiphy phy0\n", &mhz).1;
    assert_eq!(bands(vec![]), "None");
    assert_eq!(bands(vec![2399, 2500, 4999, 7200]), "None");
    assert_eq!(bands(vec![2400]), "2.4 GHz");
    assert_eq!(bands(vec![5000]), "5 GHz");
    assert_eq!(bands(vec![5899]), "5 GHz");
    assert_eq!(bands(vec![5900]), "6 GHz");
    assert_eq!(bands(vec![7199, 5180, 2499]), "2.4 GHz, 5 GHz, 6 GHz");
    assert_eq!(wifi_capabilities("", &vec![2412]).1, "N/A");
}

#[test]
fn more_frequencies_take_no_band_away() {
    let few = vec![2412];
    let more = vec![2412, 5180];
    assert_eq!(wifi_capabilities("x", &few).1, "2.4 GHz");
    assert_eq!(wifi_capabilities("x", &more).1, "2.4 GHz, 5 GHz");
}

// ---------------------------------------------------------------------------
// sensors

fn sensor(file: &str, value: f64, label: Option<&str>) -> SensorFile {
    SensorFile {
        file: file.to_string(),
        reading: Some(Measured { bits: value.to_bits(), whole: value as u64 }),
        label: label.map(|l| l.to_string()),
    }
}

#[test]
fn sensor_files_in_reading_order() {
    let names = strings(&["temp10_input", "name", "temp2_input", "temp2_label", "power1_average", "in0_input"]);
    assert_eq!(
        sensor_files(&names),
        strings(&["in0_input", "power1_average", "temp2_input", "temp10_input"])
    );
}

#[test]
fn sensors_and_their_kinds() {
    assert_eq!(sensor_name("temp1_input"), "temp1");
    assert_eq!(sensor_name("power1_average"), "power1");
    assert_eq!(sensor_kind("temp1"), Some(SensorKind::Temp));
    assert_eq!(sensor_kind("fan1"), Some(SensorKind::Fan));
    assert_eq!(sensor_kind("in0"), Some(SensorKind::Volt));
    assert_eq!(sensor_kind("freq1"), Some(SensorKind::Freq));
    assert_eq!(sensor_kind("power1"), Some(SensorKind::Power));
    assert_eq!(sensor_kind("intrusion0"), Some(SensorKind::Volt));
    assert_eq!(sensor_kind("curr1"), None);
}

#[test]
fn a_directory_is_read_into_a_chip() {
    let chip = read_hwmon_dir(
        "hwmon4",
        "amdgpu\n",
        &vec![
            sensor("temp2_input", 61000.0, Some("junction\n")),
            sensor("temp1_input", 45500.0, None),
            sensor("fan1_input", 1234.9, None),
            sensor("in0_input", 850.0, Some("vddgfx")),
            sensor("freq1_input", 2_000_000_000.0, Some("sclk")),
            sensor("power1_average", 30_000_000.0, Some("PPT")),
            sensor("curr1_input", 1.0, None),
            sensor("temp1_average", 1.0, None),
            sensor("temp1_crit", 1.0, None),
            SensorFile { file: "temp3_input".to_string(), reading: None, label: None },
        ],
    );
    assert_eq!(chip.id, "hwmon4");
    assert_eq!(chip.name, "amdgpu");
    assert_eq!(
        chip.temps,
        vec![
            ("temp1".to_string(), 45500.0f64.to_bits()),
            ("junction".to_string(), 61000.0f64.to_bits())
        ]
    );
    assert_eq!(chip.fans, vec![("fan1".to_string(), 1234)]);
    assert_eq!(chip.volts, vec![("vddgfx".to_string(), 850.0f64.to_bits())]);
    assert_eq!(chip.freqs, vec![("sclk".to_string(), 2_000_000_000.0f64.to_bits())]);
    assert_eq!(chip.powers, vec![("power1".to_string(), 30_000_000.0f64.to_bits())]);
}

#[test]
fn a_power_is_listed_once() {
    let chip = read_hwmon_dir(
        "hwmon0",
        "x",
        &vec![sensor("power1_input", 1.0, None), sensor("power1_average", 2.0, None)],
    );
    assert_eq!(chip.powers, vec![("power1".to_string(), 1.0f64.to_bits())]);
    let chip = read_hwmon_dir(
        "hwmon0",
        "x",
        &vec![
            SensorFile { file: "power1_input".to_string(), reading: None, label: None },
            sensor("power1_average", 2.0, None),
        ],
    );
    assert_eq!(chip.powers, vec![("power1".to_string(), 2.0f64.to_bits())]);
}

fn silent(file: &str) -> SensorFile {
    SensorFile { file: file.to_string(), reading: None, label: None }
}

#[test]
fn a_power_is_read_from_its_input() {
    for files in [
        vec![sensor("power1_average", 7e6, None), sensor("power1_input", 5e6, None)],
        vec![sensor("power1_input", 5e6, None), sensor("power1_average", 7e6, None)],
    ] {
        let chip = read_hwmon_dir("hwmon0", "x\n", &files);
        assert_eq!(chip.powers, vec![("power1".to_string(), 5e6f64.to_bits())]);
    }
    for files in [
        vec![sensor("power1_average", 7e6, None), silent("power1_input")],
        vec![silent("power1_input"), sensor("power1_average", 7e6, None)],
        vec![sensor("power1_average", 7e6, None)],
    ] {
        let chip = read_hwmon_dir("hwmon0", "x\n", &files);
        assert_eq!(chip.powers, vec![("power1".to_string(), 7e6f64.to_bits())]);
    }
}

#[test]
fn the_listing_order_does_not_matter() {
    let names = ["temp10_input", "power1_average", "temp2_input", "power1_input", "fan1_input", "power2_average"];
    let listed = |order: [usize; 6]| {
        let files = order.iter().map(|i| sensor(names[*i], *i as f64, None)).collect();
        read_hwmon_dir("hwmon0", "x", &files)
    };
    let chip = listed([0, 1, 2, 3, 4, 5]);
    for order in [[5, 4, 3, 2, 1, 0], [1, 3, 5, 0, 2, 4], [3, 1, 0, 5, 4, 2]] {
        let other = listed(order);
        assert_eq!(other.temps, chip.temps);
        assert_eq!(other.fans, chip.fans);
        assert_eq!(other.powers, chip.powers);
    }
    assert_eq!(chip.powers, vec![("power1".to_string(), 3f64.to_bits()), ("power2".to_string(), 5f64.to_bits())]);
}

#[test]
fn files_that_do_not_count_disturb_nothing() {
    let plain = read_hwmon_dir("hwmon0", "x", &vec![sensor("temp1_input", 1.0, None), sensor("power1_average", 2.0, None)]);
    let other = read_hwmon_dir(
        "hwmon0",
        "x",
        &vec![
            sensor("curr1_input", 9.0, None),
            sensor("temp1_average", 9.0, None),
            sensor("temp1_input", 1.0, None),
            silent("temp1_x_input"),
            silent("power1_input"),
            sensor("power1_average", 2.0, None),
            sensor("energy1_input", 9.0, None),
        ],
    );
    assert_eq!(other.temps, plain.temps);
    assert_eq!(other.powers, plain.powers);
    assert!(other.fans.is_empty() && other.volts.is_empty() && other.freqs.is_empty());
}

#[test]
fn chips_that_show_nothing() {
    let mut chip = HwmonChip::new("hwmon0", " x\n");
    assert_eq!(chip.name, "x");
    assert!(chip.is_empty());
    chip.fans = vec![("fan1".to_string(), 0)];
    assert!(!chip.is_empty());
}

#[test]
fn chips_are_listed_by_number_and_empty_ones_left_out() {
    let chips = read_all_hwmon(&vec![
        HwmonDir {
            id: "hwmon10".to_string(),
            name: "nvme\n".to_string(),
            files: vec![sensor("temp1_input", 30000.0, None)],
        },
        HwmonDir { id: "hwmon1".to_string(), name: "acpi".to_string(), files: vec![] },
        HwmonDir {
            id: "hwmon2".to_string(),
            name: "k10temp\n".to_string(),
            files: vec![sensor("temp1_input", 50000.0, Some("Tctl"))],
        },
    ]);
    let ids: Vec<&str> = chips.iter().map(|c| c.id.as_str()).collect();
    assert_eq!(ids, vec!["hwmon2", "hwmon10"]);
    assert_eq!(find_chip(&chips, "hwmon10").map(|c| c.name), text("nvme"));
    assert!(find_chip(&chips, "hwmon1").is_none());
    assert_eq!(find_cpu_chip(&chips).map(|c| c.id), text("hwmon2"));
    assert!(find_cpu_chip(&Vec::new()).is_none());
}

#[test]
fn drivers_of_cpus() {
    assert_eq!(CPU_CHIPS, ["k10temp", "zenpower", "coretemp", "cpu_thermal"]);
    for name in CPU_CHIPS {
        assert!(cpu_driver(name));
    }
    assert!(!cpu_driver("amdgpu"));
    assert!(!cpu_driver("k10temp "));
}

// ---------------------------------------------------------------------------
// CPU times

#[test]
fn times_of_all_and_of_each_cpu() {
    let stat = "cpu  10 1 4 80 5 1 2 3 0 0\ncpu0 5 0 2 40 2 0 1 1 0 0\ncpu1 5 1 2 40\ncpu2 1 2 3\nintr 1 2 3\n";
    assert!(cpu_times_fit(stat));
    let (all, each) = cpu_times(stat);
    assert_eq!(all, CpuTimes { idle: 85, total: 106 });
    assert_eq!(
        each,
        vec![CpuTimes { idle: 42, total: 51 }, CpuTimes { idle: 40, total: 48 }]
    );
    let (all, each) = cpu_times("");
    assert_eq!(all, CpuTimes { idle: 0, total: 0 });
    assert!(each.is_empty());
}

#[test]
fn times_that_do_not_fit() {
    assert!(!cpu_times_fit("cpu 18446744073709551615 1 0 0 0\n"));
    assert!(cpu_times_fit("cpu 18446744073709551615 0 0 0 0\n"));
    assert!(cpu_times_fit("intr 18446744073709551615 1 0 0 0\n"));
}

#[test]
fn load_between_readings() {
    let a = CpuTimes { idle: 100, total: 200 };
    assert_eq!(load_between(a, CpuTimes { idle: 150, total: 300 }), Load { active: 50, total: 100 });
    assert_eq!(load_between(a, a), Load { active: 0, total: 0 });
    assert_eq!(load_between(a, CpuTimes { idle: 90, total: 300 }), Load { active: 100, total: 100 });
    assert_eq!(load_between(a, CpuTimes { idle: 400, total: 210 }), Load { active: 0, total: 10 });
    assert_eq!(load_between(a, CpuTimes { idle: 0, total: 0 }), Load { active: 0, total: 0 });
}

// ---------------------------------------------------------------------------
// network

#[test]
fn traffic_counters() {
    let dev = "Inter-|   Receive\n face |bytes\n    lo: 100 1 0 0 0 0 0 0 200 1\n  eth0:5 1 0 0 0 0 0 0 x 1\n bad: 1 2 3\n";
    let table = net_bytes(dev);
    assert_eq!(table.get("lo"), Some(&NetBytes { rx: 100, tx: 200 }));
    assert_eq!(table.get("eth0"), Some(&NetBytes { rx: 5, tx: 0 }));
    assert_eq!(table.get("bad"), None);
    assert_eq!(table.names().len(), 2);
}

#[test]
fn the_later_line_of_an_interface_counts() {
    let table = net_bytes("a: 1 0 0 0 0 0 0 0 2\na: 3 0 0 0 0 0 0 0 4\n");
    assert_eq!(table.get("a"), Some(&NetBytes { rx: 3, tx: 4 }));
}

#[test]
fn addresses_of_interfaces() {
    let table = local_ips("lo UNKNOWN 127.0.0.1/8\neth0 UP 10.0.0.2/24 metric 100\nwlan0 DOWN\n");
    assert_eq!(table.get("lo"), Some(&"127.0.0.1/8".to_string()));
    assert_eq!(table.get("eth0"), Some(&"10.0.0.2/24".to_string()));
    assert_eq!(table.get("wlan0"), None);
}

#[test]
fn traffic_between_readings() {
    let cur = NetBytes { rx: 5000, tx: 10 };
    assert_eq!(
        speed_between(Some(NetBytes { rx: 1000, tx: 20 }), cur, 7),
        Speed { rx: 4000, tx: 0, nanos: 7 }
    );
    assert_eq!(speed_between(None, cur, 7), Speed { rx: 0, tx: 0, nanos: 7 });
}

// ---------------------------------------------------------------------------
// memory

#[test]
fn memory_in_use() {
    let meminfo = "MemTotal:       16000 kB\nMemFree: 1 kB\nMemAvailable:    6000 kB\n";
    assert!(ram_usage_fits(meminfo));
    assert_eq!(ram_usage(meminfo), (16_384_000, 10_240_000));
    assert_eq!(ram_usage("MemTotal: 1 kB\nMemAvailable: 2 kB\n"), (1024, 0));
    assert_eq!(ram_usage("MemTotal: x kB\n"), (0, 0));
    assert_eq!(ram_usage(""), (0, 0));
    assert_eq!(ram_usage("MemTotal: 1 kB\nMemTotal: 2 kB\n"), (2048, 2048));
}

#[test]
fn memory_that_does_not_fit() {
    assert!(!ram_usage_fits("MemTotal: 18014398509481984 kB\n"));
    assert!(ram_usage_fits("MemTotal: 18014398509481983 kB\n"));
    assert!(ram_usage_fits("SwapTotal: 18014398509481984 kB\n"));
}

#[test]
fn algorithms_of_compressed_swap() {
    assert_eq!(active_algorithm("lzo lzo-rle lz4 [zstd]\n"), "zstd");
    assert_eq!(active_algorithm("lzo [zstd lz4] [a]\n"), "a");
    assert_eq!(active_algorithm("[]\n"), "");
    assert_eq!(active_algorithm("lzo\n"), "unknown");
    assert_eq!(active_algorithm(""), "unknown");
}

#[test]
fn compressed_swap_devices() {
    assert_eq!(
        zram_devices(&strings(&["zram1", "sda", "zram0", "zram10"])),
        strings(&["zram0", "zram1", "zram10"])
    );
}

#[test]
fn video_memory() {
    assert_eq!(amd_vram("17163091968\n", "1048576\n"), Some((17_163_091_968, 1_048_576)));
    assert_eq!(amd_vram("1024", ""), Some((1024, 0)));
    assert_eq!(amd_vram("0\n", "5"), None);
    assert_eq!(amd_vram("", ""), None);
}

// ---------------------------------------------------------------------------
// updates

fn nothing() -> Listings {
    Listings {
        pacman: None,
        aur: AurProbe { paru: false, yay: false, pikaur: false, output: String::new() },
        flatpak: None,
        npm: None,
        others: Vec::new(),
    }
}

fn report(listings: &Listings) -> Vec<String> {
    let mut state = UpdatesInfo::default();
    assert!(state.begin());
    check_updates(&mut state, listings, 7);
    assert!(!state.checking);
    assert_eq!(state.last_checked, Some(7));
    state.lines
}

#[test]
fn updates_are_lines_that_are_not_blank() {
    assert_eq!(count_updates("a 1 -> 2\n\n \t\nb 1 -> 2\n"), 2);
    assert_eq!(count_updates(""), 0);
}

#[test]
fn nothing_found() {
    assert_eq!(report(&nothing()), strings(&["No supported package managers found"]));
}

#[test]
fn every_manager_has_its_line() {
    let lines = report(&Listings {
        pacman: text("linux 6.9 -> 6.10\n"),
        aur: AurProbe { paru: false, yay: true, pikaur: true, output: "a\nb\n".to_string() },
        flatpak: text(""),
        npm: Some(NpmProbe {
            root: "/home/u/.npm/lib\n".to_string(),
            me: 1000,
            owner: Some(Owner { uid: 1000, mode: 0o755 }),
            outdated: "x:1:2\n".to_string(),
        }),
        others: vec![
            Listing {
                manager: Manager::Rustup,
                outputs: vec!["stable - Update available : 1.78 -> 1.79\nnightly - up to date\n".to_string()],
            },
            Listing {
                manager: Manager::Cargo,
                outputs: vec!["Package  Installed  Latest  Needs update\nrg v13 v14 Yes\nfd v9 v9 No\n".to_string()],
            },
            Listing {
                manager: Manager::Pipx,
                outputs: vec!["Package Version Latest Type\n------- ------- ------ -----\nblack 23.1 24.1 wheel\n".to_string()],
            },
            Listing {
                manager: Manager::Pip,
                outputs: vec!["Package Version Latest Type\n------- ------- ------ -----\nx 1.0 1.1 wheel\n".to_string()],
            },
            Listing { manager: Manager::Gem, outputs: vec!["json (2.6.1 < 2.7.0)\n".to_string()] },
            Listing {
                manager: Manager::Go,
                outputs: vec!["example.com/app\nrsc.io/quote v1.5.2\nrsc.io/sampler v1.3.0 [v1.99.99]\n".to_string()],
            },
            Listing { manager: Manager::Composer, outputs: vec!["a/b 1 ! 2\nc/d 1 ~ 3\n".to_string()] },
            Listing {
                manager: Manager::Deno,
                outputs: vec!["| Package | Current | Latest |\n| npm:chalk | 4.0.0 | 5.0.0 |\n".to_string()],
            },
        ],
    });
    assert_eq!(
        lines,
        strings(&[
            "Pacman (Official): 1 updates",
            "AUR (yay):        2 updates",
            "Flatpak:           0 updates",
            "NPM (Global):      1 updates",
            "Rustup:            1 updates",
            "Cargo:             1 updates",
            "Pipx:              1 updates",
            "Pip:               1 updates",
            "Gem:               1 updates",
            "Go:                1 updates",
            "Composer (Global): 2 updates",
            "Deno:              1 updates",
        ])
    );
}

#[test]
fn one_further_manager_is_enough() {
    for (manager, line) in [
        (Manager::Pipx, "Pipx:              0 updates"),
        (Manager::Go, "Go:                0 updates"),
        (Manager::Deno, "Deno:              0 updates"),
    ] {
        let mut found = nothing();
        found.others = vec![Listing { manager, outputs: vec![String::new()] }];
        assert_eq!(report(&found), strings(&[line]));
    }
}

#[test]
fn headings_do_not_count() {
    let heading = "Package Version  Latest   Type\n------- -------- -------- -----\n";
    let count = |manager: Manager, outputs: &[&str]| {
        let mut found = nothing();
        found.others = vec![Listing { manager, outputs: strings(outputs) }];
        report(&found)[0].clone()
    };
    let two = format!("{heading}dated   20240101 20240601 wheel\nx       1.0      1.1      wheel\n\n");
    assert_eq!(count(Manager::Pip, &[&two]), "Pip:               2 updates");
    assert_eq!(count(Manager::Pip, &[heading]), "Pip:               0 updates");
    assert_eq!(count(Manager::Pip, &["one line\n"]), "Pip:               0 updates");
    assert_eq!(count(Manager::Pip, &[""]), "Pip:               0 updates");
    assert_eq!(count(Manager::Pipx, &[&two, "", &two]), "Pipx:              4 updates");
    assert_eq!(count(Manager::Pipx, &[]), "Pipx:              0 updates");
}

fn all_queries() -> Vec<Query> {
    let mut all = vec![
        Query::Pacman,
        Query::Aur(Helper::Paru),
        Query::Aur(Helper::Yay),
        Query::Aur(Helper::Pikaur),
        Query::Flatpak,
        Query::NpmRoot,
        Query::NpmOutdated,
    ];
    all.extend(MANAGERS.iter().map(|m| Query::Further(*m)));
    all
}

#[test]
fn commands_of_the_update_check() {
    assert_eq!(update_command(Query::Pacman), strings(&["checkupdates"]));
    assert_eq!(update_command(Query::Aur(Helper::Yay)), strings(&["yay", "-Qua"]));
    assert_eq!(update_command(Query::Flatpak), strings(&["flatpak", "remote-ls", "--updates"]));
    assert_eq!(update_command(Query::NpmRoot), strings(&["npm", "root", "-g"]));
    assert_eq!(
        update_command(Query::NpmOutdated),
        strings(&["npm", "outdated", "-g", "--parseable"])
    );
    let further: Vec<String> =
        MANAGERS.iter().map(|m| update_command(Query::Further(*m)).join(" ")).collect();
    assert_eq!(
        further,
        strings(&[
            "rustup check",
            "cargo install-update --list",
            "pipx list --short",
            "pip list --outdated",
            "gem outdated",
            "go list -m -u all",
            "composer global outdated --direct",
            "deno outdated",
        ])
    );
    assert_eq!(
        pipx_command("black"),
        strings(&["pipx", "runpip", "black", "list", "--outdated", "--not-required"])
    );
}

#[test]
fn commands_are_neither_elevated_nor_do_they_change_anything() {
    for q in all_queries() {
        let command = update_command(q);
        assert_eq!(command[0], program(q));
        for word in ["sudo", "doas", "pkexec", "install", "upgrade", "update", "-S", "-Syu"] {
            assert!(!command.contains(&word.to_string()));
        }
    }
}

#[test]
fn only_installed_managers_are_asked() {
    let mut found = Found {
        checkupdates: false,
        paru: false,
        yay: false,
        pikaur: false,
        flatpak: false,
        npm: false,
        further: Vec::new(),
    };
    assert_eq!(queries(&found), vec![]);
    found.yay = true;
    found.pikaur = true;
    found.npm = true;
    found.further = vec![Manager::Cargo, Manager::Deno];
    assert_eq!(
        queries(&found),
        vec![
            Query::Aur(Helper::Yay),
            Query::NpmRoot,
            Query::Further(Manager::Cargo),
            Query::Further(Manager::Deno),
        ]
    );
    found.checkupdates = true;
    found.flatpak = true;
    assert_eq!(queries(&found).len(), 6);
}

#[test]
fn packages_of_pipx() {
    assert_eq!(pipx_packages("black 23.1.0\n\nhttpie 3.2.1\n"), strings(&["black", "httpie"]));
    assert!(pipx_packages("").is_empty());
}

#[test]
fn packages_of_the_system_are_not_counted() {
    let mut found = nothing();
    found.npm = Some(NpmProbe {
        root: "/usr/lib/node_modules\n".to_string(),
        me: 1000,
        owner: Some(Owner { uid: 0, mode: 0o755 }),
        outdated: "x:1:2\n".to_string(),
    });
    assert_eq!(report(&found), strings(&["NPM (Global):      managed by pacman"]));
    assert!(npm_counted("/x\n", 0, None));
    assert!(!npm_counted(" \n", 0, None));
    assert!(!npm_counted("/x", 1000, None));
}

#[test]
fn helpers_by_preference() {
    assert_eq!(aur_helper(true, true, true), Some(Helper::Paru));
    assert_eq!(aur_helper(false, true, true), Some(Helper::Yay));
    assert_eq!(aur_helper(false, false, true), Some(Helper::Pikaur));
    assert_eq!(aur_helper(false, false, false), None);
}

#[test]
fn one_check_at_a_time() {
    let mut state = UpdatesInfo::default();
    assert!(state.begin());
    assert!(!state.begin());
    assert!(state.checking);
    check_updates(&mut state, &nothing(), 3);
    assert!(state.begin());
    assert_eq!(state.lines.len(), 1);
    assert_eq!(state.last_checked, Some(3));
}

// ---------------------------------------------------------------------------
// keys

fn press(key: Key) -> KeyEvent {
    KeyEvent { key, ctrl: false, press: true }
}

#[test]
fn quitting() {
    assert_eq!(on_key(2, press(Key::Char('q'))), Action::Quit);
    assert_eq!(on_key(2, press(Key::Esc)), Action::Quit);
    assert_eq!(on_key(2, KeyEvent { key: Key::Char('c'), ctrl: true, press: true }), Action::Quit);
    assert_eq!(on_key(2, press(Key::Char('c'))), Action::Show(2));
    assert_eq!(on_key(2, KeyEvent { key: Key::Esc, ctrl: false, press: false }), Action::Show(2));
}

#[test]
fn refreshing() {
    assert_eq!(on_key(0, press(Key::Char('r'))), Action::Refresh);
}

#[test]
fn moving_between_tabs() {
    assert_eq!(on_key(0, press(Key::Left)), Action::Show(0));
    assert_eq!(on_key(3, press(Key::Char('h'))), Action::Show(2));
    assert_eq!(on_key(4, press(Key::Right)), Action::Show(5));
    assert_eq!(on_key(5, press(Key::Char('l'))), Action::Show(5));
    assert_eq!(on_key(1, press(Key::Other)), Action::Show(1));
}

#[test]
fn left_undoes_right() {
    assert_eq!(on_key(2, press(Key::Right)), Action::Show(3));
    assert_eq!(on_key(3, press(Key::Left)), Action::Show(2));
}

#[test]
fn digits_select_tabs() {
    for (i, c) in ['1', '2', '3', '4', '5', '6'].into_iter().enumerate() {
        assert_eq!(on_key(5 - i, press(Key::Char(c))), Action::Show(i));
    }
    assert_eq!(on_key(1, press(Key::Char('0'))), Action::Show(1));
    assert_eq!(on_key(1, press(Key::Char('7'))), Action::Show(1));
}
