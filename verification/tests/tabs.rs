use std::time::Duration;

use sysinfo::cache::{expired, Cached, Fresh};
use sysinfo::cpu::Load;
use sysinfo::gpu::GpuInfo;
use sysinfo::host::{cpu_mhz, StaticInfo};
use sysinfo::hwmon::HwmonChip;
use sysinfo::keys::TAB_COUNT;
use sysinfo::memory::{zram_info, ZramDevice};
use sysinfo::net::{local_ips, Speed};
use sysinfo::page::{Page, Piece, Value};
use sysinfo::readings::{chip_lines, per_core, temps_inline};
use sysinfo::sampler::{Sampler, HWMON_TTL, MIN_INTERVAL};
use sysinfo::ui::{
    bar, cores_tab, gpu_tab, memory_tab, net_tab, sensors_tab, system_tab, wants_sensors,
    HostReading, TABS,
};
use sysinfo::updates::UpdatesInfo;

fn percent(part: u64, whole: u64) -> f64 {
    if whole == 0 {
        0.0
    } else {
        part as f64 / whole as f64 * 100.0
    }
}

fn number(value: Value) -> f64 {
    match value {
        Value::Quotient { num, den } => num as f64 / den as f64,
        Value::Percent { part, whole } => percent(part, whole),
        Value::Rate { bytes, nanos } => {
            bytes as f64 / 1024.0 / Duration::from_nanos(nanos).as_secs_f64()
        }
        Value::Scaled { bits, divisor } => f64::from_bits(bits) / divisor as f64,
    }
}

fn draw(page: &Page) -> String {
    let mut out = String::new();
    for piece in &page.pieces {
        match piece {
            Piece::Text(s) => out.push_str(s),
            Piece::Number { value, decimals, width } => {
                out.push_str(&format!("{:width$.decimals$}", number(*value)));
            }
            Piece::Gauge { part, whole, width } => {
                let pct = percent(*part, *whole);
                let filled = (pct / 100.0 * *width as f64).round() as usize;
                out.push_str(&bar(filled, *width, &format!("{pct:.1}")));
            }
        }
    }
    out
}

const SECOND: u64 = 1_000_000_000;
const STAT: &str = "cpu 100 0 0 100 0\ncpu0 50 0 0 50 0\ncpu1 50 0 0 50 0\n";
const STAT_LATER: &str = "cpu 150 0 0 150 0\ncpu0 100 0 0 50 0\ncpu1 50 0 0 100 0\n";
const DEV: &str = "lo: 1 0 0 0 0 0 0 0 1\neth0: 1000 0 0 0 0 0 0 0 2000\n";
const DEV_LATER: &str = "eth0: 11240 0 0 0 0 0 0 0 2000\nwlan0: 5 0 0 0 0 0 0 0 5\n";

fn readings(list: &[(&str, f64)]) -> Vec<(String, u64)> {
    list.iter().map(|(l, v)| (l.to_string(), v.to_bits())).collect()
}

fn chip(id: &str, name: &str, temps: &[(&str, f64)]) -> HwmonChip {
    let mut c = HwmonChip::new(id, name);
    c.temps = readings(temps);
    c
}

fn fresh<T>(at: u64, value: T) -> Option<Fresh<T>> {
    Some(Fresh { at, value })
}

fn statics(gpus: Vec<GpuInfo>) -> StaticInfo {
    StaticInfo {
        hostname: "box".to_string(),
        os_name: "Arch Linux".to_string(),
        kernel: "6.9.1".to_string(),
        arch: "x86_64".to_string(),
        cpu_model: "CPU".to_string(),
        wifi_standard: "Wi-Fi 7 (802.11be)".to_string(),
        wifi_bands: "2.4 GHz, 5 GHz".to_string(),
        gpus,
    }
}

fn gpu(name: &str, driver: &str, hwmon_id: Option<&str>) -> GpuInfo {
    GpuInfo {
        driver: driver.to_string(),
        name: name.to_string(),
        hwmon_id: hwmon_id.map(|h| h.to_string()),
        dev_path: String::new(),
    }
}

// ---------------------------------------------------------------------------
// caches

#[test]
fn values_expire() {
    assert!(expired(None, 0, 0));
    assert!(!expired(Some(5), 6, 2));
    assert!(expired(Some(5), 7, 2));
    assert!(!expired(Some(5), 4, 1));
}

#[test]
fn a_value_is_kept_for_its_time() {
    let mut c = Cached::new("none".to_string());
    c.offer(10, 5, fresh(11, "first".to_string()));
    assert_eq!(c.value, "first");
    c.offer(15, 5, fresh(15, "second".to_string()));
    assert_eq!(c.value, "first");
    c.offer(16, 5, None);
    assert_eq!(c.value, "first");
    c.offer(16, 5, fresh(16, "third".to_string()));
    assert_eq!(c.value, "third");
    assert_eq!(c.at, Some(16));
}

// ---------------------------------------------------------------------------
// samples

#[test]
fn the_first_sample_has_no_load() {
    let s = Sampler::new(0, STAT, DEV);
    assert_eq!(s.cpu_load, Load { active: 0, total: 0 });
    assert_eq!(s.core_loads, vec![Load { active: 0, total: 0 }, Load { active: 0, total: 0 }]);
    assert_eq!(s.net_speeds.get("eth0"), Some(&Speed { rx: 0, tx: 0, nanos: MIN_INTERVAL }));
}

#[test]
fn loads_and_traffic_between_samples() {
    let mut s = Sampler::new(0, STAT, DEV);
    s.sample(SECOND, STAT_LATER, DEV_LATER);
    assert_eq!(s.cpu_load, Load { active: 50, total: 100 });
    assert_eq!(s.core_loads, vec![Load { active: 50, total: 50 }, Load { active: 0, total: 50 }]);
    assert_eq!(s.net_speeds.get("eth0"), Some(&Speed { rx: 10240, tx: 0, nanos: SECOND }));
    assert_eq!(s.net_speeds.get("wlan0"), Some(&Speed { rx: 0, tx: 0, nanos: SECOND }));
    assert_eq!(s.net_speeds.get("lo"), Some(&Speed { rx: 0, tx: 0, nanos: MIN_INTERVAL }));
}

#[test]
fn a_sample_too_soon_changes_nothing() {
    let mut s = Sampler::new(0, STAT, DEV);
    assert!(!s.due(MIN_INTERVAL - 1));
    s.sample(MIN_INTERVAL - 1, STAT_LATER, DEV_LATER);
    assert_eq!(s.cpu_load, Load { active: 0, total: 0 });
    assert_eq!(s.last_sample, 0);
    s.sample(MIN_INTERVAL - 1, "cpu 18446744073709551615 1 0 0 0\n", "");
    assert_eq!(s.last_sample, 0);
    assert!(s.due(MIN_INTERVAL));
    s.sample(MIN_INTERVAL, STAT_LATER, DEV_LATER);
    assert_eq!(s.cpu_load, Load { active: 50, total: 100 });
    assert_eq!(s.last_sample, MIN_INTERVAL);
}

#[test]
fn without_times_every_sample_is_the_first() {
    let mut s = Sampler::new(0, "", "");
    assert!(s.due(0));
    s.sample(1, STAT, DEV);
    assert_eq!(s.cpu_load, Load { active: 0, total: 0 });
    assert_eq!(s.net_speeds.get("eth0"), Some(&Speed { rx: 0, tx: 0, nanos: MIN_INTERVAL }));
}

#[test]
fn nothing_changed_between_samples() {
    let mut s = Sampler::new(0, STAT, DEV);
    s.sample(2 * SECOND, STAT, DEV);
    assert_eq!(s.cpu_load, Load { active: 0, total: 0 });
    assert_eq!(s.core_loads, vec![Load { active: 0, total: 0 }, Load { active: 0, total: 0 }]);
    assert_eq!(s.net_speeds.get("eth0"), Some(&Speed { rx: 0, tx: 0, nanos: 2 * SECOND }));
}

#[test]
fn caches_of_the_sampler() {
    let mut s = Sampler::new(0, STAT, DEV);
    assert!(s.hwmon_due(0) && s.disks_due(0) && s.ips_due(0));
    assert_eq!(s.hwmon(0, fresh(0, vec![chip("hwmon0", "k10temp", &[("Tctl", 1.0)])])).len(), 1);
    assert!(!s.hwmon_due(2 * SECOND - 1));
    assert!(s.hwmon_due(2 * SECOND));
    assert_eq!(s.hwmon(SECOND, fresh(SECOND, Vec::new())).len(), 1);
    assert_eq!(s.hwmon_by_id(SECOND, None, "hwmon0").map(|c| c.name), Some("k10temp".to_string()));
    assert!(s.hwmon_by_id(SECOND, None, "hwmon1").is_none());
    assert!(s.cpu_chip(SECOND, None).is_some());
    assert!(s.cpu_chip(2 * SECOND, fresh(2 * SECOND, Vec::new())).is_none());
    assert_eq!(s.disks(0, fresh(0, "sda".to_string())), "sda");
    assert!(!s.disks_due(5 * SECOND - 1));
    assert!(s.disks_due(5 * SECOND));
    assert_eq!(s.ips(0, fresh(0, local_ips("lo UP 127.0.0.1/8\n"))).names().len(), 1);
    assert!(!s.ips_due(10 * SECOND - 1));
    assert!(s.ips_due(10 * SECOND));
    assert_eq!(HWMON_TTL, 2 * SECOND);
}

// ---------------------------------------------------------------------------
// pages

#[test]
fn gauges() {
    assert_eq!(bar(0, 4, "0.0"), "[░░░░] 0.0%");
    assert_eq!(bar(3, 4, "75.0"), "[███░] 75.0%");
    assert_eq!(bar(4, 4, "100.0"), "[████] 100.0%");
}

#[test]
fn gauges_are_equally_wide() {
    assert_eq!(bar(1, 20, "5.0").chars().count(), bar(19, 20, "5.0").chars().count());
}

#[test]
fn a_page_shows_what_was_put_on_it() {
    let mut a = Page::new();
    a.put("x = ");
    a.put_number(Value::Quotient { num: 3, den: 2 }, 1, 6);
    let mut b = Page::new();
    b.put_gauge(1, 2, 4);
    b.put_number(Value::Percent { part: 1, whole: 0 }, 1, 0);
    a.put_page(b);
    assert_eq!(draw(&a), "x =    1.5[██░░] 50.0%0.0");
}

#[test]
fn frequencies_are_rounded() {
    assert_eq!(draw(&cpu_mhz(Some((3400.6f64.to_bits(), 5000.2f64.to_bits())))), "3401 MHz avg / 5000 MHz peak");
    assert_eq!(draw(&cpu_mhz(None)), "Unknown");
}

#[test]
fn readings_of_a_chip() {
    let mut c = chip("hwmon0", "x", &[("edge", 45500.0)]);
    c.fans = vec![("fan1".to_string(), 1200)];
    c.volts = readings(&[("vddgfx", 850.0)]);
    c.freqs = readings(&[("sclk", 2_000_000_000.0)]);
    c.powers = readings(&[("power1", 30_250_000.0)]);
    assert_eq!(
        draw(&chip_lines(&c, "  ")),
        "  edge           45.5°C\n  fan1           1200 RPM\n  sclk           2000 MHz\n  vddgfx         0.850 V\n  power1         30.2 W\n"
    );
    assert_eq!(draw(&chip_lines(&HwmonChip::new("", ""), "  ")), "");
}

#[test]
fn temperatures_on_one_line() {
    assert_eq!(draw(&temps_inline(&readings(&[("Tctl", 50000.0), ("Tccd1", 48250.0)]))), "Tctl: 50.0°C  Tccd1: 48.2°C");
}

#[test]
fn temperatures_of_cores() {
    let list = readings(&[("Package id 0", 1.0), ("Core 0", 2.0), ("Core1", 3.0), ("Core 4", 4.0)]);
    assert_eq!(per_core(&list), readings(&[("Core 0", 2.0), ("Core 4", 4.0)]));
}

#[test]
fn compressed_swap() {
    let devs = vec![
        ZramDevice {
            name: "zram1".to_string(),
            disksize: 0,
            data: 0,
            compressed: 0,
            algorithms: String::new(),
        },
        ZramDevice {
            name: "sda".to_string(),
            disksize: 1,
            data: 1,
            compressed: 1,
            algorithms: String::new(),
        },
        ZramDevice {
            name: "zram0".to_string(),
            disksize: 4 << 30,
            data: 3 << 20,
            compressed: 1 << 20,
            algorithms: "lzo [zstd]\n".to_string(),
        },
    ];
    assert_eq!(
        draw(&zram_info(Some(&devs))),
        "zram0: 4.00 GB swap, zstd | data 3.0 MB -> 1.0 MB in RAM (3.00:1, 2.0 MB saved)\n\
         zram1: 0.00 GB swap, unknown | data 0.0 MB -> 0.0 MB in RAM (1.00:1, 0.0 MB saved)"
    );
    assert_eq!(draw(&zram_info(Some(&Vec::new()))), "No ZRAM devices configured");
    assert_eq!(draw(&zram_info(None)), "ZRAM: unavailable");
}

// ---------------------------------------------------------------------------
// tabs

fn host() -> HostReading {
    HostReading {
        loadavg: "0.52 0.58 0.59 1/1021 12345\n".to_string(),
        uptime: 90061,
        processes: 321,
        mhz: None,
        governor: "schedutil\n".to_string(),
        now: 10 * SECOND,
    }
}

#[test]
fn tabs_have_titles() {
    assert_eq!(TABS.len(), TAB_COUNT);
    assert_eq!(TABS[0], "[1] System & Load");
    assert_eq!(TABS[5], "[6] All Sensors");
}

#[test]
fn the_system_tab() {
    let mut s = Sampler::new(0, STAT, DEV);
    s.sample(SECOND, STAT_LATER, DEV_LATER);
    let updates = UpdatesInfo {
        lines: vec!["Pacman (Official): 1 updates".to_string(), "Flatpak:           0 updates".to_string()],
        checking: false,
        last_checked: Some(3 * SECOND + 1),
    };
    let page = system_tab(
        &statics(Vec::new()),
        &mut s,
        Some(&updates),
        &host(),
        fresh(10 * SECOND, vec![chip("hwmon0", "k10temp", &[("Tctl", 50000.0)])]),
    );
    assert_eq!(
        draw(&page),
        "--- Host System ---\n\
         OS:               Arch Linux\n\
         Hostname:         box\n\
         Kernel:           6.9.1\n\
         Architecture:     x86_64\n\
         Uptime:           1d 1h 1m\n\n\
         --- System Load ---\n\
         Load Average:     0.52  0.58  0.59\n\
         Processes:        321  (runnable/total: 1/1021)\n\n\
         --- CPU ---\n\
         Model:            CPU\n\
         Frequency:        Unknown\n\
         Governor:         schedutil\n\
         Load:             [██████████░░░░░░░░░░] 50.0%\n\
         Temps:            Tctl: 50.0°C\n\n\
         --- Available Updates [r to refresh] ---\n \
         Pacman (Official): 1 updates\n \
         Flatpak:           0 updates (checked 6s ago)\n\n\
         Tabs: [1-6] or [h/l]  |  Quit: [q]/[Esc]"
    );
}

#[test]
fn the_state_of_the_update_check() {
    let shown = |updates: Option<&UpdatesInfo>| {
        let mut s = Sampler::new(0, STAT, DEV);
        let page = draw(&system_tab(&statics(Vec::new()), &mut s, updates, &host(), None));
        let from = page.find("refresh] ---\n ").unwrap() + 14;
        let to = page.find("\n\nTabs").unwrap();
        page[from..to].to_string()
    };
    let mut u = UpdatesInfo::default();
    assert_eq!(shown(None), "unavailable");
    assert_eq!(shown(Some(&u)), "Checking...");
    u.lines.push("A".to_string());
    assert_eq!(shown(Some(&u)), "A");
    u.last_checked = Some(10 * SECOND);
    assert_eq!(shown(Some(&u)), "A (checked 0s ago)");
    u.checking = true;
    assert_eq!(shown(Some(&u)), "A (refreshing...)");
}

#[test]
fn temperatures_that_are_not_there() {
    for chips in [Vec::new(), vec![chip("hwmon0", "k10temp", &[])], vec![chip("hwmon0", "nvme", &[("x", 1.0)])]] {
        let mut s = Sampler::new(0, STAT, DEV);
        let page = system_tab(&statics(Vec::new()), &mut s, None, &host(), fresh(0, chips));
        assert!(draw(&page).contains("\nTemps:            N/A\n"));
    }
}

#[test]
fn the_cores_tab() {
    let mut s = Sampler::new(0, STAT, DEV);
    s.sample(SECOND, STAT_LATER, DEV_LATER);
    let bars = "--- Per-Core CPU Utilization ---\n\
         Core  0: [██████████████████████████████] 100.0%\n\
         Core  1: [░░░░░░░░░░░░░░░░░░░░░░░░░░░░░░] 0.0%\n";
    assert_eq!(draw(&cores_tab(&mut s, SECOND, None)), bars);
    let intel = vec![chip("hwmon0", "coretemp", &[("Package id 0", 60000.0), ("Core 0", 55000.0)])];
    assert_eq!(
        draw(&cores_tab(&mut s, 2 * SECOND, fresh(2 * SECOND, intel))),
        format!("{bars}\n--- Per-Core Temperatures ---\nCore 0   55.0°C\n")
    );
    let amd = vec![chip("hwmon0", "k10temp", &[("Tctl", 60000.0)])];
    assert_eq!(
        draw(&cores_tab(&mut s, 4 * SECOND, fresh(4 * SECOND, amd))),
        format!(
            "{bars}\n--- CPU Temperatures [k10temp] ---\nTctl     60.0°C\n\n\
             (k10temp does not expose per-core sensors; these cover the package/CCDs)\n"
        )
    );
    let bare = vec![chip("hwmon0", "k10temp", &[])];
    assert_eq!(draw(&cores_tab(&mut s, 6 * SECOND, fresh(6 * SECOND, bare))), bars);
}

#[test]
fn the_memory_tab() {
    let mut s = Sampler::new(0, STAT, DEV);
    let meminfo = "MemTotal: 4194304 kB\nMemAvailable: 3145728 kB\n";
    assert_eq!(
        draw(&memory_tab(&mut s, meminfo, None, 0, fresh(0, "NAME SIZE\nsda 1G\n".to_string()))),
        "--- Memory (RAM) ---\n\
         Usage: 1.00 GB / 4.00 GB\n\
         [████████░░░░░░░░░░░░░░░░░░░░░░] 25.0%\n\n\
         --- ZRAM Swap ---\n\
         ZRAM: unavailable\n\n\
         --- Disks & Partitions ---\n\
         NAME SIZE\nsda 1G\n"
    );
    assert!(draw(&memory_tab(&mut s, "", None, 0, None)).contains("Usage: 0.00 GB / 0.00 GB\n[░░░░░░░░░░░░░░░░░░░░░░░░░░░░░░] 0.0%"));
}

#[test]
fn the_gpu_tab() {
    let mut s = Sampler::new(0, STAT, DEV);
    assert_eq!(
        draw(&gpu_tab(&statics(Vec::new()), &mut s, &Vec::new(), 0, fresh(0, Vec::new()))),
        "No GPUs detected under /sys/class/drm"
    );
    assert!(s.hwmon_due(0));
    let cards = statics(vec![
        gpu("AMD/ATI Navi 31", "amdgpu", Some("hwmon4")),
        gpu("GPU [xe]", "xe", None),
        gpu("Third", "i915", Some("hwmon9")),
    ]);
    assert!(wants_sensors(&cards.gpus));
    let page = gpu_tab(
        &cards,
        &mut s,
        &vec![Some((1 << 30, 256 << 20)), None],
        0,
        fresh(0, vec![chip("hwmon4", "amdgpu", &[("edge", 45000.0)]), chip("hwmon9", "i915", &[])]),
    );
    assert_eq!(
        draw(&page),
        "--- GPU 1: AMD/ATI Navi 31 [amdgpu] ---\n  VRAM           256 MB / 1024 MB (25.0%)\n  edge           45.0°C\n\n\
         --- GPU 2: GPU [xe] [xe] ---\n  no sensor data exposed\n\n\
         --- GPU 3: Third [i915] ---\n  no sensor data exposed\n\n"
    );
    assert!(!s.hwmon_due(0));
}

#[test]
fn cards_without_sensors_leave_the_chips_unread() {
    let mut s = Sampler::new(0, STAT, DEV);
    let cards = statics(vec![gpu("GPU [xe]", "xe", None)]);
    assert!(!wants_sensors(&cards.gpus));
    let page = gpu_tab(&cards, &mut s, &Vec::new(), 0, fresh(0, vec![chip("hwmon0", "x", &[])]));
    assert_eq!(draw(&page), "--- GPU 1: GPU [xe] [xe] ---\n  no sensor data exposed\n\n");
    assert!(s.hwmon_due(0));
}

#[test]
fn the_network_tab() {
    let mut s = Sampler::new(0, STAT, DEV);
    s.sample(SECOND, STAT_LATER, DEV_LATER);
    let page = net_tab(&statics(Vec::new()), &mut s, 0, fresh(0, local_ips("eth0 UP 10.0.0.2/24\n")));
    assert_eq!(
        draw(&page),
        "--- Network Interfaces ---\n  \
         eth0       down      10.0 KB/s | up       0.0 KB/s | 10.0.0.2/24\n  \
         wlan0      down       0.0 KB/s | up       0.0 KB/s | no IPv4\n\n\
         --- Wi-Fi Hardware Capabilities ---\n\
         Max Standard:    Wi-Fi 7 (802.11be)\n\
         Bands:           2.4 GHz, 5 GHz\n"
    );
}

#[test]
fn interfaces_are_listed_once_in_order() {
    let mut s = Sampler::new(0, STAT, "b: 0 0 0 0 0 0 0 0 0\nlo: 0 0 0 0 0 0 0 0 0\na: 0 0 0 0 0 0 0 0 0\nb: 0 0 0 0 0 0 0 0 0\n");
    let page = draw(&net_tab(&statics(Vec::new()), &mut s, 0, None));
    let names: Vec<&str> = page
        .lines()
        .filter(|l| l.contains(" down "))
        .filter_map(|l| l.split_whitespace().next())
        .collect();
    assert_eq!(names, vec!["a", "b"]);
}

#[test]
fn only_the_loopback_interface() {
    let mut s = Sampler::new(0, STAT, "lo: 1 0 0 0 0 0 0 0 1\n");
    let page = draw(&net_tab(&statics(Vec::new()), &mut s, 0, None));
    assert!(page.starts_with("--- Network Interfaces ---\n  none found\n\n---"));
}

const HINT: &str = "No fan or pump RPM sensors found.\n\
    Case fans, CPU fans and pumps are usually read by the motherboard's\n\
    Super I/O chip, whose kernel driver may not be loaded. Try:\n\
    sudo modprobe nct6775   (Nuvoton, most ASRock/ASUS/MSI boards)\n\
    or run sensors-detect from lm_sensors to identify the right driver.\n";

#[test]
fn the_sensors_tab() {
    let mut s = Sampler::new(0, STAT, DEV);
    let cards = statics(vec![
        gpu("first", "amdgpu", Some("hwmon4")),
        gpu("AMD/ATI Navi 31", "amdgpu", Some("hwmon4")),
        gpu("", "xe", Some("hwmon5")),
        gpu(" - CPU", "xe", Some("hwmon6")),
    ]);
    let chips = vec![
        chip("hwmon0", "k10temp", &[("Tctl", 50000.0)]),
        chip("hwmon4", "amdgpu", &[("edge", 45000.0)]),
        chip("hwmon5", "xe", &[("pkg", 40000.0)]),
        chip("hwmon6", "xe", &[("pkg", 40000.0)]),
        chip("hwmon7", "nvme", &[("Composite", 30000.0)]),
    ];
    let listed = "--- All Hardware Sensors (hwmon) ---\n\n\
         [k10temp] - CPU (hwmon0)\n  Tctl           50.0°C\n\n\
         [amdgpu] - AMD/ATI Navi 31 (hwmon4)\n  edge           45.0°C\n\n\
         [xe] (hwmon5)\n  pkg            40.0°C\n\n\
         [xe] - CPU (hwmon6)\n  pkg            40.0°C\n\n\
         [nvme] (hwmon7)\n  Composite      30.0°C\n\n";
    assert_eq!(draw(&sensors_tab(&cards, &mut s, 0, fresh(0, chips))), format!("{listed}{HINT}"));
}

#[test]
fn no_hint_where_there_is_a_fan() {
    let mut s = Sampler::new(0, STAT, DEV);
    let mut board = HwmonChip::new("hwmon1", "nct6775");
    board.fans = vec![("fan1".to_string(), 0)];
    assert_eq!(
        draw(&sensors_tab(&statics(Vec::new()), &mut s, 0, fresh(0, vec![board]))),
        "--- All Hardware Sensors (hwmon) ---\n\n[nct6775] (hwmon1)\n  fan1           0 RPM\n\n"
    );
}

#[test]
fn no_chips() {
    let mut s = Sampler::new(0, STAT, DEV);
    assert_eq!(
        draw(&sensors_tab(&statics(Vec::new()), &mut s, 0, fresh(0, Vec::new()))),
        format!("--- All Hardware Sensors (hwmon) ---\n\nno hwmon chips found\n\n{HINT}")
    );
}
