//! The tabs of the dashboard.

use vstd::prelude::*;

use crate::cache::Fresh;
use crate::cpu::{monus, Load};
use crate::gpu::GpuInfo;
use crate::host::{averages, cpu_governor, cpu_mhz, governor, loadavg, mhz_text, span_text, tasks, uptime, StaticInfo};
use crate::hwmon::{chip_by_id, cpu_driver, find_chip, first_cpu_chip, is_cpu_driver, ChipView, HwmonChip, SensorKind};
use crate::keys::TAB_COUNT;
use crate::layout::{join, join_list, law_repeated, left, pad_left, pad_right, push_repeated, repeated, right};
use crate::memory::{gib, law_units, mib, ram_usage, size_of_field, sizes_fit, zram_info, zram_page, ZramDevice};
use crate::names::{lex_lt, sort, NameTest, Order};
use crate::net::Speed;
use crate::number::{decimal, show};
use crate::page::{gauge, is_exactly, law_shows, law_text_may_be_cut, num, shows, text, Glyph, Page, Value};
use crate::readings::{chip_lines, chip_page, core_temps, inline_temps, law_core_temps, law_reading_shown, per_core, put_reading_lines, reading, reading_lines, temps_inline};
use crate::sampler::{Sampler, DISKS_TTL, HWMON_TTL, IPS_TTL};
use crate::table::{law_listed, law_names_ascend, lemma_arranged_lists, lemma_listed, lemma_row_map_finite, listed, lists, NameTable};
use crate::text::{lines, owned, same};
use crate::updates::UpdatesInfo;

verus! {

/// The titles of the tabs.
pub const TABS: [&'static str; TAB_COUNT] = [
    "[1] System & Load",
    "[2] CPU Cores",
    "[3] Memory & Disk",
    "[4] GPUs",
    "[5] Network",
    "[6] All Sensors",
];

/// A gauge with `filled` of its `width` cells filled, and the percentage.
pub open spec fn bar_text(filled: nat, width: nat, percentage: Seq<char>) -> Seq<char> {
    "["@ + repeated('█', filled) + repeated('░', (width - filled) as nat) + "] "@ + percentage
        + "%"@
}

/// Draws a gauge.
pub fn bar(filled: usize, width: usize, percentage: &str) -> (r: String)
    requires
        filled <= width,
    ensures
        r@ == bar_text(filled as nat, width as nat, percentage@),
{
    let mut r = owned("[");
    push_repeated(&mut r, '█', filled);
    push_repeated(&mut r, '░', width - filled);
    r.append("] ");
    r.append(percentage);
    r.append("%");
    r
}

/// Gauges of the same width are equally long, however full they are.
pub proof fn law_bar_width(a: nat, b: nat, width: nat, percentage: Seq<char>)
    requires
        a <= width,
        b <= width,
    ensures
        bar_text(a, width, percentage).len() == bar_text(b, width, percentage).len(),
{
}

// ---------------------------------------------------------------------------
// system and load

/// What is read anew each time the first tab is drawn.
#[derive(Debug)]
pub struct HostReading {
    /// The text of `/proc/loadavg`.
    pub loadavg: String,
    /// The whole seconds since boot.
    pub uptime: u64,
    pub processes: usize,
    /// Bits of the average and of the highest frequency in megahertz.
    pub mhz: Option<(u64, u64)>,
    /// The text of `scaling_governor`.
    pub governor: String,
    /// The point in time, in nanoseconds.
    pub now: u64,
}

/// The temperatures of the CPU.
pub open spec fn cpu_temps(chip: Option<ChipView>) -> Seq<Glyph> {
    match chip {
        Some(c) if c.temps.len() > 0 => inline_temps(c.temps),
        _ => text("N/A"@),
    }
}

/// When the updates were checked.
pub open spec fn updates_status(u: UpdatesInfo, now: u64) -> Seq<char> {
    if u.checking {
        " (refreshing...)"@
    } else {
        match u.last_checked {
            Some(at) => " (checked "@ + decimal((monus(now, at) / 1_000_000_000) as nat)
                + "s ago)"@,
            None => Seq::empty(),
        }
    }
}

/// The updates; `None` where their state cannot be had.
pub open spec fn updates_text(updates: Option<UpdatesInfo>, now: u64) -> Seq<char> {
    match updates {
        Some(u) if u.lines@.len() == 0 => "Checking..."@,
        Some(u) => join(u.lines.deep_view(), "\n "@) + updates_status(u, now),
        None => "unavailable"@,
    }
}

fn show_updates(updates: Option<&UpdatesInfo>, now: u64) -> (r: String)
    ensures
        r@ == updates_text(
            match updates {
                Some(u) => Some(*u),
                None => None,
            },
            now,
        ),
{
    match updates {
        None => owned("unavailable"),
        Some(u) => {
            if u.lines.is_empty() {
                return owned("Checking...");
            }
            let mut r = join_list(&u.lines, "\n ");
            if u.checking {
                r.append(" (refreshing...)");
            } else if let Some(at) = u.last_checked {
                let secs: u64 = now.saturating_sub(at) / 1_000_000_000;
                let ghost list = r@;
                r.append(" (checked ");
                r.append(show(secs).as_str());
                r.append("s ago)");
                assert(r@ =~= list + updates_status(*u, now));
            } else {
                assert(r@ + Seq::<char>::empty() =~= r@);
            }
            r
        },
    }
}

/// What the first tab shows.
pub open spec fn system_page(
    statics: StaticInfo,
    load: Load,
    chip: Option<ChipView>,
    updates: Option<UpdatesInfo>,
    host: HostReading,
) -> Seq<Glyph> {
    text("--- Host System ---\nOS:               "@) + text(statics.os_name@) + text(
        "\nHostname:         "@,
    ) + text(statics.hostname@) + text("\nKernel:           "@) + text(statics.kernel@) + text(
        "\nArchitecture:     "@,
    ) + text(statics.arch@) + text("\nUptime:           "@) + text(span_text(host.uptime as nat))
        + text("\n\n--- System Load ---\nLoad Average:     "@) + text(averages(host.loadavg@))
        + text("\nProcesses:        "@) + text(decimal(host.processes as nat)) + text(
        "  (runnable/total: "@,
    ) + text(tasks(host.loadavg@)) + text(")\n\n--- CPU ---\nModel:            "@) + text(
        statics.cpu_model@,
    ) + text("\nFrequency:        "@) + mhz_text(host.mhz) + text("\nGovernor:         "@) + text(
        governor(host.governor@),
    ) + text("\nLoad:             "@) + gauge(load.active, load.total, 20) + text(
        "\nTemps:            "@,
    ) + cpu_temps(chip) + text("\n\n--- Available Updates [r to refresh] ---\n "@) + text(
        updates_text(updates, host.now),
    ) + text("\n\nTabs: [1-6] or [h/l]  |  Quit: [q]/[Esc]"@)
}

/// The first tab: the host, its load, its CPU and the pending updates. Chips just
/// read are offered to the sampler.
pub fn system_tab(
    statics: &StaticInfo,
    sampler: &mut Sampler,
    updates: Option<&UpdatesInfo>,
    host: &HostReading,
    fresh: Option<Fresh<Vec<HwmonChip>>>,
) -> (r: Page)
    ensures
        *final(sampler) == (Sampler {
            hwmon: old(sampler).hwmon.offered(host.now, HWMON_TTL, fresh),
            ..*old(sampler)
        }),
        r@ == system_page(
            *statics,
            old(sampler).cpu_load,
            first_cpu_chip(final(sampler).hwmon.value.deep_view()),
            match updates {
                Some(u) => Some(*u),
                None => None,
            },
            *host,
        ),
{
    let (load, sched) = loadavg(host.loadavg.as_str());
    let mut temps = Page::new();
    match sampler.cpu_chip(host.now, fresh) {
        Some(c) => {
            if c.temps.is_empty() {
                temps.put("N/A");
            } else {
                temps.put_page(temps_inline(&c.temps));
            }
        },
        None => {
            temps.put("N/A");
        },
    }
    assert(temps@ =~= cpu_temps(first_cpu_chip(sampler.hwmon.value.deep_view())));
    let mut page = Page::new();
    page.put("--- Host System ---\nOS:               ");
    assert(page@ =~= text("--- Host System ---\nOS:               "@));
    page.put(statics.os_name.as_str());
    page.put("\nHostname:         ");
    page.put(statics.hostname.as_str());
    page.put("\nKernel:           ");
    page.put(statics.kernel.as_str());
    page.put("\nArchitecture:     ");
    page.put(statics.arch.as_str());
    page.put("\nUptime:           ");
    page.put(uptime(host.uptime).as_str());
    page.put("\n\n--- System Load ---\nLoad Average:     ");
    page.put(load.as_str());
    page.put("\nProcesses:        ");
    page.put(show(host.processes as u64).as_str());
    page.put("  (runnable/total: ");
    page.put(sched.as_str());
    page.put(")\n\n--- CPU ---\nModel:            ");
    page.put(statics.cpu_model.as_str());
    page.put("\nFrequency:        ");
    page.put_page(cpu_mhz(host.mhz));
    page.put("\nGovernor:         ");
    page.put(cpu_governor(host.governor.as_str()).as_str());
    page.put("\nLoad:             ");
    page.put_gauge(sampler.cpu_load.active, sampler.cpu_load.total, 20);
    page.put("\nTemps:            ");
    page.put_page(temps);
    page.put("\n\n--- Available Updates [r to refresh] ---\n ");
    page.put(show_updates(updates, host.now).as_str());
    page.put("\n\nTabs: [1-6] or [h/l]  |  Quit: [q]/[Esc]");
    page
}

// ---------------------------------------------------------------------------
// CPU cores

/// A line with a gauge for each core.
pub open spec fn core_lines(loads: Seq<Load>) -> Seq<Glyph>
    decreases loads.len(),
{
    if loads.len() == 0 {
        Seq::empty()
    } else {
        core_lines(loads.drop_last()) + (text("Core "@) + text(
            right(decimal((loads.len() - 1) as nat), 2),
        ) + text(": "@) + gauge(loads.last().active, loads.last().total, 30) + text("\n"@))
    }
}

/// The temperatures of single cores where the chip tells them, else all of the
/// chip's temperatures with a word of explanation.
pub open spec fn core_temps_page(chip: Option<ChipView>) -> Seq<Glyph> {
    match chip {
        Some(c) => if core_temps(c.temps).len() > 0 {
            text("\n--- Per-Core Temperatures ---\n"@) + reading_lines(
                core_temps(c.temps),
                SensorKind::Temp,
                Seq::empty(),
                8,
            )
        } else if c.temps.len() > 0 {
            text("\n--- CPU Temperatures ["@) + text(c.name) + text("] ---\n"@) + reading_lines(
                c.temps,
                SensorKind::Temp,
                Seq::empty(),
                8,
            ) + text("\n("@) + text(c.name) + text(
                " does not expose per-core sensors; these cover the package/CCDs)\n"@,
            )
        } else {
            Seq::empty()
        },
        None => Seq::empty(),
    }
}

/// What the second tab shows.
pub open spec fn cores_page(loads: Seq<Load>, chip: Option<ChipView>) -> Seq<Glyph> {
    text("--- Per-Core CPU Utilization ---\n"@) + core_lines(loads) + core_temps_page(chip)
}

fn put_core_lines(page: &mut Page, loads: &Vec<Load>)
    ensures
        final(page)@ == old(page)@ + core_lines(loads@),
{
    let n: usize = loads.len();
    let ghost first = page@;
    let ghost all = loads@;
    let mut i: usize = 0;
    assert(all.take(0) =~= Seq::<Load>::empty());
    assert(page@ =~= first + core_lines(all.take(0)));
    while i < n
        invariant
            i <= n,
            n == loads@.len(),
            all == loads@,
            page@ == first + core_lines(all.take(i as int)),
        decreases n - i,
    {
        let ghost done = core_lines(all.take(i as int));
        let idx = show(i as u64);
        let idx = pad_left(idx.as_str(), 2);
        page.put("Core ");
        page.put(idx.as_str());
        page.put(": ");
        page.put_gauge(loads[i].active, loads[i].total, 30);
        page.put("\n");
        proof {
            assert(all.take(i + 1).drop_last() =~= all.take(i as int));
            let l = all[i as int];
            let line = text("Core "@) + text(idx@) + text(": "@) + gauge(l.active, l.total, 30)
                + text("\n"@);
            assert(page@ =~= first + (done + line));
        }
        i += 1;
    }
    assert(all.take(n as int) =~= all);
}

fn put_core_temps(page: &mut Page, chip: &HwmonChip)
    ensures
        final(page)@ == old(page)@ + core_temps_page(Some(chip.deep_view())),
{
    let ghost c = chip.deep_view();
    let ghost first = page@;
    let cores = per_core(&chip.temps);
    if !cores.is_empty() {
        page.put("\n--- Per-Core Temperatures ---\n");
        put_reading_lines(page, &cores, SensorKind::Temp, "", 8);
        proof {
            reveal_strlit("");
            assert(""@ =~= Seq::<char>::empty());
            assert(page@ =~= first + core_temps_page(Some(c)));
        }
    } else if !chip.temps.is_empty() {
        page.put("\n--- CPU Temperatures [");
        page.put(chip.name.as_str());
        page.put("] ---\n");
        put_reading_lines(page, &chip.temps, SensorKind::Temp, "", 8);
        page.put("\n(");
        page.put(chip.name.as_str());
        page.put(" does not expose per-core sensors; these cover the package/CCDs)\n");
        proof {
            reveal_strlit("");
            assert(""@ =~= Seq::<char>::empty());
            assert(page@ =~= first + core_temps_page(Some(c)));
        }
    } else {
        assert(page@ =~= first + core_temps_page(Some(c)));
    }
}

/// The second tab: a gauge for each core, and temperatures.
pub fn cores_tab(
    sampler: &mut Sampler,
    now: u64,
    fresh: Option<Fresh<Vec<HwmonChip>>>,
) -> (r: Page)
    ensures
        *final(sampler) == (Sampler {
            hwmon: old(sampler).hwmon.offered(now, HWMON_TTL, fresh),
            ..*old(sampler)
        }),
        r@ == cores_page(
            old(sampler).core_loads@,
            first_cpu_chip(final(sampler).hwmon.value.deep_view()),
        ),
{
    let mut page = Page::new();
    page.put("--- Per-Core CPU Utilization ---\n");
    put_core_lines(&mut page, &sampler.core_loads);
    match sampler.cpu_chip(now, fresh) {
        Some(chip) => {
            put_core_temps(&mut page, &chip);
        },
        None => {},
    }
    assert(page@ =~= cores_page(
        old(sampler).core_loads@,
        first_cpu_chip(sampler.hwmon.value.deep_view()),
    ));
    page
}

// ---------------------------------------------------------------------------
// memory and disk

/// What the third tab shows.
pub open spec fn memory_page(
    total: u64,
    used: u64,
    zram: Option<Seq<ZramDevice>>,
    disks: Seq<char>,
) -> Seq<Glyph> {
    text("--- Memory (RAM) ---\nUsage: "@) + num(gib(used), 2, 0) + text(" GB / "@) + num(
        gib(total),
        2,
        0,
    ) + text(" GB\n"@) + gauge(used, total, 30) + text("\n\n--- ZRAM Swap ---\n"@) + zram_page(zram)
        + text("\n\n--- Disks & Partitions ---\n"@) + text(disks)
}

/// The third tab: main memory, compressed swap and disks, from the text of
/// `/proc/meminfo`, the block devices and the list of disks.
pub fn memory_tab(
    sampler: &mut Sampler,
    meminfo: &str,
    zram: Option<&Vec<ZramDevice>>,
    now: u64,
    fresh: Option<Fresh<String>>,
) -> (r: Page)
    requires
        sizes_fit(lines(meminfo@)),
    ensures
        *final(sampler) == (Sampler {
            disks: old(sampler).disks.offered(now, DISKS_TTL, fresh),
            ..*old(sampler)
        }),
        ({
            let total = size_of_field(lines(meminfo@), "MemTotal:"@) as u64;
            let available = size_of_field(lines(meminfo@), "MemAvailable:"@) as u64;
            r@ == memory_page(
                total,
                monus(total, available),
                match zram {
                    Some(list) => Some(list@),
                    None => None,
                },
                final(sampler).disks.value@,
            )
        }),
{
    let (total, used) = ram_usage(meminfo);
    let mut page = Page::new();
    page.put("--- Memory (RAM) ---\nUsage: ");
    assert(page@ =~= text("--- Memory (RAM) ---\nUsage: "@));
    page.put_number(Value::Quotient { num: used, den: 1073741824 }, 2, 0);
    page.put(" GB / ");
    page.put_number(Value::Quotient { num: total, den: 1073741824 }, 2, 0);
    page.put(" GB\n");
    page.put_gauge(used, total, 30);
    page.put("\n\n--- ZRAM Swap ---\n");
    page.put_page(zram_info(zram));
    page.put("\n\n--- Disks & Partitions ---\n");
    page.put(sampler.disks(now, fresh));
    page
}

// ---------------------------------------------------------------------------
// graphics cards

/// The use of a card's memory, where the card tells.
pub open spec fn vram_line(vram: Option<(u64, u64)>) -> Seq<Glyph> {
    match vram {
        Some((total, used)) => text("  "@) + text(left("VRAM"@, 14)) + text(" "@) + num(
            mib(used),
            0,
            0,
        ) + text(" MB / "@) + num(mib(total), 0, 0) + text(" MB ("@) + num(
            Value::Percent { part: used, whole: total },
            1,
            0,
        ) + text("%)\n"@),
        None => Seq::empty(),
    }
}

/// The sensors of a card.
pub open spec fn card_sensors(gpu: GpuInfo, chips: Seq<ChipView>) -> Seq<Glyph> {
    match gpu.hwmon_id {
        Some(id) => match chip_by_id(chips, id@) {
            Some(c) if !c.empty() => chip_page(c, "  "@),
            _ => text("  no sensor data exposed\n"@),
        },
        None => text("  no sensor data exposed\n"@),
    }
}

/// The entry of a card; cards are counted from one.
pub open spec fn gpu_entry(
    i: nat,
    gpu: GpuInfo,
    vram: Option<(u64, u64)>,
    chips: Seq<ChipView>,
) -> Seq<Glyph> {
    text("--- GPU "@) + text(decimal(i + 1)) + text(": "@) + text(gpu.name@) + text(" ["@) + text(
        gpu.driver@,
    ) + text("] ---\n"@) + vram_line(vram) + card_sensors(gpu, chips) + text("\n"@)
}

/// The memory of the `i`th card; none where it was not read.
pub open spec fn vram_of(vram: Seq<Option<(u64, u64)>>, i: int) -> Option<(u64, u64)> {
    if i < vram.len() {
        vram[i]
    } else {
        None
    }
}

/// The entries of the cards, one after the other.
pub open spec fn gpu_entries(
    gpus: Seq<GpuInfo>,
    vram: Seq<Option<(u64, u64)>>,
    chips: Seq<ChipView>,
) -> Seq<Glyph>
    decreases gpus.len(),
{
    if gpus.len() == 0 {
        Seq::empty()
    } else {
        let i = gpus.len() - 1;
        gpu_entries(gpus.drop_last(), vram, chips) + gpu_entry(
            i as nat,
            gpus.last(),
            vram_of(vram, i),
            chips,
        )
    }
}

/// What the fourth tab shows.
pub open spec fn gpu_page(
    gpus: Seq<GpuInfo>,
    vram: Seq<Option<(u64, u64)>>,
    chips: Seq<ChipView>,
) -> Seq<Glyph> {
    if gpus.len() == 0 {
        text("No GPUs detected under /sys/class/drm"@)
    } else {
        gpu_entries(gpus, vram, chips)
    }
}

/// Whether a card has sensors, so that the chips are read for the cards.
pub open spec fn any_sensors(gpus: Seq<GpuInfo>) -> bool {
    exists|i: int| 0 <= i < gpus.len() && (#[trigger] gpus[i]).hwmon_id is Some
}

pub fn wants_sensors(gpus: &Vec<GpuInfo>) -> (r: bool)
    ensures
        r == any_sensors(gpus@),
{
    let n: usize = gpus.len();
    let mut i: usize = 0;
    while i < n
        invariant
            i <= n,
            n == gpus@.len(),
            forall|j: int| 0 <= j < i ==> (#[trigger] gpus@[j]).hwmon_id is None,
        decreases n - i,
    {
        if gpus[i].hwmon_id.is_some() {
            return true;
        }
        i += 1;
    }
    false
}

fn show_gpu(i: usize, gpu: &GpuInfo, vram: Option<(u64, u64)>, chips: &Vec<HwmonChip>) -> (r: Page)
    requires
        i < usize::MAX,
    ensures
        r@ == gpu_entry(i as nat, *gpu, vram, chips.deep_view()),
{
    let mut mem = Page::new();
    if let Some((total, used)) = vram {
        mem.put("  ");
        mem.put(pad_right("VRAM", 14).as_str());
        mem.put(" ");
        mem.put_number(Value::Quotient { num: used, den: 1048576 }, 0, 0);
        mem.put(" MB / ");
        mem.put_number(Value::Quotient { num: total, den: 1048576 }, 0, 0);
        mem.put(" MB (");
        mem.put_number(Value::Percent { part: used, whole: total }, 1, 0);
        mem.put("%)\n");
    }
    assert(mem@ =~= vram_line(vram));
    let mut sensors = Page::new();
    let chip = match &gpu.hwmon_id {
        Some(id) => find_chip(chips, id.as_str()),
        None => None,
    };
    match chip {
        Some(c) => {
            if c.is_empty() {
                sensors.put("  no sensor data exposed\n");
            } else {
                sensors.put_page(chip_lines(&c, "  "));
            }
        },
        None => {
            sensors.put("  no sensor data exposed\n");
        },
    }
    assert(sensors@ =~= card_sensors(*gpu, chips.deep_view()));
    let mut page = Page::new();
    page.put("--- GPU ");
    assert(page@ =~= text("--- GPU "@));
    page.put(show((i + 1) as u64).as_str());
    page.put(": ");
    page.put(gpu.name.as_str());
    page.put(" [");
    page.put(gpu.driver.as_str());
    page.put("] ---\n");
    page.put_page(mem);
    page.put_page(sensors);
    page.put("\n");
    page
}

/// The fourth tab: the cards, their memory and their sensors.
pub fn gpu_tab(
    statics: &StaticInfo,
    sampler: &mut Sampler,
    vram: &Vec<Option<(u64, u64)>>,
    now: u64,
    fresh: Option<Fresh<Vec<HwmonChip>>>,
) -> (r: Page)
    ensures
        *final(sampler) == (if any_sensors(statics.gpus@) {
            Sampler {
                hwmon: old(sampler).hwmon.offered(now, HWMON_TTL, fresh),
                ..*old(sampler)
            }
        } else {
            *old(sampler)
        }),
        r@ == gpu_page(statics.gpus@, vram@, final(sampler).hwmon.value.deep_view()),
{
    let mut page = Page::new();
    if statics.gpus.is_empty() {
        page.put("No GPUs detected under /sys/class/drm");
        assert(page@ =~= text("No GPUs detected under /sys/class/drm"@));
        return page;
    }
    if wants_sensors(&statics.gpus) {
        let _ = sampler.hwmon(now, fresh);
    }
    let chips = &sampler.hwmon.value;
    let n: usize = statics.gpus.len();
    let ghost all = statics.gpus@;
    let ghost views = chips.deep_view();
    let mut i: usize = 0;
    assert(all.take(0) =~= Seq::<GpuInfo>::empty());
    while i < n
        invariant
            i <= n,
            n == statics.gpus@.len(),
            all == statics.gpus@,
            views == chips.deep_view(),
            page@ == gpu_entries(all.take(i as int), vram@, views),
        decreases n - i,
    {
        let v = if i < vram.len() {
            vram[i]
        } else {
            None
        };
        assert(all.take(i + 1).drop_last() =~= all.take(i as int));
        page.put_page(show_gpu(i, &statics.gpus[i], v, chips));
        i += 1;
    }
    assert(all.take(n as int) =~= all);
    page
}

// ---------------------------------------------------------------------------
// network

/// The interfaces that are shown: all but the loopback interface.
pub open spec fn shown_ifaces(speeds: Map<Seq<char>, Speed>) -> Set<Seq<char>> {
    speeds.dom().remove("lo"@)
}

/// The line of an interface.
pub open spec fn iface_text(
    iface: Seq<char>,
    speed: Speed,
    ips: Map<Seq<char>, Seq<char>>,
) -> Seq<Glyph> {
    text("  "@) + text(left(iface, 10)) + text(" down "@) + num(
        Value::Rate { bytes: speed.rx, nanos: speed.nanos },
        1,
        9,
    ) + text(" KB/s | up "@) + num(Value::Rate { bytes: speed.tx, nanos: speed.nanos }, 1, 9)
        + text(" KB/s | "@) + text(
        if ips.contains_key(iface) {
            ips[iface]
        } else {
            "no IPv4"@
        },
    ) + text("\n"@)
}

/// The lines of the interfaces, one after the other.
pub open spec fn iface_lines(
    list: Seq<Seq<char>>,
    speeds: Map<Seq<char>, Speed>,
    ips: Map<Seq<char>, Seq<char>>,
) -> Seq<Glyph>
    decreases list.len(),
{
    if list.len() == 0 {
        Seq::empty()
    } else {
        iface_lines(list.drop_last(), speeds, ips) + iface_text(
            list.last(),
            speeds[list.last()],
            ips,
        )
    }
}

/// What the fifth tab shows.
pub open spec fn net_page(
    standard: Seq<char>,
    bands: Seq<char>,
    speeds: Map<Seq<char>, Speed>,
    ips: Map<Seq<char>, Seq<char>>,
) -> Seq<Glyph> {
    let list = listed(shown_ifaces(speeds));
    text("--- Network Interfaces ---\n"@) + (if list.len() == 0 {
        text("  none found\n"@)
    } else {
        iface_lines(list, speeds, ips)
    }) + text("\n--- Wi-Fi Hardware Capabilities ---\nMax Standard:    "@) + text(standard) + text(
        "\nBands:           "@,
    ) + text(bands) + text("\n"@)
}

/// Names of interfaces to the outside.
pub struct Outside;

impl NameTest for Outside {
    open spec fn passes(&self, name: Seq<char>) -> bool {
        name != "lo"@
    }

    fn test(&self, name: &str) -> (r: bool) {
        !same(name, "lo")
    }
}

fn show_iface(iface: &str, speed: &Speed, ips: &NameTable<String>) -> (r: Page)
    requires
        ips.wf(),
    ensures
        r@ == iface_text(iface@, *speed, ips@),
{
    let ip = match ips.get(iface) {
        Some(ip) => ip.as_str(),
        None => "no IPv4",
    };
    let mut page = Page::new();
    page.put("  ");
    assert(page@ =~= text("  "@));
    page.put(pad_right(iface, 10).as_str());
    page.put(" down ");
    page.put_number(Value::Rate { bytes: speed.rx, nanos: speed.nanos }, 1, 9);
    page.put(" KB/s | up ");
    page.put_number(Value::Rate { bytes: speed.tx, nanos: speed.nanos }, 1, 9);
    page.put(" KB/s | ");
    page.put(ip);
    page.put("\n");
    page
}

fn put_ifaces(
    page: &mut Page,
    list: &Vec<String>,
    speeds: &NameTable<Speed>,
    ips: &NameTable<String>,
)
    requires
        speeds.wf(),
        ips.wf(),
        forall|i: int|
            0 <= i < list@.len() ==> speeds@.contains_key(#[trigger] list.deep_view()[i]),
    ensures
        final(page)@ == old(page)@ + iface_lines(list.deep_view(), speeds@, ips@),
{
    let n: usize = list.len();
    let ghost all = list.deep_view();
    let ghost first = page@;
    let mut i: usize = 0;
    assert(all.take(0) =~= Seq::<Seq<char>>::empty());
    assert(page@ =~= first + iface_lines(all.take(0), speeds@, ips@));
    while i < n
        invariant
            i <= n,
            n == list@.len(),
            all == list.deep_view(),
            speeds.wf(),
            ips.wf(),
            forall|i: int| 0 <= i < n ==> speeds@.contains_key(#[trigger] all[i]),
            page@ == first + iface_lines(all.take(i as int), speeds@, ips@),
        decreases n - i,
    {
        let ghost done = iface_lines(all.take(i as int), speeds@, ips@);
        let iface = list[i].as_str();
        proof {
            assert(iface@ == all[i as int]);
            assert(all.take(i + 1).drop_last() =~= all.take(i as int));
        }
        if let Some(speed) = speeds.get(iface) {
            page.put_page(show_iface(iface, speed, ips));
            assert(page@ =~= first + (done + iface_text(iface@, *speed, ips@)));
        }
        i += 1;
    }
    assert(all.take(n as int) =~= all);
}

/// The fifth tab: traffic and address of each interface, and the Wi-Fi hardware.
pub fn net_tab(
    statics: &StaticInfo,
    sampler: &mut Sampler,
    now: u64,
    fresh: Option<Fresh<NameTable<String>>>,
) -> (r: Page)
    requires
        old(sampler).wf(),
        fresh matches Some(f) ==> f.value.wf(),
    ensures
        final(sampler).wf(),
        *final(sampler) == (Sampler {
            ips: old(sampler).ips.offered(now, IPS_TTL, fresh),
            ..*old(sampler)
        }),
        r@ == net_page(
            statics.wifi_standard@,
            statics.wifi_bands@,
            old(sampler).net_speeds@,
            final(sampler).ips.value@,
        ),
{
    let _ = sampler.ips(now, fresh);
    let names = sampler.net_speeds.names();
    let list = sort(&names, &Outside, Order::Name);
    let ghost speeds = sampler.net_speeds@;
    let ghost set = shown_ifaces(speeds);
    proof {
        let all = names.deep_view();
        assert forall|k: Seq<char>| all.contains(k) && Outside.passes(k) <==> #[trigger] set.contains(
            k,
        ) by {
            assert(all.contains(k) <==> speeds.contains_key(k));
        }
        lemma_arranged_lists(all, Outside, set);
        lemma_listed(list.deep_view(), set);
        assert forall|i: int| 0 <= i < list@.len() implies speeds.contains_key(
            #[trigger] list.deep_view()[i],
        ) by {
            assert(list.deep_view().contains(list.deep_view()[i]));
            assert(set.contains(list.deep_view()[i]));
        }
    }
    let mut body = Page::new();
    if list.is_empty() {
        body.put("  none found\n");
    } else {
        put_ifaces(&mut body, &list, &sampler.net_speeds, &sampler.ips.value);
    }
    let mut page = Page::new();
    page.put("--- Network Interfaces ---\n");
    page.put_page(body);
    page.put("\n--- Wi-Fi Hardware Capabilities ---\nMax Standard:    ");
    page.put(statics.wifi_standard.as_str());
    page.put("\nBands:           ");
    page.put(statics.wifi_bands.as_str());
    page.put("\n");
    assert(page@ =~= net_page(
        statics.wifi_standard@,
        statics.wifi_bands@,
        speeds,
        sampler.ips.value@,
    ));
    page
}

/// The network tab has a line for each interface ever seen but the loopback
/// interface, no line twice, and in the order of the names.
pub proof fn law_interfaces_listed(speeds: NameTable<Speed>)
    ensures
        lists(listed(shown_ifaces(speeds@)), shown_ifaces(speeds@)),
        forall|k: Seq<char>|
            listed(shown_ifaces(speeds@)).contains(k) <==> #[trigger] speeds@.contains_key(k) && k
                != "lo"@,
        forall|i: int, j: int|
            0 <= i < j < listed(shown_ifaces(speeds@)).len() ==> lex_lt(
                #[trigger] listed(shown_ifaces(speeds@))[i],
                #[trigger] listed(shown_ifaces(speeds@))[j],
            ),
{
    lemma_row_map_finite(speeds.rows.deep_view());
    let set = shown_ifaces(speeds@);
    let list = listed(set);
    law_listed(set);
    assert forall|k: Seq<char>| list.contains(k) <==> #[trigger] speeds@.contains_key(k) && k
        != "lo"@ by {
        assert(set.contains(k) <==> speeds@.contains_key(k) && k != "lo"@);
    }
    assert forall|i: int, j: int| 0 <= i < j < list.len() implies lex_lt(
        #[trigger] list[i],
        #[trigger] list[j],
    ) by {
        law_names_ascend(list, i, j);
    }
}

// ---------------------------------------------------------------------------
// all sensors

/// The name of the last card with the given sensors.
pub open spec fn card_with(gpus: Seq<GpuInfo>, id: Seq<char>) -> Option<Seq<char>>
    decreases gpus.len(),
{
    if gpus.len() == 0 {
        None
    } else if gpus.last().hwmon_id.deep_view() == Some(id) {
        Some(gpus.last().name@)
    } else {
        card_with(gpus.drop_last(), id)
    }
}

/// What a chip belongs to: the CPU, or a card.
pub open spec fn context(chip: ChipView, gpus: Seq<GpuInfo>) -> Seq<char> {
    if is_cpu_driver(chip.name) {
        " - CPU"@
    } else {
        match card_with(gpus, chip.id) {
            Some(name) if name.len() > 0 && name != " - CPU"@ => " - "@ + name,
            Some(name) => name,
            None => Seq::empty(),
        }
    }
}

/// The entry of a chip.
pub open spec fn chip_entry(chip: ChipView, gpus: Seq<GpuInfo>) -> Seq<Glyph> {
    text("["@) + text(chip.name) + text("]"@) + text(context(chip, gpus)) + text(" ("@) + text(
        chip.id,
    ) + text(")\n"@) + chip_page(chip, "  "@) + text("\n"@)
}

/// The entries of the chips, one after the other.
pub open spec fn chip_entries(chips: Seq<ChipView>, gpus: Seq<GpuInfo>) -> Seq<Glyph>
    decreases chips.len(),
{
    if chips.len() == 0 {
        Seq::empty()
    } else {
        chip_entries(chips.drop_last(), gpus) + chip_entry(chips.last(), gpus)
    }
}

/// Whether no chip has a fan.
pub open spec fn fanless(chips: Seq<ChipView>) -> bool {
    forall|i: int| 0 <= i < chips.len() ==> (#[trigger] chips[i]).fans.len() == 0
}

/// The hint at the driver that may be missing.
pub open spec fn fan_hint() -> Seq<char> {
    "No fan or pump RPM sensors found.\nCase fans, CPU fans and pumps are usually read by the motherboard's\nSuper I/O chip, whose kernel driver may not be loaded. Try:\nsudo modprobe nct6775   (Nuvoton, most ASRock/ASUS/MSI boards)\nor run sensors-detect from lm_sensors to identify the right driver.\n"@
}

/// The entries of the chips, or a word where there are none.
pub open spec fn chip_list(chips: Seq<ChipView>, gpus: Seq<GpuInfo>) -> Seq<Glyph> {
    if chips.len() == 0 {
        text("no hwmon chips found\n\n"@)
    } else {
        chip_entries(chips, gpus)
    }
}

/// What the sixth tab shows.
pub open spec fn sensors_page(chips: Seq<ChipView>, gpus: Seq<GpuInfo>) -> Seq<Glyph> {
    text("--- All Hardware Sensors (hwmon) ---\n\n"@) + chip_list(chips, gpus) + (if fanless(chips) {
        text(fan_hint())
    } else {
        Seq::empty()
    })
}

/// The page ends with the hint at the driver exactly where no fan is exposed, be it
/// that no chip has one or that there are no chips at all.
pub proof fn law_fan_hint(chips: Seq<ChipView>, gpus: Seq<GpuInfo>)
    ensures
        ({
            let listed = text("--- All Hardware Sensors (hwmon) ---\n\n"@) + chip_list(chips, gpus);
            &&& fanless(chips) ==> sensors_page(chips, gpus) == listed + text(fan_hint())
            &&& !fanless(chips) ==> sensors_page(chips, gpus) == listed
            &&& chips.len() == 0 ==> fanless(chips)
            &&& (forall|i: int| 0 <= i < chips.len() ==> (#[trigger] chips[i]).fans.len() == 0)
                <==> fanless(chips)
        }),
{
    let listed = text("--- All Hardware Sensors (hwmon) ---\n\n"@) + chip_list(chips, gpus);
    assert(listed + Seq::<Glyph>::empty() =~= listed);
}

fn find_card(gpus: &Vec<GpuInfo>, id: &str) -> (r: Option<String>)
    ensures
        r.deep_view() == card_with(gpus@, id@),
{
    let mut i: usize = gpus.len();
    let ghost all = gpus@;
    assert(all.take(i as int) =~= all);
    while i > 0
        invariant
            i <= gpus@.len(),
            all == gpus@,
            card_with(all.take(i as int), id@) == card_with(all, id@),
        decreases i,
    {
        let gpu = &gpus[i - 1];
        assert(all.take(i as int).last() == *gpu);
        assert(all.take(i as int).drop_last() =~= all.take(i - 1));
        if let Some(h) = &gpu.hwmon_id {
            if same(h.as_str(), id) {
                return Some(owned(gpu.name.as_str()));
            }
        }
        i -= 1;
    }
    None
}

fn show_context(chip: &HwmonChip, gpus: &Vec<GpuInfo>) -> (r: String)
    ensures
        r@ == context(chip.deep_view(), gpus@),
{
    if cpu_driver(chip.name.as_str()) {
        return owned(" - CPU");
    }
    match find_card(gpus, chip.id.as_str()) {
        Some(name) => {
            if name.as_str().is_empty() || same(name.as_str(), " - CPU") {
                name
            } else {
                let mut r = owned(" - ");
                r.append(name.as_str());
                r
            }
        },
        None => String::new(),
    }
}

fn show_chip(chip: &HwmonChip, gpus: &Vec<GpuInfo>) -> (r: Page)
    ensures
        r@ == chip_entry(chip.deep_view(), gpus@),
{
    let mut page = Page::new();
    page.put("[");
    assert(page@ =~= text("["@));
    page.put(chip.name.as_str());
    page.put("]");
    page.put(show_context(chip, gpus).as_str());
    page.put(" (");
    page.put(chip.id.as_str());
    page.put(")\n");
    page.put_page(chip_lines(chip, "  "));
    page.put("\n");
    page
}

/// The sixth tab: every chip, and a hint where no chip has a fan.
pub fn sensors_tab(
    statics: &StaticInfo,
    sampler: &mut Sampler,
    now: u64,
    fresh: Option<Fresh<Vec<HwmonChip>>>,
) -> (r: Page)
    ensures
        *final(sampler) == (Sampler {
            hwmon: old(sampler).hwmon.offered(now, HWMON_TTL, fresh),
            ..*old(sampler)
        }),
        r@ == sensors_page(final(sampler).hwmon.value.deep_view(), statics.gpus@),
{
    let chips = sampler.hwmon(now, fresh);
    let ghost all = chips.deep_view();
    let mut page = Page::new();
    page.put("--- All Hardware Sensors (hwmon) ---\n\n");
    assert(page@ =~= text("--- All Hardware Sensors (hwmon) ---\n\n"@));
    let n: usize = chips.len();
    let mut body = Page::new();
    let mut fans = false;
    let mut i: usize = 0;
    assert(all.take(0) =~= Seq::<ChipView>::empty());
    while i < n
        invariant
            i <= n,
            n == chips@.len(),
            all == chips.deep_view(),
            fans == !fanless(all.take(i as int)),
            body@ == chip_entries(all.take(i as int), statics.gpus@),
        decreases n - i,
    {
        let chip = &chips[i];
        proof {
            assert(all.take(i + 1).drop_last() =~= all.take(i as int));
            assert(all.take(i + 1).last() == chip.deep_view());
            assert(all.take(i + 1) =~= all.take(i as int).push(chip.deep_view()));
            if fans {
                let j = choose|j: int|
                    0 <= j < i && (#[trigger] all.take(i as int)[j]).fans.len() != 0;
                assert(all.take(i + 1)[j].fans.len() != 0);
            } else {
                assert forall|j: int| 0 <= j < i implies (#[trigger] all.take(
                    i + 1,
                )[j]).fans.len() == 0 by {
                    assert(all.take(i + 1)[j] == all.take(i as int)[j]);
                }
            }
            assert(all.take(i + 1)[i as int].fans.len() == chip.fans@.len());
        }
        if !chip.fans.is_empty() {
            fans = true;
        }
        body.put_page(show_chip(chip, &statics.gpus));
        i += 1;
    }
    assert(all.take(n as int) =~= all);
    if n == 0 {
        body.put("no hwmon chips found\n\n");
    }
    assert(body@ =~= chip_list(all, statics.gpus@));
    if !fans {
        body.put(
            "No fan or pump RPM sensors found.\nCase fans, CPU fans and pumps are usually read by the motherboard's\nSuper I/O chip, whose kernel driver may not be loaded. Try:\nsudo modprobe nct6775   (Nuvoton, most ASRock/ASUS/MSI boards)\nor run sensors-detect from lm_sensors to identify the right driver.\n",
        );
    }
    page.put_page(body);
    assert(page@ =~= sensors_page(all, statics.gpus@));
    page
}

// ---------------------------------------------------------------------------
// what the tabs show

/// A gauge has its filled cells in front and its empty cells behind, in square brackets,
/// and the percentage behind them.
pub proof fn law_bar(filled: nat, width: nat, percentage: Seq<char>)
    requires
        filled <= width,
    ensures
        ({
            let bar = bar_text(filled, width, percentage);
            &&& bar[0] == '['
            &&& forall|i: int| 1 <= i <= filled ==> #[trigger] bar[i] == '█'
            &&& forall|i: int| filled < i <= width ==> #[trigger] bar[i] == '░'
            &&& bar.skip((width + 1) as int) == "] "@ + percentage + "%"@
        }),
{
    reveal_strlit("[");
    let bar = bar_text(filled, width, percentage);
    law_repeated('█', filled);
    law_repeated('░', (width - filled) as nat);
    assert("["@.len() == 1 && "["@[0] == '[');
    assert(bar.skip((width + 1) as int) =~= "] "@ + percentage + "%"@);
}

proof fn lemma_grow(s: Seq<Glyph>, x: Seq<Glyph>)
    ensures
        forall|part: Seq<Glyph>| shows(s, part) ==> #[trigger] shows(s + x, part),
{
    let none = Seq::<Glyph>::empty();
    assert forall|part: Seq<Glyph>| shows(s, part) implies #[trigger] shows(s + x, part) by {
        law_shows(none, s, x, part);
        assert(none + s + x =~= s + x);
    }
}

proof fn lemma_grow_front(s: Seq<Glyph>, x: Seq<Glyph>)
    ensures
        forall|part: Seq<Glyph>| shows(x, part) ==> #[trigger] shows(s + x, part),
{
    let none = Seq::<Glyph>::empty();
    assert forall|part: Seq<Glyph>| shows(x, part) implies #[trigger] shows(s + x, part) by {
        law_shows(s, x, none, part);
        assert(s + x + none =~= s + x);
    }
}

/// A value between two texts shows with the end of the one and the start of the other.
proof fn lemma_field(
    pre: Seq<Glyph>,
    before: Seq<char>,
    label: Seq<char>,
    value: Seq<Glyph>,
    after: Seq<char>,
    end: Seq<char>,
)
    requires
        label.is_suffix_of(before),
        end.is_prefix_of(after),
    ensures
        shows(pre + text(before) + value + text(after), text(label) + value + text(end)),
{
    let k = before.len() - label.len();
    let head = before.take(k);
    let rest = after.skip(end.len() as int);
    assert(before =~= head + label);
    assert(after =~= end + rest);
    law_text_may_be_cut(head, label);
    law_text_may_be_cut(end, rest);
    assert(pre + text(before) + value + text(after) =~= (pre + text(head)) + (text(label) + value
        + text(end)) + text(rest));
}

/// The first tab shows each fact about the host behind its name, on a line of its own.
pub proof fn law_system_page_host(
    statics: StaticInfo,
    load: Load,
    chip: Option<ChipView>,
    updates: Option<UpdatesInfo>,
    host: HostReading,
)
    ensures
        ({
            let page = system_page(statics, load, chip, updates, host);
            &&& shows(page, text("\nOS:               "@) + text(statics.os_name@) + text("\n"@))
            &&& shows(page, text("\nHostname:         "@) + text(statics.hostname@) + text("\n"@))
            &&& shows(page, text("\nKernel:           "@) + text(statics.kernel@) + text("\n"@))
            &&& shows(page, text("\nArchitecture:     "@) + text(statics.arch@) + text("\n"@))
            &&& shows(
                page,
                text("\nUptime:           "@) + text(span_text(host.uptime as nat)) + text("\n"@),
            )
            &&& shows(
                page,
                text("\nLoad Average:     "@) + text(averages(host.loadavg@)) + text("\n"@),
            )
            &&& shows(
                page,
                text("\nProcesses:        "@) + text(decimal(host.processes as nat)) + text("  ("@),
            )
            &&& shows(
                page,
                text("(runnable/total: "@) + text(tasks(host.loadavg@)) + text(")\n"@),
            )
        }),
{
    lemma_system_page(statics, load, chip, updates, host);
}

/// The first tab shows the CPU's model, frequency, governor, load and temperatures, and
/// the pending updates.
pub proof fn law_system_page_cpu(
    statics: StaticInfo,
    load: Load,
    chip: Option<ChipView>,
    updates: Option<UpdatesInfo>,
    host: HostReading,
)
    ensures
        ({
            let page = system_page(statics, load, chip, updates, host);
            &&& shows(page, text("\nModel:            "@) + text(statics.cpu_model@) + text("\n"@))
            &&& shows(page, text("\nFrequency:        "@) + mhz_text(host.mhz) + text("\n"@))
            &&& shows(
                page,
                text("\nGovernor:         "@) + text(governor(host.governor@)) + text("\n"@),
            )
            &&& shows(
                page,
                text("\nLoad:             "@) + seq![
                    Glyph::Gauge { part: load.active, whole: load.total, width: 20 },
                ] + text("\n"@),
            )
            &&& chip is Some && chip->0.temps.len() > 0 ==> shows(
                page,
                text("\nTemps:            "@) + inline_temps(chip->0.temps) + text("\n"@),
            )
            &&& (chip is None || chip->0.temps.len() == 0) ==> shows(
                page,
                text("\nTemps:            "@) + text("N/A"@) + text("\n"@),
            )
            &&& shows(
                page,
                text("--- Available Updates [r to refresh] ---\n "@) + text(
                    updates_text(updates, host.now),
                ) + text("\n"@),
            )
        }),
{
    lemma_system_page(statics, load, chip, updates, host);
}

proof fn lemma_system_page(
    statics: StaticInfo,
    load: Load,
    chip: Option<ChipView>,
    updates: Option<UpdatesInfo>,
    host: HostReading,
)
    ensures
        ({
            let page = system_page(statics, load, chip, updates, host);
            &&& shows(page, text("\nOS:               "@) + text(statics.os_name@) + text("\n"@))
            &&& shows(page, text("\nHostname:         "@) + text(statics.hostname@) + text("\n"@))
            &&& shows(page, text("\nKernel:           "@) + text(statics.kernel@) + text("\n"@))
            &&& shows(page, text("\nArchitecture:     "@) + text(statics.arch@) + text("\n"@))
            &&& shows(
                page,
                text("\nUptime:           "@) + text(span_text(host.uptime as nat)) + text("\n"@),
            )
            &&& shows(
                page,
                text("\nLoad Average:     "@) + text(averages(host.loadavg@)) + text("\n"@),
            )
            &&& shows(
                page,
                text("\nProcesses:        "@) + text(decimal(host.processes as nat)) + text("  ("@),
            )
            &&& shows(
                page,
                text("(runnable/total: "@) + text(tasks(host.loadavg@)) + text(")\n"@),
            )
            &&& shows(page, text("\nModel:            "@) + text(statics.cpu_model@) + text("\n"@))
            &&& shows(page, text("\nFrequency:        "@) + mhz_text(host.mhz) + text("\n"@))
            &&& shows(
                page,
                text("\nGovernor:         "@) + text(governor(host.governor@)) + text("\n"@),
            )
            &&& shows(
                page,
                text("\nLoad:             "@) + gauge(load.active, load.total, 20) + text("\n"@),
            )
            &&& shows(page, text("\nTemps:            "@) + cpu_temps(chip) + text("\n"@))
            &&& shows(
                page,
                text("--- Available Updates [r to refresh] ---\n "@) + text(
                    updates_text(updates, host.now),
                ) + text("\n"@),
            )
        }),
{
    let l0 = "--- Host System ---\nOS:               "@;
    let l1 = "\nHostname:         "@;
    let l2 = "\nKernel:           "@;
    let l3 = "\nArchitecture:     "@;
    let l4 = "\nUptime:           "@;
    let l5 = "\n\n--- System Load ---\nLoad Average:     "@;
    let l6 = "\nProcesses:        "@;
    let l7 = "  (runnable/total: "@;
    let l8 = ")\n\n--- CPU ---\nModel:            "@;
    let l9 = "\nFrequency:        "@;
    let l10 = "\nGovernor:         "@;
    let l11 = "\nLoad:             "@;
    let l12 = "\nTemps:            "@;
    let l13 = "\n\n--- Available Updates [r to refresh] ---\n "@;
    let l14 = "\n\nTabs: [1-6] or [h/l]  |  Quit: [q]/[Esc]"@;
    let n = "\n"@;
    lemma_literals();
    let none = Seq::<Glyph>::empty();
    let v0 = text(statics.os_name@);
    let v1 = text(statics.hostname@);
    let v2 = text(statics.kernel@);
    let v3 = text(statics.arch@);
    let v4 = text(span_text(host.uptime as nat));
    let v5 = text(averages(host.loadavg@));
    let v6 = text(decimal(host.processes as nat));
    let v7 = text(tasks(host.loadavg@));
    let v8 = text(statics.cpu_model@);
    let v9 = mhz_text(host.mhz);
    let v10 = text(governor(host.governor@));
    let v11 = gauge(load.active, load.total, 20);
    let v12 = cpu_temps(chip);
    let v13 = text(updates_text(updates, host.now));
    let s0 = text(l0) + v0 + text(l1);
    let s1 = s0 + v1 + text(l2);
    let s2 = s1 + v2 + text(l3);
    let s3 = s2 + v3 + text(l4);
    let s4 = s3 + v4 + text(l5);
    let s5 = s4 + v5 + text(l6);
    let s6 = s5 + v6 + text(l7);
    let s7 = s6 + v7 + text(l8);
    let s8 = s7 + v8 + text(l9);
    let s9 = s8 + v9 + text(l10);
    let s10 = s9 + v10 + text(l11);
    let s11 = s10 + v11 + text(l12);
    let s12 = s11 + v12 + text(l13);
    let s13 = s12 + v13 + text(l14);
    assert(system_page(statics, load, chip, updates, host) == s13);
    lemma_field(none, l0, "\nOS:               "@, v0, l1, n);
    assert(none + text(l0) + v0 + text(l1) =~= s0);
    lemma_field(text(l0) + v0, l1, l1, v1, l2, n);
    lemma_field(s0 + v1, l2, l2, v2, l3, n);
    lemma_field(s1 + v2, l3, l3, v3, l4, n);
    lemma_field(s2 + v3, l4, l4, v4, l5, n);
    lemma_field(s3 + v4, l5, "\nLoad Average:     "@, v5, l6, n);
    lemma_field(s4 + v5, l6, l6, v6, l7, "  ("@);
    lemma_field(s5 + v6, l7, "(runnable/total: "@, v7, l8, ")\n"@);
    lemma_field(s6 + v7, l8, "\nModel:            "@, v8, l9, n);
    lemma_field(s7 + v8, l9, l9, v9, l10, n);
    lemma_field(s8 + v9, l10, l10, v10, l11, n);
    lemma_field(s9 + v10, l11, l11, v11, l12, n);
    lemma_field(s10 + v11, l12, l12, v12, l13, n);
    lemma_field(s11 + v12, l13, "--- Available Updates [r to refresh] ---\n "@, v13, l14, n);
    lemma_grow(s0, v1);
    lemma_grow(s0 + v1, text(l2));
    lemma_grow(s1, v2);
    lemma_grow(s1 + v2, text(l3));
    lemma_grow(s2, v3);
    lemma_grow(s2 + v3, text(l4));
    lemma_grow(s3, v4);
    lemma_grow(s3 + v4, text(l5));
    lemma_grow(s4, v5);
    lemma_grow(s4 + v5, text(l6));
    lemma_grow(s5, v6);
    lemma_grow(s5 + v6, text(l7));
    lemma_grow(s6, v7);
    lemma_grow(s6 + v7, text(l8));
    lemma_grow(s7, v8);
    lemma_grow(s7 + v8, text(l9));
    lemma_grow(s8, v9);
    lemma_grow(s8 + v9, text(l10));
    lemma_grow(s9, v10);
    lemma_grow(s9 + v10, text(l11));
    lemma_grow(s10, v11);
    lemma_grow(s10 + v11, text(l12));
    lemma_grow(s11, v12);
    lemma_grow(s11 + v12, text(l13));
    lemma_grow(s12, v13);
    lemma_grow(s12 + v13, text(l14));
}

/// Where the names of the facts stand in the texts between them.
proof fn lemma_literals()
    ensures
        "\nOS:               "@.is_suffix_of("--- Host System ---\nOS:               "@),
        "\nHostname:         "@.is_suffix_of("\nHostname:         "@),
        "\nKernel:           "@.is_suffix_of("\nKernel:           "@),
        "\nArchitecture:     "@.is_suffix_of("\nArchitecture:     "@),
        "\nUptime:           "@.is_suffix_of("\nUptime:           "@),
        "\nLoad Average:     "@.is_suffix_of("\n\n--- System Load ---\nLoad Average:     "@),
        "\nProcesses:        "@.is_suffix_of("\nProcesses:        "@),
        "(runnable/total: "@.is_suffix_of("  (runnable/total: "@),
        "\nModel:            "@.is_suffix_of(")\n\n--- CPU ---\nModel:            "@),
        "\nFrequency:        "@.is_suffix_of("\nFrequency:        "@),
        "\nGovernor:         "@.is_suffix_of("\nGovernor:         "@),
        "\nLoad:             "@.is_suffix_of("\nLoad:             "@),
        "\nTemps:            "@.is_suffix_of("\nTemps:            "@),
        "--- Available Updates [r to refresh] ---\n "@.is_suffix_of(
            "\n\n--- Available Updates [r to refresh] ---\n "@,
        ),
        "\n"@.is_prefix_of("\nHostname:         "@),
        "\n"@.is_prefix_of("\nKernel:           "@),
        "\n"@.is_prefix_of("\nArchitecture:     "@),
        "\n"@.is_prefix_of("\nUptime:           "@),
        "\n"@.is_prefix_of("\n\n--- System Load ---\nLoad Average:     "@),
        "\n"@.is_prefix_of("\nProcesses:        "@),
        "  ("@.is_prefix_of("  (runnable/total: "@),
        ")\n"@.is_prefix_of(")\n\n--- CPU ---\nModel:            "@),
        "\n"@.is_prefix_of("\nFrequency:        "@),
        "\n"@.is_prefix_of("\nGovernor:         "@),
        "\n"@.is_prefix_of("\nLoad:             "@),
        "\n"@.is_prefix_of("\nTemps:            "@),
        "\n"@.is_prefix_of("\n\n--- Available Updates [r to refresh] ---\n "@),
        "\n"@.is_prefix_of("\n\nTabs: [1-6] or [h/l]  |  Quit: [q]/[Esc]"@),
{
    reveal_strlit("\n");
    reveal_strlit("  (");
    reveal_strlit(")\n");
    reveal_strlit("\nOS:               ");
    reveal_strlit("--- Host System ---\nOS:               ");
    reveal_strlit("\nHostname:         ");
    reveal_strlit("\nKernel:           ");
    reveal_strlit("\nArchitecture:     ");
    reveal_strlit("\nUptime:           ");
    reveal_strlit("\nLoad Average:     ");
    reveal_strlit("\n\n--- System Load ---\nLoad Average:     ");
    reveal_strlit("\nProcesses:        ");
    reveal_strlit("(runnable/total: ");
    reveal_strlit("  (runnable/total: ");
    reveal_strlit("\nModel:            ");
    reveal_strlit(")\n\n--- CPU ---\nModel:            ");
    reveal_strlit("\nFrequency:        ");
    reveal_strlit("\nGovernor:         ");
    reveal_strlit("\nLoad:             ");
    reveal_strlit("\nTemps:            ");
    reveal_strlit("--- Available Updates [r to refresh] ---\n ");
    reveal_strlit("\n\n--- Available Updates [r to refresh] ---\n ");
    reveal_strlit("\n\nTabs: [1-6] or [h/l]  |  Quit: [q]/[Esc]");
    lemma_ends("--- Host System ---\nOS:               "@, "\nOS:               "@);
    lemma_ends("\nHostname:         "@, "\nHostname:         "@);
    lemma_ends("\nKernel:           "@, "\nKernel:           "@);
    lemma_ends("\nArchitecture:     "@, "\nArchitecture:     "@);
    lemma_ends("\nUptime:           "@, "\nUptime:           "@);
    lemma_ends("\n\n--- System Load ---\nLoad Average:     "@, "\nLoad Average:     "@);
    lemma_ends("\nProcesses:        "@, "\nProcesses:        "@);
    lemma_ends("  (runnable/total: "@, "(runnable/total: "@);
    lemma_ends(")\n\n--- CPU ---\nModel:            "@, "\nModel:            "@);
    lemma_ends("\nFrequency:        "@, "\nFrequency:        "@);
    lemma_ends("\nGovernor:         "@, "\nGovernor:         "@);
    lemma_ends("\nLoad:             "@, "\nLoad:             "@);
    lemma_ends("\nTemps:            "@, "\nTemps:            "@);
    lemma_ends(
        "\n\n--- Available Updates [r to refresh] ---\n "@,
        "--- Available Updates [r to refresh] ---\n "@,
    );
    lemma_begins("\nHostname:         "@, "\n"@);
    lemma_begins("\nKernel:           "@, "\n"@);
    lemma_begins("\nArchitecture:     "@, "\n"@);
    lemma_begins("\nUptime:           "@, "\n"@);
    lemma_begins("\n\n--- System Load ---\nLoad Average:     "@, "\n"@);
    lemma_begins("\nProcesses:        "@, "\n"@);
    lemma_begins("  (runnable/total: "@, "  ("@);
    lemma_begins(")\n\n--- CPU ---\nModel:            "@, ")\n"@);
    lemma_begins("\nFrequency:        "@, "\n"@);
    lemma_begins("\nGovernor:         "@, "\n"@);
    lemma_begins("\nLoad:             "@, "\n"@);
    lemma_begins("\nTemps:            "@, "\n"@);
    lemma_begins("\n\n--- Available Updates [r to refresh] ---\n "@, "\n"@);
    lemma_begins("\n\nTabs: [1-6] or [h/l]  |  Quit: [q]/[Esc]"@, "\n"@);
}

proof fn lemma_ends(s: Seq<char>, t: Seq<char>)
    requires
        t.len() <= s.len(),
        forall|i: int| 0 <= i < t.len() ==> #[trigger] t[i] == s[s.len() - t.len() + i],
    ensures
        t.is_suffix_of(s),
{
    assert(s.subrange(s.len() - t.len(), s.len() as int) =~= t);
}

proof fn lemma_begins(s: Seq<char>, t: Seq<char>)
    requires
        t.len() <= s.len(),
        forall|i: int| 0 <= i < t.len() ==> #[trigger] t[i] == s[i],
    ensures
        t.is_prefix_of(s),
{
    assert(s.subrange(0, t.len() as int) =~= t);
}

/// What is said of the updates: that they are still looked for, that they cannot be had,
/// or the lines of the last check and how many whole seconds ago it ended.
pub proof fn law_updates_text(u: UpdatesInfo, now: u64, at: u64, secs: nat)
    ensures
        updates_text(None, now) == "unavailable"@,
        u.lines@.len() == 0 ==> updates_text(Some(u), now) == "Checking..."@,
        u.lines@.len() > 0 ==> {
            let list = join(u.lines.deep_view(), "\n "@);
            let told = updates_text(Some(u), now);
            &&& u.checking ==> told == list + " (refreshing...)"@
            &&& !u.checking && u.last_checked is None ==> told == list
            &&& !u.checking && u.last_checked == Some(at) && at <= now && 1_000_000_000 * secs <= now
                - at < 1_000_000_000 * (secs + 1) ==> told == list + (" (checked "@ + decimal(secs)
                + "s ago)"@)
        },
{
    if u.last_checked == Some(at) && at <= now && 1_000_000_000 * secs <= now - at < 1_000_000_000
        * (secs + 1) {
        assert((now - at) / 1_000_000_000 == secs);
    }
    let list = join(u.lines.deep_view(), "\n "@);
    assert(list + Seq::<char>::empty() =~= list);
}

/// Each core has its gauge, with the load it was sampled with, behind its number.
pub proof fn law_core_shown(loads: Seq<Load>, chip: Option<ChipView>, i: int)
    requires
        0 <= i < loads.len(),
    ensures
        shows(
            cores_page(loads, chip),
            text("Core "@) + text(right(decimal(i as nat), 2)) + text(": "@) + seq![
                Glyph::Gauge { part: loads[i].active, whole: loads[i].total, width: 30 },
            ] + text("\n"@),
        ),
{
    lemma_core_shown(loads, i);
    let header = text("--- Per-Core CPU Utilization ---\n"@);
    lemma_grow_front(header, core_lines(loads));
    lemma_grow(header + core_lines(loads), core_temps_page(chip));
}

proof fn lemma_core_shown(loads: Seq<Load>, i: int)
    requires
        0 <= i < loads.len(),
    ensures
        shows(
            core_lines(loads),
            text("Core "@) + text(right(decimal(i as nat), 2)) + text(": "@) + gauge(
                loads[i].active,
                loads[i].total,
                30,
            ) + text("\n"@),
        ),
    decreases loads.len(),
{
    let none = Seq::<Glyph>::empty();
    let line = text("Core "@) + text(right(decimal(i as nat), 2)) + text(": "@) + gauge(
        loads[i].active,
        loads[i].total,
        30,
    ) + text("\n"@);
    let front = core_lines(loads.drop_last());
    if i == loads.len() - 1 {
        assert(core_lines(loads) =~= front + line + none);
    } else {
        lemma_core_shown(loads.drop_last(), i);
        let n = loads.len() - 1;
        lemma_grow(
            front,
            text("Core "@) + text(right(decimal(n as nat), 2)) + text(": "@) + gauge(
                loads.last().active,
                loads.last().total,
                30,
            ) + text("\n"@),
        );
    }
}

/// Below the gauges stand the temperatures of single cores where the chip tells them,
/// else all that it tells; each of them is shown.
pub proof fn law_core_temperatures(loads: Seq<Load>, c: ChipView, i: int)
    ensures
        ({
            let page = cores_page(loads, Some(c));
            let cores = core_temps(c.temps);
            let line = |r: (Seq<char>, u64)|
                text(left(r.0, 8)) + text(" "@) + reading(SensorKind::Temp, r.1) + text("\n"@);
            &&& 0 <= i < cores.len() ==> shows(page, line(cores[i]))
            &&& cores.len() > 0 ==> page == text("--- Per-Core CPU Utilization ---\n"@)
                + core_lines(loads) + (text("\n--- Per-Core Temperatures ---\n"@) + reading_lines(
                c.temps.filter(|r: (Seq<char>, u64)| "Core "@.is_prefix_of(r.0)),
                SensorKind::Temp,
                Seq::empty(),
                8,
            ))
            &&& cores.len() == 0 && 0 <= i < c.temps.len() ==> shows(page, line(c.temps[i]))
            &&& cores.len() == 0 && c.temps.len() > 0 ==> shows(
                page,
                text("\n("@) + text(c.name) + text(
                    " does not expose per-core sensors; these cover the package/CCDs)\n"@,
                ),
            )
            &&& cores_page(loads, None) == text("--- Per-Core CPU Utilization ---\n"@)
                + core_lines(loads)
        }),
{
    let none = Seq::<char>::empty();
    let blank = Seq::<Glyph>::empty();
    let cores = core_temps(c.temps);
    let top = text("--- Per-Core CPU Utilization ---\n"@) + core_lines(loads);
    let below = core_temps_page(Some(c));
    let line = |r: (Seq<char>, u64)|
        text(left(r.0, 8)) + text(" "@) + reading(SensorKind::Temp, r.1) + text("\n"@);
    lemma_grow_front(top, below);
    law_core_temps(c.temps);
    assert(top + blank =~= top);
    assert(text(none) =~= blank);
    if cores.len() > 0 {
        let list = reading_lines(cores, SensorKind::Temp, none, 8);
        lemma_grow_front(text("\n--- Per-Core Temperatures ---\n"@), list);
        if 0 <= i < cores.len() {
            law_reading_shown(cores, i, SensorKind::Temp, none, 8);
            assert(text(none) + text(left(cores[i].0, 8)) + text(" "@) + reading(
                SensorKind::Temp,
                cores[i].1,
            ) + text("\n"@) =~= line(cores[i]));
        }
    } else if c.temps.len() > 0 {
        let list = reading_lines(c.temps, SensorKind::Temp, none, 8);
        let head = text("\n--- CPU Temperatures ["@) + text(c.name) + text("] ---\n"@);
        let note = text("\n("@) + text(c.name) + text(
            " does not expose per-core sensors; these cover the package/CCDs)\n"@,
        );
        assert(below =~= head + list + note);
        assert(below =~= (head + list) + note + blank);
        lemma_grow_front(head, list);
        lemma_grow(head + list, note);
        if 0 <= i < c.temps.len() {
            law_reading_shown(c.temps, i, SensorKind::Temp, none, 8);
            assert(text(none) + text(left(c.temps[i].0, 8)) + text(" "@) + reading(
                SensorKind::Temp,
                c.temps[i].1,
            ) + text("\n"@) =~= line(c.temps[i]));
        }
    }
}

/// The two numbers of the usage line are the used and the total bytes in gibibytes, with
/// nothing cut off, and the gauge below is that of the bytes. What is told of compressed
/// swap and the list of disks follow.
pub proof fn law_usage_line(total: u64, used: u64, zram: Option<Seq<ZramDevice>>, disks: Seq<char>)
    ensures
        exists|u: Value, t: Value|
            is_exactly(u, used as int, 1073741824) && is_exactly(t, total as int, 1073741824)
                && #[trigger] shows(
                memory_page(total, used, zram, disks),
                text("Usage: "@) + num(u, 2, 0) + text(" GB / "@) + num(t, 2, 0) + text(" GB\n"@)
                    + seq![Glyph::Gauge { part: used, whole: total, width: 30 }],
            ),
        shows(
            memory_page(total, used, zram, disks),
            text("--- ZRAM Swap ---\n"@) + zram_page(zram) + text("\n"@),
        ),
        shows(memory_page(total, used, zram, disks), text("--- Disks & Partitions ---\n"@) + text(disks)),
{
    let page = memory_page(total, used, zram, disks);
    let none = Seq::<Glyph>::empty();
    let (u, t) = (gib(used), gib(total));
    law_units(used);
    law_units(total);
    reveal_strlit("--- Memory (RAM) ---\nUsage: ");
    reveal_strlit("--- Memory (RAM) ---\n");
    reveal_strlit("Usage: ");
    reveal_strlit("\n\n--- ZRAM Swap ---\n");
    reveal_strlit("\n\n");
    reveal_strlit("--- ZRAM Swap ---\n");
    reveal_strlit("\n\n--- Disks & Partitions ---\n");
    reveal_strlit("--- Disks & Partitions ---\n");
    reveal_strlit("\n");
    reveal_strlit("\n--- Disks & Partitions ---\n");
    assert("--- Memory (RAM) ---\nUsage: "@ =~= "--- Memory (RAM) ---\n"@ + "Usage: "@);
    assert("\n\n--- ZRAM Swap ---\n"@ =~= "\n\n"@ + "--- ZRAM Swap ---\n"@);
    assert("\n\n--- Disks & Partitions ---\n"@ =~= "\n\n"@ + "--- Disks & Partitions ---\n"@);
    assert("\n\n--- Disks & Partitions ---\n"@ =~= "\n"@ + "\n--- Disks & Partitions ---\n"@);
    law_text_may_be_cut("--- Memory (RAM) ---\n"@, "Usage: "@);
    law_text_may_be_cut("\n\n"@, "--- ZRAM Swap ---\n"@);
    law_text_may_be_cut("\n\n"@, "--- Disks & Partitions ---\n"@);
    law_text_may_be_cut("\n"@, "\n--- Disks & Partitions ---\n"@);
    let usage = text("Usage: "@) + num(u, 2, 0) + text(" GB / "@) + num(t, 2, 0) + text(" GB\n"@)
        + seq![Glyph::Gauge { part: used, whole: total, width: 30 }];
    let swap = text("\n\n--- ZRAM Swap ---\n"@) + zram_page(zram);
    let rest = text("\n\n--- Disks & Partitions ---\n"@) + text(disks);
    let head = text("--- Memory (RAM) ---\n"@);
    assert(page =~= head + usage + (swap + rest));
    assert(shows(page, usage));
    assert(page =~= (head + usage + text("\n\n"@)) + (text("--- ZRAM Swap ---\n"@) + zram_page(zram)
        + text("\n"@)) + (text("\n--- Disks & Partitions ---\n"@) + text(disks)));
    assert(page =~= (head + usage + swap + text("\n\n"@)) + (text("--- Disks & Partitions ---\n"@)
        + text(disks)) + none);
}

/// Every card has its entry: its number counted from one, its name and driver, the use
/// of its memory where that is known, in mebibytes with nothing cut off, and its sensors.
/// That holds of the last card as of any other.
pub proof fn law_card_entry(
    gpus: Seq<GpuInfo>,
    vram: Seq<Option<(u64, u64)>>,
    chips: Seq<ChipView>,
    i: int,
    total: u64,
    used: u64,
)
    requires
        0 <= i < gpus.len(),
    ensures
        ({
            let page = gpu_page(gpus, vram, chips);
            let g = gpus[i];
            let title = text("--- GPU "@) + text(decimal((i + 1) as nat)) + text(": "@) + text(
                g.name@,
            ) + text(" ["@) + text(g.driver@) + text("] ---\n"@);
            &&& i < vram.len() && vram[i] == Some((total, used)) ==> exists|u: Value, t: Value|
                is_exactly(u, used as int, 1048576) && is_exactly(t, total as int, 1048576)
                    && #[trigger] shows(
                    page,
                    title + (text("  "@) + text(left("VRAM"@, 14)) + text(" "@) + num(u, 0, 0)
                        + text(" MB / "@) + num(t, 0, 0) + text(" MB ("@) + num(
                        Value::Percent { part: used, whole: total },
                        1,
                        0,
                    ) + text("%)\n"@)) + card_sensors(g, chips) + text("\n"@),
                )
            &&& i >= vram.len() || vram[i] is None ==> shows(
                page,
                title + card_sensors(g, chips) + text("\n"@),
            )
        }),
{
    let page = gpu_page(gpus, vram, chips);
    let g = gpus[i];
    let title = text("--- GPU "@) + text(decimal((i + 1) as nat)) + text(": "@) + text(g.name@)
        + text(" ["@) + text(g.driver@) + text("] ---\n"@);
    lemma_entry_shown(gpus, vram, chips, i);
    if i < vram.len() && vram[i] == Some((total, used)) {
        let (u, t) = (mib(used), mib(total));
        law_units(used);
        law_units(total);
        let line = text("  "@) + text(left("VRAM"@, 14)) + text(" "@) + num(u, 0, 0) + text(
            " MB / "@,
        ) + num(t, 0, 0) + text(" MB ("@) + num(
            Value::Percent { part: used, whole: total },
            1,
            0,
        ) + text("%)\n"@);
        assert(gpu_entry(i as nat, g, vram_of(vram, i), chips) == title + line + card_sensors(
            g,
            chips,
        ) + text("\n"@));
        assert(shows(page, title + line + card_sensors(g, chips) + text("\n"@)));
    } else if i >= vram.len() || vram[i] is None {
        assert(title + Seq::<Glyph>::empty() =~= title);
        assert(gpu_entry(i as nat, g, vram_of(vram, i), chips) == title + card_sensors(g, chips)
            + text("\n"@));
    }
}

proof fn lemma_entry_shown(
    gpus: Seq<GpuInfo>,
    vram: Seq<Option<(u64, u64)>>,
    chips: Seq<ChipView>,
    i: int,
)
    requires
        0 <= i < gpus.len(),
    ensures
        shows(
            gpu_entries(gpus, vram, chips),
            gpu_entry(i as nat, gpus[i], vram_of(vram, i), chips),
        ),
    decreases gpus.len(),
{
    let n = gpus.len() - 1;
    let front = gpu_entries(gpus.drop_last(), vram, chips);
    let entry = gpu_entry(n as nat, gpus.last(), vram_of(vram, n), chips);
    if i == n {
        assert(gpu_entries(gpus, vram, chips) =~= front + entry + Seq::<Glyph>::empty());
    } else {
        lemma_entry_shown(gpus.drop_last(), vram, chips, i);
        lemma_grow(front, entry);
    }
}

/// A card shows the readings of the chip that its sensors are named after; without such
/// a chip, or without readings, it says so.
pub proof fn law_card_sensors(gpu: GpuInfo, chips: Seq<ChipView>, c: ChipView)
    ensures
        ({
            let none = text("  no sensor data exposed\n"@);
            let told = card_sensors(gpu, chips);
            &&& gpu.hwmon_id is None ==> told == none
            &&& gpu.hwmon_id matches Some(id) ==> match chip_by_id(chips, id@) {
                Some(c) => if c.temps.len() + c.fans.len() + c.volts.len() + c.freqs.len()
                    + c.powers.len() > 0 {
                    told == chip_page(c, "  "@)
                } else {
                    told == none
                },
                None => told == none,
            }
            &&& gpu_page(Seq::empty(), Seq::empty(), chips) == text(
                "No GPUs detected under /sys/class/drm"@,
            )
        }),
{
}

/// Every interface but the loopback interface has its line: what it has received and
/// what it has sent for each second of the interval, and its address or a word that it
/// has none. The Wi-Fi hardware follows.
pub proof fn law_interface_line(
    standard: Seq<char>,
    bands: Seq<char>,
    speeds: NameTable<Speed>,
    ips: Map<Seq<char>, Seq<char>>,
    k: Seq<char>,
)
    ensures
        ({
            let page = net_page(standard, bands, speeds@, ips);
            let s = speeds@[k];
            let line = |address: Seq<char>|
                text("  "@) + text(left(k, 10)) + text(" down "@) + num(
                    Value::Rate { bytes: s.rx, nanos: s.nanos },
                    1,
                    9,
                ) + text(" KB/s | up "@) + num(Value::Rate { bytes: s.tx, nanos: s.nanos }, 1, 9)
                    + text(" KB/s | "@) + text(address) + text("\n"@);
            &&& speeds@.contains_key(k) && k != "lo"@ && ips.contains_key(k) ==> shows(
                page,
                line(ips[k]),
            )
            &&& speeds@.contains_key(k) && k != "lo"@ && !ips.contains_key(k) ==> shows(
                page,
                line("no IPv4"@),
            )
            &&& (forall|j: Seq<char>| #[trigger] speeds@.contains_key(j) ==> j == "lo"@) ==> shows(
                page,
                text("  none found\n"@),
            )
            &&& shows(
                page,
                text("\nMax Standard:    "@) + text(standard) + text("\nBands:           "@) + text(
                    bands,
                ) + text("\n"@),
            )
        }),
{
    let none = Seq::<Glyph>::empty();
    let list = listed(shown_ifaces(speeds@));
    law_interfaces_listed(speeds);
    let head = text("--- Network Interfaces ---\n"@);
    let body = if list.len() == 0 {
        text("  none found\n"@)
    } else {
        iface_lines(list, speeds@, ips)
    };
    reveal_strlit("\n--- Wi-Fi Hardware Capabilities ---\nMax Standard:    ");
    reveal_strlit("\n--- Wi-Fi Hardware Capabilities ---");
    reveal_strlit("\nMax Standard:    ");
    assert("\n--- Wi-Fi Hardware Capabilities ---\nMax Standard:    "@
        =~= "\n--- Wi-Fi Hardware Capabilities ---"@ + "\nMax Standard:    "@);
    law_text_may_be_cut("\n--- Wi-Fi Hardware Capabilities ---"@, "\nMax Standard:    "@);
    let wifi = text("\nMax Standard:    "@) + text(standard) + text("\nBands:           "@) + text(
        bands,
    ) + text("\n"@);
    let page = net_page(standard, bands, speeds@, ips);
    let tail = text("\n--- Wi-Fi Hardware Capabilities ---"@) + wifi;
    assert(page =~= head + body + tail);
    assert(page =~= (head + body + text("\n--- Wi-Fi Hardware Capabilities ---"@)) + wifi + none);
    lemma_grow_front(head, body);
    lemma_grow(head + body, tail);
    if speeds@.contains_key(k) && k != "lo"@ {
        assert(shown_ifaces(speeds@).contains(k));
        assert(list.contains(k));
        lemma_iface_shown(list, speeds@, ips, list.index_of(k));
    }
    if forall|j: Seq<char>| #[trigger] speeds@.contains_key(j) ==> j == "lo"@ {
        if list.len() > 0 {
            assert(list.contains(list[0]));
            assert(shown_ifaces(speeds@).contains(list[0]));
            assert(speeds@.contains_key(list[0]));
        }
        assert(body =~= none + text("  none found\n"@) + none);
    }
}

proof fn lemma_iface_shown(
    list: Seq<Seq<char>>,
    speeds: Map<Seq<char>, Speed>,
    ips: Map<Seq<char>, Seq<char>>,
    i: int,
)
    requires
        0 <= i < list.len(),
    ensures
        shows(iface_lines(list, speeds, ips), iface_text(list[i], speeds[list[i]], ips)),
    decreases list.len(),
{
    let front = iface_lines(list.drop_last(), speeds, ips);
    let line = iface_text(list.last(), speeds[list.last()], ips);
    if i == list.len() - 1 {
        assert(iface_lines(list, speeds, ips) =~= front + line + Seq::<Glyph>::empty());
    } else {
        lemma_iface_shown(list.drop_last(), speeds, ips, i);
        lemma_grow(front, line);
    }
}

/// Every chip has its entry: its driver, what it belongs to, its directory, and its
/// readings.
pub proof fn law_chip_entry(chips: Seq<ChipView>, gpus: Seq<GpuInfo>, i: int)
    requires
        0 <= i < chips.len(),
    ensures
        shows(
            sensors_page(chips, gpus),
            text("["@) + text(chips[i].name) + text("]"@) + text(context(chips[i], gpus)) + text(
                " ("@,
            ) + text(chips[i].id) + text(")\n"@) + chip_page(chips[i], "  "@) + text("\n"@),
        ),
{
    lemma_chip_shown(chips, gpus, i);
    let head = text("--- All Hardware Sensors (hwmon) ---\n\n"@);
    lemma_grow_front(head, chip_entries(chips, gpus));
    lemma_grow(
        head + chip_entries(chips, gpus),
        if fanless(chips) {
            text(fan_hint())
        } else {
            Seq::empty()
        },
    );
}

proof fn lemma_chip_shown(chips: Seq<ChipView>, gpus: Seq<GpuInfo>, i: int)
    requires
        0 <= i < chips.len(),
    ensures
        shows(chip_entries(chips, gpus), chip_entry(chips[i], gpus)),
    decreases chips.len(),
{
    let front = chip_entries(chips.drop_last(), gpus);
    let entry = chip_entry(chips.last(), gpus);
    if i == chips.len() - 1 {
        assert(chip_entries(chips, gpus) =~= front + entry + Seq::<Glyph>::empty());
    } else {
        lemma_chip_shown(chips.drop_last(), gpus, i);
        lemma_grow(front, entry);
    }
}

/// A chip of a CPU is marked as such; the chip of a card bears the name of the last card
/// with these sensors; any other chip bears no mark.
pub proof fn law_context(
    chip: ChipView,
    before: Seq<GpuInfo>,
    gpu: GpuInfo,
    after: Seq<GpuInfo>,
    id: String,
)
    requires
        forall|i: int|
            0 <= i < after.len() ==> !((#[trigger] after[i]).hwmon_id matches Some(h) && h@
                == chip.id),
        gpu.hwmon_id == Some(id),
        id@ == chip.id,
    ensures
        is_cpu_driver(chip.name) ==> context(chip, before + seq![gpu] + after) == " - CPU"@,
        !is_cpu_driver(chip.name) && gpu.name@.len() > 0 && gpu.name@ != " - CPU"@ ==> context(
            chip,
            before + seq![gpu] + after,
        ) == " - "@ + gpu.name@,
        !is_cpu_driver(chip.name) && gpu.name@.len() == 0 ==> context(
            chip,
            before + seq![gpu] + after,
        ).len() == 0,
        !is_cpu_driver(chip.name) ==> context(chip, after).len() == 0,
{
    lemma_last_card(before, gpu, after, chip.id);
}

proof fn lemma_last_card(
    before: Seq<GpuInfo>,
    gpu: GpuInfo,
    after: Seq<GpuInfo>,
    id: Seq<char>,
)
    requires
        forall|i: int|
            0 <= i < after.len() ==> !((#[trigger] after[i]).hwmon_id matches Some(h) && h@ == id),
        gpu.hwmon_id matches Some(h) && h@ == id,
    ensures
        card_with(before + seq![gpu] + after, id) == Some(gpu.name@),
        card_with(after, id) is None,
    decreases after.len(),
{
    let list = before + seq![gpu] + after;
    if after.len() > 0 {
        let rest = after.drop_last();
        assert(list.drop_last() =~= before + seq![gpu] + rest);
        assert(list.last() == after[after.len() - 1]);
        assert forall|i: int| 0 <= i < rest.len() implies !((
        #[trigger] rest[i]).hwmon_id matches Some(h) && h@ == id) by {
            assert(rest[i] == after[i]);
        }
        lemma_last_card(before, gpu, rest, id);
    } else {
        assert(list.last() == gpu);
    }
}

/// The chips are read for the cards where any card, whichever it is, has sensors.
pub proof fn law_any_sensors(gpus: Seq<GpuInfo>, i: int)
    ensures
        0 <= i < gpus.len() && gpus[i].hwmon_id is Some ==> any_sensors(gpus),
        (forall|j: int| 0 <= j < gpus.len() ==> (#[trigger] gpus[j]).hwmon_id is None)
            ==> !any_sensors(gpus),
{
}

} // verus!
