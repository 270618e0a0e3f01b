//! What is sampled over and over: loads and traffic from one reading to the next,
//! and the values that are kept for a while.

use vstd::prelude::*;

use crate::cache::{Cached, Fresh};
use crate::cpu::{core_times, cpu_times, global_times, load, load_between, monus, times_fit, CpuTimes, Load};
use crate::hwmon::{chip_by_id, find_chip, find_cpu_chip, first_cpu_chip, HwmonChip};
use crate::net::{counters, moved, net_bytes, speed_between, NetBytes, Speed};
use crate::table::NameTable;
use crate::text::{lines, owned};

verus! {

/// Samples are at least a tenth of a second apart.
pub const MIN_INTERVAL: u64 = 100_000_000;

/// Sensors are kept for two seconds.
pub const HWMON_TTL: u64 = 2_000_000_000;

/// The list of disks is kept for five seconds.
pub const DISKS_TTL: u64 = 5_000_000_000;

/// Addresses are kept for ten seconds.
pub const IPS_TTL: u64 = 10_000_000_000;

/// What is read over and over, and what was made of it.
pub struct Sampler {
    pub prev_global: CpuTimes,
    pub prev_cores: Vec<CpuTimes>,
    pub prev_net: NameTable<NetBytes>,
    pub last_sample: u64,
    /// The load of all CPUs together.
    pub cpu_load: Load,
    /// The load of each CPU.
    pub core_loads: Vec<Load>,
    /// The traffic of each interface ever seen.
    pub net_speeds: NameTable<Speed>,
    pub hwmon: Cached<Vec<HwmonChip>>,
    pub disks: Cached<String>,
    pub ips: Cached<NameTable<String>>,
}

/// The model of what is sampled.
#[verifier::ext_equal]
pub struct Samples {
    pub prev_global: CpuTimes,
    pub prev_cores: Seq<CpuTimes>,
    pub prev_net: Map<Seq<char>, NetBytes>,
    pub last_sample: u64,
    pub cpu_load: Load,
    pub core_loads: Seq<Load>,
    pub net_speeds: Map<Seq<char>, Speed>,
}

impl Samples {
    /// Nothing sampled yet.
    pub open spec fn blank(now: u64) -> Samples {
        Samples {
            prev_global: CpuTimes { idle: 0, total: 0 },
            prev_cores: Seq::empty(),
            prev_net: Map::empty(),
            last_sample: now,
            cpu_load: Load { active: 0, total: 0 },
            core_loads: Seq::empty(),
            net_speeds: Map::empty(),
        }
    }

    /// Whether it is time for a sample: at once before the first, and then after
    /// the shortest interval.
    pub open spec fn due(self, now: u64) -> bool {
        monus(now, self.last_sample) >= MIN_INTERVAL || self.prev_global.total == 0
    }

    /// The load of a CPU; none where it was not there before.
    pub open spec fn core_load(self, cores: Seq<CpuTimes>, i: int) -> Load {
        if i < self.prev_cores.len() {
            load(self.prev_cores[i], cores[i])
        } else {
            Load { active: 0, total: 0 }
        }
    }

    /// The time over which traffic is counted, at least the shortest interval.
    pub open spec fn window(self, now: u64) -> u64 {
        let elapsed = monus(now, self.last_sample);
        if elapsed >= MIN_INTERVAL {
            elapsed
        } else {
            MIN_INTERVAL
        }
    }

    pub open spec fn prev_bytes(self, iface: Seq<char>) -> Option<NetBytes> {
        if self.prev_net.contains_key(iface) {
            Some(self.prev_net[iface])
        } else {
            None
        }
    }

    /// The traffic after a reading of the counters: that of the interfaces in the
    /// reading, and what was known of the others.
    pub open spec fn speeds(self, net: Map<Seq<char>, NetBytes>, now: u64) -> Map<
        Seq<char>,
        Speed,
    > {
        Map::new(
            |k: Seq<char>| self.net_speeds.contains_key(k) || net.contains_key(k),
            |k: Seq<char>|
                if net.contains_key(k) {
                    moved(self.prev_bytes(k), net[k], self.window(now))
                } else {
                    self.net_speeds[k]
                },
        )
    }

    /// The samples after `/proc/stat` and `/proc/net/dev` were read.
    pub open spec fn sampled(self, now: u64, stat: Seq<char>, dev: Seq<char>) -> Samples {
        let global = global_times(lines(stat));
        let cores = core_times(lines(stat));
        let net = counters(lines(dev));
        if self.due(now) {
            Samples {
                prev_global: global,
                prev_cores: cores,
                prev_net: net,
                last_sample: now,
                cpu_load: if self.prev_global.total > 0 {
                    load(self.prev_global, global)
                } else {
                    self.cpu_load
                },
                core_loads: Seq::new(cores.len(), |i: int| self.core_load(cores, i)),
                net_speeds: self.speeds(net, now),
            }
        } else {
            self
        }
    }
}

impl Sampler {
    /// The tables of the sampler have one row for each name.
    pub open spec fn wf(&self) -> bool {
        &&& self.prev_net.wf()
        &&& self.net_speeds.wf()
        &&& self.ips.value.wf()
    }

    pub open spec fn view(&self) -> Samples {
        Samples {
            prev_global: self.prev_global,
            prev_cores: self.prev_cores@,
            prev_net: self.prev_net@,
            last_sample: self.last_sample,
            cpu_load: self.cpu_load,
            core_loads: self.core_loads@,
            net_speeds: self.net_speeds@,
        }
    }

    /// Whether two samplers keep the same values.
    pub open spec fn same_caches(self, other: Sampler) -> bool {
        self.hwmon == other.hwmon && self.disks == other.disks && self.ips == other.ips
    }

    /// A sampler with its first sample taken, so that the next can be compared.
    pub fn new(now: u64, stat: &str, dev: &str) -> (r: Sampler)
        requires
            times_fit(lines(stat@)),
        ensures
            r.wf(),
            r@ == Samples::blank(now).sampled(now, stat@, dev@),
            r.hwmon.at is None,
            r.hwmon.value@.len() == 0,
            r.disks.at is None,
            r.disks.value@.len() == 0,
            r.ips.at is None,
            r.ips.value@ == Map::<Seq<char>, Seq<char>>::empty(),
    {
        let mut s = Sampler {
            prev_global: CpuTimes { idle: 0, total: 0 },
            prev_cores: Vec::new(),
            prev_net: NameTable::new(),
            last_sample: now,
            cpu_load: Load { active: 0, total: 0 },
            core_loads: Vec::new(),
            net_speeds: NameTable::new(),
            hwmon: Cached::new(Vec::new()),
            disks: Cached::new(String::new()),
            ips: Cached::new(NameTable::new()),
        };
        assert(s@ =~= Samples::blank(now));
        s.sample(now, stat, dev);
        s
    }

    /// Whether it is time for a sample.
    pub fn due(&self, now: u64) -> (r: bool)
        ensures
            r == self@.due(now),
    {
        now.saturating_sub(self.last_sample) >= MIN_INTERVAL || self.prev_global.total == 0
    }

    fn loads(&self, cores: &Vec<CpuTimes>) -> (r: Vec<Load>)
        ensures
            r@ == Seq::new(cores@.len(), |i: int| self@.core_load(cores@, i)),
    {
        let n: usize = cores.len();
        let mut out: Vec<Load> = Vec::new();
        let mut i: usize = 0;
        while i < n
            invariant
                i <= n,
                n == cores@.len(),
                out@.len() == i,
                forall|j: int| 0 <= j < i ==> #[trigger] out@[j] == self@.core_load(cores@, j),
            decreases n - i,
        {
            let l = if i < self.prev_cores.len() {
                load_between(self.prev_cores[i], cores[i])
            } else {
                Load { active: 0, total: 0 }
            };
            out.push(l);
            i += 1;
        }
        assert(out@ =~= Seq::new(cores@.len(), |i: int| self@.core_load(cores@, i)));
        out
    }

    fn add_speeds(&mut self, net: &NameTable<NetBytes>, now: u64)
        requires
            old(self).wf(),
            net.wf(),
        ensures
            final(self).wf(),
            final(self).same_caches(*old(self)),
            final(self)@ == (Samples { net_speeds: old(self)@.speeds(net@, now), ..old(self)@ }),
    {
        let elapsed: u64 = now.saturating_sub(self.last_sample);
        let nanos: u64 = if elapsed >= MIN_INTERVAL {
            elapsed
        } else {
            MIN_INTERVAL
        };
        let names = net.names();
        let ghost all = names.deep_view();
        let ghost first = self@;
        let n: usize = names.len();
        let mut i: usize = 0;
        while i < n
            invariant
                i <= n,
                n == names@.len(),
                all == names.deep_view(),
                first == old(self)@,
                nanos == first.window(now),
                net.wf(),
                self.wf(),
                self.same_caches(*old(self)),
                forall|k: Seq<char>| all.contains(k) <==> #[trigger] net@.contains_key(k),
                self@ == (Samples { net_speeds: self.net_speeds@, ..first }),
                forall|k: Seq<char>| #[trigger]
                    self.net_speeds@.contains_key(k) <==> first.net_speeds.contains_key(k)
                        || all.take(i as int).contains(k),
                forall|k: Seq<char>| #[trigger]
                    self.net_speeds@.contains_key(k) ==> self.net_speeds@[k] == (if all.take(
                        i as int,
                    ).contains(k) {
                        moved(first.prev_bytes(k), net@[k], nanos)
                    } else {
                        first.net_speeds[k]
                    }),
            decreases n - i,
        {
            let name = names[i].as_str();
            proof {
                assert(all[i as int] == name@);
                assert(all.contains(name@));
                assert forall|k: Seq<char>| #[trigger]
                    all.take(i + 1).contains(k) <==> all.take(i as int).contains(k) || k
                        == name@ by {
                    assert(all.take(i + 1) =~= all.take(i as int).push(name@));
                    if all.take(i as int).contains(k) {
                        let j = all.take(i as int).index_of(k);
                        assert(all.take(i + 1)[j] == k);
                    }
                    if k == name@ {
                        assert(all.take(i + 1)[i as int] == k);
                    }
                    if all.take(i + 1).contains(k) {
                        let j = all.take(i + 1).index_of(k);
                        if j < i {
                            assert(all.take(i as int)[j] == k);
                        }
                    }
                }
            }
            if let Some(cur) = net.get(name) {
                let prev = match self.prev_net.get(name) {
                    Some(p) => Some(*p),
                    None => None,
                };
                let speed = speed_between(prev, *cur, nanos);
                self.net_speeds.insert(owned(name), speed);
            }
            i += 1;
        }
        proof {
            assert(all.take(n as int) =~= all);
            assert(self.net_speeds@ =~= first.speeds(net@, now));
        }
    }

    /// Takes a sample where it is time for one; else nothing changes, and the texts
    /// do not matter.
    pub fn sample(&mut self, now: u64, stat: &str, dev: &str)
        requires
            old(self).wf(),
            old(self)@.due(now) ==> times_fit(lines(stat@)),
        ensures
            final(self).wf(),
            final(self)@ == old(self)@.sampled(now, stat@, dev@),
            final(self).same_caches(*old(self)),
            !old(self)@.due(now) ==> *final(self) == *old(self),
    {
        if !self.due(now) {
            return;
        }
        let (global, cores) = cpu_times(stat);
        if self.prev_global.total > 0 {
            self.cpu_load = load_between(self.prev_global, global);
        }
        self.core_loads = self.loads(&cores);
        self.prev_global = global;
        self.prev_cores = cores;
        let net = net_bytes(dev);
        self.add_speeds(&net, now);
        self.prev_net = net;
        self.last_sample = now;
        assert(self@ =~= old(self)@.sampled(now, stat@, dev@));
    }

    /// Whether the sensors are to be read again.
    pub fn hwmon_due(&self, now: u64) -> (r: bool)
        ensures
            r == self.hwmon.due(now, HWMON_TTL),
    {
        crate::cache::expired(self.hwmon.at, now, HWMON_TTL)
    }

    /// Whether the disks are to be listed again.
    pub fn disks_due(&self, now: u64) -> (r: bool)
        ensures
            r == self.disks.due(now, DISKS_TTL),
    {
        crate::cache::expired(self.disks.at, now, DISKS_TTL)
    }

    /// Whether the addresses are to be read again.
    pub fn ips_due(&self, now: u64) -> (r: bool)
        ensures
            r == self.ips.due(now, IPS_TTL),
    {
        crate::cache::expired(self.ips.at, now, IPS_TTL)
    }

    /// The chips, after those just read were offered.
    pub fn hwmon(&mut self, now: u64, fresh: Option<Fresh<Vec<HwmonChip>>>) -> (r: &Vec<HwmonChip>)
        ensures
            *final(self) == (Sampler {
                hwmon: old(self).hwmon.offered(now, HWMON_TTL, fresh),
                ..*old(self)
            }),
            *r == final(self).hwmon.value,
    {
        self.hwmon.offer(now, HWMON_TTL, fresh);
        &self.hwmon.value
    }

    /// The first chip with the given directory name.
    pub fn hwmon_by_id(
        &mut self,
        now: u64,
        fresh: Option<Fresh<Vec<HwmonChip>>>,
        id: &str,
    ) -> (r: Option<HwmonChip>)
        ensures
            *final(self) == (Sampler {
                hwmon: old(self).hwmon.offered(now, HWMON_TTL, fresh),
                ..*old(self)
            }),
            r.deep_view() == chip_by_id(final(self).hwmon.value.deep_view(), id@),
    {
        find_chip(self.hwmon(now, fresh), id)
    }

    /// The first chip of a CPU.
    pub fn cpu_chip(&mut self, now: u64, fresh: Option<Fresh<Vec<HwmonChip>>>) -> (r: Option<
        HwmonChip,
    >)
        ensures
            *final(self) == (Sampler {
                hwmon: old(self).hwmon.offered(now, HWMON_TTL, fresh),
                ..*old(self)
            }),
            r.deep_view() == first_cpu_chip(final(self).hwmon.value.deep_view()),
    {
        find_cpu_chip(self.hwmon(now, fresh))
    }

    /// The list of disks.
    pub fn disks(&mut self, now: u64, fresh: Option<Fresh<String>>) -> (r: &str)
        ensures
            *final(self) == (Sampler {
                disks: old(self).disks.offered(now, DISKS_TTL, fresh),
                ..*old(self)
            }),
            r@ == final(self).disks.value@,
    {
        self.disks.offer(now, DISKS_TTL, fresh);
        self.disks.value.as_str()
    }

    /// The addresses of the interfaces.
    pub fn ips(&mut self, now: u64, fresh: Option<Fresh<NameTable<String>>>) -> (r: &NameTable<
        String,
    >)
        requires
            old(self).wf(),
            fresh matches Some(f) ==> f.value.wf(),
        ensures
            final(self).wf(),
            *final(self) == (Sampler {
                ips: old(self).ips.offered(now, IPS_TTL, fresh),
                ..*old(self)
            }),
            *r == final(self).ips.value,
    {
        self.ips.offer(now, IPS_TTL, fresh);
        &self.ips.value
    }
}

// ---------------------------------------------------------------------------
// what holds of every run of samples

impl Samples {
    /// What holds of the samples at all times: no CPU is busy for longer than the
    /// interval lasts, traffic is counted over no less than the shortest interval,
    /// there is a load for each CPU and traffic for each interface last read.
    pub open spec fn bounded(self) -> bool {
        &&& self.cpu_load.active <= self.cpu_load.total
        &&& forall|i: int|
            0 <= i < self.core_loads.len() ==> (#[trigger] self.core_loads[i]).active
                <= self.core_loads[i].total
        &&& forall|k: Seq<char>| #[trigger]
            self.net_speeds.contains_key(k) ==> self.net_speeds[k].nanos >= MIN_INTERVAL
        &&& self.core_loads.len() == self.prev_cores.len()
        &&& forall|k: Seq<char>| #[trigger]
            self.prev_net.contains_key(k) ==> self.net_speeds.contains_key(k)
    }
}

/// The samples are bounded from the start, and a sample keeps them so.
pub proof fn law_samples_bounded(s: Samples, now: u64, stat: Seq<char>, dev: Seq<char>)
    ensures
        Samples::blank(now).bounded(),
        s.bounded() ==> s.sampled(now, stat, dev).bounded(),
{
}

/// Less than the shortest interval after a sample that saw CPU times, another
/// changes nothing.
pub proof fn law_sample_too_soon(
    s: Samples,
    now: u64,
    stat: Seq<char>,
    dev: Seq<char>,
    later: u64,
    stat2: Seq<char>,
    dev2: Seq<char>,
)
    requires
        s.due(now),
        global_times(lines(stat)).total > 0,
        later < now + 100_000_000,
    ensures
        s.sampled(now, stat, dev).sampled(later, stat2, dev2) == s.sampled(now, stat, dev),
{
}

/// A sample covers each CPU and each interface of its reading.
pub proof fn law_sample_covers_reading(s: Samples, now: u64, stat: Seq<char>, dev: Seq<char>)
    requires
        s.due(now),
    ensures
        s.sampled(now, stat, dev).core_loads.len() == core_times(lines(stat)).len(),
        forall|k: Seq<char>| #[trigger]
            counters(lines(dev)).contains_key(k) ==> s.sampled(
                now,
                stat,
                dev,
            ).net_speeds.contains_key(k),
{
}

/// An interface that was seen once is never forgotten.
pub proof fn law_interfaces_remembered(s: Samples, now: u64, stat: Seq<char>, dev: Seq<char>)
    ensures
        s.net_speeds.dom().subset_of(s.sampled(now, stat, dev).net_speeds.dom()),
{
}

/// Where nothing has changed from one sample to the next, every load is zero and
/// no interface of the reading has moved anything.
pub proof fn law_nothing_changed(
    s: Samples,
    now: u64,
    later: u64,
    stat: Seq<char>,
    dev: Seq<char>,
)
    requires
        s.due(now),
        later >= now + MIN_INTERVAL,
        global_times(lines(stat)).total > 0,
    ensures
        ({
            let t = s.sampled(now, stat, dev).sampled(later, stat, dev);
            &&& t.cpu_load == (Load { active: 0, total: 0 })
            &&& forall|i: int|
                0 <= i < t.core_loads.len() ==> #[trigger] t.core_loads[i] == (Load {
                    active: 0,
                    total: 0,
                })
            &&& forall|k: Seq<char>| #[trigger]
                counters(lines(dev)).contains_key(k) ==> t.net_speeds[k] == (Speed {
                    rx: 0,
                    tx: 0,
                    nanos: (later - now) as u64,
                })
        }),
{
}

/// Between two samples that are at least the shortest interval apart, an interface of
/// both readings has moved what its counters have grown by, over the time between the
/// samples.
pub proof fn law_traffic_between(
    s: Samples,
    now: u64,
    stat: Seq<char>,
    dev: Seq<char>,
    later: u64,
    stat2: Seq<char>,
    dev2: Seq<char>,
    k: Seq<char>,
)
    requires
        s.due(now),
        later >= now + 100_000_000,
        counters(lines(dev2)).contains_key(k),
    ensures
        ({
            let b = counters(lines(dev2))[k];
            let t = s.sampled(now, stat, dev).sampled(later, stat2, dev2);
            let r = t.net_speeds[k];
            &&& t.net_speeds.contains_key(k)
            &&& t.last_sample == later
            &&& now + r.nanos == later
            &&& counters(lines(dev)).contains_key(k) ==> {
                let a = counters(lines(dev))[k];
                &&& a.rx <= b.rx ==> a.rx + r.rx == b.rx
                &&& a.tx <= b.tx ==> a.tx + r.tx == b.tx
                &&& b.rx <= a.rx ==> r.rx == 0
                &&& b.tx <= a.tx ==> r.tx == 0
            }
            &&& !counters(lines(dev)).contains_key(k) ==> r.rx == 0 && r.tx == 0
        }),
{
}

/// An interface that a reading does not name keeps the traffic that was known of it.
pub proof fn law_traffic_kept(
    s: Samples,
    now: u64,
    stat: Seq<char>,
    dev: Seq<char>,
    k: Seq<char>,
)
    requires
        s.net_speeds.contains_key(k),
        !counters(lines(dev)).contains_key(k),
    ensures
        s.sampled(now, stat, dev).net_speeds[k] == s.net_speeds[k],
{
}

/// Between two samples the load of all CPUs, and of each CPU of both readings, is made
/// of the growth of its times: the busy time is what the idle time leaves of the
/// interval. A CPU that was not there before shows no load.
pub proof fn law_loads_between(
    s: Samples,
    now: u64,
    stat: Seq<char>,
    dev: Seq<char>,
    later: u64,
    stat2: Seq<char>,
    dev2: Seq<char>,
)
    requires
        s.due(now),
        later >= now + 100_000_000,
        global_times(lines(stat)).total > 0,
    ensures
        ({
            let t = s.sampled(now, stat, dev).sampled(later, stat2, dev2);
            let (a, b) = (global_times(lines(stat)), global_times(lines(stat2)));
            let (p, q) = (core_times(lines(stat)), core_times(lines(stat2)));
            &&& grown(a, b) ==> measures(t.cpu_load, a, b)
            &&& t.core_loads.len() == q.len()
            &&& forall|i: int|
                0 <= i < p.len() && i < q.len() && grown(p[i], q[i]) ==> measures(
                    #[trigger] t.core_loads[i],
                    p[i],
                    q[i],
                )
            &&& forall|i: int|
                p.len() <= i < q.len() ==> (#[trigger] t.core_loads[i]).active == 0
                    && t.core_loads[i].total == 0
        }),
{
}

/// Whether times went on as they should.
pub open spec fn grown(a: CpuTimes, b: CpuTimes) -> bool {
    a.total <= b.total && a.idle <= b.idle && b.idle - a.idle <= b.total - a.total
}

/// Whether a load is that of the interval between two times.
pub open spec fn measures(l: Load, a: CpuTimes, b: CpuTimes) -> bool {
    a.total + l.total == b.total && a.idle + (l.total - l.active) == b.idle
}

/// The first sample is taken at once, shows no load and no traffic, and is what the
/// next is compared with.
pub proof fn law_first_sample(now: u64, stat: Seq<char>, dev: Seq<char>, k: Seq<char>)
    ensures
        ({
            let t = Samples::blank(now).sampled(now, stat, dev);
            &&& t.prev_global == global_times(lines(stat))
            &&& t.prev_cores == core_times(lines(stat))
            &&& t.prev_net == counters(lines(dev))
            &&& t.cpu_load.active == 0 && t.cpu_load.total == 0
            &&& t.core_loads.len() == core_times(lines(stat)).len()
            &&& forall|i: int|
                0 <= i < t.core_loads.len() ==> (#[trigger] t.core_loads[i]).active == 0
                    && t.core_loads[i].total == 0
            &&& t.net_speeds.contains_key(k) <==> counters(lines(dev)).contains_key(k)
            &&& t.net_speeds.contains_key(k) ==> t.net_speeds[k].rx == 0 && t.net_speeds[k].tx == 0
        }),
{
}

/// As long as no CPU time was seen, every sample is taken, whenever it comes; it shows no
/// load of all CPUs that was not known before, and counts traffic over a tenth of a
/// second at least.
pub proof fn law_sample_without_times(
    s: Samples,
    now: u64,
    stat: Seq<char>,
    dev: Seq<char>,
    k: Seq<char>,
)
    requires
        s.prev_global.total == 0,
    ensures
        ({
            let t = s.sampled(now, stat, dev);
            &&& t.last_sample == now
            &&& t.prev_global == global_times(lines(stat))
            &&& t.prev_cores == core_times(lines(stat))
            &&& t.prev_net == counters(lines(dev))
            &&& t.cpu_load == s.cpu_load
            &&& counters(lines(dev)).contains_key(k) ==> t.net_speeds.contains_key(k)
                && t.net_speeds[k].nanos >= 100_000_000
            &&& counters(lines(dev)).contains_key(k) && now >= s.last_sample + 100_000_000
                ==> s.last_sample + t.net_speeds[k].nanos == now
        }),
{
}

} // verus!
