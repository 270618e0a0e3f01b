//! CPU time accounting from `/proc/stat`.

use vstd::prelude::*;

use crate::number::{number_or_zero, parse_or_zero};
use crate::text::{lines, same, split_lines, split_words, starts_with, words};

verus! {

/// The time that a CPU has spent since boot, in clock ticks.
#[derive(Clone, Copy, PartialEq, Eq, Structural, Debug)]
pub struct CpuTimes {
    pub idle: u64,
    pub total: u64,
}

/// How much of an interval a CPU was busy.
#[derive(Clone, Copy, PartialEq, Eq, Structural, Debug)]
pub struct Load {
    pub active: u64,
    pub total: u64,
}

impl DeepView for CpuTimes {
    type V = CpuTimes;

    open spec fn deep_view(&self) -> CpuTimes {
        *self
    }
}

impl DeepView for Load {
    type V = Load;

    open spec fn deep_view(&self) -> Load {
        *self
    }
}

/// The number in a column of a line, zero where there is none.
pub open spec fn column(parts: Seq<Seq<char>>, i: int) -> nat {
    if i < parts.len() {
        number_or_zero(parts[i])
    } else {
        0
    }
}

fn column_of(parts: &Vec<String>, i: usize) -> (r: u64)
    ensures
        r == column(parts.deep_view(), i as int),
{
    if i < parts.len() {
        parse_or_zero(parts[i].as_str())
    } else {
        0
    }
}

/// Idle time and the time spent waiting for I/O.
pub open spec fn idle_ticks(parts: Seq<Seq<char>>) -> nat {
    column(parts, 4) + column(parts, 5)
}

/// User, nice and system time, idle time, and the time for interrupts and for
/// other guests of the machine.
pub open spec fn total_ticks(parts: Seq<Seq<char>>) -> nat {
    column(parts, 1) + column(parts, 2) + column(parts, 3) + idle_ticks(parts) + column(parts, 6)
        + column(parts, 7) + column(parts, 8)
}

/// Whether a line gives the times of a CPU.
pub open spec fn is_cpu_line(line: Seq<char>) -> bool {
    "cpu"@.is_prefix_of(line) && words(line).len() >= 5
}

pub open spec fn line_times(line: Seq<char>) -> CpuTimes {
    CpuTimes {
        idle: idle_ticks(words(line)) as u64,
        total: total_ticks(words(line)) as u64,
    }
}

/// Whether the line speaks of all CPUs together.
pub open spec fn is_global(line: Seq<char>) -> bool {
    words(line)[0] == "cpu"@
}

/// Whether the times of every CPU fit in 64 bits.
pub open spec fn times_fit(list: Seq<Seq<char>>) -> bool {
    forall|i: int|
        0 <= i < list.len() && is_cpu_line(#[trigger] list[i]) ==> total_ticks(words(list[i]))
            <= u64::MAX
}

/// The times of all CPUs together: those of the last line that gives them, and
/// zero where no line does.
pub open spec fn global_times(list: Seq<Seq<char>>) -> CpuTimes
    decreases list.len(),
{
    if list.len() == 0 {
        CpuTimes { idle: 0, total: 0 }
    } else if is_cpu_line(list.last()) && is_global(list.last()) {
        line_times(list.last())
    } else {
        global_times(list.drop_last())
    }
}

/// The times of each CPU, in the order of the lines.
pub open spec fn core_times(list: Seq<Seq<char>>) -> Seq<CpuTimes>
    decreases list.len(),
{
    if list.len() == 0 {
        Seq::empty()
    } else if is_cpu_line(list.last()) && !is_global(list.last()) {
        core_times(list.drop_last()).push(line_times(list.last()))
    } else {
        core_times(list.drop_last())
    }
}

/// Adds up the columns; `None` where the sum does not fit in 64 bits.
fn sum_columns(parts: &Vec<String>) -> (r: Option<CpuTimes>)
    ensures
        match r {
            Some(t) => t.idle == idle_ticks(parts.deep_view()) && t.total == total_ticks(
                parts.deep_view(),
            ),
            None => total_ticks(parts.deep_view()) > u64::MAX,
        },
{
    let idle: u128 = column_of(parts, 4) as u128 + column_of(parts, 5) as u128;
    let total: u128 = column_of(parts, 1) as u128 + column_of(parts, 2) as u128 + column_of(
        parts,
        3,
    ) as u128 + idle + column_of(parts, 6) as u128 + column_of(parts, 7) as u128 + column_of(
        parts,
        8,
    ) as u128;
    if total > u64::MAX as u128 {
        None
    } else {
        Some(CpuTimes { idle: idle as u64, total: total as u64 })
    }
}

/// Whether the sums of all lines fit, so that `cpu_times` may be called.
pub fn cpu_times_fit(stat: &str) -> (r: bool)
    ensures
        r == times_fit(lines(stat@)),
{
    let list = split_lines(stat);
    let n: usize = list.len();
    let ghost all = list.deep_view();
    let mut i: usize = 0;
    while i < n
        invariant
            i <= n,
            n == list@.len(),
            all == list.deep_view(),
            all == lines(stat@),
            forall|j: int|
                0 <= j < i && is_cpu_line(#[trigger] all[j]) ==> total_ticks(words(all[j]))
                    <= u64::MAX,
        decreases n - i,
    {
        let line = list[i].as_str();
        assert(line@ == all[i as int]);
        let parts = split_words(line);
        if starts_with(line, "cpu") && parts.len() >= 5 && sum_columns(&parts).is_none() {
            assert(is_cpu_line(all[i as int]));
            return false;
        }
        i += 1;
    }
    true
}

/// The times of all CPUs together, and of each.
pub fn cpu_times(stat: &str) -> (r: (CpuTimes, Vec<CpuTimes>))
    requires
        times_fit(lines(stat@)),
    ensures
        r.0 == global_times(lines(stat@)),
        r.1@ == core_times(lines(stat@)),
{
    let list = split_lines(stat);
    let n: usize = list.len();
    let ghost all = list.deep_view();
    let mut global = CpuTimes { idle: 0, total: 0 };
    let mut cores: Vec<CpuTimes> = Vec::new();
    let mut i: usize = 0;
    assert(all.take(0) =~= Seq::<Seq<char>>::empty());
    while i < n
        invariant
            i <= n,
            n == list@.len(),
            all == list.deep_view(),
            times_fit(all),
            global == global_times(all.take(i as int)),
            cores@ == core_times(all.take(i as int)),
        decreases n - i,
    {
        let line = list[i].as_str();
        proof {
            assert(line@ == all[i as int]);
            assert(all.take(i + 1).drop_last() =~= all.take(i as int));
        }
        if starts_with(line, "cpu") {
            let parts = split_words(line);
            if parts.len() >= 5 {
                assert(is_cpu_line(all[i as int]));
                if let Some(times) = sum_columns(&parts) {
                    assert(times == line_times(all[i as int]));
                    if same(parts[0].as_str(), "cpu") {
                        global = times;
                    } else {
                        cores.push(times);
                    }
                }
            }
        }
        i += 1;
    }
    assert(all.take(n as int) =~= all);
    (global, cores)
}

/// `a - b`, and 0 where `b` is larger.
pub open spec fn monus(a: u64, b: u64) -> u64 {
    if a >= b {
        (a - b) as u64
    } else {
        0
    }
}

/// The load between two readings. The busy time is what the interval leaves
/// beside the idle time.
pub open spec fn load(prev: CpuTimes, cur: CpuTimes) -> Load {
    let total = monus(cur.total, prev.total);
    Load { active: monus(total, monus(cur.idle, prev.idle)), total }
}

pub fn load_between(prev: CpuTimes, cur: CpuTimes) -> (r: Load)
    ensures
        r == load(prev, cur),
        r.active <= r.total,
        prev.total <= cur.total ==> prev.total + r.total == cur.total,
        prev.total <= cur.total && prev.idle <= cur.idle && cur.idle - prev.idle <= cur.total
            - prev.total ==> prev.idle + (r.total - r.active) == cur.idle,
{
    let total: u64 = cur.total.saturating_sub(prev.total);
    let idle: u64 = cur.idle.saturating_sub(prev.idle);
    Load { active: total.saturating_sub(idle), total }
}

// ---------------------------------------------------------------------------
// what the times and loads mean

/// What is left after taking away makes up the whole again; less than nothing is
/// nothing.
pub proof fn law_monus(a: u64, b: u64)
    ensures
        a >= b ==> b + monus(a, b) == a,
        a <= b ==> monus(a, b) == 0,
{
}

/// Busy time and idle time make up the interval; a clock that stands still or goes
/// back shows no load.
pub proof fn law_load(prev: CpuTimes, cur: CpuTimes)
    ensures
        prev.total <= cur.total && prev.idle <= cur.idle && cur.idle - prev.idle <= cur.total
            - prev.total ==> prev.total + load(prev, cur).total == cur.total && load(
            prev,
            cur,
        ).active + (cur.idle - prev.idle) == cur.total - prev.total,
        prev.total <= cur.total && cur.idle <= prev.idle ==> load(prev, cur).active == cur.total
            - prev.total,
        prev.total <= cur.total && cur.idle - prev.idle >= cur.total - prev.total ==> load(
            prev,
            cur,
        ).active == 0,
        cur.total <= prev.total ==> load(prev, cur) == (Load { active: 0, total: 0 }),
{
}

/// The times of a line: the fourth and the fifth column are idle time, and the first
/// eight make up all of the time. Missing columns and those without a number count as
/// zero.
pub proof fn law_line_times(line: Seq<char>, col: spec_fn(int) -> nat)
    requires
        forall|i: int|
            1 <= i <= 8 ==> #[trigger] col(i) == (if i < words(line).len() {
                number_or_zero(words(line)[i])
            } else {
                0
            }),
        col(1) + col(2) + col(3) + col(4) + col(5) + col(6) + col(7) + col(8) <= u64::MAX,
    ensures
        line_times(line).idle == col(4) + col(5),
        line_times(line).total == col(1) + col(2) + col(3) + col(4) + col(5) + col(6) + col(7)
            + col(8),
        total_ticks(words(line)) == line_times(line).total,
{
}

/// Whether a line of `/proc/stat` is that of the given CPU: it starts with `cpu`, its
/// first word is the name, and it has at least four numbers.
pub open spec fn line_of_cpu(line: Seq<char>, name: Seq<char>) -> bool {
    "cpu"@.is_prefix_of(line) && words(line).len() >= 5 && words(line)[0] == name
}

/// The times of all CPUs together stand in the last line that is named just `cpu`.
pub proof fn law_global_times(before: Seq<Seq<char>>, line: Seq<char>, after: Seq<Seq<char>>)
    requires
        forall|i: int| 0 <= i < after.len() ==> !line_of_cpu(#[trigger] after[i], "cpu"@),
    ensures
        line_of_cpu(line, "cpu"@) ==> global_times(before + seq![line] + after) == line_times(line),
        global_times(after) == (CpuTimes { idle: 0, total: 0 }),
    decreases after.len(),
{
    let list = before + seq![line] + after;
    if after.len() > 0 {
        let rest = after.drop_last();
        assert(list.drop_last() =~= before + seq![line] + rest);
        assert(list.last() == after[after.len() - 1]);
        assert forall|i: int| 0 <= i < rest.len() implies !line_of_cpu(
            #[trigger] rest[i],
            "cpu"@,
        ) by {
            assert(rest[i] == after[i]);
        }
        law_global_times(before, line, rest);
    } else {
        assert(list.last() == line);
    }
}

/// Each line of a single CPU gives its times, in the order of the lines, and no other
/// line gives any.
pub proof fn law_core_times(a: Seq<Seq<char>>, b: Seq<Seq<char>>, line: Seq<char>)
    ensures
        core_times(a + b) == core_times(a) + core_times(b),
        core_times(seq![line]) == (if "cpu"@.is_prefix_of(line) && words(line).len() >= 5 && words(
            line,
        )[0] != "cpu"@ {
            seq![line_times(line)]
        } else {
            Seq::empty()
        }),
        core_times(Seq::empty()) == Seq::<CpuTimes>::empty(),
    decreases b.len(),
{
    assert(seq![line].drop_last() =~= Seq::<Seq<char>>::empty());
    assert(seq![line].last() == line);
    assert(core_times(Seq::empty()) =~= Seq::<CpuTimes>::empty());
    assert(Seq::<CpuTimes>::empty().push(line_times(line)) =~= seq![line_times(line)]);
    if b.len() == 0 {
        assert(a + b =~= a);
        assert(core_times(a) + core_times(b) =~= core_times(a));
    } else {
        law_core_times(a, b.drop_last(), line);
        assert((a + b).drop_last() =~= a + b.drop_last());
        assert((a + b).last() == b.last());
        assert(core_times(a + b) =~= core_times(a) + core_times(b));
    }
}

} // verus!
