//! Facts about the host, from the texts under `/proc`, `/sys` and `/etc`.

use vstd::prelude::*;

use crate::gpu::{detect_gpus, gpu_list, CardProbe, GpuInfo};
use crate::number::{decimal, law_decimal_digits, law_decimal_reads_back, law_no_number, law_number_or_zero, number, number_or_zero, parse_or_zero, parse_u32, show};
use crate::page::{num, text, Glyph, Page, Value};
use crate::text::{all_digits, cut_prefix, first_with, is_all_digits, is_digit, is_space, law_first_with, law_prefix_cut, law_trimmed_middle, law_trimming_keeps_words, line_with, lines, owned, push_string, split, split_char, split_lines, split_words, starts_with, trim, trim_class, trimmed, words, CharClass};
use crate::wifi::{wifi_bands, wifi_capabilities, wifi_standard};

verus! {

/// The number in a file, and 0 where it holds none.
pub open spec fn file_number(content: Seq<char>) -> nat {
    number_or_zero(trimmed(content, CharClass::Space))
}

pub fn read_u64(content: &str) -> (r: u64)
    ensures
        r == number_or_zero(trimmed(content@, CharClass::Space)),
        r == file_number(content@),
{
    let t = trim(content);
    parse_or_zero(t.as_str())
}

// ---------------------------------------------------------------------------
// the user

/// The effective user: the third word of the line that starts with `Uid:`. The
/// largest number stands for an unknown user.
pub open spec fn effective_user(status: Seq<char>) -> nat {
    match first_with(lines(status), "Uid:"@) {
        Some(line) if words(line).len() > 2 => match number(words(line)[2], u32::MAX as nat) {
            Some(n) => n,
            None => u32::MAX as nat,
        },
        _ => u32::MAX as nat,
    }
}

/// The effective user in the text of `/proc/self/status`.
pub fn euid(status: &str) -> (r: u32)
    ensures
        r == effective_user(status@),
{
    match line_with(status, "Uid:") {
        Some(line) => {
            let parts = split_words(line.as_str());
            if parts.len() > 2 {
                assert(words(line@)[2] == parts@[2]@);
                match parse_u32(parts[2].as_str()) {
                    Some(n) => n,
                    None => u32::MAX,
                }
            } else {
                u32::MAX
            }
        },
        None => u32::MAX,
    }
}

/// Who owns a directory, and its permission bits.
#[derive(Clone, Copy, PartialEq, Eq, Structural, Debug)]
pub struct Owner {
    pub uid: u32,
    pub mode: u32,
}

/// Whether a user may write to a directory that is theirs: the superuser always,
/// others where they own it and its owner may write. A directory whose owner is
/// not known is not writable.
pub open spec fn writable(me: u32, owner: Option<Owner>) -> bool {
    me == 0 || (owner matches Some(o) && o.uid == me && o.mode & 0o200 != 0)
}

pub fn user_writable(me: u32, owner: Option<Owner>) -> (r: bool)
    ensures
        r == writable(me, owner),
{
    if me == 0 {
        return true;
    }
    match owner {
        Some(o) => o.uid == me && o.mode & 0o200 != 0,
        None => false,
    }
}

// ---------------------------------------------------------------------------
// static facts

/// What does not change while the dashboard runs.
#[derive(Debug)]
pub struct StaticInfo {
    pub hostname: String,
    pub os_name: String,
    pub kernel: String,
    pub arch: String,
    pub cpu_model: String,
    pub wifi_standard: String,
    pub wifi_bands: String,
    pub gpus: Vec<GpuInfo>,
}

/// The texts that the facts are taken from, and what was found of the cards.
#[derive(Debug)]
pub struct HostTexts {
    pub hostname: String,
    pub os_release: String,
    pub kernel: String,
    pub arch: String,
    pub cpuinfo: String,
    /// What `iw phy` prints.
    pub iw: String,
    /// The whole megahertz of the frequencies in it.
    pub mhz: Vec<u64>,
    /// What `lspci -mm` prints.
    pub lspci: String,
    pub cards: Vec<CardProbe>,
}

impl StaticInfo {
    /// Whether the facts are those in the texts.
    pub open spec fn states(self, t: HostTexts) -> bool {
        &&& self.hostname@ == trimmed(t.hostname@, CharClass::Space)
        &&& self.os_name@ == pretty_name(t.os_release@)
        &&& self.kernel@ == trimmed(t.kernel@, CharClass::Space)
        &&& self.arch@ == t.arch@
        &&& self.cpu_model@ == field_of(t.cpuinfo@, "model name"@)
        &&& self.wifi_standard@ == wifi_standard(t.iw@, t.mhz@)
        &&& self.wifi_bands@ == wifi_bands(t.iw@, t.mhz@)
        &&& self.gpus.deep_view() == gpu_list(t.lspci@, t.cards@)
    }

    /// Takes the facts from the texts.
    pub fn collect(t: &HostTexts) -> (r: StaticInfo)
        ensures
            r.states(*t),
    {
        let (wifi_standard, wifi_bands) = wifi_capabilities(t.iw.as_str(), &t.mhz);
        StaticInfo {
            hostname: trim(t.hostname.as_str()),
            os_name: os_pretty_name(t.os_release.as_str()),
            kernel: trim(t.kernel.as_str()),
            arch: owned(t.arch.as_str()),
            cpu_model: cpuinfo_field(t.cpuinfo.as_str(), "model name"),
            wifi_standard,
            wifi_bands,
            gpus: detect_gpus(t.lspci.as_str(), &t.cards),
        }
    }
}

/// The name of the system: what stands behind `PRETTY_NAME=`, without quotes.
pub open spec fn pretty_name(os_release: Seq<char>) -> Seq<char> {
    match first_with(lines(os_release), "PRETTY_NAME="@) {
        Some(line) => trimmed(line.skip("PRETTY_NAME="@.len() as int), CharClass::Quote),
        None => "Linux"@,
    }
}

/// The name of the system in the text of `/etc/os-release`.
pub fn os_pretty_name(os_release: &str) -> (r: String)
    ensures
        r@ == pretty_name(os_release@),
{
    match line_with(os_release, "PRETTY_NAME=") {
        Some(line) => {
            proof {
                lemma_first_with(lines(os_release@), "PRETTY_NAME="@);
            }
            match cut_prefix(line.as_str(), "PRETTY_NAME=") {
                Some(v) => trim_class(v.as_str(), CharClass::Quote),
                None => owned("Linux"),
            }
        },
        None => owned("Linux"),
    }
}

/// The text found by its start does start so.
pub proof fn lemma_first_with(list: Seq<Seq<char>>, prefix: Seq<char>)
    ensures
        first_with(list, prefix) matches Some(line) ==> prefix.is_prefix_of(line) && list.contains(
            line,
        ),
    decreases list.len(),
{
    if list.len() > 0 {
        if prefix.is_prefix_of(list[0]) {
            assert(list.contains(list[0]));
        } else {
            lemma_first_with(list.skip(1), prefix);
            if let Some(line) = first_with(list.skip(1), prefix) {
                let i = list.skip(1).index_of(line);
                assert(list[i + 1] == line);
            }
        }
    }
}

/// The value of a field: what stands between the first and the second colon of
/// the first line that starts with the field's name.
pub open spec fn field_of(cpuinfo: Seq<char>, field: Seq<char>) -> Seq<char> {
    match first_with(lines(cpuinfo), field) {
        Some(line) if split(line, ':').len() > 1 => trimmed(split(line, ':')[1], CharClass::Space),
        _ => "Unknown"@,
    }
}

/// The value of a field in the text of `/proc/cpuinfo`.
pub fn cpuinfo_field(cpuinfo: &str, field: &str) -> (r: String)
    ensures
        r@ == field_of(cpuinfo@, field@),
{
    match line_with(cpuinfo, field) {
        Some(line) => {
            let parts = split_char(line.as_str(), ':');
            if parts.len() > 1 {
                assert(split(line@, ':')[1] == parts@[1]@);
                trim(parts[1].as_str())
            } else {
                owned("Unknown")
            }
        },
        None => owned("Unknown"),
    }
}

// ---------------------------------------------------------------------------
// load and uptime

/// The first word of a text, where it has one.
pub open spec fn first_word(content: Seq<char>) -> Option<Seq<char>> {
    let parts = words(trimmed(content, CharClass::Space));
    if parts.len() > 0 {
        Some(parts[0])
    } else {
        None
    }
}

/// The first word of `/proc/uptime`: the seconds since boot, as a decimal
/// fraction.
pub fn uptime_seconds(content: &str) -> (r: Option<String>)
    ensures
        r.deep_view() == (if words(trimmed(content@, CharClass::Space)).len() > 0 {
            Some(words(trimmed(content@, CharClass::Space))[0])
        } else {
            None
        }),
        r.deep_view() == first_word(content@),
{
    let t = trim(content);
    let parts = split_words(t.as_str());
    if parts.len() > 0 {
        assert(words(t@)[0] == parts@[0]@);
        Some(owned(parts[0].as_str()))
    } else {
        None
    }
}

/// A time span in days, hours and minutes; leading zero units are left out.
pub open spec fn span_text(secs: nat) -> Seq<char> {
    let d = secs / 86400;
    let h = secs % 86400 / 3600;
    let m = secs % 3600 / 60;
    if d == 0 && h == 0 {
        decimal(m) + "m"@
    } else if d == 0 {
        decimal(h) + "h "@ + decimal(m) + "m"@
    } else {
        decimal(d) + "d "@ + decimal(h) + "h "@ + decimal(m) + "m"@
    }
}

/// How long the system has been up.
pub fn uptime(secs: u64) -> (r: String)
    ensures
        r@ == span_text(secs as nat),
{
    let d: u64 = secs / 86400;
    let h: u64 = secs % 86400 / 3600;
    let m: u64 = secs % 3600 / 60;
    let mut r = String::new();
    if d != 0 {
        r.append(show(d).as_str());
        r.append("d ");
    }
    if d != 0 || h != 0 {
        r.append(show(h).as_str());
        r.append("h ");
    }
    r.append(show(m).as_str());
    r.append("m");
    assert(r@ =~= span_text(secs as nat));
    r
}

/// The units of a time span add up to it, but for the seconds, and none overflows
/// into the next.
pub proof fn law_span_units(secs: nat)
    ensures
        secs % 86400 / 3600 < 24,
        secs % 3600 / 60 < 60,
        secs / 86400 * 86400 + secs % 86400 / 3600 * 3600 + secs % 3600 / 60 * 60 == secs - secs
            % 60,
{
}

/// The three load averages.
pub open spec fn averages(content: Seq<char>) -> Seq<char> {
    let parts = words(trimmed(content, CharClass::Space));
    if parts.len() >= 3 {
        parts[0] + "  "@ + parts[1] + "  "@ + parts[2]
    } else {
        "Unknown"@
    }
}

/// The number of runnable tasks and of all tasks.
pub open spec fn tasks(content: Seq<char>) -> Seq<char> {
    let parts = words(trimmed(content, CharClass::Space));
    if parts.len() > 3 {
        parts[3]
    } else {
        "N/A"@
    }
}

/// The load averages and the tasks in the text of `/proc/loadavg`.
pub fn loadavg(content: &str) -> (r: (String, String))
    ensures
        r.0@ == averages(content@),
        r.1@ == tasks(content@),
{
    let t = trim(content);
    let parts = split_words(t.as_str());
    let ghost p = words(t@);
    assert(forall|i: int| 0 <= i < p.len() ==> p[i] == parts@[i]@);
    let load = if parts.len() >= 3 {
        let mut l = owned(parts[0].as_str());
        l.append("  ");
        l.append(parts[1].as_str());
        l.append("  ");
        l.append(parts[2].as_str());
        l
    } else {
        owned("Unknown")
    };
    let sched = if parts.len() > 3 {
        owned(parts[3].as_str())
    } else {
        owned("N/A")
    };
    (load, sched)
}

/// How many of the names consist of digits.
pub open spec fn numeric(names: Seq<Seq<char>>) -> nat
    decreases names.len(),
{
    if names.len() == 0 {
        0
    } else if all_digits(names.last()) {
        numeric(names.drop_last()) + 1
    } else {
        numeric(names.drop_last())
    }
}

/// The number of processes, from the names under `/proc`.
pub fn process_count(names: &Vec<String>) -> (r: usize)
    ensures
        r == numeric(names.deep_view()),
{
    let n: usize = names.len();
    let ghost all = names.deep_view();
    let mut count: usize = 0;
    let mut i: usize = 0;
    assert(all.take(0) =~= Seq::<Seq<char>>::empty());
    while i < n
        invariant
            count <= i <= n,
            n == names@.len(),
            all == names.deep_view(),
            count == numeric(all.take(i as int)),
        decreases n - i,
    {
        assert(all.take(i + 1).drop_last() =~= all.take(i as int));
        if is_all_digits(names[i].as_str()) {
            count += 1;
        }
        i += 1;
    }
    assert(all.take(n as int) =~= all);
    count
}

// ---------------------------------------------------------------------------
// the CPU's frequency

/// The governor, where there is one.
pub open spec fn governor(content: Seq<char>) -> Seq<char> {
    let g = trimmed(content, CharClass::Space);
    if g.len() == 0 {
        "Unknown"@
    } else {
        g
    }
}

/// The governor in the text of `scaling_governor`.
pub fn cpu_governor(content: &str) -> (r: String)
    ensures
        r@ == governor(content@),
{
    let g = trim(content);
    if g.as_str().is_empty() {
        owned("Unknown")
    } else {
        g
    }
}

/// The texts of the frequencies in the lines of `/proc/cpuinfo`.
pub open spec fn frequencies(list: Seq<Seq<char>>) -> Seq<Seq<char>>
    decreases list.len(),
{
    if list.len() == 0 {
        Seq::empty()
    } else if "cpu MHz"@.is_prefix_of(list.last()) && split(list.last(), ':').len() > 1 {
        frequencies(list.drop_last()).push(
            trimmed(split(list.last(), ':')[1], CharClass::Space),
        )
    } else {
        frequencies(list.drop_last())
    }
}

/// The texts of the frequencies in `/proc/cpuinfo`, one for each CPU.
pub fn cpu_frequencies(cpuinfo: &str) -> (r: Vec<String>)
    ensures
        r.deep_view() == frequencies(lines(cpuinfo@)),
{
    let list = split_lines(cpuinfo);
    let n: usize = list.len();
    let ghost all = list.deep_view();
    let mut out: Vec<String> = Vec::new();
    let mut i: usize = 0;
    assert(all.take(0) =~= Seq::<Seq<char>>::empty());
    assert(out.deep_view() =~= Seq::<Seq<char>>::empty());
    while i < n
        invariant
            i <= n,
            n == list@.len(),
            all == list.deep_view(),
            out.deep_view() == frequencies(all.take(i as int)),
        decreases n - i,
    {
        assert(all.take(i + 1).drop_last() =~= all.take(i as int));
        let line = list[i].as_str();
        if starts_with(line, "cpu MHz") {
            let parts = split_char(line, ':');
            if parts.len() > 1 {
                assert(split(line@, ':')[1] == parts@[1]@);
                let freq = trim(parts[1].as_str());
                push_string(&mut out, freq);
            }
        }
        i += 1;
    }
    assert(all.take(n as int) =~= all);
    out
}

/// The average and the highest frequency in megahertz, given by their bits, where
/// any frequency is known.
pub open spec fn mhz_text(summary: Option<(u64, u64)>) -> Seq<Glyph> {
    match summary {
        Some((avg, max)) => num(Value::Scaled { bits: avg, divisor: 1 }, 0, 0) + text(
            " MHz avg / "@,
        ) + num(Value::Scaled { bits: max, divisor: 1 }, 0, 0) + text(" MHz peak"@),
        None => text("Unknown"@),
    }
}

pub fn cpu_mhz(summary: Option<(u64, u64)>) -> (r: Page)
    ensures
        r@ == mhz_text(summary),
{
    let mut page = Page::new();
    match summary {
        Some((avg, max)) => {
            page.put_number(Value::Scaled { bits: avg, divisor: 1 }, 0, 0);
            page.put(" MHz avg / ");
            page.put_number(Value::Scaled { bits: max, divisor: 1 }, 0, 0);
            page.put(" MHz peak");
        },
        None => {
            page.put("Unknown");
        },
    }
    assert(page@ =~= mhz_text(summary));
    page
}

// ---------------------------------------------------------------------------
// what the facts mean

/// The name of the system is the value of the first line that starts with
/// `PRETTY_NAME=`, without the quotes around it.
pub proof fn law_pretty_name(
    os_release: Seq<char>,
    before: Seq<Seq<char>>,
    a: Seq<char>,
    name: Seq<char>,
    b: Seq<char>,
    after: Seq<Seq<char>>,
)
    requires
        forall|i: int|
            0 <= i < before.len() ==> !"PRETTY_NAME="@.is_prefix_of(#[trigger] before[i]),
        forall|i: int| 0 <= i < a.len() ==> #[trigger] a[i] == '"',
        forall|i: int| 0 <= i < b.len() ==> #[trigger] b[i] == '"',
        name.len() > 0 ==> name[0] != '"' && name.last() != '"',
    ensures
        lines(os_release) == before + seq!["PRETTY_NAME="@ + (a + name + b)] + after
            ==> pretty_name(os_release) == name,
        lines(os_release) == before ==> pretty_name(os_release) == "Linux"@,
{
    let line = "PRETTY_NAME="@ + (a + name + b);
    law_first_with(before, line, after, "PRETTY_NAME="@);
    law_prefix_cut("PRETTY_NAME="@, a + name + b);
    law_trimmed_middle(a, name, b, CharClass::Quote);
    assert(line.skip("PRETTY_NAME="@.len() as int) =~= a + name + b);
}

/// The value of a field stands behind the colon of the first line that starts with the
/// field's name, without the white space around it.
pub proof fn law_field_of(
    cpuinfo: Seq<char>,
    before: Seq<Seq<char>>,
    line: Seq<char>,
    after: Seq<Seq<char>>,
    field: Seq<char>,
)
    requires
        forall|i: int| 0 <= i < before.len() ==> !field.is_prefix_of(#[trigger] before[i]),
    ensures
        lines(cpuinfo) == before + seq![line] + after && field.is_prefix_of(line) ==> {
            let parts = split(line, ':');
            &&& parts.len() > 1 ==> field_of(cpuinfo, field) == trimmed(parts[1], CharClass::Space)
            &&& parts.len() <= 1 ==> field_of(cpuinfo, field) == "Unknown"@
        },
        lines(cpuinfo) == before ==> field_of(cpuinfo, field) == "Unknown"@,
{
    law_first_with(before, line, after, field);
}

/// The effective user is the third word of the first line that starts with `Uid:`; a
/// user that is not told is unknown.
pub proof fn law_effective_user(
    status: Seq<char>,
    before: Seq<Seq<char>>,
    line: Seq<char>,
    after: Seq<Seq<char>>,
    n: nat,
)
    requires
        forall|i: int| 0 <= i < before.len() ==> !"Uid:"@.is_prefix_of(#[trigger] before[i]),
    ensures
        lines(status) == before + seq![line] + after && "Uid:"@.is_prefix_of(line) ==> {
            &&& words(line).len() > 2 && words(line)[2] == decimal(n) && n <= u32::MAX
                ==> effective_user(status) == n
            &&& words(line).len() <= 2 ==> effective_user(status) == u32::MAX
            &&& words(line).len() > 2 && words(line)[2] == decimal(n) && n > u32::MAX
                ==> effective_user(status) == u32::MAX
        },
        lines(status) == before ==> effective_user(status) == u32::MAX,
{
    law_first_with(before, line, after, "Uid:"@);
    if n <= u32::MAX {
        law_decimal_reads_back(n, u32::MAX as nat);
    } else {
        law_no_number(n, u32::MAX as nat, Seq::empty(), 0);
    }
}

/// The superuser may write anywhere; others only to what they own and what its owner
/// may write to, and to nothing whose owner is not known.
pub proof fn law_writable(me: u32, owner: Owner)
    ensures
        writable(0, Some(owner)) && writable(0, None),
        me != 0 ==> !writable(me, None),
        me != 0 && owner.uid != me ==> !writable(me, Some(owner)),
        me != 0 && owner.uid == me ==> (writable(me, Some(owner)) <==> owner.mode / 128 % 2 == 1),
{
    let mode = owner.mode;
    assert((mode & 0o200 != 0) == (mode / 128 % 2 == 1)) by (bit_vector);
}

/// A time span is told in days, hours and minutes; the largest unit that is not zero
/// comes first, and seconds are not told.
pub proof fn law_span(d: nat, h: nat, m: nat, s: nat)
    requires
        h < 24,
        m < 60,
        s < 60,
    ensures
        ({
            let told = span_text(86400 * d + 3600 * h + 60 * m + s);
            &&& d > 0 ==> told == decimal(d) + "d "@ + decimal(h) + "h "@ + decimal(m) + "m"@
            &&& d == 0 && h > 0 ==> told == decimal(h) + "h "@ + decimal(m) + "m"@
            &&& d == 0 && h == 0 ==> told == decimal(m) + "m"@
        }),
{
    let secs = 86400 * d + 3600 * h + 60 * m + s;
    assert(secs / 86400 == d);
    assert(secs % 86400 == 3600 * h + 60 * m + s);
    assert(secs % 86400 / 3600 == h);
    assert(secs % 3600 == 60 * m + s);
    assert(secs % 3600 / 60 == m);
}

/// The averages are the first three words, the tasks the fourth; what is not there is
/// not known.
pub proof fn law_load_averages(content: Seq<char>)
    ensures
        ({
            let w = words(content);
            &&& w.len() >= 3 ==> averages(content) == w[0] + "  "@ + w[1] + "  "@ + w[2]
            &&& w.len() < 3 ==> averages(content) == "Unknown"@
            &&& w.len() > 3 ==> tasks(content) == w[3]
            &&& w.len() <= 3 ==> tasks(content) == "N/A"@
        }),
{
    law_trimming_keeps_words(content);
}

/// The governor is the text of its file without the white space around it; an empty
/// file tells nothing.
pub proof fn law_governor(a: Seq<char>, name: Seq<char>, b: Seq<char>)
    requires
        forall|i: int| 0 <= i < a.len() ==> is_space(#[trigger] a[i]),
        forall|i: int| 0 <= i < b.len() ==> is_space(#[trigger] b[i]),
        name.len() > 0 ==> !is_space(name[0]) && !is_space(name.last()),
    ensures
        name.len() > 0 ==> governor(a + name + b) == name,
        name.len() == 0 ==> governor(a + name + b) == "Unknown"@,
{
    law_trimmed_middle(a, name, b, CharClass::Space);
}

/// Every line that starts with `cpu MHz` and has a colon gives a frequency, in the
/// order of the lines, and no other line gives one.
pub proof fn law_frequencies(a: Seq<Seq<char>>, b: Seq<Seq<char>>, line: Seq<char>)
    ensures
        frequencies(a + b) == frequencies(a) + frequencies(b),
        frequencies(seq![line]) == (if "cpu MHz"@.is_prefix_of(line) && split(line, ':').len()
            > 1 {
            seq![trimmed(split(line, ':')[1], CharClass::Space)]
        } else {
            Seq::empty()
        }),
    decreases b.len(),
{
    assert(frequencies(Seq::empty()) =~= Seq::<Seq<char>>::empty());
    assert(seq![line].drop_last() =~= Seq::<Seq<char>>::empty());
    assert(seq![line].last() == line);
    let found = trimmed(split(line, ':')[1], CharClass::Space);
    assert(Seq::<Seq<char>>::empty().push(found) =~= seq![found]);
    if b.len() == 0 {
        assert(a + b =~= a);
        assert(frequencies(a) + frequencies(b) =~= frequencies(a));
    } else {
        law_frequencies(a, b.drop_last(), line);
        assert((a + b).drop_last() =~= a + b.drop_last());
        assert((a + b).last() == b.last());
        assert(frequencies(a + b) =~= frequencies(a) + frequencies(b));
    }
}

/// Processes are counted by the names that consist of digits.
pub proof fn law_processes(names: Seq<Seq<char>>)
    ensures
        numeric(names) == names.filter(
            |s: Seq<char>| forall|i: int| 0 <= i < s.len() ==> is_digit(#[trigger] s[i]),
        ).len(),
    decreases names.len(),
{
    reveal(Seq::filter);
    if names.len() > 0 {
        law_processes(names.drop_last());
    }
}

/// The frequencies are shown as they were given, the average first.
pub proof fn law_frequency_shown(avg: u64, max: u64)
    ensures
        mhz_text(Some((avg, max))) == num(Value::Scaled { bits: avg, divisor: 1 }, 0, 0) + text(
            " MHz avg / "@,
        ) + num(Value::Scaled { bits: max, divisor: 1 }, 0, 0) + text(" MHz peak"@),
        mhz_text(None) == text("Unknown"@),
{
}

/// A file that holds a number, with or without white space around it, is read as that
/// number.
pub proof fn law_file_number(a: Seq<char>, n: nat, b: Seq<char>)
    requires
        forall|i: int| 0 <= i < a.len() ==> is_space(#[trigger] a[i]),
        forall|i: int| 0 <= i < b.len() ==> is_space(#[trigger] b[i]),
        n <= u64::MAX,
    ensures
        file_number(a + decimal(n) + b) == n,
        file_number(Seq::empty()) == 0,
{
    law_decimal_digits(n);
    law_number_or_zero(n, Seq::empty());
    law_no_number(n, u64::MAX as nat, Seq::empty(), 0);
    let d = decimal(n);
    assert(is_digit(d[0]) && is_digit(d[d.len() - 1]));
    law_trimmed_middle(a, d, b, CharClass::Space);
    law_trimmed_middle(Seq::empty(), Seq::empty(), Seq::empty(), CharClass::Space);
    let none = Seq::<char>::empty();
    assert(none + none + none =~= none);
}

/// The first word is that of the text, whatever white space stands around it.
pub proof fn law_first_word_of(content: Seq<char>)
    ensures
        words(content).len() > 0 ==> first_word(content) == Some(words(content)[0]),
        words(content).len() == 0 ==> first_word(content) is None,
{
    law_trimming_keeps_words(content);
}

/// The facts are those of the texts, each from its own.
pub proof fn law_static_facts(s: StaticInfo, t: HostTexts)
    requires
        s.states(t),
    ensures
        s.hostname@ == trimmed(t.hostname@, CharClass::Space),
        s.kernel@ == trimmed(t.kernel@, CharClass::Space),
        s.os_name@ == pretty_name(t.os_release@),
        s.arch@ == t.arch@,
        s.cpu_model@ == field_of(t.cpuinfo@, "model name"@),
        s.wifi_standard@ == wifi_standard(t.iw@, t.mhz@),
        s.wifi_bands@ == wifi_bands(t.iw@, t.mhz@),
        s.gpus.deep_view() == gpu_list(t.lspci@, t.cards@),
{
}

} // verus!
