//! Hardware monitoring chips as the kernel lists them under `/sys/class/hwmon`.

use vstd::prelude::*;

use crate::names::{arrange, arranged, before, is_average, key, law_arranged, law_arranged_contains, law_arranged_filter, lemma_before, lemma_kept_count, lemma_order_unique, sensor_key, sort, AnyName, Labelled, NameTest, Named, Order};
use crate::text::{cut_suffixes, find_char, law_suffixes_cut, lemma_find_char, lemma_find_char_is, ends_with, owned, same, starts_with, strip_suffixes, trim, trimmed, CharClass};

verus! {

/// A number that was read as floating point: its IEEE 754 bits, and the number
/// cut to a whole one that fits in 64 bits without sign.
#[derive(Clone, Copy, PartialEq, Eq, Structural, Debug)]
pub struct Measured {
    pub bits: u64,
    pub whole: u64,
}

/// One chip and its sensors, each with a label.
#[derive(Debug)]
pub struct HwmonChip {
    /// The name of the chip's directory, such as `hwmon3`.
    pub id: String,
    /// The name of the driver, such as `k10temp`.
    pub name: String,
    /// Bits of the temperatures in thousandths of a degree Celsius.
    pub temps: Vec<(String, u64)>,
    /// Revolutions per minute.
    pub fans: Vec<(String, u64)>,
    /// Bits of the voltages in millivolts.
    pub volts: Vec<(String, u64)>,
    /// Bits of the frequencies in hertz.
    pub freqs: Vec<(String, u64)>,
    /// Bits of the powers in microwatts.
    pub powers: Vec<(String, u64)>,
}

pub type Readings = Seq<(Seq<char>, u64)>;

/// The model of a chip.
#[verifier::ext_equal]
pub struct ChipView {
    pub id: Seq<char>,
    pub name: Seq<char>,
    pub temps: Readings,
    pub fans: Readings,
    pub volts: Readings,
    pub freqs: Readings,
    pub powers: Readings,
}

impl DeepView for HwmonChip {
    type V = ChipView;

    open spec fn deep_view(&self) -> ChipView {
        ChipView {
            id: self.id@,
            name: self.name@,
            temps: self.temps.deep_view(),
            fans: self.fans.deep_view(),
            volts: self.volts.deep_view(),
            freqs: self.freqs.deep_view(),
            powers: self.powers.deep_view(),
        }
    }
}

impl ChipView {
    /// A chip without sensors.
    pub open spec fn bare(id: Seq<char>, name: Seq<char>) -> ChipView {
        ChipView {
            id,
            name,
            temps: Seq::empty(),
            fans: Seq::empty(),
            volts: Seq::empty(),
            freqs: Seq::empty(),
            powers: Seq::empty(),
        }
    }

    /// Whether the chip shows nothing.
    pub open spec fn empty(self) -> bool {
        &&& self.temps.len() == 0
        &&& self.fans.len() == 0
        &&& self.volts.len() == 0
        &&& self.freqs.len() == 0
        &&& self.powers.len() == 0
    }
}

/// Whether a list of readings has the label.
pub open spec fn has_label(list: Readings, label: Seq<char>) -> bool {
    exists|i: int| 0 <= i < list.len() && (#[trigger] list[i]).0 == label
}

/// No two readings have the same label.
pub open spec fn labels_distinct(list: Readings) -> bool {
    forall|i: int, j: int|
        0 <= i < j < list.len() ==> (#[trigger] list[i]).0 != (#[trigger] list[j]).0
}

fn find_label(list: &Vec<(String, u64)>, label: &str) -> (r: bool)
    ensures
        r == has_label(list.deep_view(), label@),
{
    let n: usize = list.len();
    let mut i: usize = 0;
    while i < n
        invariant
            i <= n,
            n == list@.len(),
            forall|j: int| 0 <= j < i ==> (#[trigger] list.deep_view()[j]).0 != label@,
        decreases n - i,
    {
        if same(list[i].0.as_str(), label) {
            assert(list.deep_view()[i as int].0 == label@);
            return true;
        }
        i += 1;
    }
    false
}

/// Appends a reading.
pub fn push_reading(list: &mut Vec<(String, u64)>, label: String, value: u64)
    ensures
        final(list).deep_view() == old(list).deep_view().push((label@, value)),
{
    list.push((label, value));
    assert(list.deep_view() =~= old(list).deep_view().push((label@, value)));
}

fn copy_readings(list: &Vec<(String, u64)>) -> (r: Vec<(String, u64)>)
    ensures
        r.deep_view() == list.deep_view(),
{
    let n: usize = list.len();
    let mut out: Vec<(String, u64)> = Vec::new();
    let mut i: usize = 0;
    while i < n
        invariant
            i <= n,
            n == list@.len(),
            out.deep_view() =~= list.deep_view().take(i as int),
        decreases n - i,
    {
        push_reading(&mut out, owned(list[i].0.as_str()), list[i].1);
        i += 1;
    }
    assert(out.deep_view() =~= list.deep_view());
    out
}

impl Clone for HwmonChip {
    fn clone(&self) -> (r: HwmonChip)
        ensures
            r.deep_view() == self.deep_view(),
    {
        HwmonChip {
            id: owned(self.id.as_str()),
            name: owned(self.name.as_str()),
            temps: copy_readings(&self.temps),
            fans: copy_readings(&self.fans),
            volts: copy_readings(&self.volts),
            freqs: copy_readings(&self.freqs),
            powers: copy_readings(&self.powers),
        }
    }
}

// ---------------------------------------------------------------------------
// the files of a chip

/// Whether a file holds the value of a sensor.
pub open spec fn is_sensor_file(file: Seq<char>) -> bool {
    "_input"@.is_suffix_of(file) || is_average(file)
}

fn sensor_file(file: &str) -> (r: bool)
    ensures
        r == is_sensor_file(file@),
{
    ends_with(file, "_input") || ends_with(file, "_average")
}

/// Names of sensor files.
pub struct SensorFiles;

impl NameTest for SensorFiles {
    open spec fn passes(&self, name: Seq<char>) -> bool {
        is_sensor_file(name)
    }

    fn test(&self, name: &str) -> (r: bool) {
        sensor_file(name)
    }
}

/// The sensor files of a directory, in the order in which they are read.
pub fn sensor_files(names: &Vec<String>) -> (r: Vec<String>)
    ensures
        r.deep_view() == arranged(names.deep_view(), SensorFiles, Order::File),
        forall|k: Seq<char>| #[trigger]
            r.deep_view().contains(k) <==> names.deep_view().contains(k) && (
            "_input"@.is_suffix_of(k) || "_average"@.is_suffix_of(k)),
{
    proof {
        let list = arranged(names.deep_view(), SensorFiles, Order::File);
        assert forall|k: Seq<char>| #[trigger] list.contains(k) <==> names.deep_view().contains(k)
            && ("_input"@.is_suffix_of(k) || "_average"@.is_suffix_of(k)) by {
            law_arranged_contains(names.deep_view(), SensorFiles, Order::File, k);
        }
    }
    sort(names, &SensorFiles, Order::File)
}

/// The sensor that a file belongs to.
pub open spec fn sensor_of(file: Seq<char>) -> Seq<char> {
    strip_suffixes(strip_suffixes(file, "_input"@), "_average"@)
}

pub fn sensor_name(file: &str) -> (r: String)
    ensures
        r@ == sensor_of(file@),
{
    let s = cut_suffixes(file, "_input");
    cut_suffixes(s.as_str(), "_average")
}

/// What a sensor measures.
#[derive(Clone, Copy, PartialEq, Eq, Structural, Debug)]
pub enum SensorKind {
    Temp,
    Fan,
    Volt,
    Freq,
    Power,
}

/// What a sensor measures, by the start of its name.
pub open spec fn kind_of(sensor: Seq<char>) -> Option<SensorKind> {
    if "temp"@.is_prefix_of(sensor) {
        Some(SensorKind::Temp)
    } else if "fan"@.is_prefix_of(sensor) {
        Some(SensorKind::Fan)
    } else if "in"@.is_prefix_of(sensor) {
        Some(SensorKind::Volt)
    } else if "freq"@.is_prefix_of(sensor) {
        Some(SensorKind::Freq)
    } else if "power"@.is_prefix_of(sensor) {
        Some(SensorKind::Power)
    } else {
        None
    }
}

pub fn sensor_kind(sensor: &str) -> (r: Option<SensorKind>)
    ensures
        r == kind_of(sensor@),
{
    if starts_with(sensor, "temp") {
        Some(SensorKind::Temp)
    } else if starts_with(sensor, "fan") {
        Some(SensorKind::Fan)
    } else if starts_with(sensor, "in") {
        Some(SensorKind::Volt)
    } else if starts_with(sensor, "freq") {
        Some(SensorKind::Freq)
    } else if starts_with(sensor, "power") {
        Some(SensorKind::Power)
    } else {
        None
    }
}

impl ChipView {
    /// Whether a file of the chip is still to be read. An average counts for
    /// powers only, and a power counts once.
    pub open spec fn wants(self, file: Seq<char>) -> bool {
        let power = "power"@.is_prefix_of(sensor_of(file));
        &&& is_sensor_file(file)
        &&& is_average(file) ==> power
        &&& power ==> !has_label(self.powers, sensor_of(file))
    }

    /// The chip after a file was read: its number, where it held one, and the text
    /// of the label file, where there is one.
    pub open spec fn with(
        self,
        file: Seq<char>,
        reading: Option<Measured>,
        label: Option<Seq<char>>,
    ) -> ChipView {
        let sensor = sensor_of(file);
        let shown = match label {
            Some(l) => trimmed(l, CharClass::Space),
            None => sensor,
        };
        match (reading, kind_of(sensor)) {
            (Some(m), Some(kind)) if self.wants(file) => match kind {
                SensorKind::Temp => ChipView { temps: self.temps.push((shown, m.bits)), ..self },
                SensorKind::Fan => ChipView { fans: self.fans.push((shown, m.whole)), ..self },
                SensorKind::Volt => ChipView { volts: self.volts.push((shown, m.bits)), ..self },
                SensorKind::Freq => ChipView { freqs: self.freqs.push((shown, m.bits)), ..self },
                SensorKind::Power => ChipView {
                    powers: self.powers.push((sensor, m.bits)),
                    ..self
                },
            },
            _ => self,
        }
    }
}

impl HwmonChip {
    /// A chip before its sensors are read, from its directory's name and the text
    /// of its `name` file.
    pub fn new(id: &str, name: &str) -> (r: HwmonChip)
        ensures
            r.deep_view() == ChipView::bare(id@, trimmed(name@, CharClass::Space)),
    {
        let r = HwmonChip {
            id: owned(id),
            name: trim(name),
            temps: Vec::new(),
            fans: Vec::new(),
            volts: Vec::new(),
            freqs: Vec::new(),
            powers: Vec::new(),
        };
        assert(r.deep_view() =~= ChipView::bare(id@, trimmed(name@, CharClass::Space)));
        r
    }

    /// Whether the chip shows nothing.
    pub fn is_empty(&self) -> (r: bool)
        ensures
            r == self.deep_view().empty(),
    {
        self.temps.is_empty() && self.fans.is_empty() && self.volts.is_empty()
            && self.freqs.is_empty() && self.powers.is_empty()
    }

    /// Whether a file is still to be read.
    fn wants(&self, file: &str) -> (r: bool)
        ensures
            r == self.deep_view().wants(file@),
    {
        if !sensor_file(file) {
            return false;
        }
        let sensor = sensor_name(file);
        let power = starts_with(sensor.as_str(), "power");
        if ends_with(file, "_average") && !power {
            return false;
        }
        !(power && find_label(&self.powers, sensor.as_str()))
    }

    /// Takes in what a file held.
    fn record(&mut self, file: &str, reading: Option<Measured>, label: Option<&str>)
        ensures
            final(self).deep_view() == old(self).deep_view().with(file@, reading, label.deep_view()),
    {
        if !self.wants(file) {
            return;
        }
        let sensor = sensor_name(file);
        let shown = match label {
            Some(l) => trim(l),
            None => owned(sensor.as_str()),
        };
        if let Some(m) = reading {
            match sensor_kind(sensor.as_str()) {
                Some(SensorKind::Temp) => push_reading(&mut self.temps, shown, m.bits),
                Some(SensorKind::Fan) => push_reading(&mut self.fans, shown, m.whole),
                Some(SensorKind::Volt) => push_reading(&mut self.volts, shown, m.bits),
                Some(SensorKind::Freq) => push_reading(&mut self.freqs, shown, m.bits),
                Some(SensorKind::Power) => {
                    push_reading(&mut self.powers, sensor, m.bits);
                },
                None => {},
            }
        }
    }
}

/// What one file of a chip held: its name, its number where it held one, and the
/// text of its label where there is one.
#[derive(Debug)]
pub struct SensorFile {
    pub file: String,
    pub reading: Option<Measured>,
    pub label: Option<String>,
}

impl Labelled for SensorFile {
    open spec fn label(&self) -> Seq<char> {
        self.file@
    }
}

impl Named for SensorFile {
    fn called(&self) -> (r: &str) {
        self.file.as_str()
    }
}

/// A chip after a number of files were read, one after the other.
pub open spec fn scanned(chip: ChipView, files: Seq<SensorFile>) -> ChipView
    decreases files.len(),
{
    if files.len() == 0 {
        chip
    } else {
        let f = files.last();
        scanned(chip, files.drop_last()).with(f.file@, f.reading, f.label.deep_view())
    }
}

/// A chip, from its directory's name, the text of its `name` file and what its
/// files held: the sensor files are taken in, in their order.
pub open spec fn dir_chip(id: Seq<char>, name: Seq<char>, files: Seq<SensorFile>) -> ChipView {
    scanned(
        ChipView::bare(id, trimmed(name, CharClass::Space)),
        arranged(files, SensorFiles, Order::File),
    )
}

pub fn read_hwmon_dir(id: &str, name: &str, files: &Vec<SensorFile>) -> (r: HwmonChip)
    ensures
        r.deep_view() == dir_chip(id@, name@, files@),
{
    let order = arrange(files, &SensorFiles, Order::File);
    let ghost all = arranged(files@, SensorFiles, Order::File);
    let ghost bare = ChipView::bare(id@, trimmed(name@, CharClass::Space));
    let n: usize = order.len();
    let mut chip = HwmonChip::new(id, name);
    let mut i: usize = 0;
    assert(all.take(0) =~= Seq::<SensorFile>::empty());
    while i < n
        invariant
            i <= n,
            n == order@.len(),
            n == all.len(),
            forall|j: int|
                0 <= j < n ==> (#[trigger] order@[j]) < files@.len() && files@[order@[j] as int]
                    == all[j],
            chip.deep_view() == scanned(bare, all.take(i as int)),
        decreases n - i,
    {
        let f = &files[order[i]];
        assert(all.take(i + 1).drop_last() =~= all.take(i as int));
        assert(all.take(i + 1).last() == *f);
        let label = match &f.label {
            Some(l) => Some(l.as_str()),
            None => None,
        };
        chip.record(f.file.as_str(), f.reading, label);
        i += 1;
    }
    assert(all.take(n as int) =~= all);
    chip
}

/// However the files of a directory turn out, the chip keeps its identity and
/// lists each power sensor once.
pub proof fn law_powers_listed_once(id: Seq<char>, name: Seq<char>, files: Seq<SensorFile>)
    ensures
        labels_distinct(dir_chip(id, name, files).powers),
        dir_chip(id, name, files).id == id,
        dir_chip(id, name, files).name == trimmed(name, CharClass::Space),
{
    lemma_scanned(
        ChipView::bare(id, trimmed(name, CharClass::Space)),
        arranged(files, SensorFiles, Order::File),
    );
}

proof fn lemma_scanned(chip: ChipView, files: Seq<SensorFile>)
    requires
        labels_distinct(chip.powers),
    ensures
        labels_distinct(scanned(chip, files).powers),
        scanned(chip, files).id == chip.id,
        scanned(chip, files).name == chip.name,
    decreases files.len(),
{
    if files.len() > 0 {
        lemma_scanned(chip, files.drop_last());
    }
}

/// Reading a file that the chip does not want changes nothing, so it may be left
/// unread.
pub proof fn law_unwanted_file_changes_nothing(
    chip: ChipView,
    file: Seq<char>,
    reading: Option<Measured>,
    label: Option<Seq<char>>,
)
    requires
        !chip.wants(file),
    ensures
        chip.with(file, reading, label) == chip,
{
}

// ---------------------------------------------------------------------------
// which files of a directory count

impl SensorFile {
    /// Whether a file counts: it is the file of a sensor that is shown, it holds a
    /// number, and it is an average of powers only.
    pub open spec fn counts(self) -> bool {
        let sensor = sensor_of(self.file@);
        &&& is_sensor_file(self.file@)
        &&& self.reading is Some
        &&& kind_of(sensor) is Some
        &&& is_average(self.file@) ==> "power"@.is_prefix_of(sensor)
    }
}

proof fn lemma_scanned_counted(chip: ChipView, files: Seq<SensorFile>, keep: spec_fn(SensorFile) -> bool)
    requires
        forall|f: SensorFile| #[trigger] f.counts() ==> keep(f),
    ensures
        scanned(chip, files.filter(keep)) == scanned(chip, files),
    decreases files.len(),
{
    reveal(Seq::filter);
    if files.len() > 0 {
        let f = files.last();
        let front = files.drop_last();
        lemma_scanned_counted(chip, front, keep);
        if keep(f) {
            assert(front.filter(keep).push(f).drop_last() =~= front.filter(keep));
        } else {
            assert(!f.counts());
        }
    }
}

/// Files that do not count may be left out of a directory: files without a number,
/// of something that is not shown, or averages of something other than a power.
/// They never disturb the readings of the others.
pub proof fn law_files_that_do_not_count(
    id: Seq<char>,
    name: Seq<char>,
    files: Seq<SensorFile>,
    keep: spec_fn(SensorFile) -> bool,
)
    requires
        forall|f: SensorFile| #[trigger] f.counts() ==> keep(f),
    ensures
        dir_chip(id, name, files.filter(keep)) == dir_chip(id, name, files),
{
    law_arranged_filter(files, SensorFiles, Order::File, keep);
    lemma_scanned_counted(
        ChipView::bare(id, trimmed(name, CharClass::Space)),
        arranged(files, SensorFiles, Order::File),
        keep,
    );
}

/// Whether no two different files that count share a place in the order.
pub open spec fn unambiguous(files: Seq<SensorFile>) -> bool {
    forall|i: int, j: int|
        0 <= i < files.len() && 0 <= j < files.len() && (#[trigger] files[i]).counts() && (
        #[trigger] files[j]).counts() && key(files[i].file@, Order::File) == key(
            files[j].file@,
            Order::File,
        ) ==> files[i] == files[j]
}

proof fn lemma_filter_count<T>(s: Seq<T>, keep: spec_fn(T) -> bool, x: T)
    ensures
        s.filter(keep).to_multiset().count(x) == (if keep(x) {
            s.to_multiset().count(x)
        } else {
            0
        }),
{
    lemma_kept_count(s, keep, x);
}

/// The chip depends on nothing but the files that count: neither on the others nor
/// on the order in which the directory is listed.
pub proof fn law_listing_order(
    id: Seq<char>,
    name: Seq<char>,
    a: Seq<SensorFile>,
    b: Seq<SensorFile>,
)
    requires
        unambiguous(a),
        forall|f: SensorFile| #[trigger]
            f.counts() ==> a.to_multiset().count(f) == b.to_multiset().count(f),
    ensures
        dir_chip(id, name, a) == dir_chip(id, name, b),
{
    broadcast use vstd::seq_lib::group_to_multiset_ensures;

    let keep = |f: SensorFile| f.counts();
    let (ka, kb) = (a.filter(keep), b.filter(keep));
    let x = arranged(ka, SensorFiles, Order::File);
    let y = arranged(kb, SensorFiles, Order::File);
    law_files_that_do_not_count(id, name, a, keep);
    law_files_that_do_not_count(id, name, b, keep);
    law_arranged(ka, SensorFiles, Order::File);
    law_arranged(kb, SensorFiles, Order::File);
    assert forall|f: SensorFile| x.to_multiset().count(f) == y.to_multiset().count(f) by {
        law_arranged(ka, SensorFiles, Order::File);
        law_arranged(kb, SensorFiles, Order::File);
        lemma_filter_count(a, keep, f);
        lemma_filter_count(b, keep, f);
        assert(keep(f) == f.counts());
    }
    assert(x.to_multiset() =~= y.to_multiset());
    assert forall|i: int| 0 <= i < x.len() implies a.contains(#[trigger] x[i])
        && x[i].counts() by {
        assert(x.contains(x[i]));
        law_arranged(ka, SensorFiles, Order::File);
        lemma_filter_count(a, keep, x[i]);
        assert(x.to_multiset().count(x[i]) > 0);
        assert(a.to_multiset().count(x[i]) > 0);
    }
    assert forall|i: int, j: int|
        0 <= i < x.len() && 0 <= j < x.len() && key((#[trigger] x[i]).label(), Order::File) == key(
            (#[trigger] x[j]).label(),
            Order::File,
        ) implies x[i] == x[j] by {
        let k = a.index_of(x[i]);
        let l = a.index_of(x[j]);
        assert(a[k] == x[i] && a[l] == x[j]);
    }
    lemma_order_unique(x, y, Order::File);
}

// ---------------------------------------------------------------------------
// which of the files of a power counts

proof fn lemma_strip_suffixes(s: Seq<char>, suffix: Seq<char>)
    requires
        suffix.len() > 0,
    ensures
        strip_suffixes(s, suffix).is_prefix_of(s),
        strip_suffixes(s, suffix).len() < s.len() ==> s[strip_suffixes(s, suffix).len() as int]
            == suffix[0],
    decreases s.len(),
{
    if suffix.is_suffix_of(s) {
        let n = s.len() - suffix.len();
        let t = s.take(n);
        let r = strip_suffixes(s, suffix);
        lemma_strip_suffixes(t, suffix);
        assert(s.subrange(n, s.len() as int)[0] == suffix[0]);
        assert(t.subrange(0, r.len() as int) =~= s.subrange(0, r.len() as int));
        if r.len() < n {
            assert(t[r.len() as int] == s[r.len() as int]);
        }
    } else {
        assert(s.subrange(0, s.len() as int) =~= s);
    }
}

/// All files of a sensor have the sensor's key.
proof fn lemma_sensor_key(file: Seq<char>)
    ensures
        sensor_key(file) == sensor_key(sensor_of(file)),
{
    reveal_strlit("_input");
    reveal_strlit("_average");
    let t = strip_suffixes(file, "_input"@);
    let s = sensor_of(file);
    lemma_strip_suffixes(file, "_input"@);
    lemma_strip_suffixes(t, "_average"@);
    let n = s.len() as int;
    assert(s =~= t.subrange(0, n));
    assert(t =~= file.subrange(0, t.len() as int));
    assert(s =~= file.take(n));
    if n < t.len() {
        assert(t[n] == file[n]);
    }
    assert(n < file.len() ==> file[n] == '_');
    lemma_find_char(s, '_');
    let at = find_char(s, '_') as int;
    assert forall|i: int| 0 <= i < at implies #[trigger] file[i] != '_' by {
        assert(s[i] == file[i]);
    }
    if at < n {
        assert(s[at] == file[at]);
    }
    lemma_find_char_is(file, '_', at);
    assert(file.take(at) =~= s.take(at));
}

/// Whether a list of readings holds one.
pub open spec fn has_reading(list: Readings, label: Seq<char>, value: u64) -> bool {
    exists|i: int| 0 <= i < list.len() && #[trigger] list[i] == (label, value)
}

/// Whether a file is the one that a power is read from: it holds a number, and the
/// other files of the sensor that hold one are averages beside an input.
pub open spec fn power_file(files: Seq<SensorFile>, i: int) -> bool {
    let f = files[i];
    &&& 0 <= i < files.len()
    &&& is_sensor_file(f.file@)
    &&& kind_of(sensor_of(f.file@)) == Some(SensorKind::Power)
    &&& f.reading is Some
    &&& forall|j: int|
        0 <= j < files.len() && j != i && is_sensor_file((#[trigger] files[j]).file@) && sensor_of(
            files[j].file@,
        ) == sensor_of(f.file@) && files[j].reading is Some ==> is_average(files[j].file@)
            && !is_average(f.file@)
}

proof fn lemma_power_scanned(chip: ChipView, order: Seq<SensorFile>, f: SensorFile, n: int)
    requires
        0 <= n <= order.len(),
        chip.powers.len() == 0,
        forall|i: int, j: int|
            0 <= i < j < order.len() ==> !before(
                (#[trigger] order[j]).file@,
                (#[trigger] order[i]).file@,
                Order::File,
            ),
        order.contains(f),
        is_sensor_file(f.file@),
        kind_of(sensor_of(f.file@)) == Some(SensorKind::Power),
        f.reading is Some,
        forall|j: int|
            0 <= j < order.len() && (#[trigger] order[j]) != f && is_sensor_file(order[j].file@)
                && sensor_of(order[j].file@) == sensor_of(f.file@) && order[j].reading is Some
                ==> is_average(order[j].file@) && !is_average(f.file@),
    ensures
        ({
            let powers = scanned(chip, order.take(n)).powers;
            let sensor = sensor_of(f.file@);
            &&& has_label(powers, sensor) ==> has_reading(powers, sensor, f.reading->0.bits)
            &&& order.take(n).contains(f) ==> has_label(powers, sensor)
        }),
    decreases n,
{
    let sensor = sensor_of(f.file@);
    let bits = f.reading->0.bits;
    if n > 0 {
        lemma_power_scanned(chip, order, f, n - 1);
        let g = order[n - 1];
        let front = order.take(n - 1);
        assert(order.take(n).drop_last() =~= front);
        assert(order.take(n).last() == g);
        let before_chip = scanned(chip, front);
        let after = before_chip.with(g.file@, g.reading, g.label.deep_view());
        assert(scanned(chip, order.take(n)) == after);
        let old_powers = before_chip.powers;
        let powers = after.powers;
        // what was listed stays listed
        assert forall|i: int| 0 <= i < old_powers.len() implies #[trigger] powers[i]
            == old_powers[i] by {}
        if has_label(old_powers, sensor) {
            let i = choose|i: int| 0 <= i < old_powers.len() && #[trigger] old_powers[i] == (sensor, bits);
            assert(powers[i] == (sensor, bits));
            assert(powers[i].0 == sensor);
        } else {
            let pushed = old_powers.len() as int;
            if g == f {
                assert(powers == old_powers.push((sensor, bits)));
                assert(powers[pushed] == (sensor, bits));
                assert(powers[pushed].0 == sensor);
            } else {
                if order.take(n).contains(f) {
                    let i = order.take(n).index_of(f);
                    assert(front[i] == f);
                    assert(front.contains(f));
                }
                if has_label(powers, sensor) {
                    let i = choose|i: int| 0 <= i < powers.len() && (#[trigger] powers[i]).0 == sensor;
                    if i < pushed {
                        assert(old_powers[i].0 == sensor);
                    }
                    assert(sensor_of(g.file@) == sensor);
                    assert(is_average(g.file@) && !is_average(f.file@));
                    lemma_sensor_key(f.file@);
                    lemma_sensor_key(g.file@);
                    assert(before(f.file@, g.file@, Order::File));
                    let m = order.index_of(f);
                    if m < n - 1 {
                        assert(front[m] == f);
                        assert(front.contains(f));
                    }
                    assert(!before(order[m].file@, order[n - 1].file@, Order::File));
                }
            }
        }
    }
}

/// A power is read from its input, and from its average where no input holds a
/// number, wherever the two stand in the listing.
pub proof fn law_power_from_input(id: Seq<char>, name: Seq<char>, files: Seq<SensorFile>, i: int)
    requires
        power_file(files, i),
    ensures
        ({
            let sensor = sensor_of(files[i].file@);
            let powers = dir_chip(id, name, files).powers;
            &&& has_label(powers, sensor)
            &&& forall|j: int|
                0 <= j < powers.len() && (#[trigger] powers[j]).0 == sensor ==> powers[j].1
                    == files[i].reading->0.bits
        }),
{
    broadcast use vstd::seq_lib::group_to_multiset_ensures;

    let f = files[i];
    let sensor = sensor_of(f.file@);
    let bits = f.reading->0.bits;
    let order = arranged(files, SensorFiles, Order::File);
    let chip = ChipView::bare(id, trimmed(name, CharClass::Space));
    law_arranged(files, SensorFiles, Order::File);
    assert forall|a: int, b: int| 0 <= a < b < order.len() implies !before(
        (#[trigger] order[b]).file@,
        (#[trigger] order[a]).file@,
        Order::File,
    ) by {
        assert(!before(order[b].label(), order[a].label(), Order::File));
    }
    assert(files.contains(f));
    law_arranged(files, SensorFiles, Order::File);
    assert(order.to_multiset().count(f) > 0);
    assert forall|j: int|
        0 <= j < order.len() && (#[trigger] order[j]) != f && is_sensor_file(order[j].file@)
            && sensor_of(order[j].file@) == sensor && order[j].reading is Some implies is_average(
        order[j].file@,
    ) && !is_average(f.file@) by {
        assert(order.contains(order[j]));
        law_arranged(files, SensorFiles, Order::File);
        assert(order.to_multiset().count(order[j]) > 0);
        assert(files.to_multiset().count(order[j]) > 0);
        let k = files.index_of(order[j]);
        assert(files[k] == order[j]);
    }
    lemma_power_scanned(chip, order, f, order.len() as int);
    assert(order.take(order.len() as int) =~= order);
    law_powers_listed_once(id, name, files);
    let powers = dir_chip(id, name, files).powers;
    let at = choose|at: int| 0 <= at < powers.len() && #[trigger] powers[at] == (sensor, bits);
    assert forall|j: int|
        0 <= j < powers.len() && (#[trigger] powers[j]).0 == sensor implies powers[j].1 == bits by {
        if j < at {
            assert(powers[j].0 != powers[at].0);
        } else if at < j {
            assert(powers[at].0 != powers[j].0);
        }
    }
}

// ---------------------------------------------------------------------------
// all chips

/// The directory of a chip: its name, the text of its `name` file, and what its
/// files held.
#[derive(Debug)]
pub struct HwmonDir {
    pub id: String,
    pub name: String,
    pub files: Vec<SensorFile>,
}

impl Labelled for HwmonDir {
    open spec fn label(&self) -> Seq<char> {
        self.id@
    }
}

impl Named for HwmonDir {
    fn called(&self) -> (r: &str) {
        self.id.as_str()
    }
}

/// The chips of a list of directories that show something.
pub open spec fn shown_chips(dirs: Seq<HwmonDir>) -> Seq<ChipView>
    decreases dirs.len(),
{
    if dirs.len() == 0 {
        Seq::empty()
    } else {
        let d = dirs.last();
        let chip = dir_chip(d.id@, d.name@, d.files@);
        if chip.empty() {
            shown_chips(dirs.drop_last())
        } else {
            shown_chips(dirs.drop_last()).push(chip)
        }
    }
}

/// The chips that show something, in the order of their directories.
pub open spec fn all_chips(dirs: Seq<HwmonDir>) -> Seq<ChipView> {
    shown_chips(arranged(dirs, AnyName, Order::Sensor))
}

pub fn read_all_hwmon(dirs: &Vec<HwmonDir>) -> (r: Vec<HwmonChip>)
    ensures
        r.deep_view() == shown_chips(arranged(dirs@, AnyName, Order::Sensor)),
        r.deep_view() == all_chips(dirs@),
{
    let order = arrange(dirs, &AnyName, Order::Sensor);
    let ghost all = arranged(dirs@, AnyName, Order::Sensor);
    let n: usize = order.len();
    let mut out: Vec<HwmonChip> = Vec::new();
    let mut i: usize = 0;
    assert(all.take(0) =~= Seq::<HwmonDir>::empty());
    assert(out.deep_view() =~= Seq::<ChipView>::empty());
    while i < n
        invariant
            i <= n,
            n == order@.len(),
            n == all.len(),
            forall|j: int|
                0 <= j < n ==> (#[trigger] order@[j]) < dirs@.len() && dirs@[order@[j] as int]
                    == all[j],
            out.deep_view() == shown_chips(all.take(i as int)),
        decreases n - i,
    {
        let d = &dirs[order[i]];
        assert(all.take(i + 1).drop_last() =~= all.take(i as int));
        assert(all.take(i + 1).last() == *d);
        let chip = read_hwmon_dir(d.id.as_str(), d.name.as_str(), &d.files);
        if !chip.is_empty() {
            let ghost before = out.deep_view();
            let ghost view = chip.deep_view();
            out.push(chip);
            assert(out.deep_view() =~= before.push(view));
        }
        i += 1;
    }
    assert(all.take(n as int) =~= all);
    out
}

/// No chip is listed that shows nothing.
pub proof fn law_no_empty_chip(dirs: Seq<HwmonDir>, i: int)
    requires
        0 <= i < shown_chips(dirs).len(),
    ensures
        !shown_chips(dirs)[i].empty(),
    decreases dirs.len(),
{
    if dirs.len() > 0 {
        let front = shown_chips(dirs.drop_last());
        if i < front.len() {
            law_no_empty_chip(dirs.drop_last(), i);
        }
    }
}

/// The first chip with the given directory name.
pub open spec fn chip_by_id(chips: Seq<ChipView>, id: Seq<char>) -> Option<ChipView>
    decreases chips.len(),
{
    if chips.len() == 0 {
        None
    } else if chips[0].id == id {
        Some(chips[0])
    } else {
        chip_by_id(chips.skip(1), id)
    }
}

pub fn find_chip(chips: &Vec<HwmonChip>, id: &str) -> (r: Option<HwmonChip>)
    ensures
        r.deep_view() == chip_by_id(chips.deep_view(), id@),
{
    let n: usize = chips.len();
    let ghost all = chips.deep_view();
    let mut i: usize = 0;
    assert(all.skip(0) =~= all);
    while i < n
        invariant
            i <= n,
            n == chips@.len(),
            all == chips.deep_view(),
            chip_by_id(all.skip(i as int), id@) == chip_by_id(all, id@),
        decreases n - i,
    {
        assert(all.skip(i as int)[0] == chips@[i as int].deep_view());
        if same(chips[i].id.as_str(), id) {
            return Some(chips[i].clone());
        }
        assert(all.skip(i as int).skip(1) =~= all.skip(i + 1));
        i += 1;
    }
    None
}

/// The drivers of the sensors inside a CPU.
pub const CPU_CHIPS: [&'static str; 4] = ["k10temp", "zenpower", "coretemp", "cpu_thermal"];

/// Whether a driver is one of them.
pub open spec fn is_cpu_driver(name: Seq<char>) -> bool {
    name == "k10temp"@ || name == "zenpower"@ || name == "coretemp"@ || name == "cpu_thermal"@
}

pub fn cpu_driver(name: &str) -> (r: bool)
    ensures
        r == is_cpu_driver(name@),
        r == exists|i: int| 0 <= i < CPU_CHIPS@.len() && name@ == (#[trigger] CPU_CHIPS@[i])@,
{
    let chips = CPU_CHIPS;
    let n: usize = chips.len();
    let mut i: usize = 0;
    while i < n
        invariant
            i <= n,
            n == CPU_CHIPS@.len(),
            chips == CPU_CHIPS,
            forall|j: int| 0 <= j < i ==> name@ != (#[trigger] CPU_CHIPS@[j])@,
        decreases n - i,
    {
        if same(name, chips[i]) {
            assert(name@ == CPU_CHIPS@[i as int]@);
            return true;
        }
        i += 1;
    }
    false
}

/// The first chip of a CPU.
pub open spec fn first_cpu_chip(chips: Seq<ChipView>) -> Option<ChipView>
    decreases chips.len(),
{
    if chips.len() == 0 {
        None
    } else if is_cpu_driver(chips[0].name) {
        Some(chips[0])
    } else {
        first_cpu_chip(chips.skip(1))
    }
}

pub fn find_cpu_chip(chips: &Vec<HwmonChip>) -> (r: Option<HwmonChip>)
    ensures
        r.deep_view() == first_cpu_chip(chips.deep_view()),
{
    let n: usize = chips.len();
    let ghost all = chips.deep_view();
    let mut i: usize = 0;
    assert(all.skip(0) =~= all);
    while i < n
        invariant
            i <= n,
            n == chips@.len(),
            all == chips.deep_view(),
            first_cpu_chip(all.skip(i as int)) == first_cpu_chip(all),
        decreases n - i,
    {
        assert(all.skip(i as int)[0] == chips@[i as int].deep_view());
        if cpu_driver(chips[i].name.as_str()) {
            return Some(chips[i].clone());
        }
        assert(all.skip(i as int).skip(1) =~= all.skip(i + 1));
        i += 1;
    }
    None
}

// ---------------------------------------------------------------------------
// every sensor is listed

/// A sensor's files are named after it.
pub proof fn law_sensor_of(s: Seq<char>)
    ensures
        is_sensor_file(s + "_input"@),
        is_sensor_file(s + "_average"@),
        is_sensor_file(s) ==> "_input"@.is_suffix_of(s) || "_average"@.is_suffix_of(s),
        !is_sensor_file(s) ==> sensor_of(s) == s && sensor_of(s + "_input"@) == s && sensor_of(
            s + "_average"@,
        ) == s,
{
    reveal_strlit("_input");
    reveal_strlit("_average");
    let (i, a) = (s + "_input"@, s + "_average"@);
    assert(i.subrange(i.len() - 6, i.len() as int) =~= "_input"@);
    assert(a.subrange(a.len() - 8, a.len() as int) =~= "_average"@);
    assert(!"_input"@.is_suffix_of(a)) by {
        assert(a.subrange(a.len() - 6, a.len() as int)[5] == 'e');
        assert("_input"@[5] == 't');
    }
    law_suffixes_cut(s, "_input"@);
    law_suffixes_cut(a, "_input"@);
    law_suffixes_cut(s, "_average"@);
}

/// A sensor is of the kind that its name starts with, and of none where it starts
/// with none of the five.
pub proof fn law_kinds(rest: Seq<char>, sensor: Seq<char>)
    ensures
        kind_of("temp"@ + rest) == Some(SensorKind::Temp),
        kind_of("fan"@ + rest) == Some(SensorKind::Fan),
        kind_of("in"@ + rest) == Some(SensorKind::Volt),
        kind_of("freq"@ + rest) == Some(SensorKind::Freq),
        kind_of("power"@ + rest) == Some(SensorKind::Power),
        kind_of(sensor) is Some ==> "temp"@.is_prefix_of(sensor) || "fan"@.is_prefix_of(sensor)
            || "in"@.is_prefix_of(sensor) || "freq"@.is_prefix_of(sensor) || "power"@.is_prefix_of(
            sensor,
        ),
{
    lemma_kind("temp"@ + rest);
    lemma_kind("fan"@ + rest);
    lemma_kind("in"@ + rest);
    lemma_kind("freq"@ + rest);
    lemma_kind("power"@ + rest);
    assert(("temp"@ + rest).subrange(0, "temp"@.len() as int) =~= "temp"@);
    assert(("fan"@ + rest).subrange(0, "fan"@.len() as int) =~= "fan"@);
    assert(("in"@ + rest).subrange(0, "in"@.len() as int) =~= "in"@);
    assert(("freq"@ + rest).subrange(0, "freq"@.len() as int) =~= "freq"@);
    assert(("power"@ + rest).subrange(0, "power"@.len() as int) =~= "power"@);
}

/// No two of the five starts go together.
proof fn lemma_kind(s: Seq<char>)
    ensures
        "temp"@.is_prefix_of(s) ==> kind_of(s) == Some(SensorKind::Temp),
        "fan"@.is_prefix_of(s) ==> kind_of(s) == Some(SensorKind::Fan),
        "in"@.is_prefix_of(s) ==> kind_of(s) == Some(SensorKind::Volt),
        "freq"@.is_prefix_of(s) ==> kind_of(s) == Some(SensorKind::Freq),
        "power"@.is_prefix_of(s) ==> kind_of(s) == Some(SensorKind::Power),
{
    reveal_strlit("temp");
    reveal_strlit("fan");
    reveal_strlit("in");
    reveal_strlit("freq");
    reveal_strlit("power");
    lemma_starts("temp"@, s);
    lemma_starts("fan"@, s);
    lemma_starts("in"@, s);
    lemma_starts("freq"@, s);
    lemma_starts("power"@, s);
    assert("temp"@[0] == 't');
    assert("fan"@[0] == 'f' && "fan"@[1] == 'a');
    assert("in"@[0] == 'i');
    assert("freq"@[0] == 'f' && "freq"@[1] == 'r');
    assert("power"@[0] == 'p');
}

proof fn lemma_starts(p: Seq<char>, s: Seq<char>)
    requires
        p.len() >= 2,
    ensures
        p.is_prefix_of(s) ==> s.len() >= 2 && s[0] == p[0] && s[1] == p[1],
{
    if p.is_prefix_of(s) {
        assert(s.subrange(0, p.len() as int)[0] == s[0]);
        assert(s.subrange(0, p.len() as int)[1] == s[1]);
    }
}

/// A start without an underscore is that of the file exactly where it is that of the
/// sensor.
proof fn lemma_start_of_sensor(p: Seq<char>, file: Seq<char>)
    requires
        forall|i: int| 0 <= i < p.len() ==> #[trigger] p[i] != '_',
    ensures
        p.is_prefix_of(file) <==> p.is_prefix_of(sensor_of(file)),
{
    lemma_sensor_prefix(file);
    let s = sensor_of(file);
    let n = s.len() as int;
    let k = p.len() as int;
    if k <= n {
        assert(s.subrange(0, k) =~= file.subrange(0, k));
    } else if p.is_prefix_of(file) {
        assert(file.subrange(0, k)[n] == file[n]);
        assert(p[n] != '_');
    }
}

proof fn lemma_sensor_prefix(file: Seq<char>)
    ensures
        sensor_of(file).len() <= file.len(),
        sensor_of(file) == file.take(sensor_of(file).len() as int),
        sensor_of(file).len() < file.len() ==> file[sensor_of(file).len() as int] == '_',
{
    reveal_strlit("_input");
    reveal_strlit("_average");
    let t = strip_suffixes(file, "_input"@);
    let s = sensor_of(file);
    lemma_strip_suffixes(file, "_input"@);
    lemma_strip_suffixes(t, "_average"@);
    let n = s.len() as int;
    assert(s =~= t.subrange(0, n));
    assert(t =~= file.subrange(0, t.len() as int));
    assert(s =~= file.take(n));
    if n < t.len() {
        assert(t[n] == file[n]);
    }
}

/// Whether a file is the input of a sensor whose name starts so, and holds a number.
pub open spec fn input_of(f: SensorFile, start: Seq<char>) -> bool {
    start.is_prefix_of(f.file@) && "_input"@.is_suffix_of(f.file@) && f.reading is Some
}

/// What a sensor is called: the text of its label without white space around it, or
/// its own name where it has no label.
pub open spec fn called(f: SensorFile) -> Seq<char> {
    match f.label {
        Some(l) => trimmed(l@, CharClass::Space),
        None => sensor_of(f.file@),
    }
}

proof fn lemma_input_kind(f: SensorFile)
    ensures
        input_of(f, "temp"@) <==> f.counts() && kind_of(sensor_of(f.file@)) == Some(SensorKind::Temp),
        input_of(f, "fan"@) <==> f.counts() && kind_of(sensor_of(f.file@)) == Some(SensorKind::Fan),
        input_of(f, "in"@) <==> f.counts() && kind_of(sensor_of(f.file@)) == Some(SensorKind::Volt),
        input_of(f, "freq"@) <==> f.counts() && kind_of(sensor_of(f.file@)) == Some(SensorKind::Freq),
{
    reveal_strlit("temp");
    reveal_strlit("fan");
    reveal_strlit("in");
    reveal_strlit("freq");
    reveal_strlit("power");
    reveal_strlit("_input");
    reveal_strlit("_average");
    let sensor = sensor_of(f.file@);
    lemma_start_of_sensor("temp"@, f.file@);
    lemma_start_of_sensor("fan"@, f.file@);
    lemma_start_of_sensor("in"@, f.file@);
    lemma_start_of_sensor("freq"@, f.file@);
    lemma_kind(sensor);
    assert(!("_input"@.is_suffix_of(f.file@) && is_average(f.file@))) by {
        let s = f.file@;
        if "_input"@.is_suffix_of(s) && is_average(s) {
            assert(s.subrange(s.len() - 6, s.len() as int)[5] == s.last());
            assert(s.subrange(s.len() - 8, s.len() as int)[7] == s.last());
            assert("_input"@[5] == 't' && "_average"@[7] == 'e');
        }
    }
    lemma_starts("temp"@, sensor);
    lemma_starts("fan"@, sensor);
    lemma_starts("in"@, sensor);
    lemma_starts("freq"@, sensor);
    lemma_starts("power"@, sensor);
    assert("temp"@[0] == 't' && "fan"@[0] == 'f' && "in"@[0] == 'i' && "freq"@[0] == 'f'
        && "power"@[0] == 'p');
}

/// The readings of some of the files, one for each.
pub open spec fn readings_of(
    files: Seq<SensorFile>,
    start: Seq<char>,
    value: spec_fn(Measured) -> u64,
) -> Readings {
    files.filter(|f: SensorFile| input_of(f, start)).map_values(
        |f: SensorFile| (called(f), value(f.reading->0)),
    )
}

proof fn lemma_readings_push(
    files: Seq<SensorFile>,
    f: SensorFile,
    start: Seq<char>,
    value: spec_fn(Measured) -> u64,
)
    ensures
        readings_of(files.push(f), start, value) == (if input_of(f, start) {
            readings_of(files, start, value).push((called(f), value(f.reading->0)))
        } else {
            readings_of(files, start, value)
        }),
        readings_of(Seq::empty(), start, value) == Seq::<(Seq<char>, u64)>::empty(),
{
    reveal(Seq::filter);
    assert(files.push(f).drop_last() =~= files);
    assert(readings_of(Seq::empty(), start, value) =~= Seq::<(Seq<char>, u64)>::empty());
    assert(readings_of(files.push(f), start, value) =~= (if input_of(f, start) {
        readings_of(files, start, value).push((called(f), value(f.reading->0)))
    } else {
        readings_of(files, start, value)
    }));
}

proof fn lemma_scanned_readings(chip: ChipView, files: Seq<SensorFile>)
    requires
        chip.temps.len() == 0,
        chip.fans.len() == 0,
        chip.volts.len() == 0,
        chip.freqs.len() == 0,
        forall|i: int| 0 <= i < files.len() ==> is_sensor_file((#[trigger] files[i]).file@),
    ensures
        scanned(chip, files).temps == readings_of(files, "temp"@, |m: Measured| m.bits),
        scanned(chip, files).fans == readings_of(files, "fan"@, |m: Measured| m.whole),
        scanned(chip, files).volts == readings_of(files, "in"@, |m: Measured| m.bits),
        scanned(chip, files).freqs == readings_of(files, "freq"@, |m: Measured| m.bits),
    decreases files.len(),
{
    let bits = |m: Measured| m.bits;
    let whole = |m: Measured| m.whole;
    let none = Seq::<SensorFile>::empty();
    if files.len() == 0 {
        let f = arbitrary::<SensorFile>();
        assert(files =~= none);
        lemma_readings_push(none, f, "temp"@, bits);
        lemma_readings_push(none, f, "fan"@, whole);
        lemma_readings_push(none, f, "in"@, bits);
        lemma_readings_push(none, f, "freq"@, bits);
        assert(chip.temps =~= Seq::empty());
        assert(chip.fans =~= Seq::empty());
        assert(chip.volts =~= Seq::empty());
        assert(chip.freqs =~= Seq::empty());
    } else {
        let front = files.drop_last();
        let f = files.last();
        assert forall|i: int| 0 <= i < front.len() implies is_sensor_file(
            (#[trigger] front[i]).file@,
        ) by {
            assert(front[i] == files[i]);
        }
        lemma_scanned_readings(chip, front);
        assert(files =~= front.push(f));
        lemma_readings_push(front, f, "temp"@, bits);
        lemma_readings_push(front, f, "fan"@, whole);
        lemma_readings_push(front, f, "in"@, bits);
        lemma_readings_push(front, f, "freq"@, bits);
        lemma_input_kind(f);
        lemma_kind(sensor_of(f.file@));
        assert("power"@.is_prefix_of(sensor_of(f.file@)) ==> kind_of(sensor_of(f.file@)) == Some(
            SensorKind::Power,
        ));
        assert(is_sensor_file(files[files.len() - 1].file@));
    }
}

proof fn lemma_arranged_files(files: Seq<SensorFile>)
    ensures
        forall|i: int|
            0 <= i < arranged(files, SensorFiles, Order::File).len() ==> is_sensor_file(
                (#[trigger] arranged(files, SensorFiles, Order::File)[i]).file@,
            ),
{
    broadcast use vstd::seq_lib::group_to_multiset_ensures;

    let order = arranged(files, SensorFiles, Order::File);
    law_arranged(files, SensorFiles, Order::File);
    assert forall|i: int| 0 <= i < order.len() implies is_sensor_file(
        (#[trigger] order[i]).file@,
    ) by {
        assert(order.contains(order[i]));
        assert(order.to_multiset().count(order[i]) > 0);
    }
}

/// Each input of a temperature, fan, voltage or frequency sensor that holds a number
/// gives one reading, and nothing else gives one: the label or the sensor's name, and
/// the number. The readings stand in the order of the files.
pub proof fn law_every_sensor_listed(id: Seq<char>, name: Seq<char>, files: Seq<SensorFile>)
    ensures
        ({
            let chip = dir_chip(id, name, files);
            let order = arranged(files, SensorFiles, Order::File);
            &&& chip.temps == readings_of(order, "temp"@, |m: Measured| m.bits)
            &&& chip.fans == readings_of(order, "fan"@, |m: Measured| m.whole)
            &&& chip.volts == readings_of(order, "in"@, |m: Measured| m.bits)
            &&& chip.freqs == readings_of(order, "freq"@, |m: Measured| m.bits)
        }),
{
    lemma_arranged_files(files);
    lemma_scanned_readings(
        ChipView::bare(id, trimmed(name, CharClass::Space)),
        arranged(files, SensorFiles, Order::File),
    );
}

/// A chip has as many temperatures, fans, voltages and frequencies as its directory
/// has inputs of them that hold a number.
pub proof fn law_sensors_counted(id: Seq<char>, name: Seq<char>, files: Seq<SensorFile>)
    ensures
        ({
            let chip = dir_chip(id, name, files);
            &&& chip.temps.len() == files.filter(|f: SensorFile| input_of(f, "temp"@)).len()
            &&& chip.fans.len() == files.filter(|f: SensorFile| input_of(f, "fan"@)).len()
            &&& chip.volts.len() == files.filter(|f: SensorFile| input_of(f, "in"@)).len()
            &&& chip.freqs.len() == files.filter(|f: SensorFile| input_of(f, "freq"@)).len()
        }),
{
    law_every_sensor_listed(id, name, files);
    lemma_inputs_counted(files, "temp"@);
    lemma_inputs_counted(files, "fan"@);
    lemma_inputs_counted(files, "in"@);
    lemma_inputs_counted(files, "freq"@);
}

proof fn lemma_inputs_counted(files: Seq<SensorFile>, start: Seq<char>)
    ensures
        arranged(files, SensorFiles, Order::File).filter(
            |f: SensorFile| input_of(f, start),
        ).len() == files.filter(|f: SensorFile| input_of(f, start)).len(),
{
    broadcast use vstd::seq_lib::group_to_multiset_ensures;

    let keep = |f: SensorFile| input_of(f, start);
    let kept = files.filter(keep);
    let order = arranged(kept, SensorFiles, Order::File);
    law_arranged_filter(files, SensorFiles, Order::File, keep);
    law_arranged(kept, SensorFiles, Order::File);
    assert forall|f: SensorFile| order.to_multiset().count(f) == kept.to_multiset().count(f) by {
        lemma_filter_count(files, keep, f);
    }
    assert(order.to_multiset() =~= kept.to_multiset());
    assert(order.len() == order.to_multiset().len());
    assert(kept.len() == kept.to_multiset().len());
}

/// Each input that holds a number is found on the chip under its label or its name,
/// with its number.
pub proof fn law_each_input_shown(id: Seq<char>, name: Seq<char>, files: Seq<SensorFile>, i: int)
    requires
        0 <= i < files.len(),
    ensures
        ({
            let chip = dir_chip(id, name, files);
            let f = files[i];
            &&& input_of(f, "temp"@) ==> chip.temps.contains((called(f), f.reading->0.bits))
            &&& input_of(f, "fan"@) ==> chip.fans.contains((called(f), f.reading->0.whole))
            &&& input_of(f, "in"@) ==> chip.volts.contains((called(f), f.reading->0.bits))
            &&& input_of(f, "freq"@) ==> chip.freqs.contains((called(f), f.reading->0.bits))
        }),
{
    law_every_sensor_listed(id, name, files);
    lemma_reading_found(files, i, "temp"@, |m: Measured| m.bits);
    lemma_reading_found(files, i, "fan"@, |m: Measured| m.whole);
    lemma_reading_found(files, i, "in"@, |m: Measured| m.bits);
    lemma_reading_found(files, i, "freq"@, |m: Measured| m.bits);
}

proof fn lemma_reading_found(
    files: Seq<SensorFile>,
    i: int,
    start: Seq<char>,
    value: spec_fn(Measured) -> u64,
)
    requires
        0 <= i < files.len(),
    ensures
        input_of(files[i], start) ==> readings_of(
            arranged(files, SensorFiles, Order::File),
            start,
            value,
        ).contains((called(files[i]), value(files[i].reading->0))),
{
    broadcast use vstd::seq_lib::group_to_multiset_ensures;

    let f = files[i];
    let keep = |f: SensorFile| input_of(f, start);
    let order = arranged(files, SensorFiles, Order::File);
    if input_of(f, start) {
        law_arranged(files, SensorFiles, Order::File);
        assert(files.contains(f));
        assert(files.to_multiset().count(f) > 0);
        assert(order.to_multiset().count(f) > 0);
        assert(order.contains(f));
        let j = order.index_of(f);
        order.lemma_filter_contains(keep, j);
        let k = order.filter(keep).index_of(f);
        assert(readings_of(order, start, value)[k] == (called(f), value(f.reading->0)));
    }
}

/// Each power sensor with a number has a reading under its own name, and each reading
/// of a power comes from a file of the sensor it is named after.
pub proof fn law_powers_listed(id: Seq<char>, name: Seq<char>, files: Seq<SensorFile>)
    ensures
        ({
            let powers = dir_chip(id, name, files).powers;
            &&& forall|i: int|
                0 <= i < files.len() && "power"@.is_prefix_of((#[trigger] files[i]).file@) && (
                "_input"@.is_suffix_of(files[i].file@) || "_average"@.is_suffix_of(files[i].file@))
                    && files[i].reading is Some ==> has_label(powers, sensor_of(files[i].file@))
            &&& forall|j: int|
                0 <= j < powers.len() ==> exists|i: int|
                    0 <= i < files.len() && power_from(#[trigger] files[i], #[trigger] powers[j])
        }),
{
    broadcast use vstd::seq_lib::group_to_multiset_ensures;

    let order = arranged(files, SensorFiles, Order::File);
    let chip = ChipView::bare(id, trimmed(name, CharClass::Space));
    let powers = dir_chip(id, name, files).powers;
    law_arranged(files, SensorFiles, Order::File);
    lemma_arranged_files(files);
    lemma_scanned_powers(chip, order);
    reveal_strlit("power");
    assert forall|i: int|
        0 <= i < files.len() && "power"@.is_prefix_of((#[trigger] files[i]).file@) && (
        "_input"@.is_suffix_of(files[i].file@) || "_average"@.is_suffix_of(files[i].file@))
            && files[i].reading is Some implies has_label(powers, sensor_of(files[i].file@)) by {
        let f = files[i];
        assert(files.contains(f));
        assert(files.to_multiset().count(f) > 0);
        assert(order.to_multiset().count(f) > 0);
        assert(order.contains(f));
        let k = order.index_of(f);
        assert(order[k] == f);
        lemma_start_of_sensor("power"@, f.file@);
    }
    assert forall|j: int| 0 <= j < powers.len() implies exists|i: int|
        0 <= i < files.len() && power_from(#[trigger] files[i], #[trigger] powers[j]) by {
        let k = choose|k: int|
            0 <= k < order.len() && power_from(#[trigger] order[k], powers[j]);
        assert(order.contains(order[k]));
        assert(order.to_multiset().count(order[k]) > 0);
        assert(files.to_multiset().count(order[k]) > 0);
        let i = files.index_of(order[k]);
        assert(power_from(files[i], powers[j]));
    }
}

/// Whether a reading is that of a file.
pub open spec fn power_from(f: SensorFile, reading: (Seq<char>, u64)) -> bool {
    f.reading is Some && reading.0 == sensor_of(f.file@) && reading.1 == f.reading->0.bits
}

proof fn lemma_scanned_powers(chip: ChipView, files: Seq<SensorFile>)
    requires
        chip.powers.len() == 0,
        forall|i: int| 0 <= i < files.len() ==> is_sensor_file((#[trigger] files[i]).file@),
    ensures
        forall|i: int|
            0 <= i < files.len() && "power"@.is_prefix_of(sensor_of((#[trigger] files[i]).file@))
                && files[i].reading is Some ==> has_label(
                scanned(chip, files).powers,
                sensor_of(files[i].file@),
            ),
        forall|j: int|
            0 <= j < scanned(chip, files).powers.len() ==> exists|k: int|
                0 <= k < files.len() && power_from(
                    #[trigger] files[k],
                    #[trigger] scanned(chip, files).powers[j],
                ),
    decreases files.len(),
{
    if files.len() > 0 {
        let front = files.drop_last();
        let f = files.last();
        let n = files.len() - 1;
        assert(files[n] == f);
        assert forall|i: int| 0 <= i < front.len() implies is_sensor_file(
            (#[trigger] front[i]).file@,
        ) by {
            assert(front[i] == files[i]);
        }
        lemma_scanned_powers(chip, front);
        let was = scanned(chip, front).powers;
        let now = scanned(chip, files).powers;
        lemma_kind(sensor_of(f.file@));
        assert forall|j: int| 0 <= j < was.len() implies #[trigger] now[j] == was[j] by {}
        assert forall|i: int|
            0 <= i < files.len() && "power"@.is_prefix_of(sensor_of((#[trigger] files[i]).file@))
                && files[i].reading is Some implies has_label(now, sensor_of(files[i].file@)) by {
            let s = sensor_of(files[i].file@);
            if i < n {
                assert(front[i] == files[i]);
                assert(has_label(was, s));
                let j = choose|j: int| 0 <= j < was.len() && (#[trigger] was[j]).0 == s;
                assert(now[j].0 == s);
            } else if has_label(was, s) {
                let j = choose|j: int| 0 <= j < was.len() && (#[trigger] was[j]).0 == s;
                assert(now[j].0 == s);
            } else {
                assert(now[was.len() as int].0 == s);
            }
        }
        assert forall|j: int| 0 <= j < now.len() implies exists|k: int|
            0 <= k < files.len() && power_from(#[trigger] files[k], #[trigger] now[j]) by {
            if j < was.len() {
                assert(now[j] == was[j]);
                let k = choose|k: int|
                    0 <= k < front.len() && power_from(#[trigger] front[k], was[j]);
                assert(files[k] == front[k]);
                assert(power_from(files[k], now[j]));
            } else {
                assert(power_from(files[n], now[j]));
            }
        }
    }
}

/// Each directory with a reading of any kind shows its chip, and a directory without
/// one shows none; the chips stand in the order of the directories.
pub proof fn law_chips_shown(a: Seq<HwmonDir>, b: Seq<HwmonDir>, d: HwmonDir)
    ensures
        shown_chips(a + b) == shown_chips(a) + shown_chips(b),
        ({
            let chip = dir_chip(d.id@, d.name@, d.files@);
            shown_chips(seq![d]) == (if chip.temps.len() + chip.fans.len() + chip.volts.len()
                + chip.freqs.len() + chip.powers.len() > 0 {
                seq![chip]
            } else {
                Seq::empty()
            })
        }),
    decreases b.len(),
{
    let chip = dir_chip(d.id@, d.name@, d.files@);
    assert(shown_chips(Seq::<HwmonDir>::empty()) =~= Seq::<ChipView>::empty());
    assert(seq![d].drop_last() =~= Seq::<HwmonDir>::empty());
    assert(seq![d].last() == d);
    assert(Seq::<ChipView>::empty().push(chip) =~= seq![chip]);
    if b.len() == 0 {
        assert(a + b =~= a);
        assert(shown_chips(a) + shown_chips(b) =~= shown_chips(a));
    } else {
        law_chips_shown(a, b.drop_last(), d);
        assert((a + b).drop_last() =~= a + b.drop_last());
        assert((a + b).last() == b.last());
        assert(shown_chips(a + b) =~= shown_chips(a) + shown_chips(b));
    }
}

/// A chip is found by its directory's name, and the CPU's by its driver, behind
/// others that are not it; where there is none, none is found.
pub proof fn law_chip_found(
    before: Seq<ChipView>,
    chip: ChipView,
    after: Seq<ChipView>,
    id: Seq<char>,
)
    ensures
        (forall|i: int| 0 <= i < before.len() ==> (#[trigger] before[i]).id != id) ==> {
            &&& chip_by_id(before, id) is None
            &&& chip.id == id ==> chip_by_id(before + seq![chip] + after, id) == Some(chip)
        },
        (forall|i: int| 0 <= i < before.len() ==> !is_cpu_driver((#[trigger] before[i]).name)) ==> {
            &&& first_cpu_chip(before) is None
            &&& is_cpu_driver(chip.name) ==> first_cpu_chip(before + seq![chip] + after) == Some(
                chip,
            )
        },
    decreases before.len(),
{
    let list = before + seq![chip] + after;
    if before.len() > 0 {
        let rest = before.skip(1);
        assert(list[0] == before[0]);
        assert(list.skip(1) =~= rest + seq![chip] + after);
        assert forall|i: int| 0 <= i < rest.len() implies #[trigger] rest[i] == before[i + 1] by {}
        law_chip_found(rest, chip, after, id);
        if forall|i: int| 0 <= i < before.len() ==> (#[trigger] before[i]).id != id {
            assert forall|i: int| 0 <= i < rest.len() implies (#[trigger] rest[i]).id != id by {
                assert(rest[i] == before[i + 1]);
            }
        }
        if forall|i: int| 0 <= i < before.len() ==> !is_cpu_driver((#[trigger] before[i]).name) {
            assert forall|i: int| 0 <= i < rest.len() implies !is_cpu_driver(
                (#[trigger] rest[i]).name,
            ) by {
                assert(rest[i] == before[i + 1]);
            }
        }
    } else {
        assert(list[0] == chip);
    }
}

/// Every directory with a reading has its chip among all chips.
pub proof fn law_every_directory_shown(dirs: Seq<HwmonDir>, i: int)
    requires
        0 <= i < dirs.len(),
    ensures
        ({
            let chip = dir_chip(dirs[i].id@, dirs[i].name@, dirs[i].files@);
            chip.temps.len() + chip.fans.len() + chip.volts.len() + chip.freqs.len()
                + chip.powers.len() > 0 ==> all_chips(dirs).contains(chip)
        }),
{
    let order = arranged(dirs, AnyName, Order::Sensor);
    assert(dirs.contains(dirs[i]));
    law_arranged_contains(dirs, AnyName, Order::Sensor, dirs[i]);
    let k = order.index_of(dirs[i]);
    let (a, b) = (order.take(k), order.skip(k + 1));
    assert(order =~= a + seq![dirs[i]] + b);
    law_chips_shown(a + seq![dirs[i]], b, dirs[i]);
    law_chips_shown(a, seq![dirs[i]], dirs[i]);
    let chip = dir_chip(dirs[i].id@, dirs[i].name@, dirs[i].files@);
    if chip.temps.len() + chip.fans.len() + chip.volts.len() + chip.freqs.len() + chip.powers.len()
        > 0 {
        assert(all_chips(dirs)[shown_chips(a).len() as int] == chip);
    }
}

/// The chips stand in the order of their directories' numbers.
pub proof fn law_chips_in_order(dirs: Seq<HwmonDir>, order: Seq<HwmonDir>)
    requires
        forall|i: int, j: int|
            0 <= i < j < order.len() ==> before(
                (#[trigger] order[i]).id@,
                (#[trigger] order[j]).id@,
                Order::Sensor,
            ),
        order.to_multiset() == dirs.to_multiset(),
    ensures
        all_chips(dirs) == shown_chips(order),
{
    let by = Order::Sensor;
    let list = arranged(dirs, AnyName, by);
    law_arranged(dirs, AnyName, by);
    assert forall|d: HwmonDir| order.to_multiset().count(d) == list.to_multiset().count(d) by {
        assert(list.to_multiset().count(d) == dirs.to_multiset().count(d));
    }
    assert(order.to_multiset() =~= list.to_multiset());
    assert forall|i: int, j: int| 0 <= i < j < order.len() implies !before(
        (#[trigger] order[j]).label(),
        (#[trigger] order[i]).label(),
        by,
    ) by {
        assert(before(order[i].id@, order[j].id@, by));
        lemma_before(order[i].id@, order[j].id@, by);
    }
    assert forall|i: int, j: int|
        0 <= i < order.len() && 0 <= j < order.len() && key((#[trigger] order[i]).label(), by)
            == key((#[trigger] order[j]).label(), by) implies order[i] == order[j] by {
        if i < j {
            assert(before(order[i].id@, order[j].id@, by));
            lemma_before(order[i].id@, order[j].id@, by);
        } else if j < i {
            assert(before(order[j].id@, order[i].id@, by));
            lemma_before(order[j].id@, order[i].id@, by);
        }
    }
    lemma_order_unique(order, list, by);
}

/// The drivers of CPUs are those on the list, and no others.
pub proof fn law_cpu_drivers(name: Seq<char>)
    ensures
        is_cpu_driver(name) <==> exists|i: int|
            0 <= i < CPU_CHIPS@.len() && name == (#[trigger] CPU_CHIPS@[i])@,
        CPU_CHIPS@.len() == 4,
{
    assert(CPU_CHIPS@[0]@ == "k10temp"@);
    assert(CPU_CHIPS@[1]@ == "zenpower"@);
    assert(CPU_CHIPS@[2]@ == "coretemp"@);
    assert(CPU_CHIPS@[3]@ == "cpu_thermal"@);
}

} // verus!
