//! Readings of sensors as they are shown.

use vstd::prelude::*;

use crate::hwmon::{ChipView, HwmonChip, Readings, SensorKind};
use crate::layout::{left, pad_right};
use crate::number::{decimal, show};
use crate::page::{law_shows, num, shows, text, Glyph, Page, Value};
use crate::text::starts_with;

verus! {

/// A reading with its unit.
pub open spec fn reading(kind: SensorKind, value: u64) -> Seq<Glyph> {
    match kind {
        SensorKind::Temp => num(Value::Scaled { bits: value, divisor: 1000 }, 1, 0) + text("°C"@),
        SensorKind::Fan => text(decimal(value as nat)) + text(" RPM"@),
        SensorKind::Volt => num(Value::Scaled { bits: value, divisor: 1000 }, 3, 0) + text(" V"@),
        SensorKind::Freq => num(Value::Scaled { bits: value, divisor: 1000000 }, 0, 0) + text(
            " MHz"@,
        ),
        SensorKind::Power => num(Value::Scaled { bits: value, divisor: 1000000 }, 1, 0) + text(
            " W"@,
        ),
    }
}

pub fn put_reading(page: &mut Page, kind: SensorKind, value: u64)
    ensures
        final(page)@ == old(page)@ + reading(kind, value),
{
    match kind {
        SensorKind::Temp => {
            page.put_number(Value::Scaled { bits: value, divisor: 1000 }, 1, 0);
            page.put("°C");
        },
        SensorKind::Fan => {
            page.put(show(value).as_str());
            page.put(" RPM");
        },
        SensorKind::Volt => {
            page.put_number(Value::Scaled { bits: value, divisor: 1000 }, 3, 0);
            page.put(" V");
        },
        SensorKind::Freq => {
            page.put_number(Value::Scaled { bits: value, divisor: 1000000 }, 0, 0);
            page.put(" MHz");
        },
        SensorKind::Power => {
            page.put_number(Value::Scaled { bits: value, divisor: 1000000 }, 1, 0);
            page.put(" W");
        },
    }
    assert(page@ =~= old(page)@ + reading(kind, value));
}

/// A line for each reading: its label in a column of the given width, and the
/// reading.
pub open spec fn reading_lines(
    list: Readings,
    kind: SensorKind,
    indent: Seq<char>,
    width: nat,
) -> Seq<Glyph>
    decreases list.len(),
{
    if list.len() == 0 {
        Seq::empty()
    } else {
        let (label, value) = list.last();
        reading_lines(list.drop_last(), kind, indent, width) + (text(indent) + text(
            left(label, width),
        ) + text(" "@) + reading(kind, value) + text("\n"@))
    }
}

pub fn put_reading_lines(
    page: &mut Page,
    list: &Vec<(String, u64)>,
    kind: SensorKind,
    indent: &str,
    width: usize,
)
    ensures
        final(page)@ == old(page)@ + reading_lines(
            list.deep_view(),
            kind,
            indent@,
            width as nat,
        ),
{
    let n: usize = list.len();
    let ghost all = list.deep_view();
    let ghost first = page@;
    let mut i: usize = 0;
    assert(all.take(0) =~= Seq::<(Seq<char>, u64)>::empty());
    assert(page@ =~= first + reading_lines(all.take(0), kind, indent@, width as nat));
    while i < n
        invariant
            i <= n,
            n == list@.len(),
            all == list.deep_view(),
            page@ == first + reading_lines(all.take(i as int), kind, indent@, width as nat),
        decreases n - i,
    {
        let ghost before = page@;
        let ghost done = reading_lines(all.take(i as int), kind, indent@, width as nat);
        let label = pad_right(list[i].0.as_str(), width);
        page.put(indent);
        page.put(label.as_str());
        page.put(" ");
        put_reading(page, kind, list[i].1);
        page.put("\n");
        proof {
            let line = text(indent@) + text(label@) + text(" "@) + reading(kind, list@[i as int].1)
                + text("\n"@);
            assert(page@ =~= before + line);
            assert(all.take(i + 1).drop_last() =~= all.take(i as int));
            assert(all.take(i + 1).last() == (list@[i as int].0@, list@[i as int].1));
            assert(page@ =~= first + (done + line));
        }
        i += 1;
    }
    assert(all.take(n as int) =~= all);
}

/// The lines of a chip: temperatures, fans, frequencies, voltages and powers.
pub open spec fn chip_page(chip: ChipView, indent: Seq<char>) -> Seq<Glyph> {
    reading_lines(chip.temps, SensorKind::Temp, indent, 14) + reading_lines(
        chip.fans,
        SensorKind::Fan,
        indent,
        14,
    ) + reading_lines(chip.freqs, SensorKind::Freq, indent, 14) + reading_lines(
        chip.volts,
        SensorKind::Volt,
        indent,
        14,
    ) + reading_lines(chip.powers, SensorKind::Power, indent, 14)
}

pub fn chip_lines(chip: &HwmonChip, indent: &str) -> (r: Page)
    ensures
        r@ == chip_page(chip.deep_view(), indent@),
{
    let mut page = Page::new();
    put_reading_lines(&mut page, &chip.temps, SensorKind::Temp, indent, 14);
    put_reading_lines(&mut page, &chip.fans, SensorKind::Fan, indent, 14);
    put_reading_lines(&mut page, &chip.freqs, SensorKind::Freq, indent, 14);
    put_reading_lines(&mut page, &chip.volts, SensorKind::Volt, indent, 14);
    put_reading_lines(&mut page, &chip.powers, SensorKind::Power, indent, 14);
    assert(page@ =~= chip_page(chip.deep_view(), indent@));
    page
}

/// Temperatures on one line, each behind its label.
pub open spec fn inline_temps(list: Readings) -> Seq<Glyph>
    decreases list.len(),
{
    if list.len() == 0 {
        Seq::empty()
    } else {
        let (label, value) = list.last();
        inline_temps(list.drop_last()) + (if list.len() > 1 {
            text("  "@)
        } else {
            Seq::empty()
        }) + text(label) + text(": "@) + reading(SensorKind::Temp, value)
    }
}

pub fn temps_inline(list: &Vec<(String, u64)>) -> (r: Page)
    ensures
        r@ == inline_temps(list.deep_view()),
{
    let mut page = Page::new();
    let n: usize = list.len();
    let ghost all = list.deep_view();
    let mut i: usize = 0;
    assert(all.take(0) =~= Seq::<(Seq<char>, u64)>::empty());
    while i < n
        invariant
            i <= n,
            n == list@.len(),
            all == list.deep_view(),
            page@ == inline_temps(all.take(i as int)),
        decreases n - i,
    {
        let ghost before = page@;
        if i > 0 {
            page.put("  ");
        }
        page.put(list[i].0.as_str());
        page.put(": ");
        put_reading(&mut page, SensorKind::Temp, list[i].1);
        proof {
            assert(all.take(i + 1).drop_last() =~= all.take(i as int));
            assert(all.take(i + 1).last() == (list@[i as int].0@, list@[i as int].1));
            assert(page@ =~= inline_temps(all.take(i + 1)));
        }
        i += 1;
    }
    assert(all.take(n as int) =~= all);
    page
}

/// The temperatures of single cores.
pub open spec fn core_temps(list: Readings) -> Readings
    decreases list.len(),
{
    if list.len() == 0 {
        Seq::empty()
    } else if "Core "@.is_prefix_of(list.last().0) {
        core_temps(list.drop_last()).push(list.last())
    } else {
        core_temps(list.drop_last())
    }
}

pub fn per_core(list: &Vec<(String, u64)>) -> (r: Vec<(String, u64)>)
    ensures
        r.deep_view() == core_temps(list.deep_view()),
{
    let n: usize = list.len();
    let mut out: Vec<(String, u64)> = Vec::new();
    let ghost all = list.deep_view();
    let mut i: usize = 0;
    assert(all.take(0) =~= Seq::<(Seq<char>, u64)>::empty());
    assert(out.deep_view() =~= Seq::<(Seq<char>, u64)>::empty());
    while i < n
        invariant
            i <= n,
            n == list@.len(),
            all == list.deep_view(),
            out.deep_view() == core_temps(all.take(i as int)),
        decreases n - i,
    {
        proof {
            assert(all.take(i + 1).drop_last() =~= all.take(i as int));
            assert(all.take(i + 1).last() == (list@[i as int].0@, list@[i as int].1));
        }
        if starts_with(list[i].0.as_str(), "Core ") {
            crate::hwmon::push_reading(&mut out, crate::text::owned(list[i].0.as_str()), list[i].1);
        }
        i += 1;
    }
    assert(all.take(n as int) =~= all);
    out
}

// ---------------------------------------------------------------------------
// every reading is shown

/// A reading is shown in the unit of its kind: a temperature in degrees with one
/// decimal, a voltage in volts with three, a frequency in whole megahertz, a power in
/// watts with one, and a fan by its revolutions.
pub proof fn law_reading(value: u64)
    ensures
        reading(SensorKind::Temp, value) == num(
            Value::Scaled { bits: value, divisor: 1000 },
            1,
            0,
        ) + text("°C"@),
        reading(SensorKind::Volt, value) == num(
            Value::Scaled { bits: value, divisor: 1000 },
            3,
            0,
        ) + text(" V"@),
        reading(SensorKind::Freq, value) == num(
            Value::Scaled { bits: value, divisor: 1_000_000 },
            0,
            0,
        ) + text(" MHz"@),
        reading(SensorKind::Power, value) == num(
            Value::Scaled { bits: value, divisor: 1_000_000 },
            1,
            0,
        ) + text(" W"@),
        reading(SensorKind::Fan, value) == text(decimal(value as nat)) + text(" RPM"@),
{
}

/// Each reading has a line of its own: the indent, the label in its column, and the
/// reading. The lines stand in the order of the readings.
pub proof fn law_reading_lines(
    a: Readings,
    b: Readings,
    label: Seq<char>,
    value: u64,
    kind: SensorKind,
    indent: Seq<char>,
    width: nat,
)
    ensures
        reading_lines(a + b, kind, indent, width) == reading_lines(a, kind, indent, width)
            + reading_lines(b, kind, indent, width),
        reading_lines(seq![(label, value)], kind, indent, width) == text(indent) + text(
            left(label, width),
        ) + text(" "@) + reading(kind, value) + text("\n"@),
        reading_lines(Seq::empty(), kind, indent, width) == Seq::<Glyph>::empty(),
    decreases b.len(),
{
    let one = seq![(label, value)];
    assert(reading_lines(Seq::empty(), kind, indent, width) =~= Seq::<Glyph>::empty());
    assert(one.drop_last() =~= Seq::<(Seq<char>, u64)>::empty());
    assert(one.last() == (label, value));
    assert(reading_lines(one, kind, indent, width) =~= text(indent) + text(left(label, width))
        + text(" "@) + reading(kind, value) + text("\n"@));
    if b.len() == 0 {
        assert(a + b =~= a);
        assert(reading_lines(a, kind, indent, width) + reading_lines(b, kind, indent, width)
            =~= reading_lines(a, kind, indent, width));
    } else {
        law_reading_lines(a, b.drop_last(), label, value, kind, indent, width);
        assert((a + b).drop_last() =~= a + b.drop_last());
        assert((a + b).last() == b.last());
        assert(reading_lines(a + b, kind, indent, width) =~= reading_lines(a, kind, indent, width)
            + reading_lines(b, kind, indent, width));
    }
}

/// The lines of a list show each of its readings.
pub proof fn law_reading_shown(
    list: Readings,
    i: int,
    kind: SensorKind,
    indent: Seq<char>,
    width: nat,
)
    requires
        0 <= i < list.len(),
    ensures
        shows(
            reading_lines(list, kind, indent, width),
            text(indent) + text(left(list[i].0, width)) + text(" "@) + reading(kind, list[i].1)
                + text("\n"@),
        ),
{
    let a = list.take(i);
    let b = list.skip(i + 1);
    let one = seq![list[i]];
    assert(list =~= a + one + b);
    law_reading_lines(a + one, b, list[i].0, list[i].1, kind, indent, width);
    law_reading_lines(a, one, list[i].0, list[i].1, kind, indent, width);
    assert(one =~= seq![(list[i].0, list[i].1)]);
}

/// A chip shows all of its readings, each in the unit of its kind: temperatures, fans,
/// frequencies, voltages and powers.
pub proof fn law_chip_shows_all(chip: ChipView, indent: Seq<char>, i: int)
    ensures
        ({
            let page = chip_page(chip, indent);
            let line = |r: (Seq<char>, u64), kind: SensorKind|
                text(indent) + text(left(r.0, 14)) + text(" "@) + reading(kind, r.1) + text("\n"@);
            &&& 0 <= i < chip.temps.len() ==> shows(page, line(chip.temps[i], SensorKind::Temp))
            &&& 0 <= i < chip.fans.len() ==> shows(page, line(chip.fans[i], SensorKind::Fan))
            &&& 0 <= i < chip.freqs.len() ==> shows(page, line(chip.freqs[i], SensorKind::Freq))
            &&& 0 <= i < chip.volts.len() ==> shows(page, line(chip.volts[i], SensorKind::Volt))
            &&& 0 <= i < chip.powers.len() ==> shows(page, line(chip.powers[i], SensorKind::Power))
        }),
{
    let none = Seq::<Glyph>::empty();
    let page = chip_page(chip, indent);
    let line = |r: (Seq<char>, u64), kind: SensorKind|
        text(indent) + text(left(r.0, 14)) + text(" "@) + reading(kind, r.1) + text("\n"@);
    let t = reading_lines(chip.temps, SensorKind::Temp, indent, 14);
    let f = reading_lines(chip.fans, SensorKind::Fan, indent, 14);
    let q = reading_lines(chip.freqs, SensorKind::Freq, indent, 14);
    let v = reading_lines(chip.volts, SensorKind::Volt, indent, 14);
    let p = reading_lines(chip.powers, SensorKind::Power, indent, 14);
    if 0 <= i < chip.temps.len() {
        law_reading_shown(chip.temps, i, SensorKind::Temp, indent, 14);
        assert(page =~= none + t + (f + q + v + p));
        law_shows(none, t, f + q + v + p, line(chip.temps[i], SensorKind::Temp));
    }
    if 0 <= i < chip.fans.len() {
        law_reading_shown(chip.fans, i, SensorKind::Fan, indent, 14);
        assert(page =~= t + f + (q + v + p));
        law_shows(t, f, q + v + p, line(chip.fans[i], SensorKind::Fan));
    }
    if 0 <= i < chip.freqs.len() {
        law_reading_shown(chip.freqs, i, SensorKind::Freq, indent, 14);
        assert(page =~= (t + f) + q + (v + p));
        law_shows(t + f, q, v + p, line(chip.freqs[i], SensorKind::Freq));
    }
    if 0 <= i < chip.volts.len() {
        law_reading_shown(chip.volts, i, SensorKind::Volt, indent, 14);
        assert(page =~= (t + f + q) + v + p);
        law_shows(t + f + q, v, p, line(chip.volts[i], SensorKind::Volt));
    }
    if 0 <= i < chip.powers.len() {
        law_reading_shown(chip.powers, i, SensorKind::Power, indent, 14);
        assert(page =~= (t + f + q + v) + p + none);
        law_shows(t + f + q + v, p, none, line(chip.powers[i], SensorKind::Power));
    }
}

/// Temperatures on one line stand two spaces apart, each behind its label.
pub proof fn law_inline_temps(a: Readings, b: Readings, label: Seq<char>, value: u64)
    ensures
        inline_temps(seq![(label, value)]) == text(label) + text(": "@) + reading(
            SensorKind::Temp,
            value,
        ),
        a.len() > 0 && b.len() > 0 ==> inline_temps(a + b) == inline_temps(a) + text("  "@)
            + inline_temps(b),
    decreases b.len(),
{
    let one = seq![(label, value)];
    assert(inline_temps(Seq::empty()) =~= Seq::<Glyph>::empty());
    assert(one.drop_last() =~= Seq::<(Seq<char>, u64)>::empty());
    assert(one.last() == (label, value));
    assert(inline_temps(one) =~= text(label) + text(": "@) + reading(SensorKind::Temp, value));
    if a.len() > 0 && b.len() > 0 {
        assert((a + b).drop_last() =~= a + b.drop_last());
        assert((a + b).last() == b.last());
        if b.len() == 1 {
            assert(a + b.drop_last() =~= a);
            assert(b.drop_last() =~= Seq::<(Seq<char>, u64)>::empty());
            assert(inline_temps(a + b) =~= inline_temps(a) + text("  "@) + inline_temps(b));
        } else {
            law_inline_temps(a, b.drop_last(), label, value);
            assert(inline_temps(a + b) =~= inline_temps(a) + text("  "@) + inline_temps(b));
        }
    }
}

/// The temperatures of cores are those whose label starts with `Core `, all of them, in
/// their order.
pub proof fn law_core_temps(list: Readings)
    ensures
        core_temps(list) == list.filter(|r: (Seq<char>, u64)| "Core "@.is_prefix_of(r.0)),
    decreases list.len(),
{
    reveal(Seq::filter);
    if list.len() > 0 {
        law_core_temps(list.drop_last());
    }
}

} // verus!
