//! Main memory, compressed swap and video memory.

use vstd::prelude::*;

use crate::cpu::{column, monus};
use crate::host::{file_number, law_file_number, read_u64};
use crate::names::{arrange, arranged, law_arranged, lemma_by_name, lemma_order_by_name, lex_lt, sort, Labelled, NameTest, Named, Order};
use crate::number::{decimal, number_or_zero, parse_or_zero};
use crate::page::{is_exactly, law_shows, law_text_may_be_cut, num, shows, text, Glyph, Page, Value};
use crate::text::{chars, is_space, law_trimmed_middle, law_trimming_keeps_words, lines, owned, split_lines, split_words, starts_with, trim, trim_class, trimmed, words, CharClass};

verus! {

// ---------------------------------------------------------------------------
// main memory

/// The bytes of a line of `/proc/meminfo`, which gives them in kibibytes.
pub open spec fn line_bytes(line: Seq<char>) -> nat {
    column(words(line), 1) * 1024
}

/// Whether a line is one of the two that count.
pub open spec fn is_memory_line(line: Seq<char>) -> bool {
    "MemTotal:"@.is_prefix_of(line) || "MemAvailable:"@.is_prefix_of(line)
}

/// Whether the sizes fit in 64 bits.
pub open spec fn sizes_fit(list: Seq<Seq<char>>) -> bool {
    forall|i: int|
        0 <= i < list.len() && is_memory_line(#[trigger] list[i]) ==> line_bytes(list[i])
            <= u64::MAX
}

/// The size in the last line that starts with the field's name, and 0 where there
/// is none.
pub open spec fn size_of_field(list: Seq<Seq<char>>, field: Seq<char>) -> nat
    decreases list.len(),
{
    if list.len() == 0 {
        0
    } else if field.is_prefix_of(list.last()) {
        line_bytes(list.last())
    } else {
        size_of_field(list.drop_last(), field)
    }
}

/// The bytes of a line, where they fit.
fn bytes_of(line: &str) -> (r: Option<u64>)
    ensures
        match r {
            Some(b) => b == line_bytes(line@),
            None => line_bytes(line@) > u64::MAX,
        },
{
    let parts = split_words(line);
    let kib: u64 = if parts.len() > 1 {
        assert(words(line@)[1] == parts@[1]@);
        parse_or_zero(parts[1].as_str())
    } else {
        0
    };
    kib.checked_mul(1024)
}

/// Whether the sizes fit, so that `ram_usage` may be called.
pub fn ram_usage_fits(meminfo: &str) -> (r: bool)
    ensures
        r == sizes_fit(lines(meminfo@)),
{
    let list = split_lines(meminfo);
    let n: usize = list.len();
    let ghost all = list.deep_view();
    let mut i: usize = 0;
    while i < n
        invariant
            i <= n,
            n == list@.len(),
            all == list.deep_view(),
            all == lines(meminfo@),
            forall|j: int|
                0 <= j < i && is_memory_line(#[trigger] all[j]) ==> line_bytes(all[j])
                    <= u64::MAX,
        decreases n - i,
    {
        let line = list[i].as_str();
        assert(line@ == all[i as int]);
        if (starts_with(line, "MemTotal:") || starts_with(line, "MemAvailable:")) && bytes_of(
            line,
        ).is_none() {
            assert(is_memory_line(all[i as int]));
            return false;
        }
        i += 1;
    }
    true
}

/// No line starts with both names.
proof fn lemma_fields_differ(line: Seq<char>)
    ensures
        !("MemTotal:"@.is_prefix_of(line) && "MemAvailable:"@.is_prefix_of(line)),
{
    reveal_strlit("MemTotal:");
    reveal_strlit("MemAvailable:");
    if "MemTotal:"@.is_prefix_of(line) && "MemAvailable:"@.is_prefix_of(line) {
        assert("MemTotal:"@[3] == line.subrange(0, "MemTotal:"@.len() as int)[3]);
        assert("MemAvailable:"@[3] == line.subrange(0, "MemAvailable:"@.len() as int)[3]);
    }
}

/// The bytes of memory there are.
pub open spec fn memory_total(list: Seq<Seq<char>>) -> nat {
    size_of_field(list, "MemTotal:"@)
}

/// The bytes of memory in use: what is not available.
pub open spec fn memory_used(list: Seq<Seq<char>>) -> nat {
    let available = size_of_field(list, "MemAvailable:"@);
    if available <= memory_total(list) {
        (memory_total(list) - available) as nat
    } else {
        0
    }
}

/// The bytes of memory there are, and those in use, from the text of
/// `/proc/meminfo`.
pub fn ram_usage(meminfo: &str) -> (r: (u64, u64))
    requires
        sizes_fit(lines(meminfo@)),
    ensures
        r.0 == size_of_field(lines(meminfo@), "MemTotal:"@),
        r.1 == monus(r.0, size_of_field(lines(meminfo@), "MemAvailable:"@) as u64),
        r.1 <= r.0,
        r.0 == memory_total(lines(meminfo@)),
        r.1 == memory_used(lines(meminfo@)),
{
    let list = split_lines(meminfo);
    let n: usize = list.len();
    let ghost all = list.deep_view();
    let mut total: u64 = 0;
    let mut available: u64 = 0;
    let mut i: usize = 0;
    assert(all.take(0) =~= Seq::<Seq<char>>::empty());
    while i < n
        invariant
            i <= n,
            n == list@.len(),
            all == list.deep_view(),
            sizes_fit(all),
            total == size_of_field(all.take(i as int), "MemTotal:"@),
            available == size_of_field(all.take(i as int), "MemAvailable:"@),
        decreases n - i,
    {
        let line = list[i].as_str();
        proof {
            assert(line@ == all[i as int]);
            assert(all.take(i + 1).drop_last() =~= all.take(i as int));
            lemma_fields_differ(line@);
        }
        if starts_with(line, "MemTotal:") {
            assert(is_memory_line(all[i as int]));
            if let Some(b) = bytes_of(line) {
                total = b;
            }
        } else if starts_with(line, "MemAvailable:") {
            assert(is_memory_line(all[i as int]));
            if let Some(b) = bytes_of(line) {
                available = b;
            }
        }
        i += 1;
    }
    assert(all.take(n as int) =~= all);
    (total, total.saturating_sub(available))
}

// ---------------------------------------------------------------------------
// compressed swap

/// Names of compressed swap devices.
pub struct ZramNames;

impl NameTest for ZramNames {
    open spec fn passes(&self, name: Seq<char>) -> bool {
        "zram"@.is_prefix_of(name)
    }

    fn test(&self, name: &str) -> (r: bool) {
        starts_with(name, "zram")
    }
}

/// The compressed swap devices among the names under `/sys/block`, in order.
pub fn zram_devices(names: &Vec<String>) -> (r: Vec<String>)
    ensures
        r.deep_view() == arranged(names.deep_view(), ZramNames, Order::Name),
        forall|i: int, j: int|
            0 <= i < j < r@.len() ==> !lex_lt(
                #[trigger] r.deep_view()[j],
                #[trigger] r.deep_view()[i],
            ),
{
    proof {
        lemma_by_name(names.deep_view(), ZramNames);
    }
    sort(names, &ZramNames, Order::Name)
}

/// A compressed swap device: its size, the size of what it holds before and after
/// compression, and the text that lists its algorithms.
#[derive(Debug)]
pub struct ZramDevice {
    pub name: String,
    pub disksize: u64,
    pub data: u64,
    pub compressed: u64,
    pub algorithms: String,
}

impl Labelled for ZramDevice {
    open spec fn label(&self) -> Seq<char> {
        self.name@
    }
}

impl Named for ZramDevice {
    fn called(&self) -> (r: &str) {
        self.name.as_str()
    }
}

/// Whether a word stands in square brackets.
pub open spec fn bracketed(w: Seq<char>) -> bool {
    w.len() > 0 && w[0] == '[' && w.last() == ']'
}

/// The first word in square brackets, without them.
pub open spec fn first_bracketed(list: Seq<Seq<char>>) -> Seq<char>
    decreases list.len(),
{
    if list.len() == 0 {
        "unknown"@
    } else if bracketed(list[0]) {
        trimmed(list[0], CharClass::Bracket)
    } else {
        first_bracketed(list.skip(1))
    }
}

/// The algorithm in use.
pub open spec fn algorithm(content: Seq<char>) -> Seq<char> {
    first_bracketed(words(trimmed(content, CharClass::Space)))
}

pub fn active_algorithm(content: &str) -> (r: String)
    ensures
        r@ == algorithm(content@),
{
    let t = trim(content);
    let list = split_words(t.as_str());
    let n: usize = list.len();
    let ghost all = list.deep_view();
    let mut i: usize = 0;
    assert(all.skip(0) =~= all);
    while i < n
        invariant
            i <= n,
            n == list@.len(),
            all == list.deep_view(),
            all == words(trimmed(content@, CharClass::Space)),
            first_bracketed(all.skip(i as int)) == first_bracketed(all),
        decreases n - i,
    {
        let w = list[i].as_str();
        let v = chars(w);
        assert(all.skip(i as int)[0] == w@);
        if v.len() > 0 && v[0] == '[' && v[v.len() - 1] == ']' {
            return trim_class(w, CharClass::Bracket);
        }
        assert(all.skip(i as int).skip(1) =~= all.skip(i + 1));
        i += 1;
    }
    owned("unknown")
}

/// A size in mebibytes.
pub open spec fn mib(bytes: u64) -> Value {
    Value::Quotient { num: bytes, den: 1048576 }
}

/// A size in gibibytes.
pub open spec fn gib(bytes: u64) -> Value {
    Value::Quotient { num: bytes, den: 1073741824 }
}

/// How many times smaller the data became; 1 where nothing is compressed.
pub open spec fn ratio(data: u64, compressed: u64) -> Value {
    if compressed > 0 {
        Value::Quotient { num: data, den: compressed }
    } else {
        Value::Quotient { num: 1, den: 1 }
    }
}

/// The line of a device.
pub open spec fn zram_line(dev: ZramDevice) -> Seq<Glyph> {
    text(dev.name@) + text(": "@) + num(gib(dev.disksize), 2, 0) + text(" GB swap, "@) + text(
        algorithm(dev.algorithms@),
    ) + text(" | data "@) + num(mib(dev.data), 1, 0) + text(" MB -> "@) + num(
        mib(dev.compressed),
        1,
        0,
    ) + text(" MB in RAM ("@) + num(ratio(dev.data, dev.compressed), 2, 0) + text(":1, "@) + num(
        mib(monus(dev.data, dev.compressed)),
        1,
        0,
    ) + text(" MB saved)"@)
}

/// The lines of the devices, with a line feed between each two.
pub open spec fn zram_lines(devs: Seq<ZramDevice>) -> Seq<Glyph>
    decreases devs.len(),
{
    if devs.len() == 0 {
        Seq::empty()
    } else if devs.len() == 1 {
        zram_line(devs[0])
    } else {
        zram_lines(devs.drop_last()) + text("\n"@) + zram_line(devs.last())
    }
}

/// What is shown of compressed swap, from the block devices; `None` where they
/// could not be listed.
pub open spec fn zram_page(devs: Option<Seq<ZramDevice>>) -> Seq<Glyph> {
    match devs {
        Some(list) => {
            let zram = arranged(list, ZramNames, Order::Name);
            if zram.len() == 0 {
                text("No ZRAM devices configured"@)
            } else {
                zram_lines(zram)
            }
        },
        None => text("ZRAM: unavailable"@),
    }
}

fn put_zram(page: &mut Page, dev: &ZramDevice)
    ensures
        final(page)@ == old(page)@ + zram_line(*dev),
{
    let saved: u64 = dev.data.saturating_sub(dev.compressed);
    let shrunk = if dev.compressed > 0 {
        Value::Quotient { num: dev.data, den: dev.compressed }
    } else {
        Value::Quotient { num: 1, den: 1 }
    };
    page.put(dev.name.as_str());
    page.put(": ");
    page.put_number(Value::Quotient { num: dev.disksize, den: 1073741824 }, 2, 0);
    page.put(" GB swap, ");
    page.put(active_algorithm(dev.algorithms.as_str()).as_str());
    page.put(" | data ");
    page.put_number(Value::Quotient { num: dev.data, den: 1048576 }, 1, 0);
    page.put(" MB -> ");
    page.put_number(Value::Quotient { num: dev.compressed, den: 1048576 }, 1, 0);
    page.put(" MB in RAM (");
    page.put_number(shrunk, 2, 0);
    page.put(":1, ");
    page.put_number(Value::Quotient { num: saved, den: 1048576 }, 1, 0);
    page.put(" MB saved)");
    assert(page@ =~= old(page)@ + zram_line(*dev));
}

pub fn zram_info(devs: Option<&Vec<ZramDevice>>) -> (r: Page)
    ensures
        r@ == zram_page(
            match devs {
                Some(list) => Some(list@),
                None => None,
            },
        ),
{
    let mut page = Page::new();
    match devs {
        None => {
            page.put("ZRAM: unavailable");
            assert(page@ =~= text("ZRAM: unavailable"@));
        },
        Some(list) => {
            let order = arrange(list, &ZramNames, Order::Name);
            let ghost all = arranged(list@, ZramNames, Order::Name);
            let n: usize = order.len();
            if n == 0 {
                page.put("No ZRAM devices configured");
                assert(page@ =~= text("No ZRAM devices configured"@));
                return page;
            }
            let mut i: usize = 0;
            assert(all.take(0) =~= Seq::<ZramDevice>::empty());
            while i < n
                invariant
                    i <= n,
                    n == order@.len(),
                    n == all.len(),
                    forall|j: int|
                        0 <= j < n ==> (#[trigger] order@[j]) < list@.len()
                            && list@[order@[j] as int] == all[j],
                    page@ == zram_lines(all.take(i as int)),
                decreases n - i,
            {
                let dev = &list[order[i]];
                assert(all.take(i + 1).drop_last() =~= all.take(i as int));
                assert(all.take(i + 1).last() == *dev);
                if i > 0 {
                    page.put("\n");
                }
                put_zram(&mut page, dev);
                i += 1;
                assert(page@ =~= zram_lines(all.take(i as int)));
            }
            assert(all.take(n as int) =~= all);
        },
    }
    page
}

// ---------------------------------------------------------------------------
// video memory

/// The bytes of video memory there are, and those in use.
pub open spec fn video_memory(total: Seq<char>, used: Seq<char>) -> Option<(u64, u64)> {
    if file_number(total) == 0 {
        None
    } else {
        Some((file_number(total) as u64, file_number(used) as u64))
    }
}

/// The bytes of video memory there are, and those in use, from the texts of the
/// files that hold them; none where the card does not tell.
pub fn amd_vram(total: &str, used: &str) -> (r: Option<(u64, u64)>)
    ensures
        ({
            let t = number_or_zero(trimmed(total@, CharClass::Space));
            let u = number_or_zero(trimmed(used@, CharClass::Space));
            r == (if t == 0 {
                None
            } else {
                Some((t as u64, u as u64))
            })
        }),
        r == video_memory(total@, used@),
{
    let t: u64 = read_u64(total);
    if t == 0 {
        return None;
    }
    Some((t, read_u64(used)))
}

// ---------------------------------------------------------------------------
// what the sizes mean

/// A size is shown in units of mebibytes or gibibytes with nothing cut off.
pub proof fn law_units(bytes: u64)
    ensures
        is_exactly(gib(bytes), bytes as int, 1024int * 1024 * 1024),
        is_exactly(mib(bytes), bytes as int, 1024int * 1024),
{
}

/// The ratio is that of the data to what it was compressed to, and one to one where
/// nothing is compressed.
pub proof fn law_ratio(data: u64, compressed: u64)
    ensures
        compressed > 0 ==> is_exactly(ratio(data, compressed), data as int, compressed as int),
        compressed == 0 ==> is_exactly(ratio(data, compressed), 1, 1),
{
    if compressed > 0 {
        assert(data * compressed == data * compressed);
    }
}

/// The size of a field is the number of kibibytes behind its name in the last line that
/// starts with it.
pub proof fn law_size_of_field(
    before: Seq<Seq<char>>,
    line: Seq<char>,
    after: Seq<Seq<char>>,
    field: Seq<char>,
)
    requires
        forall|i: int| 0 <= i < after.len() ==> !field.is_prefix_of(#[trigger] after[i]),
    ensures
        field.is_prefix_of(line) && words(line).len() > 1 ==> size_of_field(
            before + seq![line] + after,
            field,
        ) == 1024 * number_or_zero(words(line)[1]),
        field.is_prefix_of(line) && words(line).len() <= 1 ==> size_of_field(
            before + seq![line] + after,
            field,
        ) == 0,
        size_of_field(after, field) == 0,
    decreases after.len(),
{
    let list = before + seq![line] + after;
    if after.len() > 0 {
        let rest = after.drop_last();
        assert(list.drop_last() =~= before + seq![line] + rest);
        assert(list.last() == after[after.len() - 1]);
        assert forall|i: int| 0 <= i < rest.len() implies !field.is_prefix_of(
            #[trigger] rest[i],
        ) by {
            assert(rest[i] == after[i]);
        }
        law_size_of_field(before, line, rest, field);
    } else {
        assert(list.last() == line);
    }
}

/// The algorithm in use is the first word in square brackets; where there is none it is
/// not known.
pub proof fn law_first_bracketed(before: Seq<Seq<char>>, name: Seq<char>, after: Seq<Seq<char>>)
    requires
        forall|i: int|
            0 <= i < before.len() ==> !((#[trigger] before[i]).len() > 0 && before[i][0] == '['
                && before[i].last() == ']'),
        name.len() > 0 ==> name[0] != '[' && name[0] != ']' && name.last() != '[' && name.last()
            != ']',
    ensures
        first_bracketed(before + seq![seq!['['] + name + seq![']']] + after) == name,
        first_bracketed(before) == "unknown"@,
    decreases before.len(),
{
    let w = seq!['['] + name + seq![']'];
    let list = before + seq![w] + after;
    if before.len() > 0 {
        let rest = before.skip(1);
        assert(list[0] == before[0]);
        assert(list.skip(1) =~= rest + seq![w] + after);
        assert forall|i: int| 0 <= i < rest.len() implies !((#[trigger] rest[i]).len() > 0
            && rest[i][0] == '[' && rest[i].last() == ']') by {
            assert(rest[i] == before[i + 1]);
        }
        law_first_bracketed(rest, name, after);
    } else {
        assert(list[0] == w);
        law_trimmed_middle(seq!['['], name, seq![']'], CharClass::Bracket);
    }
}

/// The algorithm is looked for among the words of the text.
pub proof fn law_algorithm(content: Seq<char>)
    ensures
        algorithm(content) == first_bracketed(words(content)),
{
    law_trimming_keeps_words(content);
}

/// The line of a device tells its name, its size, its algorithm, its data before and
/// after compression, the ratio, and what is saved.
pub proof fn law_zram_line(dev: ZramDevice, saved: u64)
    ensures
        shows(
            zram_line(dev),
            text(dev.name@) + text(": "@) + num(gib(dev.disksize), 2, 0) + text(" GB swap, "@),
        ),
        shows(zram_line(dev), text(", "@) + text(algorithm(dev.algorithms@)) + text(" | data "@)),
        shows(
            zram_line(dev),
            text(" | data "@) + num(mib(dev.data), 1, 0) + text(" MB -> "@) + num(
                mib(dev.compressed),
                1,
                0,
            ) + text(" MB in RAM ("@) + num(ratio(dev.data, dev.compressed), 2, 0) + text(":1, "@),
        ),
        saved + dev.compressed == dev.data || (saved == 0 && dev.data <= dev.compressed) ==> shows(
            zram_line(dev),
            text(":1, "@) + num(mib(saved), 1, 0) + text(" MB saved)"@),
        ),
{
    let line = zram_line(dev);
    let none = Seq::<Glyph>::empty();
    let a = text(dev.name@) + text(": "@) + num(gib(dev.disksize), 2, 0);
    let b = text(" GB swap, "@);
    let c = text(algorithm(dev.algorithms@));
    let d = text(" | data "@) + num(mib(dev.data), 1, 0) + text(" MB -> "@) + num(
        mib(dev.compressed),
        1,
        0,
    ) + text(" MB in RAM ("@) + num(ratio(dev.data, dev.compressed), 2, 0) + text(":1, "@);
    let e = num(mib(monus(dev.data, dev.compressed)), 1, 0) + text(" MB saved)"@);
    assert(line =~= none + (a + b) + (c + d + e));
    assert(line =~= (a + b + c) + d + e);
    reveal_strlit(" GB swap, ");
    reveal_strlit(" GB swap");
    reveal_strlit(", ");
    assert(" GB swap, "@ =~= " GB swap"@ + ", "@);
    law_text_may_be_cut(" GB swap"@, ", "@);
    let f = text(" | data "@);
    let d2 = num(mib(dev.data), 1, 0) + text(" MB -> "@) + num(mib(dev.compressed), 1, 0) + text(
        " MB in RAM ("@,
    ) + num(ratio(dev.data, dev.compressed), 2, 0) + text(":1, "@);
    assert(d =~= f + d2);
    assert(line =~= (a + text(" GB swap"@)) + (text(", "@) + c + f) + (d2 + e));
    let d3 = text(" | data "@) + num(mib(dev.data), 1, 0) + text(" MB -> "@) + num(
        mib(dev.compressed),
        1,
        0,
    ) + text(" MB in RAM ("@) + num(ratio(dev.data, dev.compressed), 2, 0);
    assert(line =~= (a + b + c + d3) + (text(":1, "@) + num(
        mib(monus(dev.data, dev.compressed)),
        1,
        0,
    ) + text(" MB saved)"@)) + none);
}

/// The lines of the devices stand one below the other.
pub proof fn law_zram_lines(a: Seq<ZramDevice>, b: Seq<ZramDevice>, dev: ZramDevice)
    ensures
        zram_lines(seq![dev]) == zram_line(dev),
        a.len() > 0 && b.len() > 0 ==> zram_lines(a + b) == zram_lines(a) + text("\n"@)
            + zram_lines(b),
    decreases b.len(),
{
    if a.len() > 0 && b.len() > 0 {
        assert((a + b).drop_last() =~= a + b.drop_last());
        assert((a + b).last() == b.last());
        if b.len() == 1 {
            assert(a + b.drop_last() =~= a);
        } else {
            law_zram_lines(a, b.drop_last(), dev);
            assert(zram_lines(a + b) =~= zram_lines(a) + text("\n"@) + zram_lines(b));
        }
    }
}

/// Every device whose name starts with `zram` has its line; without one, the page says
/// that there is none, and where the devices cannot be listed it says so.
pub proof fn law_every_zram_shown(devs: Seq<ZramDevice>, i: int)
    ensures
        0 <= i < devs.len() && "zram"@.is_prefix_of(devs[i].name@) ==> shows(
            zram_page(Some(devs)),
            zram_line(devs[i]),
        ),
        (forall|j: int| 0 <= j < devs.len() ==> !"zram"@.is_prefix_of((#[trigger] devs[j]).name@))
            ==> zram_page(Some(devs)) == text("No ZRAM devices configured"@),
        zram_page(None) == text("ZRAM: unavailable"@),
{
    broadcast use vstd::seq_lib::group_to_multiset_ensures;

    let order = arranged(devs, ZramNames, Order::Name);
    law_arranged(devs, ZramNames, Order::Name);
    if 0 <= i < devs.len() && "zram"@.is_prefix_of(devs[i].name@) {
        assert(devs.contains(devs[i]));
        assert(devs.to_multiset().count(devs[i]) > 0);
        assert(order.to_multiset().count(devs[i]) > 0);
        assert(order.contains(devs[i]));
        lemma_line_shown(order, order.index_of(devs[i]));
    }
    if forall|j: int| 0 <= j < devs.len() ==> !"zram"@.is_prefix_of((#[trigger] devs[j]).name@) {
        if order.len() > 0 {
            assert(order.contains(order[0]));
            assert(order.to_multiset().count(order[0]) > 0);
            assert(devs.to_multiset().count(order[0]) > 0);
            let j = devs.index_of(order[0]);
            assert(!"zram"@.is_prefix_of(devs[j].name@));
        }
    }
}

proof fn lemma_line_shown(devs: Seq<ZramDevice>, i: int)
    requires
        0 <= i < devs.len(),
    ensures
        shows(zram_lines(devs), zram_line(devs[i])),
    decreases devs.len(),
{
    let none = Seq::<Glyph>::empty();
    let line = zram_line(devs[i]);
    if devs.len() == 1 {
        assert(zram_lines(devs) =~= none + line + none);
    } else if i == devs.len() - 1 {
        assert(zram_lines(devs) =~= (zram_lines(devs.drop_last()) + text("\n"@)) + line + none);
    } else {
        lemma_line_shown(devs.drop_last(), i);
        let front = zram_lines(devs.drop_last());
        let rest = text("\n"@) + zram_line(devs.last());
        law_shows(none, front, rest, line);
        assert(none + front + rest =~= zram_lines(devs));
    }
}

/// What is used and what is available make up all of the memory; where more is available
/// than there is, nothing is used.
pub proof fn law_memory_adds_up(list: Seq<Seq<char>>)
    ensures
        ({
            let total = size_of_field(list, "MemTotal:"@);
            let available = size_of_field(list, "MemAvailable:"@);
            &&& memory_total(list) == total
            &&& available <= total ==> memory_used(list) + available == total
            &&& available > total ==> memory_used(list) == 0
        }),
{
}

/// A card that tells the size of its memory, in a file with or without white space
/// around the number, also tells its use; a card without memory tells nothing.
pub proof fn law_video_memory(
    a: Seq<char>,
    total: nat,
    b: Seq<char>,
    used: nat,
    other: Seq<char>,
)
    requires
        forall|i: int| 0 <= i < a.len() ==> is_space(#[trigger] a[i]),
        forall|i: int| 0 <= i < b.len() ==> is_space(#[trigger] b[i]),
        total <= u64::MAX,
        used <= u64::MAX,
    ensures
        total > 0 ==> video_memory(a + decimal(total) + b, a + decimal(used) + b) == Some(
            (total as u64, used as u64),
        ),
        video_memory(a + decimal(0) + b, other) is None,
{
    law_file_number(a, total, b);
    law_file_number(a, used, b);
    law_file_number(a, 0, b);
}

/// The devices stand in the order of their names.
pub proof fn law_zram_in_order(devs: Seq<ZramDevice>, order: Seq<ZramDevice>)
    requires
        order.len() > 0,
        forall|i: int, j: int|
            0 <= i < j < order.len() ==> lex_lt(
                (#[trigger] order[i]).name@,
                (#[trigger] order[j]).name@,
            ),
        order.to_multiset() == devs.filter(
            |d: ZramDevice| "zram"@.is_prefix_of(d.name@),
        ).to_multiset(),
    ensures
        zram_page(Some(devs)) == zram_lines(order),
{
    lemma_same_filter(devs);
    assert forall|i: int, j: int| 0 <= i < j < order.len() implies lex_lt(
        (#[trigger] order[i]).label(),
        (#[trigger] order[j]).label(),
    ) by {
        assert(lex_lt(order[i].name@, order[j].name@));
    }
    lemma_order_by_name(devs, ZramNames, order);
}

proof fn lemma_same_filter(devs: Seq<ZramDevice>)
    ensures
        devs.filter(|d: ZramDevice| "zram"@.is_prefix_of(d.name@)) == devs.filter(
            |d: ZramDevice| ZramNames.passes(d.label()),
        ),
    decreases devs.len(),
{
    reveal(Seq::filter);
    if devs.len() > 0 {
        lemma_same_filter(devs.drop_last());
    }
}

} // verus!
