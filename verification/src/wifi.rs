//! What the Wi-Fi hardware can do, from what `iw phy` prints.

use vstd::prelude::*;

use crate::layout::{join, join_list, law_joined};
use crate::text::{contains, find, find_text, has_text, is_space, law_contains, law_first_word, law_found_first, law_no_words, law_words_of_two, lines, owned, push_string, slice, split_lines, split_words, words, chars};

verus! {

/// The generations of Wi-Fi, the latest first.
#[derive(Clone, Copy, PartialEq, Eq, Structural, Debug)]
pub enum Mode {
    Eht,
    He,
    Vht,
    Ht,
}

/// The bands of Wi-Fi.
#[derive(Clone, Copy, PartialEq, Eq, Structural, Debug)]
pub enum Band {
    Ghz24,
    Ghz5,
    Ghz6,
}

/// The generation that a line speaks of, where it is the heading of one. The
/// heading of a later generation contains that of an earlier.
pub open spec fn mode_of(line: Seq<char>) -> Option<Mode> {
    if contains(line, "EHT Capabilities"@) {
        Some(Mode::Eht)
    } else if contains(line, "HE Capabilities"@) || contains(line, "HE MAC Capabilities"@) {
        Some(Mode::He)
    } else if contains(line, "VHT Capabilities"@) {
        Some(Mode::Vht)
    } else if contains(line, "HT Capabilities"@) {
        Some(Mode::Ht)
    } else {
        None
    }
}

/// Whether any line speaks of the generation.
pub open spec fn has_mode(list: Seq<Seq<char>>, mode: Mode) -> bool {
    exists|i: int| 0 <= i < list.len() && mode_of(#[trigger] list[i]) == Some(mode)
}

/// The band of a frequency in megahertz.
pub open spec fn band_of(mhz: u64) -> Option<Band> {
    if 2400 <= mhz < 2500 {
        Some(Band::Ghz24)
    } else if 5000 <= mhz < 5900 {
        Some(Band::Ghz5)
    } else if 5900 <= mhz < 7200 {
        Some(Band::Ghz6)
    } else {
        None
    }
}

/// Whether any frequency is in the band.
pub open spec fn has_band(mhz: Seq<u64>, band: Band) -> bool {
    exists|i: int| 0 <= i < mhz.len() && band_of(#[trigger] mhz[i]) == Some(band)
}

/// The text of the frequency in a line: the last word in front of the first `MHz`.
pub open spec fn frequency_text(line: Seq<char>) -> Option<Seq<char>> {
    match find(line, "MHz"@) {
        Some(at) if words(line.take(at)).len() > 0 => Some(words(line.take(at)).last()),
        _ => None,
    }
}

/// The texts of the frequencies in a list of lines.
pub open spec fn frequency_texts(list: Seq<Seq<char>>) -> Seq<Seq<char>>
    decreases list.len(),
{
    if list.len() == 0 {
        Seq::empty()
    } else {
        match frequency_text(list.last()) {
            Some(t) => frequency_texts(list.drop_last()).push(t),
            None => frequency_texts(list.drop_last()),
        }
    }
}

fn line_frequency(line: &str) -> (r: Option<String>)
    ensures
        r.deep_view() == frequency_text(line@),
{
    match find_text(line, "MHz") {
        Some(at) => {
            let v = chars(line);
            let head = slice(&v, 0, at);
            assert(head@ =~= line@.take(at as int));
            let parts = split_words(head.as_str());
            let n: usize = parts.len();
            if n > 0 {
                assert(words(head@).last() == parts@[n - 1]@);
                Some(owned(parts[n - 1].as_str()))
            } else {
                None
            }
        },
        None => None,
    }
}

/// The texts of the frequencies in what `iw phy` prints, each a decimal fraction
/// where the output is sound.
pub fn wifi_frequencies(output: &str) -> (r: Vec<String>)
    ensures
        r.deep_view() == frequency_texts(lines(output@)),
{
    let list = split_lines(output);
    let n: usize = list.len();
    let ghost all = list.deep_view();
    let mut out: Vec<String> = Vec::new();
    let mut i: usize = 0;
    assert(all.take(0) =~= Seq::<Seq<char>>::empty());
    assert(out.deep_view() =~= Seq::<Seq<char>>::empty());
    while i < n
        invariant
            i <= n,
            n == list@.len(),
            all == list.deep_view(),
            out.deep_view() == frequency_texts(all.take(i as int)),
        decreases n - i,
    {
        assert(all.take(i + 1).drop_last() =~= all.take(i as int));
        if let Some(t) = line_frequency(list[i].as_str()) {
            push_string(&mut out, t);
        }
        i += 1;
    }
    assert(all.take(n as int) =~= all);
    out
}

fn line_mode(line: &str) -> (r: Option<Mode>)
    ensures
        r == mode_of(line@),
{
    if has_text(line, "EHT Capabilities") {
        Some(Mode::Eht)
    } else if has_text(line, "HE Capabilities") || has_text(line, "HE MAC Capabilities") {
        Some(Mode::He)
    } else if has_text(line, "VHT Capabilities") {
        Some(Mode::Vht)
    } else if has_text(line, "HT Capabilities") {
        Some(Mode::Ht)
    } else {
        None
    }
}

fn any_mode(list: &Vec<String>, mode: Mode) -> (r: bool)
    ensures
        r == has_mode(list.deep_view(), mode),
{
    let n: usize = list.len();
    let ghost all = list.deep_view();
    let mut i: usize = 0;
    while i < n
        invariant
            i <= n,
            n == list@.len(),
            all == list.deep_view(),
            forall|j: int| 0 <= j < i ==> mode_of(#[trigger] all[j]) != Some(mode),
        decreases n - i,
    {
        assert(all[i as int] == list@[i as int]@);
        if let Some(m) = line_mode(list[i].as_str()) {
            if m == mode {
                return true;
            }
        }
        i += 1;
    }
    false
}

fn frequency_band(mhz: u64) -> (r: Option<Band>)
    ensures
        r == band_of(mhz),
{
    if 2400 <= mhz && mhz < 2500 {
        Some(Band::Ghz24)
    } else if 5000 <= mhz && mhz < 5900 {
        Some(Band::Ghz5)
    } else if 5900 <= mhz && mhz < 7200 {
        Some(Band::Ghz6)
    } else {
        None
    }
}

fn any_band(mhz: &Vec<u64>, band: Band) -> (r: bool)
    ensures
        r == has_band(mhz@, band),
{
    let n: usize = mhz.len();
    let mut i: usize = 0;
    while i < n
        invariant
            i <= n,
            n == mhz@.len(),
            forall|j: int| 0 <= j < i ==> band_of(#[trigger] mhz@[j]) != Some(band),
        decreases n - i,
    {
        if let Some(b) = frequency_band(mhz[i]) {
            if b == band {
                return true;
            }
        }
        i += 1;
    }
    false
}

/// The latest standard that the hardware supports. The sixth generation has a
/// name of its own where it reaches the 6 GHz band.
pub open spec fn standard(list: Seq<Seq<char>>, mhz: Seq<u64>) -> Seq<char> {
    if has_mode(list, Mode::Eht) {
        "Wi-Fi 7 (802.11be)"@
    } else if has_mode(list, Mode::He) && has_band(mhz, Band::Ghz6) {
        "Wi-Fi 6E (802.11ax)"@
    } else if has_mode(list, Mode::He) {
        "Wi-Fi 6 (802.11ax)"@
    } else if has_mode(list, Mode::Vht) {
        "Wi-Fi 5 (802.11ac)"@
    } else if has_mode(list, Mode::Ht) {
        "Wi-Fi 4 (802.11n)"@
    } else {
        "Legacy (802.11a/b/g)"@
    }
}

/// The names of the bands that the hardware supports.
pub open spec fn band_names(mhz: Seq<u64>) -> Seq<Seq<char>> {
    (if has_band(mhz, Band::Ghz24) {
        seq!["2.4 GHz"@]
    } else {
        Seq::empty()
    }) + (if has_band(mhz, Band::Ghz5) {
        seq!["5 GHz"@]
    } else {
        Seq::empty()
    }) + (if has_band(mhz, Band::Ghz6) {
        seq!["6 GHz"@]
    } else {
        Seq::empty()
    })
}

/// The bands in words.
pub open spec fn bands(mhz: Seq<u64>) -> Seq<char> {
    if band_names(mhz).len() == 0 {
        "None"@
    } else {
        join(band_names(mhz), ", "@)
    }
}

/// The latest standard; none where `iw` prints nothing.
pub open spec fn wifi_standard(output: Seq<char>, mhz: Seq<u64>) -> Seq<char> {
    if output.len() == 0 {
        "N/A"@
    } else {
        standard(lines(output), mhz)
    }
}

/// The bands; none where `iw` prints nothing.
pub open spec fn wifi_bands(output: Seq<char>, mhz: Seq<u64>) -> Seq<char> {
    if output.len() == 0 {
        "N/A"@
    } else {
        bands(mhz)
    }
}

/// The latest standard and the bands that the hardware supports, from what
/// `iw phy` prints and the whole megahertz of the frequencies in it.
pub fn wifi_capabilities(output: &str, mhz: &Vec<u64>) -> (r: (String, String))
    ensures
        r.0@ == wifi_standard(output@, mhz@),
        r.1@ == wifi_bands(output@, mhz@),
{
    if output.is_empty() {
        return (owned("N/A"), owned("N/A"));
    }
    let list = split_lines(output);
    let g6 = any_band(mhz, Band::Ghz6);
    let standard = if any_mode(&list, Mode::Eht) {
        "Wi-Fi 7 (802.11be)"
    } else if any_mode(&list, Mode::He) && g6 {
        "Wi-Fi 6E (802.11ax)"
    } else if any_mode(&list, Mode::He) {
        "Wi-Fi 6 (802.11ax)"
    } else if any_mode(&list, Mode::Vht) {
        "Wi-Fi 5 (802.11ac)"
    } else if any_mode(&list, Mode::Ht) {
        "Wi-Fi 4 (802.11n)"
    } else {
        "Legacy (802.11a/b/g)"
    };
    let mut names: Vec<String> = Vec::new();
    if any_band(mhz, Band::Ghz24) {
        push_string(&mut names, owned("2.4 GHz"));
    }
    if any_band(mhz, Band::Ghz5) {
        push_string(&mut names, owned("5 GHz"));
    }
    if g6 {
        push_string(&mut names, owned("6 GHz"));
    }
    assert(names.deep_view() =~= band_names(mhz@));
    let bands = if names.is_empty() {
        owned("None")
    } else {
        join_list(&names, ", ")
    };
    (owned(standard), bands)
}

/// More frequencies never take a band away.
pub proof fn law_more_frequencies_more_bands(mhz: Seq<u64>, more: Seq<u64>, band: Band)
    ensures
        has_band(mhz, band) || has_band(more, band) <==> has_band(mhz + more, band),
{
    let all = mhz + more;
    if has_band(mhz, band) {
        let i = choose|i: int| 0 <= i < mhz.len() && band_of(#[trigger] mhz[i]) == Some(band);
        assert(all[i] == mhz[i]);
    }
    if has_band(more, band) {
        let i = choose|i: int| 0 <= i < more.len() && band_of(#[trigger] more[i]) == Some(band);
        assert(all[mhz.len() + i] == more[i]);
    }
    if has_band(all, band) {
        let i = choose|i: int| 0 <= i < all.len() && band_of(#[trigger] all[i]) == Some(band);
        if i < mhz.len() {
            assert(all[i] == mhz[i]);
        } else {
            assert(all[i] == more[i - mhz.len()]);
        }
    }
}

// ---------------------------------------------------------------------------
// what the hardware's description means

/// Whether a heading stands anywhere in any of the lines.
pub open spec fn mentions(list: Seq<Seq<char>>, heading: Seq<char>) -> bool {
    exists|i: int| 0 <= i < list.len() && contains(#[trigger] list[i], heading)
}

/// Whether any of the frequencies is in a range.
pub open spec fn within(mhz: Seq<u64>, from: int, to: int) -> bool {
    exists|i: int| 0 <= i < mhz.len() && from <= #[trigger] mhz[i] < to
}

proof fn lemma_modes(list: Seq<Seq<char>>)
    ensures
        has_mode(list, Mode::Eht) <==> mentions(list, "EHT Capabilities"@),
        !mentions(list, "EHT Capabilities"@) ==> (has_mode(list, Mode::He) <==> mentions(
            list,
            "HE Capabilities"@,
        ) || mentions(list, "HE MAC Capabilities"@)),
        !mentions(list, "EHT Capabilities"@) && !mentions(list, "HE Capabilities"@) && !mentions(
            list,
            "HE MAC Capabilities"@,
        ) ==> (has_mode(list, Mode::Vht) <==> mentions(list, "VHT Capabilities"@)),
        !mentions(list, "EHT Capabilities"@) && !mentions(list, "HE Capabilities"@) && !mentions(
            list,
            "HE MAC Capabilities"@,
        ) && !mentions(list, "VHT Capabilities"@) ==> (has_mode(list, Mode::Ht) <==> mentions(
            list,
            "HT Capabilities"@,
        )),
{
    let eht = "EHT Capabilities"@;
    let he = "HE Capabilities"@;
    let mac = "HE MAC Capabilities"@;
    let vht = "VHT Capabilities"@;
    let ht = "HT Capabilities"@;
    if mentions(list, eht) {
        let i = choose|i: int| 0 <= i < list.len() && contains(#[trigger] list[i], eht);
        assert(mode_of(list[i]) == Some(Mode::Eht));
    } else {
        assert forall|i: int| 0 <= i < list.len() implies !contains(#[trigger] list[i], eht) by {}
        if mentions(list, he) {
            let i = choose|i: int| 0 <= i < list.len() && contains(#[trigger] list[i], he);
            assert(mode_of(list[i]) == Some(Mode::He));
        } else if mentions(list, mac) {
            let i = choose|i: int| 0 <= i < list.len() && contains(#[trigger] list[i], mac);
            assert(mode_of(list[i]) == Some(Mode::He));
        } else {
            if mentions(list, vht) {
                let i = choose|i: int| 0 <= i < list.len() && contains(#[trigger] list[i], vht);
                assert(mode_of(list[i]) == Some(Mode::Vht));
            } else if mentions(list, ht) {
                let i = choose|i: int| 0 <= i < list.len() && contains(#[trigger] list[i], ht);
                assert(mode_of(list[i]) == Some(Mode::Ht));
            }
        }
    }
}

proof fn lemma_bands(mhz: Seq<u64>)
    ensures
        has_band(mhz, Band::Ghz24) <==> within(mhz, 2400, 2500),
        has_band(mhz, Band::Ghz5) <==> within(mhz, 5000, 5900),
        has_band(mhz, Band::Ghz6) <==> within(mhz, 5900, 7200),
{
    if within(mhz, 2400, 2500) {
        let i = choose|i: int| 0 <= i < mhz.len() && 2400 <= #[trigger] mhz[i] < 2500;
        assert(band_of(mhz[i]) == Some(Band::Ghz24));
    }
    if within(mhz, 5000, 5900) {
        let i = choose|i: int| 0 <= i < mhz.len() && 5000 <= #[trigger] mhz[i] < 5900;
        assert(band_of(mhz[i]) == Some(Band::Ghz5));
    }
    if within(mhz, 5900, 7200) {
        let i = choose|i: int| 0 <= i < mhz.len() && 5900 <= #[trigger] mhz[i] < 7200;
        assert(band_of(mhz[i]) == Some(Band::Ghz6));
    }
}

/// The standard is that of the latest heading that stands anywhere in a line, whatever
/// stands before or behind it there. The sixth generation is `6E` where a frequency
/// lies in the 6 GHz band.
pub proof fn law_standard(output: Seq<char>, mhz: Seq<u64>)
    requires
        output.len() > 0,
    ensures
        ({
            let list = lines(output);
            let eht = mentions(list, "EHT Capabilities"@);
            let he = mentions(list, "HE Capabilities"@) || mentions(list, "HE MAC Capabilities"@);
            let vht = mentions(list, "VHT Capabilities"@);
            let ht = mentions(list, "HT Capabilities"@);
            let found = wifi_standard(output, mhz);
            &&& eht ==> found == "Wi-Fi 7 (802.11be)"@
            &&& !eht && he && within(mhz, 5900, 7200) ==> found == "Wi-Fi 6E (802.11ax)"@
            &&& !eht && he && !within(mhz, 5900, 7200) ==> found == "Wi-Fi 6 (802.11ax)"@
            &&& !eht && !he && vht ==> found == "Wi-Fi 5 (802.11ac)"@
            &&& !eht && !he && !vht && ht ==> found == "Wi-Fi 4 (802.11n)"@
            &&& !eht && !he && !vht && !ht ==> found == "Legacy (802.11a/b/g)"@
        }),
{
    lemma_modes(lines(output));
    lemma_bands(mhz);
}

/// The bands are named where a frequency lies in them, the lowest first, and nothing
/// is known where `iw` prints nothing.
pub proof fn law_band_names(output: Seq<char>, mhz: Seq<u64>)
    ensures
        output.len() == 0 ==> wifi_bands(output, mhz) == "N/A"@ && wifi_standard(output, mhz)
            == "N/A"@,
        output.len() > 0 ==> {
            let low = within(mhz, 2400, 2500);
            let mid = within(mhz, 5000, 5900);
            let high = within(mhz, 5900, 7200);
            let found = wifi_bands(output, mhz);
            &&& !low && !mid && !high ==> found == "None"@
            &&& low && !mid && !high ==> found == "2.4 GHz"@
            &&& !low && mid && !high ==> found == "5 GHz"@
            &&& !low && !mid && high ==> found == "6 GHz"@
            &&& low && mid && !high ==> found == "2.4 GHz"@ + ", "@ + "5 GHz"@
            &&& low && !mid && high ==> found == "2.4 GHz"@ + ", "@ + "6 GHz"@
            &&& !low && mid && high ==> found == "5 GHz"@ + ", "@ + "6 GHz"@
            &&& low && mid && high ==> found == "2.4 GHz"@ + ", "@ + "5 GHz"@ + ", "@ + "6 GHz"@
        },
{
    lemma_bands(mhz);
    let names = band_names(mhz);
    let (a, b, c) = ("2.4 GHz"@, "5 GHz"@, "6 GHz"@);
    let sep = ", "@;
    if names.len() == 1 {
        law_joined(names, names, names[0], sep);
        assert(names =~= seq![names[0]]);
    } else if names.len() == 2 {
        law_joined(seq![names[0]], seq![names[1]], names[0], sep);
        law_joined(seq![names[0]], seq![names[1]], names[1], sep);
        assert(names =~= seq![names[0]] + seq![names[1]]);
    } else if names.len() == 3 {
        law_joined(seq![a], seq![b], a, sep);
        law_joined(seq![a], seq![b], b, sep);
        law_joined(seq![a] + seq![b], seq![c], c, sep);
        assert(names =~= seq![a] + seq![b] + seq![c]);
    }
}

/// The frequency of a line is the word in front of its first `MHz`.
pub proof fn law_frequency(a: Seq<char>, w: Seq<char>, b: Seq<char>, rest: Seq<char>)
    requires
        a.len() > 0 ==> is_space(a.last()),
        w.len() > 0,
        forall|i: int| 0 <= i < w.len() ==> !is_space(#[trigger] w[i]),
        forall|i: int| 0 <= i < b.len() ==> is_space(#[trigger] b[i]),
        forall|i: int| 0 <= i < (a + w + b).len() ==> #[trigger] (a + w + b)[i] != 'M',
    ensures
        frequency_text(a + w + b + "MHz"@ + rest) == Some(w),
        frequency_text(a + w + b) is None,
{
    reveal_strlit("MHz");
    let pat = "MHz"@;
    let front = a + w + b;
    let n = front.len() as int;
    let line = front + pat + rest;
    assert(line =~= a + w + b + "MHz"@ + rest);
    law_found_first(line, pat);
    law_contains(front, pat, rest, line);
    law_found_first(front, pat);
    assert(line.subrange(n, n + 3) =~= pat);
    assert(find(line, pat) is Some);
    let at = find(line, pat)->0;
    assert(line.subrange(at, at + 3)[0] == line[at]);
    assert(pat[0] == 'M');
    if at < n {
        assert(line[at] == front[at]);
    }
    if at > n {
        assert(line.subrange(n, n + pat.len()) =~= pat);
    }
    assert(line.take(n) =~= front);
    law_words_of_two(a, w + b);
    law_first_word(Seq::empty(), w, b);
    law_no_words(b);
    assert(Seq::<char>::empty() + w + b =~= w + b);
    assert(a + (w + b) =~= front);
    assert(words(front) =~= words(a) + seq![w]);
    if find(front, pat) is Some {
        let k = find(front, pat)->0;
        assert(front.subrange(k, k + 3)[0] == front[k]);
    }
}

/// The frequencies stand in the order of the lines.
pub proof fn law_frequencies_in_order(a: Seq<Seq<char>>, b: Seq<Seq<char>>, line: Seq<char>)
    ensures
        frequency_texts(a + b) == frequency_texts(a) + frequency_texts(b),
        frequency_texts(seq![line]) == (match frequency_text(line) {
            Some(t) => seq![t],
            None => Seq::empty(),
        }),
    decreases b.len(),
{
    assert(frequency_texts(Seq::empty()) =~= Seq::<Seq<char>>::empty());
    assert(seq![line].drop_last() =~= Seq::<Seq<char>>::empty());
    assert(seq![line].last() == line);
    if let Some(t) = frequency_text(line) {
        assert(Seq::<Seq<char>>::empty().push(t) =~= seq![t]);
    }
    if b.len() == 0 {
        assert(a + b =~= a);
        assert(frequency_texts(a) + frequency_texts(b) =~= frequency_texts(a));
    } else {
        law_frequencies_in_order(a, b.drop_last(), line);
        assert((a + b).drop_last() =~= a + b.drop_last());
        assert((a + b).last() == b.last());
        assert(frequency_texts(a + b) =~= frequency_texts(a) + frequency_texts(b));
    }
}

} // verus!
