//! Graphics cards under `/sys/class/drm`.

use vstd::prelude::*;

use crate::names::{arrange, arranged, law_arranged_contains, law_arranged_len, lemma_by_name, lemma_order_by_name, lex_lt, sort, Labelled, NameTest, Named, Order};
use crate::text::{after_last, all_digits, chars, cut_prefix, first_with, is_all_digits, is_digit, law_behind_last, law_first_with, law_prefix_cut, line_with, lines, owned, slice, split, split_char, split_last, strip_prefix};

verus! {

#[derive(Debug)]
pub struct GpuInfo {
    pub driver: String,
    pub name: String,
    /// The directory name of the card's sensors, such as `hwmon3`.
    pub hwmon_id: Option<String>,
    /// The path of the card's device.
    pub dev_path: String,
}

/// The model of a card.
#[verifier::ext_equal]
pub struct GpuView {
    pub driver: Seq<char>,
    pub name: Seq<char>,
    pub hwmon_id: Option<Seq<char>>,
    pub dev_path: Seq<char>,
}

impl DeepView for GpuInfo {
    type V = GpuView;

    open spec fn deep_view(&self) -> GpuView {
        GpuView {
            driver: self.driver@,
            name: self.name@,
            hwmon_id: self.hwmon_id.deep_view(),
            dev_path: self.dev_path@,
        }
    }
}

/// Names of cards: `card` and a number.
pub struct Cards;

impl NameTest for Cards {
    open spec fn passes(&self, name: Seq<char>) -> bool {
        match strip_prefix(name, "card"@) {
            Some(rest) => rest.len() > 0 && all_digits(rest),
            None => false,
        }
    }

    fn test(&self, name: &str) -> (r: bool) {
        match cut_prefix(name, "card") {
            Some(rest) => !rest.as_str().is_empty() && is_all_digits(rest.as_str()),
            None => false,
        }
    }
}

/// The cards among the names under `/sys/class/drm`, in order.
pub fn gpu_cards(names: &Vec<String>) -> (r: Vec<String>)
    ensures
        r.deep_view() == arranged(names.deep_view(), Cards, Order::Name),
        forall|i: int, j: int|
            0 <= i < j < r@.len() ==> !lex_lt(
                #[trigger] r.deep_view()[j],
                #[trigger] r.deep_view()[i],
            ),
{
    proof {
        lemma_by_name(names.deep_view(), Cards);
    }
    sort(names, &Cards, Order::Name)
}

/// The path of a card's device.
pub open spec fn device_path(card: Seq<char>) -> Seq<char> {
    "/sys/class/drm/"@ + card + "/device"@
}

pub fn card_device(card: &str) -> (r: String)
    ensures
        r@ == device_path(card@),
{
    let mut p = owned("/sys/class/drm/");
    p.append(card);
    p.append("/device");
    p
}

/// What was found of a card: the name its driver link ends in, the name its
/// device's path ends in, and the name of its sensors' directory.
#[derive(Debug)]
pub struct CardProbe {
    pub card: String,
    pub driver: Option<String>,
    pub pci_addr: Option<String>,
    pub hwmon_id: Option<String>,
}

impl Labelled for CardProbe {
    open spec fn label(&self) -> Seq<char> {
        self.card@
    }
}

impl Named for CardProbe {
    fn called(&self) -> (r: &str) {
        self.card.as_str()
    }
}

/// The address as `lspci` prints it.
pub open spec fn short_address(addr: Seq<char>) -> Seq<char> {
    match strip_prefix(addr, "0000:"@) {
        Some(short) => short,
        None => addr,
    }
}

/// A vendor's short name, where one stands in square brackets at the end.
pub open spec fn short_vendor(vendor: Seq<char>) -> Seq<char> {
    match after_last(vendor, '[') {
        Some(rest) if rest.len() > 0 && rest.last() == ']' => rest.drop_last(),
        _ => vendor,
    }
}

/// The name of a device in what `lspci -mm` prints: the vendor and the device of
/// the first line that starts with the address.
pub open spec fn pci_name(lspci: Seq<char>, addr: Seq<char>) -> Option<Seq<char>> {
    let short = short_address(addr);
    if short.len() == 0 {
        None
    } else {
        match first_with(lines(lspci), short) {
            Some(line) if split(line, '"').len() >= 6 => Some(
                short_vendor(split(line, '"')[3]) + " "@ + split(line, '"')[5],
            ),
            _ => None,
        }
    }
}

fn vendor_name(vendor: &str) -> (r: String)
    ensures
        r@ == short_vendor(vendor@),
{
    match split_last(vendor, '[') {
        Some(rest) => {
            let v = chars(rest.as_str());
            if v.len() > 0 && v[v.len() - 1] == ']' {
                assert(v@.subrange(0, v@.len() - 1) =~= rest@.drop_last());
                slice(&v, 0, v.len() - 1)
            } else {
                owned(vendor)
            }
        },
        None => owned(vendor),
    }
}

pub fn lspci_name(lspci: &str, pci_addr: &str) -> (r: Option<String>)
    ensures
        r.deep_view() == pci_name(lspci@, pci_addr@),
{
    let short = match cut_prefix(pci_addr, "0000:") {
        Some(s) => s,
        None => owned(pci_addr),
    };
    if short.as_str().is_empty() {
        return None;
    }
    match line_with(lspci, short.as_str()) {
        Some(line) => {
            let fields = split_char(line.as_str(), '"');
            if fields.len() < 6 {
                return None;
            }
            assert(split(line@, '"')[3] == fields@[3]@);
            assert(split(line@, '"')[5] == fields@[5]@);
            let mut name = vendor_name(fields[3].as_str());
            name.append(" ");
            name.append(fields[5].as_str());
            Some(name)
        },
        None => None,
    }
}

/// A card from what was found of it.
pub open spec fn gpu_of(lspci: Seq<char>, probe: CardProbe) -> GpuView {
    let driver = match probe.driver {
        Some(d) => d@,
        None => "unknown"@,
    };
    let addr = match probe.pci_addr {
        Some(a) => a@,
        None => Seq::empty(),
    };
    GpuView {
        driver,
        name: match pci_name(lspci, addr) {
            Some(name) => name,
            None => "GPU ["@ + driver + "]"@,
        },
        hwmon_id: probe.hwmon_id.deep_view(),
        dev_path: device_path(probe.card@),
    }
}

fn gpu_info(lspci: &str, probe: &CardProbe) -> (r: GpuInfo)
    ensures
        r.deep_view() == gpu_of(lspci@, *probe),
{
    let driver = match &probe.driver {
        Some(d) => owned(d.as_str()),
        None => owned("unknown"),
    };
    let addr = match &probe.pci_addr {
        Some(a) => owned(a.as_str()),
        None => String::new(),
    };
    let name = match lspci_name(lspci, addr.as_str()) {
        Some(name) => name,
        None => {
            let mut n = owned("GPU [");
            n.append(driver.as_str());
            n.append("]");
            n
        },
    };
    let hwmon_id = match &probe.hwmon_id {
        Some(id) => Some(owned(id.as_str())),
        None => None,
    };
    GpuInfo { driver, name, hwmon_id, dev_path: card_device(probe.card.as_str()) }
}

/// The cards, from what `lspci -mm` prints and what was found of each device
/// under `/sys/class/drm`, in the order of their names.
pub open spec fn gpu_list(lspci: Seq<char>, probes: Seq<CardProbe>) -> Seq<GpuView> {
    arranged(probes, Cards, Order::Name).map_values(|p: CardProbe| gpu_of(lspci, p))
}

pub fn detect_gpus(lspci: &str, probes: &Vec<CardProbe>) -> (r: Vec<GpuInfo>)
    ensures
        r.deep_view() == gpu_list(lspci@, probes@),
{
    let order = arrange(probes, &Cards, Order::Name);
    let ghost all = gpu_list(lspci@, probes@);
    let n: usize = order.len();
    let mut gpus: Vec<GpuInfo> = Vec::new();
    let mut i: usize = 0;
    while i < n
        invariant
            i <= n,
            n == order@.len(),
            n == all.len(),
            all == gpu_list(lspci@, probes@),
            forall|j: int|
                0 <= j < n ==> (#[trigger] order@[j]) < probes@.len() && probes@[order@[j] as int]
                    == arranged(probes@, Cards, Order::Name)[j],
            gpus.deep_view() =~= all.take(i as int),
        decreases n - i,
    {
        let ghost before = gpus.deep_view();
        let gpu = gpu_info(lspci, &probes[order[i]]);
        let ghost view = gpu.deep_view();
        gpus.push(gpu);
        proof {
            assert(gpus.deep_view() =~= before.push(view));
            assert(all[i as int] == view);
        }
        i += 1;
    }
    assert(gpus.deep_view() =~= all);
    gpus
}

/// Every card has a name.
pub proof fn law_gpu_is_named(lspci: Seq<char>, probe: CardProbe)
    ensures
        gpu_of(lspci, probe).name.len() > 0,
{
    reveal_strlit(" ");
    reveal_strlit("GPU [");
}

// ---------------------------------------------------------------------------
// what a card is called, and which cards there are

/// A vendor's short name is what stands in the square brackets at the end; a vendor
/// without them keeps its name.
pub proof fn law_short_vendor(front: Seq<char>, inner: Seq<char>, whole: Seq<char>)
    requires
        forall|i: int| 0 <= i < inner.len() ==> #[trigger] inner[i] != '[',
    ensures
        short_vendor(front + seq!['['] + (inner + seq![']'])) == inner,
        short_vendor(inner) == inner,
        whole.len() > 0 && whole.last() != ']' ==> short_vendor(whole) == whole,
{
    let back = inner + seq![']'];
    assert forall|i: int| 0 <= i < back.len() implies #[trigger] back[i] != '[' by {
        if i < inner.len() {
            assert(back[i] == inner[i]);
        }
    }
    law_behind_last(front, back, '[');
    assert(back.drop_last() =~= inner);
    law_behind_last(front, inner, '[');
    if whole.len() > 0 && whole.last() != ']' {
        lemma_last_kept(whole, '[');
    }
}

proof fn lemma_last_kept(s: Seq<char>, c: char)
    requires
        s.len() > 0,
    ensures
        after_last(s, c) matches Some(t) ==> t.len() == 0 || t.last() == s.last(),
{
}

/// A device is named after the first line that starts with its address, with or
/// without the domain in front: the vendor in the second pair of quotes and the device
/// in the third. A line with fewer fields, no line and no address name nothing.
pub proof fn law_pci_name(
    lspci: Seq<char>,
    before: Seq<Seq<char>>,
    line: Seq<char>,
    after: Seq<Seq<char>>,
    addr: Seq<char>,
)
    requires
        lines(lspci) == before + seq![line] + after,
        addr.len() > 0,
        !"0000:"@.is_prefix_of(addr),
        forall|i: int| 0 <= i < before.len() ==> !addr.is_prefix_of(#[trigger] before[i]),
    ensures
        ({
            let fields = split(line, '"');
            let starts = addr.is_prefix_of(line);
            &&& starts && fields.len() >= 6 ==> pci_name(lspci, addr) == Some(
                short_vendor(fields[3]) + " "@ + fields[5],
            )
            &&& starts && fields.len() < 6 ==> pci_name(lspci, addr) is None
            &&& pci_name(lspci, "0000:"@ + addr) == pci_name(lspci, addr)
            &&& pci_name(lspci, Seq::empty()) is None
            &&& !starts && after.len() == 0 ==> pci_name(lspci, addr) is None
        }),
{
    law_first_with(before, line, after, addr);
    law_prefix_cut("0000:"@, addr);
    reveal_strlit("0000:");
    assert(!"0000:"@.is_prefix_of(Seq::<char>::empty()));
    if !addr.is_prefix_of(line) && after.len() == 0 {
        let all = before + seq![line];
        assert(lines(lspci) =~= all);
        assert forall|i: int| 0 <= i < all.len() implies !addr.is_prefix_of(#[trigger] all[i]) by {
            if i < before.len() {
                assert(all[i] == before[i]);
            }
        }
        law_first_with(all, line, after, addr);
    }
}

/// A card keeps what was found of it, and where something is missing a word stands for
/// it. A card that `lspci` does not name is called after its driver.
pub proof fn law_card_facts(lspci: Seq<char>, probe: CardProbe)
    ensures
        ({
            let gpu = gpu_of(lspci, probe);
            &&& probe.driver matches Some(d) ==> gpu.driver == d@
            &&& probe.driver is None ==> gpu.driver == "unknown"@
            &&& probe.hwmon_id matches Some(h) ==> gpu.hwmon_id == Some(h@)
            &&& probe.hwmon_id is None ==> gpu.hwmon_id is None
            &&& gpu.dev_path == "/sys/class/drm/"@ + probe.card@ + "/device"@
            &&& probe.pci_addr matches Some(a) ==> match pci_name(lspci, a@) {
                Some(name) => gpu.name == name,
                None => gpu.name == "GPU ["@ + gpu.driver + "]"@,
            }
            &&& probe.pci_addr is None ==> gpu.name == "GPU ["@ + gpu.driver + "]"@
        }),
{
    reveal_strlit("0000:");
    assert(!"0000:"@.is_prefix_of(Seq::<char>::empty()));
}

/// A card is `card` and a number.
pub proof fn law_card_names(s: Seq<char>, name: Seq<char>)
    ensures
        Cards.passes("card"@ + s) <==> s.len() > 0 && forall|i: int|
            0 <= i < s.len() ==> is_digit(#[trigger] s[i]),
        Cards.passes(name) ==> "card"@.is_prefix_of(name),
{
    law_prefix_cut("card"@, s);
}

/// Every card is listed, and nothing else is.
pub proof fn law_every_card_listed(lspci: Seq<char>, probes: Seq<CardProbe>, i: int)
    ensures
        gpu_list(lspci, probes).len() == probes.filter(
            |p: CardProbe| Cards.passes(p.card@),
        ).len(),
        0 <= i < probes.len() && Cards.passes(probes[i].card@) ==> gpu_list(
            lspci,
            probes,
        ).contains(gpu_of(lspci, probes[i])),
{
    law_arranged_len(probes, Cards, Order::Name);
    assert(probes.filter(|p: CardProbe| Cards.passes(p.card@)) == probes.filter(
        |p: CardProbe| Cards.passes(p.label()),
    )) by {
        lemma_same_filter(probes);
    }
    if 0 <= i < probes.len() && Cards.passes(probes[i].card@) {
        let order = arranged(probes, Cards, Order::Name);
        assert(probes.contains(probes[i]));
        law_arranged_contains(probes, Cards, Order::Name, probes[i]);
        let k = order.index_of(probes[i]);
        assert(gpu_list(lspci, probes)[k] == gpu_of(lspci, probes[i]));
    }
}

proof fn lemma_same_filter(probes: Seq<CardProbe>)
    ensures
        probes.filter(|p: CardProbe| Cards.passes(p.card@)) == probes.filter(
            |p: CardProbe| Cards.passes(p.label()),
        ),
    decreases probes.len(),
{
    reveal(Seq::filter);
    if probes.len() > 0 {
        lemma_same_filter(probes.drop_last());
    }
}

/// The cards stand in the order of their names.
pub proof fn law_cards_in_order(lspci: Seq<char>, probes: Seq<CardProbe>, order: Seq<CardProbe>)
    requires
        forall|i: int, j: int|
            0 <= i < j < order.len() ==> lex_lt(
                (#[trigger] order[i]).card@,
                (#[trigger] order[j]).card@,
            ),
        order.to_multiset() == probes.filter(
            |p: CardProbe| Cards.passes(p.card@),
        ).to_multiset(),
    ensures
        gpu_list(lspci, probes) == order.map_values(|p: CardProbe| gpu_of(lspci, p)),
{
    lemma_same_filter(probes);
    assert forall|i: int, j: int| 0 <= i < j < order.len() implies lex_lt(
        (#[trigger] order[i]).label(),
        (#[trigger] order[j]).label(),
    ) by {
        assert(lex_lt(order[i].card@, order[j].card@));
    }
    lemma_order_by_name(probes, Cards, order);
}

} // verus!
