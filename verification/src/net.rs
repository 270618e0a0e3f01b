//! Network interfaces: traffic counters and addresses.

use vstd::prelude::*;

use crate::cpu::monus;
use crate::number::{number_or_zero, parse_or_zero};
use crate::table::NameTable;
use crate::text::{is_space, law_first_field, law_trimmed_middle, lines, owned, split_first, split_lines, split_once, split_words, trim, trimmed, words, CharClass};

verus! {

/// The bytes that an interface has received and sent since it came up.
#[derive(Clone, Copy, PartialEq, Eq, Structural, Debug)]
pub struct NetBytes {
    pub rx: u64,
    pub tx: u64,
}

/// The bytes that an interface has received and sent in an interval.
#[derive(Clone, Copy, PartialEq, Eq, Structural, Debug)]
pub struct Speed {
    pub rx: u64,
    pub tx: u64,
    pub nanos: u64,
}

impl DeepView for NetBytes {
    type V = NetBytes;

    open spec fn deep_view(&self) -> NetBytes {
        *self
    }
}

impl DeepView for Speed {
    type V = Speed;

    open spec fn deep_view(&self) -> Speed {
        *self
    }
}

/// The interface of a line of `/proc/net/dev` and its counters: the name in front
/// of the colon, the first and the ninth number behind it.
pub open spec fn iface_line(line: Seq<char>) -> Option<(Seq<char>, NetBytes)> {
    match split_once(trimmed(line, CharClass::Space), ':') {
        Some((iface, stats)) if words(stats).len() >= 9 => Some(
            (
                trimmed(iface, CharClass::Space),
                NetBytes {
                    rx: number_or_zero(words(stats)[0]) as u64,
                    tx: number_or_zero(words(stats)[8]) as u64,
                },
            ),
        ),
        _ => None,
    }
}

/// The counters of each interface; of two lines for one interface the later counts.
pub open spec fn counters(list: Seq<Seq<char>>) -> Map<Seq<char>, NetBytes>
    decreases list.len(),
{
    if list.len() == 0 {
        Map::empty()
    } else {
        match iface_line(list.last()) {
            Some((iface, bytes)) => counters(list.drop_last()).insert(iface, bytes),
            None => counters(list.drop_last()),
        }
    }
}

fn read_iface(line: &str) -> (r: Option<(String, NetBytes)>)
    ensures
        r.deep_view() == iface_line(line@),
{
    let t = trim(line);
    match split_first(t.as_str(), ':') {
        Some((iface, stats)) => {
            let parts = split_words(stats.as_str());
            if parts.len() >= 9 {
                assert(words(stats@)[0] == parts@[0]@);
                assert(words(stats@)[8] == parts@[8]@);
                let rx: u64 = parse_or_zero(parts[0].as_str());
                let tx: u64 = parse_or_zero(parts[8].as_str());
                Some((trim(iface.as_str()), NetBytes { rx, tx }))
            } else {
                None
            }
        },
        None => None,
    }
}

/// The counters in the text of `/proc/net/dev`.
pub fn net_bytes(dev: &str) -> (r: NameTable<NetBytes>)
    ensures
        r.wf(),
        r@ == counters(lines(dev@)),
{
    let list = split_lines(dev);
    let n: usize = list.len();
    let ghost all = list.deep_view();
    let mut table: NameTable<NetBytes> = NameTable::new();
    let mut i: usize = 0;
    assert(all.take(0) =~= Seq::<Seq<char>>::empty());
    while i < n
        invariant
            i <= n,
            n == list@.len(),
            all == list.deep_view(),
            table.wf(),
            table@ == counters(all.take(i as int)),
        decreases n - i,
    {
        assert(all.take(i + 1).drop_last() =~= all.take(i as int));
        if let Some((iface, bytes)) = read_iface(list[i].as_str()) {
            table.insert(iface, bytes);
        }
        i += 1;
    }
    assert(all.take(n as int) =~= all);
    table
}

/// The address of each interface: the third word of the line that starts with
/// its name.
pub open spec fn addresses(list: Seq<Seq<char>>) -> Map<Seq<char>, Seq<char>>
    decreases list.len(),
{
    if list.len() == 0 {
        Map::empty()
    } else {
        let parts = words(list.last());
        if parts.len() >= 3 {
            addresses(list.drop_last()).insert(parts[0], parts[2])
        } else {
            addresses(list.drop_last())
        }
    }
}

/// The addresses in what `ip -4 -brief addr show` prints.
pub fn local_ips(output: &str) -> (r: NameTable<String>)
    ensures
        r.wf(),
        r@ == addresses(lines(output@)),
{
    let list = split_lines(output);
    let n: usize = list.len();
    let ghost all = list.deep_view();
    let mut table: NameTable<String> = NameTable::new();
    let mut i: usize = 0;
    assert(all.take(0) =~= Seq::<Seq<char>>::empty());
    while i < n
        invariant
            i <= n,
            n == list@.len(),
            all == list.deep_view(),
            table.wf(),
            table@ == addresses(all.take(i as int)),
        decreases n - i,
    {
        assert(all.take(i + 1).drop_last() =~= all.take(i as int));
        let parts = split_words(list[i].as_str());
        if parts.len() >= 3 {
            assert(words(all[i as int])[0] == parts@[0]@);
            assert(words(all[i as int])[2] == parts@[2]@);
            table.insert(owned(parts[0].as_str()), owned(parts[2].as_str()));
        }
        i += 1;
    }
    assert(all.take(n as int) =~= all);
    table
}

/// What an interface has moved between two readings; nothing where it is new, and
/// nothing where a counter went back.
pub open spec fn moved(prev: Option<NetBytes>, cur: NetBytes, nanos: u64) -> Speed {
    match prev {
        Some(p) => Speed { rx: monus(cur.rx, p.rx), tx: monus(cur.tx, p.tx), nanos },
        None => Speed { rx: 0, tx: 0, nanos },
    }
}

pub fn speed_between(prev: Option<NetBytes>, cur: NetBytes, nanos: u64) -> (r: Speed)
    ensures
        r == moved(prev, cur, nanos),
        r.nanos == nanos,
        prev matches Some(p) && p.rx <= cur.rx ==> prev->0.rx + r.rx == cur.rx,
        prev matches Some(p) && p.tx <= cur.tx ==> prev->0.tx + r.tx == cur.tx,
{
    match prev {
        Some(p) => Speed {
            rx: cur.rx.saturating_sub(p.rx),
            tx: cur.tx.saturating_sub(p.tx),
            nanos,
        },
        None => Speed { rx: 0, tx: 0, nanos },
    }
}

// ---------------------------------------------------------------------------
// what traffic and addresses mean

/// What an interface has moved, added to its earlier counters, gives the later ones.
/// A counter that went back and an interface that was not there before have moved
/// nothing.
pub proof fn law_moved(prev: NetBytes, cur: NetBytes, nanos: u64)
    ensures
        prev.rx <= cur.rx ==> prev.rx + moved(Some(prev), cur, nanos).rx == cur.rx,
        prev.tx <= cur.tx ==> prev.tx + moved(Some(prev), cur, nanos).tx == cur.tx,
        cur.rx <= prev.rx ==> moved(Some(prev), cur, nanos).rx == 0,
        cur.tx <= prev.tx ==> moved(Some(prev), cur, nanos).tx == 0,
        moved(None, cur, nanos).rx == 0 && moved(None, cur, nanos).tx == 0,
        moved(Some(prev), cur, nanos).nanos == nanos,
        moved(None, cur, nanos).nanos == nanos,
{
}

/// A line gives the interface in front of its first colon, without the white space
/// around it, and as counters the first and the ninth number behind the colon. With
/// fewer numbers, or without a colon, it gives nothing.
pub proof fn law_iface_line(
    a: Seq<char>,
    name: Seq<char>,
    b: Seq<char>,
    stats: Seq<char>,
    c: Seq<char>,
)
    requires
        forall|i: int| 0 <= i < a.len() ==> is_space(#[trigger] a[i]),
        forall|i: int| 0 <= i < b.len() ==> is_space(#[trigger] b[i]),
        forall|i: int| 0 <= i < c.len() ==> is_space(#[trigger] c[i]),
        name.len() > 0 && !is_space(name[0]) && !is_space(name.last()),
        forall|i: int| 0 <= i < name.len() ==> #[trigger] name[i] != ':',
        stats.len() > 0 && !is_space(stats.last()),
    ensures
        words(stats).len() >= 9 ==> iface_line(a + (name + b + seq![':'] + stats) + c) == Some(
            (
                name,
                NetBytes {
                    rx: number_or_zero(words(stats)[0]) as u64,
                    tx: number_or_zero(words(stats)[8]) as u64,
                },
            ),
        ),
        words(stats).len() < 9 ==> iface_line(a + (name + b + seq![':'] + stats) + c) is None,
        iface_line(a + name + c) is None,
{
    let space = CharClass::Space;
    let core = name + b + seq![':'] + stats;
    let front = name + b;
    assert(core[0] == name[0]);
    assert(core.last() == stats.last());
    law_trimmed_middle(a, core, c, space);
    law_trimmed_middle(a, name, c, space);
    assert forall|i: int| 0 <= i < front.len() implies #[trigger] front[i] != ':' by {
        if i < name.len() {
            assert(front[i] == name[i]);
        } else {
            assert(front[i] == b[i - name.len()]);
            assert(is_space(front[i]));
        }
    }
    law_first_field(front, stats, ':');
    law_first_field(name, stats, ':');
    law_trimmed_middle(Seq::empty(), name, b, space);
    assert(Seq::<char>::empty() + name + b =~= front);
}

/// The counters of an interface are those of the last line that gives it, and an
/// interface that no line gives has none.
pub proof fn law_counters(before: Seq<Seq<char>>, line: Seq<char>, after: Seq<Seq<char>>, k: Seq<char>)
    requires
        forall|i: int|
            0 <= i < after.len() ==> !(iface_line(#[trigger] after[i]) matches Some(g) && g.0 == k),
    ensures
        iface_line(line) matches Some(g) && g.0 == k ==> counters(
            before + seq![line] + after,
        ).contains_key(k) && counters(before + seq![line] + after)[k] == (iface_line(line)->0).1,
        !counters(after).contains_key(k),
    decreases after.len(),
{
    let list = before + seq![line] + after;
    if after.len() > 0 {
        let rest = after.drop_last();
        assert(list.drop_last() =~= before + seq![line] + rest);
        assert(list.last() == after[after.len() - 1]);
        assert forall|i: int| 0 <= i < rest.len() implies !(iface_line(
            #[trigger] rest[i],
        ) matches Some(g) && g.0 == k) by {
            assert(rest[i] == after[i]);
        }
        law_counters(before, line, rest, k);
    } else {
        assert(list.last() == line);
    }
}

/// The address of an interface is the third word of the last line that starts with
/// its name, and lines with fewer words give none.
pub proof fn law_addresses(
    before: Seq<Seq<char>>,
    line: Seq<char>,
    after: Seq<Seq<char>>,
    k: Seq<char>,
)
    requires
        forall|i: int|
            0 <= i < after.len() ==> !(words(#[trigger] after[i]).len() >= 3 && words(after[i])[0]
                == k),
    ensures
        words(line).len() >= 3 && words(line)[0] == k ==> addresses(
            before + seq![line] + after,
        ).contains_key(k) && addresses(before + seq![line] + after)[k] == words(line)[2],
        !addresses(after).contains_key(k),
    decreases after.len(),
{
    let list = before + seq![line] + after;
    if after.len() > 0 {
        let rest = after.drop_last();
        assert(list.drop_last() =~= before + seq![line] + rest);
        assert(list.last() == after[after.len() - 1]);
        assert forall|i: int| 0 <= i < rest.len() implies !(words(#[trigger] rest[i]).len() >= 3
            && words(rest[i])[0] == k) by {
            assert(rest[i] == after[i]);
        }
        law_addresses(before, line, rest, k);
    } else {
        assert(list.last() == line);
    }
}

} // verus!
