//! Names of devices, files and interfaces: their order, and the things that go by
//! them.

use vstd::prelude::*;

use crate::number::{decimal, law_decimal_digits, law_decimal_reads_back, law_no_number, number, parse_u32};
use crate::text::{char_index, chars, ends_with, find_char, in_class, is_digit, lemma_find_char, lemma_find_char_is, lemma_run_is, owned, push_string, run, run_end, same, slice, CharClass};

verus! {

// ---------------------------------------------------------------------------
// order

/// The order of texts by their characters' code points.
pub open spec fn lex_lt(a: Seq<char>, b: Seq<char>) -> bool
    decreases a.len(),
{
    if b.len() == 0 {
        false
    } else if a.len() == 0 {
        true
    } else if a[0] != b[0] {
        a[0] < b[0]
    } else {
        lex_lt(a.skip(1), b.skip(1))
    }
}

/// The key by which sensors are listed: the letters in front of the first digit
/// of the name's first part, and the number that follows.
pub open spec fn sensor_key(file: Seq<char>) -> (Seq<char>, nat) {
    let stem = file.take(find_char(file, '_') as int);
    let at = run(stem, CharClass::Digit, false) as int;
    (
        stem.take(at),
        match number(stem.skip(at), u32::MAX as nat) {
            Some(n) => n,
            None => 0,
        },
    )
}

pub fn sensor_sort_key(file: &str) -> (r: (String, u32))
    ensures
        r.0@ == sensor_key(file@).0,
        r.1 == sensor_key(file@).1,
{
    let v = chars(file);
    proof {
        assert(v@.skip(0) =~= v@);
        lemma_find_char(file@, '_');
    }
    let end: usize = char_index(&v, 0, '_');
    let stem = slice(&v, 0, end);
    let w = chars(stem.as_str());
    proof {
        assert(stem@ =~= file@.take(find_char(file@, '_') as int));
        assert(w@.skip(0) =~= w@);
    }
    let at: usize = run_end(&w, 0, CharClass::Digit, false);
    let digits = slice(&w, at, w.len());
    proof {
        assert(w@.subrange(0, at as int) =~= stem@.take(at as int));
        assert(digits@ =~= stem@.skip(at as int));
    }
    let n: u32 = match parse_u32(digits.as_str()) {
        Some(n) => n,
        None => 0,
    };
    (slice(&w, 0, at), n)
}

/// The ways in which names are listed.
#[derive(Clone, Copy, PartialEq, Eq, Structural)]
pub enum Order {
    /// By their characters.
    Name,
    /// By `sensor_key`, so that `temp2` comes before `temp10`.
    Sensor,
    /// By `sensor_key`, and averages behind the other files of their sensor.
    File,
}

/// Whether a file holds an average.
pub open spec fn is_average(file: Seq<char>) -> bool {
    "_average"@.is_suffix_of(file)
}

/// What names are compared by.
pub open spec fn key(name: Seq<char>, by: Order) -> (Seq<char>, nat) {
    match by {
        Order::Name => (name, 0),
        Order::Sensor => sensor_key(name),
        Order::File => {
            let (letters, number) = sensor_key(name);
            (
                letters,
                2 * number + if is_average(name) {
                    1nat
                } else {
                    0
                },
            )
        },
    }
}

/// By the text first, and then by the number.
pub open spec fn key_lt(a: (Seq<char>, nat), b: (Seq<char>, nat)) -> bool {
    lex_lt(a.0, b.0) || (a.0 == b.0 && a.1 < b.1)
}

/// Whether `a` is listed before `b`.
pub open spec fn before(a: Seq<char>, b: Seq<char>, by: Order) -> bool {
    key_lt(key(a, by), key(b, by))
}

pub proof fn lemma_lex_asymmetric(a: Seq<char>, b: Seq<char>)
    ensures
        !(lex_lt(a, b) && lex_lt(b, a)),
    decreases a.len(),
{
    if a.len() > 0 && b.len() > 0 && a[0] == b[0] {
        lemma_lex_asymmetric(a.skip(1), b.skip(1));
    }
}

pub proof fn lemma_lex_total(a: Seq<char>, b: Seq<char>)
    ensures
        lex_lt(a, b) || lex_lt(b, a) || a == b,
    decreases a.len(),
{
    if a.len() == 0 && b.len() == 0 {
        assert(a =~= b);
    } else if a.len() > 0 && b.len() > 0 && a[0] == b[0] {
        lemma_lex_total(a.skip(1), b.skip(1));
        if a.skip(1) == b.skip(1) {
            assert forall|i: int| 0 <= i < a.len() implies a[i] == b[i] by {
                if i > 0 {
                    assert(a[i] == a.skip(1)[i - 1]);
                    assert(b[i] == b.skip(1)[i - 1]);
                }
            }
            assert(a.len() == a.skip(1).len() + 1);
            assert(b.len() == b.skip(1).len() + 1);
            assert(a =~= b);
        }
    }
}

pub proof fn lemma_lex_transitive(a: Seq<char>, b: Seq<char>, c: Seq<char>)
    requires
        lex_lt(a, b),
        lex_lt(b, c),
    ensures
        lex_lt(a, c),
    decreases a.len(),
{
    if a.len() > 0 && a[0] == b[0] && b[0] == c[0] {
        lemma_lex_transitive(a.skip(1), b.skip(1), c.skip(1));
    }
}

/// Of two names at most one comes first, and where neither does their keys agree.
pub proof fn lemma_before(a: Seq<char>, b: Seq<char>, by: Order)
    ensures
        !(before(a, b, by) && before(b, a, by)),
        before(a, b, by) || before(b, a, by) || key(a, by) == key(b, by),
        key(a, by) == key(b, by) ==> !before(a, b, by),
{
    let (ka, kb) = (key(a, by), key(b, by));
    lemma_lex_asymmetric(ka.0, kb.0);
    lemma_lex_asymmetric(ka.0, ka.0);
    lemma_lex_total(ka.0, kb.0);
}

pub proof fn lemma_before_transitive(a: Seq<char>, b: Seq<char>, c: Seq<char>, by: Order)
    ensures
        before(a, b, by) && before(b, c, by) ==> before(a, c, by),
        !before(b, a, by) && !before(c, b, by) ==> !before(c, a, by),
{
    let (ka, kb, kc) = (key(a, by), key(b, by), key(c, by));
    lemma_before(a, b, by);
    lemma_before(b, c, by);
    lemma_before(a, c, by);
    if lex_lt(ka.0, kb.0) && lex_lt(kb.0, kc.0) {
        lemma_lex_transitive(ka.0, kb.0, kc.0);
    }
}

fn text_less(a: &str, b: &str) -> (r: bool)
    ensures
        r == lex_lt(a@, b@),
{
    let x = chars(a);
    let y = chars(b);
    let mut i: usize = 0;
    assert(x@.skip(0) =~= x@);
    assert(y@.skip(0) =~= y@);
    loop
        invariant
            i <= x@.len(),
            i <= y@.len(),
            x@ == a@,
            y@ == b@,
            lex_lt(x@.skip(i as int), y@.skip(i as int)) == lex_lt(a@, b@),
        decreases x@.len() - i,
    {
        if i == y.len() {
            return false;
        }
        if i == x.len() {
            return true;
        }
        assert(x@.skip(i as int)[0] == x@[i as int]);
        assert(y@.skip(i as int)[0] == y@[i as int]);
        if x[i] != y[i] {
            return x[i] < y[i];
        }
        assert(x@.skip(i as int).skip(1) =~= x@.skip(i + 1));
        assert(y@.skip(i as int).skip(1) =~= y@.skip(i + 1));
        i += 1;
    }
}

fn file_key(file: &str) -> (r: (String, u64))
    ensures
        r.0@ == key(file@, Order::File).0,
        r.1 == key(file@, Order::File).1,
{
    let (letters, number) = sensor_sort_key(file);
    let behind: u64 = if ends_with(file, "_average") {
        1
    } else {
        0
    };
    (letters, 2 * number as u64 + behind)
}

fn comes_before(a: &str, b: &str, by: Order) -> (r: bool)
    ensures
        r == before(a@, b@, by),
{
    match by {
        Order::Name => text_less(a, b),
        Order::Sensor => {
            let (s, m) = sensor_sort_key(a);
            let (t, n) = sensor_sort_key(b);
            text_less(s.as_str(), t.as_str()) || (same(s.as_str(), t.as_str()) && m < n)
        },
        Order::File => {
            let (s, m) = file_key(a);
            let (t, n) = file_key(b);
            text_less(s.as_str(), t.as_str()) || (same(s.as_str(), t.as_str()) && m < n)
        },
    }
}

// ---------------------------------------------------------------------------
// things that go by a name

/// A thing that goes by a name. A name goes by itself.
pub trait Labelled {
    spec fn label(&self) -> Seq<char>;
}

/// A thing whose name can be read.
pub trait Named: Labelled {
    fn called(&self) -> (r: &str)
        ensures
            r@ == self.label(),
    ;
}

impl Labelled for Seq<char> {
    open spec fn label(&self) -> Seq<char> {
        *self
    }
}

impl Labelled for String {
    open spec fn label(&self) -> Seq<char> {
        self@
    }
}

impl Named for String {
    fn called(&self) -> (r: &str) {
        self.as_str()
    }
}

/// A test that a name passes or not.
pub trait NameTest {
    spec fn passes(&self, name: Seq<char>) -> bool;

    fn test(&self, name: &str) -> (r: bool)
        ensures
            r == self.passes(name@),
    ;
}

/// All names.
pub struct AnyName;

impl NameTest for AnyName {
    open spec fn passes(&self, name: Seq<char>) -> bool {
        true
    }

    fn test(&self, name: &str) -> (r: bool) {
        true
    }
}

/// The names of a list of things.
pub open spec fn labels<T: Labelled>(items: Seq<T>) -> Seq<Seq<char>> {
    Seq::new(items.len(), |i: int| items[i].label())
}

// ---------------------------------------------------------------------------
// arrangements

/// A list in order with one more thing, behind those that do not come after it.
pub open spec fn placed<T: Labelled>(list: Seq<T>, x: T, by: Order) -> Seq<T>
    decreases list.len(),
{
    if list.len() == 0 || !before(x.label(), list.last().label(), by) {
        list.push(x)
    } else {
        placed(list.drop_last(), x, by).push(list.last())
    }
}

/// The things whose names pass a test, in the order of their names; things with
/// equal keys keep their places.
pub open spec fn arranged<T: Labelled, U: NameTest>(items: Seq<T>, test: U, by: Order) -> Seq<T>
    decreases items.len(),
{
    if items.len() == 0 {
        Seq::empty()
    } else if test.passes(items.last().label()) {
        placed(arranged(items.drop_last(), test, by), items.last(), by)
    } else {
        arranged(items.drop_last(), test, by)
    }
}

proof fn lemma_placed_at<T: Labelled>(list: Seq<T>, x: T, by: Order, at: int)
    requires
        0 <= at <= list.len(),
        forall|j: int| at <= j < list.len() ==> before(x.label(), (#[trigger] list[j]).label(), by),
        at > 0 ==> !before(x.label(), list[at - 1].label(), by),
    ensures
        placed(list, x, by) == list.insert(at, x),
    decreases list.len(),
{
    if at == list.len() {
        assert(list.insert(at, x) =~= list.push(x));
    } else {
        let front = list.drop_last();
        assert(before(x.label(), list[list.len() - 1].label(), by));
        assert forall|j: int| at <= j < front.len() implies before(
            x.label(),
            (#[trigger] front[j]).label(),
            by,
        ) by {
            assert(front[j] == list[j]);
        }
        lemma_placed_at(front, x, by, at);
        assert(front.insert(at, x).push(list.last()) =~= list.insert(at, x));
    }
}

/// The things that a list of places stands for.
spec fn picked<T>(items: Seq<T>, places: Seq<usize>) -> Seq<T> {
    Seq::new(places.len(), |i: int| items[places[i] as int])
}

/// Where the things of an arrangement stand in the list.
pub fn arrange<T: Named, U: NameTest>(items: &Vec<T>, test: &U, by: Order) -> (r: Vec<usize>)
    ensures
        r@.len() == arranged(items@, *test, by).len(),
        forall|i: int|
            0 <= i < r@.len() ==> (#[trigger] r@[i]) < items@.len() && items@[r@[i] as int]
                == arranged(items@, *test, by)[i],
{
    let n: usize = items.len();
    let ghost all = items@;
    let mut out: Vec<usize> = Vec::new();
    let mut i: usize = 0;
    assert(all.take(0) =~= Seq::<T>::empty());
    assert(picked(all, out@) =~= Seq::<T>::empty());
    while i < n
        invariant
            i <= n,
            n == items@.len(),
            all == items@,
            forall|j: int| 0 <= j < out@.len() ==> (#[trigger] out@[j]) < n,
            picked(all, out@) == arranged(all.take(i as int), *test, by),
        decreases n - i,
    {
        assert(all.take(i + 1).drop_last() =~= all.take(i as int));
        assert(all.take(i + 1).last() == all[i as int]);
        if test.test(items[i].called()) {
            let ghost list = picked(all, out@);
            let ghost places = out@;
            let mut at: usize = out.len();
            while at > 0 && comes_before(items[i].called(), items[out[at - 1]].called(), by)
                invariant
                    at <= out@.len(),
                    i < n,
                    n == items@.len(),
                    all == items@,
                    list == picked(all, out@),
                    forall|j: int| 0 <= j < out@.len() ==> (#[trigger] out@[j]) < n,
                    forall|j: int|
                        at <= j < list.len() ==> before(
                            all[i as int].label(),
                            (#[trigger] list[j]).label(),
                            by,
                        ),
                decreases at,
            {
                at -= 1;
            }
            out.insert(at, i);
            proof {
                lemma_placed_at(list, all[i as int], by, at as int);
                assert(out@ =~= places.insert(at as int, i));
                assert(picked(all, out@) =~= list.insert(at as int, all[i as int]));
            }
        }
        i += 1;
    }
    assert(all.take(n as int) =~= all);
    assert forall|i: int| 0 <= i < out@.len() implies (#[trigger] out@[i]) < items@.len()
        && items@[out@[i] as int] == arranged(items@, *test, by)[i] by {
        assert(picked(all, out@)[i] == all[out@[i] as int]);
    }
    out
}

/// The names of a list that pass a test, sorted.
pub fn sort<U: NameTest>(names: &Vec<String>, test: &U, by: Order) -> (r: Vec<String>)
    ensures
        r.deep_view() == arranged(names.deep_view(), *test, by),
{
    let order = arrange(names, test, by);
    let ghost all = arranged(names.deep_view(), *test, by);
    proof {
        law_arranged_names(names@, *test, by);
        assert(labels(names@) =~= names.deep_view());
    }
    let n: usize = order.len();
    let mut out: Vec<String> = Vec::new();
    let mut i: usize = 0;
    while i < n
        invariant
            i <= n,
            n == order@.len(),
            n == all.len(),
            all == labels(arranged(names@, *test, by)),
            forall|j: int|
                0 <= j < n ==> (#[trigger] order@[j]) < names@.len() && names@[order@[j] as int]
                    == arranged(names@, *test, by)[j],
            out.deep_view() =~= all.take(i as int),
        decreases n - i,
    {
        push_string(&mut out, owned(names[order[i]].as_str()));
        i += 1;
    }
    assert(out.deep_view() =~= all);
    out
}

// ---------------------------------------------------------------------------
// what arranging does

/// Nothing stands behind a thing that comes after it.
pub open spec fn in_order<T: Labelled>(list: Seq<T>, by: Order) -> bool {
    forall|i: int, j: int|
        0 <= i < j < list.len() ==> !before(
            (#[trigger] list[j]).label(),
            (#[trigger] list[i]).label(),
            by,
        )
}

proof fn lemma_placed_labels<T: Labelled>(list: Seq<T>, x: T, by: Order)
    ensures
        labels(placed(list, x, by)) == placed(labels(list), x.label(), by),
    decreases list.len(),
{
    if list.len() == 0 || !before(x.label(), list.last().label(), by) {
        assert(labels(list.push(x)) =~= labels(list).push(x.label()));
    } else {
        let front = list.drop_last();
        lemma_placed_labels(front, x, by);
        assert(labels(front) =~= labels(list).drop_last());
        assert(labels(placed(front, x, by).push(list.last())) =~= labels(
            placed(front, x, by),
        ).push(list.last().label()));
    }
}

/// To arrange things is to arrange their names.
pub proof fn law_arranged_names<T: Labelled, U: NameTest>(items: Seq<T>, test: U, by: Order)
    ensures
        labels(arranged(items, test, by)) == arranged(labels(items), test, by),
    decreases items.len(),
{
    if items.len() == 0 {
        assert(labels(arranged(items, test, by)) =~= Seq::<Seq<char>>::empty());
    } else {
        let front = items.drop_last();
        law_arranged_names(front, test, by);
        assert(labels(front) =~= labels(items).drop_last());
        assert(labels(items).last() == items.last().label());
        if test.passes(items.last().label()) {
            lemma_placed_labels(arranged(front, test, by), items.last(), by);
        }
    }
}

proof fn lemma_placed<T: Labelled>(list: Seq<T>, x: T, by: Order)
    requires
        in_order(list, by),
    ensures
        in_order(placed(list, x, by), by),
        placed(list, x, by).to_multiset() == list.to_multiset().insert(x),
    decreases list.len(),
{
    broadcast use vstd::seq_lib::group_to_multiset_ensures;

    let r = placed(list, x, by);
    if list.len() == 0 || !before(x.label(), list.last().label(), by) {
        assert forall|i: int, j: int| 0 <= i < j < r.len() implies !before(
            (#[trigger] r[j]).label(),
            (#[trigger] r[i]).label(),
            by,
        ) by {
            if j == list.len() {
                if i < list.len() - 1 {
                    assert(!before(list[list.len() - 1].label(), list[i].label(), by));
                }
                lemma_before_transitive(list[i].label(), list.last().label(), x.label(), by);
            } else {
                assert(!before(list[j].label(), list[i].label(), by));
            }
        }
    } else {
        let front = list.drop_last();
        let p = placed(front, x, by);
        assert forall|i: int, j: int| 0 <= i < j < front.len() implies !before(
            (#[trigger] front[j]).label(),
            (#[trigger] front[i]).label(),
            by,
        ) by {
            assert(!before(list[j].label(), list[i].label(), by));
        }
        lemma_placed(front, x, by);
        assert forall|i: int, j: int| 0 <= i < j < r.len() implies !before(
            (#[trigger] r[j]).label(),
            (#[trigger] r[i]).label(),
            by,
        ) by {
            if j == p.len() {
                assert(r[i] == p[i]);
                assert(p.contains(p[i]));
                assert(p.to_multiset().count(p[i]) > 0);
                if p[i] == x {
                    lemma_before(x.label(), list.last().label(), by);
                } else {
                    assert(front.to_multiset().count(p[i]) > 0);
                    assert(front.contains(p[i]));
                    let k = front.index_of(p[i]);
                    assert(!before(list[list.len() - 1].label(), list[k].label(), by));
                }
            } else {
                assert(!before(p[j].label(), p[i].label(), by));
            }
        }
        assert(list =~= front.push(list.last()));
        assert(r.to_multiset() =~= list.to_multiset().insert(x));
    }
}

/// An arrangement is in order, and holds the things whose names pass the test, as
/// often as the list does, and no others.
pub proof fn law_arranged<T: Labelled, U: NameTest>(items: Seq<T>, test: U, by: Order)
    ensures
        in_order(arranged(items, test, by), by),
        forall|x: T| #[trigger]
            arranged(items, test, by).to_multiset().count(x) == (if test.passes(x.label()) {
                items.to_multiset().count(x)
            } else {
                0
            }),
    decreases items.len(),
{
    broadcast use vstd::seq_lib::group_to_multiset_ensures;

    if items.len() > 0 {
        let front = items.drop_last();
        law_arranged(front, test, by);
        assert(items =~= front.push(items.last()));
        if test.passes(items.last().label()) {
            lemma_placed(arranged(front, test, by), items.last(), by);
        }
    }
}

proof fn lemma_placed_filter<T: Labelled>(list: Seq<T>, x: T, by: Order, keep: spec_fn(T) -> bool)
    requires
        in_order(list, by),
    ensures
        placed(list, x, by).filter(keep) == (if keep(x) {
            placed(list.filter(keep), x, by)
        } else {
            list.filter(keep)
        }),
    decreases list.len(),
{
    reveal(Seq::filter);
    if list.len() == 0 || !before(x.label(), list.last().label(), by) {
        assert(list.push(x).drop_last() =~= list);
        let kept = list.filter(keep);
        if keep(x) && kept.len() > 0 {
            assert(kept.contains(kept[kept.len() - 1]));
            list.lemma_filter_contains_rev(keep, kept.last());
            let i = list.index_of(kept.last());
            let n = list.len() - 1;
            if i < n {
                assert(!before(list[n].label(), list[i].label(), by));
                lemma_before_transitive(kept.last().label(), list.last().label(), x.label(), by);
            }
        }
    } else {
        let front = list.drop_last();
        assert forall|i: int, j: int| 0 <= i < j < front.len() implies !before(
            (#[trigger] front[j]).label(),
            (#[trigger] front[i]).label(),
            by,
        ) by {
            assert(!before(list[j].label(), list[i].label(), by));
        }
        lemma_placed_filter(front, x, by, keep);
        assert(placed(front, x, by).push(list.last()).drop_last() =~= placed(front, x, by));
        if keep(list.last()) {
            assert(front.filter(keep).push(list.last()).drop_last() =~= front.filter(keep));
        }
    }
}

/// Things may be left out before they are arranged or after.
pub proof fn law_arranged_filter<T: Labelled, U: NameTest>(
    items: Seq<T>,
    test: U,
    by: Order,
    keep: spec_fn(T) -> bool,
)
    ensures
        arranged(items.filter(keep), test, by) == arranged(items, test, by).filter(keep),
    decreases items.len(),
{
    reveal(Seq::filter);
    if items.len() > 0 {
        let front = items.drop_last();
        law_arranged_filter(front, test, by, keep);
        if test.passes(items.last().label()) {
            law_arranged(front, test, by);
            lemma_placed_filter(arranged(front, test, by), items.last(), by, keep);
        }
        if keep(items.last()) {
            assert(front.filter(keep).push(items.last()).drop_last() =~= front.filter(keep));
        }
    }
}

/// Things with equal keys come out in the order in which they went in.
pub proof fn law_arranged_stable<T: Labelled, U: NameTest>(
    items: Seq<T>,
    test: U,
    by: Order,
    k: (Seq<char>, nat),
)
    ensures
        arranged(items, test, by).filter(|x: T| key(x.label(), by) == k) == items.filter(
            |x: T| test.passes(x.label()) && key(x.label(), by) == k,
        ),
    decreases items.len(),
{
    reveal(Seq::filter);
    if items.len() > 0 {
        let front = items.drop_last();
        let x = items.last();
        let keep = |x: T| key(x.label(), by) == k;
        law_arranged_stable(front, test, by, k);
        if test.passes(x.label()) {
            let list = arranged(front, test, by);
            let kept = list.filter(keep);
            law_arranged(front, test, by);
            lemma_placed_filter(list, x, by, keep);
            if keep(x) && kept.len() > 0 {
                list.lemma_filter_pred(keep, kept.len() - 1);
                lemma_before(x.label(), kept.last().label(), by);
            }
        }
    }
}

/// Two lists in order are the same where they hold the same things and no two
/// different things share a key.
pub proof fn lemma_order_unique<T: Labelled>(a: Seq<T>, b: Seq<T>, by: Order)
    requires
        in_order(a, by),
        in_order(b, by),
        a.to_multiset() == b.to_multiset(),
        forall|i: int, j: int|
            0 <= i < a.len() && 0 <= j < a.len() && key((#[trigger] a[i]).label(), by) == key(
                (#[trigger] a[j]).label(),
                by,
            ) ==> a[i] == a[j],
    ensures
        a == b,
    decreases a.len(),
{
    broadcast use vstd::seq_lib::group_to_multiset_ensures;

    assert(a.len() == a.to_multiset().len());
    assert(b.len() == b.to_multiset().len());
    if a.len() == 0 {
        assert(a =~= b);
    } else {
        let n = a.len() - 1;
        let (x, y) = (a.last(), b.last());
        let (fa, fb) = (a.drop_last(), b.drop_last());
        assert(a.contains(a[n]));
        assert(b.to_multiset().count(x) > 0);
        assert(b.contains(x));
        assert(b.contains(b[n]));
        assert(a.to_multiset().count(y) > 0);
        assert(a.contains(y));
        let i = a.index_of(y);
        let j = b.index_of(x);
        if x != y {
            assert(!before(a[n].label(), a[i].label(), by));
            assert(!before(b[n].label(), b[j].label(), by));
            lemma_before(x.label(), y.label(), by);
            assert(key(a[n].label(), by) == key(a[i].label(), by));
        }
        assert(a =~= fa.push(x));
        assert(b =~= fb.push(x));
        assert(fa.to_multiset() =~= a.to_multiset().remove(x));
        assert(fb.to_multiset() =~= b.to_multiset().remove(x));
        assert forall|i: int, j: int| 0 <= i < j < fa.len() implies !before(
            (#[trigger] fa[j]).label(),
            (#[trigger] fa[i]).label(),
            by,
        ) by {
            assert(!before(a[j].label(), a[i].label(), by));
        }
        assert forall|i: int, j: int| 0 <= i < j < fb.len() implies !before(
            (#[trigger] fb[j]).label(),
            (#[trigger] fb[i]).label(),
            by,
        ) by {
            assert(!before(b[j].label(), b[i].label(), by));
        }
        assert forall|i: int, j: int|
            0 <= i < fa.len() && 0 <= j < fa.len() && key((#[trigger] fa[i]).label(), by) == key(
                (#[trigger] fa[j]).label(),
                by,
            ) implies fa[i] == fa[j] by {
            assert(a[i] == fa[i] && a[j] == fa[j]);
        }
        lemma_order_unique(fa, fb, by);
    }
}

// ---------------------------------------------------------------------------
// what the orders mean

/// Texts are compared at the first place where they differ; of two texts, one of
/// which starts the other, the shorter comes first.
pub proof fn law_text_order(p: Seq<char>, x: char, a: Seq<char>, y: char, b: Seq<char>)
    ensures
        x < y ==> lex_lt(p + seq![x] + a, p + seq![y] + b),
        lex_lt(p, p + seq![y] + b),
        !lex_lt(p, p),
        before(p, a, Order::Name) == lex_lt(p, a),
    decreases p.len(),
{
    let (s, t) = (p + seq![x] + a, p + seq![y] + b);
    lemma_lex_asymmetric(p, p);
    lemma_lex_asymmetric(a, p);
    if p.len() > 0 {
        let q = p.skip(1);
        law_text_order(q, x, a, y, b);
        assert(s.skip(1) =~= q + seq![x] + a);
        assert(t.skip(1) =~= q + seq![y] + b);
        assert(s[0] == p[0] && t[0] == p[0]);
    }
}

/// The key of a sensor: the letters in front of its number, and the number. A name
/// without a number has zero.
pub proof fn law_sensor_key(letters: Seq<char>, n: nat, rest: Seq<char>)
    requires
        forall|i: int|
            0 <= i < letters.len() ==> !is_digit(#[trigger] letters[i]) && letters[i] != '_',
        n <= u32::MAX,
        rest.len() > 0 ==> rest[0] == '_',
    ensures
        sensor_key(letters + decimal(n) + rest) == (letters, n),
        sensor_key(letters + rest) == (letters, 0nat),
{
    law_decimal_digits(n);
    law_decimal_reads_back(n, u32::MAX as nat);
    lemma_key_of(letters, decimal(n), rest);
    lemma_key_of(letters, Seq::empty(), rest);
    law_no_number(n, u32::MAX as nat, Seq::empty(), 0);
    assert(letters + Seq::<char>::empty() + rest =~= letters + rest);
}

proof fn lemma_key_of(letters: Seq<char>, digits: Seq<char>, rest: Seq<char>)
    requires
        forall|i: int|
            0 <= i < letters.len() ==> !is_digit(#[trigger] letters[i]) && letters[i] != '_',
        forall|i: int| 0 <= i < digits.len() ==> is_digit(#[trigger] digits[i]),
        rest.len() > 0 ==> rest[0] == '_',
    ensures
        sensor_key(letters + digits + rest).0 == letters,
        sensor_key(letters + digits + rest).1 == (match number(digits, u32::MAX as nat) {
            Some(n) => n,
            None => 0,
        }),
{
    let file = letters + digits + rest;
    let stem = letters + digits;
    let n = stem.len() as int;
    assert forall|i: int| 0 <= i < n implies #[trigger] file[i] != '_' by {
        if i < letters.len() {
            assert(file[i] == letters[i]);
        } else {
            assert(file[i] == digits[i - letters.len()]);
        }
    }
    if rest.len() > 0 {
        assert(file[n] == rest[0]);
    }
    lemma_find_char_is(file, '_', n);
    assert(file.take(n) =~= stem);
    let at = letters.len() as int;
    assert forall|i: int| 0 <= i < at implies in_class(#[trigger] stem[i], CharClass::Digit)
        == false by {
        assert(stem[i] == letters[i]);
    }
    if digits.len() > 0 {
        assert(stem[at] == digits[0]);
    }
    lemma_run_is(stem, CharClass::Digit, false, at);
    assert(stem.take(at) =~= letters);
    assert(stem.skip(at) =~= digits);
}

/// Sensors of one kind are listed by their numbers, not by their digits, and kinds by
/// their names. Of a sensor's files the average comes last.
pub proof fn law_sensor_order(letters: Seq<char>, m: nat, n: nat, r: Seq<char>, t: Seq<char>)
    requires
        forall|i: int|
            0 <= i < letters.len() ==> !is_digit(#[trigger] letters[i]) && letters[i] != '_',
        m <= u32::MAX,
        n <= u32::MAX,
        r.len() > 0 ==> r[0] == '_',
        t.len() > 0 ==> t[0] == '_',
    ensures
        ({
            let (a, b) = (letters + decimal(m) + r, letters + decimal(n) + t);
            &&& before(a, b, Order::Sensor) <==> m < n
            &&& m < n ==> before(a, b, Order::File)
            &&& m == n && is_average(b) && !is_average(a) ==> before(a, b, Order::File)
            &&& m == n && is_average(a) == is_average(b) ==> !before(a, b, Order::File)
        }),
{
    law_sensor_key(letters, m, r);
    law_sensor_key(letters, n, t);
    lemma_lex_asymmetric(letters, letters);
}

/// Files of averages end in `_average`.
pub proof fn law_average_files(s: Seq<char>)
    ensures
        is_average(s + "_average"@),
        !is_average(s + "_input"@),
        is_average(s) ==> exists|t: Seq<char>| s == #[trigger] (t + "_average"@),
{
    reveal_strlit("_input");
    reveal_strlit("_average");
    let a = s + "_average"@;
    assert(a.subrange(a.len() - 8, a.len() as int) =~= "_average"@);
    let b = s + "_input"@;
    if is_average(b) {
        assert(b.subrange(b.len() - 8, b.len() as int)[7] == 't');
        assert("_average"@[7] == 'e');
    }
    if is_average(s) {
        let t = s.take(s.len() - 8);
        assert(s =~= t + "_average"@);
    }
}

/// An arrangement has as many things as there are names that pass the test.
pub proof fn law_arranged_len<T: Labelled, U: NameTest>(items: Seq<T>, test: U, by: Order)
    ensures
        arranged(items, test, by).len() == items.filter(|x: T| test.passes(x.label())).len(),
    decreases items.len(),
{
    reveal(Seq::filter);
    if items.len() > 0 {
        law_arranged_len(items.drop_last(), test, by);
        if test.passes(items.last().label()) {
            lemma_placed_len(arranged(items.drop_last(), test, by), items.last(), by);
        }
    }
}

proof fn lemma_placed_len<T: Labelled>(list: Seq<T>, x: T, by: Order)
    ensures
        placed(list, x, by).len() == list.len() + 1,
    decreases list.len(),
{
    if list.len() > 0 && before(x.label(), list.last().label(), by) {
        lemma_placed_len(list.drop_last(), x, by);
    }
}

/// Each thing whose name passes the test stands in the arrangement, and nothing stands
/// there that is not in the list.
pub proof fn law_arranged_contains<T: Labelled, U: NameTest>(
    items: Seq<T>,
    test: U,
    by: Order,
    x: T,
)
    ensures
        arranged(items, test, by).contains(x) <==> items.contains(x) && test.passes(x.label()),
{
    broadcast use vstd::seq_lib::group_to_multiset_ensures;

    law_arranged(items, test, by);
    assert(items.to_multiset().count(x) > 0 <==> items.contains(x));
    assert(arranged(items, test, by).to_multiset().count(x) > 0 <==> arranged(
        items,
        test,
        by,
    ).contains(x));
}

/// Names arranged as such stand in the order of their characters.
pub proof fn lemma_by_name<U: NameTest>(names: Seq<Seq<char>>, test: U)
    ensures
        forall|i: int, j: int|
            0 <= i < j < arranged(names, test, Order::Name).len() ==> !lex_lt(
                #[trigger] arranged(names, test, Order::Name)[j],
                #[trigger] arranged(names, test, Order::Name)[i],
            ),
{
    let list = arranged(names, test, Order::Name);
    law_arranged(names, test, Order::Name);
    assert forall|i: int, j: int| 0 <= i < j < list.len() implies !lex_lt(
        #[trigger] list[j],
        #[trigger] list[i],
    ) by {
        assert(!before(list[j].label(), list[i].label(), Order::Name));
    }
}

/// A list of things in the strict order of their names is the arrangement of any list of
/// the same things.
pub proof fn lemma_order_by_name<T: Labelled, U: NameTest>(items: Seq<T>, test: U, order: Seq<T>)
    requires
        forall|i: int, j: int|
            0 <= i < j < order.len() ==> lex_lt(
                (#[trigger] order[i]).label(),
                (#[trigger] order[j]).label(),
            ),
        order.to_multiset() == items.filter(|x: T| test.passes(x.label())).to_multiset(),
    ensures
        arranged(items, test, Order::Name) == order,
{
    broadcast use vstd::seq_lib::group_to_multiset_ensures;

    let by = Order::Name;
    let keep = |x: T| test.passes(x.label());
    let list = arranged(items, test, by);
    law_arranged(items, test, by);
    assert forall|i: int, j: int| 0 <= i < j < order.len() implies !before(
        (#[trigger] order[j]).label(),
        (#[trigger] order[i]).label(),
        by,
    ) by {
        assert(lex_lt(order[i].label(), order[j].label()));
        lemma_before(order[i].label(), order[j].label(), by);
    }
    assert forall|i: int, j: int|
        0 <= i < order.len() && 0 <= j < order.len() && key((#[trigger] order[i]).label(), by)
            == key((#[trigger] order[j]).label(), by) implies order[i] == order[j] by {
        lemma_lex_asymmetric(order[i].label(), order[i].label());
        if i < j {
            assert(lex_lt(order[i].label(), order[j].label()));
        } else if j < i {
            assert(lex_lt(order[j].label(), order[i].label()));
        }
    }
    assert forall|x: T| order.to_multiset().count(x) == list.to_multiset().count(x) by {
        lemma_kept_count(items, keep, x);
        assert(list.to_multiset().count(x) == (if test.passes(x.label()) {
            items.to_multiset().count(x)
        } else {
            0
        }));
    }
    assert(order.to_multiset() =~= list.to_multiset());
    lemma_order_unique(order, list, by);
}

pub proof fn lemma_kept_count<T>(s: Seq<T>, keep: spec_fn(T) -> bool, x: T)
    ensures
        s.filter(keep).to_multiset().count(x) == (if keep(x) {
            s.to_multiset().count(x)
        } else {
            0
        }),
    decreases s.len(),
{
    broadcast use vstd::seq_lib::group_to_multiset_ensures;

    reveal(Seq::filter);
    if s.len() > 0 {
        lemma_kept_count(s.drop_last(), keep, x);
        assert(s =~= s.drop_last().push(s.last()));
    }
}

} // verus!
