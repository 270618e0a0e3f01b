//! Tables with one row for each name.

use vstd::prelude::*;

use crate::names::{arranged, before, in_order, law_arranged, lemma_before, lemma_lex_total, lex_lt, AnyName, Labelled, NameTest, Order};
use crate::text::{owned, push_string, same};

verus! {

/// A table keyed by name. No name has two rows.
pub struct NameTable<V> {
    pub rows: Vec<(String, V)>,
}

/// The map that a list of rows stands for; of two rows for a name the later counts.
pub open spec fn row_map<T>(rows: Seq<(Seq<char>, T)>) -> Map<Seq<char>, T>
    decreases rows.len(),
{
    if rows.len() == 0 {
        Map::empty()
    } else {
        row_map(rows.drop_last()).insert(rows.last().0, rows.last().1)
    }
}

pub open spec fn distinct<T>(rows: Seq<(Seq<char>, T)>) -> bool {
    forall|i: int, j: int|
        0 <= i < j < rows.len() ==> (#[trigger] rows[i]).0 != (#[trigger] rows[j]).0
}

/// The names of the rows.
pub open spec fn row_names<T>(rows: Seq<(Seq<char>, T)>) -> Seq<Seq<char>> {
    Seq::new(rows.len(), |i: int| rows[i].0)
}

proof fn lemma_row_map_has<T>(rows: Seq<(Seq<char>, T)>, k: Seq<char>)
    ensures
        row_map(rows).contains_key(k) <==> exists|i: int|
            0 <= i < rows.len() && (#[trigger] rows[i]).0 == k,
    decreases rows.len(),
{
    if rows.len() > 0 {
        let front = rows.drop_last();
        lemma_row_map_has(front, k);
        if row_map(front).contains_key(k) {
            let i = choose|i: int| 0 <= i < front.len() && (#[trigger] front[i]).0 == k;
            assert(rows[i].0 == k);
        }
        if rows.last().0 == k {
            assert(rows[rows.len() - 1].0 == k);
        }
        if exists|i: int| 0 <= i < rows.len() && (#[trigger] rows[i]).0 == k {
            let i = choose|i: int| 0 <= i < rows.len() && (#[trigger] rows[i]).0 == k;
            if i < front.len() {
                assert(front[i].0 == k);
            }
        }
    }
}

proof fn lemma_row_map_at<T>(rows: Seq<(Seq<char>, T)>, i: int)
    requires
        distinct(rows),
        0 <= i < rows.len(),
    ensures
        row_map(rows).contains_key(rows[i].0),
        row_map(rows)[rows[i].0] == rows[i].1,
    decreases rows.len(),
{
    let front = rows.drop_last();
    if i < front.len() {
        assert(distinct(front));
        lemma_row_map_at(front, i);
        assert(rows[i].0 != rows[rows.len() - 1].0);
        assert(front[i] == rows[i]);
    }
}

proof fn lemma_row_map_update<T>(rows: Seq<(Seq<char>, T)>, i: int, v: T)
    requires
        distinct(rows),
        0 <= i < rows.len(),
    ensures
        distinct(rows.update(i, (rows[i].0, v))),
        row_map(rows.update(i, (rows[i].0, v))) == row_map(rows).insert(rows[i].0, v),
    decreases rows.len(),
{
    let next = rows.update(i, (rows[i].0, v));
    let k = rows[i].0;
    assert forall|a: int, b: int| 0 <= a < b < next.len() implies (#[trigger] next[a]).0 != (
    #[trigger] next[b]).0 by {
        assert(next[a].0 == rows[a].0);
        assert(next[b].0 == rows[b].0);
    }
    let front = rows.drop_last();
    if i == rows.len() - 1 {
        assert(next.drop_last() =~= front);
        assert(row_map(next) =~= row_map(rows).insert(k, v));
    } else {
        assert(distinct(front));
        lemma_row_map_update(front, i, v);
        assert(next.drop_last() =~= front.update(i, (front[i].0, v)));
        assert(rows[i].0 != rows[rows.len() - 1].0);
        assert(row_map(next) =~= row_map(rows).insert(k, v));
    }
}

impl<V: DeepView> NameTable<V> {
    pub open spec fn wf(&self) -> bool {
        distinct(self.rows.deep_view())
    }

    pub open spec fn view(&self) -> Map<Seq<char>, V::V> {
        row_map(self.rows.deep_view())
    }

    pub fn new() -> (r: Self)
        ensures
            r.wf(),
            r@ == Map::<Seq<char>, V::V>::empty(),
    {
        let r = NameTable { rows: Vec::new() };
        assert(r.rows.deep_view() =~= Seq::empty());
        r
    }

    /// The row of a name.
    fn find(&self, name: &str) -> (r: Option<usize>)
        ensures
            match r {
                Some(i) => i < self.rows@.len() && self.rows.deep_view()[i as int].0 == name@,
                None => forall|i: int|
                    0 <= i < self.rows@.len() ==> (#[trigger] self.rows.deep_view()[i]).0
                        != name@,
            },
    {
        let n: usize = self.rows.len();
        let mut i: usize = 0;
        while i < n
            invariant
                i <= n,
                n == self.rows@.len(),
                forall|j: int|
                    0 <= j < i ==> (#[trigger] self.rows.deep_view()[j]).0 != name@,
            decreases n - i,
        {
            if same(self.rows[i].0.as_str(), name) {
                return Some(i);
            }
            i += 1;
        }
        None
    }

    /// Sets the value of a name.
    pub fn insert(&mut self, name: String, value: V)
        requires
            old(self).wf(),
        ensures
            final(self).wf(),
            final(self)@ == old(self)@.insert(name@, value.deep_view()),
    {
        let ghost rows = self.rows.deep_view();
        match self.find(name.as_str()) {
            Some(i) => {
                self.rows[i] = (name, value);
                proof {
                    lemma_row_map_update(rows, i as int, value.deep_view());
                    assert(self.rows.deep_view() =~= rows.update(
                        i as int,
                        (rows[i as int].0, value.deep_view()),
                    ));
                }
            },
            None => {
                self.rows.push((name, value));
                proof {
                    let next = self.rows.deep_view();
                    assert(next =~= rows.push((name@, value.deep_view())));
                    assert(next.drop_last() =~= rows);
                    assert forall|a: int, b: int| 0 <= a < b < next.len() implies (
                    #[trigger] next[a]).0 != (#[trigger] next[b]).0 by {
                        assert(next[a] == rows[a]);
                        if b < rows.len() {
                            assert(next[b] == rows[b]);
                        }
                    }
                }
            },
        }
    }

    /// The value of a name.
    pub fn get(&self, name: &str) -> (r: Option<&V>)
        requires
            self.wf(),
        ensures
            match r {
                Some(v) => self@.contains_key(name@) && self@[name@] == v.deep_view(),
                None => !self@.contains_key(name@),
            },
    {
        match self.find(name) {
            Some(i) => {
                proof {
                    lemma_row_map_at(self.rows.deep_view(), i as int);
                }
                Some(&self.rows[i].1)
            },
            None => {
                proof {
                    lemma_row_map_has(self.rows.deep_view(), name@);
                }
                None
            },
        }
    }

    /// The names that have a row, each once.
    pub fn names(&self) -> (r: Vec<String>)
        requires
            self.wf(),
        ensures
            r.deep_view().no_duplicates(),
            forall|k: Seq<char>|
                r.deep_view().contains(k) <==> #[trigger] self@.contains_key(k),
    {
        let n: usize = self.rows.len();
        let mut out: Vec<String> = Vec::new();
        let ghost rows = self.rows.deep_view();
        let mut i: usize = 0;
        while i < n
            invariant
                i <= n,
                n == self.rows@.len(),
                rows == self.rows.deep_view(),
                out.deep_view() =~= row_names(rows).take(i as int),
            decreases n - i,
        {
            let name = owned(self.rows[i].0.as_str());
            push_string(&mut out, name);
            i += 1;
        }
        proof {
            let list = out.deep_view();
            assert(list =~= row_names(rows));
            assert forall|a: int, b: int| 0 <= a < list.len() && 0 <= b < list.len() && a
                != b implies list[a] != list[b] by {
                if a < b {
                    assert(rows[a].0 != rows[b].0);
                } else {
                    assert(rows[b].0 != rows[a].0);
                }
            }
            assert forall|k: Seq<char>| list.contains(k) <==> #[trigger] self@.contains_key(k) by {
                lemma_row_map_has(rows, k);
                if list.contains(k) {
                    let a = list.index_of(k);
                    assert(rows[a].0 == k);
                }
                if self@.contains_key(k) {
                    let a = choose|a: int| 0 <= a < rows.len() && (#[trigger] rows[a]).0 == k;
                    assert(list[a] == k);
                }
            }
        }
        out
    }
}

// ---------------------------------------------------------------------------
// a set of names as a list

/// Whether a list holds exactly the names of a set, each once, in order.
pub open spec fn lists(list: Seq<Seq<char>>, set: Set<Seq<char>>) -> bool {
    &&& list.no_duplicates()
    &&& in_order(list, Order::Name)
    &&& forall|k: Seq<char>| list.contains(k) <==> #[trigger] set.contains(k)
}

/// The names of a set in order.
pub open spec fn listed(set: Set<Seq<char>>) -> Seq<Seq<char>> {
    choose|list: Seq<Seq<char>>| lists(list, set)
}

/// There is only one way to list a set in order.
pub proof fn lemma_lists_unique(a: Seq<Seq<char>>, b: Seq<Seq<char>>, set: Set<Seq<char>>)
    requires
        lists(a, set),
        lists(b, set),
    ensures
        a == b,
    decreases a.len(),
{
    if a.len() == 0 {
        if b.len() > 0 {
            assert(b.contains(b[0]));
            assert(set.contains(b[0]));
        }
        assert(a =~= b);
    } else {
        let x = a.last();
        assert(a.contains(a[a.len() - 1]));
        assert(set.contains(x));
        assert(b.contains(x));
        let y = b.last();
        assert(b.contains(b[b.len() - 1]));
        assert(set.contains(y));
        assert(a.contains(y));
        if x != y {
            let i = a.index_of(y);
            let j = b.index_of(x);
            assert(!before(a[a.len() - 1], a[i], Order::Name));
            assert(!before(b[b.len() - 1], b[j], Order::Name));
            lemma_before(x, y, Order::Name);
            assert(false);
        }
        let rest = set.remove(x);
        lemma_lists_front(a, set);
        lemma_lists_front(b, set);
        lemma_lists_unique(a.drop_last(), b.drop_last(), rest);
        assert(a =~= a.drop_last().push(x));
        assert(b =~= b.drop_last().push(x));
    }
}

proof fn lemma_lists_front(a: Seq<Seq<char>>, set: Set<Seq<char>>)
    requires
        lists(a, set),
        a.len() > 0,
    ensures
        lists(a.drop_last(), set.remove(a.last())),
{
    let front = a.drop_last();
    let rest = set.remove(a.last());
    assert forall|i: int, j: int| 0 <= i < j < front.len() implies !before(
        #[trigger] front[j],
        #[trigger] front[i],
        Order::Name,
    ) by {
        assert(!before(a[j], a[i], Order::Name));
    }
    assert forall|k: Seq<char>| front.contains(k) <==> #[trigger] rest.contains(k) by {
        if front.contains(k) {
            let i = front.index_of(k);
            assert(a[i] == k);
            assert(a[i] != a[a.len() - 1]);
            assert(a.contains(k));
            assert(set.contains(k));
        }
        if rest.contains(k) {
            assert(set.contains(k));
            let i = a.index_of(k);
            assert(front[i] == k);
        }
    }
}

/// A list that holds exactly the names of a set in order is the listing of the set.
pub proof fn lemma_listed(list: Seq<Seq<char>>, set: Set<Seq<char>>)
    requires
        lists(list, set),
    ensures
        listed(set) == list,
{
    lemma_lists_unique(listed(set), list, set);
}

/// Sorting the names of a list without duplicates that pass a test lists their set.
pub proof fn lemma_arranged_lists<U: NameTest>(
    names: Seq<Seq<char>>,
    test: U,
    set: Set<Seq<char>>,
)
    requires
        names.no_duplicates(),
        forall|k: Seq<char>|
            names.contains(k) && test.passes(k) <==> #[trigger] set.contains(k),
    ensures
        lists(arranged(names, test, Order::Name), set),
{
    broadcast use vstd::seq_lib::group_to_multiset_ensures;

    let s = arranged(names, test, Order::Name);
    law_arranged(names, test, Order::Name);
    names.lemma_multiset_has_no_duplicates();
    assert forall|k: Seq<char>| s.contains(k) <==> #[trigger] set.contains(k) by {
        assert(s.to_multiset().count(k) > 0 <==> s.contains(k));
        assert(names.to_multiset().count(k) > 0 <==> names.contains(k));
    }
    assert forall|k: Seq<char>| s.to_multiset().contains(k) implies s.to_multiset().count(k)
        == 1 by {
        assert(names.to_multiset().contains(k));
    }
    s.lemma_multiset_has_no_duplicates_conv();
}

/// The listing of a finite set holds exactly its names, each once, in order.
pub proof fn law_listed(set: Set<Seq<char>>)
    requires
        set.finite(),
    ensures
        lists(listed(set), set),
{
    let s = lemma_enumerated(set);
    lemma_arranged_lists(s, AnyName, set);
}

proof fn lemma_enumerated(set: Set<Seq<char>>) -> (s: Seq<Seq<char>>)
    requires
        set.finite(),
    ensures
        s.no_duplicates(),
        forall|k: Seq<char>| s.contains(k) <==> #[trigger] set.contains(k),
    decreases set.len(),
{
    if set.len() == 0 {
        let s = Seq::<Seq<char>>::empty();
        assert forall|k: Seq<char>| s.contains(k) <==> #[trigger] set.contains(k) by {
            if set.contains(k) {
                assert(set.remove(k).len() < set.len());
            }
        }
        s
    } else {
        let x = set.choose();
        let rest = lemma_enumerated(set.remove(x));
        let s = rest.push(x);
        assert(!set.remove(x).contains(x));
        assert(!rest.contains(x));
        assert forall|k: Seq<char>| s.contains(k) <==> #[trigger] set.contains(k) by {
            if set.contains(k) {
                if k == x {
                    assert(s[rest.len() as int] == k);
                } else {
                    assert(set.remove(x).contains(k));
                    let i = rest.index_of(k);
                    assert(s[i] == k);
                }
            }
            if s.contains(k) {
                let i = s.index_of(k);
                if i < rest.len() {
                    assert(rest[i] == k);
                    assert(rest.contains(k));
                    assert(set.remove(x).contains(k));
                }
            }
        }
        assert forall|a: int, b: int| 0 <= a < s.len() && 0 <= b < s.len() && a
            != b implies s[a] != s[b] by {
            if a == rest.len() {
                assert(rest.contains(rest[b]));
            }
            if b == rest.len() {
                assert(rest.contains(rest[a]));
            }
        }
        s
    }
}

/// A table holds finitely many names.
pub proof fn lemma_row_map_finite<T>(rows: Seq<(Seq<char>, T)>)
    ensures
        row_map(rows).dom().finite(),
    decreases rows.len(),
{
    if rows.len() > 0 {
        lemma_row_map_finite(rows.drop_last());
        assert(row_map(rows).dom() =~= row_map(rows.drop_last()).dom().insert(rows.last().0));
    }
}

/// The names of a set that is listed in order ascend.
pub proof fn law_names_ascend(list: Seq<Seq<char>>, i: int, j: int)
    requires
        list.no_duplicates(),
        in_order(list, Order::Name),
        0 <= i < j < list.len(),
    ensures
        lex_lt(list[i], list[j]),
{
    assert(!before(list[j].label(), list[i].label(), Order::Name));
    lemma_before(list[i], list[j], Order::Name);
    lemma_lex_total(list[i], list[j]);
    assert(list[i] != list[j]);
}

} // verus!
