//! Columns and lists.

use vstd::prelude::*;

use crate::text::{chars, owned};

verus! {

/// `n` copies of a character.
pub open spec fn repeated(c: char, n: nat) -> Seq<char> {
    Seq::new(n, |i: int| c)
}

/// Appends `n` copies of a character.
pub fn push_repeated(s: &mut String, c: char, n: usize)
    ensures
        final(s)@ == old(s)@ + repeated(c, n as nat),
{
    let mut i: usize = 0;
    assert(s@ =~= old(s)@ + repeated(c, 0));
    while i < n
        invariant
            i <= n,
            s@ == old(s)@ + repeated(c, i as nat),
        decreases n - i,
    {
        let ghost before = s@;
        s.push(c);
        i += 1;
        assert(s@ =~= old(s)@ + repeated(c, i as nat));
    }
}

/// How many characters are missing to the given width.
pub open spec fn gap(s: Seq<char>, width: nat) -> nat {
    if s.len() < width {
        (width - s.len()) as nat
    } else {
        0
    }
}

/// Left aligned in a column of at least `width` characters.
pub open spec fn left(s: Seq<char>, width: nat) -> Seq<char> {
    s + repeated(' ', gap(s, width))
}

/// Right aligned in a column of at least `width` characters.
pub open spec fn right(s: Seq<char>, width: nat) -> Seq<char> {
    repeated(' ', gap(s, width)) + s
}

pub fn pad_right(s: &str, width: usize) -> (r: String)
    ensures
        r@ == left(s@, width as nat),
{
    let n: usize = chars(s).len();
    let mut r = owned(s);
    let missing: usize = if n < width {
        width - n
    } else {
        0
    };
    push_repeated(&mut r, ' ', missing);
    r
}

pub fn pad_left(s: &str, width: usize) -> (r: String)
    ensures
        r@ == right(s@, width as nat),
{
    let n: usize = chars(s).len();
    let mut r = String::new();
    let missing: usize = if n < width {
        width - n
    } else {
        0
    };
    push_repeated(&mut r, ' ', missing);
    r.append(s);
    assert(r@ =~= right(s@, width as nat));
    r
}

/// The texts of a list with a separator between each two.
pub open spec fn join(list: Seq<Seq<char>>, sep: Seq<char>) -> Seq<char>
    decreases list.len(),
{
    if list.len() == 0 {
        Seq::empty()
    } else if list.len() == 1 {
        list[0]
    } else {
        join(list.drop_last(), sep) + sep + list.last()
    }
}

pub fn join_list(list: &Vec<String>, sep: &str) -> (r: String)
    ensures
        r@ == join(list.deep_view(), sep@),
{
    let mut r = String::new();
    let n: usize = list.len();
    let mut i: usize = 0;
    let ghost all = list.deep_view();
    assert(all.take(0) =~= Seq::<Seq<char>>::empty());
    while i < n
        invariant
            i <= n,
            n == list@.len(),
            all == list.deep_view(),
            r@ == join(all.take(i as int), sep@),
        decreases n - i,
    {
        assert(all.take(i + 1).drop_last() =~= all.take(i as int));
        if i > 0 {
            r.append(sep);
        }
        r.append(list[i].as_str());
        i += 1;
        assert(r@ =~= join(all.take(i as int), sep@));
    }
    assert(all.take(n as int) =~= all);
    r
}

/// A column is as wide as asked or as the text, holds the text at its edge, and is
/// blank otherwise.
pub proof fn law_columns(s: Seq<char>, width: nat)
    ensures
        left(s, width).len() == (if s.len() < width {
            width
        } else {
            s.len()
        }),
        right(s, width).len() == left(s, width).len(),
        left(s, width).take(s.len() as int) == s,
        right(s, width).skip(right(s, width).len() - s.len()) == s,
        forall|i: int|
            s.len() <= i < left(s, width).len() ==> #[trigger] left(s, width)[i] == ' ',
        forall|i: int|
            0 <= i < right(s, width).len() - s.len() ==> #[trigger] right(s, width)[i] == ' ',
{
    assert(left(s, width).take(s.len() as int) =~= s);
    assert(right(s, width).skip(right(s, width).len() - s.len()) =~= s);
}

/// Between each two texts of a joined list stands the separator, and nowhere else.
pub proof fn law_joined(a: Seq<Seq<char>>, b: Seq<Seq<char>>, s: Seq<char>, sep: Seq<char>)
    ensures
        join(Seq::empty(), sep) == Seq::<char>::empty(),
        join(seq![s], sep) == s,
        a.len() > 0 && b.len() > 0 ==> join(a + b, sep) == join(a, sep) + sep + join(b, sep),
    decreases b.len(),
{
    if a.len() > 0 && b.len() > 0 {
        assert((a + b).drop_last() =~= a + b.drop_last());
        assert((a + b).last() == b.last());
        if b.len() == 1 {
            assert(a + b.drop_last() =~= a);
        } else {
            law_joined(a, b.drop_last(), s, sep);
            assert(join(a + b, sep) =~= join(a, sep) + sep + join(b, sep));
        }
    }
}

/// Copies of a character are as many as asked, and all the same.
pub proof fn law_repeated(c: char, n: nat)
    ensures
        repeated(c, n).len() == n,
        forall|i: int| 0 <= i < n ==> #[trigger] repeated(c, n)[i] == c,
{
}

} // verus!
