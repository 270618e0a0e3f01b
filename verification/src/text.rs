//! Text as the kernel and the command line tools print it: lines, words, fields,
//! decimal numbers. Every function is stated over the sequence of characters.

use vstd::prelude::*;

verus! {

/// `String::push` appends the given character to the end of the string.
pub assume_specification[ String::push ](s: &mut String, c: char)
    ensures
        final(s)@ == old(s)@.push(c),
;

// ---------------------------------------------------------------------------
// characters

/// The classes of characters that the readers cut at.
#[derive(Clone, Copy, PartialEq, Eq, Structural)]
pub enum CharClass {
    /// Unicode white space.
    Space,
    /// ASCII digits.
    Digit,
    /// The double quote.
    Quote,
    /// Square brackets.
    Bracket,
}

/// The characters with the Unicode property White_Space.
pub open spec fn is_space(c: char) -> bool {
    let u = c as u32;
    ||| 0x9 <= u <= 0xd
    ||| u == 0x20
    ||| u == 0x85
    ||| u == 0xa0
    ||| u == 0x1680
    ||| 0x2000 <= u <= 0x200a
    ||| u == 0x2028
    ||| u == 0x2029
    ||| u == 0x202f
    ||| u == 0x205f
    ||| u == 0x3000
}

pub open spec fn is_digit(c: char) -> bool {
    '0' <= c && c <= '9'
}

pub open spec fn in_class(c: char, class: CharClass) -> bool {
    match class {
        CharClass::Space => is_space(c),
        CharClass::Digit => is_digit(c),
        CharClass::Quote => c == '"',
        CharClass::Bracket => c == '[' || c == ']',
    }
}

pub fn has_class(c: char, class: CharClass) -> (r: bool)
    ensures
        r == in_class(c, class),
{
    match class {
        CharClass::Space => {
            let u: u32 = c as u32;
            (0x9 <= u && u <= 0xd) || u == 0x20 || u == 0x85 || u == 0xa0 || u == 0x1680 || (0x2000
                <= u && u <= 0x200a) || u == 0x2028 || u == 0x2029 || u == 0x202f || u == 0x205f
                || u == 0x3000
        },
        CharClass::Digit => '0' <= c && c <= '9',
        CharClass::Quote => c == '"',
        CharClass::Bracket => c == '[' || c == ']',
    }
}

/// The characters of a string.
pub fn chars(s: &str) -> (v: Vec<char>)
    ensures
        v@ == s@,
{
    let mut v: Vec<char> = Vec::new();
    for c in it: s.chars()
        invariant
            v@ == it.seq().take(it.index() as int),
            it.seq() == s@,
    {
        v.push(c);
    }
    v
}

/// The string of the characters from `from` up to `to`.
pub fn slice(v: &Vec<char>, from: usize, to: usize) -> (r: String)
    requires
        from <= to <= v@.len(),
    ensures
        r@ == v@.subrange(from as int, to as int),
{
    let mut r = String::new();
    let mut i: usize = from;
    while i < to
        invariant
            from <= i <= to <= v@.len(),
            r@ == v@.subrange(from as int, i as int),
        decreases to - i,
    {
        r.push(v[i]);
        i += 1;
    }
    r
}

/// A copy of a string slice.
pub fn owned(s: &str) -> (r: String)
    ensures
        r@ == s@,
{
    let v = chars(s);
    slice(&v, 0, v.len())
}

/// Appends one string to a list of strings.
pub fn push_string(list: &mut Vec<String>, s: String)
    ensures
        final(list).deep_view() == old(list).deep_view().push(s@),
{
    list.push(s);
    assert(list.deep_view() =~= old(list).deep_view().push(s@));
}

/// Whether two strings hold the same characters.
pub fn same(a: &str, b: &str) -> (r: bool)
    ensures
        r == (a@ == b@),
{
    let x = chars(a);
    let y = chars(b);
    if x.len() != y.len() {
        return false;
    }
    let n: usize = x.len();
    let mut i: usize = 0;
    while i < n
        invariant
            i <= n,
            n == x@.len(),
            n == y@.len(),
            x@ == a@,
            y@ == b@,
            forall|j: int| 0 <= j < i ==> x@[j] == y@[j],
        decreases n - i,
    {
        if x[i] != y[i] {
            return false;
        }
        i += 1;
    }
    assert(a@ =~= b@);
    true
}

// ---------------------------------------------------------------------------
// runs of characters, trimming

/// The length of the longest prefix whose characters are all in the class
/// (`want`), or all outside it (`!want`).
pub open spec fn run(s: Seq<char>, class: CharClass, want: bool) -> nat
    decreases s.len(),
{
    if s.len() > 0 && in_class(s[0], class) == want {
        1 + run(s.skip(1), class, want)
    } else {
        0
    }
}

pub proof fn lemma_run(s: Seq<char>, class: CharClass, want: bool)
    ensures
        run(s, class, want) <= s.len(),
        forall|i: int|
            0 <= i < run(s, class, want) ==> in_class(#[trigger] s[i], class) == want,
        run(s, class, want) < s.len() ==> in_class(s[run(s, class, want) as int], class) != want,
    decreases s.len(),
{
    if s.len() > 0 && in_class(s[0], class) == want {
        let t = s.skip(1);
        lemma_run(t, class, want);
        assert forall|i: int| 0 <= i < run(s, class, want) implies in_class(
            #[trigger] s[i],
            class,
        ) == want by {
            if i > 0 {
                assert(s[i] == t[i - 1]);
            }
        }
        if run(s, class, want) < s.len() {
            assert(s[run(s, class, want) as int] == t[run(t, class, want) as int]);
        }
    }
}

/// A prefix inside the class that is followed by a character outside it, or by
/// the end, is the run.
pub proof fn lemma_run_is(s: Seq<char>, class: CharClass, want: bool, n: int)
    requires
        0 <= n <= s.len(),
        forall|i: int| 0 <= i < n ==> in_class(#[trigger] s[i], class) == want,
        n < s.len() ==> in_class(s[n], class) != want,
    ensures
        run(s, class, want) == n,
{
    lemma_run(s, class, want);
    let r = run(s, class, want) as int;
    if r < n {
        assert(in_class(s[r], class) == want);
    }
    if n < r {
        assert(in_class(s[n], class) == want);
    }
}

/// The end of the run that starts at `from`.
pub fn run_end(v: &Vec<char>, from: usize, class: CharClass, want: bool) -> (r: usize)
    requires
        from <= v@.len(),
    ensures
        from <= r <= v@.len(),
        r == from + run(v@.skip(from as int), class, want),
{
    let n: usize = v.len();
    let mut i: usize = from;
    while i < n && has_class(v[i], class) == want
        invariant
            from <= i <= n,
            n == v@.len(),
            forall|j: int| from <= j < i ==> in_class(#[trigger] v@[j], class) == want,
        decreases n - i,
    {
        i += 1;
    }
    proof {
        let s = v@.skip(from as int);
        assert forall|j: int| 0 <= j < i - from implies in_class(#[trigger] s[j], class)
            == want by {
            assert(s[j] == v@[from + j]);
        }
        lemma_run_is(s, class, want, i - from);
    }
    i
}

/// The text without the characters of the class at its end.
pub open spec fn trim_end(s: Seq<char>, class: CharClass) -> Seq<char>
    decreases s.len(),
{
    if s.len() > 0 && in_class(s.last(), class) {
        trim_end(s.drop_last(), class)
    } else {
        s
    }
}

/// The text without the characters of the class at either end.
pub open spec fn trimmed(s: Seq<char>, class: CharClass) -> Seq<char> {
    trim_end(s.skip(run(s, class, true) as int), class)
}

/// What is left after trimming neither starts nor ends with a character of the
/// class, and trimming it again changes nothing.
pub proof fn law_trimmed(s: Seq<char>, class: CharClass)
    ensures
        trimmed(s, class).len() > 0 ==> !in_class(trimmed(s, class)[0], class) && !in_class(
            trimmed(s, class).last(),
            class,
        ),
        trimmed(trimmed(s, class), class) == trimmed(s, class),
{
    lemma_run(s, class, true);
    let rest = s.skip(run(s, class, true) as int);
    let t = trimmed(s, class);
    lemma_trim_end(rest, class);
    if t.len() > 0 {
        assert(rest[0] == s[run(s, class, true) as int]);
    }
    assert(t.skip(run(t, class, true) as int) =~= t);
}

proof fn lemma_trim_end(s: Seq<char>, class: CharClass)
    ensures
        trim_end(s, class).len() <= s.len(),
        trim_end(s, class) == s.take(trim_end(s, class).len() as int),
        trim_end(s, class).len() > 0 ==> !in_class(trim_end(s, class).last(), class),
    decreases s.len(),
{
    if s.len() > 0 && in_class(s.last(), class) {
        lemma_trim_end(s.drop_last(), class);
        let n = trim_end(s, class).len() as int;
        assert(s.drop_last().take(n) =~= s.take(n));
    } else {
        assert(s.take(s.len() as int) =~= s);
    }
}

/// Removes the characters of the class from both ends.
pub fn trim_class(s: &str, class: CharClass) -> (r: String)
    ensures
        r@ == trimmed(s@, class),
{
    let v = chars(s);
    assert(v@.skip(0) =~= v@);
    let from: usize = run_end(&v, 0, class, true);
    let mut to: usize = v.len();
    assert(v@.subrange(from as int, to as int) =~= v@.skip(from as int));
    while from < to && has_class(v[to - 1], class)
        invariant
            from <= to <= v@.len(),
            trim_end(v@.subrange(from as int, to as int), class) == trim_end(
                v@.skip(from as int),
                class,
            ),
        decreases to,
    {
        assert(v@.subrange(from as int, to as int).drop_last() =~= v@.subrange(
            from as int,
            to - 1,
        ));
        to -= 1;
    }
    slice(&v, from, to)
}

/// Removes white space from both ends.
pub fn trim(s: &str) -> (r: String)
    ensures
        r@ == trimmed(s@, CharClass::Space),
{
    trim_class(s, CharClass::Space)
}

/// Whether every character is an ASCII digit (true of the empty text).
pub open spec fn all_digits(s: Seq<char>) -> bool {
    forall|i: int| 0 <= i < s.len() ==> is_digit(#[trigger] s[i])
}

pub fn is_all_digits(s: &str) -> (r: bool)
    ensures
        r == all_digits(s@),
{
    let v = chars(s);
    let n: usize = v.len();
    let mut i: usize = 0;
    while i < n
        invariant
            i <= n,
            n == v@.len(),
            v@ == s@,
            forall|j: int| 0 <= j < i ==> is_digit(#[trigger] v@[j]),
        decreases n - i,
    {
        if !has_class(v[i], CharClass::Digit) {
            assert(!is_digit(s@[i as int]));
            return false;
        }
        i += 1;
    }
    true
}

// ---------------------------------------------------------------------------
// words

/// The words of a text: its maximal runs of characters that are not white space.
pub open spec fn words(s: Seq<char>) -> Seq<Seq<char>>
    decreases s.len(),
{
    let t = s.skip(run(s, CharClass::Space, true) as int);
    let n = run(t, CharClass::Space, false) as int;
    if t.len() == 0 {
        Seq::empty()
    } else {
        proof {
            lemma_run(s, CharClass::Space, true);
            lemma_run(t, CharClass::Space, false);
            assert(t[0] == s[run(s, CharClass::Space, true) as int]);
        }
        seq![t.take(n)] + words(t.skip(n))
    }
}

/// No word is empty, and none holds white space.
pub proof fn law_words(s: Seq<char>, i: int)
    requires
        0 <= i < words(s).len(),
    ensures
        words(s)[i].len() > 0,
        forall|j: int| 0 <= j < words(s)[i].len() ==> !is_space(#[trigger] words(s)[i][j]),
    decreases s.len(),
{
    let t = s.skip(run(s, CharClass::Space, true) as int);
    let n = run(t, CharClass::Space, false) as int;
    lemma_run(s, CharClass::Space, true);
    lemma_run(t, CharClass::Space, false);
    if t.len() > 0 {
        assert(t[0] == s[run(s, CharClass::Space, true) as int]);
        if i > 0 {
            law_words(t.skip(n), i - 1);
            assert(words(s)[i] == words(t.skip(n))[i - 1]);
        } else {
            assert forall|j: int| 0 <= j < words(s)[i].len() implies !is_space(
                #[trigger] words(s)[i][j],
            ) by {
                assert(words(s)[i][j] == t[j]);
                assert(in_class(t[j], CharClass::Space) == false);
            }
        }
    }
}

pub fn split_words(s: &str) -> (r: Vec<String>)
    ensures
        r.deep_view() == words(s@),
{
    let v = chars(s);
    let n: usize = v.len();
    let mut out: Vec<String> = Vec::new();
    let mut i: usize = 0;
    assert(v@.skip(0) =~= v@);
    assert(out.deep_view() + words(v@) =~= words(v@));
    loop
        invariant
            i <= n,
            n == v@.len(),
            v@ == s@,
            out.deep_view() + words(v@.skip(i as int)) == words(s@),
        ensures
            out.deep_view() == words(s@),
        decreases n - i,
    {
        let ghost rest = v@.skip(i as int);
        let a: usize = run_end(&v, i, CharClass::Space, true);
        let ghost t = v@.skip(a as int);
        proof {
            lemma_run(rest, CharClass::Space, true);
            assert(rest.skip(run(rest, CharClass::Space, true) as int) =~= t);
        }
        if a == n {
            assert(words(rest) =~= Seq::<Seq<char>>::empty());
            assert(out.deep_view() + words(rest) =~= out.deep_view());
            break;
        }
        let b: usize = run_end(&v, a, CharClass::Space, false);
        proof {
            lemma_run(t, CharClass::Space, false);
            assert(t[0] == rest[run(rest, CharClass::Space, true) as int]);
            assert(t.take(b - a) =~= v@.subrange(a as int, b as int));
            assert(t.skip(b - a) =~= v@.skip(b as int));
        }
        let ghost before = out.deep_view();
        let word = slice(&v, a, b);
        push_string(&mut out, word);
        assert(before + words(rest) =~= out.deep_view() + words(v@.skip(b as int)));
        i = b;
    }
    out
}

// ---------------------------------------------------------------------------
// fields

/// The index of the first `c`, or the length where there is none.
pub open spec fn find_char(s: Seq<char>, c: char) -> nat
    decreases s.len(),
{
    if s.len() == 0 || s[0] == c {
        0
    } else {
        1 + find_char(s.skip(1), c)
    }
}

pub proof fn lemma_find_char(s: Seq<char>, c: char)
    ensures
        find_char(s, c) <= s.len(),
        find_char(s, c) < s.len() ==> s[find_char(s, c) as int] == c,
        forall|i: int| 0 <= i < find_char(s, c) ==> #[trigger] s[i] != c,
    decreases s.len(),
{
    if s.len() > 0 && s[0] != c {
        let t = s.skip(1);
        lemma_find_char(t, c);
        assert forall|i: int| 0 <= i < find_char(s, c) implies #[trigger] s[i] != c by {
            if i > 0 {
                assert(s[i] == t[i - 1]);
            }
        }
        if find_char(s, c) < s.len() {
            assert(s[find_char(s, c) as int] == t[find_char(t, c) as int]);
        }
    }
}

pub proof fn lemma_find_char_is(s: Seq<char>, c: char, n: int)
    requires
        0 <= n <= s.len(),
        n < s.len() ==> s[n] == c,
        forall|i: int| 0 <= i < n ==> #[trigger] s[i] != c,
    ensures
        find_char(s, c) == n,
{
    lemma_find_char(s, c);
    let r = find_char(s, c) as int;
    if r < n {
        assert(s[r] != c);
    }
    if n < r {
        assert(s[n] != c);
    }
}

/// The index of the first `c` at or after `from`, or the length.
pub fn char_index(v: &Vec<char>, from: usize, c: char) -> (r: usize)
    requires
        from <= v@.len(),
    ensures
        from <= r <= v@.len(),
        r == from + find_char(v@.skip(from as int), c),
        r < v@.len() ==> v@[r as int] == c,
{
    let n: usize = v.len();
    let mut i: usize = from;
    while i < n && v[i] != c
        invariant
            from <= i <= n,
            n == v@.len(),
            forall|j: int| from <= j < i ==> #[trigger] v@[j] != c,
        decreases n - i,
    {
        i += 1;
    }
    proof {
        let s = v@.skip(from as int);
        assert forall|j: int| 0 <= j < i - from implies #[trigger] s[j] != c by {
            assert(s[j] == v@[from + j]);
        }
        lemma_find_char_is(s, c, i - from);
    }
    i
}

/// The pieces of a text between the occurrences of `c`; one more than there are
/// occurrences.
pub open spec fn split(s: Seq<char>, c: char) -> Seq<Seq<char>>
    decreases s.len(),
{
    let i = find_char(s, c) as int;
    if i < s.len() {
        seq![s.take(i)] + split(s.skip(i + 1), c)
    } else {
        seq![s]
    }
}

pub fn split_char(s: &str, c: char) -> (r: Vec<String>)
    ensures
        r.deep_view() == split(s@, c),
        r@.len() > 0,
{
    let v = chars(s);
    let n: usize = v.len();
    let mut out: Vec<String> = Vec::new();
    let mut i: usize = 0;
    assert(v@.skip(0) =~= v@);
    assert(out.deep_view() + split(v@, c) =~= split(v@, c));
    loop
        invariant_except_break
            i <= n,
            n == v@.len(),
            v@ == s@,
            out.deep_view() + split(v@.skip(i as int), c) == split(s@, c),
        ensures
            out.deep_view() == split(s@, c),
            out.deep_view().len() > 0,
        decreases n - i,
    {
        let ghost rest = v@.skip(i as int);
        let e: usize = char_index(&v, i, c);
        let ghost before = out.deep_view();
        let piece = slice(&v, i, e);
        push_string(&mut out, piece);
        if e == n {
            assert(v@.subrange(i as int, e as int) =~= rest);
            assert(before + split(rest, c) =~= out.deep_view());
            break;
        }
        assert(v@.subrange(i as int, e as int) =~= rest.take(e - i));
        assert(v@.skip(e + 1) =~= rest.skip(e - i + 1));
        assert(before + split(rest, c) =~= out.deep_view() + split(v@.skip(e + 1), c));
        i = e + 1;
    }
    out
}

/// The text before and the text after the first `c`.
pub open spec fn split_once(s: Seq<char>, c: char) -> Option<(Seq<char>, Seq<char>)> {
    let i = find_char(s, c) as int;
    if i < s.len() {
        Some((s.take(i), s.skip(i + 1)))
    } else {
        None
    }
}

pub fn split_first(s: &str, c: char) -> (r: Option<(String, String)>)
    ensures
        r.deep_view() == split_once(s@, c),
{
    let v = chars(s);
    assert(v@.skip(0) =~= v@);
    let e: usize = char_index(&v, 0, c);
    if e == v.len() {
        return None;
    }
    assert(v@.subrange(0, e as int) =~= s@.take(e as int));
    assert(v@.subrange(e + 1, v@.len() as int) =~= s@.skip(e + 1));
    Some((slice(&v, 0, e), slice(&v, e + 1, v.len())))
}

/// The text after the last `c`.
pub open spec fn after_last(s: Seq<char>, c: char) -> Option<Seq<char>>
    decreases s.len(),
{
    if s.len() == 0 {
        None
    } else if s.last() == c {
        Some(Seq::empty())
    } else {
        match after_last(s.drop_last(), c) {
            Some(t) => Some(t.push(s.last())),
            None => None,
        }
    }
}

/// What follows the last `c`: a suffix without `c`, directly behind a `c`.
pub proof fn lemma_after_last(s: Seq<char>, c: char, i: int)
    requires
        0 <= i < s.len(),
        s[i] == c,
        forall|j: int| i < j < s.len() ==> #[trigger] s[j] != c,
    ensures
        after_last(s, c) == Some(s.skip(i + 1)),
    decreases s.len(),
{
    if i == s.len() - 1 {
        assert(s.skip(i + 1) =~= Seq::<char>::empty());
    } else {
        assert(s.last() != c);
        let t = s.drop_last();
        assert forall|j: int| i < j < t.len() implies #[trigger] t[j] != c by {
            assert(t[j] == s[j]);
        }
        lemma_after_last(t, c, i);
        assert(t.skip(i + 1).push(s.last()) =~= s.skip(i + 1));
    }
}

pub proof fn lemma_after_last_none(s: Seq<char>, c: char)
    requires
        forall|j: int| 0 <= j < s.len() ==> #[trigger] s[j] != c,
    ensures
        after_last(s, c) is None,
    decreases s.len(),
{
    if s.len() > 0 {
        assert(s.last() != c);
        let t = s.drop_last();
        assert forall|j: int| 0 <= j < t.len() implies #[trigger] t[j] != c by {
            assert(t[j] == s[j]);
        }
        lemma_after_last_none(t, c);
    }
}

pub fn split_last(s: &str, c: char) -> (r: Option<String>)
    ensures
        r.deep_view() == after_last(s@, c),
{
    let v = chars(s);
    let mut i: usize = v.len();
    while i > 0 && v[i - 1] != c
        invariant
            i <= v@.len(),
            v@ == s@,
            forall|j: int| i <= j < s@.len() ==> #[trigger] s@[j] != c,
        decreases i,
    {
        i -= 1;
    }
    if i == 0 {
        proof {
            lemma_after_last_none(s@, c);
        }
        return None;
    }
    proof {
        lemma_after_last(s@, c, i - 1);
        assert(v@.subrange(i as int, v@.len() as int) =~= s@.skip(i as int));
    }
    Some(slice(&v, i, v.len()))
}

// ---------------------------------------------------------------------------
// lines

/// A line without the carriage return in front of its line feed.
pub open spec fn without_cr(s: Seq<char>) -> Seq<char> {
    if s.len() > 0 && s.last() == '\r' {
        s.drop_last()
    } else {
        s
    }
}

/// The lines of a text. A line ends at a line feed, or at a carriage return and a
/// line feed; the last line needs no end.
pub open spec fn lines(s: Seq<char>) -> Seq<Seq<char>>
    decreases s.len(),
{
    let i = find_char(s, '\n') as int;
    if s.len() == 0 {
        Seq::empty()
    } else if i < s.len() {
        seq![without_cr(s.take(i))] + lines(s.skip(i + 1))
    } else {
        seq![s]
    }
}

pub fn split_lines(s: &str) -> (r: Vec<String>)
    ensures
        r.deep_view() == lines(s@),
{
    let v = chars(s);
    let n: usize = v.len();
    let mut out: Vec<String> = Vec::new();
    let mut i: usize = 0;
    assert(v@.skip(0) =~= v@);
    assert(out.deep_view() + lines(v@) =~= lines(v@));
    while i < n
        invariant
            i <= n,
            n == v@.len(),
            v@ == s@,
            out.deep_view() + lines(v@.skip(i as int)) == lines(s@),
        decreases n - i,
    {
        let ghost rest = v@.skip(i as int);
        let e: usize = char_index(&v, i, '\n');
        let ghost before = out.deep_view();
        if e == n {
            let line = slice(&v, i, e);
            push_string(&mut out, line);
            assert(v@.subrange(i as int, e as int) =~= rest);
            assert(v@.skip(e as int) =~= Seq::<char>::empty());
            assert(before + lines(rest) =~= out.deep_view() + lines(v@.skip(e as int)));
            i = e;
        } else {
            let ghost body = rest.take(e - i);
            let to: usize = if i < e && v[e - 1] == '\r' {
                e - 1
            } else {
                e
            };
            let line = slice(&v, i, to);
            push_string(&mut out, line);
            assert(v@.subrange(i as int, to as int) =~= without_cr(body));
            assert(v@.skip(e + 1) =~= rest.skip(e - i + 1));
            assert(before + lines(rest) =~= out.deep_view() + lines(v@.skip(e + 1)));
            i = e + 1;
        }
    }
    assert(v@.skip(n as int) =~= Seq::<char>::empty());
    assert(out.deep_view() + lines(v@.skip(n as int)) =~= out.deep_view());
    out
}

// ---------------------------------------------------------------------------
// prefixes, suffixes, occurrences

pub fn starts_with(s: &str, prefix: &str) -> (r: bool)
    ensures
        r == prefix@.is_prefix_of(s@),
{
    let v = chars(s);
    let p = chars(prefix);
    if v.len() < p.len() {
        return false;
    }
    let ghost head = s@.subrange(0, prefix@.len() as int);
    let n: usize = p.len();
    let mut i: usize = 0;
    while i < n
        invariant
            i <= n,
            n == p@.len(),
            n <= v@.len(),
            v@ == s@,
            p@ == prefix@,
            head == s@.subrange(0, prefix@.len() as int),
            forall|j: int| 0 <= j < i ==> p@[j] == v@[j],
        decreases n - i,
    {
        if v[i] != p[i] {
            assert(head[i as int] != prefix@[i as int]);
            return false;
        }
        i += 1;
    }
    assert(head =~= prefix@);
    true
}

pub fn ends_with(s: &str, suffix: &str) -> (r: bool)
    ensures
        r == suffix@.is_suffix_of(s@),
{
    let v = chars(s);
    let p = chars(suffix);
    if v.len() < p.len() {
        return false;
    }
    let n: usize = p.len();
    let off: usize = v.len() - n;
    let ghost tail = s@.subrange(off as int, s@.len() as int);
    let mut i: usize = 0;
    while i < n
        invariant
            i <= n,
            n == p@.len(),
            off + n == v.len(),
            v@ == s@,
            p@ == suffix@,
            tail == s@.subrange(off as int, s@.len() as int),
            forall|j: int| 0 <= j < i ==> p@[j] == v@[off + j],
        decreases n - i,
    {
        if v[off + i] != p[i] {
            assert(tail[i as int] != suffix@[i as int]);
            return false;
        }
        i += 1;
    }
    assert(tail =~= suffix@);
    true
}

/// The text behind a prefix, where the text starts with it.
pub open spec fn strip_prefix(s: Seq<char>, prefix: Seq<char>) -> Option<Seq<char>> {
    if prefix.is_prefix_of(s) {
        Some(s.skip(prefix.len() as int))
    } else {
        None
    }
}

pub fn cut_prefix(s: &str, prefix: &str) -> (r: Option<String>)
    ensures
        r.deep_view() == strip_prefix(s@, prefix@),
{
    if !starts_with(s, prefix) {
        return None;
    }
    let v = chars(s);
    let p = chars(prefix);
    assert(v@.subrange(p@.len() as int, v@.len() as int) =~= s@.skip(prefix@.len() as int));
    Some(slice(&v, p.len(), v.len()))
}

/// The text without any number of copies of `suffix` at its end.
pub open spec fn strip_suffixes(s: Seq<char>, suffix: Seq<char>) -> Seq<char>
    decreases s.len(),
{
    if suffix.len() > 0 && suffix.is_suffix_of(s) {
        strip_suffixes(s.take(s.len() - suffix.len()), suffix)
    } else {
        s
    }
}

pub fn cut_suffixes(s: &str, suffix: &str) -> (r: String)
    ensures
        r@ == strip_suffixes(s@, suffix@),
{
    let p = chars(suffix);
    let n: usize = p.len();
    let mut cur = owned(s);
    if n == 0 {
        return cur;
    }
    let mut more: bool = ends_with(cur.as_str(), suffix);
    while more
        invariant
            n > 0,
            n == p@.len(),
            p@ == suffix@,
            more == suffix@.is_suffix_of(cur@),
            strip_suffixes(cur@, suffix@) == strip_suffixes(s@, suffix@),
        decreases cur@.len(),
    {
        let v = chars(cur.as_str());
        let ghost before = cur@;
        cur = slice(&v, 0, v.len() - n);
        assert(cur@ =~= before.take(before.len() - n));
        more = ends_with(cur.as_str(), suffix);
    }
    cur
}

/// Whether `pat` stands in `s` at index `i`.
pub open spec fn occurs_at(s: Seq<char>, pat: Seq<char>, i: int) -> bool {
    0 <= i && i + pat.len() <= s.len() && s.subrange(i, i + pat.len()) == pat
}

/// The first index at or after `from` where `pat` stands.
pub open spec fn find_from(s: Seq<char>, pat: Seq<char>, from: int) -> Option<int>
    decreases s.len() + 1 - from,
{
    if from + pat.len() > s.len() {
        None
    } else if occurs_at(s, pat, from) {
        Some(from)
    } else {
        find_from(s, pat, from + 1)
    }
}

pub open spec fn find(s: Seq<char>, pat: Seq<char>) -> Option<int> {
    find_from(s, pat, 0)
}

/// Whether `pat` stands anywhere in `s`.
pub open spec fn contains(s: Seq<char>, pat: Seq<char>) -> bool {
    exists|i: int| occurs_at(s, pat, i)
}

pub proof fn lemma_find_from(s: Seq<char>, pat: Seq<char>, from: int)
    requires
        from >= 0,
    ensures
        match find_from(s, pat, from) {
            Some(i) => from <= i && occurs_at(s, pat, i) && forall|j: int|
                from <= j < i ==> !occurs_at(s, pat, j),
            None => forall|j: int| from <= j ==> !occurs_at(s, pat, j),
        },
    decreases s.len() + 1 - from,
{
    if from + pat.len() <= s.len() && !occurs_at(s, pat, from) {
        lemma_find_from(s, pat, from + 1);
    }
}

/// A search finds something exactly where the text contains the pattern.
pub proof fn lemma_find(s: Seq<char>, pat: Seq<char>)
    ensures
        find(s, pat) is Some <==> contains(s, pat),
{
    lemma_find_from(s, pat, 0);
}

fn stands_at(v: &Vec<char>, p: &Vec<char>, at: usize) -> (r: bool)
    requires
        at + p@.len() <= v@.len(),
    ensures
        r == occurs_at(v@, p@, at as int),
{
    let n: usize = p.len();
    let ghost here = v@.subrange(at as int, at + n);
    let mut i: usize = 0;
    while i < n
        invariant
            i <= n,
            n == p@.len(),
            at + n <= v.len(),
            here == v@.subrange(at as int, at + n),
            forall|j: int| 0 <= j < i ==> p@[j] == v@[at + j],
        decreases n - i,
    {
        if v[at + i] != p[i] {
            assert(here[i as int] != p@[i as int]);
            return false;
        }
        i += 1;
    }
    assert(here =~= p@);
    true
}

pub fn find_text(s: &str, pat: &str) -> (r: Option<usize>)
    ensures
        match r {
            Some(i) => find(s@, pat@) == Some(i as int) && i + pat@.len() <= s@.len(),
            None => find(s@, pat@) is None,
        },
{
    let v = chars(s);
    let p = chars(pat);
    if v.len() < p.len() {
        return None;
    }
    let last: usize = v.len() - p.len();
    let mut i: usize = 0;
    loop
        invariant
            i <= last,
            last + p@.len() == v@.len(),
            v@ == s@,
            p@ == pat@,
            find_from(s@, pat@, i as int) == find(s@, pat@),
        decreases last - i,
    {
        if stands_at(&v, &p, i) {
            return Some(i);
        }
        if i == last {
            assert(find_from(s@, pat@, i + 1) is None);
            return None;
        }
        i += 1;
    }
}

pub fn has_text(s: &str, pat: &str) -> (r: bool)
    ensures
        r == contains(s@, pat@),
{
    proof {
        lemma_find(s@, pat@);
    }
    find_text(s, pat).is_some()
}

// ---------------------------------------------------------------------------
// lines by their start

/// The first of the texts that starts with `prefix`.
pub open spec fn first_with(list: Seq<Seq<char>>, prefix: Seq<char>) -> Option<Seq<char>>
    decreases list.len(),
{
    if list.len() == 0 {
        None
    } else if prefix.is_prefix_of(list[0]) {
        Some(list[0])
    } else {
        first_with(list.skip(1), prefix)
    }
}

/// The first line that starts with `prefix`.
pub fn line_with(s: &str, prefix: &str) -> (r: Option<String>)
    ensures
        r.deep_view() == first_with(lines(s@), prefix@),
{
    let list = split_lines(s);
    let n: usize = list.len();
    let ghost all = list.deep_view();
    let mut i: usize = 0;
    assert(all.skip(0) =~= all);
    while i < n
        invariant
            i <= n,
            n == list@.len(),
            all == list.deep_view(),
            all == lines(s@),
            first_with(all.skip(i as int), prefix@) == first_with(all, prefix@),
        decreases n - i,
    {
        assert(all.skip(i as int)[0] == list@[i as int]@);
        if starts_with(list[i].as_str(), prefix) {
            return Some(owned(list[i].as_str()));
        }
        assert(all.skip(i as int).skip(1) =~= all.skip(i + 1));
        i += 1;
    }
    None
}

// ---------------------------------------------------------------------------
// what the readers find in a text that was put together

/// Trimming takes off what stands around the middle, and nothing else.
pub proof fn law_trimmed_middle(a: Seq<char>, t: Seq<char>, b: Seq<char>, class: CharClass)
    requires
        forall|i: int| 0 <= i < a.len() ==> in_class(#[trigger] a[i], class),
        forall|i: int| 0 <= i < b.len() ==> in_class(#[trigger] b[i], class),
        t.len() > 0 ==> !in_class(t[0], class) && !in_class(t.last(), class),
    ensures
        trimmed(a + t + b, class) == t,
{
    let s = a + t + b;
    if t.len() > 0 {
        assert forall|i: int| 0 <= i < a.len() implies in_class(#[trigger] s[i], class)
            == true by {
            assert(s[i] == a[i]);
        }
        assert(s[a.len() as int] == t[0]);
        lemma_run_is(s, class, true, a.len() as int);
        assert(s.skip(a.len() as int) =~= t + b);
        lemma_trim_end_of(t, b, class);
    } else {
        assert forall|i: int| 0 <= i < s.len() implies in_class(#[trigger] s[i], class)
            == true by {
            if i < a.len() {
                assert(s[i] == a[i]);
            } else {
                assert(s[i] == b[i - a.len()]);
            }
        }
        lemma_run_is(s, class, true, s.len() as int);
        assert(s.skip(s.len() as int) =~= t);
    }
}

proof fn lemma_trim_end_of(t: Seq<char>, b: Seq<char>, class: CharClass)
    requires
        forall|i: int| 0 <= i < b.len() ==> in_class(#[trigger] b[i], class),
        t.len() > 0 ==> !in_class(t.last(), class),
    ensures
        trim_end(t + b, class) == t,
    decreases b.len(),
{
    if b.len() == 0 {
        assert(t + b =~= t);
    } else {
        assert((t + b).last() == b[b.len() - 1]);
        assert((t + b).drop_last() =~= t + b.drop_last());
        lemma_trim_end_of(t, b.drop_last(), class);
    }
}

/// A text of white space has no words.
pub proof fn law_no_words(s: Seq<char>)
    requires
        forall|i: int| 0 <= i < s.len() ==> is_space(#[trigger] s[i]),
    ensures
        words(s) == Seq::<Seq<char>>::empty(),
{
    assert forall|i: int| 0 <= i < s.len() implies in_class(#[trigger] s[i], CharClass::Space)
        == true by {
        assert(is_space(s[i]));
    }
    lemma_run_is(s, CharClass::Space, true, s.len() as int);
}

/// The first word of a text stands behind any white space and ends at white space or
/// at the end; the other words are those of the rest.
pub proof fn law_first_word(a: Seq<char>, w: Seq<char>, rest: Seq<char>)
    requires
        forall|i: int| 0 <= i < a.len() ==> is_space(#[trigger] a[i]),
        w.len() > 0,
        forall|i: int| 0 <= i < w.len() ==> !is_space(#[trigger] w[i]),
        rest.len() > 0 ==> is_space(rest[0]),
    ensures
        words(a + w + rest) == seq![w] + words(rest),
{
    let s = a + w + rest;
    let t = w + rest;
    assert forall|i: int| 0 <= i < a.len() implies in_class(#[trigger] s[i], CharClass::Space)
        == true by {
        assert(s[i] == a[i]);
    }
    assert(s[a.len() as int] == w[0]);
    lemma_run_is(s, CharClass::Space, true, a.len() as int);
    assert(s.skip(a.len() as int) =~= t);
    assert forall|i: int| 0 <= i < w.len() implies in_class(#[trigger] t[i], CharClass::Space)
        == false by {
        assert(t[i] == w[i]);
    }
    if rest.len() > 0 {
        assert(t[w.len() as int] == rest[0]);
    }
    lemma_run_is(t, CharClass::Space, false, w.len() as int);
    assert(t.take(w.len() as int) =~= w);
    assert(t.skip(w.len() as int) =~= rest);
}

/// The first line ends at the first line feed, and a carriage return in front of it
/// is no part of the line. The other lines are those of the rest.
pub proof fn law_first_line(line: Seq<char>, rest: Seq<char>)
    requires
        forall|i: int| 0 <= i < line.len() ==> #[trigger] line[i] != '\n',
    ensures
        line.len() > 0 ==> lines(line) == seq![line],
        lines(line + seq!['\r', '\n'] + rest) == seq![line] + lines(rest),
        !(line.len() > 0 && line.last() == '\r') ==> lines(line + seq!['\n'] + rest)
            == seq![line] + lines(rest),
        lines(Seq::empty()) == Seq::<Seq<char>>::empty(),
{
    let n = line.len() as int;
    let s = line + seq!['\r', '\n'] + rest;
    lemma_find_char_is(line, '\n', n);
    assert(s[n] == '\r' && s[n + 1] == '\n');
    assert forall|i: int| 0 <= i < n + 1 implies #[trigger] s[i] != '\n' by {
        if i < n {
            assert(s[i] == line[i]);
        }
    }
    lemma_find_char_is(s, '\n', n + 1);
    assert(s.take(n + 1).drop_last() =~= line);
    assert(s.skip(n + 2) =~= rest);
    let t = line + seq!['\n'] + rest;
    assert(t[n] == '\n');
    assert forall|i: int| 0 <= i < n implies #[trigger] t[i] != '\n' by {
        assert(t[i] == line[i]);
    }
    lemma_find_char_is(t, '\n', n);
    assert(t.take(n) =~= line);
    assert(t.skip(n + 1) =~= rest);
}

/// The first field ends at the first separator; the others are those of the rest.
pub proof fn law_first_field(field: Seq<char>, rest: Seq<char>, c: char)
    requires
        forall|i: int| 0 <= i < field.len() ==> #[trigger] field[i] != c,
    ensures
        split(field, c) == seq![field],
        split(field + seq![c] + rest, c) == seq![field] + split(rest, c),
        split_once(field, c) is None,
        split_once(field + seq![c] + rest, c) == Some((field, rest)),
{
    let n = field.len() as int;
    let s = field + seq![c] + rest;
    lemma_find_char_is(field, c, n);
    assert(s[n] == c);
    assert forall|i: int| 0 <= i < n implies #[trigger] s[i] != c by {
        assert(s[i] == field[i]);
    }
    lemma_find_char_is(s, c, n);
    assert(s.take(n) =~= field);
    assert(s.skip(n + 1) =~= rest);
}

/// Behind the last separator stands what holds no other.
pub proof fn law_behind_last(front: Seq<char>, back: Seq<char>, c: char)
    requires
        forall|i: int| 0 <= i < back.len() ==> #[trigger] back[i] != c,
    ensures
        after_last(front + seq![c] + back, c) == Some(back),
        after_last(back, c) is None,
{
    let s = front + seq![c] + back;
    let n = front.len() as int;
    assert(s[n] == c);
    assert forall|j: int| n < j < s.len() implies #[trigger] s[j] != c by {
        assert(s[j] == back[j - n - 1]);
    }
    lemma_after_last(s, c, n);
    assert(s.skip(n + 1) =~= back);
    lemma_after_last_none(back, c);
}

/// Cutting a prefix gives back what stands behind it.
pub proof fn law_prefix_cut(prefix: Seq<char>, s: Seq<char>)
    ensures
        strip_prefix(prefix + s, prefix) == Some(s),
        strip_prefix(s, prefix) matches Some(t) ==> s == prefix + t,
        strip_prefix(s, prefix) is None ==> forall|t: Seq<char>| s != #[trigger] (prefix + t),
{
    assert((prefix + s).subrange(0, prefix.len() as int) =~= prefix);
    assert((prefix + s).skip(prefix.len() as int) =~= s);
    if let Some(t) = strip_prefix(s, prefix) {
        assert(s =~= s.subrange(0, prefix.len() as int) + t);
    } else {
        assert forall|t: Seq<char>| s != #[trigger] (prefix + t) by {
            if s == prefix + t {
                assert(s.subrange(0, prefix.len() as int) =~= prefix);
            }
        }
    }
}

/// Any number of copies of a suffix are cut, and nothing else.
pub proof fn law_suffixes_cut(s: Seq<char>, suffix: Seq<char>)
    requires
        suffix.len() > 0,
    ensures
        strip_suffixes(s + suffix, suffix) == strip_suffixes(s, suffix),
        !suffix.is_suffix_of(s) ==> strip_suffixes(s, suffix) == s,
{
    let t = s + suffix;
    assert(t.subrange(t.len() - suffix.len(), t.len() as int) =~= suffix);
    assert(t.take(t.len() - suffix.len()) =~= s);
}

/// A text contains what it was put together from, and whatever it contains it can be
/// put together from.
pub proof fn law_contains(a: Seq<char>, pat: Seq<char>, b: Seq<char>, s: Seq<char>)
    ensures
        contains(a + pat + b, pat),
        contains(s, pat) ==> exists|x: Seq<char>, y: Seq<char>| s == #[trigger] (x + pat + y),
{
    let t = a + pat + b;
    assert(t.subrange(a.len() as int, a.len() as int + pat.len()) =~= pat);
    assert(occurs_at(t, pat, a.len() as int));
    if contains(s, pat) {
        let i = choose|i: int| occurs_at(s, pat, i);
        let (x, y) = (s.take(i), s.skip(i + pat.len()));
        assert(s =~= x + pat + y);
    }
}

/// A search finds the first place where the pattern stands.
pub proof fn law_found_first(s: Seq<char>, pat: Seq<char>)
    ensures
        find(s, pat) matches Some(i) ==> {
            &&& 0 <= i && i + pat.len() <= s.len()
            &&& s.subrange(i, i + pat.len()) == pat
            &&& forall|j: int|
                0 <= j < i ==> #[trigger] s.subrange(j, j + pat.len()) != pat
        },
        find(s, pat) is None ==> !contains(s, pat),
{
    lemma_find_from(s, pat, 0);
    if let Some(i) = find(s, pat) {
        assert forall|j: int| 0 <= j < i implies #[trigger] s.subrange(j, j + pat.len())
            != pat by {
            assert(!occurs_at(s, pat, j));
        }
    }
}

/// The first of the texts that start with a prefix is found, whatever stands before
/// and behind it.
pub proof fn law_first_with(
    before: Seq<Seq<char>>,
    line: Seq<char>,
    after: Seq<Seq<char>>,
    prefix: Seq<char>,
)
    requires
        forall|i: int| 0 <= i < before.len() ==> !prefix.is_prefix_of(#[trigger] before[i]),
    ensures
        prefix.is_prefix_of(line) ==> first_with(before + seq![line] + after, prefix) == Some(line),
        first_with(before, prefix) is None,
    decreases before.len(),
{
    let list = before + seq![line] + after;
    if before.len() > 0 {
        let rest = before.skip(1);
        assert(list[0] == before[0]);
        assert(list.skip(1) =~= rest + seq![line] + after);
        assert forall|i: int| 0 <= i < rest.len() implies !prefix.is_prefix_of(
            #[trigger] rest[i],
        ) by {
            assert(rest[i] == before[i + 1]);
        }
        law_first_with(rest, line, after, prefix);
    } else {
        assert(list[0] == line);
    }
}

/// Where two texts meet at white space, their words stand one behind the other.
pub proof fn law_words_of_two(x: Seq<char>, y: Seq<char>)
    requires
        x.len() == 0 || y.len() == 0 || is_space(x.last()) || is_space(y[0]),
    ensures
        words(x + y) == words(x) + words(y),
    decreases x.len(),
{
    let space = CharClass::Space;
    let n = run(x, space, true) as int;
    lemma_run(x, space, true);
    let t = x.skip(n);
    let m = run(t, space, false) as int;
    lemma_run(t, space, false);
    let a = x.take(n);
    assert forall|i: int| 0 <= i < a.len() implies is_space(#[trigger] a[i]) by {
        assert(a[i] == x[i]);
        assert(in_class(x[i], space) == true);
    }
    if t.len() == 0 {
        assert(a =~= x);
        assert(words(x) =~= Seq::empty());
        lemma_leading_space(x, y);
        assert(words(x) + words(y) =~= words(y));
    } else {
        let w = t.take(m);
        let rest = t.skip(m);
        assert(t[0] == x[n]);
        assert forall|i: int| 0 <= i < w.len() implies !is_space(#[trigger] w[i]) by {
            assert(w[i] == t[i]);
            assert(in_class(t[i], space) == false);
        }
        assert(x =~= a + w + rest);
        assert(x + y =~= a + w + (rest + y));
        if rest.len() > 0 {
            assert(rest[0] == t[m]);
            assert((rest + y)[0] == rest[0]);
            assert(rest.last() == x.last());
            law_words_of_two(rest, y);
        } else {
            assert(rest + y =~= y);
            assert(w.last() == x.last());
            assert(words(rest) =~= Seq::empty());
        }
        law_first_word(a, w, rest);
        law_first_word(a, w, rest + y);
        assert(words(x + y) =~= words(x) + words(y));
    }
}

proof fn lemma_leading_space(x: Seq<char>, y: Seq<char>)
    requires
        forall|i: int| 0 <= i < x.len() ==> is_space(#[trigger] x[i]),
    ensures
        words(x + y) == words(y),
{
    let space = CharClass::Space;
    let s = x + y;
    let k = run(y, space, true) as int;
    lemma_run(y, space, true);
    let n = x.len() + k;
    assert forall|i: int| 0 <= i < n implies in_class(#[trigger] s[i], space) == true by {
        if i < x.len() {
            assert(is_space(x[i]));
        } else {
            assert(s[i] == y[i - x.len()]);
        }
    }
    if n < s.len() {
        assert(s[n] == y[k]);
    }
    lemma_run_is(s, space, true, n);
    assert(s.skip(n) =~= y.skip(k));
}

/// Trimming white space takes no word away.
pub proof fn law_trimming_keeps_words(s: Seq<char>)
    ensures
        words(trimmed(s, CharClass::Space)) == words(s),
{
    let space = CharClass::Space;
    let n = run(s, space, true) as int;
    lemma_run(s, space, true);
    let rest = s.skip(n);
    let t = trim_end(rest, space);
    lemma_trim_end(rest, space);
    lemma_trimmed_tail(rest, space);
    let a = s.take(n);
    let b = rest.skip(t.len() as int);
    assert(s =~= a + rest);
    assert(rest =~= t + b);
    assert forall|i: int| 0 <= i < a.len() implies is_space(#[trigger] a[i]) by {
        assert(a[i] == s[i]);
        assert(in_class(s[i], space) == true);
    }
    lemma_leading_space(a, rest);
    assert forall|i: int| 0 <= i < b.len() implies is_space(#[trigger] b[i]) by {
        assert(in_class(rest[t.len() + i], space));
    }
    law_no_words(b);
    if b.len() > 0 {
        assert(is_space(b[0]));
    }
    law_words_of_two(t, b);
    assert(words(t) + words(b) =~= words(t));
}

proof fn lemma_trimmed_tail(s: Seq<char>, class: CharClass)
    ensures
        trim_end(s, class).len() <= s.len(),
        forall|i: int|
            trim_end(s, class).len() <= i < s.len() ==> in_class(#[trigger] s[i], class),
    decreases s.len(),
{
    if s.len() > 0 && in_class(s.last(), class) {
        let front = s.drop_last();
        lemma_trimmed_tail(front, class);
        assert forall|i: int| trim_end(s, class).len() <= i < s.len() implies in_class(
            #[trigger] s[i],
            class,
        ) by {
            if i < front.len() {
                assert(s[i] == front[i]);
            }
        }
    }
}

/// Trimming white space leaves something exactly where there is something else.
pub proof fn law_blank(s: Seq<char>)
    ensures
        trimmed(s, CharClass::Space).len() > 0 <==> exists|i: int|
            0 <= i < s.len() && !is_space(#[trigger] s[i]),
{
    let space = CharClass::Space;
    let n = run(s, space, true) as int;
    lemma_run(s, space, true);
    let rest = s.skip(n);
    lemma_trim_end(rest, space);
    lemma_trimmed_tail(rest, space);
    if n < s.len() {
        assert(!is_space(s[n]));
        assert(rest[0] == s[n]);
        if trim_end(rest, space).len() == 0 {
            assert(in_class(rest[0], space));
        }
    } else {
        assert forall|i: int| 0 <= i < s.len() implies is_space(#[trigger] s[i]) by {
            assert(in_class(s[i], space) == true);
        }
    }
}

} // verus!
