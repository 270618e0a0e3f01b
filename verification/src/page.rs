//! Pages of the dashboard: text in which numbers and bars stand that are still
//! to be drawn.
//!
//! A page says of each number what it is made of, how many decimals it shows and
//! how wide it stands. Turning it into digits takes floating point, so it is left
//! to the program that draws the page.

use vstd::prelude::*;

verus! {

/// A number on a page.
#[derive(Clone, Copy, PartialEq, Eq, Structural, Debug)]
pub enum Value {
    /// `num / den`.
    Quotient { num: u64, den: u64 },
    /// `part / whole * 100`, and 0 of an empty whole.
    Percent { part: u64, whole: u64 },
    /// `bytes / 1024` for every second of `nanos` nanoseconds.
    Rate { bytes: u64, nanos: u64 },
    /// `raw / divisor`, where `raw` is the number with these IEEE 754 bits.
    Scaled { bits: u64, divisor: u64 },
}

/// A stretch of a page.
#[derive(Debug)]
pub enum Piece {
    Text(String),
    /// A number, right aligned in at least `width` columns.
    Number { value: Value, decimals: usize, width: usize },
    /// A gauge of `width` cells for `part` of `whole`.
    Gauge { part: u64, whole: u64, width: usize },
}

/// What a page shows: a character (its code point), a number or a gauge.
pub enum Glyph {
    Char(int),
    Number { value: Value, decimals: nat, width: nat },
    Gauge { part: u64, whole: u64, width: nat },
}

/// A text as glyphs.
pub open spec fn text(s: Seq<char>) -> Seq<Glyph>
    decreases s.len(),
{
    if s.len() == 0 {
        Seq::empty()
    } else {
        text(s.drop_last()).push(Glyph::Char(s.last() as int))
    }
}

/// A number as a glyph.
pub open spec fn num(value: Value, decimals: nat, width: nat) -> Seq<Glyph> {
    seq![Glyph::Number { value, decimals, width }]
}

/// A gauge as a glyph.
pub open spec fn gauge(part: u64, whole: u64, width: nat) -> Seq<Glyph> {
    seq![Glyph::Gauge { part, whole, width }]
}

pub open spec fn piece_glyphs(p: Piece) -> Seq<Glyph> {
    match p {
        Piece::Text(s) => text(s@),
        Piece::Number { value, decimals, width } => num(value, decimals as nat, width as nat),
        Piece::Gauge { part, whole, width } => gauge(part, whole, width as nat),
    }
}

/// The glyphs of the pieces, one piece after the other.
pub open spec fn glyphs(pieces: Seq<Piece>) -> Seq<Glyph>
    decreases pieces.len(),
{
    if pieces.len() == 0 {
        Seq::empty()
    } else {
        glyphs(pieces.drop_last()) + piece_glyphs(pieces.last())
    }
}

proof fn lemma_glyphs_push(pieces: Seq<Piece>, p: Piece)
    ensures
        glyphs(pieces.push(p)) == glyphs(pieces) + piece_glyphs(p),
{
    assert(pieces.push(p).drop_last() =~= pieces);
}

proof fn lemma_glyphs_concat(a: Seq<Piece>, b: Seq<Piece>)
    ensures
        glyphs(a + b) == glyphs(a) + glyphs(b),
    decreases b.len(),
{
    if b.len() == 0 {
        assert(a + b =~= a);
        assert(glyphs(a) + glyphs(b) =~= glyphs(a));
    } else {
        lemma_glyphs_concat(a, b.drop_last());
        assert((a + b).drop_last() =~= a + b.drop_last());
        assert(glyphs(a + b) =~= glyphs(a) + glyphs(b));
    }
}

/// Text shows the same wherever it is cut.
pub proof fn law_text_may_be_cut(a: Seq<char>, b: Seq<char>)
    ensures
        text(a + b) == text(a) + text(b),
    decreases b.len(),
{
    if b.len() == 0 {
        assert(a + b =~= a);
        assert(text(a) + text(b) =~= text(a));
    } else {
        law_text_may_be_cut(a, b.drop_last());
        assert((a + b).drop_last() =~= a + b.drop_last());
        assert(text(a + b) =~= text(a) + text(b));
    }
}

/// A text shows as many glyphs as it has characters, each the character itself.
pub proof fn law_text_shows_itself(s: Seq<char>)
    ensures
        text(s).len() == s.len(),
        forall|i: int| 0 <= i < s.len() ==> #[trigger] text(s)[i] == Glyph::Char(s[i] as int),
    decreases s.len(),
{
    if s.len() > 0 {
        law_text_shows_itself(s.drop_last());
        assert forall|i: int| 0 <= i < s.len() implies #[trigger] text(s)[i] == Glyph::Char(
            s[i] as int,
        ) by {
            if i < s.len() - 1 {
                assert(text(s)[i] == text(s.drop_last())[i]);
            }
        }
    }
}

/// A page. Its view is what it shows; how the text is cut into pieces is of no
/// importance.
#[derive(Debug)]
pub struct Page {
    pub pieces: Vec<Piece>,
}

impl Page {
    pub open spec fn view(&self) -> Seq<Glyph> {
        glyphs(self.pieces@)
    }

    pub fn new() -> (r: Page)
        ensures
            r@ == Seq::<Glyph>::empty(),
    {
        Page { pieces: Vec::new() }
    }

    pub fn put(&mut self, s: &str)
        ensures
            final(self)@ == old(self)@ + text(s@),
    {
        let t = crate::text::owned(s);
        proof {
            lemma_glyphs_push(self.pieces@, Piece::Text(t));
        }
        self.pieces.push(Piece::Text(t));
    }

    pub fn put_number(&mut self, value: Value, decimals: usize, width: usize)
        ensures
            final(self)@ == old(self)@ + num(value, decimals as nat, width as nat),
    {
        let p = Piece::Number { value, decimals, width };
        proof {
            lemma_glyphs_push(self.pieces@, p);
        }
        self.pieces.push(p);
    }

    pub fn put_gauge(&mut self, part: u64, whole: u64, width: usize)
        ensures
            final(self)@ == old(self)@ + gauge(part, whole, width as nat),
    {
        let p = Piece::Gauge { part, whole, width };
        proof {
            lemma_glyphs_push(self.pieces@, p);
        }
        self.pieces.push(p);
    }

    /// Appends another page.
    pub fn put_page(&mut self, other: Page)
        ensures
            final(self)@ == old(self)@ + other@,
    {
        let mut rest = other.pieces;
        proof {
            lemma_glyphs_concat(self.pieces@, rest@);
        }
        self.pieces.append(&mut rest);
    }
}

/// Whether a page shows something as one stretch.
pub open spec fn shows(page: Seq<Glyph>, part: Seq<Glyph>) -> bool {
    exists|before: Seq<Glyph>, after: Seq<Glyph>| page == #[trigger] (before + part + after)
}

/// A page shows each stretch that it was put together from, and whatever such a
/// stretch shows.
pub proof fn law_shows(a: Seq<Glyph>, part: Seq<Glyph>, b: Seq<Glyph>, inner: Seq<Glyph>)
    ensures
        shows(a + part + b, part),
        shows(part, inner) ==> shows(a + part + b, inner),
{
    assert(a + part + b == (a + part + b));
    if shows(part, inner) {
        let (x, y) = choose|x: Seq<Glyph>, y: Seq<Glyph>| part == #[trigger] (x + inner + y);
        assert(a + part + b =~= (a + x) + inner + (y + b));
    }
}

/// Whether a number on a page is so many units, with nothing cut off.
pub open spec fn is_exactly(v: Value, amount: int, unit: int) -> bool {
    v matches Value::Quotient { num, den } && den > 0 && num * unit == amount * den
}

/// What is put on a page stands behind what was there, piece by piece: text by its
/// characters, numbers and gauges as they are.
pub proof fn law_pieces(
    pieces: Seq<Piece>,
    s: String,
    value: Value,
    part: u64,
    whole: u64,
    n: usize,
    width: usize,
)
    ensures
        glyphs(Seq::empty()) == Seq::<Glyph>::empty(),
        glyphs(pieces.push(Piece::Text(s))) == glyphs(pieces) + text(s@),
        glyphs(pieces.push(Piece::Number { value, decimals: n, width })) == glyphs(pieces).push(
            Glyph::Number { value, decimals: n as nat, width: width as nat },
        ),
        glyphs(pieces.push(Piece::Gauge { part, whole, width })) == glyphs(pieces).push(
            Glyph::Gauge { part, whole, width: width as nat },
        ),
{
    lemma_glyphs_push(pieces, Piece::Text(s));
    lemma_glyphs_push(pieces, Piece::Number { value, decimals: n, width });
    lemma_glyphs_push(pieces, Piece::Gauge { part, whole, width });
    let old = glyphs(pieces);
    assert(old + num(value, n as nat, width as nat) =~= old.push(
        Glyph::Number { value, decimals: n as nat, width: width as nat },
    ));
    assert(old + gauge(part, whole, width as nat) =~= old.push(
        Glyph::Gauge { part, whole, width: width as nat },
    ));
}

} // verus!
