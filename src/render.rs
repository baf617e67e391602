use vstd::prelude::*;
use crate::key::{Key, all_chars};
use crate::session::{SessionView, TestState, deep, lemma_segments};

verus! {

/// How one on-screen position of a word is drawn.
#[derive(Debug, Clone, Copy, PartialEq, Eq, Structural)]
pub enum Glyph {
    /// The typed character matches the expected one.
    Correct(char),
    /// The typed character (shown) differs from the expected one.
    Incorrect(char),
    /// Nothing typed here yet: the expected character, underlined when the
    /// word was passed over rather than being typed now.
    Pending { ch: char, underlined: bool },
    /// A typed character beyond the end of the expected word.
    Overflow(char),
}

/// The character of a character key.
pub open spec fn key_char(k: Key) -> char {
    match k {
        Key::Char(c) => c,
        _ => ' ',
    }
}

/// The glyph at position `i` of an expected word and the user's attempt.
pub open spec fn glyph_at(word: Seq<Key>, typed: Seq<Key>, underline_pending: bool, i: int) -> Glyph {
    if i < word.len() && i < typed.len() {
        if word[i] == typed[i] {
            Glyph::Correct(key_char(typed[i]))
        } else {
            Glyph::Incorrect(key_char(typed[i]))
        }
    } else if i < word.len() {
        Glyph::Pending { ch: key_char(word[i]), underlined: underline_pending }
    } else {
        Glyph::Overflow(key_char(typed[i]))
    }
}

pub open spec fn max_nat(a: nat, b: nat) -> nat {
    if a >= b { a } else { b }
}

/// Every glyph of a word, position by position, up to the longer of the
/// expected word and the attempt.
pub open spec fn glyphs_of(word: Seq<Key>, typed: Seq<Key>, underline_pending: bool) -> Seq<Glyph> {
    Seq::new(max_nat(word.len(), typed.len()), |i: int| glyph_at(word, typed, underline_pending, i))
}

fn char_of(k: Key) -> (c: char)
    requires
        k is Char,
    ensures
        c == key_char(k),
{
    match k {
        Key::Char(c) => c,
        _ => ' ',
    }
}

/// Classifies every position of `word` against the attempt `typed`. A word
/// not reached yet (`None`) is all pending and plain; in a reached word the
/// pending positions are underlined unless it is the current word.
pub fn word_glyphs(word: &Vec<Key>, typed: Option<&Vec<Key>>, is_current_word: bool) -> (r: Vec<Glyph>)
    requires
        all_chars(word@),
        typed is Some ==> all_chars(typed->0@),
    ensures
        r@ == glyphs_of(
            word@,
            match typed {
                Some(t) => t@,
                None => Seq::empty(),
            },
            typed is Some && !is_current_word,
        ),
{
    let empty: Vec<Key> = Vec::new();
    let t: &Vec<Key> = match typed {
        Some(t) => t,
        None => &empty,
    };
    let underline = typed.is_some() && !is_current_word;
    let n = if word.len() >= t.len() { word.len() } else { t.len() };
    let ghost g = glyphs_of(word@, t@, underline);
    let mut r: Vec<Glyph> = Vec::new();
    let mut i: usize = 0;
    while i < n
        invariant
            i <= n,
            n == g.len(),
            g == glyphs_of(word@, t@, underline),
            all_chars(word@),
            all_chars(t@),
            r@ == g.take(i as int),
        decreases n - i,
    {
        let glyph = if i < word.len() && i < t.len() {
            if word[i] == t[i] {
                Glyph::Correct(char_of(t[i]))
            } else {
                Glyph::Incorrect(char_of(t[i]))
            }
        } else if i < word.len() {
            Glyph::Pending { ch: char_of(word[i]), underlined: underline }
        } else {
            Glyph::Overflow(char_of(t[i]))
        };
        assert(glyph == g[i as int]);
        r.push(glyph);
        assert(r@ =~= g.take(i + 1));
        i += 1;
    }
    assert(r@ =~= g);
    r
}

/// Where a word starts, in rows and columns from the top-left corner of
/// the text area.
#[derive(Debug, Clone, Copy, PartialEq, Eq, Structural)]
pub struct Placement {
    pub row: usize,
    pub col: usize,
}

/// Each length as a natural number.
pub open spec fn nats(s: Seq<usize>) -> Seq<nat> {
    Seq::new(s.len(), |i: int| s[i] as nat)
}

/// Row and column reached after laying out words of the given display
/// lengths, each followed by one blank, in a text area `width` columns wide.
/// A word whose cells would run past the right edge starts the next row.
pub open spec fn cursor_after(lens: Seq<nat>, width: nat) -> (nat, nat)
    decreases lens.len(),
{
    if lens.len() == 0 {
        (0, 0)
    } else {
        let (row, col) = cursor_after(lens.drop_last(), width);
        let cells = lens.last() + 1;
        if col + cells > width {
            (row + 1, cells)
        } else {
            (row, col + cells)
        }
    }
}

/// Where word `i` starts.
pub open spec fn place(lens: Seq<nat>, width: nat, i: int) -> (nat, nat) {
    let (row, col) = cursor_after(lens.take(i), width);
    if col + lens[i] + 1 > width {
        (row + 1, 0)
    } else {
        (row, col)
    }
}

/// Lays out words of the given display lengths, left to right and top to
/// bottom, never splitting a word across rows.
pub fn layout(lens: &Vec<usize>, width: u16) -> (r: Vec<Placement>)
    ensures
        r.len() == lens.len(),
        forall|i: int|
            0 <= i < r.len() ==> (#[trigger] r@[i]).row == place(nats(lens@), width as nat, i).0
                && r@[i].col == place(nats(lens@), width as nat, i).1,
{
    let w = width as usize;
    let ghost ls = nats(lens@);
    let mut r: Vec<Placement> = Vec::new();
    let mut row: usize = 0;
    // The column reached, held at `w + 1` once it is past the edge: past
    // the edge every word wraps alike.
    let mut col: usize = 0;
    let mut i: usize = 0;
    assert(ls.take(0) =~= Seq::<nat>::empty());
    while i < lens.len()
        invariant
            i <= lens.len(),
            w == width as nat,
            ls == nats(lens@),
            r.len() == i,
            row <= i,
            row == cursor_after(ls.take(i as int), w as nat).0,
            col == if cursor_after(ls.take(i as int), w as nat).1 > w + 1 {
                (w + 1) as nat
            } else {
                cursor_after(ls.take(i as int), w as nat).1
            },
            forall|j: int|
                0 <= j < i ==> (#[trigger] r@[j]).row == place(ls, w as nat, j).0 && r@[j].col
                    == place(ls, w as nat, j).1,
        decreases lens.len() - i,
    {
        let m = lens[i];
        proof {
            assert(ls.take(i + 1).drop_last() =~= ls.take(i as int));
            assert(ls.take(i + 1).last() == m as nat);
        }
        if col > w || m >= w - col {
            row += 1;
            r.push(Placement { row, col: 0 });
            col = if m > w { w + 1 } else { m + 1 };
        } else {
            r.push(Placement { row, col });
            col = col + m + 1;
        }
        i += 1;
    }
    r
}

/// The text area of a terminal: its width, and the column and row of its
/// top-left corner.
#[derive(Debug, Clone, Copy, PartialEq, Eq, Structural)]
pub struct Viewport {
    pub width: u16,
    pub left: u16,
    pub top: u16,
}

impl Viewport {
    /// The text area of a terminal of the given size: at most 60 columns,
    /// leaving at least 5 free on each side, centred, starting three rows
    /// above the middle.
    pub fn of_terminal(columns: u16, rows: u16) -> (v: Viewport)
        requires
            columns >= 10,
            rows >= 6,
        ensures
            v.width == if columns - 10 <= 60 { columns - 10 } else { 60 },
            v.left == (columns - v.width) / 2,
            v.top == rows / 2 - 3,
    {
        let width = if columns - 10 <= 60 { columns - 10 } else { 60 };
        Viewport { width, left: (columns - width) / 2, top: rows / 2 - 3 }
    }
}

/// One word of a frame: where it starts and how each position is drawn.
#[derive(Debug, Clone, PartialEq, Eq)]
pub struct WordFrame {
    pub at: Placement,
    pub glyphs: Vec<Glyph>,
}

/// The user's attempt at word `i`, once that word was reached.
pub open spec fn attempt(s: SessionView, i: int) -> Option<Seq<Key>> {
    if i < s.segments().len() {
        Some(s.segments()[i])
    } else {
        None
    }
}

/// The number of columns word `i` takes, blank not counted: the longer of
/// the word and the attempt at it.
pub open spec fn display_len(s: SessionView, i: int) -> nat {
    match attempt(s, i) {
        Some(t) => max_nat(s.words[i].len(), t.len()),
        None => s.words[i].len(),
    }
}

pub open spec fn display_lens(s: SessionView) -> Seq<nat> {
    Seq::new(s.words.len(), |i: int| display_len(s, i))
}

/// How word `i` is drawn.
pub open spec fn word_glyphs_of(s: SessionView, i: int) -> Seq<Glyph> {
    match attempt(s, i) {
        Some(t) => glyphs_of(s.words[i], t, i != s.word_index),
        None => glyphs_of(s.words[i], Seq::empty(), false),
    }
}

impl TestState {
    /// Everything a redraw shows, for a text area `width` columns wide: each
    /// word in order, where it starts and how each of its positions is drawn.
    pub fn frame(&self, width: u16) -> (r: Vec<WordFrame>)
        requires
            self.wf(),
        ensures
            r.len() == self@.words.len(),
            forall|i: int|
                0 <= i < r.len() ==> (#[trigger] r@[i]).at.row == place(
                    display_lens(self@),
                    width as nat,
                    i,
                ).0 && r@[i].at.col == place(display_lens(self@), width as nat, i).1
                    && r@[i].glyphs@ == word_glyphs_of(self@, i),
    {
        let segs = self.typed_words();
        proof {
            lemma_segments(self@);
        }
        let n = self.word_list.len();
        let mut lens: Vec<usize> = Vec::new();
        let mut i: usize = 0;
        while i < n
            invariant
                self.wf(),
                n == self@.words.len(),
                deep(segs@) == self@.segments(),
                i <= n,
                lens.len() == i,
                forall|j: int| 0 <= j < i ==> (lens@[j] as nat) == #[trigger] display_len(self@, j),
            decreases n - i,
        {
            let wl = self.word_list[i].len();
            let m = if i < segs.len() && segs[i].len() > wl {
                segs[i].len()
            } else {
                wl
            };
            proof {
                assert(self@.words[i as int] == self.word_list@[i as int]@);
                if i < segs.len() {
                    assert(self@.segments()[i as int] == segs@[i as int]@);
                }
            }
            lens.push(m);
            i += 1;
        }
        assert(nats(lens@) =~= display_lens(self@));
        let places = layout(&lens, width);
        let mut r: Vec<WordFrame> = Vec::new();
        let mut i: usize = 0;
        while i < n
            invariant
                self.wf(),
                n == self@.words.len(),
                deep(segs@) == self@.segments(),
                forall|k: int| 0 <= k < self@.segments().len() ==> all_chars(#[trigger] self@.segments()[k]),
                i <= n,
                places.len() == n,
                nats(lens@) == display_lens(self@),
                forall|j: int|
                    0 <= j < n ==> (#[trigger] places@[j]).row == place(nats(lens@), width as nat, j).0
                        && places@[j].col == place(nats(lens@), width as nat, j).1,
                r.len() == i,
                forall|j: int|
                    0 <= j < i ==> (#[trigger] r@[j]).at == places@[j] && r@[j].glyphs@ == word_glyphs_of(self@, j),
            decreases n - i,
        {
            proof {
                assert(self@.words[i as int] == self.word_list@[i as int]@);
            }
            let typed = if i < segs.len() {
                proof {
                    assert(self@.segments()[i as int] == segs@[i as int]@);
                }
                Some(&segs[i])
            } else {
                None
            };
            let glyphs = word_glyphs(&self.word_list[i], typed, i == self.word_index);
            r.push(WordFrame { at: places[i], glyphs });
            i += 1;
        }
        r
    }
}

} // verus!
