use vstd::prelude::*;

verus! {

/// Whether `c` is a line break.
pub open spec fn is_newline(c: char) -> bool {
    c == '\n'
}

/// Offset of the first character of the line that holds offset `i`.
pub open spec fn line_start(t: Seq<char>, i: int) -> int
    decreases i,
{
    if i <= 0 {
        0
    } else if t[i - 1] == '\n' {
        i
    } else {
        line_start(t, i - 1)
    }
}

/// Finds the start of the line that holds offset `i`.
pub fn line_start_of(text: &Vec<char>, i: usize) -> (r: usize)
    requires
        i <= text@.len(),
    ensures
        r as int == line_start(text@, i as int),
{
    let mut j: usize = i;
    while j > 0 && text[j - 1] != '\n'
        invariant
            j <= i <= text@.len(),
            line_start(text@, j as int) == line_start(text@, i as int),
        decreases j,
    {
        j = j - 1;
    }
    j
}


/// Number of line breaks among the characters at offsets `a..b`.
pub open spec fn newlines_between(t: Seq<char>, a: int, b: int) -> nat
    decreases b - a,
{
    if b <= a {
        0
    } else {
        newlines_between(t, a, b - 1) + if t[b - 1] == '\n' { 1nat } else { 0nat }
    }
}

/// Offset just past the `n`-th line that starts at or after offset `i`, or the
/// end of the text when fewer lines follow.
pub open spec fn lines_end(t: Seq<char>, i: int, n: nat) -> int
    decreases t.len() - i, n,
{
    if n == 0 || i >= t.len() {
        if i >= t.len() { t.len() as int } else { i }
    } else if t[i] == '\n' {
        lines_end(t, i + 1, (n - 1) as nat)
    } else {
        lines_end(t, i + 1, n)
    }
}

/// A screen coordinate: the row counts from the first visible line, the column
/// from the start of the line.
#[derive(Clone, Copy, Debug, PartialEq, Eq, Structural)]
pub struct Position {
    pub row: usize,
    pub col: usize,
}

/// What the editor shows of a text: `anchor` is an offset on the first
/// visible line, `height` the number of visible lines, and the visible columns
/// are `horizontal_offset .. horizontal_offset + width`.
#[derive(Clone, Copy, Debug, PartialEq, Eq, Structural)]
pub struct Viewport {
    pub anchor: usize,
    pub height: usize,
    pub horizontal_offset: usize,
    pub width: usize,
}

impl Viewport {
    /// The view's anchor lies inside the text (or just past its end).
    pub open spec fn wf(&self, t: Seq<char>) -> bool {
        self.anchor <= t.len()
    }

    /// First offset of the visible range.
    pub open spec fn start(&self, t: Seq<char>) -> int {
        line_start(t, self.anchor as int)
    }

    /// Offset just past the visible range.
    pub open spec fn end(&self, t: Seq<char>) -> int {
        lines_end(t, self.start(t), self.height as nat)
    }

    /// Whether a screen column is inside the visible horizontal window.
    pub open spec fn shows_col(&self, col: int) -> bool {
        self.horizontal_offset <= col < self.horizontal_offset + self.width
    }

    /// Screen position of offset `off`, when it lies at or after the start of
    /// the visible range and inside the text.
    pub open spec fn coords(&self, t: Seq<char>, off: int) -> Option<Position> {
        if self.start(t) <= off <= t.len() {
            Some(
                Position {
                    row: newlines_between(t, self.start(t), off) as usize,
                    col: (off - line_start(t, off)) as usize,
                },
            )
        } else {
            None
        }
    }
}

pub proof fn lemma_line_start_bounds(t: Seq<char>, i: int)
    requires
        0 <= i <= t.len(),
    ensures
        0 <= line_start(t, i) <= i,
    decreases i,
{
    if i > 0 && t[i - 1] != '\n' {
        lemma_line_start_bounds(t, i - 1);
    }
}

proof fn lemma_lines_end_bounds(t: Seq<char>, i: int, n: nat)
    requires
        0 <= i <= t.len(),
    ensures
        i <= lines_end(t, i, n) <= t.len(),
    decreases t.len() - i, n,
{
    if n == 0 || i >= t.len() {
    } else if t[i] == '\n' {
        lemma_lines_end_bounds(t, i + 1, (n - 1) as nat);
    } else {
        lemma_lines_end_bounds(t, i + 1, n);
    }
}

proof fn lemma_newlines_bound(t: Seq<char>, a: int, b: int)
    ensures
        newlines_between(t, a, b) <= if b <= a { 0 } else { b - a },
    decreases b - a,
{
    if b > a {
        lemma_newlines_bound(t, a, b - 1);
    }
}

/// Screen coordinates of an offset in the text are no larger than the text is
/// long.
pub proof fn lemma_coords_bounds(t: Seq<char>, view: Viewport, off: int)
    requires
        view.wf(t),
        t.len() < usize::MAX,
    ensures
        view.coords(t, off) matches Some(p) ==> p.row <= t.len() && p.col <= t.len(),
{
    lemma_boundary_in_text(t, view);
    if view.start(t) <= off <= t.len() {
        lemma_newlines_bound(t, view.start(t), off);
        lemma_line_start_bounds(t, off);
    }
}

/// The visible range lies inside the text.
pub proof fn lemma_boundary_in_text(t: Seq<char>, view: Viewport)
    requires
        view.wf(t),
    ensures
        0 <= view.start(t) <= view.end(t) <= t.len(),
{
    lemma_line_start_bounds(t, view.anchor as int);
    lemma_lines_end_bounds(t, view.start(t), view.height as nat);
}

/// The offset range `start .. end` that the view shows: whole lines, from the
/// line that holds the anchor, `height` lines down (or to the end of the text).
pub fn view_boundary(text: &Vec<char>, view: &Viewport) -> (r: (usize, usize))
    requires
        view.wf(text@),
    ensures
        r.0 as int == view.start(text@),
        r.1 as int == view.end(text@),
        r.0 <= r.1 <= text@.len(),
{
    let start = line_start_of(text, view.anchor);
    proof {
        lemma_line_start_bounds(text@, view.anchor as int);
        lemma_lines_end_bounds(text@, start as int, view.height as nat);
    }
    let mut i: usize = start;
    let mut n: usize = view.height;
    while n > 0 && i < text.len()
        invariant
            start <= i <= text@.len(),
            lines_end(text@, i as int, n as nat) == view.end(text@),
        decreases text@.len() - i,
    {
        if text[i] == '\n' {
            n = n - 1;
        }
        i = i + 1;
    }
    (start, i)
}

/// Evaluates whether screen column `col` is within the view's horizontal
/// window.
pub fn is_within_view_x(col: usize, view: &Viewport) -> (r: bool)
    ensures
        r == view.shows_col(col as int),
{
    view.horizontal_offset <= col && col - view.horizontal_offset < view.width
}

/// Screen position of offset `off` in the view, or `None` when it lies before
/// the visible range or past the end of the text.
pub fn screen_coords_at(text: &Vec<char>, view: &Viewport, off: usize) -> (r: Option<Position>)
    requires
        view.wf(text@),
    ensures
        r == view.coords(text@, off as int),
{
    let start = line_start_of(text, view.anchor);
    if off < start || off > text.len() {
        return None;
    }
    let mut rows: usize = 0;
    let mut i: usize = start;
    while i < off
        invariant
            start <= i <= off <= text@.len(),
            rows == newlines_between(text@, start as int, i as int),
            rows <= i - start,
        decreases off - i,
    {
        if text[i] == '\n' {
            rows = rows + 1;
        }
        i = i + 1;
    }
    let ls = line_start_of(text, off);
    proof {
        lemma_line_start_bounds(text@, off as int);
    }
    Some(Position { row: rows, col: off - ls })
}

/// Screen position of the cursor at offset `cursor`, or the origin when it is
/// not on screen.
pub fn cursor_at(text: &Vec<char>, view: &Viewport, cursor: usize) -> (r: Position)
    requires
        view.wf(text@),
    ensures
        r == match view.coords(text@, cursor as int) {
            Some(p) => p,
            None => Position { row: 0, col: 0 },
        },
{
    match screen_coords_at(text, view, cursor) {
        Some(p) => p,
        None => Position { row: 0, col: 0 },
    }
}

} // verus!
