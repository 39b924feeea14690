use vstd::prelude::*;

use crate::viewport::{is_within_view_x, line_start, view_boundary, Viewport};

verus! {

/// What `char::is_alphanumeric` returns for `c`.
pub uninterp spec fn alphanumeric(c: char) -> bool;

/// Relies on `char::is_alphanumeric`: whether `c` has Unicode's Alphabetic or
/// Numeric property, a function of `c` alone.
#[verifier::external_body]
fn is_alphanumeric(c: char) -> (r: bool)
    ensures
        r == alphanumeric(c),
        ('a' <= c <= 'z' || 'A' <= c <= 'Z' || '0' <= c <= '9') ==> r,
        (c == ' ' || c == '\n') ==> !r,
{
    c.is_alphanumeric()
}

/// A selection of the text: the cursor lands on `head`, `anchor` is the other
/// end.
#[derive(Clone, Copy, Debug, PartialEq, Eq, Structural)]
pub struct Range {
    pub anchor: usize,
    pub head: usize,
}

impl Range {
    /// The empty selection at `i`.
    pub fn point(i: usize) -> (r: Range)
        ensures
            r == (Range { anchor: i, head: i }),
    {
        Range { anchor: i, head: i }
    }
}

/// Characters that make up words: letters, digits and the underscore.
pub open spec fn is_word_char(c: char) -> bool {
    alphanumeric(c) || c == '_'
}

/// Whether `c` belongs to a word.
pub fn char_is_word(c: char) -> (r: bool)
    ensures
        r == is_word_char(c),
{
    c == '_' || is_alphanumeric(c)
}

/// The word classes of the characters of `t`: `true` for a word character.
pub open spec fn classes(t: Seq<char>) -> Seq<bool> {
    Seq::new(t.len(), |i: int| is_word_char(t[i]))
}

/// Offset `i` holds the first character of a word, by the classes `cls`.
pub open spec fn is_word_start(cls: Seq<bool>, i: int) -> bool {
    &&& 0 <= i < cls.len()
    &&& cls[i]
    &&& (i == 0 || !cls[i - 1])
}

/// Offset of the last character of the run of word characters that holds `i`,
/// counting from `i` onwards.
pub open spec fn word_last(cls: Seq<bool>, i: int) -> int
    decreases cls.len() - i,
{
    if 0 <= i && i + 1 < cls.len() && cls[i + 1] {
        word_last(cls, i + 1)
    } else {
        i
    }
}

/// Screen column of offset `i`.
pub open spec fn col_of(t: Seq<char>, i: int) -> int {
    i - line_start(t, i)
}

/// Offset `i` is the start of a word that ends before `end` and whose start is
/// in the view's horizontal window.
pub open spec fn is_word_target(t: Seq<char>, cls: Seq<bool>, view: Viewport, i: int, end: int) -> bool {
    &&& is_word_start(cls, i)
    &&& word_last(cls, i) < end
    &&& view.shows_col(col_of(t, i))
}

/// The target of the word that starts at `i` in a range that starts at `lo`:
/// a point at the range's first character, else a selection from the word's
/// last character back to its start, where the cursor lands.
pub open spec fn word_target(cls: Seq<bool>, lo: int, i: int) -> Range {
    if i == lo {
        Range { anchor: i as usize, head: i as usize }
    } else {
        Range { anchor: word_last(cls, i) as usize, head: i as usize }
    }
}

/// The word targets among offsets `lo .. hi`, in text order.
pub open spec fn word_targets(t: Seq<char>, cls: Seq<bool>, view: Viewport, lo: int, hi: int, end: int) -> Seq<Range>
    decreases hi - lo,
{
    if hi <= lo {
        Seq::empty()
    } else {
        let prev = word_targets(t, cls, view, lo, hi - 1, end);
        if is_word_target(t, cls, view, hi - 1, end) {
            prev.push(word_target(cls, lo, hi - 1))
        } else {
            prev
        }
    }
}

/// The point targets at offsets `lo .. hi` that hold `key`, in text order.
pub open spec fn char_targets(t: Seq<char>, key: char, lo: int, hi: int) -> Seq<Range>
    decreases hi - lo,
{
    if hi <= lo {
        Seq::empty()
    } else {
        let prev = char_targets(t, key, lo, hi - 1);
        if t[hi - 1] == key {
            prev.push(Range { anchor: (hi - 1) as usize, head: (hi - 1) as usize })
        } else {
            prev
        }
    }
}

/// Word targets lie in the range they were looked for in.
pub proof fn lemma_word_targets_in_range(t: Seq<char>, cls: Seq<bool>, view: Viewport, lo: int, hi: int, end: int)
    requires
        0 <= lo,
        hi <= usize::MAX,
    ensures
        forall|k: int|
            0 <= k < word_targets(t, cls, view, lo, hi, end).len() ==> lo <= (#[trigger] word_targets(
                t,
                cls,
                view,
                lo,
                hi,
                end,
            )[k]).head < hi && is_word_target(
                t,
                cls,
                view,
                word_targets(t, cls, view, lo, hi, end)[k].head as int,
                end,
            ),
    decreases hi - lo,
{
    if hi > lo {
        lemma_word_targets_in_range(t, cls, view, lo, hi - 1, end);
        let prev = word_targets(t, cls, view, lo, hi - 1, end);
        let cur = word_targets(t, cls, view, lo, hi, end);
        assert forall|k: int| 0 <= k < cur.len() implies lo <= (#[trigger] cur[k]).head < hi
            && is_word_target(t, cls, view, cur[k].head as int, end) by {
            if k < prev.len() {
                assert(cur[k] == prev[k]);
            }
        }
    }
}

proof fn lemma_run_is_word(cls: Seq<bool>, i: int, h: int)
    requires
        0 <= i < cls.len(),
        cls[i],
        i <= h <= word_last(cls, i),
    ensures
        cls[h],
    decreases cls.len() - i,
{
    if h > i {
        lemma_run_is_word(cls, i + 1, h);
    }
}

/// When the range starts inside a word, the cut-off part of that word yields
/// no target: every target lies past the word's last character.
pub proof fn lemma_truncated_word_skipped(t: Seq<char>, cls: Seq<bool>, view: Viewport, start: int, end: int)
    requires
        0 < start < cls.len(),
        end <= usize::MAX,
        cls[start - 1],
        cls[start],
    ensures
        forall|k: int|
            0 <= k < word_targets(t, cls, view, start, end, end).len() ==> (#[trigger] word_targets(
                t,
                cls,
                view,
                start,
                end,
                end,
            )[k]).head > word_last(cls, start),
{
    lemma_word_targets_in_range(t, cls, view, start, end, end);
    let ts = word_targets(t, cls, view, start, end, end);
    assert forall|k: int| 0 <= k < ts.len() implies (#[trigger] ts[k]).head > word_last(cls, start) by {
        let h = ts[k].head as int;
        if h <= word_last(cls, start) {
            if h > start {
                lemma_run_is_word(cls, start, h - 1);
            }
        }
    }
}

/// Character targets lie in the range they were looked for in.
pub proof fn lemma_char_targets_in_range(t: Seq<char>, key: char, lo: int, hi: int)
    requires
        0 <= lo,
        hi <= usize::MAX,
    ensures
        forall|k: int|
            0 <= k < char_targets(t, key, lo, hi).len() ==> lo <= (#[trigger] char_targets(
                t,
                key,
                lo,
                hi,
            )[k]).head < hi,
    decreases hi - lo,
{
    if hi > lo {
        lemma_char_targets_in_range(t, key, lo, hi - 1);
        let prev = char_targets(t, key, lo, hi - 1);
        let cur = char_targets(t, key, lo, hi);
        assert forall|k: int| 0 <= k < cur.len() implies lo <= (#[trigger] cur[k]).head < hi by {
            if k < prev.len() {
                assert(cur[k] == prev[k]);
            }
        }
    }
}

/// Offset of the last character of the word that starts at `i`.
fn word_end(cls: &Vec<bool>, i: usize) -> (r: usize)
    requires
        i < cls@.len(),
    ensures
        r as int == word_last(cls@, i as int),
{
    let mut j: usize = i;
    while j < cls.len() - 1 && cls[j + 1]
        invariant
            i <= j < cls@.len(),
            word_last(cls@, j as int) == word_last(cls@, i as int),
        decreases cls@.len() - j,
    {
        j = j + 1;
    }
    j
}

/// The word class of every character of `text`.
pub fn word_classes(text: &Vec<char>) -> (r: Vec<bool>)
    ensures
        r@ == classes(text@),
{
    let mut out: Vec<bool> = Vec::new();
    let mut i: usize = 0;
    while i < text.len()
        invariant
            i <= text@.len(),
            out@ =~= classes(text@).take(i as int),
        decreases text@.len() - i,
    {
        out.push(char_is_word(text[i]));
        i = i + 1;
    }
    assert(out@ =~= classes(text@));
    out
}

/// The starts of the words in `start .. end`, by the word classes `cls` of
/// the characters of `text`, whose last character comes before `end` and whose
/// column the view shows. A word cut off by `start` is no target; a word at
/// `start` gets a point target.
pub fn find_word_targets_by_class(
    text: &Vec<char>,
    cls: &Vec<bool>,
    view: &Viewport,
    start: usize,
    end: usize,
) -> (r: Vec<Range>)
    requires
        cls@.len() == text@.len(),
        start <= end <= text@.len(),
    ensures
        r@ == word_targets(text@, cls@, *view, start as int, end as int, end as int),
{
    let mut out: Vec<Range> = Vec::new();
    let mut ls: usize = line_start_before(text, start);
    let mut i: usize = start;
    while i < end
        invariant
            cls@.len() == text@.len(),
            start <= i <= end <= text@.len(),
            ls as int == line_start(text@, i as int),
            ls <= i,
            out@ == word_targets(text@, cls@, *view, start as int, i as int, end as int),
        decreases end - i,
    {
        let starts_word = cls[i] && (i == 0 || !cls[i - 1]);
        if starts_word {
            let last = word_end(cls, i);
            if last < end && is_within_view_x(i - ls, view) {
                if i == start {
                    out.push(Range::point(i));
                } else {
                    out.push(Range { anchor: last, head: i });
                }
            }
        }
        if text[i] == '\n' {
            ls = i + 1;
        }
        i = i + 1;
    }
    out
}

/// The word targets in `start .. end`, as `find_word_targets_by_class` finds
/// them with the word classes of `text`.
pub fn find_word_targets_in(text: &Vec<char>, view: &Viewport, start: usize, end: usize) -> (r: Vec<Range>)
    requires
        start <= end <= text@.len(),
    ensures
        r@ == word_targets(text@, classes(text@), *view, start as int, end as int, end as int),
{
    let cls = word_classes(text);
    find_word_targets_by_class(text, &cls, view, start, end)
}

fn line_start_before(text: &Vec<char>, i: usize) -> (r: usize)
    requires
        i <= text@.len(),
    ensures
        r as int == line_start(text@, i as int),
        r <= i,
{
    let r = crate::viewport::line_start_of(text, i);
    proof {
        crate::viewport::lemma_line_start_bounds(text@, i as int);
    }
    r
}

/// Every word start in the visible range whose word ends inside it and whose
/// column is on screen, in text order.
pub fn find_all_identifiers_in_view(text: &Vec<char>, view: &Viewport) -> (r: Vec<Range>)
    requires
        view.wf(text@),
    ensures
        r@ == word_targets(
            text@,
            classes(text@),
            *view,
            view.start(text@),
            view.end(text@),
            view.end(text@),
        ),
{
    let (start, end) = view_boundary(text, view);
    find_word_targets_in(text, view, start, end)
}

/// Every offset in the visible range that holds `key`, in text order.
pub fn find_all_char_occurrences(text: &Vec<char>, view: &Viewport, key: char) -> (r: Vec<Range>)
    requires
        view.wf(text@),
    ensures
        r@ == char_targets(text@, key, view.start(text@), view.end(text@)),
{
    let (start, end) = view_boundary(text, view);
    let mut out: Vec<Range> = Vec::new();
    let mut i: usize = start;
    while i < end
        invariant
            start <= i <= end <= text@.len(),
            out@ == char_targets(text@, key, start as int, i as int),
        decreases end - i,
    {
        if text[i] == key {
            out.push(Range::point(i));
        }
        i = i + 1;
    }
    out
}

} // verus!
