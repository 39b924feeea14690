use vstd::prelude::*;

use crate::labels::{JumpAnnotation, Label};
use crate::order::{is_stable_order, stable_order};

verus! {

/// One label key drawn over the character at `char_idx`.
#[derive(Clone, Copy, Debug, PartialEq, Eq, Structural)]
pub struct Overlay {
    pub char_idx: usize,
    pub grapheme: char,
}

/// The part of the editor's view that a jump session touches: the cursor,
/// whether the text is dimmed, and the three overlay slots.
#[derive(Debug)]
pub struct JumpView {
    pub cursor: usize,
    pub dimmed: bool,
    /// Keys of one-key labels.
    pub single: Vec<Overlay>,
    /// First keys of two-key labels.
    pub multi_first: Vec<Overlay>,
    /// Second keys of two-key labels, one column to the right.
    pub multi_rest: Vec<Overlay>,
}

impl JumpView {
    /// No label overlay is shown.
    pub open spec fn labels_cleared(&self) -> bool {
        &&& self.single@.len() == 0
        &&& self.multi_first@.len() == 0
        &&& self.multi_rest@.len() == 0
    }
}

/// A color by its red, green and blue parts.
#[derive(Clone, Copy, Debug, PartialEq, Eq, Structural)]
pub struct Rgb {
    pub r: u8,
    pub g: u8,
    pub b: u8,
}

/// Color and weight of label text.
#[derive(Clone, Copy, Debug, PartialEq, Eq, Structural)]
pub struct Style {
    pub fg: Rgb,
    pub bold: bool,
}

/// The three kinds of label overlay, each drawn in a style of its own.
#[derive(Clone, Copy, Debug, PartialEq, Eq, Structural)]
pub enum LabelKind {
    Single,
    MultiFirst,
    MultiRest,
}

/// The style a kind of label overlay is drawn in when the theme sets none.
pub open spec fn fallback_style(kind: LabelKind) -> Style {
    match kind {
        LabelKind::Single => Style { fg: Rgb { r: 0xff, g: 0x00, b: 0x7c }, bold: true },
        LabelKind::MultiFirst => Style { fg: Rgb { r: 0x00, g: 0xdf, b: 0xff }, bold: true },
        LabelKind::MultiRest => Style { fg: Rgb { r: 0x2b, g: 0x8d, b: 0xb3 }, bold: false },
    }
}

/// The style for a kind of label overlay: the theme's, else the fallback.
pub fn apply_style(kind: LabelKind, themed: Option<Style>) -> (r: Style)
    ensures
        r == match themed {
            Some(s) => s,
            None => fallback_style(kind),
        },
{
    match themed {
        Some(s) => s,
        None => match kind {
            LabelKind::Single => Style { fg: Rgb { r: 0xff, g: 0x00, b: 0x7c }, bold: true },
            LabelKind::MultiFirst => Style { fg: Rgb { r: 0x00, g: 0xdf, b: 0xff }, bold: true },
            LabelKind::MultiRest => Style { fg: Rgb { r: 0x2b, g: 0x8d, b: 0xb3 }, bold: false },
        },
    }
}

/// Dims the text of the view so that labels stand out.
pub fn apply_dimming(view: &mut JumpView)
    ensures
        final(view).dimmed,
        final(view).cursor == old(view).cursor,
        final(view).single@ == old(view).single@,
        final(view).multi_first@ == old(view).multi_first@,
        final(view).multi_rest@ == old(view).multi_rest@,
{
    view.dimmed = true;
}

/// Removes the dimming and every label overlay from the view.
pub fn clear_dimming(view: &mut JumpView)
    ensures
        !final(view).dimmed,
        final(view).labels_cleared(),
        final(view).cursor == old(view).cursor,
{
    view.dimmed = false;
    view.single = Vec::new();
    view.multi_first = Vec::new();
    view.multi_rest = Vec::new();
}

/// Overlays of the one-key labels of `anns`, in the order of `anns`.
pub open spec fn single_overlays(anns: Seq<JumpAnnotation>) -> Seq<Overlay>
    decreases anns.len(),
{
    if anns.len() == 0 {
        Seq::empty()
    } else {
        let prev = single_overlays(anns.drop_last());
        match anns.last().keys {
            Label::Single(a) => prev.push(Overlay { char_idx: anns.last().loc, grapheme: a }),
            Label::Double(_, _) => prev,
        }
    }
}

/// Overlays of the first keys of the two-key labels of `anns`, in order.
pub open spec fn first_overlays(anns: Seq<JumpAnnotation>) -> Seq<Overlay>
    decreases anns.len(),
{
    if anns.len() == 0 {
        Seq::empty()
    } else {
        let prev = first_overlays(anns.drop_last());
        match anns.last().keys {
            Label::Single(_) => prev,
            Label::Double(a, _) => prev.push(Overlay { char_idx: anns.last().loc, grapheme: a }),
        }
    }
}

/// Overlays of the second keys of the two-key labels of `anns`, one offset
/// after the target, in order.
pub open spec fn rest_overlays(anns: Seq<JumpAnnotation>) -> Seq<Overlay>
    decreases anns.len(),
{
    if anns.len() == 0 {
        Seq::empty()
    } else {
        let prev = rest_overlays(anns.drop_last());
        match anns.last().keys {
            Label::Single(_) => prev,
            Label::Double(_, b) => prev.push(
                Overlay { char_idx: (anns.last().loc + 1) as usize, grapheme: b },
            ),
        }
    }
}

/// The offsets of `v`, in order.
pub open spec fn offsets(v: Seq<Overlay>) -> Seq<usize> {
    Seq::new(v.len(), |i: int| v[i].char_idx)
}

/// `out` is `v` sorted by offset, overlays at one offset in their order in `v`.
pub open spec fn sorts_overlays(v: Seq<Overlay>, out: Seq<Overlay>) -> bool {
    exists|idx: Seq<usize>|
        is_stable_order(offsets(v), idx) && out.len() == v.len()
            && forall|k: int| 0 <= k < out.len() ==> #[trigger] out[k] == v[idx[k] as int]
}

/// When every label of `anns` has one key, the one-key slot gets an overlay
/// per annotation, in order, and the two-key slots get none.
pub proof fn lemma_single_key_overlays(anns: Seq<JumpAnnotation>)
    requires
        forall|i: int| 0 <= i < anns.len() ==> (#[trigger] anns[i]).keys is Single,
    ensures
        single_overlays(anns) == Seq::new(
            anns.len(),
            |i: int| Overlay { char_idx: anns[i].loc, grapheme: anns[i].keys->Single_0 },
        ),
        first_overlays(anns).len() == 0,
        rest_overlays(anns).len() == 0,
    decreases anns.len(),
{
    if anns.len() > 0 {
        let prev = anns.drop_last();
        assert forall|i: int| 0 <= i < prev.len() implies (#[trigger] prev[i]).keys is Single by {
            assert(prev[i] == anns[i]);
        }
        lemma_single_key_overlays(prev);
        assert(anns.last() == anns[anns.len() - 1]);
        assert(single_overlays(anns) =~= Seq::new(
            anns.len(),
            |i: int| Overlay { char_idx: anns[i].loc, grapheme: anns[i].keys->Single_0 },
        ));
    }
}

/// Sorts overlays by offset, keeping the order of overlays at one offset.
fn sort_by_offset(v: Vec<Overlay>) -> (r: Vec<Overlay>)
    ensures
        sorts_overlays(v@, r@),
{
    let n = v.len();
    let ghost keys_spec = offsets(v@);
    let mut keys: Vec<usize> = Vec::new();
    let mut i: usize = 0;
    while i < n
        invariant
            n == v@.len(),
            i <= n,
            keys_spec == offsets(v@),
            keys@ == keys_spec.take(i as int),
        decreases n - i,
    {
        keys.push(v[i].char_idx);
        assert(keys@ == keys_spec.take(i + 1));
        i = i + 1;
    }
    assert(keys@ == keys_spec);
    let idx = stable_order(&keys);
    let mut out: Vec<Overlay> = Vec::new();
    let mut k: usize = 0;
    while k < n
        invariant
            n == v@.len(),
            keys_spec == offsets(v@),
            is_stable_order(keys_spec, idx@),
            k <= n,
            out@.len() == k,
            forall|j: int| 0 <= j < k ==> #[trigger] out@[j] == v@[idx@[j] as int],
        decreases n - k,
    {
        out.push(v[idx[k]]);
        k = k + 1;
    }
    assert(is_stable_order(keys_spec, idx@) && out@.len() == v@.len() && forall|k: int|
        0 <= k < out@.len() ==> #[trigger] out@[k] == v@[idx@[k] as int]);
    out
}

/// Replaces the view's overlay slots with the labels of `anns`: one-key
/// labels, first keys and second keys of two-key labels, each slot sorted by
/// offset.
pub fn show_overlays(view: &mut JumpView, anns: &Vec<JumpAnnotation>)
    requires
        forall|i: int| 0 <= i < anns@.len() ==> #[trigger] anns@[i].loc < usize::MAX,
    ensures
        sorts_overlays(single_overlays(anns@), final(view).single@),
        sorts_overlays(first_overlays(anns@), final(view).multi_first@),
        sorts_overlays(rest_overlays(anns@), final(view).multi_rest@),
        final(view).cursor == old(view).cursor,
        final(view).dimmed == old(view).dimmed,
{
    let mut single: Vec<Overlay> = Vec::new();
    let mut first: Vec<Overlay> = Vec::new();
    let mut rest: Vec<Overlay> = Vec::new();
    let mut i: usize = 0;
    while i < anns.len()
        invariant
            i <= anns@.len(),
            forall|j: int| 0 <= j < anns@.len() ==> #[trigger] anns@[j].loc < usize::MAX,
            single@ == single_overlays(anns@.take(i as int)),
            first@ == first_overlays(anns@.take(i as int)),
            rest@ == rest_overlays(anns@.take(i as int)),
        decreases anns@.len() - i,
    {
        let jump = anns[i];
        assert(anns@.take(i + 1).drop_last() == anns@.take(i as int));
        match jump.keys {
            Label::Single(a) => {
                single.push(Overlay { char_idx: jump.loc, grapheme: a });
            },
            Label::Double(a, b) => {
                first.push(Overlay { char_idx: jump.loc, grapheme: a });
                rest.push(Overlay { char_idx: jump.loc + 1, grapheme: b });
            },
        }
        i = i + 1;
    }
    assert(anns@.take(anns@.len() as int) == anns@);
    view.single = sort_by_offset(single);
    view.multi_first = sort_by_offset(first);
    view.multi_rest = sort_by_offset(rest);
}

} // verus!
