use vstd::prelude::*;

use crate::annotate::{
    first_overlays, lemma_single_key_overlays, rest_overlays, show_overlays, single_overlays,
    sorts_overlays, JumpView, Overlay,
};
use crate::labels::{
    annotations_for, assign_labels, is_prefix, label_count, prefix_free, JumpAnnotation, Label,
};
use crate::locations::{
    char_targets, find_all_char_occurrences, find_all_identifiers_in_view,
    classes, lemma_char_targets_in_range, lemma_word_targets_in_range, word_targets, Range,
};
use crate::score::{sort_jump_targets, sorts_targets};
use crate::viewport::Viewport;

verus! {

/// Where a jump session stands.
#[derive(Clone, Copy, Debug, PartialEq, Eq, Structural)]
pub enum SessionState {
    /// Labels are shown; no key typed yet.
    AwaitingFirstKey,
    /// The given key began a two-key label; one more key decides.
    AwaitingSecondKey(char),
    /// A label was typed; the cursor went to the given offset.
    Resolved(usize),
    /// The keys matched no label; nothing moved.
    Cancelled,
}

impl SessionState {
    /// The session is over.
    pub open spec fn is_terminal(self) -> bool {
        self is Resolved || self is Cancelled
    }
}

/// One jump session: the labelled targets, fixed when the session began, and
/// the state of the key input.
#[derive(Debug)]
pub struct JumpSession {
    pub annotations: Vec<JumpAnnotation>,
    pub state: SessionState,
}

/// Index of the first annotation at or after `i` whose label is `l`.
pub open spec fn find_from(anns: Seq<JumpAnnotation>, l: Label, i: int) -> Option<int>
    decreases anns.len() - i,
{
    if i < 0 || i >= anns.len() {
        None
    } else if anns[i].keys == l {
        Some(i)
    } else {
        find_from(anns, l, i + 1)
    }
}

/// Some two-key label of `anns` begins with `a`.
pub open spec fn begins_two_key(anns: Seq<JumpAnnotation>, a: char) -> bool {
    exists|i: int| 0 <= i < anns.len() && #[trigger] anns[i].keys is Double && anns[i].keys->Double_0 == a
}

/// The state after `key` is typed in state `st`.
pub open spec fn step(anns: Seq<JumpAnnotation>, st: SessionState, key: char) -> SessionState {
    match st {
        SessionState::AwaitingFirstKey => match find_from(anns, Label::Single(key), 0) {
            Some(i) => SessionState::Resolved(anns[i].loc),
            None => if begins_two_key(anns, key) {
                SessionState::AwaitingSecondKey(key)
            } else {
                SessionState::Cancelled
            },
        },
        SessionState::AwaitingSecondKey(a) => match find_from(anns, Label::Double(a, key), 0) {
            Some(i) => SessionState::Resolved(anns[i].loc),
            None => SessionState::Cancelled,
        },
        _ => st,
    }
}

proof fn lemma_find_from_found(anns: Seq<JumpAnnotation>, l: Label, i: int)
    requires
        0 <= i,
    ensures
        find_from(anns, l, i) matches Some(j) ==> i <= j < anns.len() && anns[j].keys == l,
        (exists|m: int| i <= m < anns.len() && anns[m].keys == l) ==> find_from(anns, l, i) is Some,
    decreases anns.len() - i,
{
    if i < anns.len() && anns[i].keys != l {
        lemma_find_from_found(anns, l, i + 1);
        if exists|m: int| i <= m < anns.len() && anns[m].keys == l {
            let m = choose|m: int| i <= m < anns.len() && anns[m].keys == l;
            assert(i + 1 <= m);
        }
    }
}

/// Index of the first annotation whose label is `l`.
fn find_label(anns: &Vec<JumpAnnotation>, l: Label) -> (r: Option<usize>)
    ensures
        r matches Some(i) ==> find_from(anns@, l, 0) == Some(i as int) && i < anns@.len(),
        r is None ==> find_from(anns@, l, 0) is None,
{
    proof {
        lemma_find_from_found(anns@, l, 0);
    }
    let mut i: usize = 0;
    while i < anns.len()
        invariant
            i <= anns@.len(),
            find_from(anns@, l, i as int) == find_from(anns@, l, 0),
        decreases anns@.len() - i,
    {
        if anns[i].keys == l {
            return Some(i);
        }
        i = i + 1;
    }
    None
}

/// Whether a two-key label of `anns` begins with `a`.
fn has_two_key_start(anns: &Vec<JumpAnnotation>, a: char) -> (r: bool)
    ensures
        r == begins_two_key(anns@, a),
{
    let mut i: usize = 0;
    while i < anns.len()
        invariant
            i <= anns@.len(),
            forall|j: int|
                0 <= j < i ==> !(#[trigger] anns@[j].keys is Double && anns@[j].keys->Double_0 == a),
        decreases anns@.len() - i,
    {
        if let Label::Double(f, _) = anns[i].keys {
            if f == a {
                return true;
            }
        }
        i = i + 1;
    }
    false
}

/// What a jump session looks for: word starts, or a given character.
#[derive(Clone, Copy, Debug, PartialEq, Eq, Structural)]
pub enum JumpMode {
    Word,
    Character(char),
}

/// The targets that `mode` finds in the visible range, in text order.
pub open spec fn discovered(t: Seq<char>, vp: Viewport, mode: JumpMode) -> Seq<Range> {
    match mode {
        JumpMode::Word => word_targets(t, classes(t), vp, vp.start(t), vp.end(t), vp.end(t)),
        JumpMode::Character(c) => char_targets(t, c, vp.start(t), vp.end(t)),
    }
}

/// Finds the targets of `mode` in the visible range, in text order.
pub fn discover_targets(text: &Vec<char>, vp: &Viewport, mode: JumpMode) -> (r: Vec<Range>)
    requires
        vp.wf(text@),
        text@.len() < usize::MAX,
    ensures
        r@ == discovered(text@, *vp, mode),
        forall|k: int| 0 <= k < r@.len() ==> (#[trigger] r@[k]).head < text@.len(),
{
    let r = match mode {
        JumpMode::Word => find_all_identifiers_in_view(text, vp),
        JumpMode::Character(c) => find_all_char_occurrences(text, vp, c),
    };
    proof {
        crate::viewport::lemma_boundary_in_text(text@, *vp);
        lemma_word_targets_in_range(
            text@,
            classes(text@),
            *vp,
            vp.start(text@), vp.end(text@), vp.end(text@));
        if let JumpMode::Character(c) = mode {
            lemma_char_targets_in_range(text@, c, vp.start(text@), vp.end(text@));
        }
    }
    r
}

/// Begins a jump session: finds the targets of `mode` in the visible range,
/// sorts them by distance from the cursor, labels them from `alphabet` and
/// shows the labels in the view. A session pending in `pending` is cancelled
/// first; the new one takes its place.
pub fn begin_jump(
    text: &Vec<char>,
    vp: &Viewport,
    view: &mut JumpView,
    pending: &mut Option<JumpSession>,
    mode: JumpMode,
    alphabet: &Vec<char>,
)
    requires
        vp.wf(text@),
        text@.len() < usize::MAX,
        alphabet@.len() * alphabet@.len() <= usize::MAX,
    ensures
        (*final(pending)) is Some,
        exists|sorted: Seq<Range>|
            sorts_targets(text@, *vp, old(view).cursor as int, discovered(text@, *vp, mode), sorted)
                && (*final(pending))->Some_0.annotations@ == annotations_for(sorted, alphabet@),
        alphabet@.no_duplicates() ==> prefix_free((*final(pending))->Some_0.annotations@),
        (*final(pending))->Some_0.state == SessionState::AwaitingFirstKey,
        sorts_overlays(single_overlays((*final(pending))->Some_0.annotations@), final(view).single@),
        sorts_overlays(first_overlays((*final(pending))->Some_0.annotations@), final(view).multi_first@),
        sorts_overlays(rest_overlays((*final(pending))->Some_0.annotations@), final(view).multi_rest@),
        final(view).cursor == old(view).cursor,
        final(view).dimmed == old(view).dimmed,
{
    let found = discover_targets(text, vp, mode);
    let sorted = sort_jump_targets(text, vp, view.cursor, found);
    proof {
        assert forall|k: int| 0 <= k < sorted@.len() implies (#[trigger] sorted@[k]).head < text@.len() by {
            let idx = choose|idx: Seq<usize>|
                crate::order::is_stable_order(
                    crate::score::distances(text@, *vp, view.cursor as int, found@),
                    idx,
                ) && sorted@.len() == found@.len() && forall|k: int|
                    0 <= k < sorted@.len() ==> #[trigger] sorted@[k] == found@[idx[k] as int];
            assert(sorted@[k] == found@[idx[k] as int]);
        }
    }
    let anns = assign_labels(&sorted, alphabet);
    show_key_annotations_with_callback(view, pending, anns);
}

/// Shows the labels of `annotations` in the view, replacing whatever overlays
/// it held, and starts a session that waits for the first key. A session
/// pending in `pending` is cancelled first; the new one takes its place, so
/// at most one session is ever pending.
pub fn show_key_annotations_with_callback(
    view: &mut JumpView,
    pending: &mut Option<JumpSession>,
    annotations: Vec<JumpAnnotation>,
)
    requires
        forall|i: int| 0 <= i < annotations@.len() ==> #[trigger] annotations@[i].loc < usize::MAX,
    ensures
        (*final(pending)) is Some,
        (*final(pending))->Some_0.annotations@ == annotations@,
        (*final(pending))->Some_0.state == SessionState::AwaitingFirstKey,
        sorts_overlays(single_overlays(annotations@), final(view).single@),
        sorts_overlays(first_overlays(annotations@), final(view).multi_first@),
        sorts_overlays(rest_overlays(annotations@), final(view).multi_rest@),
        final(view).cursor == old(view).cursor,
        final(view).dimmed == old(view).dimmed,
{
    if let Some(old_session) = pending {
        old_session.cancel(view);
    }
    show_overlays(view, &annotations);
    *pending = Some(JumpSession { annotations, state: SessionState::AwaitingFirstKey });
}

impl JumpSession {
    /// Consumes one key. A completed label moves the cursor to its target's
    /// offset; a key that continues no label cancels. Either way the session
    /// ends and the label overlays are cleared. A key that begins a two-key
    /// label waits for the second. An ended session ignores keys.
    pub fn on_key_press(&mut self, view: &mut JumpView, key: char)
        ensures
            final(self).annotations@ == old(self).annotations@,
            final(self).state == step(old(self).annotations@, old(self).state, key),
            !old(self).state.is_terminal() ==> (final(self).state matches SessionState::Resolved(l)
                ==> final(view).cursor == l && final(view).labels_cleared()),
            final(self).state is Cancelled && !old(self).state.is_terminal() ==> final(view).cursor
                == old(view).cursor && final(view).labels_cleared(),
            !final(self).state.is_terminal() || old(self).state.is_terminal() ==> *final(view)
                == *old(view),
            final(view).dimmed == old(view).dimmed,
    {
        let next = match self.state {
            SessionState::AwaitingFirstKey => match find_label(&self.annotations, Label::Single(key)) {
                Some(i) => SessionState::Resolved(self.annotations[i].loc),
                None => if has_two_key_start(&self.annotations, key) {
                    SessionState::AwaitingSecondKey(key)
                } else {
                    SessionState::Cancelled
                },
            },
            SessionState::AwaitingSecondKey(a) => match find_label(&self.annotations, Label::Double(a, key)) {
                Some(i) => SessionState::Resolved(self.annotations[i].loc),
                None => SessionState::Cancelled,
            },
            other => other,
        };
        let ended = match self.state {
            SessionState::AwaitingFirstKey | SessionState::AwaitingSecondKey(_) => true,
            _ => false,
        };
        if ended {
            match next {
                SessionState::Resolved(l) => {
                    view.cursor = l;
                    clear_labels(view);
                },
                SessionState::Cancelled => {
                    clear_labels(view);
                },
                _ => {},
            }
        }
        self.state = next;
    }

    /// Ends a pending session without moving the cursor, clearing its
    /// overlays; an ended session is left as it is.
    pub fn cancel(&mut self, view: &mut JumpView)
        ensures
            final(self).annotations@ == old(self).annotations@,
            old(self).state.is_terminal() ==> final(self).state == old(self).state && *final(view)
                == *old(view),
            !old(self).state.is_terminal() ==> final(self).state == SessionState::Cancelled
                && final(view).labels_cleared() && final(view).cursor == old(view).cursor,
            final(view).dimmed == old(view).dimmed,
    {
        match self.state {
            SessionState::AwaitingFirstKey | SessionState::AwaitingSecondKey(_) => {
                clear_labels(view);
                self.state = SessionState::Cancelled;
            },
            _ => {},
        }
    }
}

fn clear_labels(view: &mut JumpView)
    ensures
        final(view).labels_cleared(),
        final(view).cursor == old(view).cursor,
        final(view).dimmed == old(view).dimmed,
{
    view.single = Vec::new();
    view.multi_first = Vec::new();
    view.multi_rest = Vec::new();
}

/// With no more targets than keys, the labels shown are one overlay per
/// target in the one-key slot, each target's key being the alphabet's key at
/// the target's priority, and nothing in the two-key slots. With distinct keys,
/// no two overlays show the same key.
pub proof fn lemma_few_targets_single_slot(targets: Seq<Range>, alphabet: Seq<char>, view: JumpView)
    requires
        targets.len() <= alphabet.len(),
        sorts_overlays(single_overlays(annotations_for(targets, alphabet)), view.single@),
        sorts_overlays(first_overlays(annotations_for(targets, alphabet)), view.multi_first@),
        sorts_overlays(rest_overlays(annotations_for(targets, alphabet)), view.multi_rest@),
    ensures
        view.multi_first@.len() == 0,
        view.multi_rest@.len() == 0,
        view.single@.len() == targets.len(),
        forall|k: int|
            0 <= k < view.single@.len() ==> exists|i: int|
                0 <= i < targets.len() && #[trigger] view.single@[k] == (Overlay {
                    char_idx: targets[i].head,
                    grapheme: alphabet[i],
                }),
        alphabet.no_duplicates() ==> forall|k1: int, k2: int|
            0 <= k1 < k2 < view.single@.len() ==> (#[trigger] view.single@[k1]).grapheme
                != (#[trigger] view.single@[k2]).grapheme,
{
    let anns = annotations_for(targets, alphabet);
    let k = alphabet.len() as int;
    assert(k <= k * k) by (nonlinear_arith);
    assert(anns.len() == targets.len());
    assert forall|i: int| 0 <= i < anns.len() implies (#[trigger] anns[i]).keys is Single by {}
    lemma_single_key_overlays(anns);
    let src = single_overlays(anns);
    let idx = choose|idx: Seq<usize>|
        crate::order::is_stable_order(crate::annotate::offsets(src), idx) && view.single@.len()
            == src.len() && forall|k: int|
            0 <= k < view.single@.len() ==> #[trigger] view.single@[k] == src[idx[k] as int];
    assert forall|k: int| 0 <= k < view.single@.len() implies exists|i: int|
        0 <= i < targets.len() && #[trigger] view.single@[k] == (Overlay {
            char_idx: targets[i].head,
            grapheme: alphabet[i],
        }) by {
        assert(view.single@[k] == src[idx[k] as int]);
    }
    if alphabet.no_duplicates() {
        assert forall|k1: int, k2: int|
            0 <= k1 < k2 < view.single@.len() implies (#[trigger] view.single@[k1]).grapheme
            != (#[trigger] view.single@[k2]).grapheme by {
            assert(view.single@[k1] == src[idx[k1] as int]);
            assert(view.single@[k2] == src[idx[k2] as int]);
            assert(crate::order::key_before(crate::annotate::offsets(src), idx[k1] as int, idx[k2] as int));
        }
    }
}

/// Typing both keys of a two-key label of a prefix-free label set resolves the
/// session to exactly that label's recorded offset.
pub proof fn lemma_two_key_label_resolves(anns: Seq<JumpAnnotation>, i: int, a: char, b: char)
    requires
        prefix_free(anns),
        0 <= i < anns.len(),
        anns[i].keys == Label::Double(a, b),
    ensures
        step(anns, SessionState::AwaitingFirstKey, a) == SessionState::AwaitingSecondKey(a),
        step(anns, step(anns, SessionState::AwaitingFirstKey, a), b) == SessionState::Resolved(
            anns[i].loc,
        ),
{
    lemma_find_from_found(anns, Label::Single(a), 0);
    if let Some(j) = find_from(anns, Label::Single(a), 0) {
        assert(anns[j].keys.keys() =~= seq![a]);
        assert(anns[i].keys.keys() =~= seq![a, b]);
        assert(anns[i].keys.keys().subrange(0, 1) =~= anns[j].keys.keys());
        assert(is_prefix(anns[j].keys.keys(), anns[i].keys.keys()));
        assert(false);
    }
    assert(anns[i].keys is Double && anns[i].keys->Double_0 == a);
    assert(begins_two_key(anns, a));
    lemma_find_from_found(anns, Label::Double(a, b), 0);
    let j = find_from(anns, Label::Double(a, b), 0)->Some_0;
    if j != i {
        assert(anns[i].keys.keys().subrange(0, 2) =~= anns[j].keys.keys());
        assert(is_prefix(anns[j].keys.keys(), anns[i].keys.keys()));
    }
}

/// Typing a one-key label of a prefix-free label set resolves the session to
/// exactly that label's recorded offset.
pub proof fn lemma_one_key_label_resolves(anns: Seq<JumpAnnotation>, i: int, a: char)
    requires
        prefix_free(anns),
        0 <= i < anns.len(),
        anns[i].keys == Label::Single(a),
    ensures
        step(anns, SessionState::AwaitingFirstKey, a) == SessionState::Resolved(anns[i].loc),
{
    lemma_find_from_found(anns, Label::Single(a), 0);
    let j = find_from(anns, Label::Single(a), 0)->Some_0;
    if j != i {
        assert(anns[i].keys.keys().subrange(0, 1) =~= anns[j].keys.keys());
        assert(is_prefix(anns[j].keys.keys(), anns[i].keys.keys()));
    }
}

} // verus!
