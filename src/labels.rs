use vstd::prelude::*;

use crate::locations::Range;

verus! {

/// The key sequence that selects one jump target: one key, or two keys typed
/// in turn.
#[derive(Clone, Copy, Debug, PartialEq, Eq, Structural)]
pub enum Label {
    Single(char),
    Double(char, char),
}

impl Label {
    /// The keys of the label, in the order they are typed.
    pub open spec fn keys(&self) -> Seq<char> {
        match *self {
            Label::Single(a) => seq![a],
            Label::Double(a, b) => seq![a, b],
        }
    }
}

/// A jump target's landing offset and the label that selects it.
#[derive(Clone, Copy, Debug, PartialEq, Eq, Structural)]
pub struct JumpAnnotation {
    pub loc: usize,
    pub keys: Label,
}

/// `a` is a prefix of `b`.
pub open spec fn is_prefix(a: Seq<char>, b: Seq<char>) -> bool {
    a.len() <= b.len() && b.subrange(0, a.len() as int) == a
}

/// No label of `anns` is a prefix of another's (nor equal to it).
pub open spec fn prefix_free(anns: Seq<JumpAnnotation>) -> bool {
    forall|i: int, j: int|
        0 <= i < anns.len() && 0 <= j < anns.len() && i != j ==> !is_prefix(
            #[trigger] anns[i].keys.keys(),
            #[trigger] anns[j].keys.keys(),
        )
}

/// How many of `n` targets get a label from an alphabet of `k` keys: all of
/// them up to `k * k`, which is at least `k`.
pub open spec fn label_count(n: int, k: int) -> int {
    if n <= k * k {
        n
    } else {
        k * k
    }
}

/// The label of the `i`-th nearest of `n` targets: the `i`-th key when every
/// target can have a key of its own, else the two keys at the digits of `i`
/// in base `k`, the first varying slowest.
pub open spec fn label_for(alphabet: Seq<char>, n: int, i: int) -> Label {
    let k = alphabet.len() as int;
    if n <= k {
        Label::Single(alphabet[i])
    } else {
        Label::Double(alphabet[i / k], alphabet[i % k])
    }
}

/// The annotations that `targets`, sorted nearest first, get from `alphabet`.
pub open spec fn annotations_for(targets: Seq<Range>, alphabet: Seq<char>) -> Seq<JumpAnnotation> {
    Seq::new(
        label_count(targets.len() as int, alphabet.len() as int) as nat,
        |i: int| JumpAnnotation { loc: targets[i].head, keys: label_for(alphabet, targets.len() as int, i) },
    )
}

/// The keys that labels are drawn from, most convenient first.
pub fn jump_keys() -> (r: Vec<char>)
    ensures
        r@ == seq![
            'e', 't', 'o', 'v', 'x', 'q', 'p', 'd', 'y', 'g', 'f', 'b',
            'l', 'z', 'h', 'c', 'k', 'i', 's', 'u', 'r', 'a', 'n',
        ],
{
    vec![
        'e', 't', 'o', 'v', 'x', 'q', 'p', 'd', 'y', 'g', 'f', 'b',
        'l', 'z', 'h', 'c', 'k', 'i', 's', 'u', 'r', 'a', 'n',
    ]
}

proof fn lemma_digits_determine(i: int, j: int, k: int)
    requires
        k > 0,
        0 <= i,
        0 <= j,
        i / k == j / k,
        i % k == j % k,
    ensures
        i == j,
{
    assert(i == k * (i / k) + i % k) by (nonlinear_arith)
        requires
            k > 0,
    ;
    assert(j == k * (j / k) + j % k) by (nonlinear_arith)
        requires
            k > 0,
    ;
}

proof fn lemma_digits_bounds(i: int, k: int)
    requires
        k > 0,
        0 <= i < k * k,
    ensures
        0 <= i / k < k,
        0 <= i % k < k,
{
    assert(0 <= i / k < k) by (nonlinear_arith)
        requires
            k > 0,
            0 <= i < k * k,
    ;
}

/// Gives the nearest targets labels in priority order (`jump_targets` is
/// sorted nearest first): one key each while there are no more targets than
/// keys, else two keys each, for at most `k * k` targets; the rest get none.
pub fn assign_labels(jump_targets: &Vec<Range>, alphabet: &Vec<char>) -> (r: Vec<JumpAnnotation>)
    requires
        alphabet@.len() * alphabet@.len() <= usize::MAX,
    ensures
        r@.len() == label_count(jump_targets@.len() as int, alphabet@.len() as int),
        forall|i: int|
            0 <= i < r@.len() ==> #[trigger] r@[i] == (JumpAnnotation {
                loc: jump_targets@[i].head,
                keys: label_for(alphabet@, jump_targets@.len() as int, i),
            }),
        jump_targets@.len() <= alphabet@.len() ==> r@.len() == jump_targets@.len() && forall|i: int|
            0 <= i < r@.len() ==> (#[trigger] r@[i]).keys == Label::Single(alphabet@[i]),
        alphabet@.no_duplicates() ==> prefix_free(r@),
        r@ == annotations_for(jump_targets@, alphabet@),
{
    let n = jump_targets.len();
    let k = alphabet.len();
    let count: usize = if n <= k * k {
        n
    } else {
        k * k
    };
    let mut out: Vec<JumpAnnotation> = Vec::new();
    let mut i: usize = 0;
    while i < count
        invariant
            n == jump_targets@.len(),
            k == alphabet@.len(),
            count == label_count(n as int, k as int),
            i <= count <= n,
            out@.len() == i,
            forall|j: int|
                0 <= j < i ==> #[trigger] out@[j] == (JumpAnnotation {
                    loc: jump_targets@[j].head,
                    keys: label_for(alphabet@, n as int, j),
                }),
        decreases count - i,
    {
        let keys = if n <= k {
            Label::Single(alphabet[i])
        } else {
            proof {
                lemma_digits_bounds(i as int, k as int);
            }
            Label::Double(alphabet[i / k], alphabet[i % k])
        };
        assert(keys == label_for(alphabet@, n as int, i as int));
        let ghost prev = out@;
        out.push(JumpAnnotation { loc: jump_targets[i].head, keys });
        assert(out@ == prev.push(JumpAnnotation { loc: jump_targets@[i as int].head, keys }));
        i = i + 1;
    }
    proof {
        assert(k <= k * k) by (nonlinear_arith);
        assert(out@ =~= annotations_for(jump_targets@, alphabet@));
        if alphabet@.no_duplicates() {
            assert forall|a: int, b: int|
                0 <= a < out@.len() && 0 <= b < out@.len() && a != b implies !is_prefix(
                #[trigger] out@[a].keys.keys(),
                #[trigger] out@[b].keys.keys(),
            ) by {
                let ka = out@[a].keys.keys();
                let kb = out@[b].keys.keys();
                if is_prefix(ka, kb) {
                    if n <= k {
                        assert(ka[0] == kb[0]);
                    } else {
                        lemma_digits_bounds(a, k as int);
                        lemma_digits_bounds(b, k as int);
                        assert(ka[0] == kb[0]);
                        assert(ka[1] == kb[1]);
                        lemma_digits_determine(a, b, k as int);
                    }
                }
            }
        }
    }
    out
}

} // verus!
