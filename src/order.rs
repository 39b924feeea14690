use vstd::prelude::*;

verus! {

/// Item `a` goes before item `b` when its key is smaller, or when the keys are
/// equal and it came first.
pub open spec fn key_before(keys: Seq<usize>, a: int, b: int) -> bool {
    keys[a] < keys[b] || (keys[a] == keys[b] && a < b)
}

/// `idx` lists every index of `keys` once, ordered by key, equal keys in their
/// original order: the permutation that a stable sort by key performs.
pub open spec fn is_stable_order(keys: Seq<usize>, idx: Seq<usize>) -> bool {
    &&& idx.len() == keys.len()
    &&& forall|k: int| 0 <= k < idx.len() ==> idx[k] < keys.len()
    &&& forall|j: usize| j < keys.len() ==> #[trigger] idx.contains(j)
    &&& forall|k1: int, k2: int|
        0 <= k1 < k2 < idx.len() ==> #[trigger] key_before(keys, idx[k1] as int, idx[k2] as int)
}

/// The order in which a stable sort by `keys` puts the items.
pub fn stable_order(keys: &Vec<usize>) -> (r: Vec<usize>)
    ensures
        is_stable_order(keys@, r@),
{
    let n = keys.len();
    let mut out: Vec<usize> = Vec::new();
    let mut i: usize = 0;
    while i < n
        invariant
            n == keys@.len(),
            i <= n,
            out@.len() == i,
            forall|k: int| 0 <= k < out@.len() ==> out@[k] < i,
            forall|j: usize| j < i ==> #[trigger] out@.contains(j),
            forall|k1: int, k2: int|
                0 <= k1 < k2 < out@.len() ==> #[trigger] key_before(
                    keys@,
                    out@[k1] as int,
                    out@[k2] as int,
                ),
        decreases n - i,
    {
        let mut pos: usize = 0;
        while pos < out.len() && keys[out[pos]] <= keys[i]
            invariant
                n == keys@.len(),
                i < n,
                pos <= out@.len(),
                forall|k: int| 0 <= k < out@.len() ==> out@[k] < i,
                forall|k: int| 0 <= k < pos ==> keys@[out@[k] as int] <= keys@[i as int],
            decreases out@.len() - pos,
        {
            pos = pos + 1;
        }
        let ghost prev = out@;
        out.insert(pos, i);
        proof {
            let s = out@;
            assert(s == prev.insert(pos as int, i));
            assert forall|k1: int, k2: int| 0 <= k1 < k2 < s.len() implies #[trigger] key_before(
                keys@,
                s[k1] as int,
                s[k2] as int,
            ) by {
                if k2 < pos {
                    assert(key_before(keys@, prev[k1] as int, prev[k2] as int));
                } else if k2 == pos {
                    assert(keys@[prev[k1] as int] <= keys@[i as int]);
                } else if k1 < pos {
                    assert(key_before(keys@, prev[k1] as int, prev[k2 - 1] as int));
                } else if k1 == pos {
                    if k2 - 1 > pos {
                        assert(key_before(keys@, prev[pos as int] as int, prev[k2 - 1] as int));
                    }
                } else {
                    assert(key_before(keys@, prev[k1 - 1] as int, prev[k2 - 1] as int));
                }
            }
            assert forall|j: usize| j < i + 1 implies #[trigger] s.contains(j) by {
                if j == i {
                    assert(s[pos as int] == j);
                } else {
                    assert(prev.contains(j));
                    let k = choose|k: int| 0 <= k < prev.len() && prev[k] == j;
                    if k < pos {
                        assert(s[k] == j);
                    } else {
                        assert(s[k + 1] == j);
                    }
                }
            }
        }
        i = i + 1;
    }
    out
}

} // verus!
