//! Stable sorting by a key, largest key first: the order in which both note
//! lists are shown.
use vstd::prelude::*;

verus! {

/// `p` shows that `out` is `input` stably sorted by `keys`, largest first:
/// `out[k] == input[p[k]]`, `p` is a permutation, keys do not increase along
/// `out`, and items with equal keys keep their input order.
pub open spec fn sort_witness<T>(input: Seq<T>, keys: Seq<int>, out: Seq<T>, p: Seq<int>) -> bool {
    &&& p.len() == out.len() == input.len() == keys.len()
    &&& forall|k: int| 0 <= k < p.len() ==> 0 <= #[trigger] p[k] < input.len()
    &&& forall|k: int| 0 <= k < p.len() ==> out[k] == input[#[trigger] p[k]]
    &&& forall|a: int, b: int| 0 <= a < b < p.len() ==> #[trigger] p[a] != #[trigger] p[b]
    &&& forall|a: int, b: int|
        0 <= a < b < p.len() ==> keys[#[trigger] p[a]] >= keys[#[trigger] p[b]]
    &&& forall|a: int, b: int|
        0 <= a < b < p.len() && keys[#[trigger] p[a]] == keys[#[trigger] p[b]] ==> p[a] < p[b]
}

/// `out` is `input` stably sorted by `keys`, largest key first (what
/// `sort_by` with a descending comparison on the key gives).
pub open spec fn stable_sorted_desc<T>(input: Seq<T>, keys: Seq<int>, out: Seq<T>) -> bool {
    exists|p: Seq<int>| sort_witness(input, keys, out, p)
}

/// The keys as integers.
pub open spec fn key_ints(keys: Seq<u128>) -> Seq<int> {
    keys.map_values(|k: u128| k as int)
}

/// Sorts `items` by `keys` (one key per item), largest first, keeping the
/// input order among equal keys.
pub fn stable_sort_desc<T>(items: Vec<T>, keys: &Vec<u128>) -> (out: Vec<T>)
    requires
        items@.len() == keys@.len(),
    ensures
        stable_sorted_desc(items@, key_ints(keys@), out@),
{
    let ghost orig = items@;
    let ghost ks = key_ints(keys@);
    let mut rest = items;
    let mut out: Vec<T> = Vec::new();
    let mut out_keys: Vec<u128> = Vec::new();
    let ghost mut p: Seq<int> = Seq::empty();
    let n = keys.len();
    let mut i: usize = 0;
    while i < n
        invariant
            n == keys@.len() == orig.len() == ks.len(),
            ks == key_ints(keys@),
            i <= n,
            rest@ == orig.skip(i as int),
            out@.len() == i == p.len() == out_keys@.len(),
            forall|k: int| 0 <= k < i ==> 0 <= #[trigger] p[k] < i,
            forall|k: int| 0 <= k < i ==> out@[k] == orig[#[trigger] p[k]],
            forall|k: int| 0 <= k < i ==> out_keys@[k] as int == ks[#[trigger] p[k]],
            forall|a: int, b: int| 0 <= a < b < i ==> #[trigger] p[a] != #[trigger] p[b],
            forall|a: int, b: int| 0 <= a < b < i ==> out_keys@[a] >= out_keys@[b],
            forall|a: int, b: int|
                0 <= a < b < i && out_keys@[a] == out_keys@[b] ==> #[trigger] p[a] < #[trigger] p[b],
        decreases n - i,
    {
        let x = rest.remove(0);
        assert(x == orig[i as int]);
        assert(rest@ =~= orig.skip(i + 1));
        let kx = keys[i];
        assert(kx as int == ks[i as int]);
        let mut pos: usize = 0;
        while pos < out_keys.len() && out_keys[pos] >= kx
            invariant
                pos <= out_keys@.len(),
                forall|j: int| 0 <= j < pos ==> out_keys@[j] >= kx,
            decreases out_keys.len() - pos,
        {
            pos = pos + 1;
        }
        let ghost old_out = out@;
        let ghost old_keys = out_keys@;
        let ghost old_p = p;
        out.insert(pos, x);
        out_keys.insert(pos, kx);
        proof {
            p = p.insert(pos as int, i as int);
            assert forall|k: int| 0 <= k < i + 1 implies 0 <= #[trigger] p[k] < i + 1 by {
                if k < pos {
                    assert(p[k] == old_p[k]);
                } else if k > pos {
                    assert(p[k] == old_p[k - 1]);
                }
            }
            assert forall|k: int| 0 <= k < i + 1 implies out@[k] == orig[#[trigger] p[k]] by {
                if k < pos {
                    assert(p[k] == old_p[k]);
                } else if k > pos {
                    assert(p[k] == old_p[k - 1]);
                }
            }
            assert forall|k: int| 0 <= k < i + 1 implies out_keys@[k] as int == ks[#[trigger] p[k]] by {
                if k < pos {
                    assert(p[k] == old_p[k]);
                } else if k > pos {
                    assert(p[k] == old_p[k - 1]);
                }
            }
            assert forall|a: int, b: int| 0 <= a < b < i + 1 implies #[trigger] p[a]
                != #[trigger] p[b] by {
                let pa = if a < pos { old_p[a] } else if a == pos { i as int } else { old_p[a - 1] };
                let pb = if b < pos { old_p[b] } else if b == pos { i as int } else { old_p[b - 1] };
                assert(p[a] == pa);
                assert(p[b] == pb);
                if a != pos && b != pos {
                    let a0 = if a < pos { a } else { a - 1 };
                    let b0 = if b < pos { b } else { b - 1 };
                    assert(old_p[a0] != old_p[b0]);
                }
            }
            assert forall|a: int, b: int| 0 <= a < b < i + 1 implies out_keys@[a]
                >= out_keys@[b] by {
                if a < pos && b > pos {
                    assert(old_keys[a] >= kx);
                } else if a == pos && b > pos {
                    assert(old_keys[pos as int] < kx);
                    if b - 1 > pos {
                        assert(old_keys[pos as int] >= old_keys[b - 1]);
                    }
                } else if a < pos && b == pos {
                    assert(old_keys[a] >= kx);
                } else if a > pos {
                    assert(old_keys[a - 1] >= old_keys[b - 1]);
                } else {
                    assert(old_keys[a] >= old_keys[b]);
                }
            }
            assert forall|a: int, b: int|
                0 <= a < b < i + 1 && out_keys@[a] == out_keys@[b] implies #[trigger] p[a]
                < #[trigger] p[b] by {
                if a < pos && b > pos {
                    assert(old_p[a] < old_p[b - 1]);
                } else if a == pos && b > pos {
                    assert(old_keys[pos as int] < kx);
                    if b - 1 > pos {
                        assert(old_keys[pos as int] >= old_keys[b - 1]);
                    }
                } else if a < pos && b == pos {
                    assert(p[a] == old_p[a]);
                } else if a > pos {
                    assert(old_p[a - 1] < old_p[b - 1]);
                } else {
                    assert(old_p[a] < old_p[b]);
                }
            }
        }
        i = i + 1;
    }
    proof {
        assert(sort_witness(orig, ks, out@, p));
    }
    out
}

} // verus!
