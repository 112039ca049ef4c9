//! Lexicographic order on labels and a stable ordering of entries by label.

use vstd::prelude::*;
use crate::text::to_chars;

verus! {

/// `a` sorts strictly before `b`, comparing characters from the left (the
/// order of `String`'s `Ord`: UTF-8 preserves the order of code points).
pub open spec fn seq_lt(a: Seq<char>, b: Seq<char>) -> bool
    decreases a.len(),
{
    if b.len() == 0 {
        false
    } else if a.len() == 0 {
        true
    } else if a[0] != b[0] {
        a[0] < b[0]
    } else {
        seq_lt(a.skip(1), b.skip(1))
    }
}

pub open spec fn seq_le(a: Seq<char>, b: Seq<char>) -> bool {
    !seq_lt(b, a)
}

proof fn lemma_lt_asym(a: Seq<char>, b: Seq<char>)
    ensures
        seq_lt(a, b) ==> !seq_lt(b, a),
    decreases a.len(),
{
    if a.len() > 0 && b.len() > 0 && a[0] == b[0] {
        lemma_lt_asym(a.skip(1), b.skip(1));
    }
}

proof fn lemma_lt_total(a: Seq<char>, b: Seq<char>)
    ensures
        a != b ==> seq_lt(a, b) || seq_lt(b, a),
    decreases a.len(),
{
    if a.len() > 0 && b.len() > 0 && a[0] == b[0] {
        lemma_lt_total(a.skip(1), b.skip(1));
        if a.skip(1) == b.skip(1) {
            assert(a =~= seq![a[0]] + a.skip(1));
            assert(b =~= seq![b[0]] + b.skip(1));
        }
    } else if a.len() == 0 && b.len() == 0 {
        assert(a =~= b);
    }
}

proof fn lemma_lt_trans(a: Seq<char>, b: Seq<char>, c: Seq<char>)
    requires
        seq_lt(a, b),
        seq_lt(b, c),
    ensures
        seq_lt(a, c),
    decreases a.len(),
{
    if a.len() > 0 && a[0] == b[0] && b[0] == c[0] {
        lemma_lt_trans(a.skip(1), b.skip(1), c.skip(1));
    }
}

fn chars_lt(a: &Vec<char>, b: &Vec<char>) -> (r: bool)
    ensures
        r == seq_lt(a@, b@),
{
    let mut i: usize = 0;
    assert(a@.skip(0) =~= a@);
    assert(b@.skip(0) =~= b@);
    while i < a.len() && i < b.len() && a[i] == b[i]
        invariant
            i <= a@.len(),
            i <= b@.len(),
            seq_lt(a@, b@) == seq_lt(a@.skip(i as int), b@.skip(i as int)),
        decreases a@.len() - i,
    {
        assert(a@.skip(i as int).skip(1) =~= a@.skip(i + 1));
        assert(b@.skip(i as int).skip(1) =~= b@.skip(i + 1));
        i = i + 1;
    }
    if i == b.len() {
        false
    } else if i == a.len() {
        true
    } else {
        a[i] < b[i]
    }
}

/// `order` lists each index below `n` once.
pub open spec fn is_permutation(order: Seq<usize>, n: nat) -> bool {
    &&& order.len() == n
    &&& forall|k: int| 0 <= k < order.len() ==> order[k] < n
    &&& forall|k: int, l: int| 0 <= k < l < order.len() ==> order[k] != order[l]
}

/// Taking `labels` in the order `order` gives a sorted list, and equal labels
/// keep their original relative order.
pub open spec fn sorted_stably(labels: Seq<Seq<char>>, order: Seq<usize>) -> bool {
    &&& forall|k: int, l: int|
        0 <= k < l < order.len() ==> seq_le(labels[order[k] as int], labels[order[l] as int])
    &&& forall|k: int, l: int|
        0 <= k < l < order.len() && same_label(labels[order[k] as int], labels[order[l] as int])
            ==> order[k] < order[l]
}

pub open spec fn same_label(a: Seq<char>, b: Seq<char>) -> bool {
    a == b
}

pub open spec fn label_views(labels: Seq<String>) -> Seq<Seq<char>> {
    labels.map_values(|s: String| s@)
}

/// The stable sorting order of `labels`: the indices of the labels, listed
/// so that the labels ascend and equal labels keep their original order.
pub fn sort_order(labels: &Vec<String>) -> (order: Vec<usize>)
    ensures
        is_permutation(order@, labels@.len()),
        sorted_stably(label_views(labels@), order@),
{
    let ghost lv = label_views(labels@);
    let mut chars: Vec<Vec<char>> = Vec::new();
    let mut i: usize = 0;
    while i < labels.len()
        invariant
            i <= labels@.len(),
            chars@.len() == i,
            lv == label_views(labels@),
            forall|k: int| 0 <= k < i ==> (#[trigger] chars@[k])@ == lv[k],
        decreases labels@.len() - i,
    {
        chars.push(to_chars(labels[i].as_str()));
        i = i + 1;
    }
    let mut order: Vec<usize> = Vec::new();
    let mut i: usize = 0;
    while i < labels.len()
        invariant
            i <= labels@.len(),
            chars@.len() == labels@.len(),
            lv == label_views(labels@),
            lv.len() == labels@.len(),
            forall|k: int| 0 <= k < chars@.len() ==> (#[trigger] chars@[k])@ == lv[k],
            is_permutation(order@, i as nat),
            sorted_stably(lv, order@),
        decreases labels@.len() - i,
    {
        let mut p: usize = 0;
        while p < order.len() && !chars_lt(&chars[i], &chars[order[p]])
            invariant
                p <= order@.len(),
                i < chars@.len(),
                is_permutation(order@, i as nat),
                lv.len() == chars@.len(),
                forall|k: int| 0 <= k < chars@.len() ==> (#[trigger] chars@[k])@ == lv[k],
                forall|k: int| 0 <= k < p ==> !seq_lt(lv[i as int], lv[order@[k] as int]),
            decreases order@.len() - p,
        {
            p = p + 1;
        }
        let ghost old_order = order@;
        order.insert(p, i);
        proof {
            assert forall|k: int| 0 <= k < order@.len() implies order@[k] < i + 1 by {
                if k > p {
                    assert(order@[k] == old_order[k - 1]);
                }
            }
            assert forall|k: int, l: int| 0 <= k < l < order@.len() implies order@[k]
                != order@[l] by {
                if k < p && l > p {
                    assert(order@[l] == old_order[l - 1]);
                } else if k > p {
                    assert(order@[l] == old_order[l - 1]);
                    assert(order@[k] == old_order[k - 1]);
                } else if k == p {
                    assert(order@[l] == old_order[l - 1]);
                }
            }
            assert forall|k: int, l: int|
                0 <= k < l < order@.len() implies seq_le(
                lv[order@[k] as int],
                lv[order@[l] as int],
            ) && (same_label(lv[order@[k] as int], lv[order@[l] as int]) ==> order@[k] < order@[l]) by {
                let x = lv[i as int];
                if l < p {
                } else if k < p && l == p {
                    lemma_lt_asym(x, lv[old_order[k] as int]);
                    lemma_lt_total(x, lv[old_order[k] as int]);
                } else if k < p && l > p {
                    assert(order@[l] == old_order[l - 1]);
                } else if k == p {
                    assert(order@[l] == old_order[l - 1]);
                    let y = lv[old_order[p as int] as int];
                    let z = lv[old_order[l - 1] as int];
                    assert(seq_lt(x, y));
                    if p < l - 1 {
                        assert(seq_le(y, z));
                        lemma_lt_total(y, z);
                        if y != z {
                            lemma_lt_trans(x, y, z);
                        }
                    }
                    assert(seq_lt(x, z));
                    lemma_lt_asym(x, z);
                } else {
                    assert(order@[l] == old_order[l - 1]);
                    assert(order@[k] == old_order[k - 1]);
                }
            }
            assert(sorted_stably(lv, order@));
        }
        i = i + 1;
    }
    order
}

/// Rearranges `items` so that position `k` holds `items[order[k]]`.
pub fn arrange<T>(items: Vec<T>, order: &Vec<usize>) -> (r: Vec<T>)
    requires
        is_permutation(order@, items@.len()),
    ensures
        r@.len() == items@.len(),
        forall|k: int| 0 <= k < r@.len() ==> r@[k] == items@[order@[k] as int],
{
    let ghost orig = items@;
    let mut items = items;
    let mut slots: Vec<Option<T>> = Vec::new();
    let n = items.len();
    while items.len() > 0
        invariant
            slots@.len() + items@.len() == n,
            n == orig.len(),
            items@ == orig.subrange(slots@.len() as int, n as int),
            forall|j: int| 0 <= j < slots@.len() ==> slots@[j] == Some(orig[j]),
        decreases items@.len(),
    {
        let x = items.remove(0);
        slots.push(Some(x));
        assert(items@ =~= orig.subrange(slots@.len() as int, n as int));
    }
    let mut r: Vec<T> = Vec::new();
    let mut k: usize = 0;
    while k < n
        invariant
            k <= n,
            n == orig.len(),
            slots@.len() == n,
            r@.len() == k,
            is_permutation(order@, n as nat),
            forall|j: int| 0 <= j < k ==> r@[j] == orig[order@[j] as int],
            forall|j: int|
                0 <= j < n ==> (slots@[j] is None <==> exists|m: int| 0 <= m < k && order@[m] == j),
            forall|j: int| 0 <= j < n && slots@[j] is Some ==> slots@[j] == Some(orig[j]),
        decreases n - k,
    {
        let j = order[k];
        assert(slots@[j as int] is Some) by {
            if slots@[j as int] is None {
                let m = choose|m: int| 0 <= m < k && order@[m] == j;
                assert(order@[m] != order@[k as int]);
            }
        }
        let x = slots[j].take();
        match x {
            Some(v) => {
                r.push(v);
            },
            None => {},
        }
        assert forall|jj: int|
            0 <= jj < n implies (slots@[jj] is None <==> exists|m: int|
                0 <= m < k + 1 && order@[m] == jj) by {
            if jj == j {
                assert(order@[k as int] == jj);
            }
        }
        k = k + 1;
    }
    r
}

} // verus!
