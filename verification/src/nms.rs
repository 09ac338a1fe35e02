//! Greedy non-maximum suppression over detection boxes.
//!
//! Candidates are first stably sorted by confidence, descending.  The engine
//! then repeatedly emits the highest-confidence remaining box and discards
//! every remaining box whose IoU with it reaches the threshold.

use vstd::prelude::*;
use vstd::seq_lib::lemma_multiset_commutative;
use crate::boxes::{DetBox, Ratio, iou_ge, iou_ge_spec, iou_num, iou_den};

verus! {

/// Confidence is non-increasing along the sequence.
pub open spec fn sorted_desc(s: Seq<DetBox>) -> bool {
    forall|i: int, j: int| 0 <= i < j < s.len() ==> s[i].conf >= s[j].conf
}

/// Stable descending insertion: `x` goes after every element whose
/// confidence is at least `x.conf`.
pub open spec fn insert_desc(x: DetBox, s: Seq<DetBox>) -> Seq<DetBox>
    decreases s.len(),
{
    if s.len() == 0 {
        seq![x]
    } else if s[0].conf >= x.conf {
        seq![s[0]] + insert_desc(x, s.drop_first())
    } else {
        seq![x] + s
    }
}

/// The stable sort by confidence, descending: boxes of equal confidence keep
/// their original relative order.
pub open spec fn sort_desc(s: Seq<DetBox>) -> Seq<DetBox>
    decreases s.len(),
{
    if s.len() == 0 {
        Seq::empty()
    } else {
        insert_desc(s.last(), sort_desc(s.drop_last()))
    }
}

/// A box survives a just-emitted pivot when its IoU with it is below the
/// threshold.
pub open spec fn keeps(pivot: DetBox, b: DetBox, t: Ratio) -> bool {
    !iou_ge_spec(pivot, b, t)
}

/// The boxes of `s`, in order, whose IoU with `pivot` is below the threshold.
pub open spec fn survivors(pivot: DetBox, s: Seq<DetBox>, t: Ratio) -> Seq<DetBox>
    decreases s.len(),
{
    if s.len() == 0 {
        Seq::empty()
    } else {
        let init = survivors(pivot, s.drop_last(), t);
        if keeps(pivot, s.last(), t) {
            init.push(s.last())
        } else {
            init
        }
    }
}

proof fn lemma_survivors_len(pivot: DetBox, s: Seq<DetBox>, t: Ratio)
    ensures
        survivors(pivot, s, t).len() <= s.len(),
    decreases s.len(),
{
    if s.len() > 0 {
        lemma_survivors_len(pivot, s.drop_last(), t);
    }
}

proof fn lemma_survivors_elems(pivot: DetBox, s: Seq<DetBox>, t: Ratio)
    ensures
        forall|i: int|
            0 <= i < survivors(pivot, s, t).len() ==> s.contains(#[trigger] survivors(pivot, s, t)[i])
                && keeps(pivot, survivors(pivot, s, t)[i], t),
    decreases s.len(),
{
    if s.len() > 0 {
        lemma_survivors_elems(pivot, s.drop_last(), t);
        assert forall|i: int| 0 <= i < survivors(pivot, s, t).len() implies s.contains(
            #[trigger] survivors(pivot, s, t)[i],
        ) && keeps(pivot, survivors(pivot, s, t)[i], t) by {
            let r = survivors(pivot, s, t);
            let init = survivors(pivot, s.drop_last(), t);
            if i < init.len() {
                let j = choose|j: int| 0 <= j < s.drop_last().len() && s.drop_last()[j] == init[i];
                assert(s[j] == init[i]);
            } else {
                assert(r[i] == s.last());
                assert(s[s.len() - 1] == s.last());
            }
        }
    }
}

/// Greedy NMS on a (descending-sorted) candidate sequence: emit the head,
/// drop everything that overlaps it at or above the threshold, recurse.
pub open spec fn nms_spec(s: Seq<DetBox>, t: Ratio) -> Seq<DetBox>
    decreases s.len(),
        via nms_spec_dec
{
    if s.len() == 0 {
        Seq::empty()
    } else {
        seq![s[0]] + nms_spec(survivors(s[0], s.drop_first(), t), t)
    }
}

#[via_fn]
proof fn nms_spec_dec(s: Seq<DetBox>, t: Ratio) {
    if s.len() > 0 {
        lemma_survivors_len(s[0], s.drop_first(), t);
    }
}

/// Every box that NMS emits is one of its input boxes.
pub proof fn lemma_nms_subset(s: Seq<DetBox>, t: Ratio)
    ensures
        forall|i: int|
            0 <= i < nms_spec(s, t).len() ==> s.contains(#[trigger] nms_spec(s, t)[i]),
    decreases s.len(),
{
    if s.len() > 0 {
        let rest = survivors(s[0], s.drop_first(), t);
        lemma_survivors_len(s[0], s.drop_first(), t);
        lemma_survivors_elems(s[0], s.drop_first(), t);
        lemma_nms_subset(rest, t);
        assert forall|i: int| 0 <= i < nms_spec(s, t).len() implies s.contains(
            #[trigger] nms_spec(s, t)[i],
        ) by {
            let r = nms_spec(s, t);
            if i == 0 {
                assert(r[0] == s[0]);
            } else {
                let x = r[i];
                assert(nms_spec(rest, t)[i - 1] == x);
                assert(rest.contains(x));
                let j = choose|j: int| 0 <= j < rest.len() && rest[j] == x;
                assert(s.drop_first().contains(x));
                let k = choose|k: int| 0 <= k < s.drop_first().len() && s.drop_first()[k] == x;
                assert(s[k + 1] == x);
            }
        }
    }
}

/// On a descending-sorted input, the NMS output is descending-sorted too.
pub proof fn lemma_nms_sorted(s: Seq<DetBox>, t: Ratio)
    requires
        sorted_desc(s),
    ensures
        sorted_desc(nms_spec(s, t)),
    decreases s.len(),
{
    if s.len() > 0 {
        let rest = survivors(s[0], s.drop_first(), t);
        lemma_survivors_len(s[0], s.drop_first(), t);
        lemma_survivors_elems(s[0], s.drop_first(), t);
        assert(sorted_desc(s.drop_first()));
        lemma_survivors_sorted(s[0], s.drop_first(), t);
        lemma_nms_sorted(rest, t);
        lemma_nms_subset(rest, t);
        let r = nms_spec(s, t);
        assert forall|i: int, j: int| 0 <= i < j < r.len() implies r[i].conf >= r[j].conf by {
            if i == 0 {
                let x = r[j];
                assert(nms_spec(rest, t)[j - 1] == x);
                assert(rest.contains(x));
                let k = choose|k: int| 0 <= k < rest.len() && rest[k] == x;
                assert(s.drop_first().contains(x));
                let m = choose|m: int| 0 <= m < s.drop_first().len() && s.drop_first()[m] == x;
                assert(s[m + 1] == x);
                assert(s[0].conf >= s[m + 1].conf);
            } else {
                assert(nms_spec(rest, t)[i - 1].conf >= nms_spec(rest, t)[j - 1].conf);
            }
        }
    }
}

proof fn lemma_survivors_sorted(pivot: DetBox, s: Seq<DetBox>, t: Ratio)
    requires
        sorted_desc(s),
    ensures
        sorted_desc(survivors(pivot, s, t)),
    decreases s.len(),
{
    if s.len() > 0 {
        assert(sorted_desc(s.drop_last()));
        lemma_survivors_sorted(pivot, s.drop_last(), t);
        lemma_survivors_elems(pivot, s.drop_last(), t);
        let r = survivors(pivot, s, t);
        let init = survivors(pivot, s.drop_last(), t);
        assert forall|i: int, j: int| 0 <= i < j < r.len() implies r[i].conf >= r[j].conf by {
            if j < init.len() {
                assert(init[i].conf >= init[j].conf);
            } else {
                // r[j] is s.last(); r[i] is an element of s.drop_last()
                let x = init[i];
                assert(s.drop_last().contains(x));
                let k = choose|k: int| 0 <= k < s.drop_last().len() && s.drop_last()[k] == x;
                assert(s[k] == x);
                assert(s[k].conf >= s[s.len() - 1].conf);
            }
        }
    }
}

/// Any two distinct boxes that NMS emits have IoU strictly below the
/// threshold (in both argument orders, IoU being symmetric).
pub proof fn lemma_nms_pairwise(s: Seq<DetBox>, t: Ratio)
    ensures
        forall|i: int, j: int|
            0 <= i < nms_spec(s, t).len() && 0 <= j < nms_spec(s, t).len() && i != j
                ==> !iou_ge_spec(#[trigger] nms_spec(s, t)[i], #[trigger] nms_spec(s, t)[j], t),
    decreases s.len(),
{
    if s.len() > 0 {
        let rest = survivors(s[0], s.drop_first(), t);
        lemma_survivors_len(s[0], s.drop_first(), t);
        lemma_survivors_elems(s[0], s.drop_first(), t);
        lemma_nms_pairwise(rest, t);
        lemma_nms_subset(rest, t);
        let r = nms_spec(s, t);
        assert forall|i: int, j: int|
            0 <= i < r.len() && 0 <= j < r.len() && i != j implies !iou_ge_spec(
            #[trigger] r[i],
            #[trigger] r[j],
            t,
        ) by {
            if i == 0 || j == 0 {
                let other = if i == 0 { r[j] } else { r[i] };
                let m = if i == 0 { j } else { i };
                assert(nms_spec(rest, t)[m - 1] == other);
                assert(rest.contains(other));
                assert(keeps(s[0], other, t));
                crate::boxes::lemma_iou_sym(s[0], other);
            } else {
                assert(!iou_ge_spec(nms_spec(rest, t)[i - 1], nms_spec(rest, t)[j - 1], t));
            }
        }
    }
}

proof fn lemma_survivors_all_kept(pivot: DetBox, s: Seq<DetBox>, t: Ratio)
    requires
        forall|i: int| 0 <= i < s.len() ==> keeps(pivot, #[trigger] s[i], t),
    ensures
        survivors(pivot, s, t) == s,
    decreases s.len(),
{
    if s.len() > 0 {
        assert(forall|i: int| 0 <= i < s.drop_last().len() ==> keeps(pivot, #[trigger] s.drop_last()[i], t));
        lemma_survivors_all_kept(pivot, s.drop_last(), t);
        assert(keeps(pivot, s[s.len() - 1], t));
        assert(survivors(pivot, s, t) =~= s);
    }
}

/// When no pair of input boxes reaches the threshold, NMS suppresses
/// nothing: the output is the input unchanged.  With a threshold of one
/// this says that only exact-overlap ties can ever be suppressed.
pub proof fn lemma_nms_no_overlap_keeps_all(s: Seq<DetBox>, t: Ratio)
    requires
        forall|i: int, j: int|
            0 <= i < s.len() && 0 <= j < s.len() && i != j ==> !iou_ge_spec(
                #[trigger] s[i],
                #[trigger] s[j],
                t,
            ),
    ensures
        nms_spec(s, t) == s,
    decreases s.len(),
{
    if s.len() > 0 {
        let d = s.drop_first();
        assert(forall|i: int| 0 <= i < d.len() ==> keeps(s[0], #[trigger] d[i], t));
        lemma_survivors_all_kept(s[0], d, t);
        assert(forall|i: int, j: int|
            0 <= i < d.len() && 0 <= j < d.len() && i != j ==> !iou_ge_spec(
                #[trigger] d[i],
                #[trigger] d[j],
                t,
            ));
        lemma_nms_no_overlap_keeps_all(d, t);
        assert(nms_spec(s, t) =~= s);
    }
}

proof fn lemma_survivors_none(pivot: DetBox, s: Seq<DetBox>, t: Ratio)
    requires
        t.num <= 0,
        0 < t.den,
    ensures
        survivors(pivot, s, t).len() == 0,
    decreases s.len(),
{
    if s.len() > 0 {
        lemma_survivors_none(pivot, s.drop_last(), t);
        let b = s.last();
        let n = iou_num(pivot, b);
        let d = iou_den(pivot, b);
        crate::boxes::lemma_iou_num_nonneg(pivot, b);
        if d > 0 {
            assert(n * t.den >= 0 >= t.num * d) by (nonlinear_arith)
                requires
                    n >= 0,
                    d > 0,
                    t.den > 0,
                    t.num <= 0,
            ;
        }
        assert(!keeps(pivot, b, t));
    }
}

/// With a threshold at or below zero every pair counts as overlapping, so
/// NMS keeps exactly one box of a non-empty input.
pub proof fn lemma_nms_zero_threshold(s: Seq<DetBox>, t: Ratio)
    requires
        t.num <= 0,
        0 < t.den,
    ensures
        nms_spec(s, t).len() == if s.len() == 0 { 0int } else { 1int },
{
    if s.len() > 0 {
        lemma_survivors_none(s[0], s.drop_first(), t);
        assert(nms_spec(survivors(s[0], s.drop_first(), t), t) =~= Seq::<DetBox>::empty());
        assert(nms_spec(s, t) =~= seq![s[0]] + Seq::<DetBox>::empty());
        assert(nms_spec(s, t).len() == 1);
    }
}

proof fn lemma_insert_desc_at(x: DetBox, s: Seq<DetBox>, j: int)
    requires
        0 <= j <= s.len(),
        forall|k: int| 0 <= k < j ==> s[k].conf >= x.conf,
        j == s.len() || s[j].conf < x.conf,
    ensures
        insert_desc(x, s) == s.insert(j, x),
    decreases j,
{
    if j == 0 {
        if s.len() == 0 {
            assert(insert_desc(x, s) =~= s.insert(0, x));
        } else {
            assert(s[0].conf < x.conf);
            assert(insert_desc(x, s) =~= s.insert(0, x));
        }
    } else {
        assert(s[0].conf >= x.conf);
        let d = s.drop_first();
        assert(forall|k: int| 0 <= k < j - 1 ==> #[trigger] d[k].conf >= x.conf);
        lemma_insert_desc_at(x, d, j - 1);
        assert(seq![s[0]] + d.insert(j - 1, x) =~= s.insert(j, x));
    }
}

proof fn lemma_insert_desc_multiset(x: DetBox, s: Seq<DetBox>)
    ensures
        insert_desc(x, s).to_multiset() == s.to_multiset().insert(x),
        insert_desc(x, s).len() == s.len() + 1,
    decreases s.len(),
{
    broadcast use vstd::seq_lib::group_to_multiset_ensures;

    if s.len() == 0 {
        assert(seq![x] =~= Seq::<DetBox>::empty().push(x));
        assert(insert_desc(x, s).to_multiset() =~= s.to_multiset().insert(x));
    } else if s[0].conf >= x.conf {
        lemma_insert_desc_multiset(x, s.drop_first());
        lemma_multiset_commutative(seq![s[0]], insert_desc(x, s.drop_first()));
        lemma_multiset_commutative(seq![s[0]], s.drop_first());
        assert(seq![s[0]] + s.drop_first() =~= s);
        assert(seq![s[0]].to_multiset() =~= Seq::<DetBox>::empty().push(s[0]).to_multiset());
        assert(insert_desc(x, s).to_multiset() =~= s.to_multiset().insert(x));
    } else {
        lemma_multiset_commutative(seq![x], s);
        assert(seq![x].to_multiset() =~= Seq::<DetBox>::empty().push(x).to_multiset());
        assert(insert_desc(x, s).to_multiset() =~= s.to_multiset().insert(x));
    }
}

proof fn lemma_insert_desc_sorted(x: DetBox, s: Seq<DetBox>)
    requires
        sorted_desc(s),
    ensures
        sorted_desc(insert_desc(x, s)),
    decreases s.len(),
{
    broadcast use vstd::seq_lib::group_to_multiset_ensures;

    if s.len() == 0 {
    } else if s[0].conf >= x.conf {
        let d = s.drop_first();
        assert(sorted_desc(d));
        lemma_insert_desc_sorted(x, d);
        lemma_insert_desc_multiset(x, d);
        let tail = insert_desc(x, d);
        let r = insert_desc(x, s);
        assert forall|i: int, j: int| 0 <= i < j < r.len() implies r[i].conf >= r[j].conf by {
            if i == 0 {
                let y = tail[j - 1];
                assert(tail.contains(y));
                assert(tail.to_multiset().count(y) > 0);
                if y == x {
                } else {
                    assert(d.to_multiset().count(y) > 0);
                    assert(d.contains(y));
                    let k = choose|k: int| 0 <= k < d.len() && d[k] == y;
                    assert(s[k + 1] == y);
                }
            } else {
                assert(tail[i - 1].conf >= tail[j - 1].conf);
            }
        }
    } else {
        let r = insert_desc(x, s);
        assert forall|i: int, j: int| 0 <= i < j < r.len() implies r[i].conf >= r[j].conf by {
            if i == 0 {
                assert(r[j] == s[j - 1]);
                if j > 1 {
                    assert(s[0].conf >= s[j - 1].conf);
                }
            }
        }
    }
}

/// The stable sort emits a permutation of its input, descending-sorted.
pub proof fn lemma_sort_desc_permutes(s: Seq<DetBox>)
    ensures
        sort_desc(s).to_multiset() == s.to_multiset(),
        sort_desc(s).len() == s.len(),
        sorted_desc(sort_desc(s)),
    decreases s.len(),
{
    broadcast use vstd::seq_lib::group_to_multiset_ensures;

    if s.len() > 0 {
        lemma_sort_desc_permutes(s.drop_last());
        lemma_insert_desc_multiset(s.last(), sort_desc(s.drop_last()));
        lemma_insert_desc_sorted(s.last(), sort_desc(s.drop_last()));
        assert(s =~= s.drop_last().push(s.last()));
        assert(s.drop_last().push(s.last()).to_multiset() =~= s.drop_last().to_multiset().insert(
            s.last(),
        ));
    }
}

/// Sorts boxes by confidence, descending; equal confidences keep their
/// original relative order.
pub fn sort_by_conf(boxes: &Vec<DetBox>) -> (r: Vec<DetBox>)
    ensures
        r@ == sort_desc(boxes@),
{
    let mut r: Vec<DetBox> = Vec::new();
    let mut i: usize = 0;
    while i < boxes.len()
        invariant
            i <= boxes.len(),
            r@ == sort_desc(boxes@.take(i as int)),
        decreases boxes.len() - i,
    {
        let x = boxes[i];
        let ghost prev = r@;
        let mut j: usize = 0;
        while j < r.len() && r[j].conf >= x.conf
            invariant
                j <= r.len(),
                forall|k: int| 0 <= k < j ==> r@[k].conf >= x.conf,
            decreases r.len() - j,
        {
            j += 1;
        }
        r.insert(j, x);
        proof {
            lemma_insert_desc_at(x, prev, j as int);
            assert(boxes@.take(i + 1).drop_last() =~= boxes@.take(i as int));
            assert(boxes@.take(i + 1).last() == boxes@[i as int]);
        }
        i += 1;
    }
    proof {
        assert(boxes@.take(boxes@.len() as int) =~= boxes@);
    }
    r
}

/// Greedy non-maximum suppression.  Returns the surviving boxes,
/// highest-confidence first: exactly `nms_spec` applied to the stably
/// sorted input.
pub fn suppress(boxes: &Vec<DetBox>, t: &Ratio) -> (r: Vec<DetBox>)
    requires
        forall|i: int| 0 <= i < boxes@.len() ==> (#[trigger] boxes@[i]).bounded(),
        t.wf(),
    ensures
        r@ == nms_spec(sort_desc(boxes@), *t),
{
    let mut buffer = sort_by_conf(boxes);
    proof {
        broadcast use vstd::seq_lib::group_to_multiset_ensures;

        lemma_sort_desc_permutes(boxes@);
        assert forall|i: int| 0 <= i < buffer@.len() implies (#[trigger] buffer@[i]).bounded() by {
            assert(buffer@.contains(buffer@[i]));
            assert(buffer@.to_multiset().count(buffer@[i]) > 0);
            assert(boxes@.contains(buffer@[i]));
            let k = choose|k: int| 0 <= k < boxes@.len() && boxes@[k] == buffer@[i];
        }
    }
    let ghost target = nms_spec(sort_desc(boxes@), *t);
    let mut r: Vec<DetBox> = Vec::new();
    while buffer.len() > 0
        invariant
            t.wf(),
            forall|i: int| 0 <= i < buffer@.len() ==> (#[trigger] buffer@[i]).bounded(),
            r@ + nms_spec(buffer@, *t) == target,
        decreases buffer@.len(),
    {
        let ghost buf0 = buffer@;
        let ghost r0 = r@;
        let pivot = buffer[0];
        r.push(pivot);
        let mut keep: Vec<DetBox> = Vec::new();
        let mut j: usize = 1;
        while j < buffer.len()
            invariant
                1 <= j <= buffer@.len(),
                buffer@ == buf0,
                buf0.len() >= 1,
                pivot == buf0[0],
                t.wf(),
                pivot.bounded(),
                forall|i: int| 0 <= i < buf0.len() ==> (#[trigger] buf0[i]).bounded(),
                keep@ == survivors(pivot, buf0.subrange(1, j as int), *t),
            decreases buffer@.len() - j,
        {
            let b = buffer[j];
            if !iou_ge(&pivot, &b, t) {
                keep.push(b);
            }
            proof {
                assert(buf0.subrange(1, j + 1).drop_last() =~= buf0.subrange(1, j as int));
                assert(buf0.subrange(1, j + 1).last() == buf0[j as int]);
            }
            j += 1;
        }
        proof {
            assert(buf0.subrange(1, buf0.len() as int) =~= buf0.drop_first());
            assert(nms_spec(buf0, *t) == seq![buf0[0]] + nms_spec(keep@, *t));
            lemma_survivors_elems(pivot, buf0.drop_first(), *t);
            assert forall|i: int| 0 <= i < keep@.len() implies (#[trigger] keep@[i]).bounded() by {
                assert(buf0.drop_first().contains(keep@[i]));
                let k = choose|k: int|
                    0 <= k < buf0.drop_first().len() && buf0.drop_first()[k] == keep@[i];
                assert(buf0[k + 1] == keep@[i]);
            }
            assert((r@ + nms_spec(keep@, *t)) =~= (r0 + nms_spec(buf0, *t)));
            lemma_survivors_len(pivot, buf0.drop_first(), *t);
        }
        buffer = keep;
    }
    proof {
        assert(r@ + nms_spec(buffer@, *t) =~= r@);
    }
    r
}

} // verus!
