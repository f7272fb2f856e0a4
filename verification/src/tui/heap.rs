//! A binary heap of filtered entries whose top is the entry to list first.

use super::filter::{beats, lemma_beats_order, views, FilteredEntry, FilteredView};
use vstd::multiset::Multiset;
use vstd::prelude::*;

verus! {

broadcast use {
    vstd::seq_lib::group_to_multiset_ensures,
    vstd::multiset::group_multiset_axioms,
};

spec fn parent(i: int) -> int {
    (i - 1) / 2
}

/// The entry at `i` does not beat the one above it.
spec fn ordered_at(s: Seq<FilteredView>, i: int) -> bool {
    !beats(s[i], s[parent(i)])
}

spec fn heap_ordered(s: Seq<FilteredView>) -> bool {
    forall|i: int| 0 < i < s.len() ==> #[trigger] ordered_at(s, i)
}

proof fn lemma_top_is_best(s: Seq<FilteredView>, i: int)
    requires
        heap_ordered(s),
        0 <= i < s.len(),
    ensures
        !beats(s[i], s[0]),
    decreases i,
{
    if i == 0 {
        lemma_beats_order(s[0], s[0], s[0]);
    } else {
        lemma_top_is_best(s, parent(i));
        assert(ordered_at(s, i));
        lemma_beats_order(s[i], s[parent(i)], s[0]);
    }
}

proof fn lemma_update_multiset<T>(s: Seq<T>, i: int, x: T)
    requires
        0 <= i < s.len(),
    ensures
        s.update(i, x).to_multiset() == s.to_multiset().remove(s[i]).insert(x),
{
    assert(s.update(i, x) =~= s.remove(i).insert(i, x));
    vstd::seq_lib::to_multiset_insert(s.remove(i), i, x);
}

proof fn lemma_swap_multiset<T>(s: Seq<T>, i: int, j: int)
    requires
        0 <= i < s.len(),
        0 <= j < s.len(),
    ensures
        s.update(i, s[j]).update(j, s[i]).to_multiset() == s.to_multiset(),
{
    let t = s.update(i, s[j]);
    lemma_update_multiset(s, i, s[j]);
    lemma_update_multiset(t, j, s[i]);
    assert(s.to_multiset().count(s[i]) > 0) by {
        assert(s.contains(s[i]));
    }
    assert(t.to_multiset().count(t[j]) > 0) by {
        assert(t.contains(t[j]));
    }
    assert(t[j] == s[j]);
    assert(t.update(j, s[i]).to_multiset() =~= s.to_multiset());
}

/// Swaps two elements of a vector.
fn swap<T>(v: &mut Vec<T>, i: usize, j: usize)
    requires
        i < j < old(v)@.len(),
    ensures
        final(v)@ == old(v)@.update(i as int, old(v)@[j as int]).update(
            j as int,
            old(v)@[i as int],
        ),
{
    let (low, high) = v.as_mut_slice().split_at_mut(j);
    std::mem::swap(&mut low[i], &mut high[0]);
}

/// The entry at `i` may beat the ones above it; everything else is in order.
spec fn ordered_but_up(s: Seq<FilteredView>, i: int) -> bool {
    &&& forall|j: int| 0 < j < s.len() && j != i ==> #[trigger] ordered_at(s, j)
    &&& i > 0 ==> forall|c: int|
        0 < c < s.len() && #[trigger] parent(c) == i ==> !beats(s[c], s[parent(i)])
}

/// The entry at `i` may be beaten by the ones below it; everything else is in order.
spec fn ordered_but_down(s: Seq<FilteredView>, i: int) -> bool {
    &&& forall|j: int| 0 < j < s.len() && parent(j) != i ==> #[trigger] ordered_at(s, j)
    &&& i > 0 ==> forall|c: int|
        0 < c < s.len() && #[trigger] parent(c) == i ==> !beats(s[c], s[parent(i)])
}

proof fn lemma_sift_up_step(s: Seq<FilteredView>, i: int)
    requires
        ordered_but_up(s, i),
        0 < i < s.len(),
        beats(s[i], s[parent(i)]),
    ensures
        ordered_but_up(s.update(parent(i), s[i]).update(i, s[parent(i)]), parent(i)),
{
    let p = parent(i);
    let t = s.update(p, s[i]).update(i, s[p]);
    assert forall|j: int| 0 < j < t.len() && j != p implies #[trigger] ordered_at(t, j) by {
        if j == i {
            lemma_beats_order(s[i], s[p], s[i]);
        } else if parent(j) == i {
            assert(!beats(s[j], s[p]));
        } else if parent(j) == p {
            assert(ordered_at(s, j));
            lemma_beats_order(s[i], s[p], s[j]);
            lemma_beats_order(s[j], s[p], s[i]);
            lemma_beats_order(s[j], s[i], s[p]);
        } else {
            assert(ordered_at(s, j));
        }
    }
    if p > 0 {
        assert(ordered_at(s, p));
        assert forall|c: int| 0 < c < t.len() && #[trigger] parent(c) == p implies !beats(
            t[c],
            t[parent(p)],
        ) by {
            if c != i {
                assert(ordered_at(s, c));
                lemma_beats_order(s[c], s[p], s[parent(p)]);
            }
        }
    }
}

proof fn lemma_sift_down_step(s: Seq<FilteredView>, i: int, c: int)
    requires
        ordered_but_down(s, i),
        0 <= i < s.len(),
        0 < c < s.len(),
        parent(c) == i,
        beats(s[c], s[i]),
        forall|d: int| 0 < d < s.len() && #[trigger] parent(d) == i ==> !beats(s[d], s[c]),
    ensures
        ordered_but_down(s.update(i, s[c]).update(c, s[i]), c),
{
    let t = s.update(i, s[c]).update(c, s[i]);
    assert forall|j: int| 0 < j < t.len() && parent(j) != c implies #[trigger] ordered_at(t, j) by {
        if j == c {
            lemma_beats_order(s[c], s[i], s[c]);
        } else if j == i {
            assert(!beats(s[c], s[parent(i)]));
        } else if parent(j) == i {
            assert(!beats(s[j], s[c]));
        } else {
            assert(ordered_at(s, j));
        }
    }
    assert forall|d: int| 0 < d < t.len() && #[trigger] parent(d) == c implies !beats(
        t[d],
        t[parent(c)],
    ) by {
        assert(ordered_at(s, d));
    }
}

/// Moves the entry at `start` up until it is in order.
fn sift_up(v: &mut Vec<FilteredEntry>, start: usize)
    requires
        start < old(v)@.len(),
        ordered_but_up(views(old(v)@), start as int),
    ensures
        heap_ordered(views(final(v)@)),
        views(final(v)@).to_multiset() == views(old(v)@).to_multiset(),
{
    let mut i = start;
    while i > 0 && v[i].is_before(&v[(i - 1) / 2])
        invariant
            i < v@.len(),
            ordered_but_up(views(v@), i as int),
            views(v@).to_multiset() == views(old(v)@).to_multiset(),
        decreases i,
    {
        let p = (i - 1) / 2;
        let ghost s = views(v@);
        swap(v, p, i);
        proof {
            assert(p == parent(i as int));
            assert(views(v@) =~= s.update(p as int, s[i as int]).update(i as int, s[p as int]));
            lemma_sift_up_step(s, i as int);
            lemma_swap_multiset(s, p as int, i as int);
        }
        i = p;
    }
    proof {
        let s = views(v@);
        assert(i > 0 ==> ordered_at(s, i as int));
        assert(heap_ordered(s));
    }
}

/// Moves the entry at the top down until it is in order.
fn sift_down(v: &mut Vec<FilteredEntry>)
    requires
        old(v)@.len() > 0 ==> ordered_but_down(views(old(v)@), 0),
    ensures
        heap_ordered(views(final(v)@)),
        views(final(v)@).to_multiset() == views(old(v)@).to_multiset(),
{
    let n = v.len();
    let mut i: usize = 0;
    while i < n / 2
        invariant_except_break
            n == v@.len(),
            n > 0 ==> i < n && ordered_but_down(views(v@), i as int),
            views(v@).to_multiset() == views(old(v)@).to_multiset(),
        ensures
            heap_ordered(views(v@)),
            views(v@).to_multiset() == views(old(v)@).to_multiset(),
        decreases n - i,
    {
        let ghost s = views(v@);
        let left = 2 * i + 1;
        let mut c = left;
        if left + 1 < n && v[left + 1].is_before(&v[left]) {
            c = left + 1;
        }
        proof {
            lemma_beats_order(s[c as int], s[left as int], s[c as int]);
            assert forall|d: int| 0 < d < s.len() && #[trigger] parent(d) == i implies !beats(
                s[d],
                s[c as int],
            ) by {
                assert(d == left || d == left + 1);
            }
        }
        if !v[c].is_before(&v[i]) {
            proof {
                assert forall|j: int| 0 < j < s.len() implies #[trigger] ordered_at(s, j) by {
                    if parent(j) == i {
                        lemma_beats_order(s[j], s[c as int], s[i as int]);
                    }
                }
            }
            break;
        }
        swap(v, i, c);
        proof {
            assert(views(v@) =~= s.update(i as int, s[c as int]).update(c as int, s[i as int]));
            lemma_sift_down_step(s, i as int, c as int);
            lemma_swap_multiset(s, i as int, c as int);
        }
        i = c;
    }
}

/// Whether the entries are in listing order and none of `rest` is listed before any of them.
pub open spec fn lists_best(s: Seq<FilteredView>, rest: Multiset<FilteredView>) -> bool {
    &&& forall|i: int, j: int| 0 <= i < j < s.len() ==> !beats(s[j], s[i])
    &&& forall|i: int, x: FilteredView|
        0 <= i < s.len() && #[trigger] rest.contains(x) ==> !beats(x, #[trigger] s[i])
}

/// Whether `top` are the first `n` results in the heap.
pub open spec fn is_preview(heap: Multiset<FilteredView>, n: int, top: Seq<FilteredView>) -> bool {
    &&& top.len() == (if n < heap.len() { n } else { heap.len() as int })
    &&& top.to_multiset().subset_of(heap)
    &&& lists_best(top, heap.sub(top.to_multiset()))
}

/// Search results of which the one to list first is at hand.
pub struct FilterHeap {
    heap: Vec<FilteredEntry>,
}

impl View for FilterHeap {
    type V = Multiset<FilteredView>;

    closed spec fn view(&self) -> Multiset<FilteredView> {
        views(self.heap@).to_multiset()
    }
}

impl FilterHeap {
    /// The heap is in order.
    pub closed spec fn wf(&self) -> bool {
        heap_ordered(views(self.heap@))
    }

    pub fn new() -> (h: Self)
        ensures
            h.wf(),
            h@ == Multiset::<FilteredView>::empty(),
    {
        let h = FilterHeap { heap: Vec::new() };
        assert(h@.len() == 0);
        assert(h@ =~= Multiset::empty());
        h
    }

    pub fn clear(&mut self)
        ensures
            final(self).wf(),
            final(self)@ == Multiset::<FilteredView>::empty(),
    {
        self.heap = Vec::new();
        assert(self@.len() == 0);
        assert(self@ =~= Multiset::empty());
    }

    pub fn len(&self) -> (n: usize)
        ensures
            n == self@.len(),
    {
        self.heap.len()
    }

    pub fn push(&mut self, fe: FilteredEntry)
        requires
            old(self).wf(),
        ensures
            final(self).wf(),
            final(self)@ == old(self)@.insert(fe@),
    {
        let ghost s = views(self.heap@);
        let n = self.heap.len();
        self.heap.push(fe);
        proof {
            let t = views(self.heap@);
            assert(t =~= s.push(fe@));
            assert forall|j: int| 0 < j < t.len() && j != n implies #[trigger] ordered_at(t, j) by {
                assert(ordered_at(s, j));
            }
        }
        sift_up(&mut self.heap, n);
    }

    pub fn extend(&mut self, batch: Vec<FilteredEntry>)
        requires
            old(self).wf(),
        ensures
            final(self).wf(),
            final(self)@ == old(self)@.add(views(batch@).to_multiset()),
    {
        let mut rest = batch;
        let ghost all = views(batch@).to_multiset();
        proof {
            assert(self@.add(all) =~= old(self)@.add(all));
        }
        while rest.len() > 0
            invariant
                self.wf(),
                self@.add(views(rest@).to_multiset()) == old(self)@.add(all),
            decreases rest@.len(),
        {
            let ghost before = rest@;
            let ghost was = self@;
            if let Some(fe) = rest.pop() {
                self.push(fe);
                proof {
                    assert(views(before) =~= views(rest@).push(fe@));
                    assert(self@.add(views(rest@).to_multiset()) =~= was.add(
                        views(before).to_multiset(),
                    ));
                }
            }
        }
        proof {
            assert(views(rest@).to_multiset().len() == 0);
            assert(views(rest@).to_multiset() =~= Multiset::empty());
            assert(self@ =~= old(self)@.add(all));
        }
    }

    /// Takes out an entry that no other is listed before.
    pub fn pop(&mut self) -> (r: Option<FilteredEntry>)
        requires
            old(self).wf(),
        ensures
            final(self).wf(),
            match r {
                Some(fe) => {
                    &&& old(self)@.contains(fe@)
                    &&& forall|x: FilteredView| #[trigger] old(self)@.contains(x) ==> !beats(x, fe@)
                    &&& final(self)@ == old(self)@.remove(fe@)
                },
                None => old(self)@.len() == 0 && final(self)@ == old(self)@,
            },
    {
        let n = self.heap.len();
        if n == 0 {
            return None;
        }
        let ghost s = views(self.heap@);
        proof {
            assert forall|x: FilteredView| #[trigger] s.to_multiset().contains(x) implies !beats(
                x,
                s[0],
            ) by {
                assert(s.contains(x));
                lemma_top_is_best(s, s.index_of(x));
            }
            assert(s.contains(s[0]));
        }
        let top = self.heap.swap_remove(0);
        proof {
            let t = views(self.heap@);
            let last = s.len() - 1;
            if n == 1 {
                assert(t =~= s.remove(0));
            } else {
                assert(t =~= s.update(0, s[last]).remove(last));
                lemma_update_multiset(s, 0, s[last]);
                assert(t.to_multiset() =~= s.to_multiset().remove(s[0]));
            }
            assert forall|j: int| 0 < j < t.len() && parent(j) != 0 implies #[trigger] ordered_at(
                t,
                j,
            ) by {
                assert(ordered_at(s, j));
            }
        }
        sift_down(&mut self.heap);
        Some(top)
    }

    /// Takes out up to `n` entries in listing order.
    pub fn take_best(&mut self, n: usize) -> (top: Vec<FilteredEntry>)
        requires
            old(self).wf(),
        ensures
            final(self).wf(),
            top@.len() == (if n < old(self)@.len() { n as nat } else { old(self)@.len() }),
            old(self)@ == views(top@).to_multiset().add(final(self)@),
            lists_best(views(top@), final(self)@),
    {
        let mut top: Vec<FilteredEntry> = Vec::new();
        proof {
            assert(views(top@).to_multiset().len() == 0);
            assert(views(top@).to_multiset().add(self@) =~= self@);
        }
        while top.len() < n
            invariant_except_break
                self.wf(),
                top@.len() <= n,
                old(self)@ == views(top@).to_multiset().add(self@),
                lists_best(views(top@), self@),
            ensures
                self.wf(),
                top@.len() <= n,
                old(self)@ == views(top@).to_multiset().add(self@),
                lists_best(views(top@), self@),
                top@.len() < n ==> self@.len() == 0,
            decreases n - top@.len(),
        {
            let ghost was = self@;
            let ghost before = views(top@);
            if let Some(fe) = self.pop() {
                top.push(fe);
                proof {
                    assert(views(top@) =~= before.push(fe@));
                    assert(views(top@).to_multiset().add(self@) =~= before.to_multiset().add(was));
                    assert forall|x: FilteredView| #[trigger] self@.contains(x) implies was.contains(
                        x,
                    ) by {}
                }
            } else {
                break;
            }
        }
        top
    }

    /// The first `n` entries in listing order; all of them stay in the heap.
    pub fn top_n(&mut self, n: usize) -> (top: Vec<FilteredEntry>)
        requires
            old(self).wf(),
        ensures
            final(self).wf(),
            final(self)@ == old(self)@,
            is_preview(old(self)@, n as int, views(top@)),
    {
        let top = self.take_best(n);
        let ghost rest = self@;
        let ghost all = views(top@);
        let mut i: usize = 0;
        proof {
            assert(all.take(0).to_multiset().len() == 0);
            assert(rest.add(all.take(0).to_multiset()) =~= rest);
        }
        while i < top.len()
            invariant
                i <= top@.len(),
                all == views(top@),
                self.wf(),
                self@ == rest.add(all.take(i as int).to_multiset()),
            decreases top@.len() - i,
        {
            let ghost was = self@;
            self.push(top[i].clone());
            proof {
                assert(all.take(i + 1) =~= all.take(i as int).push(all[i as int]));
                assert(self@ =~= rest.add(all.take(i + 1).to_multiset()));
            }
            i = i + 1;
        }
        proof {
            assert(all.take(i as int) =~= all);
            assert(self@ =~= old(self)@);
            assert(old(self)@.sub(all.to_multiset()) =~= rest);
        }
        top
    }

    /// Empties the heap in listing order.
    pub fn drain(&mut self) -> (out: Vec<FilteredEntry>)
        requires
            old(self).wf(),
        ensures
            final(self).wf(),
            final(self)@ == Multiset::<FilteredView>::empty(),
            is_drained(old(self)@, views(out@)),
    {
        let n = self.len();
        let out = self.take_best(n);
        proof {
            assert(views(out@).to_multiset().len() == n);
            assert(self@ =~= Multiset::empty());
            assert(views(out@).to_multiset() =~= old(self)@);
        }
        out
    }
}

/// Whether `out` lists all entries of a heap in listing order.
pub open spec fn is_drained(heap: Multiset<FilteredView>, out: Seq<FilteredView>) -> bool {
    &&& out.to_multiset() == heap
    &&& forall|i: int, j: int| 0 <= i < j < out.len() ==> !beats(out[j], out[i])
}

/// The first entries of a heap and those that come first when it is emptied rank the same, one by
/// one.
pub proof fn lemma_drain_begins_with_top(
    heap: Multiset<FilteredView>,
    n: int,
    top: Seq<FilteredView>,
    out: Seq<FilteredView>,
)
    requires
        n >= 0,
        is_preview(heap, n, top),
        is_drained(heap, out),
    ensures
        top.len() == (if n < out.len() { n } else { out.len() as int }),
        forall|k: int| #![trigger top[k]]
            0 <= k < top.len() ==> !beats(top[k], out[k]) && !beats(out[k], top[k]),
{
    assert(heap.len() == out.len());
    assert forall|k: int| #![trigger top[k]] 0 <= k < top.len() implies !beats(top[k], out[k])
        && !beats(out[k], top[k]) by {
        lemma_not_behind(heap, n, top, out, k);
        lemma_not_ahead(heap, n, top, out, k);
    }
}

proof fn lemma_not_behind(
    heap: Multiset<FilteredView>,
    n: int,
    top: Seq<FilteredView>,
    out: Seq<FilteredView>,
    k: int,
)
    requires
        is_preview(heap, n, top),
        is_drained(heap, out),
        0 <= k < top.len(),
        k < out.len(),
    ensures
        !beats(top[k], out[k]),
{
    if beats(top[k], out[k]) {
        let p = |x: FilteredView| !beats(top[k], x);
        assert forall|j: int| k <= j < out.len() implies !p(#[trigger] out[j]) by {
            if j > k {
                assert(!beats(out[j], out[k]));
                lemma_beats_order(top[k], out[j], out[k]);
            }
        }
        lemma_at_most(out, p, k);
        assert forall|j: int| 0 <= j < k + 1 implies p(#[trigger] top[j]) by {
            lemma_beats_order(top[k], top[k], top[k]);
        }
        lemma_at_least(top, p, k + 1);
        lemma_filter_within(top.to_multiset(), heap, p);
    }
}

proof fn lemma_not_ahead(
    heap: Multiset<FilteredView>,
    n: int,
    top: Seq<FilteredView>,
    out: Seq<FilteredView>,
    k: int,
)
    requires
        is_preview(heap, n, top),
        is_drained(heap, out),
        0 <= k < top.len(),
        k < out.len(),
    ensures
        !beats(out[k], top[k]),
{
    if beats(out[k], top[k]) {
        let p = |x: FilteredView| beats(x, top[k]);
        assert forall|j: int| 0 <= j < k + 1 implies p(#[trigger] out[j]) by {
            if j < k {
                assert(!beats(out[k], out[j]));
                lemma_beats_order(out[k], out[j], top[k]);
            }
        }
        lemma_at_least(out, p, k + 1);
        assert forall|j: int| k <= j < top.len() implies !p(#[trigger] top[j]) by {
            lemma_beats_order(top[k], top[k], top[k]);
        }
        lemma_at_most(top, p, k);
        let rest = heap.sub(top.to_multiset());
        assert(heap.filter(p) =~= top.to_multiset().filter(p)) by {
            assert forall|x: FilteredView| heap.filter(p).count(x) == #[trigger]
                top.to_multiset().filter(p).count(x) by {
                if p(x) && rest.contains(x) {
                    assert(!beats(x, top[k]));
                }
            }
        }
    }
}

proof fn lemma_filter_within(
    a: Multiset<FilteredView>,
    b: Multiset<FilteredView>,
    p: spec_fn(FilteredView) -> bool,
)
    requires
        a.subset_of(b),
    ensures
        a.filter(p).len() <= b.filter(p).len(),
{
    let rest = b.filter(p).sub(a.filter(p));
    assert(b.filter(p) =~= a.filter(p).add(rest));
}

proof fn lemma_filter_push(
    s: Seq<FilteredView>,
    x: FilteredView,
    p: spec_fn(FilteredView) -> bool,
)
    ensures
        s.push(x).to_multiset().filter(p).len() == s.to_multiset().filter(p).len() + (if p(x) {
            1int
        } else {
            0
        }),
{
    let m = s.to_multiset();
    if p(x) {
        assert(m.insert(x).filter(p) =~= m.filter(p).insert(x));
    } else {
        assert(m.insert(x).filter(p) =~= m.filter(p));
    }
}

proof fn lemma_at_most(s: Seq<FilteredView>, p: spec_fn(FilteredView) -> bool, k: int)
    requires
        0 <= k,
        forall|j: int| k <= j < s.len() ==> !p(#[trigger] s[j]),
    ensures
        s.to_multiset().filter(p).len() <= k,
    decreases s.len(),
{
    if s.len() == 0 {
        assert(s.to_multiset().len() == 0);
        assert(s.to_multiset().filter(p) =~= Multiset::empty());
    } else {
        let front = s.drop_last();
        assert(s =~= front.push(s.last()));
        lemma_filter_push(front, s.last(), p);
        if s.len() <= k {
            lemma_at_most(front, p, k - 1);
        } else {
            assert(!p(s[s.len() - 1]));
            lemma_at_most(front, p, k);
        }
    }
}

proof fn lemma_at_least(s: Seq<FilteredView>, p: spec_fn(FilteredView) -> bool, k: int)
    requires
        0 <= k <= s.len(),
        forall|j: int| 0 <= j < k ==> p(#[trigger] s[j]),
    ensures
        s.to_multiset().filter(p).len() >= k,
    decreases s.len(),
{
    if s.len() > 0 {
        let front = s.drop_last();
        assert(s =~= front.push(s.last()));
        lemma_filter_push(front, s.last(), p);
        if k == s.len() {
            assert(p(s[s.len() - 1]));
            lemma_at_least(front, p, k - 1);
        } else {
            lemma_at_least(front, p, k);
        }
    }
}

} // verus!
