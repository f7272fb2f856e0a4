//! The lists of hosts and directories in the filter overlay.

use super::filter::{outranks, Rank};
use super::matching::{
    match_texts, match_view, match_views, matched, text_refs, texts, TextMatch, TextMatchView,
};
use super::names::{toggled, NameSet};
use crate::text::trimmed;
use vstd::prelude::*;

verus! {

/// A name in the overlay, by its position among all names, and where the filter matched it.
pub struct OverlayFiltered {
    pub idx: usize,
    pub match_indices: Vec<usize>,
}

/// What an item of the overlay holds.
#[verifier::ext_equal]
pub struct OverlayFilteredView {
    pub idx: usize,
    pub match_indices: Seq<usize>,
}

impl View for OverlayFiltered {
    type V = OverlayFilteredView;

    open spec fn view(&self) -> OverlayFilteredView {
        OverlayFilteredView { idx: self.idx, match_indices: self.match_indices@ }
    }
}

impl Clone for OverlayFiltered {
    fn clone(&self) -> (r: Self)
        ensures
            r@ == self@,
    {
        let r = OverlayFiltered { idx: self.idx, match_indices: self.match_indices.clone() };
        assert(r.match_indices@ =~= self.match_indices@);
        r
    }
}

/// What each of the items holds, in order.
pub open spec fn overlay_views(s: Seq<OverlayFiltered>) -> Seq<OverlayFilteredView> {
    s.map_values(|o: OverlayFiltered| o@)
}

/// The items, in order, for the names up to `end` that are in `chosen`, or that are not.
pub open spec fn chosen_items(
    names: Seq<Seq<char>>,
    chosen: Set<Seq<char>>,
    wanted: bool,
    end: int,
) -> Seq<OverlayFilteredView>
    decreases end,
{
    if end <= 0 {
        seq![]
    } else {
        let rest = chosen_items(names, chosen, wanted, end - 1);
        if chosen.contains(names[end - 1]) == wanted {
            rest.push(OverlayFilteredView { idx: (end - 1) as usize, match_indices: seq![] })
        } else {
            rest
        }
    }
}

/// All names, those in `chosen` first.
pub open spec fn chosen_first(
    names: Seq<Seq<char>>,
    chosen: Set<Seq<char>>,
) -> Seq<OverlayFilteredView> {
    chosen_items(names, chosen, true, names.len() as int) + chosen_items(
        names,
        chosen,
        false,
        names.len() as int,
    )
}

/// Whether the match at `i` is listed before the one at `j`: the better rank first, and of
/// equal ranks the one that comes first.
pub open spec fn listed_before(found: Seq<Option<TextMatchView>>, i: int, j: int) -> bool {
    ||| outranks(found[i]->0.rank, found[j]->0.rank)
    ||| !outranks(found[j]->0.rank, found[i]->0.rank) && i < j
}

/// Whether `out` lists every match of `found`, the best first.
pub open spec fn ranked_listing(
    found: Seq<Option<TextMatchView>>,
    out: Seq<OverlayFilteredView>,
) -> bool {
    &&& forall|k: int| #![trigger out[k]]
        0 <= k < out.len() ==> out[k].idx < found.len() && found[out[k].idx as int] is Some
            && out[k].match_indices == found[out[k].idx as int]->0.indices
    &&& forall|k: int, l: int| #![trigger out[k], out[l]]
        0 <= k < l < out.len() ==> listed_before(found, out[k].idx as int, out[l].idx as int)
    &&& forall|i: int| #![trigger found[i]]
        0 <= i < found.len() && found[i] is Some ==> exists|k: int|
            0 <= k < out.len() && #[trigger] out[k].idx == i
}

/// Whether `out` may be listed for the names: without a filter all of them, those in `chosen`
/// first; with one its matches, the best first.
pub open spec fn overlay_listing(
    filter: Seq<char>,
    names: Seq<Seq<char>>,
    chosen: Set<Seq<char>>,
    out: Seq<OverlayFilteredView>,
) -> bool {
    if trimmed(filter).len() == 0 {
        out == chosen_first(names, chosen)
    } else {
        exists|found: Seq<Option<TextMatchView>>|
            #[trigger] matched(trimmed(filter), names, found) && ranked_listing(found, out)
    }
}

/// Whether a match with rank `a` is better than one with rank `b`.
pub fn is_better(a: &Rank, b: &Rank) -> (r: bool)
    ensures
        r == outranks(*a, *b),
{
    a.score > b.score || (a.score == b.score && (a.begin < b.begin || (a.begin == b.begin && a.end
        < b.end)))
}

/// Whether a rank is better than that of the match at `i`.
fn beats_match(rank: &Rank, found: &Vec<Option<TextMatch>>, i: usize) -> (r: bool)
    requires
        i < found@.len(),
        found@[i as int] is Some,
    ensures
        r == outranks(*rank, found@[i as int]->0.rank),
{
    match &found[i] {
        Some(m) => is_better(rank, &m.rank),
        None => false,
    }
}

/// The positions of the matches up to `end`, the best first.
spec fn ranked_order(found: Seq<Option<TextMatchView>>, order: Seq<usize>, end: int) -> bool {
    &&& forall|k: int| #![trigger order[k]]
        0 <= k < order.len() ==> order[k] < end && found[order[k] as int] is Some
    &&& forall|k: int, l: int| #![trigger order[k], order[l]]
        0 <= k < l < order.len() ==> listed_before(found, order[k] as int, order[l] as int)
    &&& forall|i: int| #![trigger found[i]]
        0 <= i < end && found[i] is Some ==> exists|k: int|
            0 <= k < order.len() && #[trigger] order[k] == i
}

proof fn lemma_insert_ranked(
    found: Seq<Option<TextMatchView>>,
    order: Seq<usize>,
    i: usize,
    at: int,
)
    requires
        ranked_order(found, order, i as int),
        i < found.len(),
        found[i as int] is Some,
        0 <= at <= order.len(),
        forall|k: int| #![trigger order[k]]
            at <= k < order.len() ==> outranks(
                found[i as int]->0.rank,
                found[order[k] as int]->0.rank,
            ),
        at > 0 ==> !outranks(found[i as int]->0.rank, found[order[at - 1] as int]->0.rank),
    ensures
        ranked_order(found, order.insert(at, i), i + 1),
{
    let longer = order.insert(at, i);
    assert forall|k: int| #![trigger longer[k]] 0 <= k < longer.len() implies longer[k] < i + 1
        && found[longer[k] as int] is Some by {
        if k < at {
            assert(longer[k] == order[k]);
        } else if k > at {
            assert(longer[k] == order[k - 1]);
        }
    }
    assert forall|k: int, l: int| #![trigger longer[k], longer[l]]
        0 <= k < l < longer.len() implies listed_before(
        found,
        longer[k] as int,
        longer[l] as int,
    ) by {
        let a = if k < at { k } else { k - 1 };
        let b = if l < at { l } else { l - 1 };
        if k == at {
            assert(longer[l] == order[b]);
        } else if l == at {
            assert(longer[k] == order[a]);
            if k < at - 1 {
                assert(listed_before(found, order[a] as int, order[at - 1] as int));
            }
        } else {
            assert(longer[k] == order[a]);
            assert(longer[l] == order[b]);
            assert(listed_before(found, order[a] as int, order[b] as int));
        }
    }
    assert forall|j: int| #![trigger found[j]]
        0 <= j < i + 1 && found[j] is Some implies exists|k: int|
        0 <= k < longer.len() && #[trigger] longer[k] == j by {
        if j == i {
            assert(longer[at] == j);
        } else {
            let k = choose|k: int| 0 <= k < order.len() && #[trigger] order[k] == j;
            assert(longer[if k < at { k } else { k + 1 }] == j);
        }
    }
}

/// Lists the matches, the best first; equal ranks keep their order.
pub fn rank_matches(found: Vec<Option<TextMatch>>) -> (out: Vec<OverlayFiltered>)
    ensures
        ranked_listing(match_views(found@), overlay_views(out@)),
{
    let ghost all = match_views(found@);
    let mut order: Vec<usize> = Vec::new();
    let mut i: usize = 0;
    while i < found.len()
        invariant
            i <= found@.len(),
            all == match_views(found@),
            ranked_order(all, order@, i as int),
        decreases found@.len() - i,
    {
        assert(all[i as int] == match_view(found@[i as int]));
        if let Some(m) = &found[i] {
            let mut at = order.len();
            while at > 0 && beats_match(&m.rank, &found, order[at - 1])
                invariant
                    at <= order@.len(),
                    i < found@.len(),
                    all == match_views(found@),
                    all[i as int] == Some(m@),
                    ranked_order(all, order@, i as int),
                    forall|k: int| #![trigger order@[k]]
                        at <= k < order@.len() ==> outranks(
                            all[i as int]->0.rank,
                            all[order@[k] as int]->0.rank,
                        ),
                decreases at,
            {
                at = at - 1;
            }
            proof {
                lemma_insert_ranked(all, order@, i, at as int);
            }
            order.insert(at, i);
        }
        i = i + 1;
    }
    let mut found = found;
    let mut out: Vec<OverlayFiltered> = Vec::new();
    let mut k: usize = 0;
    while k < order.len()
        invariant
            k <= order@.len(),
            k == out@.len(),
            all.len() == found@.len(),
            ranked_order(all, order@, all.len() as int),
            forall|l: int| #![trigger order@[l]]
                k <= l < order@.len() ==> match_view(found@[order@[l] as int])
                    == all[order@[l] as int],
            forall|l: int| #![trigger out@[l]]
                0 <= l < k ==> out@[l].idx == order@[l] && out@[l].match_indices@
                    == all[order@[l] as int]->0.indices,
        decreases order@.len() - k,
    {
        let at = order[k];
        assert(all[at as int] is Some);
        let ghost before = found@;
        let m = found[at].take();
        proof {
            assert forall|l: int| #![trigger order@[l]] k < l < order@.len() implies match_view(
                found@[order@[l] as int],
            ) == all[order@[l] as int] by {
                assert(listed_before(all, order@[k as int] as int, order@[l] as int));
                assert(found@[order@[l] as int] == before[order@[l] as int]);
            }
        }
        if let Some(m) = m {
            out.push(OverlayFiltered { idx: at, match_indices: m.indices });
        }
        k = k + 1;
    }
    proof {
        let views = overlay_views(out@);
        assert forall|j: int| #![trigger views[j]] 0 <= j < views.len() implies views[j].idx
            < all.len() && all[views[j].idx as int] is Some && views[j].match_indices
            == all[views[j].idx as int]->0.indices by {
            assert(out@[j].idx == order@[j]);
        }
        assert forall|j: int, l: int| #![trigger views[j], views[l]]
            0 <= j < l < views.len() implies listed_before(
            all,
            views[j].idx as int,
            views[l].idx as int,
        ) by {
            assert(out@[j].idx == order@[j]);
            assert(out@[l].idx == order@[l]);
        }
        assert forall|j: int| #![trigger all[j]]
            0 <= j < all.len() && all[j] is Some implies exists|l: int|
            0 <= l < views.len() && #[trigger] views[l].idx == j by {
            let l = choose|l: int| 0 <= l < order@.len() && #[trigger] order@[l] == j;
            assert(out@[l].idx == order@[l]);
            assert(views[l].idx == j);
        }
    }
    out
}

/// All names, those in the set first.
fn list_chosen_first(all_items: &Vec<String>, selected_set: &NameSet) -> (out: Vec<OverlayFiltered>)
    ensures
        overlay_views(out@) == chosen_first(texts(all_items@), selected_set@),
{
    let mut selected: Vec<OverlayFiltered> = Vec::new();
    let mut rest: Vec<OverlayFiltered> = Vec::new();
    let mut i: usize = 0;
    let ghost names = texts(all_items@);
    proof {
        assert(overlay_views(selected@) =~= seq![]);
        assert(overlay_views(rest@) =~= seq![]);
    }
    while i < all_items.len()
        invariant
            i <= all_items@.len(),
            names == texts(all_items@),
            overlay_views(selected@) == chosen_items(names, selected_set@, true, i as int),
            overlay_views(rest@) == chosen_items(names, selected_set@, false, i as int),
        decreases all_items@.len() - i,
    {
        let entry = OverlayFiltered { idx: i, match_indices: Vec::new() };
        let ghost view = OverlayFilteredView { idx: i, match_indices: seq![] };
        assert(entry@ =~= view);
        let ghost (a, b) = (overlay_views(selected@), overlay_views(rest@));
        if selected_set.contains(&all_items[i]) {
            selected.push(entry);
            assert(overlay_views(selected@) =~= a.push(view));
        } else {
            rest.push(entry);
            assert(overlay_views(rest@) =~= b.push(view));
        }
        i = i + 1;
    }
    let ghost (a, b) = (overlay_views(selected@), overlay_views(rest@));
    selected.append(&mut rest);
    assert(overlay_views(selected@) =~= a + b);
    selected
}

/// Lists the names for the overlay.
pub fn update_generic_filter(
    filter: &str,
    all_items: &Vec<String>,
    selected_set: &NameSet,
) -> (out: Vec<OverlayFiltered>)
    ensures
        overlay_listing(filter@, texts(all_items@), selected_set@, overlay_views(out@)),
        usable_items(overlay_views(out@)),
{
    let filter = filter.trim();
    if filter.is_empty() {
        let out = list_chosen_first(all_items, selected_set);
        proof {
            lemma_chosen_usable(texts(all_items@), selected_set@, true, all_items@.len() as int);
            lemma_chosen_usable(texts(all_items@), selected_set@, false, all_items@.len() as int);
        }
        out
    } else {
        let mut items: Vec<&String> = Vec::new();
        let mut i: usize = 0;
        while i < all_items.len()
            invariant
                i <= all_items@.len(),
                items@.len() == i,
                forall|k: int| 0 <= k < i ==> items@[k] == all_items@[k],
            decreases all_items@.len() - i,
        {
            items.push(&all_items[i]);
            i = i + 1;
        }
        assert(text_refs(items@) =~= texts(all_items@));
        let found = match_texts(filter, &items);
        let ghost outcome = match_views(found@);
        let out = rank_matches(found);
        proof {
            let views = overlay_views(out@);
            assert forall|k: int, l: int| #![trigger views[k].match_indices[l]]
                0 <= k < views.len() && 0 <= l < views[k].match_indices.len()
                    implies views[k].match_indices[l] < usize::MAX by {
                let i = views[k].idx as int;
                assert(outcome[i]->0.indices[l] < usize::MAX);
            }
        }
        out
    }
}

/// No match position is the largest number, so that the place behind it can be named.
pub open spec fn usable_items(s: Seq<OverlayFilteredView>) -> bool {
    forall|k: int, l: int| #![trigger s[k].match_indices[l]]
        0 <= k < s.len() && 0 <= l < s[k].match_indices.len() ==> s[k].match_indices[l]
            < usize::MAX
}

proof fn lemma_chosen_usable(
    names: Seq<Seq<char>>,
    chosen: Set<Seq<char>>,
    wanted: bool,
    end: int,
)
    ensures
        usable_items(chosen_items(names, chosen, wanted, end)),
    decreases end,
{
    if end > 0 {
        lemma_chosen_usable(names, chosen, wanted, end - 1);
    }
}

/// The name that the item at `at` stands for.
pub open spec fn item_name(
    filtered: Seq<OverlayFilteredView>,
    at: int,
    names: Seq<Seq<char>>,
) -> Option<Seq<char>> {
    if 0 <= at < filtered.len() && filtered[at].idx < names.len() {
        Some(names[filtered[at].idx as int])
    } else {
        None
    }
}

/// Toggles the name that the selected item stands for; says whether there is one.
pub fn toggle_selection(
    filtered: &Vec<OverlayFiltered>,
    selected_idx: usize,
    all_items: &Vec<String>,
    selected_set: &mut NameSet,
) -> (changed: bool)
    requires
        old(selected_set).wf(),
    ensures
        final(selected_set).wf(),
        match item_name(overlay_views(filtered@), selected_idx as int, texts(all_items@)) {
            Some(name) => changed && final(selected_set)@ == toggled(old(selected_set)@, name),
            None => !changed && final(selected_set)@ == old(selected_set)@,
        },
{
    if selected_idx < filtered.len() {
        let idx = filtered[selected_idx].idx;
        assert(overlay_views(filtered@)[selected_idx as int].idx == idx);
        if idx < all_items.len() {
            selected_set.toggle(all_items[idx].clone());
            return true;
        }
    }
    false
}

} // verus!
