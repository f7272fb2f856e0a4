//! Matching a query against texts.

use super::filter::Rank;
use crate::text::{lemma_len_within_bytes, str_bytes};
use rayon::prelude::{IntoParallelRefIterator, ParallelIterator};
use skim::prelude::{AndOrEngineFactory, ExactOrFuzzyEngineFactory, MatchEngineFactory};
use vstd::prelude::*;

verus! {

/// Where a query matches a text, and how well.
pub struct TextMatch {
    pub indices: Vec<usize>,
    pub rank: Rank,
}

/// What a match holds.
#[verifier::ext_equal]
pub struct TextMatchView {
    pub indices: Seq<usize>,
    pub rank: Rank,
}

impl View for TextMatch {
    type V = TextMatchView;

    open spec fn view(&self) -> TextMatchView {
        TextMatchView { indices: self.indices@, rank: self.rank }
    }
}

/// What a match holds, where there is one.
pub open spec fn match_view(m: Option<TextMatch>) -> Option<TextMatchView> {
    match m {
        Some(t) => Some(t@),
        None => None,
    }
}

/// What each of the matches holds.
pub open spec fn match_views(s: Seq<Option<TextMatch>>) -> Seq<Option<TextMatchView>> {
    s.map_values(|m: Option<TextMatch>| match_view(m))
}

/// The characters of each of the texts.
pub open spec fn texts(s: Seq<String>) -> Seq<Seq<char>> {
    s.map_values(|t: String| t@)
}

/// The characters of each of the texts.
pub open spec fn text_refs(s: Seq<&String>) -> Seq<Seq<char>> {
    s.map_values(|t: &String| t@)
}

/// Whether `query`, in skim's query language, matches `text`.
pub uninterp spec fn text_matches(query: Seq<char>, text: Seq<char>) -> bool;

/// Whether skim, on some thread and after some earlier calls, may find `query` in `text` at these
/// positions and with this rank.
pub uninterp spec fn may_match(
    query: Seq<char>,
    text: Seq<char>,
    indices: Seq<usize>,
    rank: Rank,
) -> bool;

/// Whether `found` is an outcome of matching `query` against each of `items`: a match where the
/// query matches, at positions that are characters of the item and with a rank that skim may give
/// them.
pub open spec fn matched(
    query: Seq<char>,
    items: Seq<Seq<char>>,
    found: Seq<Option<TextMatchView>>,
) -> bool {
    &&& found.len() == items.len()
    &&& forall|i: int| #![trigger found[i]]
        0 <= i < items.len() ==> (found[i] is Some <==> text_matches(query, items[i]))
    &&& forall|i: int| #![trigger found[i]]
        0 <= i < items.len() ==> (found[i] matches Some(m) ==> may_match(
            query,
            items[i],
            m.indices,
            m.rank,
        ))
    &&& forall|i: int, k: int| #![trigger found[i]->0.indices[k]]
        0 <= i < items.len() && found[i] is Some && 0 <= k < found[i]->0.indices.len()
            ==> found[i]->0.indices[k] < items[i].len() && found[i]->0.indices[k] < usize::MAX
}

/// Asks a skim engine, made by `AndOrEngineFactory` over `ExactOrFuzzyEngineFactory` with their
/// defaults, to match `query` against each text (`MatchEngine::match_item`), on rayon's threads.
///
/// Trusted: there is one answer per text, in the same order; whether there is a match depends on
/// the query and the text alone; and the positions (`MatchResult::range_char_indices`) are
/// numbers of characters in the text. Positions and rank are ones that skim may give for the
/// query and the text. They are not fixed by these two: the fuzzy matcher reads cells of its
/// score matrix that an earlier call on the same thread has left, so that equal texts can be
/// ranked differently.
#[verifier::external_body]
fn skim_texts(query: &str, items: &Vec<&String>) -> (found: Vec<Option<TextMatch>>)
    ensures
        found@.len() == items@.len(),
        forall|i: int| #![trigger found@[i]]
            0 <= i < items@.len() ==> (found@[i] is Some <==> text_matches(query@, items@[i]@)),
        forall|i: int| #![trigger found@[i]]
            0 <= i < items@.len() && found@[i] is Some ==> may_match(
                query@,
                items@[i]@,
                found@[i]->0.indices@,
                found@[i]->0.rank,
            ),
        forall|i: int, k: int| #![trigger found@[i]->0.indices@[k]]
            0 <= i < items@.len() && found@[i] is Some && 0 <= k < found@[i]->0.indices@.len()
                ==> found@[i]->0.indices@[k] < items@[i]@.len(),
{
    let factory = AndOrEngineFactory::new(ExactOrFuzzyEngineFactory::builder().build());
    let engine = factory.create_engine(query);
    items.par_iter().map(|text| engine.match_item(*text).map(|m| TextMatch {
        indices: m.range_char_indices(text),
        rank: Rank {
            score: m.rank.score,
            begin: m.rank.begin,
            end: m.rank.end,
            length: m.rank.length,
            index: m.rank.index,
            path_name_offset: m.rank.path_name_offset,
        },
    })).collect()
}

/// Matches `query` against each of the texts.
pub fn match_texts(query: &str, items: &Vec<&String>) -> (found: Vec<Option<TextMatch>>)
    ensures
        matched(query@, text_refs(items@), match_views(found@)),
{
    let found = skim_texts(query, items);
    let mut n: usize = 0;
    while n < items.len()
        invariant
            n <= items@.len(),
            forall|i: int| 0 <= i < n ==> #[trigger] items@[i]@.len() <= usize::MAX,
        decreases items@.len() - n,
    {
        let bytes = str_bytes(items[n].as_str());
        proof {
            lemma_len_within_bytes(items@[n as int]@);
        }
        n = n + 1;
    }
    proof {
        let views = match_views(found@);
        assert forall|i: int, k: int| #![trigger views[i]->0.indices[k]]
            0 <= i < items@.len() && views[i] is Some && 0 <= k < views[i]->0.indices.len()
                implies views[i]->0.indices[k] < text_refs(items@)[i].len()
            && views[i]->0.indices[k] < usize::MAX by {
            assert(views[i]->0.indices[k] == found@[i]->0.indices@[k]);
            assert(items@[i]@.len() <= usize::MAX);
        }
        assert forall|i: int| #![trigger views[i]] 0 <= i < items@.len() implies (
            views[i] is Some <==> text_matches(query@, text_refs(items@)[i])) by {
            assert(found@[i] is Some <==> text_matches(query@, items@[i]@));
        }
        assert forall|i: int| #![trigger views[i]] 0 <= i < items@.len() implies (views[i]
            matches Some(m) ==> may_match(query@, text_refs(items@)[i], m.indices, m.rank)) by {
            assert(match_view(found@[i]) == views[i]);
        }
    }
    found
}

} // verus!
