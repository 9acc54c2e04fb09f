//! From ranked sentences to a summary.
//!
//! The summary is made of the best-ranked sentences, in the order in which
//! they stand in the document, joined by single spaces. With it comes the
//! record of scores: one sentence for each distinct sentence text, the one
//! whose score is kept under that text.

use vstd::prelude::*;
use vstd::string::StringExecFns;
use crate::selection::{
    ascending, holds, is_top_selection, lemma_ascending_same_members, lemma_top_selection_unique,
    outranks, select_top, spec_summary_size, summary_size,
};
use crate::text::{count_tokens, texts, token_count};

verus! {

/// The least number of tokens for which a sentence is given to the embedding
/// provider; a shorter one gets the all-zero vector.
pub const EMBEDDING_TOKENS: usize = 3;

/// The parts of a summary.
#[derive(Debug, Clone, PartialEq, Eq)]
pub struct Summary {
    /// The sentences chosen, by their position in the document, ascending.
    pub indices: Vec<usize>,
    /// The chosen sentences, joined by single spaces.
    pub text: String,
    /// For each distinct sentence text, the sentence whose score is recorded
    /// under that text, ascending.
    pub scored: Vec<usize>,
}

/// A summary as plain values.
pub struct SummaryView {
    pub indices: Seq<usize>,
    pub text: Seq<char>,
    pub scored: Seq<usize>,
}

impl View for Summary {
    type V = SummaryView;

    open spec fn view(&self) -> SummaryView {
        SummaryView { indices: self.indices@, text: self.text@, scored: self.scored@ }
    }
}

/// `parts` joined by single spaces.
pub open spec fn joined(parts: Seq<Seq<char>>) -> Seq<char>
    decreases parts.len(),
{
    if parts.len() == 0 {
        Seq::empty()
    } else if parts.len() == 1 {
        parts[0]
    } else {
        joined(parts.drop_last()) + seq![' '] + parts.last()
    }
}

/// The sentences at the positions `picked`, in that order.
pub open spec fn chosen(all: Seq<Seq<char>>, picked: Seq<usize>) -> Seq<Seq<char>> {
    Seq::new(picked.len(), |a: int| all[picked[a] as int])
}

/// Whether the score of sentence `i` is the one recorded under its text: of
/// the sentences with that text it is the one that ranks lowest, the last to
/// be written when the scores are recorded from the best rank down.
pub open spec fn is_recorded(all: Seq<Seq<char>>, keys: Seq<u64>, i: int) -> bool {
    forall|j: int| 0 <= j < all.len() && j != i && all[j] == all[i] ==> outranks(keys, j, i)
}

/// Whether `scored` lists, ascending, exactly the sentences whose scores are
/// recorded.
pub open spec fn is_score_record(all: Seq<Seq<char>>, keys: Seq<u64>, scored: Seq<usize>) -> bool {
    &&& ascending(scored)
    &&& forall|a: int| 0 <= a < scored.len() ==> #[trigger] scored[a] < all.len()
    &&& forall|j: int| 0 <= j < all.len() ==> (holds(scored, j) <==> is_recorded(all, keys, j))
}

/// Whether `summary` is the summary of the sentences `all` with the scores
/// that `keys` stand for, where `rounded` is the rounded product of the
/// number of sentences and the ratio.
pub open spec fn is_summary(
    all: Seq<Seq<char>>,
    keys: Seq<u64>,
    rounded: nat,
    summary: SummaryView,
) -> bool {
    &&& is_top_selection(keys, spec_summary_size(all.len(), rounded), summary.indices)
    &&& summary.text == joined(chosen(all, summary.indices))
    &&& is_score_record(all, keys, summary.scored)
}

/// The summary of the sentences `all` with the scores that `keys` stand
/// for.
pub open spec fn the_summary(all: Seq<Seq<char>>, keys: Seq<u64>, rounded: nat) -> SummaryView {
    choose|summary: SummaryView| is_summary(all, keys, rounded, summary)
}

/// A summary is determined by the sentences, their keys and the rounded
/// product: whatever else meets `is_summary` for them is the same summary.
pub proof fn lemma_summary_unique(
    all: Seq<Seq<char>>,
    keys: Seq<u64>,
    rounded: nat,
    first: SummaryView,
    second: SummaryView,
)
    requires
        is_summary(all, keys, rounded, first),
        is_summary(all, keys, rounded, second),
    ensures
        first == second,
{
    lemma_top_selection_unique(
        keys,
        spec_summary_size(all.len(), rounded),
        first.indices,
        second.indices,
    );
    assert forall|j: int| holds(first.scored, j) <==> holds(second.scored, j) by {
        if holds(first.scored, j) {
            let a = choose|a: int| 0 <= a < first.scored.len() && first.scored[a] == j;
            assert(first.scored[a] < all.len());
        }
        if holds(second.scored, j) {
            let a = choose|a: int| 0 <= a < second.scored.len() && second.scored[a] == j;
            assert(second.scored[a] < all.len());
        }
    }
    lemma_ascending_same_members(first.scored, second.scored);
}

/// A summary holds as many sentences as the rounded product of sentence
/// count and ratio says, held between one and the number of sentences, and
/// holds them in the order of the document, whatever their ranks.
pub proof fn lemma_summary_size_and_order(
    all: Seq<Seq<char>>,
    keys: Seq<u64>,
    rounded: nat,
    summary: SummaryView,
)
    requires
        is_summary(all, keys, rounded, summary),
    ensures
        summary.indices.len() == spec_summary_size(all.len(), rounded),
        all.len() >= 1 ==> 1 <= summary.indices.len() <= all.len(),
        forall|a: int, b: int|
            0 <= a < b < summary.indices.len() ==> summary.indices[a] < summary.indices[b],
        chosen(all, summary.indices).len() == summary.indices.len(),
        summary.text == joined(chosen(all, summary.indices)),
{
}

/// Tells whether a sentence is given to the embedding provider: one of at
/// least three tokens is.
pub fn needs_embedding(sentence: &str) -> (needed: bool)
    ensures
        needed == (token_count(sentence@) >= EMBEDDING_TOKENS),
{
    count_tokens(sentence) >= EMBEDDING_TOKENS
}

/// The sentences at the positions `picked`, joined by single spaces.
pub fn join_sentences(all: &Vec<String>, picked: &Vec<usize>) -> (text: String)
    requires
        forall|a: int| 0 <= a < picked.len() ==> picked@[a] < all.len(),
    ensures
        text@ == joined(chosen(texts(all@), picked@)),
{
    let mut text = String::new();
    let mut a: usize = 0;
    let ghost parts = chosen(texts(all@), picked@);
    while a < picked.len()
        invariant
            a <= picked.len(),
            parts == chosen(texts(all@), picked@),
            forall|b: int| 0 <= b < picked.len() ==> picked@[b] < all.len(),
            text@ == joined(parts.take(a as int)),
        decreases picked.len() - a,
    {
        assert(parts.take(a + 1).drop_last() == parts.take(a as int));
        assert(parts.take(a + 1).last() == all@[picked@[a as int] as int]@);
        if a > 0 {
            proof {
                reveal_strlit(" ");
                assert(" "@ == seq![' ']);
            }
            text.append(" ");
        }
        text.append(all[picked[a]].as_str());
        a += 1;
    }
    assert(parts.take(picked.len() as int) == parts);
    text
}

/// Tells whether the score of sentence `i` is the one recorded under its
/// text.
fn recorded(all: &Vec<String>, keys: &Vec<u64>, i: usize) -> (b: bool)
    requires
        all.len() == keys.len(),
        i < all.len(),
    ensures
        b == is_recorded(texts(all@), keys@, i as int),
{
    let n: usize = all.len();
    let mut j: usize = 0;
    while j < n
        invariant
            j <= n,
            n == all.len(),
            n == keys.len(),
            i < n,
            forall|u: int|
                0 <= u < j && u != i && texts(all@)[u] == texts(all@)[i as int] ==> outranks(
                    keys@,
                    u,
                    i as int,
                ),
        decreases n - j,
    {
        if j != i && all[j] == all[i] {
            let above = keys[j] > keys[i] || (keys[j] == keys[i] && j < i);
            if !above {
                assert(texts(all@)[j as int] == texts(all@)[i as int]);
                return false;
            }
        }
        j += 1;
    }
    true
}

/// The sentences whose scores are recorded, one for each distinct text,
/// ascending.
pub fn score_sources(all: &Vec<String>, keys: &Vec<u64>) -> (scored: Vec<usize>)
    requires
        all.len() == keys.len(),
    ensures
        is_score_record(texts(all@), keys@, scored@),
{
    let n: usize = all.len();
    let mut scored: Vec<usize> = Vec::new();
    let mut i: usize = 0;
    while i < n
        invariant
            i <= n,
            n == all.len(),
            n == keys.len(),
            ascending(scored@),
            forall|a: int| 0 <= a < scored.len() ==> #[trigger] scored@[a] < i,
            forall|j: int|
                0 <= j < i ==> (holds(scored@, j) <==> is_recorded(texts(all@), keys@, j)),
        decreases n - i,
    {
        let ghost before = scored@;
        let keep = recorded(all, keys, i);
        if keep {
            scored.push(i);
        }
        assert forall|j: int| 0 <= j < i + 1 implies (holds(scored@, j) <==> is_recorded(
            texts(all@),
            keys@,
            j,
        )) by {
            if holds(before, j) {
                let a = choose|a: int| 0 <= a < before.len() && before[a] == j;
                assert(scored@[a] == j);
            }
            if holds(scored@, j) && !holds(before, j) {
                let a = choose|a: int| 0 <= a < scored@.len() && scored@[a] == j;
                assert(a == before.len());
            }
            if j == i && keep {
                assert(scored@[before.len() as int] == j);
            }
        }
        i += 1;
    }
    scored
}

/// Makes the summary of the sentences `all` from their keys: the best-ranked
/// sentences, as many as the rounded product of sentence count and ratio
/// asks for and at least one, in document order and joined by single spaces,
/// together with the sentences whose scores are recorded.
pub fn summarize_ranked(all: &Vec<String>, keys: &Vec<u64>, rounded: usize) -> (summary: Summary)
    requires
        all.len() == keys.len(),
    ensures
        is_summary(texts(all@), keys@, rounded as nat, summary@),
        summary@ == the_summary(texts(all@), keys@, rounded as nat),
{
    let size: usize = summary_size(all.len(), rounded);
    let indices = select_top(keys, size);
    let text = join_sentences(all, &indices);
    let scored = score_sources(all, keys);
    let summary = Summary { indices, text, scored };
    proof {
        lemma_summary_unique(
            texts(all@),
            keys@,
            rounded as nat,
            summary@,
            the_summary(texts(all@), keys@, rounded as nat),
        );
    }
    summary
}

} // verus!
