//! The course of one summarisation.
//!
//! Embedding a sentence and ranking the sentences are done outside this
//! library. What is decided here is what is to be done next: a `Stage` says
//! what the driver is to obtain, and `advance` takes what it obtained to the
//! next stage. A document of at most three sentences is its own summary, and
//! nothing is embedded or ranked for it. A sentence of fewer than three
//! tokens is not embedded: it gets the all-zero vector. When the provider
//! fails, or two embeddings that are to be compared differ in length, the
//! summarisation ends with that failure and no summary.

use vstd::prelude::*;
use crate::error::{Error, ErrorView};
use crate::sentences::{sentences, split_into_sentences};
use crate::similarity::{
    has_mismatch, is_layout, mismatched, plan_matrix, Cell, EmbeddingShape, SENTINEL_DIMENSION,
};
use crate::summary::{
    needs_embedding, summarize_ranked, the_summary, Summary, SummaryView, EMBEDDING_TOKENS,
};
use crate::text::{texts, token_count};

verus! {

/// The largest number of sentences for which a document is returned as it is.
pub const VERBATIM_LIMIT: usize = 3;

/// What a summarisation ends with.
#[derive(Debug, Clone, PartialEq, Eq)]
pub enum Outcome {
    /// The document was short: this copy of it is the summary, and no
    /// sentence was scored.
    Verbatim(String),
    /// The summary made of the best-ranked sentences.
    Chosen(Summary),
}

/// Where a summarisation stands.
#[derive(Debug, Clone, PartialEq, Eq)]
pub enum Stage {
    /// The sentence at position `shapes.len()` is to be embedded; `shapes`
    /// holds what is known of the embeddings of the sentences before it.
    Embedding { sentences: Vec<String>, shapes: Vec<EmbeddingShape> },
    /// Every sentence has its embedding and the embeddings fit together: the
    /// similarity matrix is to be filled as `cells` lays it out, and the
    /// sentences are to be ranked.
    Ranking { sentences: Vec<String>, shapes: Vec<EmbeddingShape>, cells: Vec<Vec<Cell>> },
    /// The summarisation is over.
    Done(Outcome),
}

/// What the driver reports.
#[derive(Debug, Clone, PartialEq, Eq)]
pub enum Event {
    /// The provider embedded the sentence; this is what the matrix needs to
    /// know of the embedding.
    Embedded(EmbeddingShape),
    /// The provider failed on the sentence; the text is its report.
    EmbeddingFailed(String),
    /// The sentences were ranked: a key for each, and the rounded product of
    /// the number of sentences and the ratio.
    Ranked(Vec<u64>, usize),
}

/// An outcome as plain values.
pub enum OutcomeView {
    Verbatim(Seq<char>),
    Chosen(SummaryView),
}

/// A stage as plain values. The layout of the matrix is left out: the
/// embeddings determine it.
pub enum StageView {
    Embedding { sentences: Seq<Seq<char>>, shapes: Seq<EmbeddingShape> },
    Ranking { sentences: Seq<Seq<char>>, shapes: Seq<EmbeddingShape> },
    Done(OutcomeView),
}

/// An event as plain values.
pub enum EventView {
    Embedded(EmbeddingShape),
    EmbeddingFailed(Seq<char>),
    Ranked(Seq<u64>, nat),
}

impl View for Outcome {
    type V = OutcomeView;

    open spec fn view(&self) -> OutcomeView {
        match self {
            Outcome::Verbatim(copy) => OutcomeView::Verbatim(copy@),
            Outcome::Chosen(summary) => OutcomeView::Chosen(summary@),
        }
    }
}

impl View for Stage {
    type V = StageView;

    open spec fn view(&self) -> StageView {
        match self {
            Stage::Embedding { sentences, shapes } => StageView::Embedding {
                sentences: texts(sentences@),
                shapes: shapes@,
            },
            Stage::Ranking { sentences, shapes, cells } => StageView::Ranking {
                sentences: texts(sentences@),
                shapes: shapes@,
            },
            Stage::Done(outcome) => StageView::Done(outcome@),
        }
    }
}

impl View for Event {
    type V = EventView;

    open spec fn view(&self) -> EventView {
        match self {
            Event::Embedded(shape) => EventView::Embedded(*shape),
            Event::EmbeddingFailed(report) => EventView::EmbeddingFailed(report@),
            Event::Ranked(keys, rounded) => EventView::Ranked(keys@, *rounded as nat),
        }
    }
}

impl Stage {
    /// Whether the stage is one that a summarisation can be in: while
    /// embedding, a sentence is left to embed; while ranking, there is an
    /// embedding for each sentence, no two of them to be compared differ in
    /// length, and the cells are their layout.
    pub open spec fn wf(&self) -> bool {
        match self {
            Stage::Embedding { sentences, shapes } => shapes.len() < sentences.len(),
            Stage::Ranking { sentences, shapes, cells } => {
                &&& shapes.len() == sentences.len()
                &&& !has_mismatch(shapes@)
                &&& is_layout(shapes@, cells@)
            },
            Stage::Done(_) => true,
        }
    }
}

/// What is known of the all-zero vector that a sentence gets when it is too
/// short to embed.
pub open spec fn sentinel_shape() -> EmbeddingShape {
    EmbeddingShape { len: SENTINEL_DIMENSION, all_zero: true }
}

/// `shapes` with the all-zero vector added for each sentence that follows
/// and is too short to embed, up to the first one that is to be embedded.
pub open spec fn gathered(all: Seq<Seq<char>>, shapes: Seq<EmbeddingShape>) -> Seq<EmbeddingShape>
    decreases all.len() - shapes.len(),
{
    if shapes.len() < all.len() && token_count(all[shapes.len() as int]) < EMBEDDING_TOKENS {
        gathered(all, shapes.push(sentinel_shape()))
    } else {
        shapes
    }
}

/// The stage that follows when `shapes` is known of the first embeddings:
/// the next sentence long enough is to be embedded; when none is left, the
/// sentences are to be ranked, unless two embeddings that are to be compared
/// differ in length.
pub open spec fn settled(all: Seq<Seq<char>>, shapes: Seq<EmbeddingShape>) -> Result<
    StageView,
    ErrorView,
> {
    let known = gathered(all, shapes);
    if known.len() < all.len() {
        Ok(StageView::Embedding { sentences: all, shapes: known })
    } else if has_mismatch(known) {
        Err(ErrorView::DimensionMismatch)
    } else {
        Ok(StageView::Ranking { sentences: all, shapes: known })
    }
}

/// The stage in which the summarisation of `text` begins: over at once for a
/// document of at most three sentences, whose summary is the document
/// itself.
pub open spec fn spec_begin(text: Seq<char>) -> StageView {
    let all = sentences(text);
    if all.len() <= VERBATIM_LIMIT {
        StageView::Done(OutcomeView::Verbatim(text))
    } else {
        let known = gathered(all, Seq::empty());
        if known.len() < all.len() {
            StageView::Embedding { sentences: all, shapes: known }
        } else {
            StageView::Ranking { sentences: all, shapes: known }
        }
    }
}

/// The stage that follows `stage` on `event`, or the failure that ends the
/// summarisation. An event that the stage does not wait for changes nothing;
/// neither does an embedding where none is missing, nor a ranking that has
/// not one key for each sentence.
pub open spec fn spec_advance(stage: StageView, event: EventView) -> Result<StageView, ErrorView> {
    match stage {
        StageView::Embedding { sentences, shapes } => match event {
            EventView::Embedded(shape) => if shapes.len() < sentences.len() {
                settled(sentences, shapes.push(shape))
            } else {
                Ok(stage)
            },
            EventView::EmbeddingFailed(report) => Err(ErrorView::EmbeddingProviderFailure(report)),
            EventView::Ranked(_, _) => Ok(stage),
        },
        StageView::Ranking { sentences, shapes } => match event {
            EventView::Ranked(keys, rounded) => if keys.len() == sentences.len() {
                Ok(StageView::Done(OutcomeView::Chosen(the_summary(sentences, keys, rounded))))
            } else {
                Ok(stage)
            },
            _ => Ok(stage),
        },
        StageView::Done(_) => Ok(stage),
    }
}

/// What a step returns, as plain values.
pub open spec fn step_view(step: Result<Stage, Error>) -> Result<StageView, ErrorView> {
    match step {
        Ok(stage) => Ok(stage@),
        Err(error) => Err(error@),
    }
}

proof fn lemma_gathered(all: Seq<Seq<char>>, shapes: Seq<EmbeddingShape>)
    requires
        shapes.len() <= all.len(),
    ensures
        shapes.len() <= gathered(all, shapes).len() <= all.len(),
        (forall|i: int| 0 <= i < shapes.len() ==> shapes[i].all_zero) ==> forall|i: int|
            0 <= i < gathered(all, shapes).len() ==> gathered(all, shapes)[i].all_zero,
    decreases all.len() - shapes.len(),
{
    if shapes.len() < all.len() && token_count(all[shapes.len() as int]) < EMBEDDING_TOKENS {
        lemma_gathered(all, shapes.push(sentinel_shape()));
    }
}

/// A document of at most three sentences is its own summary, whatever the
/// ratio: its summarisation is over as it begins, with the document as it
/// is and no sentence scored.
pub proof fn lemma_short_document_is_verbatim(text: Seq<char>)
    requires
        sentences(text).len() <= 3,
    ensures
        spec_begin(text) == StageView::Done(OutcomeView::Verbatim(text)),
{
}

/// A summarisation always begins: the all-zero vectors that the first
/// sentences may get are never compared.
pub proof fn lemma_begin_fits(text: Seq<char>)
    ensures
        !has_mismatch(gathered(sentences(text), Seq::empty())),
{
    lemma_gathered(sentences(text), Seq::empty());
    let known = gathered(sentences(text), Seq::empty());
    assert forall|i: int, j: int| 0 <= i < known.len() && 0 <= j < known.len() implies !mismatched(
        known,
        i,
        j,
    ) by {
        assert(known[i].all_zero);
    }
}

/// Adds the all-zero vector for each sentence too short to embed, up to the
/// first one that is to be embedded.
fn gather(all: &Vec<String>, shapes: Vec<EmbeddingShape>) -> (known: Vec<EmbeddingShape>)
    requires
        shapes.len() <= all.len(),
    ensures
        known@ == gathered(texts(all@), shapes@),
        known.len() <= all.len(),
{
    let mut known = shapes;
    while known.len() < all.len() && !needs_embedding(all[known.len()].as_str())
        invariant
            known.len() <= all.len(),
            gathered(texts(all@), known@) == gathered(texts(all@), shapes@),
        decreases all.len() - known.len(),
    {
        known.push(EmbeddingShape { len: SENTINEL_DIMENSION, all_zero: true });
    }
    known
}

/// The stage that follows when `shapes` is known of the first embeddings.
fn settle(all: Vec<String>, shapes: Vec<EmbeddingShape>) -> (next: Result<Stage, Error>)
    requires
        shapes.len() <= all.len(),
    ensures
        step_view(next) == settled(texts(all@), shapes@),
        next matches Ok(stage) ==> stage.wf(),
{
    let known = gather(&all, shapes);
    if known.len() < all.len() {
        Ok(Stage::Embedding { sentences: all, shapes: known })
    } else {
        match plan_matrix(&known) {
            Ok(cells) => Ok(Stage::Ranking { sentences: all, shapes: known, cells }),
            Err(error) => Err(error),
        }
    }
}

/// Begins the summarisation of `text`. A document of at most three sentences
/// is done at once, with itself as the summary; a longer one is split, and
/// its first sentence that is long enough is to be embedded.
pub fn begin(text: &str) -> (stage: Stage)
    ensures
        stage@ == spec_begin(text@),
        stage.wf(),
{
    let all = split_into_sentences(text);
    if all.len() <= VERBATIM_LIMIT {
        return Stage::Done(Outcome::Verbatim(text.to_owned()));
    }
    proof {
        lemma_begin_fits(text@);
    }
    match settle(all, Vec::new()) {
        Ok(stage) => stage,
        Err(_) => vstd::pervasive::unreached(),
    }
}

/// Takes the summarisation from `stage` to the next stage on `event`, or
/// ends it with the failure that `event` brings. A stage that a
/// summarisation can be in is followed by another such stage.
pub fn advance(stage: Stage, event: Event) -> (next: Result<Stage, Error>)
    ensures
        step_view(next) == spec_advance(stage@, event@),
        stage.wf() ==> (next matches Ok(following) ==> following.wf()),
{
    match stage {
        Stage::Embedding { sentences, shapes } => match event {
            Event::Embedded(shape) => {
                if shapes.len() < sentences.len() {
                    let mut shapes = shapes;
                    shapes.push(shape);
                    settle(sentences, shapes)
                } else {
                    Ok(Stage::Embedding { sentences, shapes })
                }
            },
            Event::EmbeddingFailed(report) => Err(Error::EmbeddingProviderFailure(report)),
            Event::Ranked(_, _) => Ok(Stage::Embedding { sentences, shapes }),
        },
        Stage::Ranking { sentences, shapes, cells } => match event {
            Event::Ranked(keys, rounded) => {
                if keys.len() == sentences.len() {
                    let summary = summarize_ranked(&sentences, &keys, rounded);
                    Ok(Stage::Done(Outcome::Chosen(summary)))
                } else {
                    Ok(Stage::Ranking { sentences, shapes, cells })
                }
            },
            _ => Ok(Stage::Ranking { sentences, shapes, cells }),
        },
        Stage::Done(outcome) => Ok(Stage::Done(outcome)),
    }
}

} // verus!
