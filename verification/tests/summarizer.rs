use textrank_summary::error::Error;
use textrank_summary::similarity::{Cell, EmbeddingShape, SENTINEL_DIMENSION};
use textrank_summary::summarizer::{advance, begin, Event, Outcome, Stage, VERBATIM_LIMIT};
use textrank_summary::summary::{Summary, EMBEDDING_TOKENS};

fn strings(parts: &[&str]) -> Vec<String> {
    parts.iter().map(|s| s.to_string()).collect()
}

fn shape(len: usize) -> EmbeddingShape {
    EmbeddingShape { len, all_zero: false }
}

fn sentinel() -> EmbeddingShape {
    EmbeddingShape { len: SENTINEL_DIMENSION, all_zero: true }
}

const MEETING: &str = "Dr. Smith arrived early. He reviewed the agenda. The meeting started on time. Everyone was attentive. The meeting ended late.";

const MIXED: &str = "Hello world. Good day. One two three four. Five six. Seven eight nine. Bye now.";

fn meeting_sentences() -> Vec<String> {
    strings(&[
        "Dr. Smith arrived early.",
        "He reviewed the agenda.",
        "The meeting started on time.",
        "Everyone was attentive.",
        "The meeting ended late.",
    ])
}

fn mixed_sentences() -> Vec<String> {
    strings(&[
        "Hello world.",
        "Good day.",
        "One two three four.",
        "Five six.",
        "Seven eight nine.",
        "Bye now.",
    ])
}

#[test]
fn limits() {
    assert_eq!(VERBATIM_LIMIT, 3);
    assert_eq!(EMBEDDING_TOKENS, 3);
    assert_eq!(SENTINEL_DIMENSION, 384);
}

#[test]
fn short_documents_are_returned_verbatim() {
    let documents = [
        "",
        "Just a fragment",
        "One sentence only.",
        "First sentence here. Second sentence here.",
        "First sentence here. Second sentence here. Third sentence here.",
        "  Odd   spacing stays.  It is kept as is.  ",
        "Hi. Yo. Only these two count. And this one.",
    ];
    for document in documents.iter() {
        assert_eq!(begin(document), Stage::Done(Outcome::Verbatim(document.to_string())));
    }
}

#[test]
fn two_sentences_come_back_unchanged() {
    let document = "The first sentence is here.   The second one follows it!";
    assert_eq!(begin(document), Stage::Done(Outcome::Verbatim(document.to_string())));
}

#[test]
fn longer_documents_are_split_and_embedded() {
    assert_eq!(
        begin(MEETING),
        Stage::Embedding { sentences: meeting_sentences(), shapes: vec![] }
    );
}

#[test]
fn short_sentences_get_the_all_zero_vector() {
    assert_eq!(
        begin(MIXED),
        Stage::Embedding { sentences: mixed_sentences(), shapes: vec![sentinel(), sentinel()] }
    );
    let stage = advance(begin(MIXED), Event::Embedded(shape(8))).unwrap();
    assert_eq!(
        stage,
        Stage::Embedding {
            sentences: mixed_sentences(),
            shapes: vec![sentinel(), sentinel(), shape(8), sentinel()],
        }
    );
}

#[test]
fn after_the_last_embedding_the_matrix_is_laid_out() {
    let stage = advance(begin(MIXED), Event::Embedded(shape(8))).unwrap();
    let stage = advance(stage, Event::Embedded(shape(8))).unwrap();
    let z = Cell::Zero;
    let o = Cell::One;
    let c = Cell::Cosine;
    assert_eq!(
        stage,
        Stage::Ranking {
            sentences: mixed_sentences(),
            shapes: vec![sentinel(), sentinel(), shape(8), sentinel(), shape(8), sentinel()],
            cells: vec![
                vec![o, z, z, z, z, z],
                vec![z, o, z, z, z, z],
                vec![z, z, o, z, c, z],
                vec![z, z, z, o, z, z],
                vec![z, z, c, z, o, z],
                vec![z, z, z, z, z, o],
            ],
        }
    );
}

#[test]
fn a_document_of_short_sentences_is_ranked_without_any_embedding() {
    let document = "One two. Three four. Five six. Seven eight.";
    let all = strings(&["One two.", "Three four.", "Five six.", "Seven eight."]);
    let z = Cell::Zero;
    let o = Cell::One;
    assert_eq!(
        begin(document),
        Stage::Ranking {
            sentences: all,
            shapes: vec![sentinel(); 4],
            cells: vec![vec![o, z, z, z], vec![z, o, z, z], vec![z, z, o, z], vec![z, z, z, o]],
        }
    );
}

#[test]
fn a_failing_provider_ends_the_summarisation() {
    assert_eq!(
        advance(begin(MEETING), Event::EmbeddingFailed("model is gone".to_string())),
        Err(Error::EmbeddingProviderFailure("model is gone".to_string()))
    );
    let stage = advance(begin(MEETING), Event::Embedded(shape(8))).unwrap();
    let stage = advance(stage, Event::Embedded(shape(8))).unwrap();
    assert_eq!(
        advance(stage, Event::EmbeddingFailed("timeout".to_string())),
        Err(Error::EmbeddingProviderFailure("timeout".to_string()))
    );
}

#[test]
fn embeddings_of_different_lengths_end_the_summarisation() {
    let mut stage = begin(MEETING);
    for len in [8, 8, 8, 8] {
        stage = advance(stage, Event::Embedded(shape(len))).unwrap();
    }
    assert_eq!(advance(stage, Event::Embedded(shape(9))), Err(Error::DimensionMismatch));
}

#[test]
fn a_mismatch_shows_only_when_all_embeddings_are_in() {
    let stage = advance(begin(MEETING), Event::Embedded(shape(8))).unwrap();
    let stage = advance(stage, Event::Embedded(shape(9))).unwrap();
    assert_eq!(
        stage,
        Stage::Embedding { sentences: meeting_sentences(), shapes: vec![shape(8), shape(9)] }
    );
}

#[test]
fn an_all_zero_embedding_is_never_a_mismatch() {
    let mut stage = begin(MEETING);
    for len in [8, 8, 8, 8] {
        stage = advance(stage, Event::Embedded(shape(len))).unwrap();
    }
    let stage = advance(stage, Event::Embedded(EmbeddingShape { len: 9, all_zero: true }));
    assert!(matches!(stage, Ok(Stage::Ranking { .. })));
}

fn ranking_meeting() -> Stage {
    let mut stage = begin(MEETING);
    for _ in 0..5 {
        stage = advance(stage, Event::Embedded(shape(8))).unwrap();
    }
    stage
}

#[test]
fn the_meeting_is_summarised_in_two_sentences() {
    let rounded = (5.0f32 * 0.4).round() as usize;
    assert_eq!(rounded, 2);
    let stage = advance(ranking_meeting(), Event::Ranked(vec![18, 21, 24, 17, 20], rounded));
    assert_eq!(
        stage,
        Ok(Stage::Done(Outcome::Chosen(Summary {
            indices: vec![1, 2],
            text: "He reviewed the agenda. The meeting started on time.".to_string(),
            scored: vec![0, 1, 2, 3, 4],
        })))
    );
}

#[test]
fn the_whole_course_twice_gives_the_same_outcome() {
    let first = advance(ranking_meeting(), Event::Ranked(vec![5, 5, 9, 1, 9], 3));
    let second = advance(ranking_meeting(), Event::Ranked(vec![5, 5, 9, 1, 9], 3));
    assert_eq!(first, second);
    assert_eq!(begin(MEETING), begin(MEETING));
    assert_eq!(begin(MIXED), begin(MIXED));
}

#[test]
fn events_that_are_not_waited_for_change_nothing() {
    let embedding = begin(MEETING);
    assert_eq!(
        advance(embedding.clone(), Event::Ranked(vec![1, 2, 3, 4, 5], 2)),
        Ok(embedding.clone())
    );
    let ranking = ranking_meeting();
    assert_eq!(advance(ranking.clone(), Event::Embedded(shape(8))), Ok(ranking.clone()));
    assert_eq!(
        advance(ranking.clone(), Event::EmbeddingFailed("late".to_string())),
        Ok(ranking.clone())
    );
    let done = begin("Short one.");
    assert_eq!(advance(done.clone(), Event::Embedded(shape(8))), Ok(done.clone()));
    assert_eq!(advance(done.clone(), Event::EmbeddingFailed("x".to_string())), Ok(done.clone()));
    assert_eq!(advance(done.clone(), Event::Ranked(vec![], 1)), Ok(done.clone()));
}

#[test]
fn a_ranking_without_a_key_for_each_sentence_changes_nothing() {
    let ranking = ranking_meeting();
    assert_eq!(advance(ranking.clone(), Event::Ranked(vec![1, 2, 3, 4], 2)), Ok(ranking.clone()));
    assert_eq!(
        advance(ranking.clone(), Event::Ranked(vec![1, 2, 3, 4, 5, 6], 2)),
        Ok(ranking.clone())
    );
    assert_eq!(advance(ranking.clone(), Event::Ranked(vec![], 2)), Ok(ranking.clone()));
}

#[test]
fn an_embedding_where_none_is_missing_changes_nothing() {
    let full = Stage::Embedding { sentences: strings(&["One two three."]), shapes: vec![shape(8)] };
    assert_eq!(advance(full.clone(), Event::Embedded(shape(8))), Ok(full.clone()));
}

#[test]
fn a_finished_summarisation_stays_finished() {
    let done = advance(ranking_meeting(), Event::Ranked(vec![1, 2, 3, 4, 5], 2)).unwrap();
    assert_eq!(advance(done.clone(), Event::Ranked(vec![5, 4, 3, 2, 1], 2)), Ok(done.clone()));
}
