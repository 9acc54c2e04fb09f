use textrank_summary::error::Error;
use textrank_summary::similarity::{plan_matrix, Cell, EmbeddingShape};

fn shape(len: usize, all_zero: bool) -> EmbeddingShape {
    EmbeddingShape { len, all_zero }
}

#[test]
fn layout_of_equal_lengths() {
    let shapes = vec![shape(4, false), shape(4, false), shape(4, false)];
    assert_eq!(
        plan_matrix(&shapes),
        Ok(vec![
            vec![Cell::One, Cell::Cosine, Cell::Cosine],
            vec![Cell::Cosine, Cell::One, Cell::Cosine],
            vec![Cell::Cosine, Cell::Cosine, Cell::One],
        ])
    );
}

#[test]
fn a_sentinel_zeroes_its_row_and_column() {
    let shapes = vec![shape(4, false), shape(384, true), shape(4, false)];
    assert_eq!(
        plan_matrix(&shapes),
        Ok(vec![
            vec![Cell::One, Cell::Zero, Cell::Cosine],
            vec![Cell::Zero, Cell::One, Cell::Zero],
            vec![Cell::Cosine, Cell::Zero, Cell::One],
        ])
    );
}

#[test]
fn the_diagonal_is_one_even_for_sentinels() {
    let shapes = vec![shape(384, true), shape(384, true)];
    assert_eq!(
        plan_matrix(&shapes),
        Ok(vec![vec![Cell::One, Cell::Zero], vec![Cell::Zero, Cell::One]])
    );
}

#[test]
fn sentinels_of_any_length_are_never_compared() {
    let shapes = vec![shape(3, true), shape(5, false), shape(7, true), shape(5, false)];
    let cells = plan_matrix(&shapes).unwrap();
    assert_eq!(cells[0], vec![Cell::One, Cell::Zero, Cell::Zero, Cell::Zero]);
    assert_eq!(cells[1], vec![Cell::Zero, Cell::One, Cell::Zero, Cell::Cosine]);
    assert_eq!(cells[2], vec![Cell::Zero, Cell::Zero, Cell::One, Cell::Zero]);
    assert_eq!(cells[3], vec![Cell::Zero, Cell::Cosine, Cell::Zero, Cell::One]);
}

#[test]
fn different_lengths_are_a_dimension_mismatch() {
    let shapes = vec![shape(4, false), shape(5, false)];
    assert_eq!(plan_matrix(&shapes), Err(Error::DimensionMismatch));
    let shapes = vec![shape(4, false), shape(4, false), shape(384, true), shape(3, false)];
    assert_eq!(plan_matrix(&shapes), Err(Error::DimensionMismatch));
}

#[test]
fn empty_and_single_layouts() {
    assert_eq!(plan_matrix(&vec![]), Ok(vec![]));
    assert_eq!(plan_matrix(&vec![shape(0, true)]), Ok(vec![vec![Cell::One]]));
    assert_eq!(plan_matrix(&vec![shape(9, false)]), Ok(vec![vec![Cell::One]]));
}

#[test]
fn the_layout_is_square_and_symmetric() {
    let shapes = vec![
        shape(8, false),
        shape(384, true),
        shape(8, false),
        shape(8, true),
        shape(8, false),
    ];
    let cells = plan_matrix(&shapes).unwrap();
    assert_eq!(cells.len(), shapes.len());
    for i in 0..shapes.len() {
        assert_eq!(cells[i].len(), shapes.len());
        for j in 0..shapes.len() {
            assert_eq!(cells[i][j], cells[j][i]);
        }
    }
}

#[test]
fn error_messages() {
    assert_eq!(Error::DimensionMismatch.message(), "Embeddings have different dimensions");
    assert_eq!(
        Error::EmbeddingProviderFailure("model is gone".to_string()).message(),
        "model is gone"
    );
}
