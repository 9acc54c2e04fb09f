use textrank_summary::selection::{select_top, summary_size};

fn rounded(n: usize, ratio: f32) -> usize {
    (n as f32 * ratio).round() as usize
}

/// The positions of the `count` best keys, found by sorting.
fn expected_top(keys: &[u64], count: usize) -> Vec<usize> {
    let mut order: Vec<usize> = (0..keys.len()).collect();
    order.sort_by(|&a, &b| keys[b].cmp(&keys[a]).then(a.cmp(&b)));
    let mut top: Vec<usize> = order.into_iter().take(count).collect();
    top.sort();
    top
}

#[test]
fn summary_size_known_values() {
    assert_eq!(summary_size(5, 2), 2);
    assert_eq!(summary_size(5, 0), 1);
    assert_eq!(summary_size(5, 5), 5);
    assert_eq!(summary_size(5, 6), 5);
    assert_eq!(summary_size(5, usize::MAX), 5);
    assert_eq!(summary_size(1, 0), 1);
    assert_eq!(summary_size(0, 0), 0);
    assert_eq!(summary_size(0, 7), 0);
    assert_eq!(summary_size(10, 1), 1);
}

#[test]
fn summary_size_of_rounded_products() {
    assert_eq!(summary_size(5, rounded(5, 0.4)), 2);
    assert_eq!(summary_size(5, rounded(5, 0.5)), 3);
    assert_eq!(summary_size(4, rounded(4, 0.1)), 1);
    assert_eq!(summary_size(10, rounded(10, 0.25)), 3);
    assert_eq!(summary_size(10, rounded(10, 0.24)), 2);
    assert_eq!(summary_size(7, rounded(7, 1.0)), 7);
    assert_eq!(summary_size(7, rounded(7, 0.01)), 1);
    assert_eq!(summary_size(7, rounded(7, 3.0)), 7);
    assert_eq!(summary_size(7, rounded(7, -1.0)), 1);
}

#[test]
fn top_selection_known_values() {
    assert_eq!(select_top(&vec![10, 50, 30, 40, 20], 2), vec![1, 3]);
    assert_eq!(select_top(&vec![10, 50, 30, 40, 20], 3), vec![1, 2, 3]);
    assert_eq!(select_top(&vec![10, 50, 30, 40, 20], 1), vec![1]);
    assert_eq!(select_top(&vec![10, 50, 30, 40, 20], 5), vec![0, 1, 2, 3, 4]);
    assert_eq!(select_top(&vec![10, 50, 30, 40, 20], 0), Vec::<usize>::new());
    assert_eq!(select_top(&vec![], 0), Vec::<usize>::new());
}

#[test]
fn top_selection_is_in_document_order() {
    assert_eq!(select_top(&vec![1, 2, 3, 4, 5, 6], 3), vec![3, 4, 5]);
    assert_eq!(select_top(&vec![6, 5, 4, 3, 2, 1], 3), vec![0, 1, 2]);
    assert_eq!(select_top(&vec![6, 1, 5, 2, 4, 3], 3), vec![0, 2, 4]);
}

#[test]
fn equal_keys_prefer_the_earlier_sentence() {
    assert_eq!(select_top(&vec![7, 7, 7, 7], 2), vec![0, 1]);
    assert_eq!(select_top(&vec![1, 9, 9, 9], 2), vec![1, 2]);
    assert_eq!(select_top(&vec![9, 1, 9, 1, 9], 2), vec![0, 2]);
    assert_eq!(select_top(&vec![0, 0, u64::MAX, 0], 2), vec![0, 2]);
}

#[test]
fn a_count_beyond_the_sentences_takes_them_all() {
    assert_eq!(select_top(&vec![3, 1, 2], 4), vec![0, 1, 2]);
    assert_eq!(select_top(&vec![3, 1, 2], usize::MAX), vec![0, 1, 2]);
    assert_eq!(select_top(&vec![], 3), Vec::<usize>::new());
}

#[test]
fn top_selection_agrees_with_sorting() {
    let mut state: u64 = 0x2545F4914F6CDD1D;
    for round in 0..200 {
        let n = round % 9;
        let mut keys: Vec<u64> = Vec::new();
        for _ in 0..n {
            state ^= state << 13;
            state ^= state >> 7;
            state ^= state << 17;
            keys.push(state % 5);
        }
        for count in 0..=n {
            assert_eq!(select_top(&keys, count), expected_top(&keys, count), "keys {:?}", keys);
        }
    }
}

#[test]
fn top_selection_has_the_clamped_size() {
    let keys: Vec<u64> = vec![4, 8, 15, 16, 23, 42, 7];
    let ratios: [f32; 7] = [0.01, 0.1, 0.3, 0.5, 0.75, 1.0, 2.0];
    for ratio in ratios.iter() {
        let size = summary_size(keys.len(), rounded(keys.len(), *ratio));
        let picked = select_top(&keys, size);
        let wanted = rounded(keys.len(), *ratio).max(1).min(keys.len());
        assert_eq!(picked.len(), wanted);
        for pair in picked.windows(2) {
            assert!(pair[0] < pair[1]);
        }
    }
}
