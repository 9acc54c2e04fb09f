use textrank_summary::cost::{
    count_elements, dtype_size, estimate_flops, weight_stats, Dtype, TensorLayout, WeightStats,
};

fn tensor(dtype: Dtype, shape: &[usize]) -> TensorLayout {
    TensorLayout { dtype, shape: shape.to_vec() }
}

#[test]
fn flops_known_values() {
    assert_eq!(estimate_flops(1, 1, 1, 1), Some(4));
    assert_eq!(estimate_flops(10, 6, 384, 30522), Some(2 * 6 * 10 * (384 * 384 + 384 * 30522)));
    assert_eq!(estimate_flops(10, 6, 384, 30522), Some(1_424_148_480));
    assert_eq!(estimate_flops(128, 12, 768, 30522), Some(73_822_371_840));
    assert_eq!(estimate_flops(3, 2, 5, 0), Some(300));
}

#[test]
fn flops_of_nothing_are_zero() {
    assert_eq!(estimate_flops(0, 6, 384, 30522), Some(0));
    assert_eq!(estimate_flops(10, 0, 384, 30522), Some(0));
    assert_eq!(estimate_flops(10, 6, 0, 30522), Some(0));
    assert_eq!(estimate_flops(0, u64::MAX, u64::MAX, u64::MAX), Some(0));
    assert_eq!(estimate_flops(u64::MAX, 0, u64::MAX, u64::MAX), Some(0));
    assert_eq!(estimate_flops(u64::MAX, u64::MAX, 0, u64::MAX), Some(0));
}

#[test]
fn flops_beyond_64_bits_are_absent() {
    assert_eq!(estimate_flops(1, 1, u64::MAX, 1), None);
    assert_eq!(estimate_flops(1, 1, 1, u64::MAX), None);
    assert_eq!(estimate_flops(1, u64::MAX, 1, 1), None);
    assert_eq!(estimate_flops(u64::MAX, 1, 1, 1), None);
    assert_eq!(estimate_flops(1 << 32, 1 << 31, 1, 0), None);
    assert_eq!(estimate_flops(1 << 31, 1 << 31, 1, 0), Some(1 << 63));
    assert_eq!(estimate_flops(1, 1, 1 << 32, 0), None);
    assert_eq!(estimate_flops(1, 1, 1, (1 << 63) - 2), Some(u64::MAX - 1));
    assert_eq!(estimate_flops(1, 1, 1, (1 << 63) - 1), None);
    assert_eq!(estimate_flops(1, 1, (1 << 31) + 1, (1 << 31) - 2), None);
}

#[test]
fn element_widths() {
    assert_eq!(dtype_size(Dtype::F16), 2);
    assert_eq!(dtype_size(Dtype::BF16), 2);
    assert_eq!(dtype_size(Dtype::F32), 4);
    assert_eq!(dtype_size(Dtype::I32), 4);
    assert_eq!(dtype_size(Dtype::U32), 4);
    assert_eq!(dtype_size(Dtype::F64), 8);
    assert_eq!(dtype_size(Dtype::I64), 8);
    assert_eq!(dtype_size(Dtype::U64), 8);
    assert_eq!(dtype_size(Dtype::I8), 1);
    assert_eq!(dtype_size(Dtype::U8), 1);
    assert_eq!(dtype_size(Dtype::I16), 2);
    assert_eq!(dtype_size(Dtype::U16), 2);
    assert_eq!(dtype_size(Dtype::Other), 4);
}

#[test]
fn element_counts() {
    assert_eq!(count_elements(&vec![]), Some(1));
    assert_eq!(count_elements(&vec![7]), Some(7));
    assert_eq!(count_elements(&vec![384, 30522]), Some(384 * 30522));
    assert_eq!(count_elements(&vec![2, 3, 4]), Some(24));
    assert_eq!(count_elements(&vec![5, 0, 9]), Some(0));
    assert_eq!(count_elements(&vec![usize::MAX]), Some(usize::MAX));
    assert_eq!(count_elements(&vec![usize::MAX, 1, 1]), Some(usize::MAX));
}

#[test]
fn element_counts_beyond_the_machine_word_are_absent() {
    assert_eq!(count_elements(&vec![usize::MAX, 2]), None);
    assert_eq!(count_elements(&vec![2, usize::MAX]), None);
    assert_eq!(count_elements(&vec![usize::MAX, usize::MAX, 3]), None);
}

#[test]
fn a_zero_dimension_makes_the_count_zero_whatever_the_rest() {
    assert_eq!(count_elements(&vec![usize::MAX, 2, 0]), Some(0));
    assert_eq!(count_elements(&vec![0, usize::MAX, usize::MAX]), Some(0));
}

#[test]
fn weight_totals_known_values() {
    let tensors = vec![
        tensor(Dtype::F32, &[384, 30522]),
        tensor(Dtype::F16, &[384]),
        tensor(Dtype::I64, &[1, 512]),
        tensor(Dtype::U8, &[]),
        tensor(Dtype::Other, &[3]),
    ];
    let parameters = 384 * 30522 + 384 + 512 + 1 + 3;
    let param_bytes = 384 * 30522 * 4 + 384 * 2 + 512 * 8 + 1 + 3 * 4;
    assert_eq!(
        weight_stats(&tensors),
        Some(WeightStats { parameters, param_bytes, flops_per_forward: parameters * 2 })
    );
}

#[test]
fn weight_totals_of_nothing() {
    assert_eq!(
        weight_stats(&vec![]),
        Some(WeightStats { parameters: 0, param_bytes: 0, flops_per_forward: 0 })
    );
    assert_eq!(
        weight_stats(&vec![tensor(Dtype::F64, &[4, 0])]),
        Some(WeightStats { parameters: 0, param_bytes: 0, flops_per_forward: 0 })
    );
}

#[test]
fn weight_totals_beyond_the_machine_word_are_absent() {
    assert_eq!(weight_stats(&vec![tensor(Dtype::U8, &[usize::MAX, 2])]), None);
    assert_eq!(weight_stats(&vec![tensor(Dtype::F32, &[usize::MAX / 2])]), None);
    assert_eq!(weight_stats(&vec![tensor(Dtype::U8, &[usize::MAX])]), None);
    assert_eq!(
        weight_stats(&vec![tensor(Dtype::U8, &[usize::MAX / 2]), tensor(Dtype::U8, &[2])]),
        None
    );
    assert_eq!(
        weight_stats(&vec![tensor(Dtype::U8, &[usize::MAX / 2])]),
        Some(WeightStats {
            parameters: usize::MAX / 2,
            param_bytes: usize::MAX / 2,
            flops_per_forward: usize::MAX - 1,
        })
    );
}
