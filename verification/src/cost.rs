//! Rough cost figures for an embedding model: the arithmetic of one forward
//! pass, and the size of the stored weights.
//!
//! Every figure is exact or absent: a function returns `None` where the
//! number it stands for does not fit its type.

use vstd::prelude::*;

verus! {

/// The element type of a stored tensor.
#[derive(Debug, Clone, Copy, PartialEq, Eq, Structural)]
pub enum Dtype {
    F16,
    BF16,
    F32,
    I32,
    U32,
    F64,
    I64,
    U64,
    I8,
    U8,
    I16,
    U16,
    /// Any other element type; it is counted as four bytes wide.
    Other,
}

/// What the weight statistics need to know of one stored tensor.
#[derive(Debug, Clone, PartialEq, Eq)]
pub struct TensorLayout {
    pub dtype: Dtype,
    pub shape: Vec<usize>,
}

/// Totals over the stored weights of a model.
#[derive(Debug, Clone, Copy, PartialEq, Eq, Structural)]
pub struct WeightStats {
    /// The number of scalar values.
    pub parameters: usize,
    /// The bytes that the values take.
    pub param_bytes: usize,
    /// Twice the number of values: a crude count of the operations of one
    /// forward pass.
    pub flops_per_forward: usize,
}

/// The operations of one forward pass over `seq_len` tokens:
/// `2 · layers · seq_len · (hidden² + hidden · vocab)`.
pub open spec fn spec_flops(seq_len: nat, num_layers: nat, hidden_size: nat, vocab_size: nat) -> nat {
    2 * num_layers * seq_len * (hidden_size * hidden_size + hidden_size * vocab_size)
}

/// The width of one element, in bytes.
pub open spec fn spec_dtype_size(dtype: Dtype) -> nat {
    match dtype {
        Dtype::F16 | Dtype::BF16 => 2,
        Dtype::F32 | Dtype::I32 | Dtype::U32 => 4,
        Dtype::F64 | Dtype::I64 | Dtype::U64 => 8,
        Dtype::I8 | Dtype::U8 => 1,
        Dtype::I16 | Dtype::U16 => 2,
        Dtype::Other => 4,
    }
}

/// The number of elements of a tensor of the given shape: the product of
/// its dimensions, one for a scalar.
pub open spec fn element_count(shape: Seq<usize>) -> nat
    decreases shape.len(),
{
    if shape.len() == 0 {
        1
    } else {
        element_count(shape.drop_last()) * (shape.last() as nat)
    }
}

/// The number of elements of all `tensors` together.
pub open spec fn total_parameters(tensors: Seq<TensorLayout>) -> nat
    decreases tensors.len(),
{
    if tensors.len() == 0 {
        0
    } else {
        total_parameters(tensors.drop_last()) + element_count(tensors.last().shape@)
    }
}

/// The bytes of all `tensors` together.
pub open spec fn total_bytes(tensors: Seq<TensorLayout>) -> nat
    decreases tensors.len(),
{
    if tensors.len() == 0 {
        0
    } else {
        total_bytes(tensors.drop_last()) + element_count(tensors.last().shape@) * spec_dtype_size(
            tensors.last().dtype,
        )
    }
}

proof fn lemma_product_grows(a: nat, b: nat, limit: nat)
    requires
        a > limit,
        b >= 1,
    ensures
        a * b > limit,
        b * a > limit,
{
    assert(a * b >= a) by (nonlinear_arith)
        requires
            b >= 1,
    ;
    assert(b * a == a * b) by (nonlinear_arith);
}

proof fn lemma_count_with_zero(shape: Seq<usize>, k: int)
    requires
        0 <= k < shape.len(),
        shape[k] == 0,
    ensures
        element_count(shape) == 0,
    decreases shape.len(),
{
    if k == shape.len() - 1 {
        assert(element_count(shape.drop_last()) * 0 == 0) by (nonlinear_arith);
    } else {
        lemma_count_with_zero(shape.drop_last(), k);
        assert(0 * (shape.last() as nat) == 0) by (nonlinear_arith);
    }
}

proof fn lemma_count_prefix(shape: Seq<usize>, k: int)
    requires
        0 <= k <= shape.len(),
        forall|i: int| 0 <= i < shape.len() ==> shape[i] >= 1,
    ensures
        1 <= element_count(shape.take(k)) <= element_count(shape),
    decreases shape.len() - k,
{
    if k == shape.len() {
        assert(shape.take(k) == shape);
        lemma_count_positive(shape);
    } else {
        lemma_count_prefix(shape, k + 1);
        assert(shape.take(k + 1).drop_last() == shape.take(k));
        lemma_count_positive(shape.take(k));
        let a = element_count(shape.take(k));
        let b = shape[k] as nat;
        assert(a * b >= a) by (nonlinear_arith)
            requires
                b >= 1,
        ;
    }
}

proof fn lemma_count_positive(shape: Seq<usize>)
    requires
        forall|i: int| 0 <= i < shape.len() ==> shape[i] >= 1,
    ensures
        element_count(shape) >= 1,
    decreases shape.len(),
{
    if shape.len() > 0 {
        lemma_count_positive(shape.drop_last());
        let a = element_count(shape.drop_last());
        let b = shape.last() as nat;
        assert(a * b >= 1) by (nonlinear_arith)
            requires
                a >= 1,
                b >= 1,
        ;
    }
}

proof fn lemma_totals_prefix(tensors: Seq<TensorLayout>, k: int)
    requires
        0 <= k <= tensors.len(),
    ensures
        total_parameters(tensors.take(k)) <= total_parameters(tensors),
        total_bytes(tensors.take(k)) <= total_bytes(tensors),
        total_parameters(tensors) <= total_bytes(tensors),
    decreases tensors.len(),
{
    if tensors.len() == 0 {
        assert(tensors.take(k) == tensors);
    } else if k == tensors.len() {
        assert(tensors.take(k) == tensors);
        lemma_totals_prefix(tensors.drop_last(), k - 1);
        let n = element_count(tensors.last().shape@);
        let w = spec_dtype_size(tensors.last().dtype);
        assert(n * w >= n) by (nonlinear_arith)
            requires
                w >= 1,
        ;
    } else {
        lemma_totals_prefix(tensors.drop_last(), k);
        assert(tensors.drop_last().take(k) == tensors.take(k));
        let n = element_count(tensors.last().shape@);
        let w = spec_dtype_size(tensors.last().dtype);
        assert(n * w >= n) by (nonlinear_arith)
            requires
                w >= 1,
        ;
    }
}

/// The operations of one forward pass over `seq_len` tokens, or `None`
/// where their number is beyond 64 bits.
pub fn estimate_flops(seq_len: u64, num_layers: u64, hidden_size: u64, vocab_size: u64) -> (flops:
    Option<u64>)
    ensures
        flops == if spec_flops(
            seq_len as nat,
            num_layers as nat,
            hidden_size as nat,
            vocab_size as nat,
        ) <= u64::MAX {
            Some(
                spec_flops(
                    seq_len as nat,
                    num_layers as nat,
                    hidden_size as nat,
                    vocab_size as nat,
                ) as u64,
            )
        } else {
            None
        },
{
    let ghost s = seq_len as nat;
    let ghost l = num_layers as nat;
    let ghost h = hidden_size as nat;
    let ghost v = vocab_size as nat;
    let ghost limit = u64::MAX as nat;
    if seq_len == 0 || num_layers == 0 || hidden_size == 0 {
        assert(2 * l * s * (h * h + h * v) == 0) by (nonlinear_arith)
            requires
                s == 0 || l == 0 || h == 0,
        ;
        return Some(0);
    }
    assert(h * h >= 1 && 2 * l * s >= 1 && 2 * l >= 1 && h * v >= 0) by (nonlinear_arith)
        requires
            h >= 1,
            l >= 1,
            s >= 1,
    ;
    let square: u64 = match hidden_size.checked_mul(hidden_size) {
        Some(square) => square,
        None => {
            proof {
                lemma_product_grows(h * h + h * v, 2 * l * s, limit);
            }
            return None;
        },
    };
    let projection: u64 = match hidden_size.checked_mul(vocab_size) {
        Some(projection) => projection,
        None => {
            proof {
                lemma_product_grows(h * h + h * v, 2 * l * s, limit);
            }
            return None;
        },
    };
    let per_token: u64 = match square.checked_add(projection) {
        Some(per_token) => per_token,
        None => {
            proof {
                lemma_product_grows(h * h + h * v, 2 * l * s, limit);
            }
            return None;
        },
    };
    let ghost p = per_token as nat;
    assert(p == h * h + h * v);
    let doubled: u64 = match num_layers.checked_mul(2) {
        Some(doubled) => doubled,
        None => {
            proof {
                assert(s * p >= 1) by (nonlinear_arith)
                    requires
                        s >= 1,
                        p >= 1,
                ;
                lemma_product_grows(2 * l, s * p, limit);
                assert(2 * l * s * p == (2 * l) * (s * p)) by (nonlinear_arith);
            }
            return None;
        },
    };
    let per_layer: u64 = match doubled.checked_mul(seq_len) {
        Some(per_layer) => per_layer,
        None => {
            proof {
                lemma_product_grows(2 * l * s, p, limit);
            }
            return None;
        },
    };
    per_layer.checked_mul(per_token)
}

/// The width of one element of the given type, in bytes.
pub fn dtype_size(dtype: Dtype) -> (size: usize)
    ensures
        size == spec_dtype_size(dtype),
{
    match dtype {
        Dtype::F16 | Dtype::BF16 => 2,
        Dtype::F32 | Dtype::I32 | Dtype::U32 => 4,
        Dtype::F64 | Dtype::I64 | Dtype::U64 => 8,
        Dtype::I8 | Dtype::U8 => 1,
        Dtype::I16 | Dtype::U16 => 2,
        Dtype::Other => 4,
    }
}

/// The number of elements of a tensor of the given shape, or `None` where
/// it does not fit.
pub fn count_elements(shape: &Vec<usize>) -> (count: Option<usize>)
    ensures
        count == if element_count(shape@) <= usize::MAX {
            Some(element_count(shape@) as usize)
        } else {
            None
        },
{
    let mut k: usize = 0;
    while k < shape.len()
        invariant
            k <= shape.len(),
            forall|i: int| 0 <= i < k ==> shape@[i] >= 1,
        decreases shape.len() - k,
    {
        if shape[k] == 0 {
            proof {
                lemma_count_with_zero(shape@, k as int);
            }
            return Some(0);
        }
        k += 1;
    }
    let mut product: usize = 1;
    let mut i: usize = 0;
    while i < shape.len()
        invariant
            i <= shape.len(),
            forall|j: int| 0 <= j < shape.len() ==> shape@[j] >= 1,
            product == element_count(shape@.take(i as int)),
        decreases shape.len() - i,
    {
        proof {
            assert(shape@.take(i + 1).drop_last() == shape@.take(i as int));
            lemma_count_prefix(shape@, i + 1);
        }
        product = match product.checked_mul(shape[i]) {
            Some(next) => next,
            None => {
                return None;
            },
        };
        i += 1;
    }
    assert(shape@.take(shape.len() as int) == shape@);
    Some(product)
}

/// The totals over the stored weights, or `None` where one of them does not
/// fit.
pub fn weight_stats(tensors: &Vec<TensorLayout>) -> (stats: Option<WeightStats>)
    ensures
        stats == if total_bytes(tensors@) <= usize::MAX && 2 * total_parameters(tensors@)
            <= usize::MAX {
            Some(
                WeightStats {
                    parameters: total_parameters(tensors@) as usize,
                    param_bytes: total_bytes(tensors@) as usize,
                    flops_per_forward: (2 * total_parameters(tensors@)) as usize,
                },
            )
        } else {
            None
        },
{
    let mut parameters: usize = 0;
    let mut param_bytes: usize = 0;
    let mut i: usize = 0;
    while i < tensors.len()
        invariant
            i <= tensors.len(),
            parameters == total_parameters(tensors@.take(i as int)),
            param_bytes == total_bytes(tensors@.take(i as int)),
        decreases tensors.len() - i,
    {
        proof {
            assert(tensors@.take(i + 1).drop_last() == tensors@.take(i as int));
            lemma_totals_prefix(tensors@, i + 1);
        }
        let ghost n = element_count(tensors@[i as int].shape@);
        let ghost w = spec_dtype_size(tensors@[i as int].dtype);
        assert(n * w >= n) by (nonlinear_arith)
            requires
                w >= 1,
        ;
        let elements: usize = match count_elements(&tensors[i].shape) {
            Some(elements) => elements,
            None => {
                return None;
            },
        };
        let bytes: usize = match elements.checked_mul(dtype_size(tensors[i].dtype)) {
            Some(bytes) => bytes,
            None => {
                return None;
            },
        };
        parameters = match parameters.checked_add(elements) {
            Some(sum) => sum,
            None => {
                return None;
            },
        };
        param_bytes = match param_bytes.checked_add(bytes) {
            Some(sum) => sum,
            None => {
                return None;
            },
        };
        i += 1;
    }
    proof {
        assert(tensors@.take(tensors.len() as int) == tensors@);
        lemma_totals_prefix(tensors@, 0);
    }
    match parameters.checked_mul(2) {
        Some(flops_per_forward) => Some(WeightStats { parameters, param_bytes, flops_per_forward }),
        None => None,
    }
}

} // verus!
