use vstd::prelude::*;

verus! {

/// Number of products that the dot product of two sequences sums up.
///
/// Entries are paired by index until the shorter sequence ends; what the
/// longer one holds beyond that is left out.
pub open spec fn spec_paired_len(a: usize, b: usize) -> usize {
    if a <= b {
        a
    } else {
        b
    }
}

#[verifier::when_used_as_spec(spec_paired_len)]
pub fn paired_len(a: usize, b: usize) -> (pairs: usize)
    ensures
        pairs == spec_paired_len(a, b),
{
    if a <= b {
        a
    } else {
        b
    }
}

/// Whether `sums` lists the sum before the first product and after each of
/// the products of the paired entries of `a` and `b`: it starts at `zero`,
/// and every later entry is what one call of `add_product` returned for the
/// entry before it and the pair whose turn it was.
pub open spec fn dot_trace<T, F: Fn(T, T, T) -> T>(
    a: Seq<T>,
    b: Seq<T>,
    zero: T,
    add_product: F,
    sums: Seq<T>,
) -> bool {
    &&& sums.len() == paired_len(a.len() as usize, b.len() as usize) + 1
    &&& sums[0] == zero
    &&& forall|i: int|
        0 <= i < paired_len(a.len() as usize, b.len() as usize) ==> call_ensures(
            add_product,
            (#[trigger] sums[i], a[i], b[i]),
            sums[i + 1],
        )
}

/// Multiplies the entries of `a` and `b` pair by pair and sums the products
/// up, from the first pair to the last.
///
/// `add_product` takes the sum so far and the two entries of a pair, and
/// returns the sum with their product added. The sum starts at `zero`. Where
/// the lengths differ the pairs end with the shorter sequence, so with an
/// empty sequence on either side the result is `zero` itself.
pub fn dot_product_and_sum<T: Copy, F: Fn(T, T, T) -> T>(
    a: &Vec<T>,
    b: &Vec<T>,
    zero: T,
    add_product: F,
) -> (sum: T)
    requires
        forall|sum: T, i: int|
            0 <= i < a.len() && i < b.len() ==> call_requires(add_product, (sum, a[i], b[i])),
    ensures
        exists|sums: Seq<T>| #[trigger]
            dot_trace(a@, b@, zero, add_product, sums) && sums.last() == sum,
        a.len() == 0 || b.len() == 0 ==> sum == zero,
{
    let pairs: usize = paired_len(a.len(), b.len());
    let mut sum = zero;
    let ghost mut sums: Seq<T> = seq![zero];
    let mut i: usize = 0;
    while i < pairs
        invariant
            forall|sum: T, i: int|
                0 <= i < a.len() && i < b.len() ==> call_requires(add_product, (sum, a[i], b[i])),
            pairs == paired_len(a.len(), b.len()),
            i <= pairs,
            sums.len() == i + 1,
            sums[0] == zero,
            sums.last() == sum,
            forall|k: int|
                0 <= k < i ==> call_ensures(
                    add_product,
                    (#[trigger] sums[k], a@[k], b@[k]),
                    sums[k + 1],
                ),
        decreases pairs - i,
    {
        sum = add_product(sum, a[i], b[i]);
        proof {
            sums = sums.push(sum);
        }
        i += 1;
    }
    proof {
        assert(dot_trace(a@, b@, zero, add_product, sums));
    }
    sum
}

/// The sum of the products of the first `pairs` pairs of `a` and `b`, added
/// to `zero` one after the other by `add_product`.
pub open spec fn dot_sum<T>(
    add_product: spec_fn(T, T, T) -> T,
    a: Seq<T>,
    b: Seq<T>,
    zero: T,
    pairs: nat,
) -> T
    decreases pairs,
{
    if pairs == 0 {
        zero
    } else {
        add_product(
            dot_sum(add_product, a, b, zero, (pairs - 1) as nat),
            a[pairs - 1],
            b[pairs - 1],
        )
    }
}

proof fn lemma_trace_is_sum<T, F: Fn(T, T, T) -> T>(
    a: Seq<T>,
    b: Seq<T>,
    zero: T,
    add_product: F,
    model: spec_fn(T, T, T) -> T,
    sums: Seq<T>,
    i: nat,
)
    requires
        dot_trace(a, b, zero, add_product, sums),
        forall|sum: T, x: T, y: T, next: T| #[trigger]
            call_ensures(add_product, (sum, x, y), next) ==> next == model(sum, x, y),
        i <= paired_len(a.len() as usize, b.len() as usize),
    ensures
        sums[i as int] == dot_sum(model, a, b, zero, i),
    decreases i,
{
    if i > 0 {
        lemma_trace_is_sum(a, b, zero, add_product, model, sums, (i - 1) as nat);
        let k = i - 1;
        assert(call_ensures(add_product, (sums[k], a[k], b[k]), sums[k + 1]));
    }
}

/// Where `add_product` computes the function `model`, the dot product is
/// the sum of the products of all pairs: as many as the shorter sequence has
/// entries, in the order of their indices, added to `zero`.
pub proof fn lemma_dot_is_sum<T, F: Fn(T, T, T) -> T>(
    a: Seq<T>,
    b: Seq<T>,
    zero: T,
    add_product: F,
    model: spec_fn(T, T, T) -> T,
    sums: Seq<T>,
)
    requires
        a.len() <= usize::MAX,
        b.len() <= usize::MAX,
        dot_trace(a, b, zero, add_product, sums),
        forall|sum: T, x: T, y: T, next: T| #[trigger]
            call_ensures(add_product, (sum, x, y), next) ==> next == model(sum, x, y),
    ensures
        sums.last() == dot_sum(model, a, b, zero, if a.len() <= b.len() {
            a.len()
        } else {
            b.len()
        }),
{
    let pairs = paired_len(a.len() as usize, b.len() as usize);
    lemma_trace_is_sum(a, b, zero, add_product, model, sums, pairs as nat);
}

/// What the longer sequence holds beyond the length of the shorter one has
/// no part in the dot product: cut down to the pairs, both sequences give
/// the same sums.
pub proof fn lemma_dot_ignores_tail<T, F: Fn(T, T, T) -> T>(
    a: Seq<T>,
    b: Seq<T>,
    zero: T,
    add_product: F,
    sums: Seq<T>,
)
    requires
        a.len() <= usize::MAX,
        b.len() <= usize::MAX,
    ensures
        ({
            let pairs = if a.len() <= b.len() {
                a.len() as int
            } else {
                b.len() as int
            };
            dot_trace(a, b, zero, add_product, sums) <==> dot_trace(
                a.take(pairs),
                b.take(pairs),
                zero,
                add_product,
                sums,
            )
        }),
{
    let pairs = if a.len() <= b.len() {
        a.len() as int
    } else {
        b.len() as int
    };
    let short_a = a.take(pairs);
    let short_b = b.take(pairs);
    if dot_trace(a, b, zero, add_product, sums) {
        assert forall|i: int| 0 <= i < pairs implies call_ensures(
            add_product,
            (#[trigger] sums[i], short_a[i], short_b[i]),
            sums[i + 1],
        ) by {}
    }
    if dot_trace(short_a, short_b, zero, add_product, sums) {
        assert forall|i: int| 0 <= i < pairs implies call_ensures(
            add_product,
            (#[trigger] sums[i], a[i], b[i]),
            sums[i + 1],
        ) by {
            assert(short_a[i] == a[i] && short_b[i] == b[i]);
        }
    }
}

} // verus!
