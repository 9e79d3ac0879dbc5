//! Depth ordering for the painter's algorithm.
//!
//! Depths (squared distances from the camera eye) and scene times are carried here as
//! integer keys made from the IEEE-754 bit pattern of a double (`f64::to_bits`):
//!
//! - `order_key` maps a bit pattern to a key whose order is the IEEE total order of the
//!   doubles (`f64::total_cmp`); it is what sorting uses.
//! - `compare_key` maps a bit pattern to the key that the comparison operators `<`, `>=`
//!   see: `None` for a NaN, which compares false with everything, and one key shared by
//!   `-0.0` and `+0.0`, which compare equal. `key_less` and `key_at_least` are `<` and
//!   `>=` on such keys.
use vstd::prelude::*;

verus! {

/// The sign bit of an IEEE-754 double.
pub const SIGN_BIT: u64 = 0x8000_0000_0000_0000;

/// The order key of a double given by its bit pattern: negative values (sign bit set)
/// have their bits inverted, non-negative values have the sign bit set.
pub open spec fn order_key_of(bits: u64) -> u64 {
    if bits >= SIGN_BIT {
        (u64::MAX - bits) as u64
    } else {
        (bits + SIGN_BIT) as u64
    }
}

/// The order key of a double, given its bit pattern (`f64::to_bits`).
pub fn order_key(bits: u64) -> (k: u64)
    ensures
        k == order_key_of(bits),
{
    if bits >= SIGN_BIT {
        u64::MAX - bits
    } else {
        bits + SIGN_BIT
    }
}

/// Distinct bit patterns get distinct keys. Among non-negative doubles (sign bit clear)
/// keys grow with the bits, among negative doubles they shrink as the bits grow, and every
/// negative double orders before every non-negative one: the IEEE total order.
pub proof fn lemma_order_key_order(a: u64, b: u64)
    ensures
        a != b ==> order_key_of(a) != order_key_of(b),
        a < SIGN_BIT && b < SIGN_BIT ==> (order_key_of(a) < order_key_of(b) <==> a < b),
        a >= SIGN_BIT && b >= SIGN_BIT ==> (order_key_of(a) < order_key_of(b) <==> a > b),
        a >= SIGN_BIT && b < SIGN_BIT ==> order_key_of(a) < order_key_of(b),
{
}

/// The exponent bits of an IEEE-754 double.
pub const EXPONENT_MASK: u64 = 0x7FF0_0000_0000_0000;

/// The mantissa bits of an IEEE-754 double.
pub const MANTISSA_MASK: u64 = 0x000F_FFFF_FFFF_FFFF;

/// The bit pattern is that of a NaN: all exponent bits set and a non-zero mantissa.
pub open spec fn is_nan_bits(bits: u64) -> bool {
    (bits & EXPONENT_MASK) == EXPONENT_MASK && (bits & MANTISSA_MASK) != 0
}

/// The comparison key of a double given by its bit pattern: no key for a NaN, the key of
/// `+0.0` for `-0.0`, and the order key otherwise.
pub open spec fn compare_key_of(bits: u64) -> Option<u64> {
    if is_nan_bits(bits) {
        None
    } else if bits == SIGN_BIT {
        Some(order_key_of(0))
    } else {
        Some(order_key_of(bits))
    }
}

/// The comparison key of a double, given its bit pattern (`f64::to_bits`).
pub fn compare_key(bits: u64) -> (k: Option<u64>)
    ensures
        k == compare_key_of(bits),
{
    if (bits & EXPONENT_MASK) == EXPONENT_MASK && (bits & MANTISSA_MASK) != 0 {
        None
    } else if bits == SIGN_BIT {
        Some(order_key(0))
    } else {
        Some(order_key(bits))
    }
}

/// `a >= b` on comparison keys: false as soon as either side is a NaN.
pub open spec fn at_least(a: Option<u64>, b: Option<u64>) -> bool {
    match (a, b) {
        (Some(x), Some(y)) => x >= y,
        _ => false,
    }
}

/// `a < b` on comparison keys: false as soon as either side is a NaN.
pub open spec fn less(a: Option<u64>, b: Option<u64>) -> bool {
    match (a, b) {
        (Some(x), Some(y)) => x < y,
        _ => false,
    }
}

/// `a >= b` on comparison keys.
pub fn key_at_least(a: Option<u64>, b: Option<u64>) -> (r: bool)
    ensures
        r == at_least(a, b),
{
    match (a, b) {
        (Some(x), Some(y)) => x >= y,
        _ => false,
    }
}

/// `a < b` on comparison keys.
pub fn key_less(a: Option<u64>, b: Option<u64>) -> (r: bool)
    ensures
        r == less(a, b),
{
    match (a, b) {
        (Some(x), Some(y)) => x < y,
        _ => false,
    }
}

/// Apart from NaNs, which have no comparison key, and the two zeros, which share one,
/// comparison keys order doubles as their order keys do.
pub proof fn lemma_compare_key_follows_order_key(a: u64, b: u64)
    requires
        !is_nan_bits(a),
        !is_nan_bits(b),
    ensures
        compare_key_of(a) is Some,
        compare_key_of(b) is Some,
        (a == 0 || a == SIGN_BIT) && (b == 0 || b == SIGN_BIT) ==> compare_key_of(a)
            == compare_key_of(b),
        !((a == 0 || a == SIGN_BIT) && (b == 0 || b == SIGN_BIT)) ==> (at_least(
            compare_key_of(a),
            compare_key_of(b),
        ) <==> order_key_of(a) >= order_key_of(b)),
{
}

/// A NaN compares false with everything; without NaNs, `<` is the negation of `>=`.
pub proof fn lemma_less_is_not_at_least(a: Option<u64>, b: Option<u64>)
    ensures
        a is None || b is None ==> !less(a, b) && !at_least(a, b),
        a is Some && b is Some ==> (less(a, b) <==> !at_least(a, b)),
{
}

/// `order` lists every index of `keys` exactly once, farthest (largest key) first;
/// indices of equal keys keep their input order.
pub open spec fn is_back_to_front(keys: Seq<u64>, order: Seq<usize>) -> bool {
    &&& order.len() == keys.len()
    &&& forall|i: int| 0 <= i < order.len() ==> #[trigger] order[i] < keys.len()
    &&& forall|i: int, j: int| 0 <= i < j < order.len() ==> order[i] != order[j]
    &&& forall|i: int, j: int|
        0 <= i < j < order.len() ==> keys[order[i] as int] >= keys[order[j] as int]
    &&& forall|i: int, j: int|
        0 <= i < j < order.len() && keys[order[i] as int] == keys[order[j] as int]
            ==> order[i] < order[j]
}

/// Where `insert` puts the entries of a sequence: those before the insertion point stay,
/// the new one stands at it, and those from it on move one place up.
proof fn lemma_insert_shifts(old_seq: Seq<usize>, p: int, x: usize)
    requires
        0 <= p <= old_seq.len(),
    ensures
        old_seq.insert(p, x).len() == old_seq.len() + 1,
        old_seq.insert(p, x)[p] == x,
        forall|i: int| 0 <= i < p ==> #[trigger] old_seq.insert(p, x)[i] == old_seq[i],
        forall|i: int|
            p < i <= old_seq.len() ==> #[trigger] old_seq.insert(p, x)[i] == old_seq[i - 1],
{
}

/// The painter's order of a list of depth keys: a stable sort of the indices,
/// largest key (farthest from the camera) first.
pub fn back_to_front_order(keys: &Vec<u64>) -> (order: Vec<usize>)
    ensures
        is_back_to_front(keys@, order@),
{
    let n = keys.len();
    let mut order: Vec<usize> = Vec::new();
    let mut k: usize = 0;
    while k < n
        invariant
            n == keys@.len(),
            k <= n,
            is_back_to_front(keys@.take(k as int), order@),
        decreases n - k,
    {
        let key_k = keys[k];
        let mut p: usize = 0;
        while p < order.len() && keys[order[p]] >= key_k
            invariant
                n == keys@.len(),
                k < n,
                key_k == keys@[k as int],
                p <= order@.len(),
                is_back_to_front(keys@.take(k as int), order@),
                forall|q: int| 0 <= q < p ==> keys@[#[trigger] order@[q] as int] >= key_k,
            decreases order@.len() - p,
        {
            proof {
                assert(order@[p as int] < k);
            }
            p = p + 1;
        }
        proof {
            assert forall|q: int| p <= q < order@.len() implies keys@[#[trigger] order@[q] as int]
                < key_k by {
                assert(keys@.take(k as int)[order@[p as int] as int] >= keys@.take(
                    k as int,
                )[order@[q] as int]);
            }
        }
        let ghost old_order = order@;
        order.insert(p, k);
        proof {
            let ks = keys@.take(k as int + 1);
            let ko = keys@.take(k as int);
            lemma_insert_shifts(old_order, p as int, k);
            assert forall|q: int| 0 <= q < old_order.len() implies #[trigger] ks[old_order[q] as int]
                == ko[old_order[q] as int] && old_order[q] < k by {}
            assert forall|i: int, j: int| 0 <= i < j < order@.len() implies ks[order@[i] as int]
                >= ks[order@[j] as int] && (ks[order@[i] as int] == ks[order@[j] as int]
                ==> order@[i] < order@[j]) && order@[i] != order@[j] by {}
            assert forall|i: int| 0 <= i < order@.len() implies #[trigger] order@[i] < ks.len() by {}
        }
        k = k + 1;
    }
    proof {
        assert(keys@.take(n as int) =~= keys@);
    }
    order
}

/// One entry of a merged draw list: an already-placed primitive (by its index in the
/// existing list) or a scatter circle (by its index in the circle list).
#[derive(Debug, Clone, Copy, PartialEq, Eq, Structural)]
pub enum Layer {
    Existing(usize),
    Scatter(usize),
}

/// The merge of the existing primitives from index `i` on with the circles taken in
/// `order` from position `j` on. Before each existing primitive go the pending circles,
/// as long as the next one's key is `>=` that primitive's key; circles left over go last.
pub open spec fn merge_from(
    prim_keys: Seq<Option<u64>>,
    circle_keys: Seq<Option<u64>>,
    order: Seq<usize>,
    i: int,
    j: int,
) -> Seq<Layer>
    decreases prim_keys.len() - i + order.len() - j,
{
    if i >= prim_keys.len() || j >= order.len() {
        if i >= prim_keys.len() {
            if j >= order.len() {
                Seq::empty()
            } else {
                Seq::new((order.len() - j) as nat, |k: int| Layer::Scatter(order[j + k]))
            }
        } else {
            Seq::new((prim_keys.len() - i) as nat, |k: int| Layer::Existing((i + k) as usize))
        }
    } else if at_least(circle_keys[order[j] as int], prim_keys[i]) {
        seq![Layer::Scatter(order[j])] + merge_from(prim_keys, circle_keys, order, i, j + 1)
    } else {
        seq![Layer::Existing(i as usize)] + merge_from(prim_keys, circle_keys, order, i + 1, j)
    }
}

/// The whole merge of the existing primitives with the circles taken in `order`.
pub open spec fn merge_layers(
    prim_keys: Seq<Option<u64>>,
    circle_keys: Seq<Option<u64>>,
    order: Seq<usize>,
) -> Seq<Layer> {
    merge_from(prim_keys, circle_keys, order, 0, 0)
}

proof fn lemma_merge_scatter_step(
    prim_keys: Seq<Option<u64>>,
    circle_keys: Seq<Option<u64>>,
    order: Seq<usize>,
    i: int,
    j: int,
)
    requires
        0 <= i <= prim_keys.len(),
        0 <= j < order.len(),
        i == prim_keys.len() || at_least(circle_keys[order[j] as int], prim_keys[i]),
    ensures
        merge_from(prim_keys, circle_keys, order, i, j) == seq![Layer::Scatter(order[j])]
            + merge_from(prim_keys, circle_keys, order, i, j + 1),
{
    if i == prim_keys.len() {
        assert(merge_from(prim_keys, circle_keys, order, i, j) =~= seq![Layer::Scatter(order[j])]
            + merge_from(prim_keys, circle_keys, order, i, j + 1));
    }
}

proof fn lemma_merge_existing_step(
    prim_keys: Seq<Option<u64>>,
    circle_keys: Seq<Option<u64>>,
    order: Seq<usize>,
    i: int,
    j: int,
)
    requires
        0 <= i < prim_keys.len(),
        0 <= j <= order.len(),
        j == order.len() || !at_least(circle_keys[order[j] as int], prim_keys[i]),
    ensures
        merge_from(prim_keys, circle_keys, order, i, j) == seq![Layer::Existing(i as usize)]
            + merge_from(prim_keys, circle_keys, order, i + 1, j),
{
    if j == order.len() {
        assert(merge_from(prim_keys, circle_keys, order, i, j) =~= seq![
            Layer::Existing(i as usize),
        ] + merge_from(prim_keys, circle_keys, order, i + 1, j));
    }
}

/// Interleave scatter circles with the primitives already in a scene, as the painter's
/// algorithm draws them: walking the existing list in order, every pending circle whose
/// depth is `>=` the next primitive's depth is drawn before that primitive; the circles
/// that remain are drawn last. `circle_order` is the order in which circles are taken
/// (normally the back-to-front order of their `order_key`s).
///
/// Both key lists are comparison keys (`compare_key`), so the test is the IEEE `>=`:
/// a NaN depth on either side fails it. A pending circle with a NaN depth therefore
/// holds back itself and every circle after it until all existing primitives are drawn,
/// and an existing primitive with a NaN depth is drawn before any pending circle.
pub fn merge_by_depth(
    prim_keys: &Vec<Option<u64>>,
    circle_keys: &Vec<Option<u64>>,
    circle_order: &Vec<usize>,
) -> (layers: Vec<Layer>)
    requires
        forall|j: int|
            0 <= j < circle_order@.len() ==> #[trigger] circle_order@[j] < circle_keys@.len(),
    ensures
        layers@ == merge_layers(prim_keys@, circle_keys@, circle_order@),
{
    let ghost pk = prim_keys@;
    let ghost ck = circle_keys@;
    let ghost ord = circle_order@;
    let n = prim_keys.len();
    let m = circle_order.len();
    let mut layers: Vec<Layer> = Vec::new();
    let mut i: usize = 0;
    let mut j: usize = 0;
    while i < n
        invariant
            n == pk.len(),
            m == ord.len(),
            pk == prim_keys@,
            ck == circle_keys@,
            ord == circle_order@,
            forall|q: int| 0 <= q < ord.len() ==> #[trigger] ord[q] < ck.len(),
            i <= n,
            j <= m,
            layers@ + merge_from(pk, ck, ord, i as int, j as int) == merge_layers(pk, ck, ord),
        decreases n - i,
    {
        let key = prim_keys[i];
        while j < m && key_at_least(circle_keys[circle_order[j]], key)
            invariant
                n == pk.len(),
                m == ord.len(),
                pk == prim_keys@,
                ck == circle_keys@,
                ord == circle_order@,
                forall|q: int| 0 <= q < ord.len() ==> #[trigger] ord[q] < ck.len(),
                i < n,
                j <= m,
                key == pk[i as int],
                layers@ + merge_from(pk, ck, ord, i as int, j as int) == merge_layers(pk, ck, ord),
            decreases m - j,
        {
            proof {
                lemma_merge_scatter_step(pk, ck, ord, i as int, j as int);
                assert(layers@.push(Layer::Scatter(ord[j as int])) + merge_from(
                    pk,
                    ck,
                    ord,
                    i as int,
                    j + 1,
                ) =~= layers@ + merge_from(pk, ck, ord, i as int, j as int));
            }
            layers.push(Layer::Scatter(circle_order[j]));
            j = j + 1;
        }
        proof {
            lemma_merge_existing_step(pk, ck, ord, i as int, j as int);
            assert(layers@.push(Layer::Existing(i)) + merge_from(pk, ck, ord, i + 1, j as int)
                =~= layers@ + merge_from(pk, ck, ord, i as int, j as int));
        }
        layers.push(Layer::Existing(i));
        i = i + 1;
    }
    while j < m
        invariant
            n == pk.len(),
            m == ord.len(),
            ck == circle_keys@,
            ord == circle_order@,
            forall|q: int| 0 <= q < ord.len() ==> #[trigger] ord[q] < ck.len(),
            i == n,
            j <= m,
            layers@ + merge_from(pk, ck, ord, i as int, j as int) == merge_layers(pk, ck, ord),
        decreases m - j,
    {
        proof {
            lemma_merge_scatter_step(pk, ck, ord, i as int, j as int);
            assert(layers@.push(Layer::Scatter(ord[j as int])) + merge_from(
                pk,
                ck,
                ord,
                i as int,
                j + 1,
            ) =~= layers@ + merge_from(pk, ck, ord, i as int, j as int));
        }
        layers.push(Layer::Scatter(circle_order[j]));
        j = j + 1;
    }
    proof {
        assert(merge_from(pk, ck, ord, n as int, m as int) =~= Seq::<Layer>::empty());
        assert(layers@ =~= layers@ + merge_from(pk, ck, ord, n as int, m as int));
    }
    layers
}

/// The existing-primitive indices of a layer list, in list order.
pub open spec fn existing_of(layers: Seq<Layer>) -> Seq<usize>
    decreases layers.len(),
{
    if layers.len() == 0 {
        Seq::empty()
    } else {
        match layers[0] {
            Layer::Existing(i) => seq![i] + existing_of(layers.drop_first()),
            Layer::Scatter(_) => existing_of(layers.drop_first()),
        }
    }
}

/// The circle indices of a layer list, in list order.
pub open spec fn scatter_of(layers: Seq<Layer>) -> Seq<usize>
    decreases layers.len(),
{
    if layers.len() == 0 {
        Seq::empty()
    } else {
        match layers[0] {
            Layer::Existing(_) => scatter_of(layers.drop_first()),
            Layer::Scatter(c) => seq![c] + scatter_of(layers.drop_first()),
        }
    }
}

/// The depth key of one layer.
pub open spec fn layer_key(
    prim_keys: Seq<Option<u64>>,
    circle_keys: Seq<Option<u64>>,
    l: Layer,
) -> Option<u64> {
    match l {
        Layer::Existing(i) => prim_keys[i as int],
        Layer::Scatter(c) => circle_keys[c as int],
    }
}

/// Keys never grow along the list: it is in back-to-front order.
pub open spec fn layers_back_to_front(
    prim_keys: Seq<Option<u64>>,
    circle_keys: Seq<Option<u64>>,
    layers: Seq<Layer>,
) -> bool {
    forall|a: int, b: int|
        0 <= a < b < layers.len() ==> at_least(
            layer_key(prim_keys, circle_keys, #[trigger] layers[a]),
            layer_key(prim_keys, circle_keys, #[trigger] layers[b]),
        )
}

/// `keys` taken along `order` never grow.
pub open spec fn non_increasing_along(keys: Seq<Option<u64>>, order: Seq<usize>) -> bool {
    &&& forall|j: int| 0 <= j < order.len() ==> #[trigger] order[j] < keys.len()
    &&& forall|a: int, b: int|
        0 <= a < b < order.len() ==> at_least(keys[order[a] as int], keys[order[b] as int])
}

/// `keys` never grow along their own index order.
pub open spec fn non_increasing(keys: Seq<Option<u64>>) -> bool {
    forall|a: int, b: int| 0 <= a < b < keys.len() ==> at_least(keys[a], keys[b])
}

/// No key is that of a NaN.
pub open spec fn all_comparable(keys: Seq<Option<u64>>) -> bool {
    forall|a: int| 0 <= a < keys.len() ==> #[trigger] keys[a] is Some
}

proof fn lemma_projections_cons(x: Layer, rest: Seq<Layer>)
    ensures
        existing_of(seq![x] + rest) == (match x {
            Layer::Existing(i) => seq![i] + existing_of(rest),
            Layer::Scatter(_) => existing_of(rest),
        }),
        scatter_of(seq![x] + rest) == (match x {
            Layer::Existing(_) => scatter_of(rest),
            Layer::Scatter(c) => seq![c] + scatter_of(rest),
        }),
{
    assert((seq![x] + rest).drop_first() =~= rest);
}

proof fn lemma_merge_from_projections(
    prim_keys: Seq<Option<u64>>,
    circle_keys: Seq<Option<u64>>,
    order: Seq<usize>,
    i: int,
    j: int,
)
    requires
        0 <= i <= prim_keys.len(),
        0 <= j <= order.len(),
    ensures
        merge_from(prim_keys, circle_keys, order, i, j).len() == prim_keys.len() - i + order.len()
            - j,
        existing_of(merge_from(prim_keys, circle_keys, order, i, j)) == Seq::new(
            (prim_keys.len() - i) as nat,
            |k: int| (i + k) as usize,
        ),
        scatter_of(merge_from(prim_keys, circle_keys, order, i, j)) == order.subrange(
            j,
            order.len() as int,
        ),
    decreases prim_keys.len() - i + order.len() - j,
{
    let n = prim_keys.len() as int;
    let m = order.len() as int;
    if i == n && j == m {
        assert(existing_of(Seq::<Layer>::empty()) =~= Seq::new(
            (prim_keys.len() - i) as nat,
            |k: int| (i + k) as usize,
        ));
        assert(scatter_of(Seq::<Layer>::empty()) =~= order.subrange(j, m));
    } else if i < n && (j == m || !at_least(circle_keys[order[j] as int], prim_keys[i])) {
        lemma_merge_existing_step(prim_keys, circle_keys, order, i, j);
        lemma_merge_from_projections(prim_keys, circle_keys, order, i + 1, j);
        let rest = merge_from(prim_keys, circle_keys, order, i + 1, j);
        lemma_projections_cons(Layer::Existing(i as usize), rest);
        assert(seq![i as usize] + Seq::new((n - i - 1) as nat, |k: int| (i + 1 + k) as usize)
            =~= Seq::new((n - i) as nat, |k: int| (i + k) as usize));
    } else {
        lemma_merge_scatter_step(prim_keys, circle_keys, order, i, j);
        lemma_merge_from_projections(prim_keys, circle_keys, order, i, j + 1);
        let rest = merge_from(prim_keys, circle_keys, order, i, j + 1);
        lemma_projections_cons(Layer::Scatter(order[j]), rest);
        assert(seq![order[j]] + order.subrange(j + 1, m) =~= order.subrange(j, m));
    }
}

/// The merge draws every existing primitive exactly once and in its given order,
/// and every circle of `order` exactly once and in that order; nothing else.
pub proof fn lemma_merge_keeps_both_orders(
    prim_keys: Seq<Option<u64>>,
    circle_keys: Seq<Option<u64>>,
    order: Seq<usize>,
)
    ensures
        merge_layers(prim_keys, circle_keys, order).len() == prim_keys.len() + order.len(),
        existing_of(merge_layers(prim_keys, circle_keys, order)) == Seq::new(
            prim_keys.len(),
            |k: int| k as usize,
        ),
        scatter_of(merge_layers(prim_keys, circle_keys, order)) == order,
{
    lemma_merge_from_projections(prim_keys, circle_keys, order, 0, 0);
    assert(order.subrange(0, order.len() as int) =~= order);
    assert(Seq::new((prim_keys.len() - 0) as nat, |k: int| (0 + k) as usize) =~= Seq::new(
        prim_keys.len(),
        |k: int| k as usize,
    ));
}

proof fn lemma_merge_from_bounded(
    prim_keys: Seq<Option<u64>>,
    circle_keys: Seq<Option<u64>>,
    order: Seq<usize>,
    i: int,
    j: int,
    bound: Option<u64>,
)
    requires
        0 <= i <= prim_keys.len(),
        0 <= j <= order.len(),
        prim_keys.len() <= usize::MAX,
        all_comparable(prim_keys),
        all_comparable(circle_keys),
        non_increasing(prim_keys),
        non_increasing_along(circle_keys, order),
        i < prim_keys.len() ==> at_least(bound, prim_keys[i]),
        j < order.len() ==> at_least(bound, circle_keys[order[j] as int]),
    ensures
        forall|a: int|
            0 <= a < merge_from(prim_keys, circle_keys, order, i, j).len() ==> at_least(
                bound,
                layer_key(
                    prim_keys,
                    circle_keys,
                    #[trigger] merge_from(prim_keys, circle_keys, order, i, j)[a],
                ),
            ),
    decreases prim_keys.len() - i + order.len() - j,
{
    let n = prim_keys.len() as int;
    let m = order.len() as int;
    if i == n && j == m {
    } else if i < n && (j == m || !at_least(circle_keys[order[j] as int], prim_keys[i])) {
        lemma_merge_existing_step(prim_keys, circle_keys, order, i, j);
        if i + 1 < n {
            assert(at_least(prim_keys[i], prim_keys[i + 1]));
        }
        lemma_merge_from_bounded(prim_keys, circle_keys, order, i + 1, j, bound);
        let rest = merge_from(prim_keys, circle_keys, order, i + 1, j);
        let s = merge_from(prim_keys, circle_keys, order, i, j);
        assert forall|a: int| 0 <= a < s.len() implies at_least(
            bound,
            layer_key(prim_keys, circle_keys, #[trigger] s[a]),
        ) by {
            if a > 0 {
                assert(s[a] == rest[a - 1]);
            } else {
                assert(s[0] == Layer::Existing(i as usize));
            }
        }
    } else {
        lemma_merge_scatter_step(prim_keys, circle_keys, order, i, j);
        if j + 1 < m {
            assert(at_least(circle_keys[order[j] as int], circle_keys[order[j + 1] as int]));
        }
        lemma_merge_from_bounded(prim_keys, circle_keys, order, i, j + 1, bound);
        let rest = merge_from(prim_keys, circle_keys, order, i, j + 1);
        let s = merge_from(prim_keys, circle_keys, order, i, j);
        assert forall|a: int| 0 <= a < s.len() implies at_least(
            bound,
            layer_key(prim_keys, circle_keys, #[trigger] s[a]),
        ) by {
            if a > 0 {
                assert(s[a] == rest[a - 1]);
            } else {
                assert(s[0] == Layer::Scatter(order[j]));
            }
        }
    }
}

proof fn lemma_merge_from_sorted(
    prim_keys: Seq<Option<u64>>,
    circle_keys: Seq<Option<u64>>,
    order: Seq<usize>,
    i: int,
    j: int,
)
    requires
        0 <= i <= prim_keys.len(),
        0 <= j <= order.len(),
        prim_keys.len() <= usize::MAX,
        all_comparable(prim_keys),
        all_comparable(circle_keys),
        non_increasing(prim_keys),
        non_increasing_along(circle_keys, order),
    ensures
        layers_back_to_front(
            prim_keys,
            circle_keys,
            merge_from(prim_keys, circle_keys, order, i, j),
        ),
    decreases prim_keys.len() - i + order.len() - j,
{
    let n = prim_keys.len() as int;
    let m = order.len() as int;
    let s = merge_from(prim_keys, circle_keys, order, i, j);
    if i == n && j == m {
    } else if i < n && (j == m || !at_least(circle_keys[order[j] as int], prim_keys[i])) {
        lemma_merge_existing_step(prim_keys, circle_keys, order, i, j);
        let head = prim_keys[i];
        if i + 1 < n {
            assert(at_least(prim_keys[i], prim_keys[i + 1]));
        }
        lemma_merge_from_bounded(prim_keys, circle_keys, order, i + 1, j, head);
        lemma_merge_from_sorted(prim_keys, circle_keys, order, i + 1, j);
        let rest = merge_from(prim_keys, circle_keys, order, i + 1, j);
        assert forall|a: int, b: int| 0 <= a < b < s.len() implies at_least(
            layer_key(prim_keys, circle_keys, #[trigger] s[a]),
            layer_key(prim_keys, circle_keys, #[trigger] s[b]),
        ) by {
            assert(s[b] == rest[b - 1]);
            if a > 0 {
                assert(s[a] == rest[a - 1]);
            }
        }
    } else {
        lemma_merge_scatter_step(prim_keys, circle_keys, order, i, j);
        let head = circle_keys[order[j] as int];
        if j + 1 < m {
            assert(at_least(circle_keys[order[j] as int], circle_keys[order[j + 1] as int]));
        }
        lemma_merge_from_bounded(prim_keys, circle_keys, order, i, j + 1, head);
        lemma_merge_from_sorted(prim_keys, circle_keys, order, i, j + 1);
        let rest = merge_from(prim_keys, circle_keys, order, i, j + 1);
        assert forall|a: int, b: int| 0 <= a < b < s.len() implies at_least(
            layer_key(prim_keys, circle_keys, #[trigger] s[a]),
            layer_key(prim_keys, circle_keys, #[trigger] s[b]),
        ) by {
            assert(s[b] == rest[b - 1]);
            if a > 0 {
                assert(s[a] == rest[a - 1]);
            }
        }
    }
}

/// When no depth is a NaN, the existing primitives are already back to front and the
/// circles are taken back to front, the merged list is back to front as a whole.
pub proof fn lemma_merge_back_to_front(
    prim_keys: Seq<Option<u64>>,
    circle_keys: Seq<Option<u64>>,
    order: Seq<usize>,
)
    requires
        prim_keys.len() <= usize::MAX,
        all_comparable(prim_keys),
        all_comparable(circle_keys),
        non_increasing(prim_keys),
        non_increasing_along(circle_keys, order),
    ensures
        layers_back_to_front(prim_keys, circle_keys, merge_layers(prim_keys, circle_keys, order)),
{
    lemma_merge_from_sorted(prim_keys, circle_keys, order, 0, 0);
}

/// A circle drawn after an existing primitive is strictly nearer than it.
pub open spec fn drawn_after_is_nearer(
    prim_keys: Seq<Option<u64>>,
    circle_keys: Seq<Option<u64>>,
    earlier: Layer,
    later: Layer,
) -> bool {
    match (earlier, later) {
        (Layer::Existing(i), Layer::Scatter(c)) => less(circle_keys[c as int], prim_keys[i as int]),
        _ => true,
    }
}

proof fn lemma_merge_from_scatter_source(
    prim_keys: Seq<Option<u64>>,
    circle_keys: Seq<Option<u64>>,
    order: Seq<usize>,
    i: int,
    j: int,
)
    requires
        0 <= i <= prim_keys.len(),
        0 <= j <= order.len(),
    ensures
        forall|p: int|
            0 <= p < merge_from(prim_keys, circle_keys, order, i, j).len() ==> (
            #[trigger] merge_from(prim_keys, circle_keys, order, i, j)[p] is Scatter ==> exists|
                q: int,
            |
                j <= q < order.len() && merge_from(prim_keys, circle_keys, order, i, j)[p]
                    == Layer::Scatter(order[q])),
    decreases prim_keys.len() - i + order.len() - j,
{
    let n = prim_keys.len() as int;
    let m = order.len() as int;
    let s = merge_from(prim_keys, circle_keys, order, i, j);
    if i == n && j == m {
    } else if i < n && (j == m || !at_least(circle_keys[order[j] as int], prim_keys[i])) {
        lemma_merge_existing_step(prim_keys, circle_keys, order, i, j);
        lemma_merge_from_scatter_source(prim_keys, circle_keys, order, i + 1, j);
        let rest = merge_from(prim_keys, circle_keys, order, i + 1, j);
        assert forall|p: int| 0 <= p < s.len() && #[trigger] s[p] is Scatter implies exists|
            q: int,
        | j <= q < m && s[p] == Layer::Scatter(order[q]) by {
            assert(p > 0);
            assert(s[p] == rest[p - 1]);
        }
    } else {
        lemma_merge_scatter_step(prim_keys, circle_keys, order, i, j);
        lemma_merge_from_scatter_source(prim_keys, circle_keys, order, i, j + 1);
        let rest = merge_from(prim_keys, circle_keys, order, i, j + 1);
        assert forall|p: int| 0 <= p < s.len() && #[trigger] s[p] is Scatter implies exists|
            q: int,
        | j <= q < m && s[p] == Layer::Scatter(order[q]) by {
            if p == 0 {
                assert(s[0] == Layer::Scatter(order[j]));
            } else {
                assert(s[p] == rest[p - 1]);
            }
        }
    }
}

proof fn lemma_merge_from_nearer_after(
    prim_keys: Seq<Option<u64>>,
    circle_keys: Seq<Option<u64>>,
    order: Seq<usize>,
    i: int,
    j: int,
)
    requires
        0 <= i <= prim_keys.len(),
        0 <= j <= order.len(),
        prim_keys.len() <= usize::MAX,
        all_comparable(prim_keys),
        all_comparable(circle_keys),
        non_increasing_along(circle_keys, order),
    ensures
        forall|a: int, b: int|
            0 <= a < b < merge_from(prim_keys, circle_keys, order, i, j).len()
                ==> drawn_after_is_nearer(
                prim_keys,
                circle_keys,
                #[trigger] merge_from(prim_keys, circle_keys, order, i, j)[a],
                #[trigger] merge_from(prim_keys, circle_keys, order, i, j)[b],
            ),
    decreases prim_keys.len() - i + order.len() - j,
{
    let n = prim_keys.len() as int;
    let m = order.len() as int;
    let s = merge_from(prim_keys, circle_keys, order, i, j);
    if i == n && j == m {
    } else if i < n && (j == m || !at_least(circle_keys[order[j] as int], prim_keys[i])) {
        lemma_merge_existing_step(prim_keys, circle_keys, order, i, j);
        lemma_merge_from_nearer_after(prim_keys, circle_keys, order, i + 1, j);
        lemma_merge_from_scatter_source(prim_keys, circle_keys, order, i + 1, j);
        let rest = merge_from(prim_keys, circle_keys, order, i + 1, j);
        assert forall|a: int, b: int| 0 <= a < b < s.len() implies drawn_after_is_nearer(
            prim_keys,
            circle_keys,
            #[trigger] s[a],
            #[trigger] s[b],
        ) by {
            assert(s[b] == rest[b - 1]);
            if a > 0 {
                assert(s[a] == rest[a - 1]);
            } else {
                assert(s[0] == Layer::Existing(i as usize));
                if rest[b - 1] is Scatter {
                    let q = choose|q: int| j <= q < m && rest[b - 1] == Layer::Scatter(order[q]);
                    if q > j {
                        assert(at_least(circle_keys[order[j] as int], circle_keys[order[q] as int]));
                    }
                }
            }
        }
    } else {
        lemma_merge_scatter_step(prim_keys, circle_keys, order, i, j);
        lemma_merge_from_nearer_after(prim_keys, circle_keys, order, i, j + 1);
        let rest = merge_from(prim_keys, circle_keys, order, i, j + 1);
        assert forall|a: int, b: int| 0 <= a < b < s.len() implies drawn_after_is_nearer(
            prim_keys,
            circle_keys,
            #[trigger] s[a],
            #[trigger] s[b],
        ) by {
            assert(s[b] == rest[b - 1]);
            if a > 0 {
                assert(s[a] == rest[a - 1]);
            } else {
                assert(s[0] == Layer::Scatter(order[j]));
            }
        }
    }
}

/// When no depth is a NaN and the circles are taken back to front, every circle drawn
/// after an existing primitive is strictly nearer than that primitive: nothing is painted over a primitive it lies
/// behind, and overlays at the smallest key are never painted over.
pub proof fn lemma_merge_circles_after_are_nearer(
    prim_keys: Seq<Option<u64>>,
    circle_keys: Seq<Option<u64>>,
    order: Seq<usize>,
)
    requires
        prim_keys.len() <= usize::MAX,
        all_comparable(prim_keys),
        all_comparable(circle_keys),
        non_increasing_along(circle_keys, order),
    ensures
        forall|a: int, b: int|
            0 <= a < b < merge_layers(prim_keys, circle_keys, order).len()
                ==> drawn_after_is_nearer(
                prim_keys,
                circle_keys,
                #[trigger] merge_layers(prim_keys, circle_keys, order)[a],
                #[trigger] merge_layers(prim_keys, circle_keys, order)[b],
            ),
{
    lemma_merge_from_nearer_after(prim_keys, circle_keys, order, 0, 0);
}

} // verus!
