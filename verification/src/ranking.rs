//! The order in which a snapshot lists its categories: by cost, highest
//! first.
//!
//! Costs are binary64 numbers, which this library does not compute with. It
//! orders them by their bit patterns: `order_key` turns a pattern into an
//! integer that grows with the number, and `descending_order` ranks
//! positions by such keys. Equal keys keep the order they came in.

use vstd::prelude::*;

verus! {

/// The pattern of the sign bit: patterns from here on are negative numbers.
pub const SIGN_BIT: u64 = 0x8000_0000_0000_0000;

/// Whether a bit pattern has its sign bit set.
pub open spec fn is_negative(bits: u64) -> bool {
    bits >= SIGN_BIT
}

/// A bit pattern without its sign bit.
pub open spec fn magnitude(bits: u64) -> int {
    if is_negative(bits) {
        bits - SIGN_BIT
    } else {
        bits as int
    }
}

/// The order of sign and magnitude: a negative pattern is below every other,
/// two negative ones are ordered against their magnitudes, two others by
/// them. This is the total order of IEEE 754 on binary64 patterns.
pub open spec fn is_below(a: u64, b: u64) -> bool {
    if is_negative(a) {
        !is_negative(b) || magnitude(a) > magnitude(b)
    } else {
        !is_negative(b) && magnitude(a) < magnitude(b)
    }
}

/// The key of a bit pattern.
pub open spec fn order_key_of(bits: u64) -> u64 {
    if is_negative(bits) {
        (u64::MAX - bits) as u64
    } else {
        (bits + SIGN_BIT) as u64
    }
}

/// Computes the key of a bit pattern: an integer that is smaller exactly
/// where the pattern is below in the order of sign and magnitude.
pub fn order_key(bits: u64) -> (key: u64)
    ensures
        key == order_key_of(bits),
{
    if bits >= SIGN_BIT {
        u64::MAX - bits
    } else {
        bits + SIGN_BIT
    }
}

/// Keys are ordered as their patterns are, and different patterns have
/// different keys.
pub proof fn law_keys_follow_sign_and_magnitude(a: u64, b: u64)
    ensures
        order_key_of(a) < order_key_of(b) <==> is_below(a, b),
        order_key_of(a) == order_key_of(b) <==> a == b,
{
}

/// Whether position `a` is listed before position `b`: its key is larger,
/// or the keys are equal and `a` came first.
pub open spec fn ranks_before(keys: Seq<u64>, a: int, b: int) -> bool {
    keys[a] > keys[b] || (keys[a] == keys[b] && a < b)
}

/// Whether `order` lists `position`.
pub open spec fn lists(order: Seq<usize>, position: int) -> bool {
    exists|i: int| 0 <= i < order.len() && #[trigger] order[i] == position
}

/// Whether `order` lists the positions of `keys`, each once, by descending
/// key, positions with equal keys in ascending order.
pub open spec fn is_descending_order(keys: Seq<u64>, order: Seq<usize>) -> bool {
    &&& order.len() == keys.len()
    &&& forall|i: int| 0 <= i < order.len() ==> 0 <= #[trigger] order[i] < keys.len()
    &&& forall|position: int| 0 <= position < keys.len() ==> #[trigger] lists(order, position)
    &&& forall|i: int, j: int|
        0 <= i < j < order.len() ==> ranks_before(
            keys,
            #[trigger] order[i] as int,
            #[trigger] order[j] as int,
        )
}

/// Ranks the positions of `keys` by descending key.
pub fn descending_order(keys: &Vec<u64>) -> (order: Vec<usize>)
    ensures
        is_descending_order(keys@, order@),
{
    let mut order: Vec<usize> = Vec::new();
    let mut next: usize = 0;
    while next < keys.len()
        invariant
            next <= keys@.len(),
            order@.len() == next,
            forall|i: int| 0 <= i < order@.len() ==> 0 <= #[trigger] order@[i] < next,
            forall|position: int| 0 <= position < next ==> #[trigger] lists(order@, position),
            forall|i: int, j: int|
                0 <= i < j < order@.len() ==> ranks_before(
                    keys@,
                    #[trigger] order@[i] as int,
                    #[trigger] order@[j] as int,
                ),
        decreases keys@.len() - next,
    {
        let key = keys[next];
        let mut at: usize = 0;
        while at < order.len() && keys[order[at]] >= key
            invariant
                at <= order@.len(),
                order@.len() == next,
                next < keys@.len(),
                key == keys@[next as int],
                forall|i: int| 0 <= i < order@.len() ==> 0 <= #[trigger] order@[i] < next,
                forall|i: int| 0 <= i < at ==> keys@[#[trigger] order@[i] as int] >= key,
            decreases order@.len() - at,
        {
            at += 1;
        }
        let ghost before = order@;
        order.insert(at, next);
        proof {
            let after = order@;
            assert forall|i: int| 0 <= i < after.len() implies 0 <= #[trigger] after[i] < next
                + 1 by {
                if i < at {
                    assert(after[i] == before[i]);
                } else if i > at {
                    assert(after[i] == before[i - 1]);
                }
            }
            assert forall|position: int| 0 <= position < next + 1 implies #[trigger] lists(
                after,
                position,
            ) by {
                if position == next {
                    assert(after[at as int] == position);
                } else {
                    assert(lists(before, position));
                    let i = choose|i: int| 0 <= i < before.len() && #[trigger] before[i] == position;
                    if i < at {
                        assert(after[i] == position);
                    } else {
                        assert(after[i + 1] == position);
                    }
                }
            }
            assert forall|i: int, j: int| 0 <= i < j < after.len() implies ranks_before(
                keys@,
                #[trigger] after[i] as int,
                #[trigger] after[j] as int,
            ) by {
                let a = if i < at { i } else { i - 1 };
                let b = if j < at { j } else { j - 1 };
                if i == at {
                    assert(after[j] == before[b]);
                    if at < b {
                        assert(ranks_before(keys@, before[at as int] as int, before[b] as int));
                    }
                } else if j == at {
                    assert(after[i] == before[a]);
                } else {
                    assert(after[i] == before[a] && after[j] == before[b]);
                    assert(ranks_before(keys@, before[a] as int, before[b] as int));
                }
            }
        }
        next += 1;
    }
    order
}

/// Two orders of the same keys agree on their first `upto` ranks.
proof fn lemma_orders_agree(keys: Seq<u64>, a: Seq<usize>, b: Seq<usize>, upto: int)
    requires
        is_descending_order(keys, a),
        is_descending_order(keys, b),
        0 <= upto <= keys.len(),
    ensures
        forall|i: int| 0 <= i < upto ==> a[i] == b[i],
    decreases upto,
{
    if upto > 0 {
        let n = upto - 1;
        lemma_orders_agree(keys, a, b, n);
        let p = a[n] as int;
        let q = b[n] as int;
        if p != q {
            assert(lists(b, p));
            let j = choose|j: int| 0 <= j < b.len() && #[trigger] b[j] == p;
            if j < n {
                assert(a[j] == b[j]);
                assert(ranks_before(keys, a[j] as int, a[n] as int));
            }
            assert(ranks_before(keys, b[n] as int, b[j] as int));
            assert(lists(a, q));
            let k = choose|k: int| 0 <= k < a.len() && #[trigger] a[k] == q;
            if k < n {
                assert(a[k] == b[k]);
                assert(ranks_before(keys, b[k] as int, b[n] as int));
            }
            assert(ranks_before(keys, a[n] as int, a[k] as int));
        }
    }
}

/// The keys decide the order: there is one descending order of them, and no
/// other.
pub proof fn law_descending_order_is_unique(keys: Seq<u64>, a: Seq<usize>, b: Seq<usize>)
    requires
        is_descending_order(keys, a),
        is_descending_order(keys, b),
    ensures
        a == b,
{
    lemma_orders_agree(keys, a, b, keys.len() as int);
    assert(a =~= b);
}

} // verus!
