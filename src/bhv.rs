use vstd::prelude::*;
use crate::rngator::SiteRng;

verus! {

broadcast use vstd::seq_lib::group_to_multiset_ensures;

/// The sign bit of an IEEE-754 double.
pub const SIGN_BIT: u64 = 0x8000_0000_0000_0000;

/// The signed magnitude that the bit pattern of a double stands for. For
/// every pattern that is not a NaN, this orders as the doubles themselves
/// do, and both zeros map to 0.
pub open spec fn float_rank(bits: u64) -> int {
    if bits >= SIGN_BIT {
        -((bits - SIGN_BIT) as int)
    } else {
        bits as int
    }
}

/// An unsigned sort key for the double with bit pattern `bits`: keys
/// compare as the doubles' ranks do, so a bounding-box coordinate can be
/// ordered with integer comparisons. A NaN gets some key; it never panics.
pub fn order_key(bits: u64) -> (r: u64)
    ensures
        r as int == float_rank(bits) + SIGN_BIT as int,
{
    if bits >= SIGN_BIT {
        SIGN_BIT - (bits - SIGN_BIT)
    } else {
        SIGN_BIT + bits
    }
}

/// The key of `item` along `axis`.
pub open spec fn key_on(keys: Seq<[u64; 3]>, axis: int, item: usize) -> u64 {
    keys[item as int]@[axis]
}

/// `s` lists its items in non-decreasing key order along `axis`.
pub open spec fn sorted_on(keys: Seq<[u64; 3]>, axis: int, s: Seq<usize>) -> bool {
    forall|i: int, j: int|
        0 <= i < j < s.len() ==> key_on(keys, axis, #[trigger] s[i]) <= key_on(
            keys,
            axis,
            #[trigger] s[j],
        )
}

/// Every item of `s` names an entry of `keys`.
pub open spec fn all_keyed(keys: Seq<[u64; 3]>, s: Seq<usize>) -> bool {
    forall|i: int| 0 <= i < s.len() ==> #[trigger] s[i] < keys.len()
}

proof fn lemma_insert_multiset(s: Seq<usize>, p: int, x: usize)
    requires
        0 <= p <= s.len(),
    ensures
        s.insert(p, x).to_multiset() =~= s.to_multiset().insert(x),
{
    broadcast use vstd::multiset::group_multiset_axioms;

    let a = s.take(p);
    let b = s.skip(p);
    assert(s =~= a + b);
    assert(s.insert(p, x) =~= a.push(x) + b);
    vstd::seq_lib::lemma_multiset_commutative(a, b);
    vstd::seq_lib::lemma_multiset_commutative(a.push(x), b);
}

/// The items of `items`, stably sorted by their key along `axis`.
fn sorted_by_key(items: &Vec<usize>, keys: &Vec<[u64; 3]>, axis: usize) -> (r: Vec<usize>)
    requires
        axis < 3,
        all_keyed(keys@, items@),
    ensures
        r@.to_multiset() == items@.to_multiset(),
        sorted_on(keys@, axis as int, r@),
        all_keyed(keys@, r@),
{
    let mut out: Vec<usize> = Vec::new();
    let mut i: usize = 0;
    while i < items.len()
        invariant
            axis < 3,
            i <= items.len(),
            all_keyed(keys@, items@),
            all_keyed(keys@, out@),
            out@.to_multiset() == items@.take(i as int).to_multiset(),
            sorted_on(keys@, axis as int, out@),
        decreases items.len() - i,
    {
        let x = items[i];
        let kx = keys[x][axis];
        let mut p: usize = out.len();
        while p > 0 && keys[out[p - 1]][axis] > kx
            invariant
                axis < 3,
                x < keys.len(),
                kx == key_on(keys@, axis as int, x),
                p <= out.len(),
                all_keyed(keys@, out@),
                sorted_on(keys@, axis as int, out@),
                forall|k: int| p <= k < out.len() ==> key_on(keys@, axis as int, #[trigger] out@[k]) > kx,
            decreases p,
        {
            p = p - 1;
        }
        proof {
            lemma_insert_multiset(out@, p as int, x);
            assert(items@.take(i as int + 1) =~= items@.take(i as int).push(x));
        }
        let ghost old_out = out@;
        out.insert(p, x);
        assert(sorted_on(keys@, axis as int, out@)) by {
            assert forall|a: int, b: int| 0 <= a < b < out@.len() implies key_on(
                keys@,
                axis as int,
                #[trigger] out@[a],
            ) <= key_on(keys@, axis as int, #[trigger] out@[b]) by {
                if a < p && b > p {
                    assert(out@[a] == old_out[a]);
                    assert(out@[b] == old_out[b - 1]);
                } else if a == p as int {
                    assert(out@[b] == old_out[b - 1]);
                } else if b == p as int {
                    if p > 0 {
                        assert(key_on(keys@, axis as int, old_out[p - 1]) <= kx);
                        assert(key_on(keys@, axis as int, old_out[a]) <= key_on(keys@, axis as int, old_out[p - 1]));
                    }
                } else if b < p {
                } else {
                    assert(out@[a] == old_out[a - 1]);
                    assert(out@[b] == old_out[b - 1]);
                }
            }
        }
        assert(all_keyed(keys@, out@)) by {
            assert forall|k: int| 0 <= k < out@.len() implies #[trigger] out@[k] < keys@.len() by {
                if k < p {
                    assert(out@[k] == old_out[k]);
                } else if k > p {
                    assert(out@[k] == old_out[k - 1]);
                }
            }
        }
        i = i + 1;
    }
    assert(items@.take(items.len() as int) =~= items@);
    out
}


/// A node of a bounding volume hierarchy over items `0..n`: a leaf holds
/// one item; an inner node holds two subtrees, split along `axis`. The
/// boxes themselves belong to the caller, which keys each item's box by
/// its index.
pub enum Node {
    Leaf { item: usize },
    Inner { axis: usize, left: Box<Node>, right: Box<Node> },
}

impl Node {
    /// The items of the leaves, left to right.
    pub open spec fn items(self) -> Seq<usize>
        decreases self,
    {
        match self {
            Node::Leaf { item } => seq![item],
            Node::Inner { left, right, .. } => left.items() + right.items(),
        }
    }

    /// Each inner node splits on an axis, puts the lower half of its items
    /// (rounded down) on the left, and no left item has a greater key along
    /// the split axis than any right item.
    pub open spec fn split_ok(self, keys: Seq<[u64; 3]>) -> bool
        decreases self,
    {
        match self {
            Node::Leaf { .. } => true,
            Node::Inner { axis, left, right } => {
                &&& axis < 3
                &&& left.items().len() == (left.items().len() + right.items().len()) / 2
                &&& forall|i: int, j: int|
                    0 <= i < left.items().len() && 0 <= j < right.items().len() ==> key_on(
                        keys,
                        axis as int,
                        #[trigger] left.items()[i],
                    ) <= key_on(keys, axis as int, #[trigger] right.items()[j])
                &&& left.split_ok(keys)
                &&& right.split_ok(keys)
            },
        }
    }

    /// The tree over `items`: a single item is a leaf; otherwise a random
    /// axis is drawn, the items are sorted by their key along it, and the
    /// lower and upper halves become the two subtrees.
    pub fn build(items: Vec<usize>, keys: &Vec<[u64; 3]>, rng: &mut SiteRng) -> (r: Node)
        requires
            items.len() >= 1,
            all_keyed(keys@, items@),
        ensures
            r.items().to_multiset() == items@.to_multiset(),
            r.split_ok(keys@),
        decreases items.len(),
    {
        if items.len() == 1 {
            proof {
                assert(items@ =~= seq![items@[0]]);
            }
            return Node::Leaf { item: items[0] };
        }
        let axis = rng.below(3);
        let mut lower = sorted_by_key(&items, keys, axis);
        let ghost sorted = lower@;
        let mid = lower.len() / 2;
        let upper = lower.split_off(mid);
        proof {
            assert(sorted.to_multiset().len() == items@.to_multiset().len());
            assert(sorted =~= lower@ + upper@);
            vstd::seq_lib::lemma_multiset_commutative(lower@, upper@);
            assert(lower@.len() == mid);
            assert forall|k: int| 0 <= k < lower@.len() implies #[trigger] lower@[k] < keys@.len() by {
                assert(lower@[k] == sorted[k]);
            }
            assert forall|k: int| 0 <= k < upper@.len() implies #[trigger] upper@[k] < keys@.len() by {
                assert(upper@[k] == sorted[mid + k]);
            }
        }
        let ghost lower_items = lower@;
        let ghost upper_items = upper@;
        let left = Node::build(lower, keys, rng);
        let right = Node::build(upper, keys, rng);
        proof {
            lemma_split_keys(keys@, axis as int, sorted, mid as int, left.items(), right.items());
            vstd::seq_lib::lemma_multiset_commutative(left.items(), right.items());
            assert(left.items().len() == lower_items.len());
            assert(right.items().len() == upper_items.len());
        }
        Node::Inner { axis, left: Box::new(left), right: Box::new(right) }
    }
}

proof fn lemma_split_keys(
    keys: Seq<[u64; 3]>,
    axis: int,
    s: Seq<usize>,
    mid: int,
    lo: Seq<usize>,
    hi: Seq<usize>,
)
    requires
        0 <= mid <= s.len(),
        sorted_on(keys, axis, s),
        lo.to_multiset() == s.take(mid).to_multiset(),
        hi.to_multiset() == s.skip(mid).to_multiset(),
    ensures
        forall|i: int, j: int|
            0 <= i < lo.len() && 0 <= j < hi.len() ==> key_on(keys, axis, #[trigger] lo[i])
                <= key_on(keys, axis, #[trigger] hi[j]),
{
    assert forall|i: int, j: int| 0 <= i < lo.len() && 0 <= j < hi.len() implies key_on(
        keys,
        axis,
        #[trigger] lo[i],
    ) <= key_on(keys, axis, #[trigger] hi[j]) by {
        assert(lo.contains(lo[i]));
        assert(lo.to_multiset().count(lo[i]) > 0);
        assert(s.take(mid).to_multiset().count(lo[i]) > 0);
        assert(s.take(mid).contains(lo[i]));
        assert(hi.contains(hi[j]));
        assert(hi.to_multiset().count(hi[j]) > 0);
        assert(s.skip(mid).to_multiset().count(hi[j]) > 0);
        assert(s.skip(mid).contains(hi[j]));
        let a = choose|a: int| 0 <= a < mid && s.take(mid)[a] == lo[i];
        let b = choose|b: int| 0 <= b < s.len() - mid && s.skip(mid)[b] == hi[j];
        assert(s[a] == lo[i]);
        assert(s[mid + b] == hi[j]);
        assert(a < mid + b);
    }
}


/// Items `0..n`, in order.
pub open spec fn index_range(n: nat) -> Seq<usize> {
    Seq::new(n, |i: int| i as usize)
}

/// A bounding volume hierarchy over the primitives `0..n` of a scene, built
/// once and never changed.
pub struct BHV {
    pub root: Node,
}

impl BHV {
    /// The hierarchy over the primitives whose box keys are `keys` (entry
    /// `i` holds the keys of primitive `i`'s minimum corner along x, y and
    /// z). An empty scene has no hierarchy.
    pub fn new(keys: &Vec<[u64; 3]>, rng: &mut SiteRng) -> (r: BHV)
        requires
            keys.len() >= 1,
        ensures
            r.root.items().len() == keys.len(),
            r.root.items().no_duplicates(),
            forall|i: usize| i < keys.len() ==> r.root.items().contains(i),
            r.root.split_ok(keys@),
    {
        let n = keys.len();
        let mut items: Vec<usize> = Vec::new();
        let mut i: usize = 0;
        while i < n
            invariant
                i <= n,
                n == keys.len(),
                items@ =~= index_range(i as nat),
            decreases n - i,
        {
            items.push(i);
            i = i + 1;
        }
        let root = Node::build(items, keys, rng);
        proof {
            lemma_permutation_of_range(root.items(), n as nat);
        }
        BHV { root }
    }
}

/// A sequence with the items of `0..n`, counted with multiplicity, lists
/// each of them exactly once and nothing else.
proof fn lemma_permutation_of_range(s: Seq<usize>, n: nat)
    requires
        n <= usize::MAX,
        s.to_multiset() == index_range(n).to_multiset(),
    ensures
        s.len() == n,
        s.no_duplicates(),
        forall|i: usize| i < n ==> s.contains(i),
        forall|k: int| 0 <= k < s.len() ==> #[trigger] s[k] < n,
{
    let r = index_range(n);
    assert(r.to_multiset().len() == r.len());
    assert(s.to_multiset().len() == s.len());
    assert(r.no_duplicates()) by {
        assert forall|a: int, b: int| 0 <= a < r.len() && 0 <= b < r.len() && a != b implies r[a]
            != r[b] by {
            assert(r[a] == a as usize);
            assert(r[b] == b as usize);
        }
    }
    r.lemma_multiset_has_no_duplicates();
    s.lemma_multiset_has_no_duplicates_conv();
    assert forall|i: usize| i < n implies s.contains(i) by {
        assert(r[i as int] == i);
        assert(r.contains(i));
        assert(r.to_multiset().count(i) > 0);
    }
    assert forall|k: int| 0 <= k < s.len() implies #[trigger] s[k] < n by {
        assert(s.contains(s[k]));
        assert(s.to_multiset().count(s[k]) > 0);
        assert(r.contains(s[k]));
    }
}

} // verus!
