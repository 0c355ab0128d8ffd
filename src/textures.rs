use vstd::prelude::*;
use crate::rngator::SiteRng;

verus! {

/// The number of lattice gradients of Perlin noise, and the length of each
/// permutation table.
pub const POINT_COUNT: usize = 1024;

/// `t` is a permutation of `0..POINT_COUNT`.
pub open spec fn is_permutation_table(t: Seq<usize>) -> bool {
    &&& t.len() == POINT_COUNT
    &&& t.no_duplicates()
    &&& forall|k: int| 0 <= k < t.len() ==> #[trigger] t[k] < POINT_COUNT
}

/// The table slot of lattice coordinate `c + d`, wrapping around the table
/// (Euclidean remainder, so negative coordinates wrap too).
pub open spec fn lattice_slot(c: int, d: int) -> int {
    (c + d) % (POINT_COUNT as int)
}

proof fn lemma_xor_below(a: usize, b: usize, c: usize)
    requires
        a < 1024,
        b < 1024,
        c < 1024,
    ensures
        a ^ b ^ c < 1024,
{
    assert(a < 1024 && b < 1024 && c < 1024 ==> a ^ b ^ c < 1024) by (bit_vector);
}

/// `d` is a valid set of shuffle draws: one per slot, and the draw of each
/// slot `i` from 1 up lies below `i` (slot 0 is never drawn for).
pub open spec fn draws_ok(d: Seq<usize>) -> bool {
    &&& d.len() == POINT_COUNT
    &&& forall|i: int| 1 <= i < POINT_COUNT ==> #[trigger] d[i] < i
}

/// The identity table on `0..POINT_COUNT`.
pub open spec fn identity_table() -> Seq<usize> {
    Seq::new(POINT_COUNT as nat, |k: int| k as usize)
}

/// `t` after swapping, for each slot `i` from `top` down to 1, slot `i`
/// with slot `d[i]`.
pub open spec fn swap_down(t: Seq<usize>, d: Seq<usize>, top: int) -> Seq<usize>
    decreases top,
{
    if top <= 0 {
        t
    } else {
        let j = d[top] as int;
        swap_down(t.update(top, t[j]).update(j, t[top]), d, top - 1)
    }
}

/// The table that the draws `d` shuffle the identity into: slots are
/// swapped from the last one down to slot 1.
pub open spec fn shuffled(d: Seq<usize>) -> Seq<usize> {
    swap_down(identity_table(), d, POINT_COUNT - 1)
}

/// The permutation of `0..POINT_COUNT` that the draws `draws` give: start
/// from the identity and, from the last slot down to slot 1, swap slot `i`
/// with slot `draws[i]`.
pub fn shuffle(draws: &Vec<usize>) -> (r: Vec<usize>)
    requires
        draws_ok(draws@),
    ensures
        r@ == shuffled(draws@),
        is_permutation_table(r@),
{
    let mut result: Vec<usize> = Vec::new();
    let mut i: usize = 0;
    while i < POINT_COUNT
        invariant
            i <= POINT_COUNT,
            result@.len() == i,
            forall|k: int| 0 <= k < i ==> #[trigger] result@[k] == k,
        decreases POINT_COUNT - i,
    {
        result.push(i);
        i = i + 1;
    }
    assert(result@ =~= identity_table());
    assert(result@.no_duplicates());
    let mut i: usize = POINT_COUNT - 1;
    while i >= 1
        invariant
            i < POINT_COUNT,
            draws_ok(draws@),
            is_permutation_table(result@),
            swap_down(result@, draws@, i as int) == shuffled(draws@),
        decreases i,
    {
        let j = draws[i];
        let a = result[i];
        let b = result[j];
        let ghost before = result@;
        result.set(i, b);
        result.set(j, a);
        assert(result@ == before.update(i as int, before[j as int]).update(j as int, before[i as int]));
        assert(result@.no_duplicates()) by {
            assert forall|p: int, q: int|
                0 <= p < result@.len() && 0 <= q < result@.len() && p != q implies result@[p]
                != result@[q] by {
                let op = if p == i as int { j as int } else if p == j as int { i as int } else { p };
                let oq = if q == i as int { j as int } else if q == j as int { i as int } else { q };
                assert(result@[p] == before[op]);
                assert(result@[q] == before[oq]);
            }
        }
        assert forall|k: int| 0 <= k < result@.len() implies #[trigger] result@[k] < POINT_COUNT by {
            if k == i as int {
                assert(result@[k] == before[j as int]);
            } else if k == j as int {
                assert(result@[k] == before[i as int]);
            } else {
                assert(result@[k] == before[k]);
            }
        }
        i = i - 1;
    }
    result
}

/// A random permutation of `0..POINT_COUNT`: for each slot `i` from the
/// last down to 1 a slot below `i` is drawn, and the draws are shuffled
/// into the identity.
fn permute(rng: &mut SiteRng) -> (r: Vec<usize>)
    ensures
        exists|d: Seq<usize>| draws_ok(d) && r@ == #[trigger] shuffled(d),
        is_permutation_table(r@),
{
    let mut draws: Vec<usize> = vec![0; POINT_COUNT];
    let mut i: usize = POINT_COUNT - 1;
    while i >= 1
        invariant
            i < POINT_COUNT,
            draws@.len() == POINT_COUNT,
            forall|k: int| i < k < POINT_COUNT ==> #[trigger] draws@[k] < k,
        decreases i,
    {
        let j = rng.below(i);
        draws.set(i, j);
        i = i - 1;
    }
    let r = shuffle(&draws);
    assert(draws_ok(draws@) && r@ == shuffled(draws@));
    r
}

/// The table slot of lattice coordinate `c + d`, computed without overflow.
fn lattice_slot_of(c: isize, d: usize) -> (r: usize)
    requires
        d < 2,
    ensures
        r == lattice_slot(c as int, d as int),
        r < POINT_COUNT,
{
    if c >= 0 {
        let base: usize = (c as usize) % POINT_COUNT;
        proof {
            let q = (c as int) / 1024;
            vstd::arithmetic::div_mod::lemma_fundamental_div_mod(c as int, 1024);
            vstd::arithmetic::div_mod::lemma_mod_multiples_vanish(q, base + d, 1024);
            assert(c as int + d == 1024 * q + (base + d));
        }
        (base + d) % POINT_COUNT
    } else {
        let x: usize = (-(c + 1)) as usize;
        let m: usize = x % POINT_COUNT;
        proof {
            let q = (x as int) / 1024;
            vstd::arithmetic::div_mod::lemma_fundamental_div_mod(x as int, 1024);
            vstd::arithmetic::div_mod::lemma_mod_multiples_vanish(-(q + 1), 1023 - m + d, 1024);
            assert(c as int + d == 1024 * (-(q + 1)) + (1023 - m + d));
        }
        (1023 - m + d) % POINT_COUNT
    }
}

/// The three permutation tables of Perlin noise, which pick the gradient
/// at each corner of a lattice cell.
pub struct PerlinTables {
    pub perm_x: Vec<usize>,
    pub perm_y: Vec<usize>,
    pub perm_z: Vec<usize>,
}

impl PerlinTables {
    pub open spec fn wf(&self) -> bool {
        &&& is_permutation_table(self.perm_x@)
        &&& is_permutation_table(self.perm_y@)
        &&& is_permutation_table(self.perm_z@)
    }

    /// Three fresh random permutations, drawn for x, y and z in turn; each
    /// is the shuffle of some valid draws.
    pub fn new(rng: &mut SiteRng) -> (r: PerlinTables)
        ensures
            r.wf(),
            exists|d: Seq<usize>| draws_ok(d) && r.perm_x@ == #[trigger] shuffled(d),
            exists|d: Seq<usize>| draws_ok(d) && r.perm_y@ == #[trigger] shuffled(d),
            exists|d: Seq<usize>| draws_ok(d) && r.perm_z@ == #[trigger] shuffled(d),
    {
        let perm_x = permute(rng);
        let perm_y = permute(rng);
        let perm_z = permute(rng);
        PerlinTables { perm_x, perm_y, perm_z }
    }

    /// The gradient index at corner `(i + di, j + dj, k + dk)` of the lattice:
    /// the exclusive or of the three tables' entries at the wrapped slots.
    pub fn corner_index(&self, i: isize, j: isize, k: isize, di: usize, dj: usize, dk: usize) -> (r: usize)
        requires
            self.wf(),
            di < 2,
            dj < 2,
            dk < 2,
        ensures
            r == self.perm_x@[lattice_slot(i as int, di as int)] ^ self.perm_y@[lattice_slot(
                j as int,
                dj as int,
            )] ^ self.perm_z@[lattice_slot(k as int, dk as int)],
            r < POINT_COUNT,
    {
        let a = self.perm_x[lattice_slot_of(i, di)];
        let b = self.perm_y[lattice_slot_of(j, dj)];
        let c = self.perm_z[lattice_slot_of(k, dk)];
        proof {
            lemma_xor_below(a, b, c);
        }
        a ^ b ^ c
    }
}

} // verus!
