use crate::random::random_index;
use rand::rngs::ThreadRng;
use vstd::prelude::*;

verus! {

/// The number of gradient vectors, and the length of each permutation.
pub const POINT_COUNT: usize = 256;

/// `p` holds each of the numbers from 0 up to `POINT_COUNT` exactly once.
pub open spec fn is_permutation(p: Seq<i32>) -> bool {
    &&& p.len() == POINT_COUNT
    &&& forall|i: int| 0 <= i < p.len() ==> 0 <= #[trigger] p[i] < POINT_COUNT
    &&& forall|i: int, j: int| 0 <= i < j < p.len() ==> p[i] != p[j]
}

/// `s` with the elements at `i` and `j` exchanged.
pub open spec fn swapped(s: Seq<i32>, i: int, j: int) -> Seq<i32> {
    s.update(i, s[j]).update(j, s[i])
}

/// The numbers from 0 up to `POINT_COUNT` in their order.
pub open spec fn identity() -> Seq<i32> {
    Seq::new(POINT_COUNT as nat, |k: int| k as i32)
}

/// The draws of one shuffle are in order: position `i` draws a position
/// before it.
pub open spec fn valid_targets(targets: Seq<int>) -> bool {
    &&& targets.len() == POINT_COUNT
    &&& forall|i: int| 1 <= i < POINT_COUNT ==> 0 <= #[trigger] targets[i] < i
}

/// The table `p` after the exchanges of the positions from the last down to
/// `i`, each position `n` with the position `targets[n]`.
pub open spec fn after_exchanges(p: Seq<i32>, targets: Seq<int>, i: int) -> Seq<i32>
    decreases POINT_COUNT - i,
{
    if i >= POINT_COUNT {
        p
    } else {
        swapped(after_exchanges(p, targets, i + 1), i, targets[i])
    }
}

/// `table` comes from `p` by a shuffle: from the last position down to the
/// second, each was exchanged with a position before it.
pub open spec fn is_shuffle_of(table: Seq<i32>, p: Seq<i32>) -> bool {
    exists|targets: Seq<int>|
        valid_targets(targets) && table == #[trigger] after_exchanges(p, targets, 1)
}

/// Exchanges keep a permutation a permutation.
pub proof fn lemma_exchanges_permute(p: Seq<i32>, targets: Seq<int>, i: int)
    requires
        is_permutation(p),
        valid_targets(targets),
        1 <= i <= POINT_COUNT,
    ensures
        is_permutation(after_exchanges(p, targets, i)),
    decreases POINT_COUNT - i,
{
    if i < POINT_COUNT {
        lemma_exchanges_permute(p, targets, i + 1);
        let before = after_exchanges(p, targets, i + 1);
        assert(0 <= targets[i] < i);
        lemma_swap_permutes(before, i, targets[i]);
    }
}

/// An exchange keeps a permutation a permutation.
proof fn lemma_swap_permutes(p: Seq<i32>, i: int, j: int)
    requires
        is_permutation(p),
        0 <= i < POINT_COUNT,
        0 <= j < POINT_COUNT,
    ensures
        is_permutation(swapped(p, i, j)),
{
    let q = swapped(p, i, j);
    assert forall|a: int, b: int| 0 <= a < b < q.len() implies q[a] != q[b] by {
        let pa = if a == i {
            j
        } else if a == j {
            i
        } else {
            a
        };
        let pb = if b == i {
            j
        } else if b == j {
            i
        } else {
            b
        };
        assert(q[a] == p[pa] && q[b] == p[pb]);
        if pa < pb {
            assert(p[pa] != p[pb]);
        } else {
            assert(p[pb] != p[pa]);
        }
    }
}

/// A shuffle of the numbers in their order holds each of them exactly once.
pub proof fn lemma_shuffle_is_permutation(table: Seq<i32>)
    requires
        is_shuffle_of(table, identity()),
    ensures
        is_permutation(table),
{
    let targets = choose|targets: Seq<int>|
        valid_targets(targets) && table == #[trigger] after_exchanges(identity(), targets, 1);
    lemma_exchanges_permute(identity(), targets, 1);
}

/// The exchanges from the last position down to `i` do not depend on the
/// draws of the positions before `i`.
proof fn lemma_later_draws_only(p: Seq<i32>, a: Seq<int>, b: Seq<int>, i: int)
    requires
        a.len() == b.len(),
        0 <= i,
        forall|n: int| i <= n < a.len() ==> a[n] == b[n],
        a.len() == POINT_COUNT,
    ensures
        after_exchanges(p, a, i) == after_exchanges(p, b, i),
    decreases POINT_COUNT - i,
{
    if i < POINT_COUNT {
        lemma_later_draws_only(p, a, b, i + 1);
    }
}

/// The three permutations that hash a lattice point to a gradient vector.
pub struct Perlin {
    perm_x: [i32; POINT_COUNT],
    perm_y: [i32; POINT_COUNT],
    perm_z: [i32; POINT_COUNT],
}

/// The three permutations, as sequences.
pub struct PerlinTables {
    pub x: Seq<i32>,
    pub y: Seq<i32>,
    pub z: Seq<i32>,
}

impl PerlinTables {
    /// The gradient vector that belongs to the lattice point `(i, j, k)`:
    /// each coordinate, taken modulo `POINT_COUNT`, is looked up in its
    /// permutation, and the three entries are combined bit by bit.
    pub open spec fn hash(self, i: i32, j: i32, k: i32) -> int {
        (self.x[(i & 255) as int] ^ self.y[(j & 255) as int] ^ self.z[(k & 255) as int]) as int
    }
}

impl View for Perlin {
    type V = PerlinTables;

    closed spec fn view(&self) -> PerlinTables {
        PerlinTables { x: self.perm_x@, y: self.perm_y@, z: self.perm_z@ }
    }
}

impl Default for Perlin {
    /// Three fresh tables, as `new` makes them.
    fn default() -> (perlin: Self)
        ensures
            perlin.wf(),
            is_shuffle_of(perlin@.x, identity()),
            is_shuffle_of(perlin@.y, identity()),
            is_shuffle_of(perlin@.z, identity()),
    {
        Self::new()
    }
}

impl Perlin {
    /// Each of the three tables is a permutation.
    pub open spec fn wf(&self) -> bool {
        &&& is_permutation(self@.x)
        &&& is_permutation(self@.y)
        &&& is_permutation(self@.z)
    }

    /// Three fresh tables, each a shuffle of the numbers in their order.
    pub fn new() -> (perlin: Perlin)
        ensures
            perlin.wf(),
            is_shuffle_of(perlin@.x, identity()),
            is_shuffle_of(perlin@.y, identity()),
            is_shuffle_of(perlin@.z, identity()),
    {
        let perm_x = Perlin::perlin_generate_perm();
        let perm_y = Perlin::perlin_generate_perm();
        let perm_z = Perlin::perlin_generate_perm();
        Perlin { perm_x, perm_y, perm_z }
    }

    /// The gradient vectors at the eight corners of the lattice cell whose
    /// lowest corner is `(i, j, k)`: the corner `(i + di, j + dj, k + dk)`
    /// stands at position `4 * di + 2 * dj + dk`.
    pub fn corner_indices(&self, i: i32, j: i32, k: i32) -> (corners: [usize; 8])
        requires
            self.wf(),
            i < i32::MAX,
            j < i32::MAX,
            k < i32::MAX,
        ensures
            forall|c: int|
                0 <= c < 8 ==> #[trigger] corners[c] == self@.hash(
                    (i + c / 4) as i32,
                    (j + (c / 2) % 2) as i32,
                    (k + c % 2) as i32,
                ),
            forall|c: int| 0 <= c < 8 ==> #[trigger] corners[c] < POINT_COUNT,
    {
        let mut corners: [usize; 8] = [0; 8];
        let mut di: usize = 0;
        while di < 2
            invariant
                self.wf(),
                i < i32::MAX,
                j < i32::MAX,
                k < i32::MAX,
                di <= 2,
                forall|c: int| 0 <= c < 8 ==> #[trigger] corners[c] < POINT_COUNT,
                forall|c: int|
                    0 <= c < 4 * di ==> #[trigger] corners[c] == self@.hash(
                        (i + c / 4) as i32,
                        (j + (c / 2) % 2) as i32,
                        (k + c % 2) as i32,
                    ),
            decreases 2 - di,
        {
            let mut dj: usize = 0;
            while dj < 2
                invariant
                    self.wf(),
                    i < i32::MAX,
                    j < i32::MAX,
                    k < i32::MAX,
                    di < 2,
                    dj <= 2,
                    forall|c: int| 0 <= c < 8 ==> #[trigger] corners[c] < POINT_COUNT,
                    forall|c: int|
                        0 <= c < 4 * di + 2 * dj ==> #[trigger] corners[c] == self@.hash(
                            (i + c / 4) as i32,
                            (j + (c / 2) % 2) as i32,
                            (k + c % 2) as i32,
                        ),
                decreases 2 - dj,
            {
                let mut dk: usize = 0;
                while dk < 2
                    invariant
                        self.wf(),
                        i < i32::MAX,
                        j < i32::MAX,
                        k < i32::MAX,
                        di < 2,
                        dj < 2,
                        dk <= 2,
                        forall|c: int| 0 <= c < 8 ==> #[trigger] corners[c] < POINT_COUNT,
                        forall|c: int|
                            0 <= c < 4 * di + 2 * dj + dk ==> #[trigger] corners[c] == self@.hash(
                                (i + c / 4) as i32,
                                (j + (c / 2) % 2) as i32,
                                (k + c % 2) as i32,
                            ),
                    decreases 2 - dk,
                {
                    let index = self.gradient_index(i + di as i32, j + dj as i32, k + dk as i32);
                    corners[4 * di + 2 * dj + dk] = index;
                    dk += 1;
                }
                dj += 1;
            }
            di += 1;
        }
        corners
    }

    /// The gradient vector that belongs to the lattice point `(i, j, k)`.
    pub fn gradient_index(&self, i: i32, j: i32, k: i32) -> (index: usize)
        requires
            self.wf(),
        ensures
            index == self@.hash(i, j, k),
            index < POINT_COUNT,
    {
        assert(0 <= (i & 255) < 256) by (bit_vector);
        assert(0 <= (j & 255) < 256) by (bit_vector);
        assert(0 <= (k & 255) < 256) by (bit_vector);
        let x = self.perm_x[(i & 255) as usize];
        let y = self.perm_y[(j & 255) as usize];
        let z = self.perm_z[(k & 255) as usize];
        assert(0 <= (x ^ y ^ z) < 256) by (bit_vector)
            requires
                0 <= x < 256,
                0 <= y < 256,
                0 <= z < 256,
        ;
        (x ^ y ^ z) as usize
    }

    /// A random permutation of the numbers from 0 up to `POINT_COUNT`: the
    /// numbers in their order, shuffled.
    pub fn perlin_generate_perm() -> (p: [i32; POINT_COUNT])
        ensures
            is_shuffle_of(p@, identity()),
            is_permutation(p@),
    {
        let mut p: [i32; POINT_COUNT] = [0; POINT_COUNT];
        let mut i: usize = 0;
        while i < POINT_COUNT
            invariant
                i <= POINT_COUNT,
                forall|k: int| 0 <= k < i ==> #[trigger] p[k] == k,
            decreases POINT_COUNT - i,
        {
            p[i] = i as i32;
            i += 1;
        }
        assert(p@ =~= identity());
        Perlin::permutate(&mut p);
        p
    }

    /// Exchanges the entries at `i` and `target`.
    pub fn exchange(p: &mut [i32; POINT_COUNT], i: usize, target: usize)
        requires
            i < POINT_COUNT,
            target < POINT_COUNT,
        ensures
            final(p)@ == swapped(old(p)@, i as int, target as int),
            is_permutation(old(p)@) ==> is_permutation(final(p)@),
    {
        let held = p[i];
        p[i] = p[target];
        p[target] = held;
        assert(p@ =~= swapped(old(p)@, i as int, target as int));
    }

    /// Shuffles `p`: from the last entry down to the second, each is exchanged
    /// with an entry drawn at random from those before it.
    fn permutate(p: &mut [i32; POINT_COUNT])
        requires
            is_permutation(old(p)@),
        ensures
            is_shuffle_of(final(p)@, old(p)@),
            is_permutation(final(p)@),
    {
        let mut rng: ThreadRng = rand::thread_rng();
        let ghost mut targets: Seq<int> = Seq::new(POINT_COUNT as nat, |n: int| 0int);
        let mut i: usize = POINT_COUNT - 1;
        while i >= 1
            invariant
                i < POINT_COUNT,
                is_permutation(p@),
                targets.len() == POINT_COUNT,
                forall|n: int| i < n < POINT_COUNT ==> 0 <= #[trigger] targets[n] < n,
                forall|n: int| 0 <= n <= i ==> #[trigger] targets[n] == 0,
                p@ == after_exchanges(old(p)@, targets, i + 1),
            decreases i,
        {
            let target = random_index(&mut rng, 0, i);
            proof {
                let drawn = targets.update(i as int, target as int);
                lemma_later_draws_only(old(p)@, targets, drawn, i + 1);
                targets = drawn;
            }
            Perlin::exchange(p, i, target);
            i -= 1;
        }
        assert(valid_targets(targets));
    }
}

} // verus!
