use vstd::prelude::*;

use crate::utilities::random::random_i32_range;

verus! {

broadcast use vstd::seq_lib::to_multiset_update;

/// Number of lattice points in each permutation table.
pub const POINT_COUNT: usize = 256;

/// `s` holds each of `0..n` exactly once.
pub open spec fn is_index_permutation(s: Seq<usize>, n: nat) -> bool {
    &&& s.len() == n
    &&& forall|k: int| 0 <= k < s.len() ==> (#[trigger] s[k]) < n
    &&& forall|a: int, b: int| 0 <= a < s.len() && 0 <= b < s.len() && a != b ==> s[a] != s[b]
    &&& forall|v: usize| v < n ==> #[trigger] s.contains(v)
}

/// The lattice coordinate that a (possibly negative) cell coordinate wraps to.
pub open spec fn wrap_lattice(c: int) -> int {
    c % (POINT_COUNT as int)
}

/// The gradient index that the three permutation tables give the lattice
/// corner `(i, j, k)`: the exclusive or of the three table entries.
pub open spec fn spec_corner_index(
    perm_x: Seq<usize>,
    perm_y: Seq<usize>,
    perm_z: Seq<usize>,
    i: int,
    j: int,
    k: int,
) -> usize {
    perm_x[wrap_lattice(i)] ^ perm_y[wrap_lattice(j)] ^ perm_z[wrap_lattice(k)]
}

/// The permutation tables of a Perlin noise generator, one per axis.
///
/// The gradient vectors that the tables index stay with the caller.
pub struct Perlin {
    perm_x: Vec<usize>,
    perm_y: Vec<usize>,
    perm_z: Vec<usize>,
}

impl View for Perlin {
    type V = (Seq<usize>, Seq<usize>, Seq<usize>);

    closed spec fn view(&self) -> (Seq<usize>, Seq<usize>, Seq<usize>) {
        (self.perm_x@, self.perm_y@, self.perm_z@)
    }
}

proof fn lemma_low_byte(x: i32)
    ensures
        0 <= (x & 255i32) < 256,
        (x & 255i32) as int == (x as int) % 256,
{
    assert(0 <= (x & 255i32) < 256) by (bit_vector);
    assert((x & 255i32) as int == (x as int) % 256) by (bit_vector);
}

proof fn lemma_xor_byte(a: usize, b: usize, c: usize)
    requires
        a < 256,
        b < 256,
        c < 256,
    ensures
        a ^ b ^ c < 256,
{
    assert(a ^ b ^ c < 256) by (bit_vector)
        requires
            a < 256,
            b < 256,
            c < 256,
    ;
}

impl Perlin {
    /// Every table is a permutation of `0..POINT_COUNT`.
    pub open spec fn wf(&self) -> bool {
        &&& is_index_permutation(self@.0, POINT_COUNT as nat)
        &&& is_index_permutation(self@.1, POINT_COUNT as nat)
        &&& is_index_permutation(self@.2, POINT_COUNT as nat)
    }

    /// Creates a generator with three independently shuffled tables.
    pub fn new() -> (perlin: Perlin)
        ensures
            perlin.wf(),
    {
        let perm_x = Self::generate_perm();
        let perm_y = Self::generate_perm();
        let perm_z = Self::generate_perm();
        Perlin { perm_x, perm_y, perm_z }
    }

    /// Returns the identity table `0..POINT_COUNT`, shuffled.
    pub fn generate_perm() -> (p: Vec<usize>)
        ensures
            is_index_permutation(p@, POINT_COUNT as nat),
    {
        let mut p: Vec<usize> = Vec::new();
        for i in 0..POINT_COUNT
            invariant
                p@.len() == i,
                forall|k: int| 0 <= k < i ==> #[trigger] p@[k] == k,
        {
            p.push(i);
        }
        proof {
            assert forall|v: usize| v < POINT_COUNT implies #[trigger] p@.contains(v) by {
                assert(p@[v as int] == v);
            }
        }
        Self::permute(&mut p);
        p
    }

    /// Shuffles `p` in place by the Fisher-Yates method: for each position `i`
    /// from the last down to the second, swap it with a position drawn at
    /// random from `0..=i`.
    ///
    /// The result is `p` shuffled by some valid sequence of draws (which one
    /// depends on chance), so always a rearrangement of the input.
    pub fn permute(p: &mut Vec<usize>)
        requires
            old(p)@.len() <= i32::MAX as nat + 1,
        ensures
            exists|draws: Seq<usize>|
                valid_draws(draws, old(p)@.len()) && final(p)@ == spec_shuffle(old(p)@, draws),
            final(p)@.len() == old(p)@.len(),
            final(p)@.to_multiset() == old(p)@.to_multiset(),
            forall|n: nat| is_index_permutation(old(p)@, n) ==> is_index_permutation(final(p)@, n),
    {
        let len = p.len();
        let mut draws: Vec<usize> = Vec::new();
        for k in 0..len
            invariant
                draws@.len() == k,
                forall|m: int| 0 <= m < k ==> #[trigger] draws@[m] == 0,
        {
            draws.push(0);
        }
        let mut i: usize = len;
        while i > 1
            invariant
                draws@.len() == len,
                len <= i32::MAX as nat + 1,
                i <= len,
                forall|m: int| 0 <= m < len ==> #[trigger] draws@[m] <= m,
            decreases i,
        {
            i = i - 1;
            let drawn: i32 = random_i32_range(0, i as i32);
            draws.set(i, drawn as usize);
        }
        let ghost before = p@;
        Self::shuffle_with(p, &draws);
        proof {
            lemma_shuffle_preserves(before, draws@, 1);
        }
    }

    /// Shuffles `p` in place with the given draws: for each position `i` from
    /// the last down to the second, swaps it with position `draws[i]`.
    pub fn shuffle_with(p: &mut Vec<usize>, draws: &Vec<usize>)
        requires
            valid_draws(draws@, old(p)@.len()),
        ensures
            final(p)@ == spec_shuffle(old(p)@, draws@),
    {
        let len = p.len();
        let ghost orig = p@;
        let mut i: usize = len;
        while i > 1
            invariant
                p@.len() == len,
                len == orig.len(),
                valid_draws(draws@, len as nat),
                i <= len,
                i == 0 ==> len == 0,
                p@ == shuffled_from(orig, draws@, i as nat),
            decreases i,
        {
            i = i - 1;
            let target: usize = draws[i];
            let a = p[i];
            let b = p[target];
            p.set(i, b);
            p.set(target, a);
            assert(p@ =~= spec_swap(shuffled_from(orig, draws@, (i + 1) as nat), i as int, target as int));
        }
    }

    /// The gradient index of lattice corner `(i + di, j + dj, k + dk)`.
    pub fn corner_index(&self, i: i32, j: i32, k: i32, di: i32, dj: i32, dk: i32) -> (idx: usize)
        requires
            self.wf(),
            0 <= di <= 1,
            0 <= dj <= 1,
            0 <= dk <= 1,
            i < i32::MAX,
            j < i32::MAX,
            k < i32::MAX,
        ensures
            idx < POINT_COUNT,
            idx == spec_corner_index(self@.0, self@.1, self@.2, i + di, j + dj, k + dk),
    {
        proof {
            lemma_low_byte((i + di) as i32);
            lemma_low_byte((j + dj) as i32);
            lemma_low_byte((k + dk) as i32);
        }
        let idx_x = ((i + di) & 255) as usize;
        let idx_y = ((j + dj) & 255) as usize;
        let idx_z = ((k + dk) & 255) as usize;
        let a = self.perm_x[idx_x];
        let b = self.perm_y[idx_y];
        let c = self.perm_z[idx_z];
        proof {
            lemma_xor_byte(a, b, c);
        }
        a ^ b ^ c
    }

    /// The gradient indices of the eight corners of the lattice cell whose
    /// lowest corner is `(i, j, k)`, in the order `di`, then `dj`, then `dk`:
    /// entry `4 * di + 2 * dj + dk` belongs to corner `(i + di, j + dj, k + dk)`.
    pub fn cell_indices(&self, i: i32, j: i32, k: i32) -> (idx: Vec<usize>)
        requires
            self.wf(),
            i < i32::MAX,
            j < i32::MAX,
            k < i32::MAX,
        ensures
            idx@.len() == 8,
            forall|c: int| 0 <= c < 8 ==> #[trigger] idx@[c] < POINT_COUNT,
            forall|di: int, dj: int, dk: int|
                0 <= di <= 1 && 0 <= dj <= 1 && 0 <= dk <= 1 ==> #[trigger] idx@[4 * di + 2 * dj
                    + dk] == spec_corner_index(self@.0, self@.1, self@.2, i + di, j + dj, k + dk),
    {
        let mut idx: Vec<usize> = Vec::new();
        for di in 0..2i32
            invariant
                self.wf(),
                i < i32::MAX,
                j < i32::MAX,
                k < i32::MAX,
                idx@.len() == 4 * di,
                forall|c: int| 0 <= c < idx@.len() ==> #[trigger] idx@[c] < POINT_COUNT,
                forall|a: int, b: int, d: int|
                    0 <= a < di && 0 <= b <= 1 && 0 <= d <= 1 ==> #[trigger] idx@[4 * a + 2 * b + d]
                        == spec_corner_index(self@.0, self@.1, self@.2, i + a, j + b, k + d),
        {
            for dj in 0..2i32
                invariant
                    self.wf(),
                    0 <= di <= 1,
                    i < i32::MAX,
                    j < i32::MAX,
                    k < i32::MAX,
                    idx@.len() == 4 * di + 2 * dj,
                    forall|c: int| 0 <= c < idx@.len() ==> #[trigger] idx@[c] < POINT_COUNT,
                    forall|a: int, b: int, d: int|
                        0 <= a <= di && 0 <= b <= 1 && 0 <= d <= 1 && 4 * a + 2 * b + d < 4 * di
                            + 2 * dj ==> #[trigger] idx@[4 * a + 2 * b + d] == spec_corner_index(
                            self@.0,
                            self@.1,
                            self@.2,
                            i + a,
                            j + b,
                            k + d,
                        ),
            {
                for dk in 0..2i32
                    invariant
                        self.wf(),
                        0 <= di <= 1,
                        0 <= dj <= 1,
                        i < i32::MAX,
                        j < i32::MAX,
                        k < i32::MAX,
                        idx@.len() == 4 * di + 2 * dj + dk,
                        forall|c: int| 0 <= c < idx@.len() ==> #[trigger] idx@[c] < POINT_COUNT,
                        forall|a: int, b: int, d: int|
                            0 <= a <= di && 0 <= b <= 1 && 0 <= d <= 1 && 4 * a + 2 * b + d < 4
                                * di + 2 * dj + dk ==> #[trigger] idx@[4 * a + 2 * b + d]
                                == spec_corner_index(
                                self@.0,
                                self@.1,
                                self@.2,
                                i + a,
                                j + b,
                                k + d,
                            ),
                {
                    let c = self.corner_index(i, j, k, di, dj, dk);
                    idx.push(c);
                }
            }
        }
        idx
    }
}

/// The gradient of a lattice corner repeats every `POINT_COUNT` cells along
/// each axis.
pub proof fn lemma_corner_index_periodic(
    perm_x: Seq<usize>,
    perm_y: Seq<usize>,
    perm_z: Seq<usize>,
    i: int,
    j: int,
    k: int,
)
    ensures
        spec_corner_index(perm_x, perm_y, perm_z, i + 256, j, k) == spec_corner_index(
            perm_x,
            perm_y,
            perm_z,
            i,
            j,
            k,
        ),
        spec_corner_index(perm_x, perm_y, perm_z, i, j + 256, k) == spec_corner_index(
            perm_x,
            perm_y,
            perm_z,
            i,
            j,
            k,
        ),
        spec_corner_index(perm_x, perm_y, perm_z, i, j, k + 256) == spec_corner_index(
            perm_x,
            perm_y,
            perm_z,
            i,
            j,
            k,
        ),
{
    vstd::arithmetic::div_mod::lemma_mod_add_multiples_vanish(i, 256);
    vstd::arithmetic::div_mod::lemma_mod_add_multiples_vanish(j, 256);
    vstd::arithmetic::div_mod::lemma_mod_add_multiples_vanish(k, 256);
}

/// `draws` can drive a Fisher-Yates shuffle of a table of length `len`: it
/// has an entry for each position, and the draw for position `i` is at most `i`.
pub open spec fn valid_draws(draws: Seq<usize>, len: nat) -> bool {
    &&& draws.len() == len
    &&& forall|i: int| 0 <= i < len ==> #[trigger] draws[i] <= i
}

/// `s` with the entries at positions `a` and `b` exchanged.
pub open spec fn spec_swap(s: Seq<usize>, a: int, b: int) -> Seq<usize> {
    s.update(a, s[b]).update(b, s[a])
}

/// `s` after the Fisher-Yates swaps for positions `n` and above, taken from
/// the last position down: position `i` is exchanged with position `draws[i]`.
pub open spec fn shuffled_from(s: Seq<usize>, draws: Seq<usize>, n: nat) -> Seq<usize>
    decreases s.len() - n,
{
    if n == 0 || n >= s.len() {
        s
    } else {
        spec_swap(shuffled_from(s, draws, n + 1), n as int, draws[n as int] as int)
    }
}

/// `s` shuffled by the Fisher-Yates method with the given draws.
pub open spec fn spec_shuffle(s: Seq<usize>, draws: Seq<usize>) -> Seq<usize> {
    shuffled_from(s, draws, 1)
}

/// A Fisher-Yates shuffle, whatever its draws, keeps the length and the
/// multiset of entries, and keeps a permutation of `0..m` one.
pub proof fn lemma_shuffle_preserves(s: Seq<usize>, draws: Seq<usize>, n: nat)
    requires
        valid_draws(draws, s.len()),
        n >= 1,
    ensures
        shuffled_from(s, draws, n).len() == s.len(),
        shuffled_from(s, draws, n).to_multiset() == s.to_multiset(),
        forall|m: nat| is_index_permutation(s, m) ==> is_index_permutation(
            shuffled_from(s, draws, n),
            m,
        ),
    decreases s.len() - n,
{
    if n < s.len() {
        lemma_shuffle_preserves(s, draws, n + 1);
        let prev = shuffled_from(s, draws, n + 1);
        lemma_swap_preserves(prev, n as int, draws[n as int] as int);
    }
}

proof fn lemma_xor_relations(x: usize, y: usize, a: usize, b: usize)
    ensures
        (x ^ y ^ a) ^ (x ^ y ^ b) == a ^ b,
        (a ^ x ^ y) ^ (b ^ x ^ y) == a ^ b,
        (x ^ a ^ y) ^ (x ^ b ^ y) == a ^ b,
        a != b ==> x ^ y ^ a != x ^ y ^ b,
        a != b ==> a ^ x ^ y != b ^ x ^ y,
        a != b ==> x ^ a ^ y != x ^ b ^ y,
{
    assert((x ^ y ^ a) ^ (x ^ y ^ b) == a ^ b) by (bit_vector);
    assert((a ^ x ^ y) ^ (b ^ x ^ y) == a ^ b) by (bit_vector);
    assert((x ^ a ^ y) ^ (x ^ b ^ y) == a ^ b) by (bit_vector);
    assert(a != b ==> x ^ y ^ a != x ^ y ^ b) by (bit_vector);
    assert(a != b ==> a ^ x ^ y != b ^ x ^ y) by (bit_vector);
    assert(a != b ==> x ^ a ^ y != x ^ b ^ y) by (bit_vector);
}

/// Each lattice coordinate acts on the gradient index through its own
/// table: moving a corner along one axis changes the index by exactly the
/// exclusive or of that axis's two table entries (at the coordinates taken
/// modulo 256), so corners whose coordinate differs modulo 256 along one
/// axis get different gradients.
pub proof fn lemma_corner_index_per_axis(
    perm_x: Seq<usize>,
    perm_y: Seq<usize>,
    perm_z: Seq<usize>,
    i: int,
    j: int,
    k: int,
    c: int,
)
    requires
        is_index_permutation(perm_x, POINT_COUNT as nat),
        is_index_permutation(perm_y, POINT_COUNT as nat),
        is_index_permutation(perm_z, POINT_COUNT as nat),
    ensures
        spec_corner_index(perm_x, perm_y, perm_z, i, j, k) ^ spec_corner_index(
            perm_x,
            perm_y,
            perm_z,
            c,
            j,
            k,
        ) == perm_x[i % 256] ^ perm_x[c % 256],
        spec_corner_index(perm_x, perm_y, perm_z, i, j, k) ^ spec_corner_index(
            perm_x,
            perm_y,
            perm_z,
            i,
            c,
            k,
        ) == perm_y[j % 256] ^ perm_y[c % 256],
        spec_corner_index(perm_x, perm_y, perm_z, i, j, k) ^ spec_corner_index(
            perm_x,
            perm_y,
            perm_z,
            i,
            j,
            c,
        ) == perm_z[k % 256] ^ perm_z[c % 256],
        i % 256 != c % 256 ==> spec_corner_index(perm_x, perm_y, perm_z, i, j, k)
            != spec_corner_index(perm_x, perm_y, perm_z, c, j, k),
        j % 256 != c % 256 ==> spec_corner_index(perm_x, perm_y, perm_z, i, j, k)
            != spec_corner_index(perm_x, perm_y, perm_z, i, c, k),
        k % 256 != c % 256 ==> spec_corner_index(perm_x, perm_y, perm_z, i, j, k)
            != spec_corner_index(perm_x, perm_y, perm_z, i, j, c),
{
    let (xi, xc) = (perm_x[i % 256], perm_x[c % 256]);
    let (yj, yc) = (perm_y[j % 256], perm_y[c % 256]);
    let (zk, zc) = (perm_z[k % 256], perm_z[c % 256]);
    lemma_xor_relations(yj, zk, xi, xc);
    lemma_xor_relations(xi, zk, yj, yc);
    lemma_xor_relations(xi, yj, zk, zc);
}

/// Each step of the shuffle exchanges position `n` with position `draws[n]`
/// in the table that the later steps (positions above `n`) left behind.
pub proof fn lemma_shuffle_step(s: Seq<usize>, draws: Seq<usize>, n: nat)
    requires
        valid_draws(draws, s.len()),
        1 <= n < s.len(),
    ensures
        ({
            let before = shuffled_from(s, draws, n + 1);
            let after = shuffled_from(s, draws, n);
            let t = draws[n as int] as int;
            &&& after[n as int] == before[t]
            &&& after[t] == before[n as int]
            &&& forall|m: int| 0 <= m < s.len() && m != n && m != t ==> after[m] == before[m]
        }),
{
    lemma_shuffle_preserves(s, draws, n + 1);
}

/// Drawing position `0` for every step rotates the table left by one: the
/// first entry moves to the end and the others move up one place.
pub proof fn lemma_shuffle_zero_draws_rotates(s: Seq<usize>)
    requires
        s.len() >= 1,
    ensures
        spec_shuffle(s, Seq::new(s.len(), |i: int| 0usize)) == s.subrange(1, s.len() as int).push(
            s[0],
        ),
{
    let zeros = Seq::new(s.len(), |i: int| 0usize);
    let len = s.len() as int;
    if len == 1 {
        assert(s.subrange(1, 1).push(s[0]) =~= s);
    } else {
        lemma_zero_draws_from(s, 1);
        let r = spec_shuffle(s, zeros);
        assert(r =~= s.subrange(1, len).push(s[0]));
    }
}

/// With all draws `0`, the steps for positions `n` and above leave: position
/// `0` holding entry `n`, positions `1..n` unchanged, positions `n..len - 1`
/// holding the entries one place later, and the last position holding entry
/// `0`.
proof fn lemma_zero_draws_from(s: Seq<usize>, n: nat)
    requires
        1 <= n < s.len(),
    ensures
        ({
            let r = shuffled_from(s, Seq::new(s.len(), |i: int| 0usize), n);
            let len = s.len() as int;
            &&& r.len() == s.len()
            &&& r[0] == s[n as int]
            &&& forall|m: int| 1 <= m < n ==> r[m] == s[m]
            &&& forall|m: int| n <= m < len - 1 ==> r[m] == s[m + 1]
            &&& r[len - 1] == s[0]
        }),
    decreases s.len() - n,
{
    let zeros = Seq::new(s.len(), |i: int| 0usize);
    let len = s.len() as int;
    assert(zeros[n as int] == 0);
    if n + 1 < s.len() {
        lemma_zero_draws_from(s, n + 1);
    } else {
        assert(shuffled_from(s, zeros, n + 1) == s);
    }
}

/// Drawing each position itself leaves the table as it was.
pub proof fn lemma_shuffle_own_draws_is_identity(s: Seq<usize>, n: nat)
    requires
        n >= 1,
        s.len() <= usize::MAX,
    ensures
        shuffled_from(s, Seq::new(s.len(), |i: int| i as usize), n) == s,
    decreases s.len() - n,
{
    let own = Seq::new(s.len(), |i: int| i as usize);
    if n < s.len() {
        lemma_shuffle_own_draws_is_identity(s, n + 1);
        assert(own[n as int] == n as usize);
        assert(spec_swap(s, n as int, n as int) =~= s);
    }
}

/// Swapping two entries keeps the multiset of entries, and keeps a
/// permutation of `0..n` a permutation of `0..n`.
proof fn lemma_swap_preserves(s: Seq<usize>, i: int, t: int)
    requires
        0 <= i < s.len(),
        0 <= t < s.len(),
    ensures
        ({
            let r = s.update(i, s[t]).update(t, s[i]);
            &&& r.len() == s.len()
            &&& r.to_multiset() == s.to_multiset()
            &&& forall|n: nat| is_index_permutation(s, n) ==> is_index_permutation(r, n)
        }),
{
    broadcast use vstd::multiset::group_multiset_properties;

    let a = s[i];
    let b = s[t];
    let s1 = s.update(i, b);
    let r = s1.update(t, a);
    assert(s1[t] == b);
    assert(s1.to_multiset() == s.to_multiset().insert(b).remove(a));
    assert(r.to_multiset() == s1.to_multiset().insert(a).remove(b));
    assert(s.to_multiset().count(a) > 0) by {
        assert(s.contains(a));
        vstd::seq_lib::to_multiset_contains(s, a);
    }
    assert(r.to_multiset() =~= s.to_multiset());
    assert forall|n: nat| is_index_permutation(s, n) implies is_index_permutation(r, n) by {
        assert forall|k: int| 0 <= k < r.len() implies (#[trigger] r[k]) < n by {
            if k == t {
            } else if k == i {
            } else {
                assert(r[k] == s[k]);
            }
        }
        assert forall|x: int, y: int|
            0 <= x < r.len() && 0 <= y < r.len() && x != y implies r[x] != r[y] by {
            let sx = if x == t {
                i
            } else if x == i {
                t
            } else {
                x
            };
            let sy = if y == t {
                i
            } else if y == i {
                t
            } else {
                y
            };
            assert(r[x] == s[sx]);
            assert(r[y] == s[sy]);
        }
        assert forall|v: usize| v < n implies #[trigger] r.contains(v) by {
            assert(s.contains(v));
            let w = choose|w: int| 0 <= w < s.len() && s[w] == v;
            let rw = if w == i {
                t
            } else if w == t {
                i
            } else {
                w
            };
            assert(r[rw] == v);
        }
    }
}

} // verus!
