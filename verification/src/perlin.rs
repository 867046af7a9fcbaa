//! The lattice of gradient noise: three shuffled byte tables, and the hash
//! that picks a gradient for a lattice point.
use crate::random::random_u8_below;
use vstd::prelude::*;

verus! {

/// The number of lattice gradients, and the length of each table.
pub const POINT_COUNT: usize = 256;

/// `t` holds every byte exactly once.
pub open spec fn is_permutation(t: Seq<u8>) -> bool {
    &&& t.len() == 256
    &&& forall|i: int, j: int| 0 <= i < j < 256 ==> t[i] != t[j]
    &&& forall|v: u8| #[trigger] t.contains(v)
}

/// No byte of `t` stands at the place of its own value.
pub open spec fn is_derangement(t: Seq<u8>) -> bool {
    forall|i: int| 0 <= i < t.len() ==> #[trigger] t[i] != i
}

/// The table in which every byte stands at the place of its own value.
pub fn identity() -> (p: Vec<u8>)
    ensures
        is_identity(p@),
        is_permutation(p@),
{
    let mut p: Vec<u8> = Vec::new();
    let mut i: usize = 0;
    while i < 256
        invariant
            i <= 256,
            p@.len() == i,
            forall|k: int| 0 <= k < i ==> p@[k] == k,
        decreases 256 - i,
    {
        p.push(i as u8);
        i = i + 1;
    }
    proof {
        assert forall|v: u8| #[trigger] p@.contains(v) by {
            assert(p@[v as int] == v);
        }
    }
    p
}

/// `t` is the table in which every byte stands at the place of its own
/// value.
pub open spec fn is_identity(t: Seq<u8>) -> bool {
    t.len() == 256 && forall|i: int| 0 <= i < 256 ==> t[i] == i
}

/// The table `t` with the bytes at the places `i` and `j` changed over.
pub open spec fn swapped(t: Seq<u8>, i: int, j: int) -> Seq<u8> {
    t.update(i, t[j]).update(j, t[i])
}

/// The draws of a shuffle: one for each place from the last down to the
/// second, each a place before the one it is drawn for.
pub open spec fn draws_fit(draws: Seq<u8>) -> bool {
    &&& draws.len() == 255
    &&& forall|k: int| 0 <= k < 255 ==> #[trigger] draws[k] < 255 - k
}

/// The table `t` after the first `steps` steps of the shuffle with the
/// draws `draws`. Step number `k`, counted from zero, changes the byte at
/// place `255 - k` with the byte at the place `draws[k]`.
pub open spec fn shuffled(t: Seq<u8>, draws: Seq<u8>, steps: nat) -> Seq<u8>
    decreases steps,
{
    if steps == 0 {
        t
    } else {
        swapped(
            shuffled(t, draws, (steps - 1) as nat),
            256 - steps,
            draws[steps - 1] as int,
        )
    }
}

/// A shuffle keeps every byte of the table, each once. A table that starts
/// in order has, after any number of steps, no byte at its own place among
/// the places that the steps have reached, and after the last step none at
/// all.
pub proof fn lemma_shuffled(t: Seq<u8>, draws: Seq<u8>, steps: nat)
    requires
        is_permutation(t),
        draws_fit(draws),
        steps <= 255,
    ensures
        is_permutation(shuffled(t, draws, steps)),
        is_identity(t) ==> forall|k: int|
            0 <= k <= 255 - steps ==> shuffled(t, draws, steps)[k] == k || #[trigger] shuffled(
                t,
                draws,
                steps,
            )[k] > 255 - steps,
        is_identity(t) ==> forall|k: int|
            255 - steps < k < 256 ==> #[trigger] shuffled(t, draws, steps)[k] != k,
        is_identity(t) && steps == 255 ==> is_derangement(shuffled(t, draws, steps)),
    decreases steps,
{
    if steps > 0 {
        lemma_shuffled(t, draws, (steps - 1) as nat);
        let before = shuffled(t, draws, (steps - 1) as nat);
        let i = 256 - steps;
        let target = draws[steps - 1] as int;
        let after = shuffled(t, draws, steps);
        assert(0 <= target < i < 256);
        assert(after == swapped(before, i, target));
        assert forall|v: u8| #[trigger] after.contains(v) by {
            assert(before.contains(v));
            let k0 = choose|k: int| 0 <= k < 256 && before[k] == v;
            if k0 == i {
                assert(after[target] == v);
            } else if k0 == target {
                assert(after[i] == v);
            } else {
                assert(after[k0] == v);
            }
        }
        if is_identity(t) {
            assert(before[i] == i || before[i] > i);
            assert(before[target] == target || before[target] > i);
            if steps == 255 {
                assert(after[0] != 0);
            }
        }
    }
}

/// Shuffles the table in place with the draws `draws`: from the last place
/// down to the second, each place changes its byte with the place that was
/// drawn for it.
pub fn shuffle_with(p: &mut Vec<u8>, draws: &Vec<u8>)
    requires
        old(p)@.len() == 256,
        draws_fit(draws@),
    ensures
        final(p)@ == shuffled(old(p)@, draws@, 255),
{
    let ghost start = p@;
    let mut i: usize = 255;
    while i > 0
        invariant
            i <= 255,
            p@.len() == 256,
            draws_fit(draws@),
            p@ == shuffled(start, draws@, (255 - i) as nat),
        decreases i,
    {
        let target = draws[255 - i] as usize;
        let a = p[i];
        let b = p[target];
        let ghost before = p@;
        p[i] = b;
        p[target] = a;
        proof {
            assert(p@ =~= swapped(before, i as int, target as int));
        }
        i = i - 1;
    }
}

/// Shuffles the table in place. From the last place down to the second,
/// each place changes its byte with a place before it that is picked at
/// random. A table that starts in order ends with no byte at its own place.
pub fn permute(p: &mut Vec<u8>)
    requires
        is_permutation(old(p)@),
    ensures
        is_permutation(final(p)@),
        is_identity(old(p)@) ==> is_derangement(final(p)@),
        exists|draws: Seq<u8>| draws_fit(draws) && final(p)@ == shuffled(old(p)@, draws, 255),
{
    let mut draws: Vec<u8> = Vec::new();
    let mut i: usize = 255;
    while i > 0
        invariant
            i <= 255,
            draws@.len() == 255 - i,
            forall|k: int| 0 <= k < draws@.len() ==> #[trigger] draws@[k] < 255 - k,
        decreases i,
    {
        draws.push(random_u8_below(i as u8));
        i = i - 1;
    }
    shuffle_with(p, &draws);
    proof {
        lemma_shuffled(old(p)@, draws@, 255);
        assert(draws_fit(draws@) && p@ == shuffled(old(p)@, draws@, 255));
    }
}

/// A table in which every byte stands once, in random order: the table in
/// order, shuffled. No byte is left at its own place.
pub fn generate() -> (p: Vec<u8>)
    ensures
        is_permutation(p@),
        is_derangement(p@),
        exists|start: Seq<u8>, draws: Seq<u8>|
            is_identity(start) && draws_fit(draws) && p@ == shuffled(start, draws, 255),
{
    let mut p = identity();
    let ghost start = p@;
    permute(&mut p);
    proof {
        let draws = choose|draws: Seq<u8>| draws_fit(draws) && p@ == shuffled(start, draws, 255);
        assert(is_identity(start) && draws_fit(draws) && p@ == shuffled(start, draws, 255));
    }
    p
}

/// The place in a table of the lattice coordinate `c`: its last eight bits.
pub open spec fn wrap(c: int) -> int {
    c % 256
}

/// The place in a table of the lattice coordinate `c`.
pub fn wrap_coordinate(c: isize) -> (r: usize)
    ensures
        r == wrap(c as int),
        r < 256,
{
    let m: isize = c % 256;
    if m < 0 {
        (m + 256) as usize
    } else {
        m as usize
    }
}

/// The three shuffled tables of a noise lattice.
#[derive(Debug)]
pub struct Perlin {
    pub perm_x: Vec<u8>,
    pub perm_y: Vec<u8>,
    pub perm_z: Vec<u8>,
}

impl Perlin {
    /// Each table holds every byte exactly once.
    pub open spec fn wf(&self) -> bool {
        is_permutation(self.perm_x@) && is_permutation(self.perm_y@) && is_permutation(
            self.perm_z@,
        )
    }

    /// The number of the gradient at the lattice point `(i, j, k)`: the
    /// bytes that the tables hold at the three coordinates, combined bit by
    /// bit with exclusive or.
    pub open spec fn hash(&self, i: int, j: int, k: int) -> u8 {
        self.perm_x@[wrap(i)] ^ self.perm_y@[wrap(j)] ^ self.perm_z@[wrap(k)]
    }

    /// Three fresh tables, in none of which a byte stands at its own place.
    pub fn new() -> (r: Perlin)
        ensures
            r.wf(),
            is_derangement(r.perm_x@),
            is_derangement(r.perm_y@),
            is_derangement(r.perm_z@),
    {
        let perm_x = generate();
        let perm_y = generate();
        let perm_z = generate();
        Perlin { perm_x, perm_y, perm_z }
    }

    /// The number of the gradient at the lattice point `(i, j, k)`.
    pub fn gradient_index(&self, i: isize, j: isize, k: isize) -> (r: u8)
        requires
            self.wf(),
        ensures
            r == self.hash(i as int, j as int, k as int),
    {
        self.perm_x[wrap_coordinate(i)] ^ self.perm_y[wrap_coordinate(j)]
            ^ self.perm_z[wrap_coordinate(k)]
    }

    /// The numbers of the gradients at the eight corners of the lattice cell
    /// whose lowest corner is `(i, j, k)`. The corner that lies `di`, `dj`
    /// and `dk` steps further along the axes, each of them zero or one,
    /// stands at place `4 * di + 2 * dj + dk`.
    pub fn cell_gradients(&self, i: isize, j: isize, k: isize) -> (r: Vec<u8>)
        requires
            self.wf(),
            i < isize::MAX,
            j < isize::MAX,
            k < isize::MAX,
        ensures
            r@.len() == 8,
            forall|di: int, dj: int, dk: int|
                0 <= di <= 1 && 0 <= dj <= 1 && 0 <= dk <= 1 ==> #[trigger] r@[4 * di + 2 * dj
                    + dk] == self.hash(i + di, j + dj, k + dk),
    {
        let mut r: Vec<u8> = Vec::new();
        r.push(self.gradient_index(i, j, k));
        r.push(self.gradient_index(i, j, k + 1));
        r.push(self.gradient_index(i, j + 1, k));
        r.push(self.gradient_index(i, j + 1, k + 1));
        r.push(self.gradient_index(i + 1, j, k));
        r.push(self.gradient_index(i + 1, j, k + 1));
        r.push(self.gradient_index(i + 1, j + 1, k));
        r.push(self.gradient_index(i + 1, j + 1, k + 1));
        r
    }
}

} // verus!
