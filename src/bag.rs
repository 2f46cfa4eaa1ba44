//! The bag randomizer: every run of seven draws from a fresh bag holds each
//! kind exactly once.
use vstd::prelude::*;

use crate::pieces::PieceType;

verus! {

/// Multiplier of the linear congruential generator.
pub const RNG_MULTIPLIER: u64 = 6364136223846793005;

/// Increment of the linear congruential generator.
pub const RNG_INCREMENT: u64 = 1442695040888963407;

/// Number of piece kinds, and so the length of a bag.
pub const KIND_COUNT: usize = 7;

/// The generator's state after one step.
pub open spec fn rng_next_state(s: u64) -> u64 {
    s.wrapping_mul(RNG_MULTIPLIER).wrapping_add(RNG_INCREMENT)
}

/// A seedable pseudo-random source (a 64-bit linear congruential generator).
pub struct Rng {
    pub state: u64,
}

impl Rng {
    pub fn new(seed: u64) -> (r: Rng)
        ensures
            r.state == seed,
    {
        Rng { state: seed }
    }

    /// Steps the generator and returns a number below `bound` taken from the
    /// high bits of the new state.
    pub fn next_below(&mut self, bound: u64) -> (r: u64)
        requires
            bound > 0,
        ensures
            final(self).state == rng_next_state(old(self).state),
            r == (final(self).state >> 33u64) % bound,
            r < bound,
    {
        self.state = self.state.wrapping_mul(RNG_MULTIPLIER).wrapping_add(RNG_INCREMENT);
        (self.state >> 33u64) % bound
    }
}

/// The kinds in catalog order.
pub open spec fn all_kinds() -> Seq<PieceType> {
    seq![
        PieceType::Straight,
        PieceType::LLeft,
        PieceType::LRight,
        PieceType::Square,
        PieceType::S,
        PieceType::Z,
        PieceType::T,
    ]
}

/// Each of the seven kinds occurs exactly once.
pub open spec fn is_permutation(s: Seq<PieceType>) -> bool {
    &&& s.len() == KIND_COUNT
    &&& s.no_duplicates()
    &&& forall|k: PieceType| s.contains(k)
}

/// `s` with the elements at `i` and `j` exchanged.
pub open spec fn swapped(s: Seq<PieceType>, i: int, j: int) -> Seq<PieceType> {
    s.update(i, s[j]).update(j, s[i])
}

proof fn lemma_all_kinds_permutation()
    ensures
        is_permutation(all_kinds()),
{
    let s = all_kinds();
    assert forall|k: PieceType| s.contains(k) by {
        match k {
            PieceType::Straight => assert(s[0] == k),
            PieceType::LLeft => assert(s[1] == k),
            PieceType::LRight => assert(s[2] == k),
            PieceType::Square => assert(s[3] == k),
            PieceType::S => assert(s[4] == k),
            PieceType::Z => assert(s[5] == k),
            PieceType::T => assert(s[6] == k),
        }
    }
}

proof fn lemma_swap_permutation(s: Seq<PieceType>, i: int, j: int)
    requires
        is_permutation(s),
        0 <= i < s.len(),
        0 <= j < s.len(),
    ensures
        is_permutation(swapped(s, i, j)),
{
    let t = swapped(s, i, j);
    let sigma = |x: int| if x == i { j } else if x == j { i } else { x };
    assert forall|x: int| 0 <= x < t.len() implies #[trigger] t[x] == s[sigma(x)] by {}
    assert forall|k: PieceType| t.contains(k) by {
        assert(s.contains(k));
        let p = choose|p: int| 0 <= p < s.len() && s[p] == k;
        assert(t[sigma(p)] == k);
    }
    assert forall|a: int, b: int| 0 <= a < t.len() && 0 <= b < t.len() && a != b implies t[a] != t[b] by {
        assert(t[a] == s[sigma(a)]);
        assert(t[b] == s[sigma(b)]);
    }
}

/// The Fisher-Yates shuffle of the first `i` positions of `s`, driven by the
/// generator from `state`: position `i - 1` trades places with the position
/// drawn below `i`, then the first `i - 1` positions are shuffled on. Gives the
/// shuffled sequence and the generator's final state.
pub open spec fn fisher_yates(s: Seq<PieceType>, state: u64, i: nat) -> (Seq<PieceType>, u64)
    decreases i,
{
    if i == 0 {
        (s, state)
    } else {
        let st = rng_next_state(state);
        fisher_yates(swapped(s, i - 1, ((st >> 33u64) % (i as u64)) as int), st, (i - 1) as nat)
    }
}

/// Shuffles the kinds in place (Fisher-Yates, last index first).
pub fn shuffle(pieces: &mut Vec<PieceType>, rng: &mut Rng)
    requires
        is_permutation(old(pieces)@),
    ensures
        is_permutation(final(pieces)@),
        (final(pieces)@, final(rng).state) == fisher_yates(old(pieces)@, old(rng).state, old(pieces)@.len()),
{
    let mut i: usize = pieces.len();
    while i > 0
        invariant
            i <= pieces.len(),
            pieces@.len() == old(pieces)@.len(),
            is_permutation(pieces@),
            fisher_yates(pieces@, rng.state, i as nat) == fisher_yates(old(pieces)@, old(rng).state, old(pieces)@.len()),
        decreases i,
    {
        let ghost before = pieces@;
        let ghost state = rng.state;
        i -= 1;
        let j = rng.next_below(i as u64 + 1) as usize;
        let a = pieces[i];
        let b = pieces[j];
        proof {
            lemma_swap_permutation(pieces@, i as int, j as int);
        }
        pieces.set(i, b);
        pieces.set(j, a);
        assert(pieces@ =~= swapped(before, i as int, j as int));
        assert(rng.state == rng_next_state(state));
        assert(fisher_yates(before, state, (i + 1) as nat) == fisher_yates(pieces@, rng.state, i as nat));
    }
}

/// One permutation of the kinds, a cursor into it, and the source that
/// shuffles the next permutation.
pub struct Bag {
    pub pieces: Vec<PieceType>,
    pub index: usize,
    pub rng: Rng,
}

/// What one draw does: take the kind under the cursor and advance; when the
/// cursor has reached the end, first replace the bag with a new permutation and
/// restart at its head.
pub open spec fn draw_step(before: Bag, after: Bag, r: PieceType) -> bool {
    if before.index < before.pieces@.len() {
        &&& after.pieces@ == before.pieces@
        &&& after.index == before.index + 1
        &&& after.rng == before.rng
        &&& r == before.pieces@[before.index as int]
    } else {
        &&& (after.pieces@, after.rng.state) == fisher_yates(all_kinds(), before.rng.state, KIND_COUNT as nat)
        &&& is_permutation(after.pieces@)
        &&& after.index == 1
        &&& r == after.pieces@[0]
    }
}

impl Bag {
    /// The bag holds a permutation and the cursor lies within it.
    pub open spec fn wf(&self) -> bool {
        is_permutation(self.pieces@) && self.index <= self.pieces@.len()
    }

    /// A freshly shuffled bag with its cursor at the start.
    pub fn new(seed: u64) -> (r: Bag)
        ensures
            r.wf(),
            r.index == 0,
            (r.pieces@, r.rng.state) == fisher_yates(all_kinds(), seed, KIND_COUNT as nat),
    {
        let mut rng = Rng::new(seed);
        let pieces = Bag::new_bag(&mut rng);
        Bag { pieces, index: 0, rng }
    }

    /// A shuffled permutation of all kinds.
    pub fn new_bag(rng: &mut Rng) -> (r: Vec<PieceType>)
        ensures
            is_permutation(r@),
            (r@, final(rng).state) == fisher_yates(all_kinds(), old(rng).state, KIND_COUNT as nat),
    {
        let mut pieces = vec![
            PieceType::Straight,
            PieceType::LLeft,
            PieceType::LRight,
            PieceType::Square,
            PieceType::S,
            PieceType::Z,
            PieceType::T,
        ];
        proof {
            lemma_all_kinds_permutation();
            assert(pieces@ =~= all_kinds());
        }
        shuffle(&mut pieces, rng);
        pieces
    }

    /// The next kind, refilling the bag when it is used up.
    pub fn draw(&mut self) -> (r: PieceType)
        requires
            old(self).wf(),
        ensures
            final(self).wf(),
            draw_step(*old(self), *final(self), r),
    {
        if self.index >= self.pieces.len() {
            self.pieces = Bag::new_bag(&mut self.rng);
            self.index = 0;
        }
        let piece = self.pieces[self.index];
        self.index += 1;
        piece
    }
}

/// Seven consecutive draws that start at a bag boundary (a fresh bag, or one
/// whose permutation is used up) yield each kind exactly once.
pub proof fn lemma_bag_window(bags: Seq<Bag>, draws: Seq<PieceType>)
    requires
        bags.len() == KIND_COUNT + 1,
        draws.len() == KIND_COUNT,
        bags[0].wf(),
        bags[0].index == 0 || bags[0].index == bags[0].pieces@.len(),
        forall|i: int| 0 <= i < KIND_COUNT ==> draw_step(#[trigger] bags[i], bags[i + 1], draws[i]),
    ensures
        draws.len() == KIND_COUNT,
        draws.no_duplicates(),
        forall|k: PieceType| draws.contains(k),
{
    if bags[0].index == 0 {
        lemma_bag_walk(bags, draws, bags[0].pieces@, 0);
        assert(draws =~= bags[0].pieces@);
    } else {
        assert(draw_step(bags[0], bags[1], draws[0]));
        lemma_bag_walk(bags, draws, bags[1].pieces@, 1);
        assert(draws =~= bags[1].pieces@);
    }
}

proof fn lemma_bag_walk(bags: Seq<Bag>, draws: Seq<PieceType>, p: Seq<PieceType>, i: int)
    requires
        bags.len() == KIND_COUNT + 1,
        draws.len() == KIND_COUNT,
        p.len() == KIND_COUNT,
        0 <= i <= KIND_COUNT,
        bags[i].pieces@ == p,
        bags[i].index == i,
        forall|j: int| i <= j < KIND_COUNT ==> draw_step(#[trigger] bags[j], bags[j + 1], draws[j]),
    ensures
        forall|j: int| i <= j < KIND_COUNT ==> draws[j] == p[j],
    decreases KIND_COUNT - i,
{
    if i < KIND_COUNT {
        assert(draw_step(bags[i], bags[i + 1], draws[i]));
        lemma_bag_walk(bags, draws, p, i + 1);
    }
}

} // verus!
