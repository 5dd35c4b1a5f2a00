//! A linear congruential generator of 48 bits of state, and the random
//! grids drawn from it.

use crate::game_of_life::Cell;
use vstd::arithmetic::div_mod::{lemma_add_mod_noop_right, lemma_mod_mod};
use vstd::prelude::*;

verus! {

pub const MULTIPLIER: u64 = 25214903917;

pub const INCREMENT: u64 = 11;

pub const MODULUS: u64 = 0x1_0000_0000_0000;

/// The seed with which `random_cells` starts.
pub const GRID_SEED: u64 = 96155;

/// The state that follows `seed`.
pub open spec fn next_seed(seed: u64) -> u64 {
    ((MULTIPLIER * seed + INCREMENT) % (MODULUS as int)) as u64
}

/// The number that the generator hands out in the state `seed`: the bits
/// 16 to 47 of the state.
pub open spec fn output_of(seed: u64) -> u32 {
    ((seed / 0x1_0000) % 0x1_0000_0000) as u32
}

/// The state reached from `seed` in `steps` steps.
pub open spec fn seed_after(seed: u64, steps: nat) -> u64
    decreases steps,
{
    if steps == 0 {
        seed
    } else {
        next_seed(seed_after(seed, (steps - 1) as nat))
    }
}

/// The cell drawn for the number `n`: alive for an even one.
pub open spec fn cell_for(n: u32) -> Cell {
    if n % 2 == 0 {
        Cell::Alive
    } else {
        Cell::Dead
    }
}

/// The generator: `seed` is its state.
pub struct Rng {
    seed: u64,
}

impl Rng {
    /// The state of the generator.
    pub closed spec fn seed(&self) -> u64 {
        self.seed
    }

    pub fn new(seed: u64) -> (rng: Self)
        ensures
            rng.seed() == seed,
    {
        Self { seed }
    }

    /// Steps the generator and hands out the number of the new state.
    pub fn next_rnd(&mut self) -> (n: u32)
        ensures
            final(self).seed() == next_seed(old(self).seed()),
            n == output_of(final(self).seed()),
    {
        let product = MULTIPLIER.wrapping_mul(self.seed);
        let sum = product.wrapping_add(INCREMENT);
        proof {
            let exact = MULTIPLIER as int * self.seed as int;
            let range = 0x1_0000_0000_0000_0000int;
            assert(product == exact % range);
            assert(sum == (product + INCREMENT) % range);
            lemma_add_mod_noop_right(INCREMENT as int, exact, range);
            lemma_mod_mod(exact + INCREMENT, MODULUS as int, 0x1_0000);
            assert(MODULUS as int * 0x1_0000 == range);
        }
        self.seed = sum % MODULUS;
        let state = self.seed;
        assert((state >> 16) & 0xFFFFFFFF == (state / 0x1_0000) % 0x1_0000_0000) by (bit_vector);
        ((state >> 16) & 0xFFFFFFFF) as u32
    }

    /// The next number. There always is one.
    pub fn next(&mut self) -> (n: Option<u32>)
        ensures
            final(self).seed() == next_seed(old(self).seed()),
            n == Some(output_of(final(self).seed())),
    {
        Some(self.next_rnd())
    }
}

/// `num` cells drawn from the generator seeded with `GRID_SEED`.
pub fn random_cells(num: usize) -> (cells: Vec<Cell>)
    ensures
        cells@.len() == num,
        forall|i: int|
            0 <= i < num ==> #[trigger] cells@[i] == cell_for(
                output_of(seed_after(GRID_SEED, (i + 1) as nat)),
            ),
{
    let mut rng = Rng::new(GRID_SEED);
    let mut cells: Vec<Cell> = Vec::new();
    let mut i: usize = 0;
    while i < num
        invariant
            i <= num,
            cells@.len() == i,
            rng.seed() == seed_after(GRID_SEED, i as nat),
            forall|k: int|
                0 <= k < i ==> #[trigger] cells@[k] == cell_for(
                    output_of(seed_after(GRID_SEED, (k + 1) as nat)),
                ),
        decreases num - i,
    {
        if let Some(n) = rng.next() {
            let cell = if n % 2 == 0 {
                Cell::Alive
            } else {
                Cell::Dead
            };
            cells.push(cell);
        }
        i += 1;
    }
    cells
}

} // verus!
