//! The elementary cellular automata: a ring of binary cells and one of the
//! 256 rules that map a cell and its two neighbours to the cell's next state.

use vstd::arithmetic::div_mod::{
    lemma_div_denominator,
    lemma_mod_add_multiples_vanish,
    lemma_mod_self_0,
    lemma_small_mod,
};
use vstd::arithmetic::power2::{lemma_pow2_unfold, pow2};
use vstd::prelude::*;

verus! {

/// The state of one cell, as a viewer shows it.
#[derive(Debug, PartialEq, Eq, Clone, Copy, Structural)]
pub enum CellState {
    Alive,
    Dead,
}

/// Why no automaton was made.
#[derive(Debug, PartialEq, Eq, Clone, Copy, Structural)]
pub enum InitError {
    /// There is no cell.
    NoCells,
    /// A cell is neither 0 nor 1.
    NotBinary,
}

/// Bit `pattern` of `rule_no`, bit 0 being the least significant: the next
/// state under that rule of a cell whose neighbourhood reads `pattern`.
pub open spec fn rule_bit(rule_no: u8, pattern: nat) -> u8 {
    ((rule_no as nat / pow2(pattern)) % 2) as u8
}

/// The table of the rule `rule_no`: entry `i` is bit `i` of the number.
pub open spec fn rule_table(rule_no: u8) -> Seq<u8> {
    Seq::new(8, |i: int| rule_bit(rule_no, i as nat))
}

/// Every entry is 0 or 1.
pub open spec fn binary(cells: Seq<u8>) -> bool {
    forall|i: int| 0 <= i < cells.len() ==> #[trigger] cells[i] <= 1
}

/// The neighbourhood of the cell at `p` on the ring `cells`, read as the
/// three-bit number left, centre, right. The cell before the first is the
/// last, and the cell after the last is the first.
pub open spec fn neighborhood(cells: Seq<u8>, p: int) -> int {
    let n = cells.len() as int;
    4 * cells[(p - 1 + n) % n] + 2 * cells[p] + cells[(p + 1) % n]
}

/// The ring one generation on under `table`.
pub open spec fn next_row(cells: Seq<u8>, table: Seq<u8>) -> Seq<u8> {
    Seq::new(cells.len(), |p: int| table[neighborhood(cells, p)])
}

/// What a viewer shows for the bit `bit`.
pub open spec fn state_of(bit: u8) -> CellState {
    if bit == 1 {
        CellState::Alive
    } else {
        CellState::Dead
    }
}

/// An automaton as mathematics sees it.
pub struct Ring {
    pub cells: Seq<u8>,
    pub table: Seq<u8>,
}

impl Ring {
    /// There is a cell, the cells are binary, and so is the table of eight.
    pub open spec fn wf(self) -> bool {
        &&& self.cells.len() > 0
        &&& binary(self.cells)
        &&& self.table.len() == 8
        &&& binary(self.table)
    }

    pub open spec fn next(self) -> Ring {
        Ring { cells: next_row(self.cells, self.table), table: self.table }
    }

    /// The ring `steps` generations on.
    pub open spec fn advanced(self, steps: nat) -> Ring
        decreases steps,
    {
        if steps == 0 {
            self
        } else {
            self.advanced((steps - 1) as nat).next()
        }
    }
}

/// A step in time keeps the length, the table and the well-formedness of a
/// ring, and so do `steps` steps.
pub proof fn lemma_advanced(ring: Ring, steps: nat)
    requires
        ring.wf(),
    ensures
        ring.advanced(steps).wf(),
        ring.advanced(steps).cells.len() == ring.cells.len(),
        ring.advanced(steps).table == ring.table,
    decreases steps,
{
    if steps > 0 {
        lemma_advanced(ring, (steps - 1) as nat);
        let before = ring.advanced((steps - 1) as nat);
        assert forall|p: int| 0 <= p < before.cells.len() implies #[trigger] before.next().cells[p]
            <= 1 by {
            lemma_neighborhood(before.cells, p);
        }
    }
}

/// Under the table of rule `rule_no`, the cell at `p` becomes the bit of the
/// rule number that its neighbourhood, read as a number, points at.
pub proof fn lemma_rule_applies(rule_no: u8, cells: Seq<u8>, p: int)
    requires
        0 <= p < cells.len(),
        binary(cells),
    ensures
        next_row(cells, rule_table(rule_no))[p] == rule_bit(
            rule_no,
            neighborhood(cells, p) as nat,
        ),
        next_row(cells, rule_table(rule_no))[p] <= 1,
{
    lemma_neighborhood(cells, p);
}

/// The next generation depends on the ring and its rule alone: two automata
/// made alike are alike again after the same number of steps.
pub proof fn lemma_same_ring_same_future(a: ElemAutomata, b: ElemAutomata, steps: nat)
    requires
        a@ == b@,
    ensures
        a@.next() == b@.next(),
        a@.advanced(steps) == b@.advanced(steps),
{
}

/// The neighbourhood of a cell of a binary ring is one of the eight
/// patterns, and its neighbours are the cells beside it on the ring.
pub proof fn lemma_neighborhood(cells: Seq<u8>, p: int)
    requires
        0 <= p < cells.len(),
        binary(cells),
    ensures
        0 <= neighborhood(cells, p) < 8,
        (p - 1 + cells.len()) % (cells.len() as int) == (if p == 0 {
            cells.len() - 1
        } else {
            p - 1
        }),
        (p + 1) % (cells.len() as int) == (if p + 1 == cells.len() {
            0
        } else {
            p + 1
        }),
{
    let n = cells.len() as int;
    if p == 0 {
        lemma_small_mod((n - 1) as nat, n as nat);
    } else {
        lemma_mod_add_multiples_vanish(p - 1, n);
        lemma_small_mod((p - 1) as nat, n as nat);
    }
    if p + 1 == n {
        lemma_mod_self_0(n);
    } else {
        lemma_small_mod((p + 1) as nat, n as nat);
    }
}

/// A ring of cells with the table of its rule.
#[derive(Debug)]
pub struct ElemAutomata {
    cells: Vec<u8>,
    lookup_table: [u8; 8],
}

impl View for ElemAutomata {
    type V = Ring;

    closed spec fn view(&self) -> Ring {
        Ring { cells: self.cells@, table: self.lookup_table@ }
    }
}

impl ElemAutomata {
    pub open spec fn wf(&self) -> bool {
        self@.wf()
    }

    /// The automaton of rule `rule_no` on the ring `init_cells`.
    pub fn new(rule_no: u8, init_cells: &[u8]) -> (automaton: Result<Self, InitError>)
        ensures
            init_cells@.len() == 0 ==> automaton == Err::<Self, InitError>(InitError::NoCells),
            init_cells@.len() > 0 && !binary(init_cells@) ==> automaton == Err::<Self, InitError>(
                InitError::NotBinary,
            ),
            init_cells@.len() > 0 && binary(init_cells@) ==> automaton is Ok
                && automaton->Ok_0.wf() && automaton->Ok_0@ == (Ring {
                cells: init_cells@,
                table: rule_table(rule_no),
            }),
    {
        if init_cells.len() == 0 {
            return Err(InitError::NoCells);
        }
        let mut cells: Vec<u8> = Vec::new();
        let mut i: usize = 0;
        while i < init_cells.len()
            invariant
                i <= init_cells@.len(),
                cells@ == init_cells@.subrange(0, i as int),
                binary(cells@),
            decreases init_cells@.len() - i,
        {
            if init_cells[i] > 1 {
                return Err(InitError::NotBinary);
            }
            cells.push(init_cells[i]);
            i += 1;
        }
        assert(cells@ == init_cells@);
        Ok(Self { cells, lookup_table: Self::build_lookup_table(rule_no) })
    }

    /// The table of rule `rule_no`: entry `i` is bit `i` of the number.
    pub fn build_lookup_table(rule_no: u8) -> (table: [u8; 8])
        ensures
            table@ == rule_table(rule_no),
            binary(table@),
    {
        let mut out = [0u8;8];
        let mut n = rule_no;
        let mut i: usize = 0;
        proof {
            vstd::arithmetic::power2::lemma2_to64();
        }
        while i < 8
            invariant
                i <= 8,
                n == rule_no as nat / pow2(i as nat),
                forall|k: int| 0 <= k < i ==> #[trigger] out@[k] == rule_bit(rule_no, k as nat),
            decreases 8 - i,
        {
            proof {
                let m = n;
                assert(m & 1 == m % 2) by (bit_vector);
                assert(m >> 1 == m / 2) by (bit_vector);
                lemma_pow2_unfold((i + 1) as nat);
                vstd::arithmetic::power2::lemma_pow2_pos(i as nat);
                lemma_div_denominator(rule_no as int, pow2(i as nat) as int, 2);
            }
            out[i] = n & 1;
            n = n >> 1;
            i += 1;
        }
        assert(out@ == rule_table(rule_no));
        out
    }

    /// Goes one generation on: each cell becomes what the table holds for
    /// its neighbourhood as it was before the step.
    pub fn next_gen(&mut self)
        requires
            old(self).wf(),
        ensures
            final(self).wf(),
            final(self)@ == old(self)@.next(),
    {
        let n = self.cells.len();
        let mut new_cells: Vec<u8> = Vec::new();
        let mut p: usize = 0;
        while p < n
            invariant
                self.wf(),
                n == self@.cells.len(),
                p <= n,
                new_cells@.len() == p,
                binary(new_cells@),
                forall|k: int|
                    0 <= k < p ==> #[trigger] new_cells@[k] == self@.table[neighborhood(
                        self@.cells,
                        k,
                    )],
            decreases n - p,
        {
            proof {
                lemma_neighborhood(self@.cells, p as int);
            }
            let left = if p == 0 {
                self.cells[n - 1]
            } else {
                self.cells[p - 1]
            };
            let right = if p + 1 == n {
                self.cells[0]
            } else {
                self.cells[p + 1]
            };
            let pattern = (4 * left + 2 * self.cells[p] + right) as usize;
            new_cells.push(self.lookup_table[pattern]);
            p += 1;
        }
        self.cells = new_cells;
        assert(self@.cells == old(self)@.next().cells);
    }

    /// The cells as a viewer shows them.
    pub fn cells(&self) -> (states: Vec<CellState>)
        requires
            self.wf(),
        ensures
            states@ == self@.cells.map_values(|bit: u8| state_of(bit)),
    {
        let mut states: Vec<CellState> = Vec::new();
        let mut i: usize = 0;
        while i < self.cells.len()
            invariant
                i <= self.cells@.len(),
                states@.len() == i,
                forall|k: int| 0 <= k < i ==> #[trigger] states@[k] == state_of(self.cells@[k]),
            decreases self.cells@.len() - i,
        {
            let state = if self.cells[i] == 1 {
                CellState::Alive
            } else {
                CellState::Dead
            };
            states.push(state);
            i += 1;
        }
        assert(states@ == self@.cells.map_values(|bit: u8| state_of(bit)));
        states
    }

    /// The cells as the bits 0 and 1.
    pub fn bits(&self) -> (bits: &Vec<u8>)
        ensures
            bits@ == self@.cells,
    {
        &self.cells
    }
}

} // verus!
