use cellular_automata::game_of_life::Cell;
use cellular_automata::rng::{random_cells, Rng, GRID_SEED, INCREMENT, MODULUS, MULTIPLIER};

#[test]
fn the_generator_hands_out_the_known_numbers() {
    let mut rng = Rng::new(96155);
    let expected: [u32; 8] = [
        2635792121, 893811092, 2148372472, 3982203620, 1786877565, 2729234446, 4102524752,
        3771907195,
    ];
    for n in expected {
        assert_eq!(n, rng.next_rnd());
    }
}

#[test]
fn the_product_wraps_at_64_bits() {
    let mut rng = Rng::new(u64::MAX);
    assert_eq!(4294582547, rng.next_rnd());
}

#[test]
fn a_seed_of_zero_gives_the_increment() {
    let mut rng = Rng::new(0);
    assert_eq!(0, rng.next_rnd());
    // The state is now 11: the next one is 11 * 25214903917 + 11.
    assert_eq!(((11u64 * 25214903917 + 11) >> 16) as u32, rng.next_rnd());
}

#[test]
fn next_always_has_a_number() {
    let mut a = Rng::new(5);
    let mut b = Rng::new(5);
    for _ in 0..100 {
        assert_eq!(Some(a.next_rnd()), b.next());
    }
}

#[test]
fn the_constants_are_those_of_the_generator() {
    assert_eq!(25214903917, MULTIPLIER);
    assert_eq!(11, INCREMENT);
    assert_eq!(1u64 << 48, MODULUS);
    assert_eq!(96155, GRID_SEED);
}

#[test]
fn random_cells_are_alive_for_even_numbers() {
    let a = Cell::Alive;
    let d = Cell::Dead;
    assert_eq!(vec![d, a, a, a, d, a, a, d], random_cells(8));
    assert_eq!(Vec::<Cell>::new(), random_cells(0));
    assert_eq!(vec![d], random_cells(1));
    assert_eq!(1000, random_cells(1000).len());
    assert_eq!(random_cells(50), random_cells(50));
}
