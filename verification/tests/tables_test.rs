use cannon::bitboard::BitBoard;
use cannon::color::Color;
use cannon::geometry::{direction_to_index, square_distance, Relation};
use cannon::square::Square;
use cannon::tables::{
    between, diagonals, distance_dir_ring, distance_index, distance_ring, distance_square, front,
    generate_between, generate_diagonals, generate_distance_rings, generate_distances,
    generate_front, generate_orthogonals, generate_retreats, generate_shots, generate_sides, init,
    orthogonals, retreats, shot_blocker, shot_body, shot_targets, sides,
};

fn sq(name: &str) -> Square {
    let b = name.as_bytes();
    Square::new((b[0] - b'a') + 8 * (b[1] - b'1'))
}

fn set_of(names: &[&str]) -> BitBoard {
    let mut b = BitBoard::empty();
    for n in names {
        b = b.union(BitBoard::from_square(sq(n)));
    }
    b
}

#[test]
fn tables_test() {
    let tables = init();
    let middle = Square::new(Square::D4);
    let middle_bb = BitBoard::from_square(middle);
    for i in 0..8 {
        println!(
            "{}",
            shot_targets(&tables, middle, i)
                .union(shot_body(&tables, middle, i))
                .union(middle_bb)
                .to_string()
        );
    }
}

#[test]
fn front_sides_and_retreats() {
    let t = init();
    assert_eq!(front(&t, Color::White, sq("d4")), set_of(&["c5", "d5", "e5"]));
    assert_eq!(front(&t, Color::Black, sq("d4")), set_of(&["c3", "d3", "e3"]));
    assert_eq!(front(&t, Color::White, sq("a1")), set_of(&["a2", "b2"]));
    assert_eq!(front(&t, Color::White, sq("h8")), BitBoard::empty());
    assert_eq!(front(&t, Color::Black, sq("a1")), BitBoard::empty());
    assert_eq!(sides(&t, Color::White, sq("d4")), set_of(&["c4", "e4"]));
    assert_eq!(sides(&t, Color::Black, sq("a4")), set_of(&["b4"]));
    assert_eq!(sides(&t, Color::White, sq("h1")), set_of(&["g1"]));
    assert_eq!(retreats(&t, Color::White, sq("d4")), set_of(&["b2", "d2", "f2"]));
    assert_eq!(retreats(&t, Color::Black, sq("d4")), set_of(&["b6", "d6", "f6"]));
    assert_eq!(retreats(&t, Color::White, sq("a3")), set_of(&["a1", "c1"]));
    assert_eq!(retreats(&t, Color::White, sq("d2")), BitBoard::empty());
}

#[test]
fn distances_and_rings() {
    let t = init();
    assert_eq!(distance_square(&t, sq("a1"), sq("h8")), 7);
    assert_eq!(distance_square(&t, sq("a1"), sq("a1")), 0);
    assert_eq!(distance_square(&t, sq("b3"), sq("e4")), 3);
    assert_eq!(distance_index(&t, 9, 27), 2);
    assert_eq!(square_distance(sq("h1"), sq("a2")), 7);
    assert_eq!(
        distance_ring(&t, sq("a1"), 1),
        set_of(&["a2", "b2", "b1"])
    );
    assert_eq!(distance_ring(&t, sq("d4"), 1).count_bits(), 8);
    assert_eq!(distance_ring(&t, sq("d4"), 2).count_bits(), 16);
    assert_eq!(distance_ring(&t, sq("d4"), 3).count_bits(), 24);
    assert_eq!(distance_ring(&t, sq("d4"), 4).count_bits(), 15);
    assert_eq!(distance_ring(&t, sq("d4"), 5), BitBoard::empty());
    assert_eq!(distance_ring(&t, sq("a1"), 7).count_bits(), 15);
    assert_eq!(
        distance_dir_ring(&t, sq("d4"), 3),
        set_of(&["a1", "d1", "g1", "a4", "g4", "a7", "d7", "g7"])
    );
    assert_eq!(distance_dir_ring(&t, sq("a1"), 2), set_of(&["a3", "c3", "c1"]));
}

#[test]
fn lines_and_squares_between() {
    let t = init();
    assert_eq!(
        diagonals(&t, sq("c2")),
        set_of(&["b1", "d3", "e4", "f5", "g6", "h7", "d1", "b3", "a4"])
    );
    assert_eq!(orthogonals(&t, sq("a1")).count_bits(), 14);
    assert_eq!(
        orthogonals(&t, sq("b2")),
        set_of(&["a2", "c2", "d2", "e2", "f2", "g2", "h2", "b1", "b3", "b4", "b5", "b6", "b7", "b8"])
    );
    assert_eq!(between(&t, sq("a1"), sq("d4")), set_of(&["b2", "c3"]));
    assert_eq!(between(&t, sq("d4"), sq("a1")), set_of(&["b2", "c3"]));
    assert_eq!(between(&t, sq("a1"), sq("a4")), set_of(&["a2", "a3"]));
    assert_eq!(between(&t, sq("h4"), sq("e4")), set_of(&["g4", "f4"]));
    assert_eq!(between(&t, sq("a1"), sq("b2")), BitBoard::empty());
    assert_eq!(between(&t, sq("a1"), sq("b3")), BitBoard::empty());
    assert_eq!(between(&t, sq("a1"), sq("a1")), BitBoard::empty());
    assert_eq!(between(&t, sq("d4"), sq("d2")), set_of(&["d3"]));
    assert_eq!(between(&t, sq("c6"), sq("e4")), set_of(&["d5"]));
}

#[test]
fn shot_tables_by_direction() {
    let t = init();
    let d4 = sq("d4");
    let blockers = ["e5", "e4", "e3", "d5", "d3", "c5", "c4", "c3"];
    let tails = ["b2", "b4", "b6", "d2", "d6", "f2", "f4", "f6"];
    let inner = ["c3", "c4", "c5", "d3", "d5", "e3", "e4", "e5"];
    let near = ["f6", "f4", "f2", "d6", "d2", "b6", "b4", "b2"];
    let far = ["g7", "g4", "g1", "d7", "d1", "a7", "a4", "a1"];
    for d in 0..8usize {
        assert_eq!(shot_blocker(&t, d4, d), set_of(&[blockers[d]]));
        assert_eq!(shot_body(&t, d4, d), set_of(&[tails[d], inner[d]]));
        assert_eq!(shot_targets(&t, d4, d), set_of(&[near[d], far[d]]));
    }
    assert_eq!(shot_body(&t, sq("b2"), 0), BitBoard::empty());
    assert_eq!(shot_targets(&t, sq("b2"), 0), set_of(&["d4", "e5"]));
    assert_eq!(shot_blocker(&t, sq("h8"), 0), BitBoard::empty());
    assert_eq!(shot_targets(&t, sq("g7"), 0), BitBoard::empty());
    assert_eq!(shot_targets(&t, sq("f6"), 0), set_of(&["h8"]));
    assert_eq!(shot_body(&t, sq("c3"), 0), set_of(&["a1", "b2"]));
}

#[test]
fn generated_tables_have_their_sizes() {
    assert_eq!(generate_front().len(), 128);
    assert_eq!(generate_sides().len(), 128);
    assert_eq!(generate_retreats().len(), 128);
    assert_eq!(generate_distances().len(), 4096);
    assert_eq!(generate_distance_rings().len(), 448);
    assert_eq!(generate_diagonals().len(), 64);
    assert_eq!(generate_orthogonals().len(), 64);
    assert_eq!(generate_between().len(), 4096);
    assert_eq!(generate_shots().len(), 1536);
    assert_eq!(generate_front()[64 + 27], set_of(&["c3", "d3", "e3"]));
    assert_eq!(generate_distances()[9 * 64 + 27], 2);
}

#[test]
fn relations_decide_and_list() {
    let d4 = sq("d4");
    assert!(Relation::Front(Color::White).related(d4, sq("e5")));
    assert!(!Relation::Front(Color::White).related(d4, sq("e3")));
    assert!(Relation::Between(sq("g7")).related(d4, sq("f6")));
    assert!(!Relation::Between(sq("g7")).related(d4, sq("g7")));
    assert!(Relation::Target(0).related(d4, sq("g7")));
    assert!(!Relation::Target(0).related(d4, sq("e5")));
    assert_eq!(Relation::Ring(1).row(sq("h8")), set_of(&["g8", "g7", "h7"]));
    assert_eq!(Relation::Body(7).row(d4), set_of(&["e5", "f6"]));
}

#[test]
fn directions_by_the_signs_of_the_differences() {
    let d4 = sq("d4");
    let around = ["e5", "e4", "e3", "d5", "d3", "c5", "c4", "c3"];
    for (d, name) in around.iter().enumerate() {
        assert_eq!(direction_to_index(d4, sq(name)), d);
    }
    assert_eq!(direction_to_index(sq("a1"), sq("h8")), 0);
    assert_eq!(direction_to_index(sq("a1"), sq("h2")), 0);
    assert_eq!(direction_to_index(sq("h8"), sq("a1")), 7);
    assert_eq!(direction_to_index(sq("b7"), sq("b1")), 4);
    let t = init();
    for d in 0..8usize {
        let blocker = shot_blocker(&t, d4, d).to_square();
        assert_eq!(direction_to_index(d4, blocker), d);
    }
}
