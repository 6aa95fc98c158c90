use kagris::bag::bag_of;
use kagris::bag::rand_mino;
use kagris::mino::MinoType;

#[test]
fn all_minoes_is_different_in_each_bags() {
    for nth_bag in 0..64 {
        // First nth of each bag
        let each_bag_first_nth = nth_bag * 7;
        let seed = 123456789;

        let first = rand_mino(each_bag_first_nth, seed);
        let second = rand_mino(each_bag_first_nth + 1, seed);
        let third = rand_mino(each_bag_first_nth + 2, seed);
        let fourth = rand_mino(each_bag_first_nth + 3, seed);
        let fifth = rand_mino(each_bag_first_nth + 4, seed);
        let sixth = rand_mino(each_bag_first_nth + 5, seed);
        let seventh = rand_mino(each_bag_first_nth + 6, seed);

        assert_ne!(first, second);
        assert_ne!(first, third);
        assert_ne!(first, fourth);
        assert_ne!(first, fifth);
        assert_ne!(first, sixth);
        assert_ne!(first, seventh);

        assert_ne!(second, third);
        assert_ne!(second, fourth);
        assert_ne!(second, fifth);
        assert_ne!(second, sixth);
        assert_ne!(second, seventh);

        assert_ne!(third, fourth);
        assert_ne!(third, fifth);
        assert_ne!(third, sixth);
        assert_ne!(third, seventh);

        assert_ne!(fourth, fifth);
        assert_ne!(fourth, sixth);
        assert_ne!(fourth, seventh);

        assert_ne!(fifth, sixth);
        assert_ne!(fifth, seventh);

        assert_ne!(sixth, seventh);

        println!("{}th bag checked", nth_bag + 1);
    }
}

#[test]
fn rand_mino_is_deterministic() {
    for nth in 0..50 {
        for seed in [0u64, 1, 42, 123456789, 999999999] {
            assert_eq!(rand_mino(nth, seed), rand_mino(nth, seed));
        }
    }
}

#[test]
fn rand_mino_never_returns_garbage() {
    for nth in 0..200 {
        for seed in [0u64, 7, 123456789] {
            assert_ne!(rand_mino(nth, seed), MinoType::Garbage);
        }
    }
}

#[test]
fn bag_of_holds_each_kind_once() {
    for bag in 0..32 {
        for seed in [0u64, 5, 123456789] {
            let kinds = bag_of(bag, seed);
            assert_eq!(kinds.len(), 7);
            for kind in [
                MinoType::I,
                MinoType::O,
                MinoType::L,
                MinoType::J,
                MinoType::Z,
                MinoType::S,
                MinoType::T,
            ] {
                assert_eq!(kinds.iter().filter(|k| **k == kind).count(), 1);
            }
        }
    }
}

#[test]
fn bag_of_matches_rand_mino() {
    let seed = 123456789;
    for bag in 0..8 {
        let kinds = bag_of(bag, seed);
        for j in 0..7 {
            assert_eq!(kinds[j], rand_mino(7 * bag + j, seed));
        }
    }
}
