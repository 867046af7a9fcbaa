use ray1week::perlin::{
    generate, identity, permute, shuffle_with, wrap_coordinate, Perlin, POINT_COUNT,
};
use ray1week::random::{random_child, UniformSphericalPDF};

fn is_permutation(table: &[u8]) -> bool {
    let mut seen = [false; 256];
    for &b in table {
        if seen[b as usize] {
            return false;
        }
        seen[b as usize] = true;
    }
    table.len() == 256
}

#[test]
fn identity_table_is_in_order() {
    let table = identity();
    assert_eq!(table.len(), POINT_COUNT);
    for (i, b) in table.iter().enumerate() {
        assert_eq!(*b as usize, i);
    }
}

#[test]
fn generated_tables_hold_every_byte_once() {
    for _ in 0..50 {
        let table = generate();
        assert!(is_permutation(&table));
    }
}

#[test]
fn generated_tables_leave_no_byte_in_place() {
    for _ in 0..50 {
        let table = generate();
        for (i, b) in table.iter().enumerate() {
            assert_ne!(*b as usize, i);
        }
    }
}

#[test]
fn shuffling_keeps_a_permutation_a_permutation() {
    let mut table = generate();
    permute(&mut table);
    permute(&mut table);
    assert!(is_permutation(&table));
}

#[test]
fn coordinates_wrap_to_their_last_eight_bits() {
    assert_eq!(wrap_coordinate(0), 0);
    assert_eq!(wrap_coordinate(255), 255);
    assert_eq!(wrap_coordinate(256), 0);
    assert_eq!(wrap_coordinate(257), 1);
    assert_eq!(wrap_coordinate(-1), 255);
    assert_eq!(wrap_coordinate(-256), 0);
    assert_eq!(wrap_coordinate(-257), 255);
    for c in [-1000isize, -513, -3, 7, 1027, isize::MAX, isize::MIN] {
        assert_eq!(wrap_coordinate(c), (c & 0xff) as usize);
    }
}

#[test]
fn gradient_numbers_are_the_exclusive_or_of_the_tables() {
    let perlin = Perlin::new();
    assert!(is_permutation(&perlin.perm_x));
    assert!(is_permutation(&perlin.perm_y));
    assert!(is_permutation(&perlin.perm_z));
    for (i, j, k) in [(0isize, 0isize, 0isize), (1, 2, 3), (-1, -2, -3), (300, -300, 255)] {
        let expected = perlin.perm_x[(i & 0xff) as usize]
            ^ perlin.perm_y[(j & 0xff) as usize]
            ^ perlin.perm_z[(k & 0xff) as usize];
        assert_eq!(perlin.gradient_index(i, j, k), expected);
    }
}

#[test]
fn cell_corners_are_listed_with_the_last_axis_fastest() {
    let perlin = Perlin::new();
    let (i, j, k) = (-4isize, 255isize, 17isize);
    let cell = perlin.cell_gradients(i, j, k);
    assert_eq!(cell.len(), 8);
    for di in 0..2isize {
        for dj in 0..2isize {
            for dk in 0..2isize {
                assert_eq!(
                    cell[(4 * di + 2 * dj + dk) as usize],
                    perlin.gradient_index(i + di, j + dj, k + dk)
                );
            }
        }
    }
}

#[test]
fn a_random_child_is_one_of_the_children() {
    for count in [1usize, 2, 5, 1000] {
        for _ in 0..200 {
            assert!(random_child(count) < count);
        }
    }
    assert_eq!(random_child(1), 0);
}

#[test]
fn every_child_is_picked_sooner_or_later() {
    let mut seen = [false; 4];
    for _ in 0..2000 {
        seen[random_child(4)] = true;
    }
    assert_eq!(seen, [true; 4]);
}

#[test]
fn the_uniform_density_is_a_unit() {
    assert_eq!(UniformSphericalPDF, UniformSphericalPDF);
}

#[test]
fn drawing_the_first_place_every_time_moves_every_byte_one_place_down() {
    let mut table = identity();
    shuffle_with(&mut table, &vec![0u8; 255]);
    for (place, byte) in table.iter().enumerate() {
        assert_eq!(*byte as usize, (place + 1) % 256);
    }
}

#[test]
fn drawing_the_place_before_every_time_moves_every_byte_one_place_up() {
    let draws: Vec<u8> = (0..255u32).map(|k| (254 - k) as u8).collect();
    let mut table = identity();
    shuffle_with(&mut table, &draws);
    for (place, byte) in table.iter().enumerate() {
        assert_eq!(*byte as usize, (place + 255) % 256);
    }
}

#[test]
fn a_shuffle_changes_each_place_with_the_place_drawn_for_it() {
    let mut draws = vec![0u8; 255];
    draws[0] = 7;
    draws[1] = 7;
    draws[254] = 0;
    let mut table = identity();
    let mut expected: Vec<u8> = table.clone();
    for k in 0..255usize {
        expected.swap(255 - k, draws[k] as usize);
    }
    shuffle_with(&mut table, &draws);
    assert_eq!(table, expected);
    assert_eq!(table[255], 7);
    assert_eq!(table[254], 255);
    assert!(is_permutation(&table));
}

#[test]
fn a_shuffle_of_any_table_uses_the_draws_alone() {
    let mut table: Vec<u8> = (0..256u32).map(|k| (255 - k) as u8).collect();
    shuffle_with(&mut table, &vec![0u8; 255]);
    for (place, byte) in table.iter().enumerate() {
        assert_eq!(*byte as usize, 255 - (place + 1) % 256);
    }
}

#[test]
fn fresh_tables_leave_no_byte_in_place() {
    for _ in 0..20 {
        let perlin = Perlin::new();
        for table in [&perlin.perm_x, &perlin.perm_y, &perlin.perm_z] {
            for (place, byte) in table.iter().enumerate() {
                assert_ne!(*byte as usize, place);
            }
        }
    }
}
