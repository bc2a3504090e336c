use raytracer::perlin::{Perlin, POINT_COUNT};

fn is_permutation(p: &[i32]) -> bool {
    let mut seen = [false; POINT_COUNT];
    for &v in p {
        if v < 0 || v as usize >= POINT_COUNT || seen[v as usize] {
            return false;
        }
        seen[v as usize] = true;
    }
    p.len() == POINT_COUNT
}

#[test]
fn a_generated_table_is_a_permutation() {
    for _ in 0..20 {
        let p = Perlin::perlin_generate_perm();
        assert!(is_permutation(&p));
    }
}

#[test]
fn a_generated_table_is_shuffled() {
    let identity: Vec<i32> = (0..POINT_COUNT as i32).collect();
    for _ in 0..20 {
        let p = Perlin::perlin_generate_perm();
        assert_ne!(p.to_vec(), identity);
        assert!(p.iter().enumerate().all(|(i, &v)| v != i as i32));
    }
}

#[test]
fn two_tables_differ() {
    let a = Perlin::perlin_generate_perm();
    let b = Perlin::perlin_generate_perm();
    assert_ne!(a.to_vec(), b.to_vec());
}

#[test]
fn exchange_swaps_two_entries() {
    let mut p = [0i32; POINT_COUNT];
    for (i, v) in p.iter_mut().enumerate() {
        *v = i as i32;
    }
    Perlin::exchange(&mut p, 3, 200);
    assert_eq!(p[3], 200);
    assert_eq!(p[200], 3);
    assert_eq!(p[4], 4);
    assert!(is_permutation(&p));
    Perlin::exchange(&mut p, 7, 7);
    assert_eq!(p[7], 7);
}

#[test]
fn gradient_indices_stay_in_the_table() {
    let perlin = Perlin::new();
    for &i in &[i32::MIN, -257, -1, 0, 1, 255, 256, 1000, i32::MAX] {
        for &j in &[i32::MIN, -1, 0, 77, i32::MAX] {
            for &k in &[-300, 0, 5, i32::MAX] {
                assert!(perlin.gradient_index(i, j, k) < POINT_COUNT);
            }
        }
    }
}

#[test]
fn the_hash_repeats_every_point_count() {
    let perlin = Perlin::new();
    for i in -3..3 {
        assert_eq!(
            perlin.gradient_index(i, 2 * i, 5),
            perlin.gradient_index(i + 256, 2 * i - 256, 5 + 512)
        );
    }
}

#[test]
fn corners_are_the_hashes_of_the_eight_neighbours() {
    let perlin = Perlin::new();
    for &(i, j, k) in &[(0, 0, 0), (-1, -1, -1), (254, 255, 256), (i32::MAX - 1, i32::MIN, 12)] {
        let corners = perlin.corner_indices(i, j, k);
        for di in 0..2 {
            for dj in 0..2 {
                for dk in 0..2 {
                    assert_eq!(
                        corners[(4 * di + 2 * dj + dk) as usize],
                        perlin.gradient_index(i + di, j + dj, k + dk)
                    );
                }
            }
        }
    }
}

#[test]
fn the_default_tables_are_shuffled_like_new_ones() {
    let perlin = Perlin::default();
    let other = Perlin::default();
    let mut differs = false;
    for i in 0..256 {
        assert!(perlin.gradient_index(i, 0, 0) < POINT_COUNT);
        differs |= perlin.gradient_index(i, i, i) != other.gradient_index(i, i, i);
    }
    assert!(differs);
}
