use voxel_core::world::generation::sample_elevation;
use voxel_core::world::generation::sample_tree;

#[test]
fn elevation_deterministic() {
    for (x, z) in [(0i64, 0i64), (5, -7), (1000, 1000), (-123456, 654321)] {
        let a = sample_elevation(x, z);
        let b = sample_elevation(x, z);
        assert_eq!(a, b);
    }
}

#[test]
fn elevation_bounds() {
    for x in -50i64..50 {
        for z in -50i64..50 {
            let e = sample_elevation(x * 97, z * 89);
            assert!(e >= 15 && e <= 125);
        }
    }
}

#[test]
fn elevation_varies() {
    // a coherent field is not constant
    let mut seen = std::collections::HashSet::new();
    for x in 0i64..40 {
        seen.insert(sample_elevation(x * 137, x * 53));
    }
    assert!(seen.len() > 1);
}

#[test]
fn elevation_coherent() {
    // neighbouring columns differ by a bounded step: the field interpolates
    for x in 0i64..200 {
        let a = sample_elevation(x, 7) as i32;
        let b = sample_elevation(x + 1, 7) as i32;
        assert!((a - b).abs() <= 12);
    }
}

#[test]
fn tree_deterministic() {
    for (x, z) in [(0i64, 0i64), (15, 3), (-400, 28)] {
        assert_eq!(sample_tree(x, z), sample_tree(x, z));
    }
}

#[test]
fn tree_rate_plausible() {
    // about 0.8% of columns carry a tree
    let mut count = 0u32;
    for x in 0i64..200 {
        for z in 0i64..100 {
            if sample_tree(x, z) {
                count += 1;
            }
        }
    }
    assert!(count >= 20, "tree count {}", count);
    assert!(count <= 1000, "tree count {}", count);
}

#[test]
fn shared_boundary_agreement() {
    // columns on a chunk boundary sample the same height regardless of
    // which side asks
    for z in -20i64..20 {
        let from_left = sample_elevation(16, z);
        let from_right = sample_elevation(16, z);
        assert_eq!(from_left, from_right);
    }
}

#[test]
fn tree_positions_pinned() {
    // exact positions of the first trees in the scanned region: these pin
    // the seeded generator's output, so a draw that merely echoed its seed
    // would place trees elsewhere and fail here
    for (x, z) in [(167i64, 0i64), (81, 1), (159, 1), (170, 1), (35, 2), (68, 2)] {
        assert!(sample_tree(x, z), "expected a tree at ({}, {})", x, z);
    }
    for (x, z) in [(0i64, 0i64), (166, 0), (168, 0), (80, 1), (82, 1), (1, 2)] {
        assert!(!sample_tree(x, z), "expected no tree at ({}, {})", x, z);
    }
}
