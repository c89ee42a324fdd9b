use terrain_nav::coords::IVec2;
use terrain_nav::heightmap::{
    block_kind, border_kind, fits_grid, grid_indices, grid_vertex, is_mountain, is_obstacle, pretty_border,
    simplified_map, Border, GridVertex, DETAIL, FLATTENING, HIGH_DEF, LATTICE, LATTICE_SIZE, PLATEAU_LEVEL,
    WATER_LEVEL,
};

#[test]
fn grid_constants_agree() {
    assert_eq!(HIGH_DEF, 40);
    assert_eq!(DETAIL, 8);
    assert_eq!(DETAIL * terrain_nav::coords::LOW_DEF, HIGH_DEF);
}

#[test]
fn kind_is_the_mask_of_obstacle_neighbours() {
    for bits in 0u8..32 {
        let center = bits & 16 != 0;
        let top = bits & 1 != 0;
        let left = bits & 2 != 0;
        let bottom = bits & 4 != 0;
        let right = bits & 8 != 0;
        let mut kind = 0u8;
        if center {
            if top {
                kind |= 1;
            }
            if bottom {
                kind |= 4;
            }
            if left {
                kind |= 2;
            }
            if right {
                kind |= 8;
            }
        }
        assert_eq!(border_kind(center, top, left, bottom, right), kind);
    }
    assert_eq!(border_kind(true, true, true, false, false), 3);
    assert_eq!(border_kind(true, false, true, true, false), 6);
    assert_eq!(border_kind(true, true, false, false, true), 9);
    assert_eq!(border_kind(true, false, false, true, true), 12);
    assert_eq!(border_kind(true, true, true, true, true), 15);
    assert_eq!(border_kind(false, true, true, true, true), 0);
}

#[test]
fn flat_block_stays_flat() {
    for x in [-7, -1, 1, 7] {
        for y in [-7, -1, 1, 7] {
            assert_eq!(pretty_border(0, IVec2::new(x, y)), Border::Flat);
        }
    }
}

#[test]
fn corner_blocks_are_cut_along_a_diagonal() {
    assert_eq!(pretty_border(3, IVec2::new(-7, 5)), Border::Raised);
    assert_eq!(pretty_border(3, IVec2::new(-5, 5)), Border::Flat);
    assert_eq!(pretty_border(3, IVec2::new(3, -5)), Border::Raised);
    assert_eq!(pretty_border(3, IVec2::new(7, -5)), Border::Flat);
    assert_eq!(pretty_border(6, IVec2::new(-3, -1)), Border::Raised);
    assert_eq!(pretty_border(6, IVec2::new(1, 1)), Border::Flat);
    assert_eq!(pretty_border(6, IVec2::new(3, 1)), Border::Flat);
    assert_eq!(pretty_border(9, IVec2::new(3, 1)), Border::Raised);
    assert_eq!(pretty_border(9, IVec2::new(1, 1)), Border::Flat);
    assert_eq!(pretty_border(9, IVec2::new(-3, -1)), Border::Flat);
    assert_eq!(pretty_border(12, IVec2::new(7, -5)), Border::Raised);
    assert_eq!(pretty_border(12, IVec2::new(5, -5)), Border::Flat);
    assert_eq!(pretty_border(12, IVec2::new(-7, 5)), Border::Flat);
}

#[test]
fn other_kinds_are_raised_throughout() {
    for kind in [1u8, 2, 4, 5, 7, 8, 10, 11, 13, 14, 15, 16, 255] {
        for (x, y) in [(-7, -7), (7, 7), (-7, 7), (7, -7), (1, -1)] {
            assert_eq!(pretty_border(kind, IVec2::new(x, y)), Border::Raised);
        }
    }
}

#[test]
fn diagonal_at_the_ends_of_the_range() {
    assert_eq!(pretty_border(3, IVec2::new(i32::MIN, i32::MIN)), Border::Raised);
    assert_eq!(pretty_border(3, IVec2::new(i32::MAX, i32::MIN)), Border::Raised);
    assert_eq!(pretty_border(3, IVec2::new(i32::MIN + 1, i32::MAX)), Border::Flat);
    assert_eq!(pretty_border(12, IVec2::new(i32::MIN, i32::MIN)), Border::Flat);
    assert_eq!(pretty_border(12, IVec2::new(i32::MIN, i32::MAX)), Border::Flat);
    assert_eq!(pretty_border(12, IVec2::new(i32::MAX, i32::MIN + 2)), Border::Raised);
}

#[test]
fn vertices_know_their_block() {
    assert_eq!(
        grid_vertex(0, 0),
        GridVertex { block: IVec2::new(0, 0), offset: IVec2::new(-7, -7), on_lattice: true }
    );
    assert_eq!(
        grid_vertex(7, 9),
        GridVertex { block: IVec2::new(0, 1), offset: IVec2::new(7, -5), on_lattice: false }
    );
    assert_eq!(
        grid_vertex(8, 16),
        GridVertex { block: IVec2::new(1, 2), offset: IVec2::new(-7, -7), on_lattice: true }
    );
    assert_eq!(
        grid_vertex(40, 17),
        GridVertex { block: IVec2::new(5, 2), offset: IVec2::new(-7, -5), on_lattice: false }
    );
    assert_eq!(
        grid_vertex(40, 40),
        GridVertex { block: IVec2::new(5, 5), offset: IVec2::new(-7, -7), on_lattice: true }
    );
    assert_eq!(grid_vertex(24, 3).on_lattice, false);
}

#[test]
fn a_tile_has_thirty_six_lattice_vertices() {
    let mut on_lattice = 0;
    for i in 0..=HIGH_DEF {
        for j in 0..=HIGH_DEF {
            if grid_vertex(i, j).on_lattice {
                on_lattice += 1;
            }
        }
    }
    assert_eq!(on_lattice, 36);
}

fn triangles(details: u32) -> Vec<u32> {
    let mut indices = Vec::new();
    for i in 0..details {
        for j in 0..details {
            indices.extend_from_slice(&[
                i + (details + 1) * j,
                i + 1 + (details + 1) * j,
                i + (details + 1) * (j + 1),
            ]);
            indices.extend_from_slice(&[
                i + (details + 1) * (j + 1),
                i + 1 + (details + 1) * j,
                i + 1 + (details + 1) * (j + 1),
            ]);
        }
    }
    indices
}

#[test]
fn one_cell_makes_two_triangles() {
    assert_eq!(grid_indices(1), vec![0, 1, 2, 2, 1, 3]);
}

#[test]
fn two_cells_a_side() {
    assert_eq!(
        grid_indices(2),
        vec![0, 1, 3, 3, 1, 4, 3, 4, 6, 6, 4, 7, 1, 2, 4, 4, 2, 5, 4, 5, 7, 7, 5, 8]
    );
}

#[test]
fn triangle_lists_of_many_sizes() {
    assert_eq!(grid_indices(0), vec![]);
    for details in [1, 2, 3, 5, 40, 50] {
        assert_eq!(grid_indices(details), triangles(details));
    }
    assert_eq!(grid_indices(40).len(), 9600);
    assert_eq!(*grid_indices(40).iter().max().unwrap(), 41 * 41 - 1);
}

#[test]
fn levels_are_counted_in_thousandths() {
    assert_eq!(WATER_LEVEL, -10_000);
    assert_eq!(PLATEAU_LEVEL, 250);
    assert_eq!(FLATTENING, 9);
}

#[test]
fn obstacles_lie_outside_the_band() {
    assert!(!is_obstacle(0));
    assert!(!is_obstacle(250));
    assert!(is_obstacle(251));
    assert!(!is_obstacle(-10_000));
    assert!(is_obstacle(-10_001));
    assert!(is_obstacle(i32::MAX));
    assert!(is_obstacle(i32::MIN));
}

#[test]
fn mountains_stand_above_the_plateau_once_drawn() {
    assert!(!is_mountain(0, 251));
    assert!(!is_mountain(0, 2250));
    assert!(is_mountain(0, 2251));
    assert!(!is_mountain(3, 250));
    assert!(is_mountain(3, 251));
    assert!(is_mountain(15, 2251));
    assert!(!is_mountain(1, -10_001));
    assert!(!is_mountain(0, -10_001));
    assert!(is_mountain(255, i32::MAX));
    assert!(!is_mountain(255, i32::MIN));
}

#[test]
fn grids_that_fit() {
    assert!(fits_grid(0));
    assert!(fits_grid(40));
    assert!(fits_grid(16384));
    assert!(fits_grid(16385));
    assert!(fits_grid(65534));
    assert!(!fits_grid(65535));
    assert!(!fits_grid(u32::MAX));
}

fn lattice(high: &[(i32, i32, i32)]) -> Vec<i32> {
    let mut elevations = vec![0; LATTICE_SIZE];
    for (bx, by, elevation) in high {
        elevations[((bx + 1) * 8 + (by + 1)) as usize] = *elevation;
    }
    elevations
}

#[test]
fn lattice_holds_the_corners_and_a_block_around() {
    assert_eq!(LATTICE, 8);
    assert_eq!(LATTICE_SIZE, 64);
}

#[test]
fn flat_ground_has_no_mountain() {
    assert_eq!(simplified_map(&vec![0; 64]), vec![]);
    assert_eq!(simplified_map(&vec![250; 64]), vec![]);
    assert_eq!(simplified_map(&vec![-10_000; 64]), vec![]);
    assert_eq!(simplified_map(&vec![-20_000; 64]), vec![]);
    assert_eq!(block_kind(&vec![0; 64], IVec2::new(2, 3)), 0);
    assert_eq!(block_kind(&vec![-20_000; 64], IVec2::new(0, 5)), 15);
}

#[test]
fn high_ground_is_all_mountains() {
    let mountains = simplified_map(&vec![300; 64]);
    assert_eq!(mountains.len(), 36);
    let mut expected = Vec::new();
    for bx in 0..=5 {
        for by in 0..=5 {
            expected.push(IVec2::new(bx, by));
        }
    }
    assert_eq!(mountains, expected);
    assert_eq!(block_kind(&vec![300; 64], IVec2::new(5, 0)), 15);
}

#[test]
fn kinds_follow_the_neighbours() {
    let elevations = lattice(&[(2, 2, 300), (2, 1, 300), (1, 2, 300)]);
    assert_eq!(block_kind(&elevations, IVec2::new(2, 2)), 3);
    assert_eq!(block_kind(&elevations, IVec2::new(2, 1)), 4);
    assert_eq!(block_kind(&elevations, IVec2::new(1, 2)), 8);
    assert_eq!(block_kind(&elevations, IVec2::new(1, 1)), 0);
    let elevations = lattice(&[(0, 0, 300), (-1, 0, 300), (0, -1, 300), (6, 5, 300), (5, 6, 300), (5, 5, 300)]);
    assert_eq!(block_kind(&elevations, IVec2::new(0, 0)), 3);
    assert_eq!(block_kind(&elevations, IVec2::new(5, 5)), 12);
    let elevations = lattice(&[(3, 3, 300), (3, 4, 300), (2, 3, -11_000)]);
    assert_eq!(block_kind(&elevations, IVec2::new(3, 3)), 6);
}

#[test]
fn lone_hills_are_mountains_only_when_high() {
    let elevations = lattice(&[(1, 1, 300), (3, 3, 2250), (4, 0, 2251), (0, 5, 9000)]);
    assert_eq!(simplified_map(&elevations), vec![IVec2::new(0, 5), IVec2::new(4, 0)]);
}

#[test]
fn ridges_are_mountains_above_the_plateau() {
    let elevations = lattice(&[
        (1, 1, 251),
        (1, 2, 251),
        (4, 4, 300),
        (4, 5, 300),
        (4, 6, 300),
        (2, 0, 260),
        (2, -1, 260),
        (3, 3, -11_000),
        (3, 2, -11_000),
        (6, 1, 5000),
        (-1, 1, 5000),
    ]);
    assert_eq!(
        simplified_map(&elevations),
        vec![
            IVec2::new(1, 1),
            IVec2::new(1, 2),
            IVec2::new(2, 0),
            IVec2::new(4, 4),
            IVec2::new(4, 5),
        ]
    );
}

#[test]
fn the_same_elevations_give_the_same_obstacle_map() {
    let mut state: u32 = 12345;
    let mut elevations = Vec::new();
    for _ in 0..64 {
        state = state.wrapping_mul(1664525).wrapping_add(1013904223);
        elevations.push((state >> 16) as i32 % 3000 - 500);
    }
    let first = simplified_map(&elevations);
    let second = simplified_map(&elevations.clone());
    assert_eq!(first, second);
    assert!(!first.is_empty());
    for block in &first {
        let here = elevations[((block.x + 1) * 8 + block.y + 1) as usize];
        assert!(is_mountain(block_kind(&elevations, *block), here));
    }
}
