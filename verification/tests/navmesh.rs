use glam::Vec2;
use terrain_nav::coords::IVec2;
use terrain_nav::coords::{map_to_world, WorldPosition};
use terrain_nav::navmesh::{
    coords_to_polygon_id, is_obstacle, new_mesh_from_map, window_fits, MeshPoint, NavMesh, Polygon,
    Vertex, BORDER,
};
use terrain_nav::occupancy::{OccupancyMap, Occupying};
use terrain_nav::terra::Plane;

fn id(coords: (IVec2, IVec2), half_width: isize, half_height: isize) -> i32 {
    coords_to_polygon_id(coords, half_width, half_height)
}

fn v(x: i32, y: i32) -> IVec2 {
    IVec2::new(x, y)
}

fn in_world(position: WorldPosition) -> Vec2 {
    Vec2::new(position.x as f32 / 1000.0, position.y as f32 / 1000.0)
}

/// Hands the mesh to the path finder: mesh points count half lots. The
/// path finder walks the sides of every polygon it looks at, so a hole is
/// handed over as a polygon on a vertex that does not exist, which holds
/// no point.
fn path_finder(mesh: &NavMesh) -> polyanya::Mesh {
    let scale = 2.0 * mesh.def as f32;
    let mut finder = polyanya::Mesh::default();
    finder.vertices = mesh
        .vertices
        .iter()
        .map(|v| {
            polyanya::Vertex::new(
                Vec2::new(v.coords.x as f32 / scale, v.coords.y as f32 / scale),
                v.polygons.clone(),
            )
        })
        .collect();
    finder.polygons = mesh
        .polygons
        .iter()
        .map(|p| {
            if p.vertices.is_empty() {
                polyanya::Polygon::new(vec![u32::MAX], p.is_one_way)
            } else {
                polyanya::Polygon::new(p.vertices.clone(), p.is_one_way)
            }
        })
        .collect();
    finder
}

#[test]
fn coords_id_size_0() {
    assert_eq!(id((IVec2::new(0, 0), IVec2::new(0, 0)), 0, 0), 0);
    assert_eq!(id((IVec2::new(0, 0), IVec2::new(1, 0)), 0, 0), 1);
    assert_eq!(id((IVec2::new(0, 0), IVec2::new(0, 1)), 0, 0), 5);
    assert_eq!(id((IVec2::new(0, 0), IVec2::new(1, 1)), 0, 0), 6);
    assert_eq!(id((IVec2::new(0, 0), IVec2::new(4, 4)), 0, 0), 24);
}

#[test]
fn coords_id_size_1() {
    assert_eq!(id((IVec2::new(1, 0), IVec2::new(0, 0)), 1, 1), 75);
    assert_eq!(id((IVec2::new(0, 0), IVec2::new(0, 0)), 1, 1), 80);
    assert_eq!(id((IVec2::new(-1, 0), IVec2::new(0, 0)), 1, 1), 85);
}

#[test]
fn coords_id_size_15() {
    assert_eq!(id((IVec2::new(-15, -15), IVec2::new(0, 0)), 15, 15), 150);
    assert_eq!(id((IVec2::new(-15, -15), IVec2::new(1, 0)), 15, 15), 151);
    assert_eq!(id((IVec2::new(15, -15), IVec2::new(0, 0)), 15, 15), 0);
    assert_eq!(id((IVec2::new(-15, -15), IVec2::new(0, 1)), 15, 15), 305);
    assert_eq!(id((IVec2::new(-14, -15), IVec2::new(0, 0)), 15, 15), 145);
    assert_eq!(id((IVec2::new(-14, -15), IVec2::new(4, 0)), 15, 15), 149);
    assert_eq!(id((IVec2::new(-13, -15), IVec2::new(0, 0)), 15, 15), 140);
    assert_eq!(id((IVec2::new(-3, -15), IVec2::new(0, 0)), 15, 15), 90);
    assert_eq!(id((IVec2::new(7, -15), IVec2::new(0, 0)), 15, 15), 40);
    assert_eq!(id((IVec2::new(-15, -14), IVec2::new(4, 0)), 15, 15), 929);
}

#[test]
fn mesh_generation() {
    let map = OccupancyMap::new();
    let mesh = new_mesh_from_map(&map, 0, 0, 5);
    println!("{:?}", &mesh.polygons);
    println!("{}", mesh.vertices.len());
    assert_eq!(mesh.vertices.len(), 25);
    assert_eq!(mesh.polygons.len(), 25);
}

#[test]
fn path_through_0() {
    let map = OccupancyMap::new();
    let mesh = path_finder(&new_mesh_from_map(&map, 0, 0, 5));

    let from = Vec2::new(0.2, 0.0);
    let to = Vec2::new(-0.2, 0.0);
    assert_eq!(mesh.path(from, to).unwrap().length, from.distance(to));

    let from = Vec2::new(0.2, 0.2);
    let to = Vec2::new(-0.2, -0.2);
    assert_eq!(mesh.path(from, to).unwrap().length, from.distance(to));
}

#[test]
fn path_through_1() {
    let map = OccupancyMap::new();
    let mesh = path_finder(&new_mesh_from_map(&map, 1, 1, 5));

    let from = Vec2::new(0.2, 0.0);
    let to = Vec2::new(-0.2, 0.0);
    assert_eq!(mesh.path(from, to).unwrap().length, from.distance(to));

    let from = Vec2::new(0.2, 0.2);
    let to = Vec2::new(-0.2, -0.2);
    assert_eq!(mesh.path(from, to).unwrap().length, from.distance(to));

    let from = Vec2::new(0.4, 0.4);
    let to = Vec2::new(-0.4, -0.4);
    assert_eq!(mesh.path(from, to).unwrap().length, from.distance(to));

    let from = Vec2::new(1.0, 0.0);
    let to = Vec2::new(-1.0, 0.0);
    assert_eq!(mesh.path(from, to).unwrap().length, from.distance(to));
}

#[test]
fn polygon_ids_number_the_lots_of_the_window() {
    for (half_width, half_height) in [(0isize, 0isize), (1, 2), (3, 1)] {
        let count = ((2 * half_width + 1) * (2 * half_height + 1) * 25) as usize;
        let mut seen = vec![false; count];
        for tx in -half_width..=half_width {
            for tz in -half_height..=half_height {
                for i in 0..5 {
                    for j in 0..5 {
                        let id = id((v(tx as i32, tz as i32), v(i, j)), half_width, half_height);
                        assert!(0 <= id && (id as usize) < count);
                        assert!(!seen[id as usize]);
                        seen[id as usize] = true;
                    }
                }
            }
        }
        assert!(seen.iter().all(|s| *s));
    }
}

#[test]
fn playing_field_is_numbered_in_full() {
    assert_eq!(BORDER, 15);
    assert_eq!(id((v(15, -15), v(0, 0)), BORDER, BORDER), 0);
    assert_eq!(id((v(-15, 15), v(4, 4)), BORDER, BORDER), 31 * 31 * 25 - 1);
}

#[test]
fn window_of_one_tile_around_the_origin_has_225_lots() {
    let mesh = new_mesh_from_map(&OccupancyMap::new(), 1, 1, 5);
    assert_eq!(mesh.vertices.len(), 225);
    assert_eq!(mesh.polygons.len(), 225);
    assert_eq!((mesh.half_width, mesh.half_height, mesh.def), (1, 1, 5));
}

#[test]
fn vertices_and_polygons_of_an_open_tile() {
    let mesh = new_mesh_from_map(&OccupancyMap::new(), 0, 0, 5);
    assert_eq!(
        mesh.vertices[6],
        Vertex { coords: MeshPoint { x: 3, y: -3 }, polygons: vec![5, 6, 1, 0], is_corner: false }
    );
    assert_eq!(mesh.polygons[6], Polygon { vertices: vec![7, 6, 11, 12], is_one_way: false });
    assert_eq!(
        mesh.vertices[0],
        Vertex { coords: MeshPoint { x: 5, y: -5 }, polygons: vec![-1, 0, -1, -1], is_corner: true }
    );
    assert_eq!(
        mesh.vertices[4],
        Vertex { coords: MeshPoint { x: -3, y: -5 }, polygons: vec![3, 4, -1, -1], is_corner: true }
    );
    assert_eq!(
        mesh.vertices[20],
        Vertex { coords: MeshPoint { x: 5, y: 3 }, polygons: vec![-1, 20, 15, -1], is_corner: true }
    );
    assert_eq!(mesh.polygons[24], Polygon { vertices: vec![25, 24, 29, 30], is_one_way: false });
}

#[test]
fn vertices_across_tiles() {
    let mesh = new_mesh_from_map(&OccupancyMap::new(), 1, 1, 5);
    let here = id((v(0, 0), v(0, 0)), 1, 1) as usize;
    assert_eq!(here, 80);
    assert_eq!(mesh.vertices[here].coords, MeshPoint { x: 5, y: -5 });
    assert_eq!(
        mesh.vertices[here].polygons,
        vec![
            id((v(1, 0), v(4, 0)), 1, 1) as isize,
            80,
            id((v(0, -1), v(0, 4)), 1, 1) as isize,
            id((v(1, -1), v(4, 4)), 1, 1) as isize,
        ]
    );
    assert_eq!(mesh.vertices[here].polygons, vec![79, 80, 65, 64]);
    assert_eq!(mesh.polygons[here].vertices, vec![81, 80, 95, 96]);
    let corner = id((v(1, -1), v(0, 0)), 1, 1) as usize;
    assert_eq!(corner, 0);
    assert_eq!(mesh.vertices[corner].coords, MeshPoint { x: 15, y: -15 });
}

#[test]
fn a_finer_tile() {
    let mesh = new_mesh_from_map(&OccupancyMap::new(), 0, 1, 2);
    assert_eq!(mesh.vertices.len(), 12);
    assert_eq!(mesh.vertices[0].coords, MeshPoint { x: 2, y: -6 });
    assert_eq!(mesh.vertices[3].coords, MeshPoint { x: 0, y: -4 });
    assert_eq!(mesh.vertices[3].polygons, vec![2, 3, 1, 0]);
    assert_eq!(mesh.vertices[5].polygons, vec![4, 5, 3, 2]);
    assert_eq!(mesh.polygons[5].vertices, vec![6, 5, 7, 8]);
}

#[test]
fn obstacles_perforate_the_mesh() {
    let mut map = OccupancyMap::new();
    map.set(v(0, 0), Plane::Material, v(1, 1), Occupying::Mountain);
    map.set(v(0, 0), Plane::Material, v(3, 3), Occupying::Tree);
    map.set(v(0, 0), Plane::Ethereal, v(2, 2), Occupying::Tower);
    map.set(v(0, 0), Plane::Material, v(2, 1), Occupying::Crystal);
    let mesh = new_mesh_from_map(&map, 0, 0, 5);
    assert_eq!(mesh.polygons[6], Polygon { vertices: vec![], is_one_way: false });
    assert_eq!(mesh.vertices[6].polygons, vec![5, -1, 1, 0]);
    assert!(mesh.vertices[6].is_corner);
    assert_eq!(mesh.vertices[7].polygons, vec![-1, 7, 2, 1]);
    assert_eq!(mesh.vertices[11].polygons, vec![10, 11, -1, 5]);
    assert_eq!(mesh.vertices[12].polygons, vec![11, 12, 7, -1]);
    assert_eq!(mesh.polygons[12].vertices, vec![13, 12, 17, 18]);
    assert_eq!(mesh.polygons[18].vertices, vec![19, 18, 23, 24]);
    assert_eq!(mesh.polygons[7].vertices, vec![8, 7, 12, 13]);
    let holes = mesh.polygons.iter().filter(|p| p.vertices.is_empty()).count();
    assert_eq!(holes, 1);
}

#[test]
fn lots_outside_the_window_are_obstacles() {
    let map = OccupancyMap::starting();
    assert!(!is_obstacle((v(0, 0), v(2, 2)), &map, 0, 0));
    assert!(!is_obstacle((v(1, -1), v(0, 4)), &map, 1, 1));
    assert!(is_obstacle((v(2, 0), v(0, 0)), &map, 1, 1));
    assert!(is_obstacle((v(0, -2), v(0, 0)), &map, 1, 1));
    assert!(is_obstacle((v(-1, 0), v(0, 0)), &map, 0, 5));
    assert!(is_obstacle((v(0, 0), v(0, 0)), &map, -1, 5));
    assert!(!is_obstacle((v(0, 5), v(0, 0)), &map, 0, 5));
}

#[test]
fn only_the_material_plane_stops_agents() {
    let mut map = OccupancyMap::new();
    map.set(v(0, 0), Plane::Ethereal, v(1, 1), Occupying::Block);
    map.set(v(0, 0), Plane::Material, v(1, 2), Occupying::Block);
    map.set(v(0, 0), Plane::Material, v(1, 3), Occupying::Coffin(2));
    assert!(!is_obstacle((v(0, 0), v(1, 1)), &map, 1, 1));
    assert!(is_obstacle((v(0, 0), v(1, 2)), &map, 1, 1));
    assert!(!is_obstacle((v(0, 0), v(1, 3)), &map, 1, 1));
}

#[test]
fn cutting_a_lot_out_is_rebuilding_with_the_lot_blocked() {
    let mut map = OccupancyMap::starting();
    map.insert_mountains(v(0, 0), &vec![v(0, 0), v(4, 1)]);
    map.set(v(1, 0), Plane::Material, v(4, 2), Occupying::Tower);
    for lot in [(v(0, 0), v(1, 1)), (v(0, 0), v(0, 0)), (v(1, 1), v(4, 4)), (v(-1, 0), v(0, 2)), (v(0, 0), v(4, 0))] {
        let mut cut = new_mesh_from_map(&map, 1, 1, 5);
        cut.cut_polygon_out(lot);
        let mut blocked = OccupancyMap::starting();
        blocked.insert_mountains(v(0, 0), &vec![v(0, 0), v(4, 1)]);
        blocked.set(v(1, 0), Plane::Material, v(4, 2), Occupying::Tower);
        blocked.set(lot.0, Plane::Material, lot.1, Occupying::Block);
        assert_eq!(cut, new_mesh_from_map(&blocked, 1, 1, 5));
    }
}

#[test]
fn cutting_outside_the_window_changes_nothing() {
    let map = OccupancyMap::starting();
    let whole = new_mesh_from_map(&map, 1, 0, 5);
    for lot in [(v(2, 0), v(1, 1)), (v(0, 1), v(1, 1)), (v(0, 0), v(5, 0)), (v(0, 0), v(0, -1))] {
        let mut cut = whole.clone();
        cut.cut_polygon_out(lot);
        assert_eq!(cut, whole);
    }
}

#[test]
fn cut_lot_has_no_polygon_left() {
    let mut mesh = new_mesh_from_map(&OccupancyMap::new(), 0, 0, 5);
    mesh.cut_polygon_out((v(0, 0), v(2, 2)));
    assert_eq!(mesh.polygons[12].vertices, vec![]);
    assert_eq!(mesh.vertices[12].polygons, vec![11, -1, 7, 6]);
    assert_eq!(mesh.vertices[13].polygons, vec![-1, 13, 8, 7]);
    assert_eq!(mesh.vertices[17].polygons, vec![16, 17, -1, 11]);
    assert_eq!(mesh.vertices[18].polygons, vec![17, 18, 13, -1]);
    for (n, vertex) in mesh.vertices.iter().enumerate() {
        assert!(!vertex.polygons.contains(&12), "{}", n);
        assert_eq!(vertex.is_corner, vertex.polygons.contains(&-1));
    }
}

#[test]
fn straight_paths_over_open_ground() {
    let mesh = path_finder(&new_mesh_from_map(&OccupancyMap::new(), 1, 1, 5));
    let probes = [
        ((0.2, 0.0), (-0.2, 0.0)),
        ((0.0, 0.2), (0.0, -0.2)),
        ((0.3, -0.3), (-0.3, 0.3)),
        ((1.0, 1.0), (-1.0, -1.0)),
        ((-1.2, 0.7), (0.9, -1.1)),
        ((0.05, 0.05), (0.05, 0.05)),
    ];
    for (from, to) in probes {
        let from = Vec2::new(from.0, from.1);
        let to = Vec2::new(to.0, to.1);
        let path = mesh.path(from, to).unwrap();
        assert!((path.length - from.distance(to)).abs() < 1e-5, "{:?} {:?}", from, to);
        assert_eq!(path.path.last(), Some(&to));
    }
}

fn walled_in_nest() -> OccupancyMap {
    let mut map = OccupancyMap::starting();
    for n in 0..5 {
        map.set(v(0, 0), Plane::Material, v(n, 4), Occupying::Mountain);
        map.set(v(0, 0), Plane::Material, v(4, n), Occupying::Mountain);
    }
    for j in [0, 1, 3] {
        map.set(v(0, 0), Plane::Material, v(1, j), Occupying::Mountain);
    }
    map.set(v(0, 0), Plane::Material, v(0, 2), Occupying::Coffin(0));
    map.set(v(0, 0), Plane::Ethereal, v(0, 2), Occupying::Coffin(0));
    map
}

#[test]
fn building_that_strands_a_nest_is_refused() {
    let mut map = walled_in_nest();
    let nest = in_world(map_to_world((v(0, 0), v(0, 2))));
    let goal = Vec2::ZERO;
    let mesh = new_mesh_from_map(&map, 0, 0, 5);
    assert!(path_finder(&mesh).path(nest, goal).is_some());

    let gap = (v(0, 0), v(1, 2));
    let mut closed = mesh.clone();
    closed.cut_polygon_out(gap);
    let reaches = path_finder(&closed).path(nest, goal).is_some();
    assert!(!reaches);

    let before_material = map.occupants_of_tile(v(0, 0), Plane::Material);
    let before_ethereal = map.occupants_of_tile(v(0, 0), Plane::Ethereal);
    assert!(map.is_buildable(gap.0, Plane::Material, gap.1));
    assert!(!map.build_tower(gap.0, gap.1, Plane::Material, reaches));
    assert_eq!(map.occupants_of_tile(v(0, 0), Plane::Material), before_material);
    assert_eq!(map.occupants_of_tile(v(0, 0), Plane::Ethereal), before_ethereal);
    assert_eq!(new_mesh_from_map(&map, 0, 0, 5), mesh);
}

#[test]
fn building_beside_the_way_is_accepted() {
    let mut map = walled_in_nest();
    let nest = in_world(map_to_world((v(0, 0), v(0, 2))));
    let mesh = new_mesh_from_map(&map, 0, 0, 5);
    let aside = (v(0, 0), v(3, 0));
    let mut closed = mesh.clone();
    closed.cut_polygon_out(aside);
    let reaches = path_finder(&closed).path(nest, Vec2::ZERO).is_some();
    assert!(reaches);
    assert!(map.build_tower(aside.0, aside.1, Plane::Ethereal, reaches));
    assert_eq!(map.get(aside.0, Plane::Ethereal, aside.1), Some(Occupying::Tower));
    assert_eq!(map.get(aside.0, Plane::Material, aside.1), Some(Occupying::Block));
    assert_eq!(new_mesh_from_map(&map, 0, 0, 5), closed);
}

#[test]
fn windows_that_fit() {
    assert!(window_fits(0, 0, 5));
    assert!(window_fits(15, 15, 5));
    assert!(window_fits(1023, 1023, 16));
    assert!(window_fits(4633, 4633, 5));
    assert!(!window_fits(4634, 4634, 5));
    assert!(window_fits(0, 0, 46340));
    assert!(!window_fits(0, 0, 46341));
    assert!(window_fits(1_073_741_823, 0, 1));
    assert!(!window_fits(1_073_741_824, 0, 1));
    assert!(!window_fits(-1, 0, 5));
    assert!(!window_fits(0, -1, 5));
    assert!(!window_fits(0, 0, 0));
    assert!(!window_fits(isize::MAX, isize::MAX, usize::MAX));
}

#[test]
fn meshes_that_are_shaped() {
    let mut mesh = new_mesh_from_map(&OccupancyMap::new(), 1, 0, 5);
    assert!(mesh.is_shaped());
    mesh.cut_polygon_out((v(0, 0), v(2, 2)));
    assert!(mesh.is_shaped());
    mesh.vertices.pop();
    assert!(!mesh.is_shaped());
    let mut mesh = new_mesh_from_map(&OccupancyMap::new(), 1, 0, 5);
    mesh.half_width = 2;
    assert!(!mesh.is_shaped());
    mesh.half_width = -1;
    assert!(!mesh.is_shaped());
}

#[test]
fn open_ground_has_no_holes() {
    let mut map = OccupancyMap::starting();
    map.set(v(0, 1), Plane::Material, v(1, 1), Occupying::Tree);
    map.set(v(1, 1), Plane::Ethereal, v(1, 1), Occupying::Mountain);
    let mesh = new_mesh_from_map(&map, 1, 1, 5);
    for (n, polygon) in mesh.polygons.iter().enumerate() {
        assert_eq!(polygon.vertices.len(), 4);
        assert_eq!(mesh.vertices[n].polygons[1], n as isize);
    }
}
