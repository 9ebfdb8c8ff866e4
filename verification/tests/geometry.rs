use assembly_theory::geometry::{
    generate_sphere_grid, generate_sphere_indices, get_box_corners, get_box_indices,
    get_sphere_indices, hull_indices,
};

#[test]
fn a_box_has_eight_vertices_and_thirty_six_indices() {
    let indices = get_box_indices();
    assert_eq!(indices.len(), 36);
    assert!(indices.iter().all(|i| *i < 8));
    assert_eq!(&indices[0..6], &[0, 1, 2, 1, 2, 3]);
    assert_eq!(&indices[30..36], &[1, 3, 5, 3, 5, 7]);
    let corners = get_box_corners();
    assert_eq!(corners.len(), 8);
    assert_eq!(corners[0], (false, false, false));
    assert_eq!(corners[1], (false, false, true));
    assert_eq!(corners[2], (false, true, false));
    assert_eq!(corners[4], (true, false, false));
    assert_eq!(corners[7], (true, true, true));
}

#[test]
fn every_face_of_a_box_joins_four_corners_of_one_side() {
    let indices = get_box_indices();
    let corners = get_box_corners();
    for face in 0..6 {
        let part = &indices[face * 6..face * 6 + 6];
        let axis = face / 2;
        let side = |k: u32| {
            let c = corners[k as usize];
            [c.0, c.1, c.2][axis]
        };
        assert!(part.iter().all(|k| side(*k) == (face % 2 == 1)));
        let mut distinct: Vec<u32> = part.to_vec();
        distinct.sort();
        distinct.dedup();
        assert_eq!(distinct.len(), 4);
    }
}

#[test]
fn a_sphere_of_32_segments_has_1056_vertices_and_6144_indices() {
    let indices = get_sphere_indices();
    assert_eq!(indices.len(), 32 * 32 * 6);
    assert!(indices.iter().all(|i| *i < 33 * 32));
    assert_eq!(&indices[0..6], &[0, 1, 32, 1, 32, 33]);
    let last = 31 * 6;
    assert_eq!(&indices[last..last + 6], &[31, 0, 63, 0, 63, 32]);
    assert_eq!(*indices.iter().max().unwrap(), 33 * 32 - 1);
    assert_eq!(generate_sphere_grid(32).len(), 33 * 32);
}

#[test]
fn small_spheres() {
    assert_eq!(generate_sphere_indices(0), Vec::<u32>::new());
    assert_eq!(generate_sphere_indices(1), vec![0, 0, 1, 0, 1, 1]);
    assert_eq!(
        generate_sphere_indices(2),
        vec![0, 1, 2, 1, 2, 3, 1, 0, 3, 0, 3, 2, 2, 3, 4, 3, 4, 5, 3, 2, 5, 2, 5, 4]
    );
    assert_eq!(generate_sphere_grid(2), vec![(0, 0), (0, 1), (1, 0), (1, 1), (2, 0), (2, 1)]);
    assert_eq!(generate_sphere_grid(0), Vec::<(u32, u32)>::new());
}

#[test]
fn a_hull_has_three_vertices_of_its_own_for_each_facet() {
    assert_eq!(hull_indices(0), Vec::<u32>::new());
    assert_eq!(hull_indices(2), vec![0, 1, 2, 3, 4, 5]);
    let twelve = hull_indices(12);
    assert_eq!(twelve.len(), 36);
    assert_eq!(twelve[35], 35);
}
