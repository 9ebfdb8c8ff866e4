use assembly_theory::drawable::{
    DrawableMesh, MeshCollection, VertexFilling, ONE, TINT_BLUE, TINT_GREEN, TINT_RED, ZERO,
};
use assembly_theory::node::Texture;

fn words(values: &[f32]) -> Vec<u32> {
    values.iter().map(|v| v.to_bits()).collect()
}

fn triangle(shift: f32) -> Vec<u32> {
    words(&[shift, 0.0, 0.0, shift + 1.0, 0.0, 0.0, shift, 1.0, 0.0])
}

fn texture(name: &str) -> Texture {
    let mut t = Texture::new();
    t.add_attr("name".to_string(), name.to_string()).unwrap();
    t
}

#[test]
fn the_constants_are_the_values_they_stand_for() {
    assert_eq!(ONE, 1.0f32.to_bits());
    assert_eq!(ZERO, 0.0f32.to_bits());
    assert_eq!(TINT_RED, (209.0f32 / 255.0).to_bits());
    assert_eq!(TINT_GREEN, (180.0f32 / 255.0).to_bits());
    assert_eq!(TINT_BLUE, (50.0f32 / 255.0).to_bits());
}

#[test]
fn a_new_mesh_is_empty() {
    let mesh = DrawableMesh::new();
    assert_eq!(mesh.get_num_vertices(), 0);
    assert_eq!(mesh.get_num_indices(), 0);
    assert!(mesh.draw_with_indices);
    assert_eq!(mesh.get_full_interleaved_vertices(), Vec::<u32>::new());
    assert_eq!(MeshCollection::new().get_num_vertices(), 0);
}

#[test]
fn a_mesh_without_filling_has_the_tint() {
    let mut meshes = MeshCollection::new();
    meshes.add_drawable_mesh(triangle(0.0), vec![0, 1, 2], None, None);
    let rows = meshes.get_full_interleaved_vertices();
    assert_eq!(rows.len(), 27);
    let second: Vec<f32> = rows[9..18].iter().map(|w| f32::from_bits(*w)).collect();
    assert_eq!(
        second,
        vec![1.0, 0.0, 0.0, 209.0 / 255.0, 180.0 / 255.0, 50.0 / 255.0, 0.0, 0.0, 0.0]
    );
}

#[test]
fn fillings_take_their_places_in_a_row() {
    let fill = vec![
        VertexFilling::Color(words(&[0.25])[0], words(&[0.5])[0], words(&[0.75])[0]),
        VertexFilling::CubeTextureCoordinates(words(&[2.0])[0], words(&[3.0])[0], words(&[4.0])[0]),
        VertexFilling::TwoDTextureCoordinates(words(&[5.0])[0], words(&[6.0])[0]),
    ];
    let mesh = DrawableMesh {
        vertices: triangle(0.0),
        indices: vec![0, 1, 2],
        draw_with_indices: true,
        vertices_filling: Some(fill),
        texture_data: None,
    };
    let rows: Vec<f32> =
        mesh.get_full_interleaved_vertices().iter().map(|w| f32::from_bits(*w)).collect();
    assert_eq!(&rows[0..9], &[0.0, 0.0, 0.0, 0.25, 0.5, 0.75, 0.0, 0.0, 0.0]);
    assert_eq!(&rows[9..18], &[1.0, 0.0, 0.0, 1.0, 1.0, 1.0, 2.0, 3.0, 4.0]);
    assert_eq!(&rows[18..27], &[0.0, 1.0, 0.0, 1.0, 1.0, 1.0, 5.0, 6.0, 0.0]);
}

#[test]
fn coordinates_beyond_the_last_full_vertex_are_left_out() {
    let mesh = DrawableMesh {
        vertices: words(&[1.0, 2.0, 3.0, 4.0, 5.0]),
        indices: vec![0],
        draw_with_indices: true,
        vertices_filling: None,
        texture_data: None,
    };
    assert_eq!(mesh.get_num_vertices(), 1);
    assert_eq!(mesh.get_full_interleaved_vertices().len(), 9);
}

#[test]
fn merged_indices_are_moved_up_by_the_vertices_before_them() {
    let mut meshes = MeshCollection::new();
    meshes.add_drawable_mesh(triangle(0.0), vec![0, 1, 2], None, None);
    meshes.add_drawable_mesh(
        words(&[0.0, 0.0, 0.0, 1.0, 0.0, 0.0, 1.0, 1.0, 0.0, 0.0, 1.0, 0.0]),
        vec![0, 1, 2, 0, 2, 3],
        Some(texture("skin")),
        None,
    );
    meshes.add_drawable_mesh(triangle(5.0), vec![2, 1, 0], None, None);
    assert_eq!(meshes.get_num_vertices(), 10);
    assert_eq!(meshes.get_all_indices(), vec![0, 1, 2, 3, 4, 5, 3, 5, 6, 9, 8, 7]);
    assert_eq!(meshes.get_full_interleaved_vertices().len(), 90);
    assert_eq!(
        meshes.get_draw_map(),
        vec![(3, None), (6, Some("skin".to_string())), (3, None)]
    );
    assert_eq!(meshes.get_draw_offsets(), vec![0, 3, 9]);
}

#[test]
fn no_index_of_one_mesh_is_an_index_of_another() {
    let mut meshes = MeshCollection::new();
    let sizes = [3usize, 1, 4, 2];
    for n in sizes {
        let vertices = words(&vec![0.5; n * 3]);
        let indices: Vec<u32> = (0..n as u32).chain(0..n as u32).collect();
        meshes.add_drawable_mesh(vertices, indices, None, None);
    }
    let all = meshes.get_all_indices();
    let map = meshes.get_draw_map();
    let total: u32 = map.iter().map(|c| c.0).sum();
    assert_eq!(total as usize, all.len());
    let mut start = 0usize;
    let mut offset = 0u32;
    for (k, n) in sizes.iter().enumerate() {
        let count = map[k].0 as usize;
        for i in &all[start..start + count] {
            assert!(offset <= *i && *i < offset + *n as u32);
        }
        start += count;
        offset += *n as u32;
    }
    assert_eq!(offset, meshes.get_num_vertices());
}

#[test]
fn merging_collections_keeps_their_order() {
    let mut first = MeshCollection::new();
    first.add_drawable_mesh(triangle(0.0), vec![0, 1, 2], Some(texture("a")), None);
    let mut second = MeshCollection::new();
    second.add_drawable_mesh(triangle(1.0), vec![0, 1, 2], Some(texture("b")), None);
    second.add_drawable_mesh(triangle(2.0), vec![0], None, None);
    let merged = first.merge(second);
    assert_eq!(merged.drawable_meshes.len(), 3);
    assert_eq!(
        merged.get_draw_map(),
        vec![(3, Some("a".to_string())), (3, Some("b".to_string())), (1, None)]
    );
    assert_eq!(merged.get_all_indices(), vec![0, 1, 2, 3, 4, 5, 6]);
}
