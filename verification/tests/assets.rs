use assembly_theory::assets::{
    faces_are_safe, holds, line_is_safe, line_starts_with, part_is_safe, word_is_safe, ObjModel,
};
use assembly_theory::plan::{hull_mesh, MeshGeometry};
use assembly_theory::attrs::AttrMap;
use assembly_theory::error::ModelError;
use assembly_theory::node::{AssetsManager, Geom, GeomType, Material, Mesh, MeshType, Node, Texture};
use assembly_theory::scalar::Scalar;
use assembly_theory::schema::NodeKind;

fn s(text: &str) -> String {
    text.to_string()
}

fn node(kind: NodeKind, pairs: &[(&str, &str)]) -> Node {
    let mut n = Node::new(kind);
    for (k, v) in pairs {
        assert_eq!(n.add_attr(s(k), s(v)), Ok(true));
    }
    n
}

fn registry(nodes: Vec<Node>) -> AssetsManager {
    let mut assets = Node::Assets(AssetsManager::new());
    for n in nodes {
        assert!(assets.add_child(n));
    }
    match assets {
        Node::Assets(a) => a,
        _ => unreachable!(),
    }
}

const SQUARE: &str = "v 0 0 0\nv 1 0 0\nv 1 1 0\nv 0 1 0\nf 1 2 3 4\n";

#[test]
fn a_name_refers_to_the_last_asset_of_its_kind_with_that_name() {
    let assets = registry(vec![
        node(NodeKind::Mesh, &[("name", "m")]),
        node(NodeKind::Material, &[("name", "m")]),
        node(NodeKind::Mesh, &[("file", "m.obj")]),
        node(NodeKind::Texture, &[("name", "m")]),
    ]);
    // The registry keeps the asset added last first: texture, mesh of a file, material, mesh.
    assert_eq!(assets.get_mesh(s("m")), Some(3));
    assert_eq!(assets.find(NodeKind::Material, "m"), Some(2));
    assert_eq!(assets.find(NodeKind::Texture, "m"), Some(0));
    assert_eq!(assets.get_mesh(s("n")), None);
    assert_eq!(assets.find(NodeKind::Joint, "m"), None);
}

#[test]
fn materials_get_the_texture_of_their_name() {
    let mut assets = registry(vec![
        node(NodeKind::Texture, &[("name", "wood"), ("file", "wood.png")]),
        node(NodeKind::Material, &[("name", "wood")]),
        node(NodeKind::Material, &[("name", "steel"), ("rgba", "1 1 1 1")]),
        node(NodeKind::Material, &[("name", "wood")]),
    ]);
    assert_eq!(assets.get_material(s("steel")), Some(1));
    let textures: Vec<Option<usize>> = assets
        .children
        .iter()
        .map(|c| match c {
            Node::Material(m) => m.texture,
            _ => None,
        })
        .collect();
    // Only the material that the name refers to is bound: the one that stands last.
    assert_eq!(textures, vec![None, None, Some(3), None]);
    match &assets.children[2] {
        Node::Material(m) => {
            assert_eq!(m.to_load_file(&assets), Some(s("wood.png")));
            assert_eq!(m.get_textures_data(&assets).unwrap().get_file(), "wood.png");
        }
        _ => panic!("a material stands there"),
    }
    assets.process_materials();
    match &assets.children[2] {
        Node::Material(m) => assert_eq!(m.texture, Some(3)),
        _ => panic!("a material stands there"),
    }
}

#[test]
fn a_bound_texture_is_not_replaced() {
    let mut material = Material::new();
    material.add_texture(4);
    material.add_texture(7);
    assert_eq!(material.texture, Some(4));
    let assets = AssetsManager::new();
    assert_eq!(material.to_load_file(&assets), None);
}

#[test]
fn files_to_read_are_listed_once() {
    let assets = registry(vec![
        node(NodeKind::Mesh, &[("name", "points"), ("vertex", "0 0 0")]),
        node(NodeKind::Mesh, &[("file", "a.obj")]),
        node(NodeKind::Texture, &[("file", "a.png")]),
        node(NodeKind::Material, &[("name", "x")]),
        node(NodeKind::Texture, &[("name", "again"), ("file", "a.png")]),
        node(NodeKind::Texture, &[("name", "nofile")]),
    ]);
    assert_eq!(assets.to_load_files(), vec![s(""), s("a.png"), s("a.obj")]);
    assert!(holds(&vec![s("a"), s("b")], "b"));
    assert!(!holds(&vec![s("a"), s("b")], "c"));
}

#[test]
fn sizes_reach_the_textures_of_their_files() {
    let mut assets = registry(vec![
        node(NodeKind::Texture, &[("file", "a.png")]),
        node(NodeKind::Texture, &[("file", "b.png")]),
        node(NodeKind::Mesh, &[("file", "a.png")]),
    ]);
    assets.load_dimensions(&vec![(s("a.png"), (30, 40)), (s("a.png"), (1, 1))]);
    let sizes: Vec<(u32, u32)> =
        assets.get_textures_data().iter().map(|t| t.texture_image_dimensions).collect();
    assert_eq!(sizes, vec![(0, 0), (30, 40)]);
}

#[test]
fn bytes_reach_the_textures_of_their_files() {
    let mut assets = registry(vec![
        node(NodeKind::Texture, &[("file", "a.png")]),
        node(NodeKind::Texture, &[("file", "b.png")]),
    ]);
    assets.load_files(&vec![(s("b.png"), vec![1, 2, 3]), (s("c.png"), vec![4])]);
    let data: Vec<Vec<u8>> = assets.get_textures_data().iter().map(|t| t.file_data.clone()).collect();
    assert_eq!(data, vec![vec![1, 2, 3], vec![]]);
}

#[test]
fn a_polygon_file_is_taken_as_it_is() {
    let mut mesh = Mesh::new(s(""));
    assert_eq!(mesh.setup_with_obj_stream(s(SQUARE)), Ok(()));
    assert_eq!(mesh.mesh_contents_type, MeshType::ObjFile);
    let values: Vec<f32> = mesh
        .vertices
        .iter()
        .map(|v| match v {
            Scalar::Bits(b) => f32::from_bits(*b),
            Scalar::Numeral(_) => panic!("words were installed"),
        })
        .collect();
    assert_eq!(values, vec![0.0, 0.0, 0.0, 1.0, 0.0, 0.0, 1.0, 1.0, 0.0, 0.0, 1.0, 0.0]);
    assert_eq!(mesh.indices, vec![0, 1, 2, 0, 2, 3]);
}

#[test]
fn the_objects_of_a_file_follow_one_another() {
    let text = "o a\nv 0 0 0\nv 1 0 0\nv 0 1 0\nf 1 2 3\no b\nv 5 5 5\nv 6 5 5\nv 5 6 5\nf 4 5 6\n";
    let mut mesh = Mesh::new(s(""));
    assert_eq!(mesh.setup_with_obj_stream(s(text)), Ok(()));
    assert_eq!(mesh.vertices.len(), 18);
    assert_eq!(mesh.indices, vec![0, 1, 2, 0, 1, 2]);
}

#[test]
fn a_file_that_the_reader_rejects_is_a_parse_error() {
    let mut mesh = Mesh::new(s("kept"));
    mesh.add_attr(s("vertex"), s("1 2 3")).unwrap();
    assert_eq!(mesh.setup_with_obj_stream(s("v 0 0 0\nf 1 2 9\n")), Err(ModelError::Parse));
    assert_eq!(mesh.mesh_contents_type, MeshType::Inline);
    assert_eq!(mesh.vertices.len(), 3);
}

#[test]
fn installing_objects_joins_them() {
    let mut mesh = Mesh::new(s(""));
    let models = vec![
        ObjModel { positions: vec![1, 2, 3], indices: vec![0] },
        ObjModel { positions: vec![4, 5, 6, 7, 8, 9], indices: vec![1, 0] },
    ];
    mesh.install(&models);
    assert_eq!(mesh.indices, vec![0, 1, 0]);
    let words: Vec<u32> = mesh
        .vertices
        .iter()
        .map(|v| match v {
            Scalar::Bits(b) => *b,
            Scalar::Numeral(_) => panic!("words were installed"),
        })
        .collect();
    assert_eq!(words, vec![1, 2, 3, 4, 5, 6, 7, 8, 9]);
}

#[test]
fn texts_of_files_reach_the_meshes_that_are_kept_in_them() {
    let mut assets = registry(vec![
        node(NodeKind::Mesh, &[("name", "sq"), ("file", "square.obj")]),
        node(NodeKind::Mesh, &[("name", "pts"), ("vertex", "0 0 0 1 1 1")]),
        node(NodeKind::Mesh, &[("name", "other"), ("file", "other.obj")]),
    ]);
    let mut files = AttrMap::new();
    files.set(s("square.obj"), s(SQUARE));
    assert_eq!(assets.load_obj_meshes(&files), Ok(()));
    let sizes: Vec<usize> = assets
        .children
        .iter()
        .map(|c| match c {
            Node::Mesh(m) => m.indices.len(),
            _ => 0,
        })
        .collect();
    assert_eq!(sizes, vec![0, 0, 6]);
    let mut bad = AttrMap::new();
    bad.set(s("other.obj"), s("f 1 2 3\n"));
    assert_eq!(assets.load_obj_meshes(&bad), Err(ModelError::Parse));
}

#[test]
fn geoms_are_bound_to_what_they_refer_to() {
    let mut assets = registry(vec![
        node(NodeKind::Mesh, &[("name", "m")]),
        node(NodeKind::Material, &[("name", "paint")]),
        node(NodeKind::Texture, &[("name", "paint")]),
    ]);
    let mut geom = Geom::default();
    geom.add_attr(s("type"), s("mesh")).unwrap();
    geom.add_attr(s("mesh"), s("m")).unwrap();
    geom.add_attr(s("material"), s("paint")).unwrap();
    assert_eq!(geom.geom_type(), GeomType::Mesh);
    assert_eq!(geom.apply_assets(&mut assets), Ok(()));
    assert_eq!(geom.mesh, Some(2));
    assert_eq!(geom.material, Some(1));
    match &assets.children[1] {
        Node::Material(m) => assert_eq!(m.texture, Some(0)),
        _ => panic!("a material stands there"),
    }
    let found: Option<Texture> = geom.get_textures_data(&assets);
    assert_eq!(found.unwrap().get_file(), "");
}

#[test]
fn a_reference_to_nothing_is_an_error() {
    let mut assets = registry(vec![node(NodeKind::Mesh, &[("name", "m")])]);
    let mut no_mesh = node(NodeKind::Geom, &[("type", "mesh"), ("mesh", "missing")]);
    assert_eq!(no_mesh.apply_assets(&mut assets), Err(ModelError::AssetResolution));
    let mut unnamed = node(NodeKind::Geom, &[("type", "mesh")]);
    assert_eq!(unnamed.apply_assets(&mut assets), Err(ModelError::AssetResolution));
    let mut no_material = node(NodeKind::Geom, &[("material", "missing")]);
    assert_eq!(no_material.apply_assets(&mut assets), Err(ModelError::AssetResolution));
    let mut fine = node(NodeKind::Geom, &[("type", "box"), ("mesh", "missing")]);
    assert_eq!(fine.apply_assets(&mut assets), Ok(()));
    let mut body = Node::new(NodeKind::Body);
    body.add_child(node(NodeKind::Geom, &[("type", "mesh"), ("mesh", "m")]));
    body.add_child(node(NodeKind::Geom, &[("material", "missing")]));
    assert_eq!(body.apply_assets(&mut assets), Err(ModelError::AssetResolution));
}

#[test]
fn forms_of_geoms() {
    let form = |t: &str| match node(NodeKind::Geom, &[("type", t)]) {
        Node::Geom(g) => g.geom_type(),
        _ => unreachable!(),
    };
    assert_eq!(form("plane"), GeomType::Plane);
    assert_eq!(form("hfield"), GeomType::Hfield);
    assert_eq!(form("sphere"), GeomType::Sphere);
    assert_eq!(form("capsule"), GeomType::Capsule);
    assert_eq!(form("ellipsoid"), GeomType::Ellipsoid);
    assert_eq!(form("cylinder"), GeomType::Cylinder);
    assert_eq!(form("box"), GeomType::Box);
    assert_eq!(form("mesh"), GeomType::Mesh);
    assert_eq!(form("sdf"), GeomType::Sdf);
    assert_eq!(form("teapot"), GeomType::Box);
    assert_eq!(Geom::default().geom_type(), GeomType::Box);
}

#[test]
fn indices_that_the_reader_would_not_test_are_not_handed_to_it() {
    assert!(part_is_safe("", 0));
    assert!(part_is_safe("123456789", 0));
    assert!(part_is_safe("+3", 0));
    assert!(part_is_safe("-0", 0));
    assert!(part_is_safe("-3", 3));
    assert!(part_is_safe("-3", 7));
    assert!(!part_is_safe("-3", 2));
    assert!(!part_is_safe("-1", 0));
    assert!(!part_is_safe("1234567890", 99));
    assert!(!part_is_safe("-", 5));
    assert!(!part_is_safe("+", 5));
    assert!(!part_is_safe("x", 5));
    assert!(!part_is_safe("1x", 5));
    assert!(word_is_safe("7", 0, 0));
    assert!(word_is_safe("-7", 0, 0));
    assert!(word_is_safe("7/8/9", 0, 0));
    assert!(word_is_safe("7//9", 0, 0));
    assert!(word_is_safe("7/-2/-1", 2, 1));
    assert!(!word_is_safe("7/-2/-1", 1, 1));
    assert!(!word_is_safe("7/-2/-1", 2, 0));
    assert!(word_is_safe("7/8/9/-5", 0, 0));
    assert!(line_is_safe("v -1 -2 -3", 0, 0));
    assert!(line_is_safe("mtllib a/-b.mtl", 0, 0));
    assert!(line_is_safe("  f 1/2 3/4 5/6", 0, 0));
    assert!(!line_is_safe("f 1/-3 2/-3 3/-3", 1, 0));
    assert!(line_is_safe("f 1/-3 2/-3 3/-3", 3, 0));
    assert!(!line_is_safe("\tl 1/2 3/99999999999999999999", 9, 9));
    assert!(line_starts_with(" vt 0 0", "vt"));
    assert!(!line_starts_with("vtx 0 0", "vt"));
    assert!(!line_starts_with("", "vt"));
    assert!(faces_are_safe(SQUARE));
    assert!(faces_are_safe(""));
    let bad = "v 0 0 0\nv 1 0 0\nv 0 1 0\nvt 0 0\nf 1/-3 2/-3 3/-3\n";
    assert!(!faces_are_safe(bad));
    let late = "v 0 0 0\nv 1 0 0\nv 0 1 0\nf 1/-1 2/-1 3/-1\nvt 0 0\n";
    assert!(!faces_are_safe(late));
    let mut mesh = Mesh::new(s("kept"));
    assert_eq!(mesh.setup_with_obj_stream(s(bad)), Err(ModelError::Parse));
    assert_eq!(mesh.mesh_contents_type, MeshType::Inline);
    assert_eq!(mesh.indices.len(), 0);
}

#[test]
fn indices_that_count_back_from_the_end_are_read() {
    let relative = "v 0 0 0\nv 1 0 0\nv 0 1 0\nvt 0 0\nvt 1 0\nvn 0 0 1\n\
                    f -3/-2/-1 -2/-1/-1 -1/-2/-1\n";
    assert!(faces_are_safe(relative));
    let mut mesh = Mesh::new(s(""));
    assert_eq!(mesh.setup_with_obj_stream(s(relative)), Ok(()));
    assert_eq!(mesh.indices, vec![0, 1, 2]);
    assert_eq!(mesh.vertices.len(), 9);
    let plain = "v 0 0 0\nv 1 0 0\nv 0 1 0\nvt 0 0\nvn 0 0 1\nf 1/1/1 2/1/1 3/+1/1\n";
    let mut other = Mesh::new(s(""));
    assert_eq!(other.setup_with_obj_stream(s(plain)), Ok(()));
    assert_eq!(other.indices, vec![0, 1, 2]);
}

#[test]
fn a_mesh_says_what_is_to_be_made_of_it() {
    let mut points = Mesh::new(s(""));
    points.add_attr(s("vertex"), s("0 0 0 1 0 0 0 1 0 0 0 1")).unwrap();
    points.add_attr(s("scale"), s("2 3 4")).unwrap();
    match points.getAllGeometries() {
        MeshGeometry::Hull { points, scale } => {
            assert_eq!(points.len(), 12);
            assert_eq!(scale.len(), 3);
            match &scale[1] {
                Scalar::Numeral(t) => assert_eq!(t, "3"),
                Scalar::Bits(_) => panic!("a numeral was set"),
            }
        }
        MeshGeometry::Imported { .. } => panic!("points become a hull"),
    }
    // The hull of these four points has four facets: twelve indices of thirty-six coordinates.
    let (vertices, indices) = hull_mesh(vec![0u32; 36], 4).unwrap();
    assert_eq!(vertices.len(), 36);
    assert_eq!(indices, (0..12).collect::<Vec<u32>>());
    let mut file = Mesh::new(s(""));
    file.setup_with_obj_stream(s("v 0 0 0\nv 1 0 0\nv 0 1 0\nv 0 0 1\nf 1 2 3\nf 1 2 4\n")).unwrap();
    match file.getAllGeometries() {
        MeshGeometry::Imported { vertices, indices, scale } => {
            assert_eq!(vertices.len(), 12);
            assert_eq!(indices, vec![0, 1, 2, 0, 1, 3]);
            assert_ne!(indices.len(), 12);
            assert_eq!(scale.len(), 3);
        }
        MeshGeometry::Hull { .. } => panic!("a file keeps its triangles"),
    }
}

#[test]
fn the_mesh_of_a_hull_has_nine_coordinates_for_each_facet() {
    assert!(hull_mesh(vec![0u32; 35], 4).is_none());
    assert!(hull_mesh(vec![0u32; 36], 3).is_none());
    assert!(hull_mesh(vec![0u32; 9], 0).is_none());
    assert_eq!(hull_mesh(Vec::new(), 0), Some((Vec::new(), Vec::new())));
    let words: Vec<u32> = (100..118).collect();
    assert_eq!(hull_mesh(words.clone(), 2), Some((words, vec![0, 1, 2, 3, 4, 5])));
}
