use assembly_theory::builder::ElementEvent;
use assembly_theory::error::ModelError;
use assembly_theory::geometry::get_box_corners;
use assembly_theory::model::{FileType, Model};
use assembly_theory::node::{Node, Orientation};
use assembly_theory::plan::{FillPlan, Form, MeshJob, Transform};
use assembly_theory::scalar::Scalar;
use assembly_theory::xml::{element, read_events, EventKind};

fn s(text: &str) -> String {
    text.to_string()
}

fn number(v: &Scalar) -> f32 {
    match v {
        Scalar::Numeral(t) => t.parse().unwrap(),
        Scalar::Bits(b) => f32::from_bits(*b),
    }
}

fn numbers(v: &[Scalar]) -> Vec<f32> {
    v.iter().map(number).collect()
}

/// Turns a point by three angles in degrees, as the frames of a scene do.
fn turn(p: [f32; 3], euler: &[f32]) -> [f32; 3] {
    let r: Vec<f32> = euler.iter().map(|d| d * (std::f64::consts::PI / 180.0) as f32).collect();
    let (sx, cx) = r[0].sin_cos();
    let (sy, cy) = r[1].sin_cos();
    let (sz, cz) = r[2].sin_cos();
    let m = [
        [cy * cz, cy * sz, -sy],
        [sx * sy * cz - cx * sz, sx * sy * sz + cx * cz, sx * cy],
        [cx * sy * cz + sx * sz, cx * sy * sz - sx * cz, cx * cy],
    ];
    let mut out = [0.0; 3];
    for row in 0..3 {
        out[row] = m[row][0] * p[0] + m[row][1] * p[1] + m[row][2] * p[2];
    }
    out
}

fn through(p: [f32; 3], frame: &Transform) -> [f32; 3] {
    let scale = numbers(&frame.scale);
    let mut q = [p[0] * scale[0], p[1] * scale[1], p[2] * scale[2]];
    q = turn(q, &numbers(&frame.euler));
    for added in &frame.rotations {
        if let Orientation::Euler(e) = added {
            q = turn(q, &[number(&e.x), number(&e.y), number(&e.z)]);
        }
    }
    let pos = numbers(&frame.pos);
    [q[0] + pos[0], q[1] + pos[1], q[2] + pos[2]]
}

/// The vertices of a box job in the world.
fn box_vertices(job: &MeshJob) -> Vec<[f32; 3]> {
    assert_eq!(job.form, Form::Box);
    let pos = numbers(&job.pos);
    let size = numbers(&job.size);
    get_box_corners()
        .iter()
        .map(|c| {
            let side = [c.0, c.1, c.2];
            let mut p = [0.0; 3];
            for axis in 0..3 {
                p[axis] = if side[axis] { pos[axis] + size[axis] } else { pos[axis] - size[axis] };
            }
            let own = turn(p, &numbers(&job.euler));
            let mut q = [own[0] + pos[0], own[1] + pos[1], own[2] + pos[2]];
            for frame in &job.frames {
                q = through(q, frame);
            }
            q
        })
        .collect()
}

#[test]
fn the_reader_yields_the_elements_of_a_document() {
    let text = r#"<?xml version="1.0"?>
        <!-- a scene -->
        <mujoco model="m">
          <worldbody name="w">
            text
            <geom name="g" size="1 2"/>
          </worldbody>
        </mujoco>"#;
    let events = read_events(text).unwrap();
    assert_eq!(events.len(), 5);
    match &events[0] {
        ElementEvent::Start(tag, attrs) => {
            assert_eq!(tag, "mujoco");
            assert_eq!(attrs, &vec![(s("model"), s("m"))]);
        }
        _ => panic!("a start tag comes first"),
    }
    match &events[2] {
        ElementEvent::Empty(tag, attrs) => {
            assert_eq!(tag, "geom");
            assert_eq!(attrs, &vec![(s("name"), s("g")), (s("size"), s("1 2"))]);
        }
        _ => panic!("the geom has no content"),
    }
    match &events[4] {
        ElementEvent::End(tag) => assert_eq!(tag, "mujoco"),
        _ => panic!("an end tag comes last"),
    }
    assert_eq!(read_events("").unwrap().len(), 0);
}

#[test]
fn a_malformed_document_is_a_parse_error() {
    assert_eq!(read_events("<worldbody><body></worldbody>").err(), Some(ModelError::Parse));
    assert_eq!(read_events("<geom name=g/>").err(), Some(ModelError::Parse));
    assert_eq!(read_events("<geom name=\"a\" name=\"b\"/>").err(), Some(ModelError::Parse));
    assert_eq!(Model::load_model("<worldbody><body></worldbody>").err(), Some(ModelError::Parse));
}

#[test]
fn errors_of_every_kind_reach_the_caller() {
    assert_eq!(Model::load_model("<body/><body>").err(), Some(ModelError::Structure));
    assert_eq!(
        Model::load_model("<worldbody><geom pos=\"1 2\"/></worldbody>").err(),
        Some(ModelError::AttributeValue)
    );
    assert_eq!(
        Model::load_model("<worldbody><geom material=\"none\"/></worldbody>").err(),
        None,
        "without assets nothing is bound"
    );
    assert_eq!(
        Model::load_model("<asset></asset><worldbody><geom material=\"none\"/></worldbody>")
            .err(),
        Some(ModelError::AssetResolution)
    );
}

#[test]
fn a_box_in_a_body_is_moved_by_the_body() {
    let text = r#"<worldbody>
          <body pos="1 0 0">
            <geom type="box" size="1 1 1" pos="0 0 0"/>
          </body>
        </worldbody>"#;
    let model = Model::load_model(text).unwrap();
    let jobs = model.jobs().unwrap();
    assert_eq!(jobs.len(), 1);
    assert_eq!(jobs[0].indices.len(), 36);
    assert_eq!(jobs[0].frames.len(), 1);
    let vertices = box_vertices(&jobs[0]);
    assert_eq!(vertices.len(), 8);
    assert_eq!(vertices[0], [0.0, -1.0, -1.0]);
    assert_eq!(vertices[7], [2.0, 1.0, 1.0]);
}

#[test]
fn a_frame_that_does_nothing_leaves_every_vertex_as_it_is() {
    let text = r#"<worldbody>
          <body pos="0 0 0" euler="0 0 0" scale="1 1 1">
            <geom type="box" size="0.5 2 3"/>
          </body>
        </worldbody>"#;
    let jobs = Model::load_model(text).unwrap().jobs().unwrap();
    let vertices = box_vertices(&jobs[0]);
    let corners = get_box_corners();
    for (k, v) in vertices.iter().enumerate() {
        let c = corners[k];
        let expected = [
            if c.0 { 0.5 } else { -0.5 },
            if c.1 { 2.0 } else { -2.0 },
            if c.2 { 3.0 } else { -3.0 },
        ];
        assert_eq!(*v, expected);
    }
}

#[test]
fn frames_follow_from_the_innermost_body_outwards() {
    let text = r#"<worldbody>
          <body name="outer" pos="10 0 0">
            <body name="inner" pos="0 5 0" scale="2 2 2">
              <geom name="deep" type="sphere" size="3"/>
            </body>
            <geom name="shallow" pos="1 2 3" euler="0 0 90"/>
          </body>
          <geom name="top" type="plane"/>
          <joint name="j"/>
        </worldbody>"#;
    let jobs = Model::load_model(text).unwrap().jobs().unwrap();
    assert_eq!(jobs.len(), 2);
    let shallow = &jobs[0];
    assert_eq!(shallow.form, Form::Box);
    assert_eq!(numbers(&shallow.pos), vec![1.0, 2.0, 3.0]);
    assert_eq!(numbers(&shallow.euler), vec![0.0, 0.0, 90.0]);
    assert_eq!(numbers(&shallow.size), vec![0.0, 0.0, 0.0]);
    assert_eq!(shallow.frames.len(), 1);
    assert_eq!(numbers(&shallow.frames[0].pos), vec![10.0, 0.0, 0.0]);
    let deep = &jobs[1];
    assert_eq!(deep.form, Form::Sphere);
    assert_eq!(deep.indices.len(), 6144);
    assert_eq!(numbers(&deep.size), vec![3.0, 0.0, 0.0]);
    assert_eq!(deep.frames.len(), 2);
    assert_eq!(numbers(&deep.frames[0].pos), vec![0.0, 5.0, 0.0]);
    assert_eq!(numbers(&deep.frames[0].scale), vec![2.0, 2.0, 2.0]);
    assert_eq!(numbers(&deep.frames[1].pos), vec![10.0, 0.0, 0.0]);
    assert_eq!(numbers(&deep.frames[1].scale), vec![1.0, 1.0, 1.0]);
    assert_eq!(deep.fill, FillPlan::Plain);
    assert!(deep.texture.is_none());
}

const SCENE: &str = r#"<mujoco>
      <default>
        <geom size="1"/>
        <default class="red">
          <geom material="redmat"/>
        </default>
      </default>
      <asset>
        <texture name="wood" file="wood.png" gridsize="2 3" gridlayout="LRUDFB"/>
        <material name="wood"/>
        <material name="redmat" rgba="1 0 0.5 1"/>
        <mesh name="points" vertex="0 0 0  1 0 0  0 1 0  0 0 1" scale="2 2 2"/>
        <mesh name="square" file="square.obj"/>
      </asset>
      <worldbody>
        <body name="b">
          <geom name="r" class="red"/>
          <geom name="m" class="main"/>
          <geom name="w" material="wood" type="sphere"/>
          <geom name="p" type="mesh" mesh="points"/>
          <geom name="q" type="mesh" mesh="square"/>
        </body>
      </worldbody>
    </mujoco>"#;

fn attr(node: &Node, key: &str) -> Option<String> {
    node.get_set_attributes_list().get(key).cloned()
}

#[test]
fn red_reaches_the_geom_of_its_class_and_no_other() {
    let model = Model::load_model(SCENE).unwrap();
    let world = model.world_body.as_ref().unwrap();
    let body = &world.get_children().unwrap()[0];
    let geoms = body.get_children().unwrap();
    let by_name = |name: &str| geoms.iter().find(|g| g.get_name() == name).unwrap();
    assert_eq!(attr(by_name("r"), "material"), Some(s("redmat")));
    assert_eq!(attr(by_name("m"), "material"), None);
    assert_eq!(attr(by_name("p"), "material"), None);
    assert_eq!(attr(by_name("w"), "material"), Some(s("wood")));
    for g in geoms {
        assert_eq!(attr(g, "size"), Some(s("1")));
    }
}

#[test]
fn jobs_carry_what_fills_them() {
    let mut model = Model::load_model(SCENE).unwrap();
    let assets = model.asset_manager.as_mut().unwrap();
    assert_eq!(assets.to_load_files(), vec![s("square.obj"), s("wood.png")]);
    let mut files = assembly_theory::attrs::AttrMap::new();
    files.set(s("square.obj"), s("v 0 0 0\nv 1 0 0\nv 1 1 0\nv 0 1 0\nf 1 2 3 4\n"));
    assert_eq!(assets.load_obj_meshes(&files), Ok(()));
    assets.load_dimensions(&vec![(s("wood.png"), (6, 4))]);
    let jobs = model.jobs().unwrap();
    let forms: Vec<Form> = jobs.iter().map(|j| j.form).collect();
    assert_eq!(forms, vec![Form::Imported, Form::Hull, Form::Sphere, Form::Box, Form::Box]);
    let imported = &jobs[0];
    assert_eq!(imported.indices, vec![0, 1, 2, 0, 2, 3]);
    assert_eq!(
        numbers(&imported.vertices),
        vec![0.0, 0.0, 0.0, 1.0, 0.0, 0.0, 1.0, 1.0, 0.0, 0.0, 1.0, 0.0]
    );
    let hull = &jobs[1];
    assert_eq!(hull.indices.len(), 0);
    assert_eq!(hull.vertices.len(), 12);
    assert_eq!(numbers(&hull.mesh_scale), vec![2.0, 2.0, 2.0]);
    let wood = &jobs[2];
    assert_eq!(wood.fill, FillPlan::CubeCoordinates);
    let texture = wood.texture.as_ref().unwrap();
    assert_eq!(texture.texture_image_dimensions, (6, 4));
    assert_eq!(texture.gridsize(), (2, 3));
    let plain = &jobs[3];
    assert_eq!(plain.fill, FillPlan::Plain);
    assert_eq!(numbers(&plain.color), vec![1.0, 1.0, 1.0]);
    let red = &jobs[4];
    assert_eq!(red.fill, FillPlan::Color);
    assert_eq!(numbers(&red.color), vec![1.0, 0.0, 0.5]);
    assert!(red.texture.is_none());
}

#[test]
fn a_mesh_of_points_and_a_mesh_of_a_file_differ_in_their_triangles() {
    let text = r#"<asset>
          <mesh name="points" vertex="0 0 0 1 0 0 1 1 0 0 1 0"/>
          <mesh name="file" file="square.obj"/>
        </asset>
        <worldbody>
          <geom type="mesh" mesh="points"/>
          <geom type="mesh" mesh="file"/>
        </worldbody>"#;
    let mut model = Model::load_model(text).unwrap();
    let mut files = assembly_theory::attrs::AttrMap::new();
    files.set(s("square.obj"), s("v 0 0 0\nv 1 0 0\nv 1 1 0\nv 0 1 0\nf 1 2 3 4\n"));
    model.asset_manager.as_mut().unwrap().load_obj_meshes(&files).unwrap();
    let jobs = model.jobs().unwrap();
    assert_eq!(jobs[0].form, Form::Imported);
    assert_eq!(jobs[1].form, Form::Hull);
    assert_eq!(numbers(&jobs[0].vertices), numbers(&jobs[1].vertices));
    assert_eq!(jobs[0].indices, vec![0, 1, 2, 0, 2, 3]);
    assert_ne!(jobs[0].indices, jobs[1].indices);
}

#[test]
fn a_geom_with_the_form_of_a_mesh_needs_one() {
    let mut geom = assembly_theory::node::Geom::default();
    geom.add_attr(s("type"), s("mesh")).unwrap();
    let assets = assembly_theory::node::AssetsManager::new();
    assert_eq!(geom.getAllGeometries(&assets).err(), Some(ModelError::AssetResolution));
    geom.mesh = Some(3);
    assert_eq!(geom.getAllGeometries(&assets).err(), Some(ModelError::AssetResolution));
}

#[test]
fn textures_come_with_the_images_that_were_read() {
    let mut model = Model::load_model(SCENE).unwrap();
    assert_eq!(model.get_textures_data().len(), 0);
    model.asset_files.push((s("other.png"), (FileType::Image(1, 1), vec![9, 9, 9])));
    model.asset_files.push((s("wood.png"), (FileType::Image(1, 2), vec![1, 2, 3, 4, 5, 6])));
    let textures = model.get_textures_data();
    assert_eq!(textures.len(), 1);
    assert_eq!(textures[0].file_data, vec![1, 2, 3, 4, 5, 6]);
    assert_eq!(textures[0].get_file(), "wood.png");
}

#[test]
fn a_scene_without_bodies_has_no_jobs() {
    let model = Model::load_model("<asset><mesh name=\"m\"/></asset>").unwrap();
    assert!(model.world_body.is_none());
    assert_eq!(model.jobs().unwrap().len(), 0);
}

#[test]
fn what_the_reader_finds_becomes_an_element_or_nothing() {
    let attrs = vec![(s("name"), s("g"))];
    match element(EventKind::Start, s("body"), Some(attrs.clone())) {
        Ok(Some(ElementEvent::Start(tag, a))) => {
            assert_eq!(tag, "body");
            assert_eq!(a, attrs);
        }
        _ => panic!("a start tag is an element"),
    }
    match element(EventKind::Empty, s("geom"), Some(attrs.clone())) {
        Ok(Some(ElementEvent::Empty(tag, a))) => {
            assert_eq!(tag, "geom");
            assert_eq!(a, attrs);
        }
        _ => panic!("a tag without content is an element"),
    }
    match element(EventKind::End, s("body"), Some(Vec::new())) {
        Ok(Some(ElementEvent::End(tag))) => assert_eq!(tag, "body"),
        _ => panic!("an end tag is an element"),
    }
    assert!(matches!(element(EventKind::End, s("body"), None), Ok(Some(ElementEvent::End(_)))));
    assert!(matches!(element(EventKind::Other, s(""), Some(Vec::new())), Ok(None)));
    assert!(matches!(element(EventKind::Eof, s(""), None), Ok(None)));
    assert_eq!(element(EventKind::Start, s("body"), None).err(), Some(ModelError::Parse));
    assert_eq!(element(EventKind::Empty, s("geom"), None).err(), Some(ModelError::Parse));
}
