use assembly_theory::attrs::AttrMap;
use assembly_theory::error::ModelError;
use assembly_theory::node::{Body, Geom, Mesh, MeshType, Node};
use assembly_theory::ops::outcome;
use assembly_theory::scalar::Scalar;
use assembly_theory::schema::{kind_of_tag, shape_of_key, tag, NodeKind, ValueShape};

fn s(text: &str) -> String {
    text.to_string()
}

fn value(node: &Node, key: &str) -> Option<String> {
    node.get_set_attributes_list().get(key).cloned()
}

const KINDS: [NodeKind; 9] = [
    NodeKind::Geom,
    NodeKind::WorldBody,
    NodeKind::Body,
    NodeKind::Joint,
    NodeKind::Defaults,
    NodeKind::Assets,
    NodeKind::Mesh,
    NodeKind::Texture,
    NodeKind::Material,
];

#[test]
fn first_value_of_a_key_stays() {
    let mut geom = Node::new(NodeKind::Geom);
    assert_eq!(geom.add_attr(s("name"), s("first")), Ok(true));
    assert_eq!(geom.add_attr(s("name"), s("second")), Ok(false));
    assert_eq!(geom.get_name(), "first");
    assert_eq!(value(&geom, "name"), Some(s("first")));
}

#[test]
fn first_value_stays_for_every_key_of_every_kind() {
    let keys = [
        "class", "childclass", "name", "pos", "euler", "scale", "size", "type", "mesh", "material",
        "file", "vertex", "gridsize", "gridlayout", "rgba", "texture",
    ];
    for kind in KINDS {
        for key in keys {
            let (first, second) = match shape_of_key(kind, key) {
                None => {
                    let mut node = Node::new(kind);
                    assert_eq!(node.add_attr(s(key), s("1 2 3")), Ok(false));
                    assert_eq!(value(&node, key), None);
                    continue;
                }
                Some(ValueShape::Grid) => ("2 3", "4 5"),
                Some(ValueShape::Four) => ("1 2 3 4", "5 6 7 8"),
                Some(_) => ("1 2 3", "4 5 6"),
            };
            let mut node = Node::new(kind);
            assert_eq!(node.add_attr(s(key), s(first)), Ok(true), "{:?} {}", kind, key);
            assert_eq!(node.add_attr(s(key), s(second)), Ok(false), "{:?} {}", kind, key);
            assert_eq!(value(&node, key), Some(s(first)));
            assert_eq!(node.get_set_attributes_list().len(), 1);
        }
    }
}

#[test]
fn a_second_offer_is_turned_down_even_where_its_value_is_malformed() {
    let mut geom = Node::new(NodeKind::Geom);
    assert_eq!(geom.add_attr(s("pos"), s("1 2 3")), Ok(true));
    assert_eq!(geom.add_attr(s("pos"), s("rubbish")), Ok(false));
}

#[test]
fn malformed_position_is_an_error() {
    let mut geom = Node::new(NodeKind::Geom);
    assert_eq!(geom.add_attr(s("pos"), s("1 2")), Err(ModelError::AttributeValue));
    assert_eq!(geom.add_attr(s("pos"), s("1 2 x")), Err(ModelError::AttributeValue));
    assert_eq!(value(&geom, "pos"), None);
    assert_eq!(geom.add_attr(s("pos"), s("1 2 3")), Ok(true));
}

#[test]
fn unknown_keys_are_passed_over() {
    let mut joint = Node::new(NodeKind::Joint);
    assert_eq!(joint.add_attr(s("pos"), s("not numbers")), Ok(false));
    assert_eq!(joint.add_attr(s("colour"), s("red")), Ok(false));
    assert_eq!(joint.get_set_attributes_list().len(), 0);
    let mut assets = Node::new(NodeKind::Assets);
    assert_eq!(assets.add_attr(s("name"), s("a")), Ok(false));
}

#[test]
fn outcome_says_what_an_offer_comes_to() {
    let mut attrs = AttrMap::new();
    assert_eq!(outcome(NodeKind::Body, &attrs, "scale", "1 2 3"), Ok(true));
    assert_eq!(outcome(NodeKind::Body, &attrs, "scale", "1 2"), Err(ModelError::AttributeValue));
    assert_eq!(outcome(NodeKind::Body, &attrs, "size", "1 2"), Ok(false));
    assert!(attrs.set(s("scale"), s("1 1 1")));
    assert!(!attrs.set(s("scale"), s("2 2 2")));
    assert_eq!(outcome(NodeKind::Body, &attrs, "scale", "1 2"), Ok(false));
    assert_eq!(attrs.get("scale"), Some(&s("1 1 1")));
    assert_eq!(attrs.position("scale"), 0);
    assert_eq!(attrs.position("pos"), 1);
}

#[test]
fn attributes_are_offered_in_order_until_one_fails() {
    let mut geom = Node::new(NodeKind::Geom);
    let attrs = vec![
        (s("name"), s("g")),
        (s("unknown"), s("x")),
        (s("name"), s("h")),
        (s("size"), s("1 2")),
    ];
    assert_eq!(geom.add_attrs(attrs), Ok(()));
    assert_eq!(geom.get_name(), "g");
    assert_eq!(geom.get_set_attributes_list().len(), 2);
    let mut other = Node::new(NodeKind::Geom);
    let bad = vec![(s("name"), s("g")), (s("euler"), s("0 0")), (s("size"), s("1"))];
    assert_eq!(other.add_attrs(bad), Err(ModelError::AttributeValue));
}

#[test]
fn class_is_main_unless_one_is_set() {
    for kind in KINDS {
        assert_eq!(Node::new(kind).get_class(), "main");
    }
    let mut body = Node::new(NodeKind::Body);
    body.add_attr(s("class"), s("red")).unwrap();
    assert_eq!(body.get_class(), "red");
    let mut geom = Node::new(NodeKind::Geom);
    geom.add_attr(s("class"), s("")).unwrap();
    assert_eq!(geom.get_class(), "main");
}

#[test]
fn tags_name_kinds() {
    for kind in KINDS {
        assert_eq!(kind_of_tag(&tag(kind)), Some(kind));
        assert_eq!(Node::new(kind).get_node_name(), tag(kind));
        assert_eq!(Node::new(kind).kind(), kind);
    }
    assert_eq!(tag(NodeKind::Defaults), "default");
    assert_eq!(tag(NodeKind::Assets), "asset");
    assert_eq!(kind_of_tag("camera"), None);
    assert_eq!(kind_of_tag("Geom"), None);
}

#[test]
fn names_of_meshes_and_textures_fall_back_to_the_stem_of_the_file() {
    let mut mesh = Node::new(NodeKind::Mesh);
    assert_eq!(mesh.get_name(), "");
    mesh.add_attr(s("file"), s("cube.v2.obj")).unwrap();
    assert_eq!(mesh.get_name(), "cube");
    mesh.add_attr(s("name"), s("dice")).unwrap();
    assert_eq!(mesh.get_name(), "dice");
    let mut texture = Node::new(NodeKind::Texture);
    texture.add_attr(s("file"), s("skin")).unwrap();
    assert_eq!(texture.get_name(), "skin");
    assert_eq!(Node::new(NodeKind::Defaults).get_name(), "");
}

#[test]
fn a_mesh_keeps_more_than_the_attribute() {
    let mut mesh = Mesh::new(s("made"));
    assert_eq!(mesh.mesh_contents_type, MeshType::Inline);
    assert_eq!(mesh.add_attr(s("file"), s("a.obj")), Ok(true));
    assert_eq!(mesh.mesh_contents_type, MeshType::ObjFile);
    assert_eq!(mesh.add_attr(s("vertex"), s("0 0 0  1 0 0\n0 1 0")), Ok(true));
    assert_eq!(mesh.mesh_contents_type, MeshType::Inline);
    assert_eq!(mesh.vertices.len(), 9);
    match &mesh.vertices[3] {
        Scalar::Numeral(t) => assert_eq!(t, "1"),
        Scalar::Bits(_) => panic!("a numeral was set"),
    }
    assert_eq!(mesh.add_attr(s("vertex"), s("5 5 5")), Ok(false));
    assert_eq!(mesh.vertices.len(), 9);
    assert_eq!(mesh.add_attr(s("name"), s("m")), Ok(true));
    assert_eq!(mesh.name, "m");
    let mut broken = Mesh::new(s(""));
    assert_eq!(broken.add_attr(s("vertex"), s("0 0 zero")), Err(ModelError::AttributeValue));
    assert_eq!(broken.vertices.len(), 0);
}

#[test]
fn childclass_reaches_the_children_that_are_there() {
    let mut body = Node::new(NodeKind::Body);
    let mut inner = Node::new(NodeKind::Body);
    assert!(inner.add_child(Node::new(NodeKind::Geom)));
    assert!(body.add_child(inner));
    assert!(body.add_child(Node::new(NodeKind::Geom)));
    let mut named = Node::new(NodeKind::Body);
    named.add_attr(s("childclass"), s("own")).unwrap();
    assert!(body.add_child(named));
    let mut classed = Node::new(NodeKind::Geom);
    classed.add_attr(s("class"), s("blue")).unwrap();
    assert!(body.add_child(classed));
    assert_eq!(body.add_attr(s("childclass"), s("red")), Ok(true));
    let children = body.get_children().unwrap();
    assert_eq!(children.len(), 4);
    // A child with a class of its own keeps it.
    assert_eq!(children[0].get_class(), "blue");
    assert_eq!(value(&children[0], "childclass"), None);
    // A child with a childclass of its own keeps it, takes the class, and hands nothing down.
    assert_eq!(value(&children[1], "class"), Some(s("red")));
    assert_eq!(value(&children[1], "childclass"), Some(s("own")));
    // A geom takes the class; it knows no childclass.
    assert_eq!(value(&children[2], "class"), Some(s("red")));
    assert_eq!(children[2].get_class(), "red");
    assert_eq!(value(&children[2], "childclass"), None);
    // A body takes both, and hands them down in turn.
    assert_eq!(children[3].get_class(), "red");
    assert_eq!(value(&children[3], "class"), Some(s("red")));
    assert_eq!(value(&children[3], "childclass"), Some(s("red")));
    let grandchildren = children[3].get_children().unwrap();
    assert_eq!(value(&grandchildren[0], "class"), Some(s("red")));
    assert_eq!(value(&grandchildren[0], "childclass"), None);
}

#[test]
fn childclass_set_late_is_as_childclass_set_early() {
    let mut late = Node::new(NodeKind::Body);
    assert!(late.add_child(Node::new(NodeKind::Body)));
    late.add_attr(s("childclass"), s("red")).unwrap();
    let mut early = Node::new(NodeKind::Body);
    early.add_attr(s("childclass"), s("red")).unwrap();
    assert!(early.add_child(Node::new(NodeKind::Body)));
    let a = &late.get_children().unwrap()[0];
    let b = &early.get_children().unwrap()[0];
    assert_eq!(a.get_set_attributes_list().entries, b.get_set_attributes_list().entries);
    assert_eq!(a.get_set_attributes_list().entries, vec![(s("class"), s("red")), (s("childclass"), s("red"))]);
}

#[test]
fn children_that_come_later_are_stamped_with_class_and_childclass() {
    let mut body = Node::new(NodeKind::Body);
    body.add_attr(s("childclass"), s("red")).unwrap();
    assert!(body.add_child(Node::new(NodeKind::Geom)));
    let mut own = Node::new(NodeKind::Body);
    own.add_attr(s("class"), s("blue")).unwrap();
    assert!(body.add_child(own));
    let children = body.get_children().unwrap();
    assert_eq!(children[0].get_class(), "blue");
    assert_eq!(value(&children[0], "childclass"), Some(s("red")));
    assert_eq!(children[1].get_class(), "red");
    assert_eq!(value(&children[1], "childclass"), None);
}

#[test]
fn the_child_added_last_comes_first() {
    let mut world = Node::new(NodeKind::WorldBody);
    for name in ["a", "b", "c"] {
        let mut body = Node::new(NodeKind::Body);
        body.add_attr(s("name"), s(name)).unwrap();
        assert!(world.add_child(body));
    }
    let names: Vec<String> = world.get_children().unwrap().iter().map(|c| c.get_name()).collect();
    assert_eq!(names, vec![s("c"), s("b"), s("a")]);
}

#[test]
fn kinds_without_children_let_a_child_go() {
    for kind in [
        NodeKind::Geom,
        NodeKind::Joint,
        NodeKind::Mesh,
        NodeKind::Texture,
        NodeKind::Material,
    ] {
        let mut node = Node::new(kind);
        assert!(!node.add_child(Node::new(NodeKind::Geom)));
        assert!(node.get_children().is_none());
    }
}

#[test]
fn a_default_class_records_the_attributes_of_what_is_not_a_class() {
    let mut class = Node::new(NodeKind::Defaults);
    let mut geom = Node::new(NodeKind::Geom);
    geom.add_attr(s("material"), s("redmat")).unwrap();
    assert!(!class.add_child(geom));
    let mut again = Node::new(NodeKind::Geom);
    again.add_attr(s("size"), s("1")).unwrap();
    assert!(!class.add_child(again));
    assert!(class.add_child(Node::new(NodeKind::Defaults)));
    match &class {
        Node::Defaults(d) => {
            assert_eq!(d.children.len(), 1);
            assert_eq!(d.element_attrs.len(), 1);
            assert_eq!(d.element_attrs[0].0, "geom");
            assert_eq!(d.element_attrs[0].1.get("size"), Some(&s("1")));
            assert_eq!(d.element_attrs[0].1.get("material"), None);
        }
        _ => panic!("a default class was made"),
    }
}

#[test]
fn new_elements_hold_nothing() {
    let geom = Geom::default();
    assert_eq!(geom.attrs_map.len(), 0);
    assert!(geom.mesh.is_none() && geom.material.is_none());
    let body = Body::default();
    assert_eq!(body.children.len(), 0);
    assert_eq!(body.added_rotations.len(), 0);
}
