use assembly_theory::builder::{build, ElementEvent, TreeBuilder};
use assembly_theory::error::ModelError;
use assembly_theory::model::Model;
use assembly_theory::node::{Defaults, Node};
use assembly_theory::schema::NodeKind;

fn s(text: &str) -> String {
    text.to_string()
}

fn attrs(pairs: &[(&str, &str)]) -> Vec<(String, String)> {
    pairs.iter().map(|(k, v)| (k.to_string(), v.to_string())).collect()
}

fn start(tag: &str, pairs: &[(&str, &str)]) -> ElementEvent {
    ElementEvent::Start(s(tag), attrs(pairs))
}

fn empty(tag: &str, pairs: &[(&str, &str)]) -> ElementEvent {
    ElementEvent::Empty(s(tag), attrs(pairs))
}

fn end(tag: &str) -> ElementEvent {
    ElementEvent::End(s(tag))
}

fn value(node: &Node, key: &str) -> Option<String> {
    node.get_set_attributes_list().get(key).cloned()
}

fn children(node: &Node) -> &Vec<Node> {
    node.get_children().expect("a kind with children")
}

#[test]
fn a_document_builds_its_trees() {
    let events = vec![
        start("worldbody", &[("name", "world")]),
        start("body", &[("name", "a"), ("pos", "1 0 0")]),
        empty("geom", &[("name", "g1"), ("type", "box")]),
        empty("joint", &[("name", "j1")]),
        start("body", &[("name", "b")]),
        empty("geom", &[("name", "g2")]),
        end("body"),
        end("body"),
        empty("geom", &[("name", "g3")]),
        end("worldbody"),
    ];
    let built = build(&events).unwrap();
    assert_eq!(built.stack.len(), 0);
    assert!(built.defaults.is_none() && built.assets.is_none());
    let world = built.world_body.unwrap();
    assert_eq!(world.kind(), NodeKind::WorldBody);
    assert_eq!(world.get_name(), "world");
    let top: Vec<String> = children(&world).iter().map(|c| c.get_name()).collect();
    assert_eq!(top, vec![s("g3"), s("a")]);
    let a = &children(&world)[1];
    let inside: Vec<String> = children(a).iter().map(|c| c.get_name()).collect();
    assert_eq!(inside, vec![s("b"), s("j1"), s("g1")]);
    assert_eq!(children(&children(a)[0])[0].get_name(), "g2");
}

#[test]
fn what_is_still_open_at_the_end_closes() {
    let events = vec![start("worldbody", &[]), start("body", &[("name", "a")]), empty("geom", &[])];
    let built = build(&events).unwrap();
    let world = built.world_body.unwrap();
    assert_eq!(children(&world).len(), 1);
    assert_eq!(children(&children(&world)[0]).len(), 1);
}

#[test]
fn unknown_elements_are_passed_over() {
    let events = vec![
        start("mujoco", &[("model", "x")]),
        start("worldbody", &[]),
        start("camera", &[("pos", "not numbers")]),
        end("camera"),
        empty("light", &[]),
        empty("geom", &[("name", "g")]),
        end("worldbody"),
        end("mujoco"),
    ];
    let built = build(&events).unwrap();
    let world = built.world_body.unwrap();
    assert_eq!(children(&world).len(), 1);
}

#[test]
fn elements_without_a_parent_are_a_structural_error() {
    assert_eq!(build(&vec![start("body", &[])]).err(), Some(ModelError::Structure));
    assert_eq!(build(&vec![empty("geom", &[])]).err(), Some(ModelError::Structure));
    assert_eq!(build(&vec![empty("mesh", &[])]).err(), Some(ModelError::Structure));
    assert_eq!(build(&vec![start("geom", &[])]).err(), Some(ModelError::Structure));
}

#[test]
fn assets_stand_at_the_root_only() {
    let nested = vec![start("worldbody", &[]), start("asset", &[])];
    assert_eq!(build(&nested).err(), Some(ModelError::Structure));
    let root = vec![start("asset", &[]), empty("mesh", &[("name", "m")]), end("asset")];
    let built = build(&root).unwrap();
    assert_eq!(children(built.assets.as_ref().unwrap()).len(), 1);
}

#[test]
fn an_end_tag_must_match_what_is_open() {
    let events = vec![start("worldbody", &[]), start("body", &[]), end("worldbody")];
    assert_eq!(build(&events).err(), Some(ModelError::Structure));
    let stray = vec![end("body"), start("worldbody", &[]), end("worldbody")];
    assert!(build(&stray).is_ok());
}

#[test]
fn a_malformed_attribute_stops_the_build() {
    let events = vec![start("worldbody", &[]), empty("geom", &[("size", "1 2 3 4")])];
    assert_eq!(build(&events).err(), Some(ModelError::AttributeValue));
    let body = vec![start("worldbody", &[]), start("body", &[("euler", "0 0")])];
    assert_eq!(build(&body).err(), Some(ModelError::AttributeValue));
}

#[test]
fn leaf_tags_with_content_are_elements_too_and_containers_without_are_not() {
    let events = vec![
        start("worldbody", &[]),
        start("geom", &[("name", "g")]),
        empty("joint", &[]),
        end("geom"),
        empty("body", &[("name", "skipped")]),
        end("worldbody"),
    ];
    let world = build(&events).unwrap().world_body.unwrap();
    assert_eq!(children(&world).len(), 1);
    assert_eq!(children(&world)[0].get_name(), "g");
}

#[test]
fn childclass_is_stamped_when_a_child_opens() {
    let events = vec![
        start("worldbody", &[("childclass", "red")]),
        start("body", &[("name", "a")]),
        empty("geom", &[("name", "g")]),
        end("body"),
        start("body", &[("name", "b"), ("childclass", "blue")]),
        empty("geom", &[("name", "h")]),
        end("body"),
        end("worldbody"),
    ];
    let world = build(&events).unwrap().world_body.unwrap();
    let b = &children(&world)[0];
    let a = &children(&world)[1];
    assert_eq!(a.get_class(), "red");
    assert_eq!(value(a, "childclass"), Some(s("red")));
    assert_eq!(children(a)[0].get_class(), "red");
    assert_eq!(b.get_class(), "red");
    assert_eq!(value(b, "childclass"), Some(s("blue")));
    assert_eq!(children(b)[0].get_class(), "blue");
}

#[test]
fn the_builder_takes_one_event_at_a_time() {
    let mut builder = TreeBuilder::new();
    assert_eq!(builder.step(&start("default", &[("class", "main")])), Ok(()));
    assert_eq!(builder.step(&start("default", &[("class", "red")])), Ok(()));
    assert_eq!(builder.stack.len(), 2);
    builder.fold();
    assert_eq!(builder.stack.len(), 1);
    assert_eq!(builder.step(&end("geom")), Err(ModelError::Structure));
    builder.settle();
    assert_eq!(builder.stack.len(), 0);
    assert_eq!(children(builder.defaults.as_ref().unwrap()).len(), 1);
}

fn red_scene() -> Vec<ElementEvent> {
    vec![
        start("default", &[]),
        empty("geom", &[("size", "1")]),
        start("default", &[("class", "red")]),
        empty("geom", &[("material", "redmat")]),
        end("default"),
        end("default"),
        start("asset", &[]),
        empty("material", &[("name", "redmat"), ("rgba", "1 0 0 1")]),
        end("asset"),
        start("worldbody", &[]),
        start("body", &[("name", "b")]),
        empty("geom", &[("name", "plain")]),
        empty("geom", &[("name", "main"), ("class", "main")]),
        empty("geom", &[("name", "red"), ("class", "red")]),
        empty("geom", &[("name", "own"), ("class", "red"), ("material", "redmat"), ("size", "2")]),
        end("body"),
        end("worldbody"),
    ]
}

#[test]
fn a_default_class_reaches_the_elements_of_its_class_only() {
    let model = Model::from_events(&red_scene()).unwrap();
    let world = model.world_body.unwrap();
    let body = &children(&world)[0];
    let geoms = children(body);
    let by_name = |name: &str| geoms.iter().find(|g| g.get_name() == name).unwrap();
    assert_eq!(value(by_name("red"), "material"), Some(s("redmat")));
    assert_eq!(value(by_name("red"), "size"), Some(s("1")));
    assert_eq!(value(by_name("main"), "material"), None);
    assert_eq!(value(by_name("main"), "size"), Some(s("1")));
    assert_eq!(value(by_name("plain"), "material"), None);
    assert_eq!(value(by_name("plain"), "size"), Some(s("1")));
}

#[test]
fn what_was_set_on_an_element_is_never_overwritten_by_a_default() {
    let model = Model::from_events(&red_scene()).unwrap();
    let world = model.world_body.unwrap();
    let geoms = children(&children(&world)[0]);
    let own = geoms.iter().find(|g| g.get_name() == "own").unwrap();
    assert_eq!(value(own, "size"), Some(s("2")));
    assert_eq!(value(own, "material"), Some(s("redmat")));
    assert_eq!(value(own, "class"), Some(s("red")));
}

#[test]
fn a_nearer_class_wins_over_what_it_inherits() {
    let mut root = Defaults::new();
    let mut root_node = {
        let mut geom = Node::new(NodeKind::Geom);
        geom.add_attr(s("size"), s("1")).unwrap();
        geom.add_attr(s("type"), s("sphere")).unwrap();
        let mut nested = Node::new(NodeKind::Defaults);
        nested.add_attr(s("class"), s("red")).unwrap();
        let mut red_geom = Node::new(NodeKind::Geom);
        red_geom.add_attr(s("size"), s("3")).unwrap();
        nested.add_child(red_geom);
        let mut node = Node::Defaults(Defaults::new());
        node.add_child(geom);
        node.add_child(nested);
        node
    };
    if let Node::Defaults(d) = &mut root_node {
        std::mem::swap(&mut root, d);
    }
    let mut geom = Node::new(NodeKind::Geom);
    geom.add_attr(s("class"), s("red")).unwrap();
    assert_eq!(root.apply_defaults(&mut geom, None), Ok(()));
    assert_eq!(value(&geom, "size"), Some(s("3")));
    assert_eq!(value(&geom, "type"), Some(s("sphere")));
    match &root.children[0] {
        Node::Defaults(red) => {
            assert_eq!(red.element_attrs[0].0, "geom");
            assert_eq!(red.element_attrs[0].1.get("size"), Some(&s("3")));
            assert_eq!(red.element_attrs[0].1.get("type"), Some(&s("sphere")));
        }
        _ => panic!("a class was nested"),
    }
}

#[test]
fn a_malformed_default_is_an_error_when_it_is_applied() {
    let mut class = Defaults::new();
    let mut joint = Node::new(NodeKind::Joint);
    joint.add_attr(s("name"), s("j")).unwrap();
    class.element_attrs.push((s("geom"), joint.get_set_attributes_list()));
    let mut attrs_map = assembly_theory::attrs::AttrMap::new();
    attrs_map.set(s("pos"), s("1 2"));
    class.element_attrs.push((s("body"), attrs_map));
    let mut geom = Node::new(NodeKind::Geom);
    assert_eq!(class.apply_defaults(&mut geom, None), Ok(()));
    assert_eq!(geom.get_name(), "j");
    let mut body = Node::new(NodeKind::Body);
    assert_eq!(class.apply_defaults(&mut body, None), Err(ModelError::AttributeValue));
}

#[test]
fn errors_have_messages() {
    assert_eq!(ModelError::Parse.message(), "the document is malformed");
    assert_eq!(ModelError::Structure.message(), "an element stands where it cannot");
    assert_eq!(ModelError::AttributeValue.message(), "an attribute value is malformed");
    assert_eq!(ModelError::AssetResolution.message(), "a named asset is missing");
}
