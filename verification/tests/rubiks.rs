use assembly_theory::node::{Node, Orientation};
use assembly_theory::plugin::{Plugin, PluginCapabilities, PluginManager};
use assembly_theory::rubiks::{
    get_corner_slots, get_edge_slots, get_rotation_params, slot_position, CornerSlot, CubeMove,
    Cubelet, EdgeSlot, FaceColor, RubiksCube, SlottedCubelet,
};
use assembly_theory::scalar::Scalar;
use assembly_theory::schema::NodeKind;

fn s(text: &str) -> String {
    text.to_string()
}

fn slot(cube: &RubiksCube, name: &str) -> SlottedCubelet {
    cube.cube_slot_map[slot_position(&cube.cube_slot_map, name)].1
}

fn text(v: &Scalar) -> String {
    match v {
        Scalar::Numeral(t) => t.clone(),
        Scalar::Bits(_) => panic!("a numeral was made"),
    }
}

/// A scene with a core of 26 bodies, named by the number that a move counts them by.
fn scene() -> Node {
    let mut core = Node::new(NodeKind::Body);
    core.add_attr(s("name"), s("core")).unwrap();
    for k in 0..26 {
        let mut body = Node::new(NodeKind::Body);
        body.add_attr(s("name"), k.to_string()).unwrap();
        core.add_child(Node::new(NodeKind::Geom));
        core.add_child(body);
    }
    let mut world = Node::new(NodeKind::WorldBody);
    world.add_child(core);
    world.add_child(Node::new(NodeKind::Body));
    world
}

fn turned(world: &Node) -> Vec<(String, usize)> {
    let core = world.get_children().unwrap().iter().find(|c| c.get_name() == "core").unwrap();
    core.get_children()
        .unwrap()
        .iter()
        .filter_map(|c| match c {
            Node::Body(b) if !b.added_rotations.is_empty() => {
                Some((c.get_name(), b.added_rotations.len()))
            }
            _ => None,
        })
        .collect()
}

#[test]
fn slots_hold_the_number_of_their_cubelet() {
    let mut center = SlottedCubelet::Center(3);
    assert_eq!(center.get_index(), 3);
    center.set_index(9);
    assert_eq!(center, SlottedCubelet::Center(9));
    let mut corner = SlottedCubelet::Corner(CornerSlot::UpLeftBack(1, 0, 2), 22);
    corner.set_index(5);
    assert_eq!(corner, SlottedCubelet::Corner(CornerSlot::UpLeftBack(1, 0, 2), 5));
    let mut edge = SlottedCubelet::Edge(EdgeSlot::UpBack(0, 1), 14);
    assert_eq!(edge.get_index(), 14);
    edge.set_index(0);
    assert_eq!(edge, SlottedCubelet::Edge(EdgeSlot::UpBack(0, 1), 0));
}

#[test]
fn places_of_an_edge_are_seen_along_the_axes_it_lies_on() {
    let e = EdgeSlot::LeftUp(4, 5);
    assert_eq!(e.get_color_index("x"), (4, 5));
    assert_eq!(e.get_color_index("y"), (5, 4));
    assert_eq!(e.get_color_index("z"), (0, 0));
    let f = EdgeSlot::RightFront(4, 5);
    assert_eq!(f.get_color_index("x"), (4, 5));
    assert_eq!(f.get_color_index("y"), (0, 0));
    assert_eq!(f.get_color_index("z"), (5, 4));
    let g = EdgeSlot::DownBack(4, 5);
    assert_eq!(g.get_color_index("x"), (0, 0));
    assert_eq!(g.get_color_index("y"), (4, 5));
    assert_eq!(g.get_color_index("z"), (5, 4));
    assert_eq!(g.get_color_index("w"), (0, 0));
}

#[test]
fn places_are_put_into_an_edge_along_an_axis() {
    let mut e = EdgeSlot::LeftDown(0, 0);
    e.set_color_index("x", (1, 2));
    assert_eq!(e, EdgeSlot::LeftDown(1, 2));
    e.set_color_index("y", (1, 2));
    assert_eq!(e, EdgeSlot::LeftDown(2, 1));
    e.set_color_index("z", (7, 7));
    assert_eq!(e, EdgeSlot::LeftDown(2, 1));
    let mut f = EdgeSlot::LeftBack(0, 0);
    f.set_color_index("z", (1, 2));
    assert_eq!(f, EdgeSlot::LeftBack(2, 1));
    f.set_color_index("y", (9, 9));
    assert_eq!(f, EdgeSlot::LeftBack(2, 1));
    let mut g = EdgeSlot::UpFront(0, 0);
    g.set_color_index("y", (1, 2));
    assert_eq!(g, EdgeSlot::UpFront(1, 2));
    g.set_color_index("z", (1, 2));
    assert_eq!(g, EdgeSlot::UpFront(2, 1));
    g.set_color_index("x", (9, 9));
    assert_eq!(g, EdgeSlot::UpFront(2, 1));
}

#[test]
fn places_of_a_corner_are_seen_along_every_axis() {
    let c = CornerSlot::DownRightBack(4, 5, 6);
    assert_eq!(c.get_color_index("x"), (4, 5, 6));
    assert_eq!(c.get_color_index("y"), (5, 4, 6));
    assert_eq!(c.get_color_index("z"), (6, 4, 5));
    assert_eq!(c.get_color_index(""), (0, 0, 0));
    let mut d = CornerSlot::UpRightFront(0, 0, 0);
    d.set_color_index("x", (1, 2, 3));
    assert_eq!(d, CornerSlot::UpRightFront(1, 2, 3));
    d.set_color_index("y", (1, 2, 3));
    assert_eq!(d, CornerSlot::UpRightFront(2, 1, 3));
    d.set_color_index("z", (1, 2, 3));
    assert_eq!(d, CornerSlot::UpRightFront(2, 3, 1));
    d.set_color_index("q", (9, 9, 9));
    assert_eq!(d, CornerSlot::UpRightFront(2, 3, 1));
    for axis in ["x", "y", "z"] {
        let mut e = CornerSlot::UpLeftFront(0, 0, 0);
        e.set_color_index(axis, (7, 8, 9));
        assert_eq!(e.get_color_index(axis), (7, 8, 9));
    }
}

#[test]
fn a_new_cube_is_solved() {
    let cube = RubiksCube::new();
    assert_eq!(cube.cube_slot_map.len(), 26);
    assert_eq!(cube.cubelets.len(), 26);
    assert_eq!(cube.cubelets[0], Cubelet::Center(FaceColor::Red));
    assert_eq!(cube.cubelets[25], Cubelet::Corner(FaceColor::Green, FaceColor::Orange, FaceColor::Yellow));
    assert_eq!(slot(&cube, "right"), SlottedCubelet::Center(0));
    assert_eq!(slot(&cube, "left-up"), SlottedCubelet::Edge(EdgeSlot::LeftUp(1, 0), 10));
    assert_eq!(
        slot(&cube, "down-right-back"),
        SlottedCubelet::Corner(CornerSlot::DownRightBack(1, 0, 2), 20)
    );
    let mut numbers: Vec<u32> = cube.cube_slot_map.iter().map(|e| e.1.get_index()).collect();
    numbers.sort();
    assert_eq!(numbers, (0..26).collect::<Vec<u32>>());
}

#[test]
fn a_move_names_its_slots_and_its_angles() {
    assert_eq!(
        get_corner_slots(CubeMove::LMinus),
        vec![s("up-left-back"), s("up-left-front"), s("down-left-front"), s("down-left-back")]
    );
    assert_eq!(
        get_corner_slots(CubeMove::BPlus),
        vec![s("up-right-back"), s("up-left-back"), s("down-left-back"), s("down-right-back")]
    );
    assert_eq!(
        get_edge_slots(CubeMove::UPlus),
        vec![s("up-front"), s("left-up"), s("up-back"), s("right-up")]
    );
    assert_eq!(
        get_edge_slots(CubeMove::DMinus),
        vec![s("down-front"), s("right-down"), s("down-back"), s("left-down")]
    );
    let angles = |mv| {
        let (x, y, z) = get_rotation_params(mv);
        (text(&x), text(&y), text(&z))
    };
    assert_eq!(angles(CubeMove::LPlus), (s("90"), s("0"), s("0")));
    assert_eq!(angles(CubeMove::RPlus), (s("-90"), s("0"), s("0")));
    assert_eq!(angles(CubeMove::UPlus), (s("0"), s("-90"), s("0")));
    assert_eq!(angles(CubeMove::DPlus), (s("0"), s("90"), s("0")));
    assert_eq!(angles(CubeMove::FPlus), (s("0"), s("0"), s("90")));
    assert_eq!(angles(CubeMove::BPlus), (s("0"), s("0"), s("-90")));
    assert_eq!(angles(CubeMove::BMinus), angles(CubeMove::FPlus));
}

#[test]
fn a_move_turns_the_nine_cubelets_of_its_face() {
    let cube = RubiksCube::new();
    let mut left = cube.get_indices_for_move(CubeMove::LPlus);
    left.sort();
    assert_eq!(left, vec![1, 10, 11, 12, 13, 22, 23, 24, 25]);
    let mut up = cube.get_indices_for_move(CubeMove::UMinus);
    up.sort();
    assert_eq!(up, vec![2, 6, 10, 14, 15, 18, 19, 22, 23]);
}

#[test]
fn a_move_carries_its_corners_and_edges_round() {
    let mut cube = RubiksCube::new();
    cube.update_rep(CubeMove::LPlus);
    // Each slot of the round takes the cubelet of the slot before it.
    assert_eq!(slot(&cube, "up-left-back").get_index(), 24);
    assert_eq!(slot(&cube, "up-left-front").get_index(), 22);
    assert_eq!(slot(&cube, "down-left-front").get_index(), 23);
    assert_eq!(slot(&cube, "down-left-back").get_index(), 25);
    assert_eq!(
        slot(&cube, "up-left-front"),
        SlottedCubelet::Corner(CornerSlot::UpLeftFront(1, 2, 0), 22)
    );
    assert_eq!(slot(&cube, "left-up").get_index(), 12);
    assert_eq!(slot(&cube, "left-front").get_index(), 10);
    assert_eq!(slot(&cube, "left-down").get_index(), 13);
    assert_eq!(slot(&cube, "left-back").get_index(), 11);
    assert_eq!(slot(&cube, "left-up"), SlottedCubelet::Edge(EdgeSlot::LeftUp(0, 1), 12));
    assert_eq!(slot(&cube, "right-up"), SlottedCubelet::Edge(EdgeSlot::RightUp(0, 1), 6));
    let mut numbers: Vec<u32> = cube.cube_slot_map.iter().map(|e| e.1.get_index()).collect();
    numbers.sort();
    assert_eq!(numbers, (0..26).collect::<Vec<u32>>());
}

#[test]
fn four_equal_moves_bring_every_cubelet_back() {
    let mut cube = RubiksCube::new();
    let before: Vec<u32> = cube.cube_slot_map.iter().map(|e| e.1.get_index()).collect();
    for _ in 0..4 {
        cube.update_rep(CubeMove::FPlus);
    }
    let after: Vec<u32> = cube.cube_slot_map.iter().map(|e| e.1.get_index()).collect();
    assert_eq!(before, after);
}

#[test]
fn a_move_adds_a_rotation_to_the_bodies_of_its_cubelets() {
    let mut cube = RubiksCube::new();
    let mut world = scene();
    cube.apply_move(CubeMove::RPlus, &mut world);
    let mut names: Vec<u32> = turned(&world).iter().map(|t| t.0.parse().unwrap()).collect();
    names.sort();
    // The bodies are counted from the one that was added first.
    assert_eq!(names, vec![0, 6, 7, 8, 9, 18, 19, 20, 21]);
    let core = world.get_children().unwrap().iter().find(|c| c.get_name() == "core").unwrap();
    let first = core.get_children().unwrap().iter().find(|c| c.get_name() == "0").unwrap();
    match first {
        Node::Body(b) => match &b.added_rotations[0] {
            Orientation::Euler(e) => {
                assert_eq!((text(&e.x), text(&e.y), text(&e.z)), (s("-90"), s("0"), s("0")));
            }
            Orientation::AxisAngle => panic!("angles were added"),
        },
        _ => panic!("a body has that name"),
    }
    assert_eq!(slot(&cube, "right-up").get_index(), 9);
}

#[test]
fn a_scene_without_a_core_is_left_as_it_is() {
    let mut cube = RubiksCube::new();
    let mut world = Node::new(NodeKind::WorldBody);
    world.add_child(Node::new(NodeKind::Body));
    cube.apply_move(CubeMove::UPlus, &mut world);
    assert_eq!(world.get_children().unwrap().len(), 1);
    assert_eq!(slot(&cube, "up-front").get_index(), 6);
}

#[test]
fn plugins_work_where_they_take_part() {
    let default = PluginCapabilities::default();
    assert!(default.process_model_load && !default.process_sim_loop && !default.load_model);
    let mut manager: PluginManager<RubiksCube> = PluginManager::new();
    manager.register_plugin(RubiksCube::new(), default);
    manager.register_plugin(
        RubiksCube::new(),
        PluginCapabilities { process_model_load: false, process_sim_loop: true, load_model: false },
    );
    let mut world = scene();
    manager.process_sim_loop(&mut world);
    assert_eq!(turned(&world).len(), 0);
    manager.process_model_load(&mut world);
    let total: usize = turned(&world).iter().map(|t| t.1).sum();
    assert_eq!(total, 90);
    let solved = RubiksCube::new();
    assert_ne!(
        manager.registered_plugins[0].plugin.cube_slot_map, solved.cube_slot_map
    );
    assert_eq!(manager.registered_plugins[1].plugin.cube_slot_map, solved.cube_slot_map);
}

#[test]
fn the_opening_of_a_cube_is_ten_moves() {
    let mut by_hand = RubiksCube::new();
    let mut world = scene();
    for mv in [
        CubeMove::FPlus,
        CubeMove::BPlus,
        CubeMove::UPlus,
        CubeMove::RPlus,
        CubeMove::DPlus,
        CubeMove::LPlus,
        CubeMove::RPlus,
        CubeMove::RPlus,
        CubeMove::DPlus,
        CubeMove::FPlus,
    ] {
        by_hand.apply_move(mv, &mut world);
    }
    let mut loaded = RubiksCube::new();
    let mut other = scene();
    loaded.process_model_load(&mut other);
    assert_eq!(loaded.cube_slot_map, by_hand.cube_slot_map);
    assert_eq!(turned(&world), turned(&other));
}

#[test]
fn a_log_keeps_its_lines_in_order() {
    let mut logger = assembly_theory::view::Logger::new();
    logger.add_log("10:00", "No model loaded.");
    logger.add_log("10:01", "Model loaded.");
    assert_eq!(logger.logs, vec![s("10:00 No model loaded."), s("10:01 Model loaded.")]);
    let view = assembly_theory::view::ViewProp::new();
    assert!(view.to_fill && !view.collapse_debugger && !view.model_loaded && !view.model_updated);
    assert_ne!(assembly_theory::view::Tool::Panning, assembly_theory::view::Tool::Rotate);
}

#[test]
fn moves_permute_the_cubelets() {
    let mut cube = RubiksCube::new();
    let moves = [
        CubeMove::LPlus, CubeMove::LMinus, CubeMove::RPlus, CubeMove::RMinus, CubeMove::UPlus,
        CubeMove::UMinus, CubeMove::DPlus, CubeMove::DMinus, CubeMove::FPlus, CubeMove::FMinus,
        CubeMove::BPlus, CubeMove::BMinus,
    ];
    let names: Vec<String> = cube.cube_slot_map.iter().map(|e| e.0.clone()).collect();
    for round in 0..5 {
        for (k, mv) in moves.iter().enumerate() {
            if (k + round) % 3 != 0 {
                let before: Vec<u32> = cube.cube_slot_map.iter().map(|e| e.1.get_index()).collect();
                cube.update_rep(*mv);
                let after: Vec<u32> = cube.cube_slot_map.iter().map(|e| e.1.get_index()).collect();
                let mut sorted = after.clone();
                sorted.sort();
                assert_eq!(sorted, (0..26).collect::<Vec<u32>>());
                let changed = (0..26).filter(|i| before[*i] != after[*i]).count();
                assert_eq!(changed, 8);
                assert_eq!(&before[0..6], &after[0..6]);
            }
        }
    }
    let kept: Vec<String> = cube.cube_slot_map.iter().map(|e| e.0.clone()).collect();
    assert_eq!(names, kept);
}
