//! A puzzle cube laid over a scene: which cubelet sits in which slot, and
//! what a move of a face does to the slots and to the bodies of the cubelets.

use vstd::prelude::*;
use crate::node::{Node, NodeView, Body, OrientationView, views_of, lemma_views_of, lemma_node_view};
use crate::rules::name_of;
use crate::scalar::{Scalar, ScalarView, is_number};
use crate::schema::NodeKind;
use crate::text::{is_numeral, digits_end, same_text};
use crate::texture::{find_text, first_at};

verus! {

/// The colours of the faces.
#[derive(Clone, Copy, PartialEq, Eq, Structural, Debug)]
pub enum FaceColor {
    Red,
    Blue,
    Green,
    White,
    Yellow,
    Orange,
}

/// The moves: a quarter turn of a face, one way or the other.
#[derive(Clone, Copy, PartialEq, Eq, Structural, Debug)]
pub enum CubeMove {
    LPlus,
    LMinus,
    RPlus,
    RMinus,
    UPlus,
    UMinus,
    DPlus,
    DMinus,
    FPlus,
    FMinus,
    BPlus,
    BMinus,
}

/// A cubelet by its colours.
#[derive(Clone, Copy, PartialEq, Eq, Structural, Debug)]
pub enum Cubelet {
    Center(FaceColor),
    Corner(FaceColor, FaceColor, FaceColor),
    Edge(FaceColor, FaceColor),
}

/// The slot of an edge, with the places of its two colours along the two
/// axes that the slot lies on.
#[derive(Clone, Copy, PartialEq, Eq, Structural, Debug)]
pub enum EdgeSlot {
    LeftUp(u32, u32),
    LeftDown(u32, u32),
    LeftBack(u32, u32),
    LeftFront(u32, u32),
    RightUp(u32, u32),
    RightDown(u32, u32),
    RightBack(u32, u32),
    RightFront(u32, u32),
    UpBack(u32, u32),
    UpFront(u32, u32),
    DownBack(u32, u32),
    DownFront(u32, u32),
}

/// The slot of a corner, with the places of its three colours along x, y
/// and z.
#[derive(Clone, Copy, PartialEq, Eq, Structural, Debug)]
pub enum CornerSlot {
    UpLeftFront(u32, u32, u32),
    UpRightFront(u32, u32, u32),
    UpLeftBack(u32, u32, u32),
    UpRightBack(u32, u32, u32),
    DownLeftFront(u32, u32, u32),
    DownRightFront(u32, u32, u32),
    DownLeftBack(u32, u32, u32),
    DownRightBack(u32, u32, u32),
}

/// A slot with the number of the cubelet that sits in it.
#[derive(Clone, Copy, PartialEq, Eq, Structural, Debug)]
pub enum SlottedCubelet {
    Center(u32),
    Corner(CornerSlot, u32),
    Edge(EdgeSlot, u32),
}

/// The two axes that the slot of an edge lies on: 0 for x, 1 for y, 2 for z.
pub open spec fn edge_axes(slot: EdgeSlot) -> (int, int) {
    match slot {
        EdgeSlot::LeftUp(..) | EdgeSlot::LeftDown(..) | EdgeSlot::RightUp(..) | EdgeSlot::RightDown(
            ..,
        ) => (0, 1),
        EdgeSlot::LeftBack(..)
        | EdgeSlot::LeftFront(..)
        | EdgeSlot::RightBack(..)
        | EdgeSlot::RightFront(..) => (0, 2),
        EdgeSlot::UpBack(..) | EdgeSlot::UpFront(..) | EdgeSlot::DownBack(..) | EdgeSlot::DownFront(
            ..,
        ) => (1, 2),
    }
}

/// The two places that the slot of an edge holds.
pub open spec fn edge_places(slot: EdgeSlot) -> (u32, u32) {
    match slot {
        EdgeSlot::LeftUp(a, b) => (a, b),
        EdgeSlot::LeftDown(a, b) => (a, b),
        EdgeSlot::LeftBack(a, b) => (a, b),
        EdgeSlot::LeftFront(a, b) => (a, b),
        EdgeSlot::RightUp(a, b) => (a, b),
        EdgeSlot::RightDown(a, b) => (a, b),
        EdgeSlot::RightBack(a, b) => (a, b),
        EdgeSlot::RightFront(a, b) => (a, b),
        EdgeSlot::UpBack(a, b) => (a, b),
        EdgeSlot::UpFront(a, b) => (a, b),
        EdgeSlot::DownBack(a, b) => (a, b),
        EdgeSlot::DownFront(a, b) => (a, b),
    }
}

/// The slot of an edge with other places.
pub open spec fn edge_with(slot: EdgeSlot, a: u32, b: u32) -> EdgeSlot {
    match slot {
        EdgeSlot::LeftUp(..) => EdgeSlot::LeftUp(a, b),
        EdgeSlot::LeftDown(..) => EdgeSlot::LeftDown(a, b),
        EdgeSlot::LeftBack(..) => EdgeSlot::LeftBack(a, b),
        EdgeSlot::LeftFront(..) => EdgeSlot::LeftFront(a, b),
        EdgeSlot::RightUp(..) => EdgeSlot::RightUp(a, b),
        EdgeSlot::RightDown(..) => EdgeSlot::RightDown(a, b),
        EdgeSlot::RightBack(..) => EdgeSlot::RightBack(a, b),
        EdgeSlot::RightFront(..) => EdgeSlot::RightFront(a, b),
        EdgeSlot::UpBack(..) => EdgeSlot::UpBack(a, b),
        EdgeSlot::UpFront(..) => EdgeSlot::UpFront(a, b),
        EdgeSlot::DownBack(..) => EdgeSlot::DownBack(a, b),
        EdgeSlot::DownFront(..) => EdgeSlot::DownFront(a, b),
    }
}

/// The number of an axis by its letter: 0 for `x`, 1 for `y`, 2 for `z`, and
/// 3 for anything else.
pub open spec fn axis_of(primary: Seq<char>) -> int {
    if primary == "x"@ {
        0
    } else if primary == "y"@ {
        1
    } else if primary == "z"@ {
        2
    } else {
        3
    }
}

/// The places of an edge as seen along an axis: the place along that axis
/// first, then the other; two zeros where the slot does not lie on the axis.
pub open spec fn edge_seen(slot: EdgeSlot, axis: int) -> (u32, u32) {
    let (a, b) = edge_places(slot);
    if axis == edge_axes(slot).0 {
        (a, b)
    } else if axis == edge_axes(slot).1 {
        (b, a)
    } else {
        (0u32, 0u32)
    }
}

/// The slot of an edge after places seen along an axis were put into it; the
/// slot as it is where it does not lie on the axis.
pub open spec fn edge_put(slot: EdgeSlot, axis: int, seen: (u32, u32)) -> EdgeSlot {
    if axis == edge_axes(slot).0 {
        edge_with(slot, seen.0, seen.1)
    } else if axis == edge_axes(slot).1 {
        edge_with(slot, seen.1, seen.0)
    } else {
        slot
    }
}

/// The three places that the slot of a corner holds.
pub open spec fn corner_places(slot: CornerSlot) -> (u32, u32, u32) {
    match slot {
        CornerSlot::UpLeftFront(a, b, c) => (a, b, c),
        CornerSlot::UpRightFront(a, b, c) => (a, b, c),
        CornerSlot::UpLeftBack(a, b, c) => (a, b, c),
        CornerSlot::UpRightBack(a, b, c) => (a, b, c),
        CornerSlot::DownLeftFront(a, b, c) => (a, b, c),
        CornerSlot::DownRightFront(a, b, c) => (a, b, c),
        CornerSlot::DownLeftBack(a, b, c) => (a, b, c),
        CornerSlot::DownRightBack(a, b, c) => (a, b, c),
    }
}

/// The slot of a corner with other places.
pub open spec fn corner_with(slot: CornerSlot, a: u32, b: u32, c: u32) -> CornerSlot {
    match slot {
        CornerSlot::UpLeftFront(..) => CornerSlot::UpLeftFront(a, b, c),
        CornerSlot::UpRightFront(..) => CornerSlot::UpRightFront(a, b, c),
        CornerSlot::UpLeftBack(..) => CornerSlot::UpLeftBack(a, b, c),
        CornerSlot::UpRightBack(..) => CornerSlot::UpRightBack(a, b, c),
        CornerSlot::DownLeftFront(..) => CornerSlot::DownLeftFront(a, b, c),
        CornerSlot::DownRightFront(..) => CornerSlot::DownRightFront(a, b, c),
        CornerSlot::DownLeftBack(..) => CornerSlot::DownLeftBack(a, b, c),
        CornerSlot::DownRightBack(..) => CornerSlot::DownRightBack(a, b, c),
    }
}

/// The places of a corner as seen along an axis: the place along that axis
/// first, then the two others in the order x, y, z.
pub open spec fn corner_seen(slot: CornerSlot, axis: int) -> (u32, u32, u32) {
    let (x, y, z) = corner_places(slot);
    if axis == 0 {
        (x, y, z)
    } else if axis == 1 {
        (y, x, z)
    } else if axis == 2 {
        (z, x, y)
    } else {
        (0u32, 0u32, 0u32)
    }
}

/// The slot of a corner after places seen along an axis were put into it.
pub open spec fn corner_put(slot: CornerSlot, axis: int, seen: (u32, u32, u32)) -> CornerSlot {
    if axis == 0 {
        corner_with(slot, seen.0, seen.1, seen.2)
    } else if axis == 1 {
        corner_with(slot, seen.1, seen.0, seen.2)
    } else if axis == 2 {
        corner_with(slot, seen.1, seen.2, seen.0)
    } else {
        slot
    }
}

/// The number of the cubelet in a slot.
pub open spec fn index_of_slot(slot: SlottedCubelet) -> u32 {
    match slot {
        SlottedCubelet::Center(i) => i,
        SlottedCubelet::Corner(_, i) => i,
        SlottedCubelet::Edge(_, i) => i,
    }
}

/// A slot with another cubelet in it.
pub open spec fn slot_with_index(slot: SlottedCubelet, index: u32) -> SlottedCubelet {
    match slot {
        SlottedCubelet::Center(_) => SlottedCubelet::Center(index),
        SlottedCubelet::Corner(c, _) => SlottedCubelet::Corner(c, index),
        SlottedCubelet::Edge(e, _) => SlottedCubelet::Edge(e, index),
    }
}

/// The number of an axis by its letter.
fn axis(primary: &str) -> (r: u8)
    ensures
        r == axis_of(primary@),
{
    if same_text(primary, "x") {
        0
    } else if same_text(primary, "y") {
        1
    } else if same_text(primary, "z") {
        2
    } else {
        3
    }
}

impl SlottedCubelet {
    /// The number of the cubelet in the slot.
    pub fn get_index(&self) -> (r: u32)
        ensures
            r == index_of_slot(*self),
    {
        match self {
            SlottedCubelet::Center(i) => *i,
            SlottedCubelet::Corner(_, i) => *i,
            SlottedCubelet::Edge(_, i) => *i,
        }
    }

    /// Puts another cubelet into the slot.
    pub fn set_index(&mut self, index: u32)
        ensures
            *final(self) == slot_with_index(*old(self), index),
    {
        let next = match *self {
            SlottedCubelet::Center(_) => SlottedCubelet::Center(index),
            SlottedCubelet::Corner(c, _) => SlottedCubelet::Corner(c, index),
            SlottedCubelet::Edge(e, _) => SlottedCubelet::Edge(e, index),
        };
        *self = next;
    }
}

impl EdgeSlot {
    /// The places of the edge as seen along an axis: see [`edge_seen`].
    pub fn get_color_index(&self, primary: &str) -> (r: (u32, u32))
        ensures
            r == edge_seen(*self, axis_of(primary@)),
    {
        let k = axis(primary);
        match *self {
            EdgeSlot::LeftUp(x, y)
            | EdgeSlot::LeftDown(x, y)
            | EdgeSlot::RightUp(x, y)
            | EdgeSlot::RightDown(x, y) => if k == 0 {
                (x, y)
            } else if k == 1 {
                (y, x)
            } else {
                (0, 0)
            },
            EdgeSlot::LeftBack(x, z)
            | EdgeSlot::LeftFront(x, z)
            | EdgeSlot::RightBack(x, z)
            | EdgeSlot::RightFront(x, z) => if k == 0 {
                (x, z)
            } else if k == 2 {
                (z, x)
            } else {
                (0, 0)
            },
            EdgeSlot::UpBack(y, z)
            | EdgeSlot::UpFront(y, z)
            | EdgeSlot::DownBack(y, z)
            | EdgeSlot::DownFront(y, z) => if k == 1 {
                (y, z)
            } else if k == 2 {
                (z, y)
            } else {
                (0, 0)
            },
        }
    }

    /// Puts places seen along an axis into the slot: see [`edge_put`].
    pub fn set_color_index(&mut self, primary: &str, indices: (u32, u32))
        ensures
            *final(self) == edge_put(*old(self), axis_of(primary@), indices),
    {
        let k = axis(primary);
        let (first, second): (u8, u8) = match *self {
            EdgeSlot::LeftUp(..)
            | EdgeSlot::LeftDown(..)
            | EdgeSlot::RightUp(..)
            | EdgeSlot::RightDown(..) => (0, 1),
            EdgeSlot::LeftBack(..)
            | EdgeSlot::LeftFront(..)
            | EdgeSlot::RightBack(..)
            | EdgeSlot::RightFront(..) => (0, 2),
            EdgeSlot::UpBack(..)
            | EdgeSlot::UpFront(..)
            | EdgeSlot::DownBack(..)
            | EdgeSlot::DownFront(..) => (1, 2),
        };
        let places: Option<(u32, u32)> = if k == first {
            Some((indices.0, indices.1))
        } else if k == second {
            Some((indices.1, indices.0))
        } else {
            None
        };
        match places {
            None => {},
            Some((a, b)) => {
                let next = match *self {
                    EdgeSlot::LeftUp(..) => EdgeSlot::LeftUp(a, b),
                    EdgeSlot::LeftDown(..) => EdgeSlot::LeftDown(a, b),
                    EdgeSlot::LeftBack(..) => EdgeSlot::LeftBack(a, b),
                    EdgeSlot::LeftFront(..) => EdgeSlot::LeftFront(a, b),
                    EdgeSlot::RightUp(..) => EdgeSlot::RightUp(a, b),
                    EdgeSlot::RightDown(..) => EdgeSlot::RightDown(a, b),
                    EdgeSlot::RightBack(..) => EdgeSlot::RightBack(a, b),
                    EdgeSlot::RightFront(..) => EdgeSlot::RightFront(a, b),
                    EdgeSlot::UpBack(..) => EdgeSlot::UpBack(a, b),
                    EdgeSlot::UpFront(..) => EdgeSlot::UpFront(a, b),
                    EdgeSlot::DownBack(..) => EdgeSlot::DownBack(a, b),
                    EdgeSlot::DownFront(..) => EdgeSlot::DownFront(a, b),
                };
                *self = next;
            },
        }
    }
}

impl CornerSlot {
    /// The places of the corner as seen along an axis: see [`corner_seen`].
    pub fn get_color_index(&self, primary: &str) -> (r: (u32, u32, u32))
        ensures
            r == corner_seen(*self, axis_of(primary@)),
    {
        let k = axis(primary);
        let (x, y, z) = match *self {
            CornerSlot::UpLeftFront(x, y, z)
            | CornerSlot::UpRightFront(x, y, z)
            | CornerSlot::UpLeftBack(x, y, z)
            | CornerSlot::UpRightBack(x, y, z)
            | CornerSlot::DownLeftFront(x, y, z)
            | CornerSlot::DownRightFront(x, y, z)
            | CornerSlot::DownLeftBack(x, y, z)
            | CornerSlot::DownRightBack(x, y, z) => (x, y, z),
        };
        if k == 0 {
            (x, y, z)
        } else if k == 1 {
            (y, x, z)
        } else if k == 2 {
            (z, x, y)
        } else {
            (0, 0, 0)
        }
    }

    /// Puts places seen along an axis into the slot: see [`corner_put`].
    pub fn set_color_index(&mut self, side: &str, indices: (u32, u32, u32))
        ensures
            *final(self) == corner_put(*old(self), axis_of(side@), indices),
    {
        let k = axis(side);
        let places: Option<(u32, u32, u32)> = if k == 0 {
            Some((indices.0, indices.1, indices.2))
        } else if k == 1 {
            Some((indices.1, indices.0, indices.2))
        } else if k == 2 {
            Some((indices.1, indices.2, indices.0))
        } else {
            None
        };
        match places {
            None => {},
            Some((a, b, c)) => {
                let next = match *self {
                    CornerSlot::UpLeftFront(..) => CornerSlot::UpLeftFront(a, b, c),
                    CornerSlot::UpRightFront(..) => CornerSlot::UpRightFront(a, b, c),
                    CornerSlot::UpLeftBack(..) => CornerSlot::UpLeftBack(a, b, c),
                    CornerSlot::UpRightBack(..) => CornerSlot::UpRightBack(a, b, c),
                    CornerSlot::DownLeftFront(..) => CornerSlot::DownLeftFront(a, b, c),
                    CornerSlot::DownRightFront(..) => CornerSlot::DownRightFront(a, b, c),
                    CornerSlot::DownLeftBack(..) => CornerSlot::DownLeftBack(a, b, c),
                    CornerSlot::DownRightBack(..) => CornerSlot::DownRightBack(a, b, c),
                };
                *self = next;
            },
        }
    }
}

/// Putting places into a corner and reading them back along the same axis
/// gives the places that were put.
pub proof fn lemma_corner_put_seen(slot: CornerSlot, axis: int, seen: (u32, u32, u32))
    requires
        0 <= axis <= 2,
    ensures
        corner_seen(corner_put(slot, axis, seen), axis) == seen,
{
}

/// Putting places into an edge and reading them back along the same axis
/// gives the places that were put, where the slot lies on the axis.
pub proof fn lemma_edge_put_seen(slot: EdgeSlot, axis: int, seen: (u32, u32))
    requires
        axis == edge_axes(slot).0 || axis == edge_axes(slot).1,
    ensures
        edge_seen(edge_put(slot, axis, seen), axis) == seen,
{
}

/// The slots of a cube by name.
pub type Slots = Seq<(Seq<char>, SlottedCubelet)>;

/// The views of a list of owned pairs of a name and a slot.
pub open spec fn slot_views(v: Seq<(String, SlottedCubelet)>) -> Slots {
    Seq::new(v.len(), |i: int| (v[i].0@, v[i].1))
}

/// The first index at or after `from` whose slot has the name, or the length.
pub open spec fn slot_at(slots: Slots, name: Seq<char>, from: int) -> int
    decreases slots.len() - from,
{
    if from < 0 || from >= slots.len() {
        slots.len() as int
    } else if slots[from].0 == name {
        from
    } else {
        slot_at(slots, name, from + 1)
    }
}

/// Whether a cube has a slot of a name.
pub open spec fn has_slot(slots: Slots, name: Seq<char>) -> bool {
    slot_at(slots, name, 0) < slots.len()
}

/// The index that [`slot_at`] gives is in range and holds the name where it
/// is an index.
pub proof fn lemma_slot_at(slots: Slots, name: Seq<char>, from: int)
    requires
        0 <= from <= slots.len(),
    ensures
        from <= slot_at(slots, name, from) <= slots.len(),
        slot_at(slots, name, from) < slots.len() ==> slots[slot_at(slots, name, from)].0 == name,
    decreases slots.len() - from,
{
    if from < slots.len() && slots[from].0 != name {
        lemma_slot_at(slots, name, from + 1);
    }
}

/// The axis about which a move turns: x for left and right, z for up and
/// down, y for front and back.
pub open spec fn move_axis(mv: CubeMove) -> int {
    match mv {
        CubeMove::LPlus | CubeMove::LMinus | CubeMove::RPlus | CubeMove::RMinus => 0,
        CubeMove::UPlus | CubeMove::UMinus | CubeMove::DPlus | CubeMove::DMinus => 2,
        CubeMove::FPlus | CubeMove::FMinus | CubeMove::BPlus | CubeMove::BMinus => 1,
    }
}

/// The face that a move turns.
pub open spec fn move_face(mv: CubeMove) -> Seq<char> {
    match mv {
        CubeMove::LPlus | CubeMove::LMinus => "left"@,
        CubeMove::RPlus | CubeMove::RMinus => "right"@,
        CubeMove::UPlus | CubeMove::UMinus => "up"@,
        CubeMove::DPlus | CubeMove::DMinus => "down"@,
        CubeMove::FPlus | CubeMove::FMinus => "front"@,
        CubeMove::BPlus | CubeMove::BMinus => "back"@,
    }
}

/// The four corners that a move carries round, in the order of the round.
pub open spec fn corner_keys(mv: CubeMove) -> Seq<Seq<char>> {
    match mv {
        CubeMove::LPlus | CubeMove::LMinus => seq![
            "up-left-back"@,
            "up-left-front"@,
            "down-left-front"@,
            "down-left-back"@,
        ],
        CubeMove::RPlus | CubeMove::RMinus => seq![
            "up-right-front"@,
            "up-right-back"@,
            "down-right-back"@,
            "down-right-front"@,
        ],
        CubeMove::UPlus | CubeMove::UMinus => seq![
            "up-left-back"@,
            "up-right-back"@,
            "up-right-front"@,
            "up-left-front"@,
        ],
        CubeMove::DPlus | CubeMove::DMinus => seq![
            "down-left-front"@,
            "down-right-front"@,
            "down-right-back"@,
            "down-left-back"@,
        ],
        CubeMove::FPlus | CubeMove::FMinus => seq![
            "up-left-front"@,
            "up-right-front"@,
            "down-right-front"@,
            "down-left-front"@,
        ],
        CubeMove::BPlus | CubeMove::BMinus => seq![
            "up-right-back"@,
            "up-left-back"@,
            "down-left-back"@,
            "down-right-back"@,
        ],
    }
}

/// The four edges that a move carries round, in the order of the round.
pub open spec fn edge_keys(mv: CubeMove) -> Seq<Seq<char>> {
    match mv {
        CubeMove::LPlus | CubeMove::LMinus => seq![
            "left-up"@,
            "left-front"@,
            "left-down"@,
            "left-back"@,
        ],
        CubeMove::RPlus | CubeMove::RMinus => seq![
            "right-up"@,
            "right-back"@,
            "right-down"@,
            "right-front"@,
        ],
        CubeMove::UPlus | CubeMove::UMinus => seq![
            "up-front"@,
            "left-up"@,
            "up-back"@,
            "right-up"@,
        ],
        CubeMove::DPlus | CubeMove::DMinus => seq![
            "down-front"@,
            "right-down"@,
            "down-back"@,
            "left-down"@,
        ],
        CubeMove::FPlus | CubeMove::FMinus => seq![
            "up-front"@,
            "right-front"@,
            "down-front"@,
            "left-front"@,
        ],
        CubeMove::BPlus | CubeMove::BMinus => seq![
            "up-back"@,
            "left-back"@,
            "down-back"@,
            "right-back"@,
        ],
    }
}

/// What a slot hands to the next slot of a round: the number of its cubelet
/// and its places as seen along the axis of the move. A slot of another sort
/// than the round is about hands on zeros.
pub open spec fn handed(slot: SlottedCubelet, axis: int, corners: bool) -> (u32, (u32, u32, u32)) {
    match slot {
        SlottedCubelet::Corner(c, i) => if corners {
            (i, corner_seen(c, axis))
        } else {
            (0u32, (0u32, 0u32, 0u32))
        },
        SlottedCubelet::Edge(e, i) => if corners {
            (0u32, (0u32, 0u32, 0u32))
        } else {
            (i, (edge_seen(e, axis).0, edge_seen(e, axis).1, 0u32))
        },
        SlottedCubelet::Center(_) => (0u32, (0u32, 0u32, 0u32)),
    }
}

/// A slot after it took what the slot before it in the round handed on: the
/// cubelet, and the places, of which a corner swaps the second and the third.
pub open spec fn taken(
    slot: SlottedCubelet,
    axis: int,
    corners: bool,
    last: (u32, (u32, u32, u32)),
) -> SlottedCubelet {
    slot_with_index(
        match slot {
            SlottedCubelet::Corner(c, i) => if corners {
                SlottedCubelet::Corner(corner_put(c, axis, (last.1.0, last.1.2, last.1.1)), i)
            } else {
                slot
            },
            SlottedCubelet::Edge(e, i) => if corners {
                slot
            } else {
                SlottedCubelet::Edge(edge_put(e, axis, (last.1.0, last.1.1)), i)
            },
            SlottedCubelet::Center(_) => slot,
        },
        last.0,
    )
}

/// What the last slot of a round hands to the first before the round starts:
/// the number of its cubelet whatever its sort, and its places where it is
/// of the sort that the round is about.
pub open spec fn handed_first(slot: SlottedCubelet, axis: int, corners: bool) -> (
    u32,
    (u32, u32, u32),
) {
    (index_of_slot(slot), handed(slot, axis, corners).1)
}

/// The slots after the first `k` of a round took what was handed to them,
/// with what the last of these hands on.
pub open spec fn rounded(slots: Slots, places: Seq<int>, axis: int, corners: bool, k: nat) -> (
    Slots,
    (u32, (u32, u32, u32)),
)
    decreases k,
{
    if k == 0 || k > places.len() {
        (slots, handed_first(slots[places.last()].1, axis, corners))
    } else {
        let (before, last) = rounded(slots, places, axis, corners, (k - 1) as nat);
        let p = places[k - 1];
        (
            before.update(p, (before[p].0, taken(before[p].1, axis, corners, last))),
            handed(before[p].1, axis, corners),
        )
    }
}

/// The places of the slots of a list of names.
pub open spec fn places_of(slots: Slots, names: Seq<Seq<char>>) -> Seq<int> {
    Seq::new(names.len(), |i: int| slot_at(slots, names[i], 0))
}

/// The slots after a move: its four corners are carried round, then its
/// four edges.
pub open spec fn moved(slots: Slots, mv: CubeMove) -> Slots {
    let after = rounded(slots, places_of(slots, corner_keys(mv)), move_axis(mv), true, 4).0;
    rounded(after, places_of(after, edge_keys(mv)), move_axis(mv), false, 4).0
}

/// Whether a cube has every slot that a move may carry round.
pub open spec fn cube_ready(slots: Slots) -> bool {
    &&& forall|mv: CubeMove, i: int| 0 <= i < 4 ==> has_slot(slots, #[trigger] corner_keys(mv)[i])
    &&& forall|mv: CubeMove, i: int| 0 <= i < 4 ==> has_slot(slots, #[trigger] edge_keys(mv)[i])
}

/// A move carries four corners and four edges round.
pub proof fn lemma_keys_len(mv: CubeMove)
    ensures
        corner_keys(mv).len() == 4,
        edge_keys(mv).len() == 4,
{
}

/// The numbers of the cubelets in the first `k` slots whose name holds the
/// name of a face.
pub open spec fn face_indices(slots: Slots, face: Seq<char>, k: nat) -> Seq<u32>
    decreases k,
{
    if k == 0 || k > slots.len() {
        Seq::empty()
    } else if first_at(slots[k - 1].0, face, 0) <= slots[k - 1].0.len() {
        face_indices(slots, face, (k - 1) as nat).push(index_of_slot(slots[k - 1].1))
    } else {
        face_indices(slots, face, (k - 1) as nat)
    }
}

/// The angles by which a move turns the bodies of its cubelets, in degrees.
pub open spec fn move_angles(mv: CubeMove) -> (Seq<char>, Seq<char>, Seq<char>) {
    match mv {
        CubeMove::LPlus | CubeMove::RMinus => ("90"@, "0"@, "0"@),
        CubeMove::LMinus | CubeMove::RPlus => ("-90"@, "0"@, "0"@),
        CubeMove::UPlus | CubeMove::DMinus => ("0"@, "-90"@, "0"@),
        CubeMove::UMinus | CubeMove::DPlus => ("0"@, "90"@, "0"@),
        CubeMove::FPlus | CubeMove::BMinus => ("0"@, "0"@, "90"@),
        CubeMove::FMinus | CubeMove::BPlus => ("0"@, "0"@, "-90"@),
    }
}

/// A list of four texts.
fn four(a: &str, b: &str, c: &str, d: &str) -> (r: Vec<String>)
    ensures
        crate::text::texts(r@) == seq![a@, b@, c@, d@],
{
    let mut r: Vec<String> = Vec::new();
    r.push(a.to_owned());
    r.push(b.to_owned());
    r.push(c.to_owned());
    r.push(d.to_owned());
    assert(crate::text::texts(r@) =~= seq![a@, b@, c@, d@]);
    r
}

/// The corners that a move carries round: see [`corner_keys`].
pub fn get_corner_slots(mv: CubeMove) -> (r: Vec<String>)
    ensures
        crate::text::texts(r@) == corner_keys(mv),
{
    match mv {
        CubeMove::LPlus | CubeMove::LMinus => four(
            "up-left-back",
            "up-left-front",
            "down-left-front",
            "down-left-back",
        ),
        CubeMove::RPlus | CubeMove::RMinus => four(
            "up-right-front",
            "up-right-back",
            "down-right-back",
            "down-right-front",
        ),
        CubeMove::UPlus | CubeMove::UMinus => four(
            "up-left-back",
            "up-right-back",
            "up-right-front",
            "up-left-front",
        ),
        CubeMove::DPlus | CubeMove::DMinus => four(
            "down-left-front",
            "down-right-front",
            "down-right-back",
            "down-left-back",
        ),
        CubeMove::FPlus | CubeMove::FMinus => four(
            "up-left-front",
            "up-right-front",
            "down-right-front",
            "down-left-front",
        ),
        CubeMove::BPlus | CubeMove::BMinus => four(
            "up-right-back",
            "up-left-back",
            "down-left-back",
            "down-right-back",
        ),
    }
}

/// The edges that a move carries round: see [`edge_keys`].
pub fn get_edge_slots(mv: CubeMove) -> (r: Vec<String>)
    ensures
        crate::text::texts(r@) == edge_keys(mv),
{
    match mv {
        CubeMove::LPlus | CubeMove::LMinus => four("left-up", "left-front", "left-down", "left-back"),
        CubeMove::RPlus | CubeMove::RMinus => four(
            "right-up",
            "right-back",
            "right-down",
            "right-front",
        ),
        CubeMove::UPlus | CubeMove::UMinus => four("up-front", "left-up", "up-back", "right-up"),
        CubeMove::DPlus | CubeMove::DMinus => four(
            "down-front",
            "right-down",
            "down-back",
            "left-down",
        ),
        CubeMove::FPlus | CubeMove::FMinus => four(
            "up-front",
            "right-front",
            "down-front",
            "left-front",
        ),
        CubeMove::BPlus | CubeMove::BMinus => four("up-back", "left-back", "down-back", "right-back"),
    }
}

/// The angles of the moves are numerals.
pub proof fn lemma_angles_are_numbers()
    ensures
        is_numeral("0"@),
        is_numeral("90"@),
        is_numeral("-90"@),
{
    reveal_strlit("0");
    reveal_strlit("90");
    reveal_strlit("-90");
    reveal_with_fuel(digits_end, 4);
    assert("0"@.len() == 1 && "0"@[0] == '0');
    assert("90"@.len() == 2 && "90"@[0] == '9' && "90"@[1] == '0');
    assert("-90"@.len() == 3 && "-90"@[0] == '-' && "-90"@[1] == '9' && "-90"@[2] == '0');
    assert(digits_end("0"@, 0) == 1);
    assert(digits_end("90"@, 0) == 2);
    assert(digits_end("-90"@, 1) == 3);
}

/// The angles by which a move turns the bodies of its cubelets.
pub fn get_rotation_params(mv: CubeMove) -> (r: (Scalar, Scalar, Scalar))
    ensures
        r.0@ == ScalarView::Numeral(move_angles(mv).0),
        r.1@ == ScalarView::Numeral(move_angles(mv).1),
        r.2@ == ScalarView::Numeral(move_angles(mv).2),
        is_number(r.0@) && is_number(r.1@) && is_number(r.2@),
{
    proof {
        lemma_angles_are_numbers();
    }
    let (x, y, z): (&str, &str, &str) = match mv {
        CubeMove::LPlus | CubeMove::RMinus => ("90", "0", "0"),
        CubeMove::LMinus | CubeMove::RPlus => ("-90", "0", "0"),
        CubeMove::UPlus | CubeMove::DMinus => ("0", "-90", "0"),
        CubeMove::UMinus | CubeMove::DPlus => ("0", "90", "0"),
        CubeMove::FPlus | CubeMove::BMinus => ("0", "0", "90"),
        CubeMove::FMinus | CubeMove::BPlus => ("0", "0", "-90"),
    };
    (Scalar::Numeral(x.to_owned()), Scalar::Numeral(y.to_owned()), Scalar::Numeral(z.to_owned()))
}

/// The index of the slot of a name, or the number of slots.
pub fn slot_position(slots: &Vec<(String, SlottedCubelet)>, name: &str) -> (i: usize)
    ensures
        i == slot_at(slot_views(slots@), name@, 0),
        i <= slots.len(),
{
    let mut i: usize = 0;
    while i < slots.len()
        invariant
            i <= slots.len(),
            slot_at(slot_views(slots@), name@, i as int) == slot_at(slot_views(slots@), name@, 0),
        decreases slots.len() - i,
    {
        assert(slot_views(slots@)[i as int].0 == slots[i as int].0@);
        if same_text(slots[i].0.as_str(), name) {
            return i;
        }
        i += 1;
    }
    i
}

/// A puzzle cube: its cubelets by number, and its slots by name.
#[derive(Debug)]
pub struct RubiksCube {
    pub cubelets: Vec<Cubelet>,
    pub cube_slot_map: Vec<(String, SlottedCubelet)>,
}

impl View for RubiksCube {
    type V = Slots;

    open spec fn view(&self) -> Slots {
        slot_views(self.cube_slot_map@)
    }
}

/// Carries the slots of a list of names round: see [`rounded`].
fn round(slots: &mut Vec<(String, SlottedCubelet)>, names: &Vec<String>, primary: &str, corners: bool)
    requires
        names@.len() == 4,
        forall|i: int| 0 <= i < 4 ==> has_slot(slot_views(old(slots)@), #[trigger] names[i]@),
        0 <= axis_of(primary@) <= 2,
    ensures
        slot_views(final(slots)@) == rounded(
            slot_views(old(slots)@),
            places_of(slot_views(old(slots)@), crate::text::texts(names@)),
            axis_of(primary@),
            corners,
            4,
        ).0,
        forall|i: int|
            0 <= i < final(slots)@.len() ==> (#[trigger] slot_views(final(slots)@)[i]).0 == slot_views(
                old(slots)@,
            )[i].0,
        final(slots)@.len() == old(slots)@.len(),
{
    let ghost start = slot_views(slots@);
    let ghost ax = axis_of(primary@);
    let mut places: Vec<usize> = Vec::new();
    let mut i: usize = 0;
    while i < 4
        invariant
            i <= 4,
            names@.len() == 4,
            places.len() == i,
            start == slot_views(slots@),
            forall|j: int| 0 <= j < 4 ==> has_slot(start, #[trigger] names[j]@),
            forall|j: int|
                0 <= j < i ==> (#[trigger] places[j]) == slot_at(start, names[j]@, 0) && places[j]
                    < slots.len(),
        decreases 4 - i,
    {
        assert(has_slot(start, names[i as int]@));
        places.push(slot_position(slots, names[i].as_str()));
        i += 1;
    }
    let ghost spots = places_of(start, crate::text::texts(names@));
    assert(spots =~= Seq::new(4, |j: int| places[j] as int));
    let first = slots[places[3]].1;
    assert(start[places[3] as int].1 == first);
    let mut last: (u32, (u32, u32, u32)) = (
        first.get_index(),
        match first {
            SlottedCubelet::Corner(c, _) => if corners {
                c.get_color_index(primary)
            } else {
                (0, 0, 0)
            },
            SlottedCubelet::Edge(e, _) => if corners {
                (0, 0, 0)
            } else {
                let seen = e.get_color_index(primary);
                (seen.0, seen.1, 0)
            },
            SlottedCubelet::Center(_) => (0, 0, 0),
        },
    );
    let mut k: usize = 0;
    while k < 4
        invariant
            k <= 4,
            places.len() == 4,
            spots.len() == 4,
            ax == axis_of(primary@),
            forall|j: int| 0 <= j < 4 ==> spots[j] == places[j] && places[j] < slots.len(),
            slots.len() == start.len(),
            (slot_views(slots@), last) == rounded(start, spots, ax, corners, k as nat),
            forall|j: int|
                0 <= j < slots@.len() ==> (#[trigger] slot_views(slots@)[j]).0 == start[j].0,
        decreases 4 - k,
    {
        assert(spots[k as int] == places[k as int]);
        let p = places[k];
        let ghost before = slot_views(slots@);
        assert(before[p as int] == (slots[p as int].0@, slots[p as int].1));
        let mut slot = slots[p].1;
        let next: (u32, (u32, u32, u32)) = match slot {
            SlottedCubelet::Corner(c, i) => if corners {
                (i, c.get_color_index(primary))
            } else {
                (0, (0, 0, 0))
            },
            SlottedCubelet::Edge(e, i) => if corners {
                (0, (0, 0, 0))
            } else {
                let seen = e.get_color_index(primary);
                (i, (seen.0, seen.1, 0))
            },
            SlottedCubelet::Center(_) => (0, (0, 0, 0)),
        };
        match slot {
            SlottedCubelet::Corner(mut c, i) => if corners {
                c.set_color_index(primary, (last.1.0, last.1.2, last.1.1));
                slot = SlottedCubelet::Corner(c, i);
            },
            SlottedCubelet::Edge(mut e, i) => if !corners {
                e.set_color_index(primary, (last.1.0, last.1.1));
                slot = SlottedCubelet::Edge(e, i);
            },
            SlottedCubelet::Center(_) => {},
        }
        slot.set_index(last.0);
        let name = slots[p].0.clone();
        slots[p] = (name, slot);
        assert(slot_views(slots@) =~= before.update(
            p as int,
            (before[p as int].0, taken(before[p as int].1, ax, corners, last)),
        ));
        last = next;
        k += 1;
    }
}

impl RubiksCube {
    /// Carries the corners and the edges of a move round: see [`moved`].
    pub fn update_rep(&mut self, mv: CubeMove)
        requires
            cube_ready(old(self)@),
        ensures
            final(self)@ == moved(old(self)@, mv),
            cube_ready(final(self)@),
            final(self).cubelets == old(self).cubelets,
            cube_wf(old(self)@) ==> cube_wf(final(self)@),
            cube_wf(old(self)@) && numbers_differ(old(self)@) ==> numbers_differ(final(self)@),
    {
        proof {
            if cube_wf(self@) {
                lemma_moved_permutes(self@, mv);
            }
        }
        let primary: &str = match mv {
            CubeMove::LPlus | CubeMove::LMinus | CubeMove::RPlus | CubeMove::RMinus => "x",
            CubeMove::UPlus | CubeMove::UMinus | CubeMove::DPlus | CubeMove::DMinus => "z",
            CubeMove::FPlus | CubeMove::FMinus | CubeMove::BPlus | CubeMove::BMinus => "y",
        };
        proof {
            reveal_strlit("x");
            reveal_strlit("y");
            reveal_strlit("z");
            assert("x"@.len() == 1 && "y"@.len() == 1 && "z"@.len() == 1);
            assert("x"@[0] == 'x' && "y"@[0] == 'y' && "z"@[0] == 'z');
            assert(axis_of(primary@) == move_axis(mv));
        }
        let ghost start = self@;
        let corners = get_corner_slots(mv);
        proof {
            lemma_keys_len(mv);
            assert(crate::text::texts(corners@).len() == corners@.len());
            assert forall|i: int| 0 <= i < 4 implies has_slot(start, #[trigger] corners[i]@) by {
                assert(crate::text::texts(corners@)[i] == corners[i]@);
                assert(has_slot(start, corner_keys(mv)[i]));
            }
        }
        round(&mut self.cube_slot_map, &corners, primary, true);
        let ghost middle = self@;
        proof {
            lemma_same_names_ready(start, middle);
        }
        let edges = get_edge_slots(mv);
        proof {
            assert(crate::text::texts(edges@).len() == edges@.len());
            assert forall|i: int| 0 <= i < 4 implies has_slot(middle, #[trigger] edges[i]@) by {
                assert(crate::text::texts(edges@)[i] == edges[i]@);
                assert(has_slot(middle, edge_keys(mv)[i]));
            }
        }
        round(&mut self.cube_slot_map, &edges, primary, false);
        proof {
            lemma_same_names_ready(middle, self@);
        }
    }

    /// The numbers of the cubelets that a move turns: those in the slots
    /// whose name holds the name of the face of the move.
    pub fn get_indices_for_move(&self, mv: CubeMove) -> (r: Vec<u32>)
        ensures
            r@ == face_indices(self@, move_face(mv), self@.len()),
    {
        let face: &str = match mv {
            CubeMove::LPlus | CubeMove::LMinus => "left",
            CubeMove::RPlus | CubeMove::RMinus => "right",
            CubeMove::UPlus | CubeMove::UMinus => "up",
            CubeMove::DPlus | CubeMove::DMinus => "down",
            CubeMove::FPlus | CubeMove::FMinus => "front",
            CubeMove::BPlus | CubeMove::BMinus => "back",
        };
        let mut out: Vec<u32> = Vec::new();
        let mut k: usize = 0;
        while k < self.cube_slot_map.len()
            invariant
                k <= self.cube_slot_map.len(),
                face@ == move_face(mv),
                out@ == face_indices(self@, move_face(mv), k as nat),
            decreases self.cube_slot_map.len() - k,
        {
            assert(self@[k as int] == (self.cube_slot_map[k as int].0@, self.cube_slot_map[k as int].1));
            match find_text(self.cube_slot_map[k].0.as_str(), face) {
                Some(_) => {
                    out.push(self.cube_slot_map[k].1.get_index());
                },
                None => {},
            }
            k += 1;
        }
        out
    }
}

/// Slots that keep their names keep a cube ready.
pub proof fn lemma_same_names_ready(old_slots: Slots, new_slots: Slots)
    requires
        cube_ready(old_slots),
        old_slots.len() == new_slots.len(),
        forall|i: int| 0 <= i < old_slots.len() ==> (#[trigger] new_slots[i]).0 == old_slots[i].0,
    ensures
        cube_ready(new_slots),
{
    assert forall|mv: CubeMove, i: int| 0 <= i < 4 implies has_slot(
        new_slots,
        #[trigger] corner_keys(mv)[i],
    ) by {
        lemma_same_slot_at(old_slots, new_slots, corner_keys(mv)[i], 0);
    }
    assert forall|mv: CubeMove, i: int| 0 <= i < 4 implies has_slot(
        new_slots,
        #[trigger] edge_keys(mv)[i],
    ) by {
        lemma_same_slot_at(old_slots, new_slots, edge_keys(mv)[i], 0);
    }
}

/// Slots that keep their names are found at the same places.
pub proof fn lemma_same_slot_at(old_slots: Slots, new_slots: Slots, name: Seq<char>, from: int)
    requires
        0 <= from <= old_slots.len(),
        old_slots.len() == new_slots.len(),
        forall|i: int| 0 <= i < old_slots.len() ==> (#[trigger] new_slots[i]).0 == old_slots[i].0,
    ensures
        slot_at(new_slots, name, from) == slot_at(old_slots, name, from),
    decreases old_slots.len() - from,
{
    if from < old_slots.len() {
        assert(new_slots[from].0 == old_slots[from].0);
        if old_slots[from].0 != name {
            lemma_same_slot_at(old_slots, new_slots, name, from + 1);
        }
    }
}

/// A slot that has a name gives the cube a slot of that name.
pub proof fn lemma_has_slot(slots: Slots, j: int, name: Seq<char>)
    requires
        0 <= j < slots.len(),
        slots[j].0 == name,
    ensures
        has_slot(slots, name),
{
    lemma_slot_before(slots, name, 0, j);
}

/// A slot of a name is found at or before any place that holds the name.
pub proof fn lemma_slot_before(slots: Slots, name: Seq<char>, from: int, j: int)
    requires
        0 <= from <= j < slots.len(),
        slots[j].0 == name,
    ensures
        slot_at(slots, name, from) <= j,
    decreases j - from,
{
    if from < j && slots[from].0 != name {
        lemma_slot_before(slots, name, from + 1, j);
    }
}

/// The number of bodies among the elements of a list behind a place.
pub open spec fn bodies_behind(nodes: Seq<NodeView>, place: int) -> nat
    decreases nodes.len() - place,
{
    if place < 0 || place + 1 >= nodes.len() {
        0
    } else {
        bodies_behind(nodes, place + 1) + if nodes[place + 1].kind == NodeKind::Body {
            1nat
        } else {
            0nat
        }
    }
}

/// Whether a move turns the element at a place of a list: it turns a body
/// whose number, counted among the bodies from the end of the list, is the
/// number of one of the cubelets of the move.
pub open spec fn turns(nodes: Seq<NodeView>, place: int, indices: Seq<u32>) -> bool {
    nodes[place].kind == NodeKind::Body && bodies_behind(nodes, place) <= u32::MAX
        && indices.contains(bodies_behind(nodes, place) as u32)
}

/// A body with one more rotation behind those added before.
pub open spec fn rotated(v: NodeView, angles: (Seq<char>, Seq<char>, Seq<char>)) -> NodeView {
    NodeView {
        rotations: v.rotations.push(
            OrientationView::Euler(
                ScalarView::Numeral(angles.0),
                ScalarView::Numeral(angles.1),
                ScalarView::Numeral(angles.2),
            ),
        ),
        ..v
    }
}

/// The cubelets of a cube after a move turned those it is about.
pub open spec fn cubelets_turned(
    nodes: Seq<NodeView>,
    indices: Seq<u32>,
    angles: (Seq<char>, Seq<char>, Seq<char>),
) -> Seq<NodeView> {
    Seq::new(
        nodes.len(),
        |place: int|
            if turns(nodes, place, indices) {
                rotated(nodes[place], angles)
            } else {
                nodes[place]
            },
    )
}

/// Turns the bodies of the cubelets of a move: see [`cubelets_turned`].
pub fn turn_cubelets(nodes: &mut Vec<Node>, indices: &Vec<u32>, mv: CubeMove)
    ensures
        views_of(final(nodes)@) == cubelets_turned(
            views_of(old(nodes)@),
            indices@,
            move_angles(mv),
        ),
{
    let n = nodes.len();
    let ghost before = views_of(nodes@);
    proof {
        lemma_views_of(nodes@);
    }
    let mut place: usize = n;
    let mut count: usize = 0;
    while place > 0
        invariant
            place <= n,
            n == nodes.len(),
            before.len() == n,
            count <= n - place,
            place > 0 ==> count == bodies_behind(before, place - 1),
            forall|j: int| 0 <= j < place ==> (#[trigger] nodes[j])@ == before[j],
            forall|j: int|
                place <= j < n ==> (#[trigger] nodes[j])@ == cubelets_turned(
                    before,
                    indices@,
                    move_angles(mv),
                )[j],
        decreases place,
    {
        place -= 1;
        proof {
            lemma_node_view(nodes[place as int]);
        }
        let mut is_body = false;
        let mut hit = false;
        if count <= 0xffff_ffff {
            let wanted = count as u32;
            let mut i: usize = 0;
            while i < indices.len() && !hit
                invariant
                    i <= indices.len(),
                    hit ==> indices@.contains(wanted),
                    !hit ==> forall|j: int| 0 <= j < i ==> indices@[j] != wanted,
                decreases indices.len() - i + (if hit { 0int } else { 1int }),
            {
                if indices[i] == wanted {
                    hit = true;
                } else {
                    i += 1;
                }
            }
        }
        match &mut nodes[place] {
            Node::Body(b) => {
                is_body = true;
                if hit {
                    b.apply_added_rotations(get_rotation_params(mv));
                }
            },
            _ => {},
        }
        proof {
            lemma_node_view(nodes[place as int]);
        }
        if is_body {
            count += 1;
        }
    }
    proof {
        lemma_views_of(nodes@);
        assert(views_of(nodes@) =~= cubelets_turned(before, indices@, move_angles(mv)));
    }
}

/// The place of the body that holds the cubelets: the last child with the
/// name `core`.
pub open spec fn core_place(children: Seq<NodeView>, k: nat) -> Option<int>
    decreases k,
{
    if k == 0 || k > children.len() {
        None
    } else if name_of(children[k - 1]) == "core"@ {
        Some(k - 1)
    } else {
        core_place(children, (k - 1) as nat)
    }
}

/// A scene after a move turned the cubelets of its cube: the bodies below
/// the core, where the scene has a core that is a body.
pub open spec fn scene_turned(
    world: NodeView,
    indices: Seq<u32>,
    angles: (Seq<char>, Seq<char>, Seq<char>),
) -> NodeView {
    match core_place(world.children, world.children.len()) {
        Some(p) => if world.children[p].kind == NodeKind::Body {
            NodeView {
                children: world.children.update(
                    p,
                    NodeView {
                        children: cubelets_turned(world.children[p].children, indices, angles),
                        ..world.children[p]
                    },
                ),
                ..world
            }
        } else {
            world
        },
        None => world,
    }
}

/// The place of the body that holds the cubelets among the children of a scene.
fn core_of(children: &Vec<Node>) -> (r: Option<usize>)
    ensures
        match r {
            Some(p) => core_place(views_of(children@), children@.len()) == Some(p as int) && p
                < children.len(),
            None => core_place(views_of(children@), children@.len()) is None,
        },
{
    let mut found: Option<usize> = None;
    let mut k: usize = 0;
    proof {
        lemma_views_of(children@);
    }
    while k < children.len()
        invariant
            k <= children.len(),
            views_of(children@).len() == children.len(),
            match found {
                Some(p) => core_place(views_of(children@), k as nat) == Some(p as int) && p < k,
                None => core_place(views_of(children@), k as nat) is None,
            },
        decreases children.len() - k,
    {
        proof {
            lemma_views_of(children@);
        }
        let name = children[k].get_name();
        if same_text(name.as_str(), "core") {
            found = Some(k);
        }
        k += 1;
    }
    found
}

/// Turns the cubelets below the core of a scene: see [`scene_turned`].
fn turn_core(children: &mut Vec<Node>, indices: &Vec<u32>, mv: CubeMove)
    ensures
        views_of(final(children)@) == match core_place(
            views_of(old(children)@),
            old(children)@.len(),
        ) {
            Some(p) => if views_of(old(children)@)[p].kind == NodeKind::Body {
                views_of(old(children)@).update(
                    p,
                    NodeView {
                        children: cubelets_turned(
                            views_of(old(children)@)[p].children,
                            indices@,
                            move_angles(mv),
                        ),
                        ..views_of(old(children)@)[p]
                    },
                )
            } else {
                views_of(old(children)@)
            },
            None => views_of(old(children)@),
        },
{
    let ghost before = views_of(children@);
    proof {
        lemma_views_of(children@);
    }
    match core_of(children) {
        None => {},
        Some(p) => {
            proof {
                lemma_node_view(children[p as int]);
            }
            match &mut children[p] {
                Node::Body(core) => {
                    turn_cubelets(&mut core.children, indices, mv);
                },
                _ => {},
            }
            proof {
                lemma_node_view(children[p as int]);
                lemma_views_of(children@);
                assert(views_of(children@) =~= before.update(p as int, children[p as int]@));
            }
        },
    }
}

impl RubiksCube {
    /// A solved cube: see [`solved`]. Its 26 slots hold the 26 cubelets,
    /// each once.
    pub fn new() -> (r: RubiksCube)
        ensures
            r@ == solved(),
            cube_wf(r@),
            numbers_differ(r@),
            cube_ready(r@),
            r@.len() == 26,
            r.cubelets@.len() == 26,
    {
        let mut m: Vec<(String, SlottedCubelet)> = Vec::new();
        m.push(("right".to_owned(), SlottedCubelet::Center(0)));
        m.push(("left".to_owned(), SlottedCubelet::Center(1)));
        m.push(("up".to_owned(), SlottedCubelet::Center(2)));
        m.push(("down".to_owned(), SlottedCubelet::Center(3)));
        m.push(("back".to_owned(), SlottedCubelet::Center(4)));
        m.push(("front".to_owned(), SlottedCubelet::Center(5)));
        m.push(("left-up".to_owned(), SlottedCubelet::Edge(EdgeSlot::LeftUp(1, 0), 10)));
        m.push(("left-down".to_owned(), SlottedCubelet::Edge(EdgeSlot::LeftDown(1, 0), 11)));
        m.push(("left-back".to_owned(), SlottedCubelet::Edge(EdgeSlot::LeftBack(0, 1), 12)));
        m.push(("left-front".to_owned(), SlottedCubelet::Edge(EdgeSlot::LeftFront(0, 1), 13)));
        m.push(("right-up".to_owned(), SlottedCubelet::Edge(EdgeSlot::RightUp(0, 1), 6)));
        m.push(("right-down".to_owned(), SlottedCubelet::Edge(EdgeSlot::RightDown(1, 0), 7)));
        m.push(("right-back".to_owned(), SlottedCubelet::Edge(EdgeSlot::RightBack(0, 1), 8)));
        m.push(("right-front".to_owned(), SlottedCubelet::Edge(EdgeSlot::RightFront(0, 1), 9)));
        m.push(("up-back".to_owned(), SlottedCubelet::Edge(EdgeSlot::UpBack(0, 1), 14)));
        m.push(("up-front".to_owned(), SlottedCubelet::Edge(EdgeSlot::UpFront(0, 1), 15)));
        m.push(("down-back".to_owned(), SlottedCubelet::Edge(EdgeSlot::DownBack(0, 1), 16)));
        m.push(("down-front".to_owned(), SlottedCubelet::Edge(EdgeSlot::DownFront(0, 1), 17)));
        m.push(
            ("up-left-front".to_owned(), SlottedCubelet::Corner(CornerSlot::UpLeftFront(1, 0, 2), 23)),
        );
        m.push(
            (
                "up-right-front".to_owned(),
                SlottedCubelet::Corner(CornerSlot::UpRightFront(1, 0, 2), 19),
            ),
        );
        m.push(
            ("up-left-back".to_owned(), SlottedCubelet::Corner(CornerSlot::UpLeftBack(1, 0, 2), 22)),
        );
        m.push(
            ("up-right-back".to_owned(), SlottedCubelet::Corner(CornerSlot::UpRightBack(1, 0, 2), 18)),
        );
        m.push(
            (
                "down-left-front".to_owned(),
                SlottedCubelet::Corner(CornerSlot::DownLeftFront(1, 0, 2), 25),
            ),
        );
        m.push(
            (
                "down-right-front".to_owned(),
                SlottedCubelet::Corner(CornerSlot::DownRightFront(1, 0, 2), 21),
            ),
        );
        m.push(
            (
                "down-left-back".to_owned(),
                SlottedCubelet::Corner(CornerSlot::DownLeftBack(1, 0, 2), 24),
            ),
        );
        m.push(
            (
                "down-right-back".to_owned(),
                SlottedCubelet::Corner(CornerSlot::DownRightBack(1, 0, 2), 20),
            ),
        );
        let cubelets: Vec<Cubelet> = vec![
            Cubelet::Center(FaceColor::Red),
            Cubelet::Center(FaceColor::Orange),
            Cubelet::Center(FaceColor::Blue),
            Cubelet::Center(FaceColor::Green),
            Cubelet::Center(FaceColor::White),
            Cubelet::Center(FaceColor::Yellow),
            Cubelet::Edge(FaceColor::Blue, FaceColor::Red),
            Cubelet::Edge(FaceColor::Green, FaceColor::Red),
            Cubelet::Edge(FaceColor::Red, FaceColor::White),
            Cubelet::Edge(FaceColor::Red, FaceColor::Yellow),
            Cubelet::Edge(FaceColor::Blue, FaceColor::Orange),
            Cubelet::Edge(FaceColor::Green, FaceColor::Orange),
            Cubelet::Edge(FaceColor::Orange, FaceColor::White),
            Cubelet::Edge(FaceColor::Orange, FaceColor::Yellow),
            Cubelet::Edge(FaceColor::Blue, FaceColor::White),
            Cubelet::Edge(FaceColor::Blue, FaceColor::Yellow),
            Cubelet::Edge(FaceColor::Green, FaceColor::White),
            Cubelet::Edge(FaceColor::Green, FaceColor::Yellow),
            Cubelet::Corner(FaceColor::Blue, FaceColor::Red, FaceColor::White),
            Cubelet::Corner(FaceColor::Blue, FaceColor::Red, FaceColor::Yellow),
            Cubelet::Corner(FaceColor::Green, FaceColor::Red, FaceColor::White),
            Cubelet::Corner(FaceColor::Green, FaceColor::Red, FaceColor::Yellow),
            Cubelet::Corner(FaceColor::Blue, FaceColor::Orange, FaceColor::White),
            Cubelet::Corner(FaceColor::Blue, FaceColor::Orange, FaceColor::Yellow),
            Cubelet::Corner(FaceColor::Green, FaceColor::Orange, FaceColor::White),
            Cubelet::Corner(FaceColor::Green, FaceColor::Orange, FaceColor::Yellow),
        ];
        let r = RubiksCube { cubelets, cube_slot_map: m };
        proof {
            let s = r@;
            assert(s.len() == 26);
            assert(s =~= solved());
            lemma_solved();
            lemma_has_slot(s, 6, "left-up"@);
            lemma_has_slot(s, 7, "left-down"@);
            lemma_has_slot(s, 8, "left-back"@);
            lemma_has_slot(s, 9, "left-front"@);
            lemma_has_slot(s, 10, "right-up"@);
            lemma_has_slot(s, 11, "right-down"@);
            lemma_has_slot(s, 12, "right-back"@);
            lemma_has_slot(s, 13, "right-front"@);
            lemma_has_slot(s, 14, "up-back"@);
            lemma_has_slot(s, 15, "up-front"@);
            lemma_has_slot(s, 16, "down-back"@);
            lemma_has_slot(s, 17, "down-front"@);
            lemma_has_slot(s, 18, "up-left-front"@);
            lemma_has_slot(s, 19, "up-right-front"@);
            lemma_has_slot(s, 20, "up-left-back"@);
            lemma_has_slot(s, 21, "up-right-back"@);
            lemma_has_slot(s, 22, "down-left-front"@);
            lemma_has_slot(s, 23, "down-right-front"@);
            lemma_has_slot(s, 24, "down-left-back"@);
            lemma_has_slot(s, 25, "down-right-back"@);
            assert forall|mv: CubeMove, i: int| 0 <= i < 4 implies has_slot(
                s,
                #[trigger] corner_keys(mv)[i],
            ) by {
                lemma_keys_len(mv);
            }
            assert forall|mv: CubeMove, i: int| 0 <= i < 4 implies has_slot(
                s,
                #[trigger] edge_keys(mv)[i],
            ) by {
                lemma_keys_len(mv);
            }
        }
        r
    }

    /// Makes a move: turns the bodies of the cubelets that sit in the slots
    /// of the face, then carries the slots round. See [`scene_turned`] and
    /// [`moved`].
    pub fn apply_move(&mut self, mv: CubeMove, world: &mut Node)
        requires
            cube_ready(old(self)@),
        ensures
            final(self)@ == moved(old(self)@, mv),
            cube_ready(final(self)@),
            final(self).cubelets == old(self).cubelets,
            cube_wf(old(self)@) ==> cube_wf(final(self)@),
            cube_wf(old(self)@) && numbers_differ(old(self)@) ==> numbers_differ(final(self)@),
            final(world)@ == scene_turned(
                old(world)@,
                face_indices(old(self)@, move_face(mv), old(self)@.len()),
                move_angles(mv),
            ),
    {
        let indices = self.get_indices_for_move(mv);
        proof {
            lemma_node_view(*world);
            crate::defaults::lemma_node_children(*world);
        }
        match world {
            Node::WorldBody(e) => turn_core(&mut e.children, &indices, mv),
            Node::Body(e) => turn_core(&mut e.children, &indices, mv),
            Node::Defaults(e) => turn_core(&mut e.children, &indices, mv),
            Node::Assets(e) => turn_core(&mut e.children, &indices, mv),
            _ => {},
        }
        proof {
            lemma_node_view(*world);
            crate::defaults::lemma_node_children(*world);
            assert(world@ =~= scene_turned(old(world)@, indices@, move_angles(mv)));
        }
        self.update_rep(mv);
    }
}

/// A cube and a scene after the first `k` moves of a list were made, one
/// after the other: each move turns the bodies of the cubelets that sit in
/// the slots of its face, then carries the slots round.
pub open spec fn played(slots: Slots, world: NodeView, moves: Seq<CubeMove>, k: nat) -> (
    Slots,
    NodeView,
)
    decreases k,
{
    if k == 0 || k > moves.len() {
        (slots, world)
    } else {
        let (s, w) = played(slots, world, moves, (k - 1) as nat);
        let mv = moves[k - 1];
        (
            moved(s, mv),
            scene_turned(w, face_indices(s, move_face(mv), s.len()), move_angles(mv)),
        )
    }
}

/// The moves that scramble a cube when a scene is loaded.
pub open spec fn opening_moves() -> Seq<CubeMove> {
    seq![
        CubeMove::FPlus,
        CubeMove::BPlus,
        CubeMove::UPlus,
        CubeMove::RPlus,
        CubeMove::DPlus,
        CubeMove::LPlus,
        CubeMove::RPlus,
        CubeMove::RPlus,
        CubeMove::DPlus,
        CubeMove::FPlus,
    ]
}

/// The name of the slot at a place of a cube.
pub open spec fn name_at(place: int) -> Seq<char> {
    if place == 0 {
        "right"@
    } else if place == 1 {
        "left"@
    } else if place == 2 {
        "up"@
    } else if place == 3 {
        "down"@
    } else if place == 4 {
        "back"@
    } else if place == 5 {
        "front"@
    } else if place == 6 {
        "left-up"@
    } else if place == 7 {
        "left-down"@
    } else if place == 8 {
        "left-back"@
    } else if place == 9 {
        "left-front"@
    } else if place == 10 {
        "right-up"@
    } else if place == 11 {
        "right-down"@
    } else if place == 12 {
        "right-back"@
    } else if place == 13 {
        "right-front"@
    } else if place == 14 {
        "up-back"@
    } else if place == 15 {
        "up-front"@
    } else if place == 16 {
        "down-back"@
    } else if place == 17 {
        "down-front"@
    } else if place == 18 {
        "up-left-front"@
    } else if place == 19 {
        "up-right-front"@
    } else if place == 20 {
        "up-left-back"@
    } else if place == 21 {
        "up-right-back"@
    } else if place == 22 {
        "down-left-front"@
    } else if place == 23 {
        "down-right-front"@
    } else if place == 24 {
        "down-left-back"@
    } else {
        "down-right-back"@
    }
}

/// The slot at a place of a solved cube, with the cubelet that sits in it.
pub open spec fn solved_at(place: int) -> SlottedCubelet {
    if place == 0 {
        SlottedCubelet::Center(0)
    } else if place == 1 {
        SlottedCubelet::Center(1)
    } else if place == 2 {
        SlottedCubelet::Center(2)
    } else if place == 3 {
        SlottedCubelet::Center(3)
    } else if place == 4 {
        SlottedCubelet::Center(4)
    } else if place == 5 {
        SlottedCubelet::Center(5)
    } else if place == 6 {
        SlottedCubelet::Edge(EdgeSlot::LeftUp(1, 0), 10)
    } else if place == 7 {
        SlottedCubelet::Edge(EdgeSlot::LeftDown(1, 0), 11)
    } else if place == 8 {
        SlottedCubelet::Edge(EdgeSlot::LeftBack(0, 1), 12)
    } else if place == 9 {
        SlottedCubelet::Edge(EdgeSlot::LeftFront(0, 1), 13)
    } else if place == 10 {
        SlottedCubelet::Edge(EdgeSlot::RightUp(0, 1), 6)
    } else if place == 11 {
        SlottedCubelet::Edge(EdgeSlot::RightDown(1, 0), 7)
    } else if place == 12 {
        SlottedCubelet::Edge(EdgeSlot::RightBack(0, 1), 8)
    } else if place == 13 {
        SlottedCubelet::Edge(EdgeSlot::RightFront(0, 1), 9)
    } else if place == 14 {
        SlottedCubelet::Edge(EdgeSlot::UpBack(0, 1), 14)
    } else if place == 15 {
        SlottedCubelet::Edge(EdgeSlot::UpFront(0, 1), 15)
    } else if place == 16 {
        SlottedCubelet::Edge(EdgeSlot::DownBack(0, 1), 16)
    } else if place == 17 {
        SlottedCubelet::Edge(EdgeSlot::DownFront(0, 1), 17)
    } else if place == 18 {
        SlottedCubelet::Corner(CornerSlot::UpLeftFront(1, 0, 2), 23)
    } else if place == 19 {
        SlottedCubelet::Corner(CornerSlot::UpRightFront(1, 0, 2), 19)
    } else if place == 20 {
        SlottedCubelet::Corner(CornerSlot::UpLeftBack(1, 0, 2), 22)
    } else if place == 21 {
        SlottedCubelet::Corner(CornerSlot::UpRightBack(1, 0, 2), 18)
    } else if place == 22 {
        SlottedCubelet::Corner(CornerSlot::DownLeftFront(1, 0, 2), 25)
    } else if place == 23 {
        SlottedCubelet::Corner(CornerSlot::DownRightFront(1, 0, 2), 21)
    } else if place == 24 {
        SlottedCubelet::Corner(CornerSlot::DownLeftBack(1, 0, 2), 24)
    } else {
        SlottedCubelet::Corner(CornerSlot::DownRightBack(1, 0, 2), 20)
    }
}

/// A solved cube: 26 slots by name, each with its own cubelet.
pub open spec fn solved() -> Slots {
    Seq::new(26, |place: int| (name_at(place), solved_at(place)))
}

/// The sort of a slot: 0 for a centre, 1 for a corner, 2 for an edge.
pub open spec fn sort_of(slot: SlottedCubelet) -> int {
    match slot {
        SlottedCubelet::Center(_) => 0,
        SlottedCubelet::Corner(..) => 1,
        SlottedCubelet::Edge(..) => 2,
    }
}

/// A cube is well formed when it has the 26 slots of a solved cube, by name
/// and by sort, in their places.
pub open spec fn cube_wf(slots: Slots) -> bool {
    &&& slots.len() == 26
    &&& forall|place: int|
        0 <= place < 26 ==> (#[trigger] slots[place]).0 == name_at(place) && sort_of(
            slots[place].1,
        ) == sort_of(solved_at(place))
}

/// The numbers of the cubelets in the slots of a cube are all different.
pub open spec fn numbers_differ(slots: Slots) -> bool {
    forall|i: int, j: int|
        0 <= i < j < slots.len() ==> index_of_slot(#[trigger] slots[i].1) != index_of_slot(
            #[trigger] slots[j].1,
        )
}

/// Whether a cubelet of a number sits in a slot of a cube.
pub open spec fn has_number(slots: Slots, number: u32) -> bool {
    exists|i: int| 0 <= i < slots.len() && index_of_slot(#[trigger] slots[i].1) == number
}

/// What tells the names of the slots apart: their lengths, and a letter
/// where two have the same length.
pub proof fn lemma_names()
    ensures
        "right"@.len() == 5 && "right"@[0] == 'r',
        "left"@.len() == 4 && "left"@[0] == 'l',
        "up"@.len() == 2 && "up"@[0] == 'u',
        "down"@.len() == 4 && "down"@[0] == 'd',
        "back"@.len() == 4 && "back"@[0] == 'b',
        "front"@.len() == 5 && "front"@[0] == 'f',
        "left-up"@.len() == 7 && "left-up"@[0] == 'l',
        "left-down"@.len() == 9 && "left-down"@[0] == 'l' && "left-down"@[5] == 'd',
        "left-back"@.len() == 9 && "left-back"@[0] == 'l' && "left-back"@[5] == 'b',
        "left-front"@.len() == 10 && "left-front"@[0] == 'l',
        "right-up"@.len() == 8 && "right-up"@[0] == 'r',
        "right-down"@.len() == 10 && "right-down"@[0] == 'r' && "right-down"@[6] == 'd',
        "right-back"@.len() == 10 && "right-back"@[0] == 'r' && "right-back"@[6] == 'b',
        "right-front"@.len() == 11 && "right-front"@[0] == 'r',
        "up-back"@.len() == 7 && "up-back"@[0] == 'u',
        "up-front"@.len() == 8 && "up-front"@[0] == 'u',
        "down-back"@.len() == 9 && "down-back"@[0] == 'd',
        "down-front"@.len() == 10 && "down-front"@[0] == 'd',
        "up-left-front"@.len() == 13 && "up-left-front"@[0] == 'u' && "up-left-front"@[3] == 'l',
        "up-right-front"@.len() == 14 && "up-right-front"@[0] == 'u',
        "up-left-back"@.len() == 12 && "up-left-back"@[0] == 'u',
        "up-right-back"@.len() == 13 && "up-right-back"@[0] == 'u' && "up-right-back"@[3] == 'r',
        "down-left-front"@.len() == 15 && "down-left-front"@[0] == 'd' && "down-left-front"@[5] == 'l',
        "down-right-front"@.len() == 16 && "down-right-front"@[0] == 'd',
        "down-left-back"@.len() == 14 && "down-left-back"@[0] == 'd',
        "down-right-back"@.len() == 15 && "down-right-back"@[0] == 'd' && "down-right-back"@[5] == 'r',
{
    reveal_strlit("right");
    reveal_strlit("left");
    reveal_strlit("up");
    reveal_strlit("down");
    reveal_strlit("back");
    reveal_strlit("front");
    reveal_strlit("left-up");
    reveal_strlit("left-down");
    reveal_strlit("left-back");
    reveal_strlit("left-front");
    reveal_strlit("right-up");
    reveal_strlit("right-down");
    reveal_strlit("right-back");
    reveal_strlit("right-front");
    reveal_strlit("up-back");
    reveal_strlit("up-front");
    reveal_strlit("down-back");
    reveal_strlit("down-front");
    reveal_strlit("up-left-front");
    reveal_strlit("up-right-front");
    reveal_strlit("up-left-back");
    reveal_strlit("up-right-back");
    reveal_strlit("down-left-front");
    reveal_strlit("down-right-front");
    reveal_strlit("down-left-back");
    reveal_strlit("down-right-back");
}

/// Where the slots of the moves stand in a cube that is well formed.
pub proof fn lemma_places(slots: Slots)
    requires
        cube_wf(slots),
    ensures
        slot_at(slots, "left-up"@, 0) == 6,
        slot_at(slots, "left-down"@, 0) == 7,
        slot_at(slots, "left-back"@, 0) == 8,
        slot_at(slots, "left-front"@, 0) == 9,
        slot_at(slots, "right-up"@, 0) == 10,
        slot_at(slots, "right-down"@, 0) == 11,
        slot_at(slots, "right-back"@, 0) == 12,
        slot_at(slots, "right-front"@, 0) == 13,
        slot_at(slots, "up-back"@, 0) == 14,
        slot_at(slots, "up-front"@, 0) == 15,
        slot_at(slots, "down-back"@, 0) == 16,
        slot_at(slots, "down-front"@, 0) == 17,
        slot_at(slots, "up-left-front"@, 0) == 18,
        slot_at(slots, "up-right-front"@, 0) == 19,
        slot_at(slots, "up-left-back"@, 0) == 20,
        slot_at(slots, "up-right-back"@, 0) == 21,
        slot_at(slots, "down-left-front"@, 0) == 22,
        slot_at(slots, "down-right-front"@, 0) == 23,
        slot_at(slots, "down-left-back"@, 0) == 24,
        slot_at(slots, "down-right-back"@, 0) == 25,
{
    lemma_names();
    lemma_place(slots, "left-up"@, 6);
    lemma_place(slots, "left-down"@, 7);
    lemma_place(slots, "left-back"@, 8);
    lemma_place(slots, "left-front"@, 9);
    lemma_place(slots, "right-up"@, 10);
    lemma_place(slots, "right-down"@, 11);
    lemma_place(slots, "right-back"@, 12);
    lemma_place(slots, "right-front"@, 13);
    lemma_place(slots, "up-back"@, 14);
    lemma_place(slots, "up-front"@, 15);
    lemma_place(slots, "down-back"@, 16);
    lemma_place(slots, "down-front"@, 17);
    lemma_place(slots, "up-left-front"@, 18);
    lemma_place(slots, "up-right-front"@, 19);
    lemma_place(slots, "up-left-back"@, 20);
    lemma_place(slots, "up-right-back"@, 21);
    lemma_place(slots, "down-left-front"@, 22);
    lemma_place(slots, "down-right-front"@, 23);
    lemma_place(slots, "down-left-back"@, 24);
    lemma_place(slots, "down-right-back"@, 25);
}

/// A name that stands at a place and at no place before it is found there.
pub proof fn lemma_place(slots: Slots, name: Seq<char>, place: int)
    requires
        0 <= place < slots.len(),
        slots[place].0 == name,
        forall|j: int| 0 <= j < place ==> (#[trigger] slots[j]).0 != name,
    ensures
        slot_at(slots, name, 0) == place,
{
    lemma_slot_before(slots, name, 0, place);
    lemma_slot_at(slots, name, 0);
}

/// The place that a slot of a round takes its cubelet from: the place
/// before it in the round, the last for the first; its own place for a slot
/// outside the round.
pub open spec fn source(places: Seq<int>, place: int) -> int {
    if place == places[0] {
        places[3]
    } else if place == places[1] {
        places[0]
    } else if place == places[2] {
        places[1]
    } else if place == places[3] {
        places[2]
    } else {
        place
    }
}

/// What a round does to a cube: the slots keep their names and their sorts;
/// each slot of the round takes the cubelet of the slot before it in the
/// round, the first that of the last; every other slot stays as it is.
pub proof fn lemma_round(slots: Slots, places: Seq<int>, axis: int, corners: bool)
    requires
        places.len() == 4,
        forall|i: int| 0 <= i < 4 ==> 0 <= #[trigger] places[i] < slots.len(),
        forall|i: int, j: int| 0 <= i < j < 4 ==> places[i] != places[j],
        forall|i: int|
            0 <= i < 4 ==> sort_of(slots[#[trigger] places[i]].1) == (if corners {
                1int
            } else {
                2int
            }),
    ensures
        rounded(slots, places, axis, corners, 4).0.len() == slots.len(),
        forall|q: int|
            0 <= q < slots.len() ==> (#[trigger] rounded(slots, places, axis, corners, 4).0[q]).0
                == slots[q].0 && sort_of(rounded(slots, places, axis, corners, 4).0[q].1)
                == sort_of(slots[q].1) && index_of_slot(
                rounded(slots, places, axis, corners, 4).0[q].1,
            ) == index_of_slot(slots[source(places, q)].1),
        forall|q: int|
            0 <= q < slots.len() && source(places, q) == q && q != places[0] ==> (
            #[trigger] rounded(slots, places, axis, corners, 4).0[q]) == slots[q],
{
    reveal_with_fuel(rounded, 5);
    let p0 = places[0];
    let p1 = places[1];
    let p2 = places[2];
    let p3 = places[3];
    assert(places.last() == p3);
    let r0 = rounded(slots, places, axis, corners, 0);
    let r1 = rounded(slots, places, axis, corners, 1);
    let r2 = rounded(slots, places, axis, corners, 2);
    let r3 = rounded(slots, places, axis, corners, 3);
    let r4 = rounded(slots, places, axis, corners, 4);
    assert(r0.0 == slots);
    assert(r1.0 == r0.0.update(p0, (r0.0[p0].0, taken(r0.0[p0].1, axis, corners, r0.1))));
    assert(r2.0 == r1.0.update(p1, (r1.0[p1].0, taken(r1.0[p1].1, axis, corners, r1.1))));
    assert(r3.0 == r2.0.update(p2, (r2.0[p2].0, taken(r2.0[p2].1, axis, corners, r2.1))));
    assert(r4.0 == r3.0.update(p3, (r3.0[p3].0, taken(r3.0[p3].1, axis, corners, r3.1))));
}

/// The four places of a round of a move in a cube that is well formed.
pub open spec fn corner_round(slots: Slots, mv: CubeMove) -> Seq<int> {
    places_of(slots, corner_keys(mv))
}

/// The four places of the round of edges of a move.
pub open spec fn edge_round(slots: Slots, mv: CubeMove) -> Seq<int> {
    places_of(slots, edge_keys(mv))
}

/// The place that a slot takes its cubelet from in a move: its place in the
/// round of corners or in the round of edges, or its own.
pub open spec fn move_source(slots: Slots, mv: CubeMove, place: int) -> int {
    source(corner_round(slots, mv), source(edge_round(slots, mv), place))
}

/// A cube that is well formed has every slot that a move may carry round.
pub proof fn lemma_wf_ready(slots: Slots)
    requires
        cube_wf(slots),
    ensures
        cube_ready(slots),
{
    lemma_places(slots);
    assert forall|mv: CubeMove, i: int| 0 <= i < 4 implies has_slot(
        slots,
        #[trigger] corner_keys(mv)[i],
    ) by {
        lemma_keys_len(mv);
    }
    assert forall|mv: CubeMove, i: int| 0 <= i < 4 implies has_slot(
        slots,
        #[trigger] edge_keys(mv)[i],
    ) by {
        lemma_keys_len(mv);
    }
}

/// What a move does to a cube that is well formed: the cube stays well
/// formed; the four corners of the move and its four edges each take the
/// cubelet of the slot before them in their round; every other slot, the
/// centres among them, stays as it is.
pub proof fn lemma_moved(slots: Slots, mv: CubeMove)
    requires
        cube_wf(slots),
    ensures
        cube_wf(moved(slots, mv)),
        forall|q: int|
            0 <= q < 26 ==> index_of_slot((#[trigger] moved(slots, mv)[q]).1) == index_of_slot(
                slots[move_source(slots, mv, q)].1,
            ),
        forall|q: int| 0 <= q < 26 ==> 0 <= #[trigger] move_source(slots, mv, q) < 26,
        forall|q: int, r: int|
            0 <= q < r < 26 ==> move_source(slots, mv, q) != move_source(slots, mv, r),
        forall|q: int|
            0 <= q < 26 && move_source(slots, mv, q) == q ==> (#[trigger] moved(slots, mv)[q])
                == slots[q],
        forall|q: int| 0 <= q < 6 ==> move_source(slots, mv, q) == q,
{
    lemma_places(slots);
    lemma_keys_len(mv);
    let cp = corner_round(slots, mv);
    assert(cp.len() == 4);
    assert(cp[0] == slot_at(slots, corner_keys(mv)[0], 0));
    assert(cp[1] == slot_at(slots, corner_keys(mv)[1], 0));
    assert(cp[2] == slot_at(slots, corner_keys(mv)[2], 0));
    assert(cp[3] == slot_at(slots, corner_keys(mv)[3], 0));
    assert forall|i: int| 0 <= i < 4 implies 18 <= #[trigger] cp[i] < 26 by {}
    assert forall|i: int| 0 <= i < 4 implies sort_of(slots[#[trigger] cp[i]].1) == 1 by {
        assert(sort_of(slots[cp[i]].1) == sort_of(solved_at(cp[i])));
    }
    lemma_round(slots, cp, move_axis(mv), true);
    let after = rounded(slots, cp, move_axis(mv), true, 4).0;
    assert(cube_wf(after));
    lemma_places(after);
    let ep = places_of(after, edge_keys(mv));
    assert(ep.len() == 4);
    assert(ep[0] == slot_at(after, edge_keys(mv)[0], 0));
    assert(ep[1] == slot_at(after, edge_keys(mv)[1], 0));
    assert(ep[2] == slot_at(after, edge_keys(mv)[2], 0));
    assert(ep[3] == slot_at(after, edge_keys(mv)[3], 0));
    let ep0 = edge_round(slots, mv);
    assert(ep0[0] == slot_at(slots, edge_keys(mv)[0], 0));
    assert(ep0[1] == slot_at(slots, edge_keys(mv)[1], 0));
    assert(ep0[2] == slot_at(slots, edge_keys(mv)[2], 0));
    assert(ep0[3] == slot_at(slots, edge_keys(mv)[3], 0));
    assert(ep =~= ep0);
    assert forall|i: int| 0 <= i < 4 implies 6 <= #[trigger] ep[i] < 18 by {}
    assert forall|i: int| 0 <= i < 4 implies sort_of(after[#[trigger] ep[i]].1) == 2 by {
        assert(sort_of(after[ep[i]].1) == sort_of(solved_at(ep[i])));
    }
    lemma_round(after, ep, move_axis(mv), false);
    let done = rounded(after, ep, move_axis(mv), false, 4).0;
    assert(done == moved(slots, mv));
    assert forall|q: int| 0 <= q < 26 implies index_of_slot((#[trigger] done[q]).1)
        == index_of_slot(slots[move_source(slots, mv, q)].1) by {
        let mid = source(ep, q);
        assert(index_of_slot(done[q].1) == index_of_slot(after[mid].1));
        assert(index_of_slot(after[mid].1) == index_of_slot(slots[source(cp, mid)].1));
    }
    assert forall|q: int| 0 <= q < 26 && move_source(slots, mv, q) == q implies (
    #[trigger] done[q]) == slots[q] by {
        assert(source(ep, q) == q);
        assert(done[q] == after[q]);
        assert(after[q] == slots[q]);
    }
}

/// A move permutes the cubelets of a cube that is well formed: where the
/// numbers in the slots are all different before the move they are so after
/// it, and the cubelets that sit in the cube are the same before and after.
pub proof fn lemma_moved_permutes(slots: Slots, mv: CubeMove)
    requires
        cube_wf(slots),
    ensures
        cube_wf(moved(slots, mv)),
        numbers_differ(slots) ==> numbers_differ(moved(slots, mv)),
        forall|number: u32| has_number(moved(slots, mv), number) <==> has_number(slots, number),
{
    lemma_moved(slots, mv);
    let done = moved(slots, mv);
    if numbers_differ(slots) {
        assert forall|i: int, j: int| 0 <= i < j < done.len() implies index_of_slot(
            #[trigger] done[i].1,
        ) != index_of_slot(#[trigger] done[j].1) by {
            let a = move_source(slots, mv, i);
            let b = move_source(slots, mv, j);
            assert(a != b);
            if a < b {
                assert(index_of_slot(slots[a].1) != index_of_slot(slots[b].1));
            } else {
                assert(index_of_slot(slots[b].1) != index_of_slot(slots[a].1));
            }
        }
    }
    assert forall|number: u32| has_number(done, number) <==> has_number(slots, number) by {
        if has_number(done, number) {
            let i = choose|i: int|
                0 <= i < done.len() && index_of_slot(#[trigger] done[i].1) == number;
            assert(index_of_slot(slots[move_source(slots, mv, i)].1) == number);
        }
        if has_number(slots, number) {
            let k = choose|k: int|
                0 <= k < slots.len() && index_of_slot(#[trigger] slots[k].1) == number;
            lemma_source_onto(slots, mv, k);
            let i = choose|i: int| 0 <= i < 26 && move_source(slots, mv, i) == k;
            assert(index_of_slot(done[i].1) == number);
        }
    }
}

/// Every slot hands its cubelet to a slot in a move.
pub proof fn lemma_source_onto(slots: Slots, mv: CubeMove, k: int)
    requires
        cube_wf(slots),
        0 <= k < 26,
    ensures
        exists|i: int| 0 <= i < 26 && move_source(slots, mv, i) == k,
{
    lemma_places(slots);
    lemma_keys_len(mv);
    let cp = corner_round(slots, mv);
    let ep = edge_round(slots, mv);
    assert(cp[0] == slot_at(slots, corner_keys(mv)[0], 0));
    assert(cp[1] == slot_at(slots, corner_keys(mv)[1], 0));
    assert(cp[2] == slot_at(slots, corner_keys(mv)[2], 0));
    assert(cp[3] == slot_at(slots, corner_keys(mv)[3], 0));
    assert(ep[0] == slot_at(slots, edge_keys(mv)[0], 0));
    assert(ep[1] == slot_at(slots, edge_keys(mv)[1], 0));
    assert(ep[2] == slot_at(slots, edge_keys(mv)[2], 0));
    assert(ep[3] == slot_at(slots, edge_keys(mv)[3], 0));
    let i = if k == cp[3] {
        cp[0]
    } else if k == cp[0] {
        cp[1]
    } else if k == cp[1] {
        cp[2]
    } else if k == cp[2] {
        cp[3]
    } else if k == ep[3] {
        ep[0]
    } else if k == ep[0] {
        ep[1]
    } else if k == ep[1] {
        ep[2]
    } else if k == ep[2] {
        ep[3]
    } else {
        k
    };
    assert(0 <= i < 26 && move_source(slots, mv, i) == k);
}

/// A solved cube is well formed, and its 26 slots hold the 26 cubelets
/// numbered 0 to 25, each once.
pub proof fn lemma_solved()
    ensures
        cube_wf(solved()),
        numbers_differ(solved()),
        forall|number: u32| has_number(solved(), number) <==> number < 26,
{
    let s = solved();
    assert forall|number: u32| has_number(s, number) <==> number < 26 by {
        if number < 26 {
            let i: int = if number < 6 {
                number as int
            } else if number < 10 {
                number as int + 4
            } else if number < 14 {
                number as int - 4
            } else if number < 18 {
                number as int
            } else if number == 18 {
                21
            } else if number == 19 {
                19
            } else if number == 20 {
                25
            } else if number == 21 {
                23
            } else if number == 22 {
                20
            } else if number == 23 {
                18
            } else if number == 24 {
                24
            } else {
                22
            };
            assert(0 <= i < 26 && index_of_slot(s[i].1) == number);
        }
    }
}

/// After any moves from a cube that is well formed and whose cubelets are
/// all different, the cube is well formed, its cubelets are all different,
/// and they are the cubelets it had.
pub proof fn lemma_played(slots: Slots, world: NodeView, moves: Seq<CubeMove>, k: nat)
    requires
        cube_wf(slots),
        numbers_differ(slots),
        k <= moves.len(),
    ensures
        cube_wf(played(slots, world, moves, k).0),
        numbers_differ(played(slots, world, moves, k).0),
        forall|number: u32|
            has_number(played(slots, world, moves, k).0, number) <==> has_number(slots, number),
    decreases k,
{
    if k > 0 {
        lemma_played(slots, world, moves, (k - 1) as nat);
        lemma_moved_permutes(played(slots, world, moves, (k - 1) as nat).0, moves[k - 1]);
    }
}

} // verus!
