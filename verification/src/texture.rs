//! Textures: their typed attributes, and the faces of a cube texture that is
//! packed into one image as a grid of cells.

use vstd::prelude::*;
use crate::attrs::{Attrs, has_key, value_of};
use crate::binding::{text_of, text_in};
use crate::node::{NodeView, Texture, TextureType};
use crate::schema::{ValueShape, shape_ok, unsigned_of, read_grid};
use crate::text::{Separator, tokens_of, chars_of, same_text};

verus! {

/// The form of a texture: what its `type` names, and a cube where it names
/// nothing known or was not set.
pub open spec fn texture_type_of(attrs: Attrs) -> TextureType {
    if has_key(attrs, "type"@) && value_of(attrs, "type"@) == "2d"@ {
        TextureType::TwoD
    } else if has_key(attrs, "type"@) && value_of(attrs, "type"@) == "skybox"@ {
        TextureType::Skybox
    } else {
        TextureType::Cube
    }
}

/// The rows and columns of the grid of a texture: what its `gridsize` gives,
/// and one of each where none was set.
pub open spec fn grid_of(attrs: Attrs) -> (u32, u32) {
    if has_key(attrs, "gridsize"@) && shape_ok(ValueShape::Grid, value_of(attrs, "gridsize"@)) {
        let tokens = tokens_of(Separator::Space, value_of(attrs, "gridsize"@));
        (unsigned_of(tokens[0])->0, unsigned_of(tokens[1])->0)
    } else {
        (1u32, 1u32)
    }
}

/// Whether `needle` stands in `hay` at index `at`.
pub open spec fn stands_at(hay: Seq<char>, needle: Seq<char>, at: int) -> bool {
    0 <= at && at + needle.len() <= hay.len() && hay.subrange(at, at + needle.len()) == needle
}

/// The first index at or after `from` at which `needle` stands in `hay`, or
/// the length of `hay` plus one where it stands nowhere.
pub open spec fn first_at(hay: Seq<char>, needle: Seq<char>, from: int) -> int
    decreases hay.len() - from,
{
    if from < 0 || from > hay.len() {
        (hay.len() + 1) as int
    } else if stands_at(hay, needle, from) {
        from
    } else if from == hay.len() {
        (hay.len() + 1) as int
    } else {
        first_at(hay, needle, from + 1)
    }
}

/// The cell of the grid that holds a face: the index at which the face first
/// stands in the layout, where it stands in it and the grid has that cell.
pub open spec fn face_cell(t: NodeView, face: Seq<char>) -> Option<int> {
    let layout = text_of(t.attrs, "gridlayout"@);
    let grid = grid_of(t.attrs);
    let at = first_at(layout, face, 0);
    if at <= layout.len() && at < grid.0 * grid.1 {
        Some(at)
    } else {
        None
    }
}

/// The width of a cell of the grid, in pixels.
pub open spec fn cell_width(t: NodeView) -> int {
    t.dimensions.0 as int / grid_of(t.attrs).1 as int
}

/// The height of a cell of the grid, in pixels.
pub open spec fn cell_height(t: NodeView) -> int {
    t.dimensions.1 as int / grid_of(t.attrs).0 as int
}

/// The byte at a place of the image of a face: of pixel `k / 3` of the cell,
/// row after row, the channel `k % 3`; of the colour of a missing face where
/// the texture has no cell for the face.
pub open spec fn face_byte(t: NodeView, face: Seq<char>, k: int) -> u8 {
    let w = cell_width(t);
    let cols = grid_of(t.attrs).1 as int;
    match face_cell(t, face) {
        Some(cell) => {
            let y = (cell / cols) * cell_height(t) + (k / 3) / w;
            let x = (cell % cols) * w + (k / 3) % w;
            t.file_data[3 * (y * t.dimensions.0 + x) + k % 3]
        },
        None => if k % 3 == 0 {
            t.fill.0
        } else if k % 3 == 1 {
            t.fill.1
        } else {
            t.fill.2
        },
    }
}

/// The image of a face of a cube texture: three bytes for each pixel of a cell.
pub open spec fn face_image(t: NodeView, face: Seq<char>) -> Seq<u8> {
    Seq::new((3 * cell_width(t) * cell_height(t)) as nat, |k: int| face_byte(t, face, k))
}

/// A texture can give a face when its grid has a row and a column and,
/// where it has a cell for the face, its image has three bytes for each of
/// its pixels. A face without a cell needs no image.
pub open spec fn face_ready(t: NodeView, face: Seq<char>) -> bool {
    &&& grid_of(t.attrs).0 > 0
    &&& grid_of(t.attrs).1 > 0
    &&& face_cell(t, face) is Some ==> t.file_data.len() == 3 * t.dimensions.0 * t.dimensions.1
}

/// Decides whether a text stands in another at an index.
fn stands(hay: &Vec<char>, needle: &Vec<char>, at: usize) -> (r: bool)
    requires
        at <= hay.len(),
    ensures
        r == stands_at(hay@, needle@, at as int),
{
    if needle.len() > hay.len() - at {
        return false;
    }
    let mut i: usize = 0;
    while i < needle.len()
        invariant
            at <= hay.len(),
            needle.len() <= hay.len() - at,
            i <= needle.len(),
            forall|j: int| 0 <= j < i ==> hay@[at + j] == needle@[j],
        decreases needle.len() - i,
    {
        if hay[at + i] != needle[i] {
            assert(hay@.subrange(at as int, at + needle.len())[i as int] != needle@[i as int]);
            return false;
        }
        i += 1;
    }
    assert(hay@.subrange(at as int, at + needle.len()) =~= needle@);
    true
}

/// The first index at which `needle` stands in `hay`.
pub fn find_text(hay: &str, needle: &str) -> (r: Option<usize>)
    ensures
        match r {
            Some(i) => first_at(hay@, needle@, 0) == i && i <= hay@.len(),
            None => first_at(hay@, needle@, 0) > hay@.len(),
        },
{
    let h = chars_of(hay);
    let n = chars_of(needle);
    let mut i: usize = 0;
    while i <= h.len()
        invariant
            i <= h.len() + 1,
            h@ == hay@,
            n@ == needle@,
            first_at(hay@, needle@, i as int) == first_at(hay@, needle@, 0),
        decreases h.len() + 1 - i,
    {
        if stands(&h, &n, i) {
            return Some(i);
        }
        if i == h.len() {
            return None;
        }
        i += 1;
    }
    None
}

impl Texture {
    /// The form of the texture.
    pub fn t_type(&self) -> (r: TextureType)
        ensures
            r == texture_type_of(self@.attrs),
    {
        match self.attrs_map.get("type") {
            None => TextureType::Cube,
            Some(t) => if same_text(t.as_str(), "2d") {
                TextureType::TwoD
            } else if same_text(t.as_str(), "skybox") {
                TextureType::Skybox
            } else {
                TextureType::Cube
            },
        }
    }

    /// The rows and columns of the grid.
    pub fn gridsize(&self) -> (r: (u32, u32))
        ensures
            r == grid_of(self@.attrs),
    {
        match self.attrs_map.get("gridsize") {
            None => (1, 1),
            Some(v) => match read_grid(v.as_str()) {
                Some(g) => g,
                None => (1, 1),
            },
        }
    }

    /// The layout of the grid: the letter of a face at the index of its cell.
    pub fn gridlayout(&self) -> (r: String)
        ensures
            r@ == text_of(self@.attrs, "gridlayout"@),
    {
        text_in(&self.attrs_map, "gridlayout")
    }

    /// Whether the layout of the texture has a cell of the grid for a face.
    pub fn has_cell(&self, face: &str) -> (r: bool)
        ensures
            r == (face_cell(self@, face@) is Some),
    {
        let grid = self.gridsize();
        let layout = self.gridlayout();
        proof {
            assert(grid.0 * grid.1 <= 0xffff_ffff * 0xffff_ffff) by (nonlinear_arith)
                requires
                    0 <= grid.0 <= 0xffff_ffff,
                    0 <= grid.1 <= 0xffff_ffff,
            ;
        }
        let cells: u64 = (grid.0 as u64) * (grid.1 as u64);
        match find_text(layout.as_str(), face) {
            Some(at) => (at as u64) < cells,
            None => false,
        }
    }

    /// The image of one face of a cube texture: the width and the height of
    /// a cell, and the pixels of the cell that the layout gives to the face.
    /// Where the layout has no cell for the face, the pixels have the colour
    /// of a missing face.
    pub fn get_cube_face_raw_image_data(&self, face: String) -> (r: (u32, u32, Vec<u8>))
        requires
            face_ready(self@, face@),
        ensures
            r.0 == cell_width(self@),
            r.1 == cell_height(self@),
            r.2@ == face_image(self@, face@),
    {
        let grid = self.gridsize();
        let full_width = self.texture_image_dimensions.0;
        let full_height = self.texture_image_dimensions.1;
        let width = full_width / grid.1;
        let height = full_height / grid.0;
        let layout = self.gridlayout();
        proof {
            assert(grid.0 * grid.1 <= 0xffff_ffff * 0xffff_ffff) by (nonlinear_arith)
                requires
                    0 <= grid.0 <= 0xffff_ffff,
                    0 <= grid.1 <= 0xffff_ffff,
            ;
        }
        let cells: u64 = (grid.0 as u64) * (grid.1 as u64);
        let cell: Option<usize> = match find_text(layout.as_str(), face.as_str()) {
            Some(at) => if (at as u64) < cells {
                Some(at)
            } else {
                None
            },
            None => None,
        };
        assert(match cell {
            Some(c) => face_cell(self@, face@) == Some(c as int),
            None => face_cell(self@, face@) is None,
        });
        let w = width as usize;
        let h = height as usize;
        let cols = grid.1 as usize;
        let big = full_width as usize;
        proof {
            assert(w * grid.1 <= full_width) by (nonlinear_arith)
                requires
                    w == full_width as int / grid.1 as int,
                    grid.1 > 0,
            ;
            assert(h * grid.0 <= full_height) by (nonlinear_arith)
                requires
                    h == full_height as int / grid.0 as int,
                    grid.0 > 0,
            ;
        }
        let mut data: Vec<u8> = Vec::new();
        let mut y: usize = 0;
        while y < h
            invariant
                y <= h,
                w == cell_width(self@),
                h == cell_height(self@),
                cols == grid_of(self@.attrs).1,
                big == self@.dimensions.0,
                grid == grid_of(self@.attrs),
                full_width == self@.dimensions.0,
                full_height == self@.dimensions.1,
                face_ready(self@, face@),
                w * grid.1 <= full_width,
                h * grid.0 <= full_height,
                match cell {
                    Some(c) => face_cell(self@, face@) == Some(c as int),
                    None => face_cell(self@, face@) is None,
                },
                data@.len() == 3 * w * y,
                forall|k: int| 0 <= k < 3 * w * y ==> data@[k] == face_byte(self@, face@, k),
            decreases h - y,
        {
            proof {
                assert(3 * (w * y + 0) == 3 * w * y) by (nonlinear_arith);
            }
            let mut x: usize = 0;
            while x < w
                invariant
                    y < h,
                    x <= w,
                    w == cell_width(self@),
                    h == cell_height(self@),
                    cols == grid_of(self@.attrs).1,
                    big == self@.dimensions.0,
                    grid == grid_of(self@.attrs),
                    full_width == self@.dimensions.0,
                    full_height == self@.dimensions.1,
                    face_ready(self@, face@),
                    w * grid.1 <= full_width,
                    h * grid.0 <= full_height,
                    match cell {
                        Some(c) => face_cell(self@, face@) == Some(c as int),
                        None => face_cell(self@, face@) is None,
                    },
                    data@.len() == 3 * (w * y + x),
                    forall|k: int|
                        0 <= k < 3 * (w * y + x) ==> data@[k] == face_byte(self@, face@, k),
                decreases w - x,
            {
                let ghost before = data@;
                let ghost p = w * y + x;
                proof {
                    assert(p / (w as int) == y && p % (w as int) == x) by (nonlinear_arith)
                        requires
                            p == w * y + x,
                            0 <= x < w,
                            0 <= y,
                    ;
                    assert((3 * p) / 3 == p && (3 * p + 1) / 3 == p && (3 * p + 2) / 3 == p);
                    assert((3 * p) % 3 == 0 && (3 * p + 1) % 3 == 1 && (3 * p + 2) % 3 == 2);
                }
                match cell {
                    Some(c) => {
                        let row = c / cols;
                        let col = c % cols;
                        let total = self.file_data.len();
                        proof {
                            let cc = c as int;
                            let rows = grid.0 as int;
                            let cl = cols as int;
                            let hh = h as int;
                            let ww = w as int;
                            let fw = full_width as int;
                            let fh = full_height as int;
                            let yy = y as int;
                            let xx = x as int;
                            let r = cc / cl;
                            let q = cc % cl;
                            assert(0 <= r < rows && 0 <= q < cl) by (nonlinear_arith)
                                requires
                                    0 <= cc < rows * cl,
                                    cl > 0,
                                    r == cc / cl,
                                    q == cc % cl,
                            ;
                            assert(0 <= r * hh && r * hh + yy < fh) by (nonlinear_arith)
                                requires
                                    0 <= r < rows,
                                    0 <= yy < hh,
                                    hh * rows <= fh,
                            ;
                            assert(0 <= q * ww && q * ww + xx < fw) by (nonlinear_arith)
                                requires
                                    0 <= q < cl,
                                    0 <= xx < ww,
                                    ww * cl <= fw,
                            ;
                            let line = r * hh + yy;
                            let column = q * ww + xx;
                            assert(0 <= line * fw && line * fw + column < fw * fh && 3 * (line * fw
                                + column) + 2 < 3 * fw * fh) by (nonlinear_arith)
                                requires
                                    0 <= line < fh,
                                    0 <= column < fw,
                            ;
                            assert(row * h == r * hh);
                            assert(col * w == q * ww);
                            assert(3 * (fw * fh) == 3 * fw * fh) by (nonlinear_arith);
                            assert(self.file_data@.len() == 3 * fw * fh);
                            assert((row * h + y) * big == line * fw);
                            assert(3 * (line * fw + column) + 2 < total);
                            assert(line * fw <= usize::MAX);
                            assert((row * h + y) * big + (col * w + x) == line * fw + column);
                        }
                        let key = 3 * ((row * h + y) * big + (col * w + x));
                        data.push(self.file_data[key]);
                        data.push(self.file_data[key + 1]);
                        data.push(self.file_data[key + 2]);
                    },
                    None => {
                        data.push(self.rgb1.0);
                        data.push(self.rgb1.1);
                        data.push(self.rgb1.2);
                    },
                }
                proof {
                    assert forall|k: int| 0 <= k < 3 * (p + 1) implies data@[k] == face_byte(
                        self@,
                        face@,
                        k,
                    ) by {
                        if k < 3 * p {
                            assert(data@[k] == before[k]);
                        }
                    }
                }
                x += 1;
            }
            proof {
                assert(3 * (w * y + w) == 3 * w * (y + 1)) by (nonlinear_arith);
            }
            y += 1;
        }
        proof {
            assert(3 * w * h == 3 * cell_width(self@) * cell_height(self@)) by (nonlinear_arith)
                requires
                    w == cell_width(self@),
                    h == cell_height(self@),
            ;
            assert(data@ =~= face_image(self@, face@));
        }
        (width, height, data)
    }
}

/// The letters of the faces of a cube in the order in which a cube texture
/// is handed over: left, right, down, up, front, back.
pub open spec fn face_order() -> Seq<Seq<char>> {
    seq!["L"@, "R"@, "D"@, "U"@, "F"@, "B"@]
}

impl Texture {
    /// The images of the six faces of a cube texture, in the order of
    /// [`face_order`]: for each the width and the height of a cell and the
    /// pixels of the face.
    pub fn get_cube_faces(&self) -> (r: Vec<(u32, u32, Vec<u8>)>)
        requires
            forall|k: int| 0 <= k < 6 ==> face_ready(self@, #[trigger] face_order()[k]),
        ensures
            r@.len() == 6,
            forall|k: int|
                0 <= k < 6 ==> (#[trigger] r@[k]).0 == cell_width(self@) && r@[k].1 == cell_height(
                    self@,
                ) && r@[k].2@ == face_image(self@, face_order()[k]),
    {
        let mut r: Vec<(u32, u32, Vec<u8>)> = Vec::new();
        proof {
            assert(face_order()[0] == "L"@ && face_order()[1] == "R"@ && face_order()[2] == "D"@);
            assert(face_order()[3] == "U"@ && face_order()[4] == "F"@ && face_order()[5] == "B"@);
        }
        r.push(self.get_cube_face_raw_image_data("L".to_owned()));
        r.push(self.get_cube_face_raw_image_data("R".to_owned()));
        r.push(self.get_cube_face_raw_image_data("D".to_owned()));
        r.push(self.get_cube_face_raw_image_data("U".to_owned()));
        r.push(self.get_cube_face_raw_image_data("F".to_owned()));
        r.push(self.get_cube_face_raw_image_data("B".to_owned()));
        r
    }
}

} // verus!
