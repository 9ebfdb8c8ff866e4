//! The registry of assets: finding meshes and materials by name, binding
//! textures to materials, and taking in the files that assets refer to.

use vstd::prelude::*;
use crate::attrs::{Attrs, AttrMap, has_key, value_of};
use crate::error::ModelError;
use crate::node::{
    Node, NodeView, AssetsManager, Mesh, Texture, Material, MeshType, lemma_views_of,
    lemma_node_view,
};
use crate::rules::name_of;
use crate::scalar::{as_bits, scalars_of_bits, all_numbers, lemma_bits_are_numbers};
use crate::schema::{NodeKind, digits_value, lemma_digits_value_grows};
use crate::text::{
    same_text, all_digits, is_digit, chars_of, split, texts, tokens_of, Separator, sign_len,
};

verus! {

/// The last of the first `k` assets that has a kind and a name.
pub open spec fn last_named(assets: Seq<NodeView>, kind: NodeKind, name: Seq<char>, k: nat) -> Option<
    int,
>
    decreases k,
{
    if k == 0 || k > assets.len() {
        None
    } else if assets[k - 1].kind == kind && name_of(assets[k - 1]) == name {
        Some(k - 1)
    } else {
        last_named(assets, kind, name, (k - 1) as nat)
    }
}

/// The asset of a kind that a name refers to: the last one with that name.
pub open spec fn named(assets: Seq<NodeView>, kind: NodeKind, name: Seq<char>) -> Option<int> {
    last_named(assets, kind, name, assets.len())
}

/// What a name refers to is an asset of its kind with that name.
pub proof fn lemma_last_named(assets: Seq<NodeView>, kind: NodeKind, name: Seq<char>, k: nat)
    requires
        k <= assets.len(),
    ensures
        match last_named(assets, kind, name, k) {
            Some(i) => 0 <= i < k && assets[i].kind == kind && name_of(assets[i]) == name,
            None => true,
        },
    decreases k,
{
    if k > 0 {
        lemma_last_named(assets, kind, name, (k - 1) as nat);
    }
}

/// An asset after textures were bound: a material that has no texture yet,
/// and that is the one its name refers to, gets the texture of the same name.
pub open spec fn bound_asset(assets: Seq<NodeView>, i: int) -> NodeView {
    let c = assets[i];
    if c.kind == NodeKind::Material && c.texture is None && named(
        assets,
        NodeKind::Material,
        name_of(c),
    ) == Some(i) && named(assets, NodeKind::Texture, name_of(c)) is Some {
        NodeView { texture: Some(named(assets, NodeKind::Texture, name_of(c))->0 as usize), ..c }
    } else {
        c
    }
}

/// The assets after textures were bound to materials.
pub open spec fn bound(assets: Seq<NodeView>) -> Seq<NodeView> {
    Seq::new(assets.len(), |i: int| bound_asset(assets, i))
}

/// Binding textures changes neither the kind nor the name of an asset, so
/// names refer to the same assets afterwards.
pub proof fn lemma_bound_names(assets: Seq<NodeView>, kind: NodeKind, name: Seq<char>, k: nat)
    requires
        k <= assets.len(),
    ensures
        last_named(bound(assets), kind, name, k) == last_named(assets, kind, name, k),
    decreases k,
{
    if k > 0 {
        lemma_bound_names(assets, kind, name, (k - 1) as nat);
        assert(bound(assets)[k - 1] == bound_asset(assets, k - 1));
    }
}

/// Binding textures a second time changes nothing.
pub proof fn lemma_bound_twice(assets: Seq<NodeView>)
    ensures
        bound(bound(assets)) == bound(assets),
{
    let once = bound(assets);
    assert forall|i: int| 0 <= i < assets.len() implies bound_asset(once, i) == once[i] by {
        let c = assets[i];
        assert(once[i] == bound_asset(assets, i));
        lemma_bound_names(assets, NodeKind::Material, name_of(c), assets.len());
        lemma_bound_names(assets, NodeKind::Texture, name_of(c), assets.len());
    }
    assert(bound(once) =~= once);
}

/// The file that an asset is read from, where it is read from one: the
/// `file` of a texture, set or not, and that of a mesh kept in a file.
pub open spec fn file_of(asset: NodeView) -> Option<Seq<char>> {
    let file = if has_key(asset.attrs, "file"@) {
        value_of(asset.attrs, "file"@)
    } else {
        Seq::empty()
    };
    if asset.kind == NodeKind::Texture || (asset.kind == NodeKind::Mesh && asset.contents
        == MeshType::ObjFile) {
        Some(file)
    } else {
        None
    }
}

/// The files of the first `k` assets, each once, in the order of the assets.
pub open spec fn files_of(assets: Seq<NodeView>, k: nat) -> Seq<Seq<char>>
    decreases k,
{
    if k == 0 || k > assets.len() {
        Seq::empty()
    } else {
        let before = files_of(assets, (k - 1) as nat);
        match file_of(assets[k - 1]) {
            Some(f) => if before.contains(f) {
                before
            } else {
                before.push(f)
            },
            None => before,
        }
    }
}

/// No file of the assets is listed twice.
pub proof fn lemma_files_once(assets: Seq<NodeView>, k: nat)
    requires
        k <= assets.len(),
    ensures
        forall|i: int, j: int|
            0 <= i < j < files_of(assets, k).len() ==> files_of(assets, k)[i] != files_of(
                assets,
                k,
            )[j],
    decreases k,
{
    if k > 0 {
        lemma_files_once(assets, (k - 1) as nat);
        let before = files_of(assets, (k - 1) as nat);
        let now = files_of(assets, k);
        assert forall|i: int, j: int| 0 <= i < j < now.len() implies now[i] != now[j] by {
            if j < before.len() {
                assert(now[i] == before[i] && now[j] == before[j]);
            } else {
                assert(now[i] == before[i]);
                assert(before.contains(before[i]));
            }
        }
    }
}

/// The polygon data of one object of a polygon file: the coordinates of its
/// points as bit patterns of single-precision values, and the corners of its
/// triangles as indices of points.
#[derive(Debug)]
pub struct ObjModel {
    pub positions: Vec<u32>,
    pub indices: Vec<u32>,
}

/// What a list of objects holds.
pub open spec fn model_views(models: Seq<ObjModel>) -> Seq<(Seq<u32>, Seq<u32>)> {
    Seq::new(models.len(), |i: int| (models[i].positions@, models[i].indices@))
}

/// The objects that the polygon file reader finds in a text, with faces cut
/// into triangles and without lines and points; `None` where it rejects the
/// text.
pub uninterp spec fn obj_models(text: Seq<char>) -> Option<Seq<(Seq<u32>, Seq<u32>)>>;

/// Whether every index of a list names a point of the coordinates.
pub open spec fn indices_fit(positions: Seq<u32>, indices: Seq<u32>) -> bool {
    forall|i: int| 0 <= i < indices.len() ==> 3 * (#[trigger] indices[i]) + 2 < positions.len()
}

/// The digits of a part of a corner of a face: the part without its sign.
pub open spec fn part_digits(part: Seq<char>) -> Seq<char> {
    part.skip(sign_len(part, 0))
}

/// Whether a part of a corner of a face is one that the library hands to the
/// reader, where `count` texture coordinates, or normals, stand before the
/// face: nothing; or an index of up to 9 digits with or without a sign,
/// which, where it counts back from the end, does not reach before the
/// first of the `count`.
pub open spec fn part_safe(part: Seq<char>, count: nat) -> bool {
    part.len() == 0 || {
        &&& 1 <= part_digits(part).len() <= 9
        &&& all_digits(part_digits(part))
        &&& part[0] == '-' ==> digits_value(part_digits(part), part_digits(part).len() as int)
            <= count
    }
}

/// Whether a corner of a face is one that the library hands to the reader:
/// its second part, the index of a texture coordinate, and its third, the
/// index of a normal, are.
pub open spec fn word_safe(word: Seq<char>, textures: nat, normals: nat) -> bool {
    let parts = tokens_of(Separator::Slash, word);
    &&& parts.len() > 1 ==> part_safe(parts[1], textures)
    &&& parts.len() > 2 ==> part_safe(parts[2], normals)
}

/// Whether a line starts with a word.
pub open spec fn starts_with(line: Seq<char>, word: Seq<char>) -> bool {
    tokens_of(Separator::Blank, line).len() > 0 && tokens_of(Separator::Blank, line)[0] == word
}

/// Whether a line is a face or a line element: both hold corners.
pub open spec fn is_face(line: Seq<char>) -> bool {
    starts_with(line, "f"@) || starts_with(line, "l"@)
}

/// Whether a line of a polygon file is one that the library hands to the
/// reader: if it holds corners, each of them is.
pub open spec fn line_safe(line: Seq<char>, textures: nat, normals: nat) -> bool {
    is_face(line) ==> forall|i: int|
        1 <= i < tokens_of(Separator::Blank, line).len() ==> word_safe(
            #[trigger] tokens_of(Separator::Blank, line)[i],
            textures,
            normals,
        )
}

/// The number of lines among the first `k` that start with a word.
pub open spec fn count_before(lines: Seq<Seq<char>>, k: nat, word: Seq<char>) -> nat
    decreases k,
{
    if k == 0 || k > lines.len() {
        0
    } else {
        count_before(lines, (k - 1) as nat, word) + if starts_with(lines[k - 1], word) {
            1nat
        } else {
            0nat
        }
    }
}

/// Whether a polygon file is one that the library hands to the reader: in
/// every face, the indices of texture coordinates and of normals have up to
/// 9 digits, and one that counts back from the end does not reach before
/// the first texture coordinate, or normal, that stands before the face. On
/// other texts the reader multiplies an index that it has not tested.
pub open spec fn faces_safe(text: Seq<char>) -> bool {
    forall|i: int|
        0 <= i < tokens_of(Separator::Line, text).len() ==> line_safe(
            #[trigger] tokens_of(Separator::Line, text)[i],
            count_before(tokens_of(Separator::Line, text), i as nat, "vt"@),
            count_before(tokens_of(Separator::Line, text), i as nat, "vn"@),
        )
}

/// What the library reads from a polygon file: what the reader finds in it,
/// and nothing where the file is not one that the library hands to it.
pub open spec fn obj_read(text: Seq<char>) -> Option<Seq<(Seq<u32>, Seq<u32>)>> {
    if faces_safe(text) {
        obj_models(text)
    } else {
        None
    }
}

/// Decides whether a part of a corner is one to hand to the reader.
#[verifier::loop_isolation(false)]
pub fn part_is_safe(part: &str, count: usize) -> (r: bool)
    ensures
        r == part_safe(part@, count as nat),
{
    let chars = chars_of(part);
    let n = chars.len();
    if n == 0 {
        return true;
    }
    let from: usize = if chars[0] == '+' || chars[0] == '-' {
        1
    } else {
        0
    };
    let ghost digits = part_digits(part@);
    assert(digits.len() == n - from);
    if n - from < 1 || n - from > 9 {
        return false;
    }
    let mut i: usize = from;
    while i < n
        invariant
            from <= i <= n,
            n == chars.len(),
            chars@ == part@,
            digits == part@.skip(from as int),
            forall|j: int| 0 <= j < i - from ==> is_digit(#[trigger] digits[j]),
        decreases n - i,
    {
        assert(digits[i - from] == chars@[i as int]);
        if !('0' <= chars[i] && chars[i] <= '9') {
            assert(!is_digit(digits[i - from]));
            return false;
        }
        i += 1;
    }
    assert(all_digits(digits));
    if chars[0] != '-' {
        return true;
    }
    let mut acc: u128 = 0;
    let mut i: usize = from;
    while i < n
        invariant
            from <= i <= n,
            n == chars.len(),
            chars@ == part@,
            digits == part@.skip(from as int),
            digits.len() == n - from,
            all_digits(digits),
            acc == digits_value(digits, i - from),
            acc <= count,
        decreases n - i,
    {
        let c = chars[i];
        assert(digits[i - from] == c);
        assert(is_digit(digits[i - from]));
        let d: u128 = (c as u32 - '0' as u32) as u128;
        assert(digits_value(digits, i - from + 1) == digits_value(digits, i - from) * 10 + d);
        acc = acc * 10 + d;
        if acc > count as u128 {
            proof {
                lemma_digits_value_grows(digits, i - from + 1, digits.len() as int);
            }
            return false;
        }
        i += 1;
    }
    true
}

/// Decides whether a corner of a face is one to hand to the reader.
pub fn word_is_safe(word: &str, textures: usize, normals: usize) -> (r: bool)
    ensures
        r == word_safe(word@, textures as nat, normals as nat),
{
    let parts = split(Separator::Slash, word);
    let ghost all = tokens_of(Separator::Slash, word@);
    assert(all.len() == parts.len());
    if parts.len() > 1 {
        assert(all[1] == parts[1]@);
        if !part_is_safe(parts[1].as_str(), textures) {
            return false;
        }
    }
    if parts.len() > 2 {
        assert(all[2] == parts[2]@);
        if !part_is_safe(parts[2].as_str(), normals) {
            return false;
        }
    }
    true
}

/// Decides whether a line starts with a word.
pub fn line_starts_with(line: &str, word: &str) -> (r: bool)
    ensures
        r == starts_with(line@, word@),
{
    let words = split(Separator::Blank, line);
    let ghost all = tokens_of(Separator::Blank, line@);
    assert(all.len() == words.len());
    if words.len() == 0 {
        return false;
    }
    assert(all[0] == words[0]@);
    same_text(words[0].as_str(), word)
}

/// Decides whether a line of a polygon file is one to hand to the reader.
pub fn line_is_safe(line: &str, textures: usize, normals: usize) -> (r: bool)
    ensures
        r == line_safe(line@, textures as nat, normals as nat),
{
    let words = split(Separator::Blank, line);
    let ghost all = tokens_of(Separator::Blank, line@);
    assert(all.len() == words.len());
    if words.len() == 0 {
        return true;
    }
    assert(all[0] == words[0]@);
    if !(same_text(words[0].as_str(), "f") || same_text(words[0].as_str(), "l")) {
        return true;
    }
    let mut i: usize = 1;
    while i < words.len()
        invariant
            1 <= i,
            all == tokens_of(Separator::Blank, line@),
            texts(words@) == all,
            is_face(line@),
            forall|j: int|
                1 <= j < i && j < all.len() ==> word_safe(
                    #[trigger] all[j],
                    textures as nat,
                    normals as nat,
                ),
        decreases words.len() - i,
    {
        assert(all[i as int] == words[i as int]@);
        if !word_is_safe(words[i].as_str(), textures, normals) {
            return false;
        }
        i += 1;
    }
    assert(all.len() == words.len());
    true
}

/// Decides whether a polygon file is one to hand to the reader.
pub fn faces_are_safe(text: &str) -> (r: bool)
    ensures
        r == faces_safe(text@),
{
    let lines = split(Separator::Line, text);
    let ghost all = tokens_of(Separator::Line, text@);
    let mut textures: usize = 0;
    let mut normals: usize = 0;
    let mut i: usize = 0;
    while i < lines.len()
        invariant
            i <= lines.len(),
            all == tokens_of(Separator::Line, text@),
            texts(lines@) == all,
            textures == count_before(all, i as nat, "vt"@),
            normals == count_before(all, i as nat, "vn"@),
            textures <= i,
            normals <= i,
            forall|j: int|
                0 <= j < i && j < all.len() ==> line_safe(
                    #[trigger] all[j],
                    count_before(all, j as nat, "vt"@),
                    count_before(all, j as nat, "vn"@),
                ),
        decreases lines.len() - i,
    {
        assert(all.len() == lines.len());
        assert(all[i as int] == lines[i as int]@);
        if !line_is_safe(lines[i].as_str(), textures, normals) {
            return false;
        }
        if line_starts_with(lines[i].as_str(), "vt") {
            textures += 1;
        }
        if line_starts_with(lines[i].as_str(), "vn") {
            normals += 1;
        }
        i += 1;
    }
    assert(all.len() == lines.len());
    true
}

/// Calls `tobj::load_obj_buf` on a text held in memory, with faces cut into
/// triangles, lines and points left out, and no material library. The text
/// is one whose faces give texture coordinates and normals by indices of up
/// to 9 digits that do not count back beyond the first: on others the
/// reader multiplies an index that it has not tested. Its contract names
/// the result and claims what the source of the reader shows of every
/// object: an index is given to a point when the point's three coordinates
/// are stored, so each index names a stored point.
#[verifier::external_body]
fn read_obj(raw_obj: &str) -> (r: Option<Vec<ObjModel>>)
    requires
        faces_safe(raw_obj@),
    ensures
        match r {
            Some(models) => obj_models(raw_obj@) == Some(model_views(models@)),
            None => obj_models(raw_obj@) is None,
        },
        r is Some ==> forall|m: int|
            0 <= m < r->0.len() ==> indices_fit(
                (#[trigger] r->0[m]).positions@,
                r->0[m].indices@,
            ),
{
    let mut options = tobj::LoadOptions::default();
    options.triangulate = true;
    options.ignore_lines = true;
    options.ignore_points = true;
    let mut text = std::io::Cursor::new(raw_obj);
    let none = |_p: &std::path::Path| Ok((Vec::new(), ahash::AHashMap::new()));
    let models = tobj::load_obj_buf(&mut text, &options, none).ok()?.0;
    let words = |m: tobj::Model| ObjModel {
        positions: m.mesh.positions.iter().map(|p| p.to_bits()).collect(),
        indices: m.mesh.indices,
    };
    Some(models.into_iter().map(words).collect())
}

/// The coordinates of the first `k` objects, one object after the other.
pub open spec fn all_positions(models: Seq<(Seq<u32>, Seq<u32>)>, k: nat) -> Seq<u32>
    decreases k,
{
    if k == 0 || k > models.len() {
        Seq::empty()
    } else {
        all_positions(models, (k - 1) as nat) + models[k - 1].0
    }
}

/// The indices of the first `k` objects, one object after the other, each
/// as its object has it.
pub open spec fn all_indices(models: Seq<(Seq<u32>, Seq<u32>)>, k: nat) -> Seq<u32>
    decreases k,
{
    if k == 0 || k > models.len() {
        Seq::empty()
    } else {
        all_indices(models, (k - 1) as nat) + models[k - 1].1
    }
}

/// A mesh after the objects of a polygon file were installed in it.
pub open spec fn installed(mesh: NodeView, models: Seq<(Seq<u32>, Seq<u32>)>) -> NodeView {
    NodeView {
        contents: MeshType::ObjFile,
        vertices: as_bits(all_positions(models, models.len())),
        indices: all_indices(models, models.len()),
        ..mesh
    }
}

/// Whether every index of a mesh names one of its points.
pub open spec fn mesh_indices_fit(mesh: NodeView) -> bool {
    forall|i: int|
        0 <= i < mesh.indices.len() ==> 3 * (#[trigger] mesh.indices[i]) + 2 < mesh.vertices.len()
}

/// Whether every index of every mesh among the assets names one of the
/// points of its mesh.
pub open spec fn meshes_fit(assets: Seq<NodeView>) -> bool {
    forall|i: int|
        0 <= i < assets.len() && (#[trigger] assets[i]).kind == NodeKind::Mesh ==> mesh_indices_fit(
            assets[i],
        )
}

impl Mesh {
    /// Installs the objects of a polygon file: the mesh is then one that is
    /// kept in a file, with the coordinates and the indices of all objects,
    /// one object after the other.
    pub fn install(&mut self, models: &Vec<ObjModel>)
        ensures
            final(self)@ == installed(old(self)@, model_views(models@)),
            all_numbers(final(self)@.vertices),
            (forall|m: int|
                0 <= m < models.len() ==> indices_fit(
                    (#[trigger] models[m]).positions@,
                    models[m].indices@,
                )) ==> mesh_indices_fit(final(self)@),
    {
        let ghost mv = model_views(models@);
        let mut positions: Vec<u32> = Vec::new();
        let mut indices: Vec<u32> = Vec::new();
        let mut k: usize = 0;
        while k < models.len()
            invariant
                k <= models.len(),
                mv == model_views(models@),
                positions@ == all_positions(mv, k as nat),
                indices@ == all_indices(mv, k as nat),
                (forall|m: int|
                    0 <= m < models.len() ==> indices_fit(
                        (#[trigger] models[m]).positions@,
                        models[m].indices@,
                    )) ==> indices_fit(positions@, indices@),
            decreases models.len() - k,
        {
            assert(mv[k as int] == (models[k as int].positions@, models[k as int].indices@));
            let ghost points_before = positions@;
            let ghost indices_before = indices@;
            let mut j: usize = 0;
            while j < models[k].positions.len()
                invariant
                    k < models.len(),
                    j <= models[k as int].positions.len(),
                    positions@ == points_before + models[k as int].positions@.take(j as int),
                decreases models[k as int].positions.len() - j,
            {
                let ghost before = positions@;
                positions.push(models[k].positions[j]);
                assert(positions@ =~= points_before + models[k as int].positions@.take(j + 1));
                j += 1;
            }
            assert(models[k as int].positions@.take(j as int) =~= models[k as int].positions@);
            let mut j: usize = 0;
            while j < models[k].indices.len()
                invariant
                    k < models.len(),
                    j <= models[k as int].indices.len(),
                    indices@ == indices_before + models[k as int].indices@.take(j as int),
                decreases models[k as int].indices.len() - j,
            {
                indices.push(models[k].indices[j]);
                assert(indices@ =~= indices_before + models[k as int].indices@.take(j + 1));
                j += 1;
            }
            assert(models[k as int].indices@.take(j as int) =~= models[k as int].indices@);
            proof {
                if forall|m: int|
                    0 <= m < models.len() ==> indices_fit(
                        (#[trigger] models[m]).positions@,
                        models[m].indices@,
                    ) {
                    assert(indices_fit(models[k as int].positions@, models[k as int].indices@));
                    assert forall|i: int| 0 <= i < indices@.len() implies 3 * (
                    #[trigger] indices@[i]) + 2 < positions@.len() by {
                        if i < indices_before.len() {
                            assert(indices@[i] == indices_before[i]);
                        } else {
                            assert(indices@[i] == models[k as int].indices@[i - indices_before.len()]);
                        }
                    }
                }
            }
            k += 1;
        }
        self.mesh_contents_type = MeshType::ObjFile;
        self.vertices = scalars_of_bits(&positions);
        self.indices = indices;
        proof {
            assert(as_bits(positions@).len() == positions@.len());
            lemma_bits_are_numbers(positions@);
        }
    }

    /// Reads a polygon file and installs what it holds: see [`installed`] and
    /// [`obj_read`]. Where the file is not one that the library hands to the
    /// reader, or the reader rejects it, the mesh stays as it is.
    pub fn setup_with_obj_stream(&mut self, raw_obj: String) -> (r: Result<(), ModelError>)
        ensures
            match obj_read(raw_obj@) {
                Some(models) => r is Ok && final(self)@ == installed(old(self)@, models),
                None => r == Err::<(), ModelError>(ModelError::Parse) && final(self)@ == old(
                    self,
                )@,
            },
            r is Ok ==> mesh_indices_fit(final(self)@) && all_numbers(final(self)@.vertices),
    {
        if !faces_are_safe(raw_obj.as_str()) {
            return Err(ModelError::Parse);
        }
        match read_obj(raw_obj.as_str()) {
            Some(models) => {
                self.install(&models);
                Ok(())
            },
            None => Err(ModelError::Parse),
        }
    }

    /// The file that the mesh is read from, which is empty where none was set.
    pub fn get_file(&self) -> (r: String)
        ensures
            r@ == if has_key(self@.attrs, "file"@) {
                value_of(self@.attrs, "file"@)
            } else {
                Seq::empty()
            },
    {
        match self.attrs_map.get("file") {
            Some(f) => f.clone(),
            None => String::new(),
        }
    }
}

/// Two lists whose assets have the same kinds and names, one for one, are
/// referred to alike.
pub proof fn lemma_same_names(
    a: Seq<NodeView>,
    b: Seq<NodeView>,
    kind: NodeKind,
    name: Seq<char>,
    k: nat,
)
    requires
        a.len() == b.len(),
        k <= a.len(),
        forall|i: int|
            0 <= i < a.len() ==> (#[trigger] a[i]).kind == b[i].kind && name_of(a[i]) == name_of(
                b[i],
            ),
    ensures
        last_named(a, kind, name, k) == last_named(b, kind, name, k),
    decreases k,
{
    if k > 0 {
        lemma_same_names(a, b, kind, name, (k - 1) as nat);
    }
}

/// The sizes of images by file: pairs of a file and a width with a height.
pub type Sizes = Seq<(Seq<char>, (u32, u32))>;

/// The views of a list of owned pairs of a file and a size.
pub open spec fn size_views(v: Seq<(String, (u32, u32))>) -> Sizes {
    Seq::new(v.len(), |i: int| (v[i].0@, v[i].1))
}

/// The first index at or after `from` whose pair has the file, or the length.
pub open spec fn size_at(sizes: Sizes, file: Seq<char>, from: int) -> int
    decreases sizes.len() - from,
{
    if from < 0 || from >= sizes.len() {
        sizes.len() as int
    } else if sizes[from].0 == file {
        from
    } else {
        size_at(sizes, file, from + 1)
    }
}

/// An asset after the sizes of images came in: a texture whose file is
/// among them has the size given for it.
pub open spec fn sized(asset: NodeView, sizes: Sizes) -> NodeView {
    if asset.kind == NodeKind::Texture && size_at(sizes, file_of(asset)->0, 0) < sizes.len() {
        NodeView { dimensions: sizes[size_at(sizes, file_of(asset)->0, 0)].1, ..asset }
    } else {
        asset
    }
}

/// The bytes of files by file: pairs of a file and what it holds.
pub type Bytes = Seq<(Seq<char>, Seq<u8>)>;

/// The views of a list of owned pairs of a file and its bytes.
pub open spec fn byte_views(v: Seq<(String, Vec<u8>)>) -> Bytes {
    Seq::new(v.len(), |i: int| (v[i].0@, v[i].1@))
}

/// The first index at or after `from` whose pair has the file, or the length.
pub open spec fn bytes_at(files: Bytes, file: Seq<char>, from: int) -> int
    decreases files.len() - from,
{
    if from < 0 || from >= files.len() {
        files.len() as int
    } else if files[from].0 == file {
        from
    } else {
        bytes_at(files, file, from + 1)
    }
}

/// An asset after the bytes of images came in: a texture whose file is among
/// them has the bytes given for it as its image.
pub open spec fn filled(asset: NodeView, files: Bytes) -> NodeView {
    if asset.kind == NodeKind::Texture && bytes_at(files, file_of(asset)->0, 0) < files.len() {
        NodeView { file_data: files[bytes_at(files, file_of(asset)->0, 0)].1, ..asset }
    } else {
        asset
    }
}

/// An asset after the texts of polygon files came in: a mesh kept in a file
/// whose file is among them has what the reader finds in the text.
pub open spec fn loaded(asset: NodeView, files: Attrs) -> Result<NodeView, ModelError> {
    if asset.kind == NodeKind::Mesh && asset.contents == MeshType::ObjFile && has_key(
        files,
        file_of(asset)->0,
    ) {
        match obj_read(value_of(files, file_of(asset)->0)) {
            Some(models) => Ok(installed(asset, models)),
            None => Err(ModelError::Parse),
        }
    } else {
        Ok(asset)
    }
}

/// The assets after the texts of polygon files came in for the first `k` of
/// them, or the first error met.
pub open spec fn loaded_first(assets: Seq<NodeView>, files: Attrs, k: nat) -> Result<
    Seq<NodeView>,
    ModelError,
>
    decreases k,
{
    if k == 0 || k > assets.len() {
        Ok(assets)
    } else {
        match loaded_first(assets, files, (k - 1) as nat) {
            Err(e) => Err(e),
            Ok(done) => match loaded(assets[k - 1], files) {
                Err(e) => Err(e),
                Ok(a) => Ok(done.update(k - 1, a)),
            },
        }
    }
}

/// The textures among the first `k` assets, in their order.
pub open spec fn textures_of(assets: Seq<NodeView>, k: nat) -> Seq<NodeView>
    decreases k,
{
    if k == 0 || k > assets.len() {
        Seq::empty()
    } else if assets[k - 1].kind == NodeKind::Texture {
        textures_of(assets, (k - 1) as nat).push(assets[k - 1])
    } else {
        textures_of(assets, (k - 1) as nat)
    }
}

/// The views of a list of textures.
pub open spec fn texture_views(v: Seq<Texture>) -> Seq<NodeView> {
    Seq::new(v.len(), |i: int| v[i]@)
}

/// Whether a list of texts holds a text.
pub fn holds(list: &Vec<String>, text: &str) -> (r: bool)
    ensures
        r == crate::text::texts(list@).contains(text@),
{
    let mut i: usize = 0;
    while i < list.len()
        invariant
            i <= list.len(),
            forall|j: int| 0 <= j < i ==> crate::text::texts(list@)[j] != text@,
        decreases list.len() - i,
    {
        assert(crate::text::texts(list@)[i as int] == list[i as int]@);
        if same_text(list[i].as_str(), text) {
            return true;
        }
        i += 1;
    }
    false
}

impl Texture {
    /// The file of the image, which is empty where none was set.
    pub fn get_file(&self) -> (r: String)
        ensures
            Some(r@) == file_of(self@),
    {
        match self.attrs_map.get("file") {
            Some(f) => f.clone(),
            None => String::new(),
        }
    }

    /// The file to read for this texture.
    pub fn to_load_file(&self) -> (r: String)
        ensures
            Some(r@) == file_of(self@),
    {
        self.get_file()
    }

    /// A texture that holds what this one holds.
    pub fn copy(&self) -> (r: Texture)
        ensures
            r@ == self@,
    {
        let mut data: Vec<u8> = Vec::new();
        let mut i: usize = 0;
        while i < self.file_data.len()
            invariant
                i <= self.file_data.len(),
                data@ == self.file_data@.take(i as int),
            decreases self.file_data.len() - i,
        {
            data.push(self.file_data[i]);
            assert(data@ =~= self.file_data@.take(i + 1));
            i += 1;
        }
        assert(data@ =~= self.file_data@);
        Texture {
            attrs_map: self.attrs_map.copy(),
            texture_image_dimensions: self.texture_image_dimensions,
            rgb1: self.rgb1,
            file_data: data,
        }
    }
}

impl Material {
    /// Binds a texture unless one is bound.
    pub fn add_texture(&mut self, texture: usize)
        ensures
            final(self)@ == (NodeView {
                texture: if old(self)@.texture is None {
                    Some(texture)
                } else {
                    old(self)@.texture
                },
                ..old(self)@
            }),
    {
        if self.texture.is_none() {
            self.texture = Some(texture);
        }
    }

    /// The file of the bound texture, if one is bound and stands where the
    /// binding says.
    pub fn to_load_file(&self, assets: &AssetsManager) -> (r: Option<String>)
        ensures
            match r {
                Some(f) => bound_texture(self@, assets@.children) is Some && Some(f@) == file_of(
                    bound_texture(self@, assets@.children)->0,
                ),
                None => bound_texture(self@, assets@.children) is None,
            },
    {
        match self.get_textures_data(assets) {
            Some(t) => Some(t.to_load_file()),
            None => None,
        }
    }

    /// The bound texture, if one is bound and stands where the binding says.
    pub fn get_textures_data(&self, assets: &AssetsManager) -> (r: Option<Texture>)
        ensures
            match r {
                Some(t) => bound_texture(self@, assets@.children) == Some(t@),
                None => bound_texture(self@, assets@.children) is None,
            },
    {
        proof {
            lemma_views_of(assets.children@);
        }
        match self.texture {
            Some(i) => if i < assets.children.len() {
                proof {
                    lemma_node_view(assets.children[i as int]);
                }
                match &assets.children[i] {
                    Node::Texture(t) => Some(t.copy()),
                    _ => None,
                }
            } else {
                None
            },
            None => None,
        }
    }
}

/// The texture that a material is bound to, where the binding names a
/// texture among the assets.
pub open spec fn bound_texture(material: NodeView, assets: Seq<NodeView>) -> Option<NodeView> {
    match material.texture {
        Some(i) => if i < assets.len() && assets[i as int].kind == NodeKind::Texture {
            Some(assets[i as int])
        } else {
            None
        },
        None => None,
    }
}

impl AssetsManager {
    /// The place of the asset of a kind that a name refers to.
    pub fn find(&self, kind: NodeKind, name: &str) -> (r: Option<usize>)
        ensures
            match r {
                Some(i) => named(self@.children, kind, name@) == Some(i as int) && i
                    < self.children@.len(),
                None => named(self@.children, kind, name@) is None,
            },
    {
        let mut found: Option<usize> = None;
        let mut i: usize = 0;
        proof {
            lemma_views_of(self.children@);
        }
        while i < self.children.len()
            invariant
                i <= self.children.len(),
                self@.children.len() == self.children@.len(),
                match found {
                    Some(j) => last_named(self@.children, kind, name@, i as nat) == Some(j as int)
                        && j < i,
                    None => last_named(self@.children, kind, name@, i as nat) is None,
                },
            decreases self.children.len() - i,
        {
            proof {
                lemma_views_of(self.children@);
            }
            let child_name = self.children[i].get_name();
            if self.children[i].kind() == kind && same_text(child_name.as_str(), name) {
                found = Some(i);
            }
            i += 1;
        }
        found
    }

    /// The place of the mesh that a name refers to.
    pub fn get_mesh(&self, name: String) -> (r: Option<usize>)
        ensures
            match r {
                Some(i) => named(self@.children, NodeKind::Mesh, name@) == Some(i as int) && i
                    < self.children@.len(),
                None => named(self@.children, NodeKind::Mesh, name@) is None,
            },
    {
        self.find(NodeKind::Mesh, name.as_str())
    }

    /// Binds to every material the texture of its name: see [`bound`].
    pub fn process_materials(&mut self)
        ensures
            final(self)@.children == bound(old(self)@.children),
    {
        let n = self.children.len();
        let ghost before = self@.children;
        proof {
            lemma_views_of(self.children@);
        }
        let mut plan: Vec<Option<usize>> = Vec::new();
        let mut i: usize = 0;
        while i < n
            invariant
                i <= n,
                n == self.children.len(),
                before == self@.children,
                before.len() == n,
                plan.len() == i,
                forall|j: int|
                    0 <= j < i ==> match #[trigger] plan[j] {
                        Some(t) => bound_asset(before, j) == (NodeView {
                            texture: Some(t),
                            ..before[j]
                        }) && before[j].kind == NodeKind::Material,
                        None => bound_asset(before, j) == before[j],
                    },
            decreases n - i,
        {
            proof {
                lemma_views_of(self.children@);
                lemma_node_view(self.children[i as int]);
            }
            let mut step: Option<usize> = None;
            match &self.children[i] {
                Node::Material(m) => {
                    if m.texture.is_none() {
                        let name = self.children[i].get_name();
                        match self.find(NodeKind::Material, name.as_str()) {
                            Some(last) => if last == i {
                                step = self.find(NodeKind::Texture, name.as_str());
                            },
                            None => {},
                        }
                    }
                },
                _ => {},
            }
            plan.push(step);
            i += 1;
        }
        let mut i: usize = 0;
        while i < n
            invariant
                i <= n,
                n == self.children.len(),
                before.len() == n,
                plan.len() == n,
                forall|j: int|
                    0 <= j < n ==> match #[trigger] plan[j] {
                        Some(t) => bound_asset(before, j) == (NodeView {
                            texture: Some(t),
                            ..before[j]
                        }) && before[j].kind == NodeKind::Material,
                        None => bound_asset(before, j) == before[j],
                    },
                forall|j: int| 0 <= j < i ==> (#[trigger] self.children[j])@ == bound_asset(before, j),
                forall|j: int| i <= j < n ==> (#[trigger] self.children[j])@ == before[j],
            decreases n - i,
        {
            proof {
                lemma_node_view(self.children[i as int]);
            }
            match plan[i] {
                Some(t) => match &mut self.children[i] {
                    Node::Material(m) => {
                        m.texture = Some(t);
                    },
                    _ => {},
                },
                None => {},
            }
            proof {
                lemma_node_view(self.children[i as int]);
            }
            i += 1;
        }
        proof {
            lemma_views_of(self.children@);
            assert(self@.children =~= bound(before));
        }
    }

    /// Binds textures to materials, then gives the place of the material that
    /// a name refers to.
    pub fn get_material(&mut self, name: String) -> (r: Option<usize>)
        ensures
            final(self)@.children == bound(old(self)@.children),
            match r {
                Some(i) => named(old(self)@.children, NodeKind::Material, name@) == Some(i as int)
                    && i < old(self).children@.len(),
                None => named(old(self)@.children, NodeKind::Material, name@) is None,
            },
    {
        proof {
            lemma_views_of(self.children@);
            lemma_bound_names(
                self@.children,
                NodeKind::Material,
                name@,
                self@.children.len(),
            );
        }
        self.process_materials();
        proof {
            lemma_views_of(self.children@);
        }
        self.find(NodeKind::Material, name.as_str())
    }

    /// The files to read for the assets, each once.
    pub fn to_load_files(&self) -> (files: Vec<String>)
        ensures
            crate::text::texts(files@) == files_of(self@.children, self@.children.len()),
            forall|i: int, j: int| 0 <= i < j < files@.len() ==> files@[i]@ != files@[j]@,
    {
        proof {
            lemma_files_once(self@.children, self@.children.len());
        }
        let mut files: Vec<String> = Vec::new();
        let mut i: usize = 0;
        proof {
            lemma_views_of(self.children@);
            assert(crate::text::texts(files@) =~= Seq::<Seq<char>>::empty());
        }
        while i < self.children.len()
            invariant
                i <= self.children.len(),
                self@.children.len() == self.children@.len(),
                crate::text::texts(files@) == files_of(self@.children, i as nat),
            decreases self.children.len() - i,
        {
            proof {
                lemma_views_of(self.children@);
                lemma_node_view(self.children[i as int]);
            }
            let file: Option<String> = match &self.children[i] {
                Node::Texture(t) => Some(t.get_file()),
                Node::Mesh(m) => match m.mesh_contents_type {
                    MeshType::ObjFile => Some(m.get_file()),
                    MeshType::Inline => None,
                },
                _ => None,
            };
            match file {
                Some(f) => {
                    if !holds(&files, f.as_str()) {
                        let ghost before = crate::text::texts(files@);
                        files.push(f);
                        assert(crate::text::texts(files@) =~= before.push(f@));
                    }
                },
                None => {},
            }
            i += 1;
        }
        proof {
            assert forall|i: int, j: int| 0 <= i < j < files@.len() implies files@[i]@
                != files@[j]@ by {
                assert(crate::text::texts(files@)[i] == files@[i]@);
                assert(crate::text::texts(files@)[j] == files@[j]@);
            }
        }
        files
    }

    /// Takes in the texts of polygon files, given as pairs of a file and its
    /// text: see [`loaded`]. Stops at the first text that the reader rejects.
    pub fn load_obj_meshes(&mut self, files: &AttrMap) -> (r: Result<(), ModelError>)
        ensures
            match loaded_first(old(self)@.children, files@, old(self)@.children.len()) {
                Ok(done) => r is Ok && final(self)@.children == done,
                Err(e) => r == Err::<(), ModelError>(e),
            },
            r is Ok && meshes_fit(old(self)@.children) ==> meshes_fit(final(self)@.children),
    {
        let n = self.children.len();
        let ghost before = self@.children;
        proof {
            lemma_views_of(self.children@);
        }
        let mut i: usize = 0;
        while i < n
            invariant
                i <= n,
                n == self.children.len(),
                before == old(self)@.children,
                before.len() == n,
                loaded_first(before, files@, i as nat) == Ok::<Seq<NodeView>, ModelError>(
                    self@.children,
                ),
                forall|j: int| i <= j < n ==> (#[trigger] self.children[j])@ == before[j],
                meshes_fit(before) ==> meshes_fit(self@.children),
            decreases n - i,
        {
            let ghost done = self@.children;
            proof {
                lemma_views_of(self.children@);
                lemma_node_view(self.children[i as int]);
            }
            let mut failed = false;
            match &mut self.children[i] {
                Node::Mesh(m) => {
                    match m.mesh_contents_type {
                        MeshType::ObjFile => {
                            let file = m.get_file();
                            match files.get(file.as_str()) {
                                Some(raw) => {
                                    match m.setup_with_obj_stream(raw.clone()) {
                                        Ok(()) => {},
                                        Err(_) => {
                                            failed = true;
                                        },
                                    }
                                },
                                None => {},
                            }
                        },
                        MeshType::Inline => {},
                    }
                },
                _ => {},
            }
            if failed {
                proof {
                    lemma_loaded_err(before, files@, (i + 1) as nat, n as nat);
                }
                return Err(ModelError::Parse);
            }
            proof {
                lemma_views_of(self.children@);
                lemma_node_view(self.children[i as int]);
                assert(self@.children =~= done.update(i as int, self.children[i as int]@));
                if meshes_fit(before) {
                    let now = self@.children;
                    assert(done[i as int] == before[i as int]);
                    assert forall|j: int|
                        0 <= j < now.len() && (#[trigger] now[j]).kind
                            == NodeKind::Mesh implies mesh_indices_fit(now[j]) by {
                        if j != i {
                            assert(now[j] == done[j]);
                        }
                    }
                }
            }
            i += 1;
        }
        Ok(())
    }

    /// Takes in the sizes of images, given as pairs of a file and its size:
    /// see [`sized`].
    pub fn load_dimensions(&mut self, files: &Vec<(String, (u32, u32))>)
        ensures
            final(self)@.children.len() == old(self)@.children.len(),
            forall|i: int|
                0 <= i < old(self)@.children.len() ==> #[trigger] final(self)@.children[i] == sized(
                    old(self)@.children[i],
                    size_views(files@),
                ),
    {
        let n = self.children.len();
        let ghost before = self@.children;
        proof {
            lemma_views_of(self.children@);
        }
        let mut i: usize = 0;
        while i < n
            invariant
                i <= n,
                n == self.children.len(),
                before.len() == n,
                forall|j: int|
                    0 <= j < i ==> (#[trigger] self.children[j])@ == sized(
                        before[j],
                        size_views(files@),
                    ),
                forall|j: int| i <= j < n ==> (#[trigger] self.children[j])@ == before[j],
            decreases n - i,
        {
            proof {
                lemma_node_view(self.children[i as int]);
            }
            match &mut self.children[i] {
                Node::Texture(t) => {
                    let file = t.get_file();
                    let mut k: usize = 0;
                    while k < files.len() && !same_text(files[k].0.as_str(), file.as_str())
                        invariant
                            k <= files.len(),
                            size_at(size_views(files@), file@, k as int) == size_at(
                                size_views(files@),
                                file@,
                                0,
                            ),
                        decreases files.len() - k,
                    {
                        assert(size_views(files@)[k as int].0 == files[k as int].0@);
                        k += 1;
                    }
                    if k < files.len() {
                        assert(size_views(files@)[k as int] == (files[k as int].0@, files[k as int].1));
                        t.texture_image_dimensions = files[k].1;
                    }
                },
                _ => {},
            }
            proof {
                lemma_node_view(self.children[i as int]);
            }
            i += 1;
        }
        proof {
            lemma_views_of(self.children@);
        }
    }

    /// Takes in the bytes of images, given as pairs of a file and its bytes:
    /// see [`filled`].
    pub fn load_files(&mut self, files: &Vec<(String, Vec<u8>)>)
        ensures
            final(self)@.children.len() == old(self)@.children.len(),
            forall|i: int|
                0 <= i < old(self)@.children.len() ==> #[trigger] final(self)@.children[i]
                    == filled(old(self)@.children[i], byte_views(files@)),
    {
        let n = self.children.len();
        let ghost before = self@.children;
        proof {
            lemma_views_of(self.children@);
        }
        let mut i: usize = 0;
        while i < n
            invariant
                i <= n,
                n == self.children.len(),
                before.len() == n,
                forall|j: int|
                    0 <= j < i ==> (#[trigger] self.children[j])@ == filled(
                        before[j],
                        byte_views(files@),
                    ),
                forall|j: int| i <= j < n ==> (#[trigger] self.children[j])@ == before[j],
            decreases n - i,
        {
            proof {
                lemma_node_view(self.children[i as int]);
            }
            match &mut self.children[i] {
                Node::Texture(t) => {
                    let file = t.get_file();
                    let mut k: usize = 0;
                    while k < files.len() && !same_text(files[k].0.as_str(), file.as_str())
                        invariant
                            k <= files.len(),
                            bytes_at(byte_views(files@), file@, k as int) == bytes_at(
                                byte_views(files@),
                                file@,
                                0,
                            ),
                        decreases files.len() - k,
                    {
                        assert(byte_views(files@)[k as int].0 == files[k as int].0@);
                        k += 1;
                    }
                    if k < files.len() {
                        assert(byte_views(files@)[k as int] == (files[k as int].0@, files[k as int].1@));
                        let src = &files[k].1;
                        let mut data: Vec<u8> = Vec::new();
                        let mut b: usize = 0;
                        while b < src.len()
                            invariant
                                b <= src.len(),
                                data@ == src@.take(b as int),
                            decreases src.len() - b,
                        {
                            data.push(src[b]);
                            assert(data@ =~= src@.take(b + 1));
                            b += 1;
                        }
                        assert(src@.take(src.len() as int) =~= src@);
                        t.file_data = data;
                    }
                },
                _ => {},
            }
            proof {
                lemma_node_view(self.children[i as int]);
            }
            i += 1;
        }
        proof {
            lemma_views_of(self.children@);
        }
    }

    /// The textures among the assets, in their order.
    pub fn get_textures_data(&self) -> (r: Vec<Texture>)
        ensures
            texture_views(r@) == textures_of(self@.children, self@.children.len()),
    {
        let mut textures: Vec<Texture> = Vec::new();
        let mut i: usize = 0;
        proof {
            lemma_views_of(self.children@);
            assert(texture_views(textures@) =~= Seq::<NodeView>::empty());
        }
        while i < self.children.len()
            invariant
                i <= self.children.len(),
                self@.children.len() == self.children@.len(),
                texture_views(textures@) == textures_of(self@.children, i as nat),
            decreases self.children.len() - i,
        {
            proof {
                lemma_views_of(self.children@);
                lemma_node_view(self.children[i as int]);
            }
            match &self.children[i] {
                Node::Texture(t) => {
                    let ghost before = texture_views(textures@);
                    let c = t.copy();
                    textures.push(c);
                    assert(texture_views(textures@) =~= before.push(c@));
                },
                _ => {},
            }
            i += 1;
        }
        textures
    }
}

/// An error met while taking in polygon files stays the result.
pub proof fn lemma_loaded_err(assets: Seq<NodeView>, files: Attrs, k: nat, n: nat)
    requires
        k <= n <= assets.len(),
        loaded_first(assets, files, k) is Err,
    ensures
        loaded_first(assets, files, n) == loaded_first(assets, files, k),
    decreases n - k,
{
    if k < n {
        lemma_loaded_err(assets, files, k, (n - 1) as nat);
    }
}

} // verus!
