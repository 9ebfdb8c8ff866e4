//! What setting an attribute and adding a child do to an element, stated over
//! [`NodeView`].

use vstd::prelude::*;
use crate::attrs::{Attrs, has_key, value_of, lookup, keeps, lemma_with_attr_keeps};
use crate::error::ModelError;
use crate::node::{NodeView, MeshType, TagAttrs};
use crate::schema::{NodeKind, ValueShape, key_shape, shape_ok, scalars_of, tag_of};

verus! {

/// What offering a key with a value to an element comes to: `Ok(true)` where
/// the value is taken, `Ok(false)` where the key has a value already or the
/// kind does not know it, and an error where the kind knows the key, the key
/// is free and the value has not the shape that the key needs.
pub open spec fn attr_outcome(kind: NodeKind, attrs: Attrs, key: Seq<char>, value: Seq<char>) -> Result<
    bool,
    ModelError,
> {
    if has_key(attrs, key) {
        Ok(false)
    } else {
        match key_shape(kind, key) {
            None => Ok(false),
            Some(shape) => if shape_ok(shape, value) {
                Ok(true)
            } else {
                Err(ModelError::AttributeValue)
            },
        }
    }
}

/// Whether a kind hands a key on to the children that it has.
pub open spec fn hands_down(kind: NodeKind, key: Seq<char>) -> bool {
    (kind == NodeKind::Body || kind == NodeKind::WorldBody) && key == "childclass"@
}

/// What a mesh keeps of an attribute besides the attribute itself.
pub open spec fn mesh_effect(v: NodeView, key: Seq<char>, value: Seq<char>) -> NodeView {
    if key == "name"@ {
        NodeView { name: value, ..v }
    } else if key == "file"@ {
        NodeView { contents: MeshType::ObjFile, ..v }
    } else if key == "vertex"@ {
        NodeView {
            contents: MeshType::Inline,
            vertices: v.vertices + scalars_of(ValueShape::Numerals, value),
            ..v
        }
    } else {
        v
    }
}

/// The element after a key was offered to it with a value. A body that takes
/// a `childclass` hands the value down to every child that it has: see
/// [`handed`].
pub open spec fn offered(v: NodeView, key: Seq<char>, value: Seq<char>) -> NodeView
    decreases v, 0nat,
{
    if attr_outcome(v.kind, v.attrs, key, value) != Ok::<bool, ModelError>(true) {
        v
    } else {
        let w = NodeView { attrs: v.attrs.push((key, value)), ..v };
        if hands_down(v.kind, key) {
            NodeView { children: handed_first(v.children, v.children.len(), value), ..w }
        } else if v.kind == NodeKind::Mesh {
            mesh_effect(w, key, value)
        } else {
            w
        }
    }
}

/// A child after the `childclass` of its parent reached it: the value is
/// offered to it as its `class`, then as its `childclass`, which a child
/// that is a body hands down in turn. It is what [`lemma_handed`] says:
/// `offered(offered(child, "class", value), "childclass", value)`.
pub open spec fn handed(c: NodeView, value: Seq<char>) -> NodeView
    decreases c, 1nat,
{
    let w = offered(c, "class"@, value);
    if attr_outcome(w.kind, w.attrs, "childclass"@, value) != Ok::<bool, ModelError>(true) {
        w
    } else {
        let x = NodeView { attrs: w.attrs.push(("childclass"@, value)), ..w };
        if hands_down(w.kind, "childclass"@) {
            NodeView { children: handed_first(c.children, c.children.len(), value), ..x }
        } else if w.kind == NodeKind::Mesh {
            mesh_effect(x, "childclass"@, value)
        } else {
            x
        }
    }
}

/// The first `k` elements of a list after the `childclass` of their parent
/// reached each.
pub open spec fn handed_first(s: Seq<NodeView>, k: nat, value: Seq<char>) -> Seq<NodeView>
    decreases s, k,
{
    if k == 0 || k > s.len() {
        Seq::empty()
    } else {
        handed_first(s, (k - 1) as nat, value).push(handed(s[k - 1], value))
    }
}

/// Handing a value down to the first `k` elements of a list hands it to each.
pub proof fn lemma_handed_first(s: Seq<NodeView>, k: nat, value: Seq<char>)
    requires
        k <= s.len(),
    ensures
        handed_first(s, k, value).len() == k,
        forall|i: int|
            0 <= i < k ==> (#[trigger] handed_first(s, k, value)[i]) == handed(s[i], value),
    decreases k,
{
    if k > 0 {
        lemma_handed_first(s, (k - 1) as nat, value);
    }
}

/// Offering a `class` changes neither the kind nor the children of an
/// element: only a `childclass` is handed down.
pub proof fn lemma_class_stays(c: NodeView, value: Seq<char>)
    ensures
        offered(c, "class"@, value).kind == c.kind,
        offered(c, "class"@, value).children == c.children,
{
    reveal_strlit("class");
    reveal_strlit("childclass");
    assert("class"@.len() == 5);
    assert("childclass"@.len() == 10);
}

/// A child that the `childclass` of its parent reached was offered the value
/// as its `class` and then as its `childclass`.
pub proof fn lemma_handed(c: NodeView, value: Seq<char>)
    ensures
        handed(c, value) == offered(offered(c, "class"@, value), "childclass"@, value),
{
    lemma_class_stays(c, value);
}

/// The element after a list of pairs was offered to it, one after the other,
/// or the first error met.
pub open spec fn offered_list(v: NodeView, pairs: Attrs, k: nat) -> Result<NodeView, ModelError>
    decreases k,
{
    if k == 0 || k > pairs.len() {
        Ok(v)
    } else {
        match offered_list(v, pairs, (k - 1) as nat) {
            Err(e) => Err(e),
            Ok(w) => match attr_outcome(w.kind, w.attrs, pairs[k - 1].0, pairs[k - 1].1) {
                Err(e) => Err(e),
                Ok(_) => Ok(offered(w, pairs[k - 1].0, pairs[k - 1].1)),
            },
        }
    }
}

/// The class of an element: what was set as `class`, or `main` where nothing
/// or the empty text was.
pub open spec fn class_of(v: NodeView) -> Seq<char> {
    if has_key(v.attrs, "class"@) && value_of(v.attrs, "class"@).len() > 0 {
        value_of(v.attrs, "class"@)
    } else {
        "main"@
    }
}

/// The first index of a text that holds `c`, or its length.
pub open spec fn index_of(s: Seq<char>, c: char, from: int) -> int
    decreases s.len() - from,
{
    if from < 0 || from >= s.len() {
        s.len() as int
    } else if s[from] == c {
        from
    } else {
        index_of(s, c, from + 1)
    }
}

/// A file name up to its first point.
pub open spec fn stem(file: Seq<char>) -> Seq<char> {
    file.take(index_of(file, '.', 0))
}

/// The name of an element. A mesh or a texture without a name goes by the
/// stem of its file.
pub open spec fn name_of(v: NodeView) -> Seq<char> {
    match v.kind {
        NodeKind::Defaults | NodeKind::Assets => Seq::empty(),
        NodeKind::Mesh => if has_key(v.attrs, "name"@) {
            v.name
        } else if has_key(v.attrs, "file"@) {
            stem(value_of(v.attrs, "file"@))
        } else {
            Seq::empty()
        },
        NodeKind::Texture => if has_key(v.attrs, "name"@) {
            value_of(v.attrs, "name"@)
        } else if has_key(v.attrs, "file"@) {
            stem(value_of(v.attrs, "file"@))
        } else {
            Seq::empty()
        },
        _ => if has_key(v.attrs, "name"@) {
            value_of(v.attrs, "name"@)
        } else {
            Seq::empty()
        },
    }
}

/// A child as a body gives it to itself: where the body has a `childclass`,
/// that value is offered to the child as its `class` and as its `childclass`.
pub open spec fn stamped(parent_attrs: Attrs, child: NodeView) -> NodeView {
    if has_key(parent_attrs, "childclass"@) {
        let cc = value_of(parent_attrs, "childclass"@);
        offered(offered(child, "class"@, cc), "childclass"@, cc)
    } else {
        child
    }
}

/// The first index at or after `from` whose pair has the tag, or the length.
pub open spec fn tag_at(tags: TagAttrs, tag: Seq<char>, from: int) -> int
    decreases tags.len() - from,
{
    if from < 0 || from >= tags.len() {
        tags.len() as int
    } else if tags[from].0 == tag {
        from
    } else {
        tag_at(tags, tag, from + 1)
    }
}

/// The record with `attrs` as what it holds for `tag`, in place of what it
/// held for it.
pub open spec fn with_tag(tags: TagAttrs, tag: Seq<char>, attrs: Attrs) -> TagAttrs {
    let i = tag_at(tags, tag, 0);
    if i < tags.len() {
        tags.update(i, (tag, attrs))
    } else {
        tags.push((tag, attrs))
    }
}

/// Whether a child given to a parent becomes one of its children.
pub open spec fn keeps_child(parent: NodeKind, child: NodeKind) -> bool {
    match parent {
        NodeKind::Body | NodeKind::WorldBody | NodeKind::Assets => true,
        NodeKind::Defaults => child == NodeKind::Defaults,
        _ => false,
    }
}

/// The parent after a child was given to it. A body puts the child, stamped,
/// before its other children, and so does the registry of assets, unstamped.
/// A default class does so with a nested class; of another child it records
/// the attributes under the child's tag. Every other kind lets the child go.
pub open spec fn with_child(parent: NodeView, child: NodeView) -> NodeView {
    match parent.kind {
        NodeKind::Body | NodeKind::WorldBody => NodeView {
            children: parent.children.insert(0, stamped(parent.attrs, child)),
            ..parent
        },
        NodeKind::Assets => NodeView { children: parent.children.insert(0, child), ..parent },
        NodeKind::Defaults => if child.kind == NodeKind::Defaults {
            NodeView { children: parent.children.insert(0, child), ..parent }
        } else {
            NodeView {
                element_attrs: with_tag(parent.element_attrs, tag_of(child.kind), child.attrs),
                ..parent
            }
        },
        _ => parent,
    }
}

/// Whether `later` is `earlier` with nothing taken away: the same kind, every
/// attribute of `earlier` with the value it had, and the same of the
/// children, one for one.
pub open spec fn extends(later: NodeView, earlier: NodeView) -> bool
    decreases earlier,
{
    &&& later.kind == earlier.kind
    &&& keeps(later.attrs, earlier.attrs)
    &&& later.children.len() == earlier.children.len()
    &&& forall|i: int|
        0 <= i < earlier.children.len() ==> extends(
            #[trigger] later.children[i],
            earlier.children[i],
        )
}

/// Offering a key to an element takes nothing away from it or from what is
/// below it: what was set stays set, with its value.
pub proof fn lemma_offered_extends(v: NodeView, key: Seq<char>, value: Seq<char>)
    ensures
        extends(offered(v, key, value), v),
    decreases v, 0nat,
{
    let w = offered(v, key, value);
    lemma_extends_refl(v);
    if attr_outcome(v.kind, v.attrs, key, value) == Ok::<bool, ModelError>(true) {
        lemma_with_attr_keeps(v.attrs, key, value);
        if hands_down(v.kind, key) {
            lemma_handed_first(v.children, v.children.len(), value);
            assert forall|i: int| 0 <= i < v.children.len() implies extends(
                #[trigger] w.children[i],
                v.children[i],
            ) by {
                lemma_handed_extends(v.children[i], value);
            }
        }
    }
}

/// Handing a value down to a child takes nothing away from it or from what
/// is below it.
pub proof fn lemma_handed_extends(c: NodeView, value: Seq<char>)
    ensures
        extends(handed(c, value), c),
    decreases c, 1nat,
{
    let w = offered(c, "class"@, value);
    let h = handed(c, value);
    lemma_offered_extends(c, "class"@, value);
    lemma_class_stays(c, value);
    if attr_outcome(w.kind, w.attrs, "childclass"@, value) == Ok::<bool, ModelError>(true) {
        lemma_with_attr_keeps(w.attrs, "childclass"@, value);
        crate::attrs::lemma_keeps_trans(c.attrs, w.attrs, h.attrs);
        if hands_down(w.kind, "childclass"@) {
            lemma_handed_first(c.children, c.children.len(), value);
            assert forall|i: int| 0 <= i < c.children.len() implies extends(
                #[trigger] h.children[i],
                c.children[i],
            ) by {
                lemma_handed_extends(c.children[i], value);
            }
        }
    }
}

/// A tree takes nothing away from itself.
pub proof fn lemma_extends_refl(v: NodeView)
    ensures
        extends(v, v),
    decreases v,
{
    assert forall|i: int| 0 <= i < v.children.len() implies extends(
        #[trigger] v.children[i],
        v.children[i],
    ) by {
        lemma_extends_refl(v.children[i]);
    }
}

/// What takes nothing away from what takes nothing away from a tree takes
/// nothing away from the tree.
pub proof fn lemma_extends_trans(a: NodeView, b: NodeView, c: NodeView)
    requires
        extends(b, a),
        extends(c, b),
    ensures
        extends(c, a),
    decreases a,
{
    crate::attrs::lemma_keeps_trans(a.attrs, b.attrs, c.attrs);
    assert forall|i: int| 0 <= i < a.children.len() implies extends(
        #[trigger] c.children[i],
        a.children[i],
    ) by {
        assert(extends(b.children[i], a.children[i]));
        lemma_extends_trans(a.children[i], b.children[i], c.children[i]);
    }
}

/// The first value set for a key wins: a second offer of the key, whatever
/// its value, is turned down and changes nothing.
pub proof fn lemma_first_write_wins(
    v: NodeView,
    key: Seq<char>,
    first: Seq<char>,
    second: Seq<char>,
)
    requires
        attr_outcome(v.kind, v.attrs, key, first) == Ok::<bool, ModelError>(true),
    ensures
        lookup(offered(v, key, first).attrs, key) == Some(first),
        attr_outcome(v.kind, offered(v, key, first).attrs, key, second) == Ok::<bool, ModelError>(
            false,
        ),
        offered(offered(v, key, first), key, second) == offered(v, key, first),
{
    lemma_with_attr_keeps(v.attrs, key, first);
    let w = offered(v, key, first);
    assert(w.attrs == v.attrs.push((key, first)));
    assert(w.kind == v.kind);
}

} // verus!
