//! Default classes: how the attributes that a class records for a tag reach
//! the elements of that class.

use vstd::prelude::*;
use crate::attrs::{Attrs, AttrMap, has_key, value_of, with_attr, keeps};
use crate::builder::copy_pairs;
use crate::error::ModelError;
use crate::node::{
    Node, NodeView, Defaults, TagAttrs, tag_views, views_of, lemma_views_of, lemma_node_view,
};
use crate::ops::tag_position;
use crate::rules::{
    attr_outcome, offered, lemma_handed_first, handed, lemma_class_stays, offered_list, class_of, tag_at, extends,
    lemma_offered_extends, lemma_extends_refl, lemma_extends_trans, hands_down,
};
use crate::schema::{NodeKind, tag_of};
use crate::text::same_text;

verus! {

/// The number of elements in a tree.
pub open spec fn size(v: NodeView) -> nat
    decreases v,
{
    1 + size_first(v.children, v.children.len())
}

/// The number of elements in the trees of the first `k` of a list.
pub open spec fn size_first(s: Seq<NodeView>, k: nat) -> nat
    decreases s, k,
{
    if k == 0 || k > s.len() {
        0
    } else {
        size_first(s, (k - 1) as nat) + size(s[k - 1])
    }
}

/// The number of elements in the trees of a list.
pub open spec fn size_all(s: Seq<NodeView>) -> nat {
    size_first(s, s.len())
}

/// A tree of a list is no larger than the list.
pub proof fn lemma_size_first(s: Seq<NodeView>, k: nat, i: int)
    requires
        0 <= i < k <= s.len(),
    ensures
        size(s[i]) <= size_first(s, k),
    decreases k,
{
    if i < k - 1 {
        lemma_size_first(s, (k - 1) as nat, i);
    }
}

/// Two lists whose trees have the same sizes, one for one, have the same size.
pub proof fn lemma_size_same(a: Seq<NodeView>, b: Seq<NodeView>, k: nat)
    requires
        a.len() == b.len(),
        k <= a.len(),
        forall|i: int| 0 <= i < a.len() ==> size(#[trigger] a[i]) == size(b[i]),
    ensures
        size_first(a, k) == size_first(b, k),
    decreases k,
{
    if k > 0 {
        lemma_size_same(a, b, (k - 1) as nat);
    }
}

/// Offering a key changes no size.
pub proof fn lemma_offered_size(v: NodeView, key: Seq<char>, value: Seq<char>)
    ensures
        size(offered(v, key, value)) == size(v),
        offered(v, key, value).children.len() == v.children.len(),
        offered(v, key, value).kind == v.kind,
    decreases v, 0nat,
{
    if attr_outcome(v.kind, v.attrs, key, value) == Ok::<bool, ModelError>(true) && hands_down(
        v.kind,
        key,
    ) {
        let w = offered(v, key, value);
        lemma_handed_first(v.children, v.children.len(), value);
        assert forall|i: int| 0 <= i < v.children.len() implies size(#[trigger] w.children[i])
            == size(v.children[i]) by {
            lemma_handed_size(v.children[i], value);
        }
        lemma_size_same(w.children, v.children, v.children.len());
    }
}

/// Handing a value down changes no size.
pub proof fn lemma_handed_size(c: NodeView, value: Seq<char>)
    ensures
        size(handed(c, value)) == size(c),
    decreases c, 1nat,
{
    let w = offered(c, "class"@, value);
    let h = handed(c, value);
    lemma_offered_size(c, "class"@, value);
    lemma_class_stays(c, value);
    if attr_outcome(w.kind, w.attrs, "childclass"@, value) == Ok::<bool, ModelError>(true)
        && hands_down(w.kind, "childclass"@) {
        lemma_handed_first(c.children, c.children.len(), value);
        assert forall|i: int| 0 <= i < c.children.len() implies size(#[trigger] h.children[i])
            == size(c.children[i]) by {
            lemma_handed_size(c.children[i], value);
        }
        lemma_size_same(h.children, c.children, c.children.len());
    }
}

/// Offering a list of pairs changes no size and takes nothing away.
pub proof fn lemma_offered_list(v: NodeView, pairs: Attrs, k: nat)
    requires
        k <= pairs.len(),
    ensures
        offered_list(v, pairs, k) is Ok ==> {
            let w = offered_list(v, pairs, k)->Ok_0;
            &&& size(w) == size(v)
            &&& w.kind == v.kind
            &&& w.children.len() == v.children.len()
            &&& extends(w, v)
        },
    decreases k,
{
    if k == 0 {
        lemma_extends_refl(v);
    } else {
        lemma_offered_list(v, pairs, (k - 1) as nat);
        if offered_list(v, pairs, (k - 1) as nat) is Ok {
            let w = offered_list(v, pairs, (k - 1) as nat)->Ok_0;
            lemma_offered_size(w, pairs[k - 1].0, pairs[k - 1].1);
            lemma_offered_extends(w, pairs[k - 1].0, pairs[k - 1].1);
            lemma_extends_trans(v, w, offered(w, pairs[k - 1].0, pairs[k - 1].1));
        }
    }
}

/// A list with the first `k` pairs of another set on it, each unless its key
/// has a value already.
pub open spec fn merged_attrs(own: Attrs, inherited: Attrs, k: nat) -> Attrs
    decreases k,
{
    if k == 0 || k > inherited.len() {
        own
    } else {
        with_attr(merged_attrs(own, inherited, (k - 1) as nat), inherited[k - 1].0, inherited[k - 1].1)
    }
}

/// A record with the first `k` entries of another merged into it: what the
/// record holds for a tag is filled up, and what it does not hold is added.
pub open spec fn merged_tags(own: TagAttrs, inherited: TagAttrs, k: nat) -> TagAttrs
    decreases k,
{
    if k == 0 || k > inherited.len() {
        own
    } else {
        let prev = merged_tags(own, inherited, (k - 1) as nat);
        let tag = inherited[k - 1].0;
        let attrs = inherited[k - 1].1;
        let i = tag_at(prev, tag, 0);
        if i < prev.len() {
            prev.update(i, (prev[i].0, merged_attrs(prev[i].1, attrs, attrs.len())))
        } else {
            prev.push((tag, attrs))
        }
    }
}

/// A class with what it inherits merged into its record.
pub open spec fn inheriting(scope: NodeView, inherited: Option<TagAttrs>) -> NodeView {
    match inherited {
        Some(e) => NodeView { element_attrs: merged_tags(scope.element_attrs, e, e.len()), ..scope },
        None => scope,
    }
}

/// The name of a class: what was set as its `class`, or `main`.
pub open spec fn scope_class(scope: NodeView) -> Seq<char> {
    if has_key(scope.attrs, "class"@) {
        value_of(scope.attrs, "class"@)
    } else {
        "main"@
    }
}

/// The element after a class that it belongs to gave it what the class
/// records for its tag.
pub open spec fn applied(scope: NodeView, body: NodeView) -> Result<NodeView, ModelError> {
    let i = tag_at(scope.element_attrs, tag_of(body.kind), 0);
    if i < scope.element_attrs.len() {
        offered_list(body, scope.element_attrs[i].1, scope.element_attrs[i].1.len())
    } else {
        Ok(body)
    }
}

#[verifier::opaque]
/// A class and a tree after the class resolved the tree. The class first
/// merges what it inherits into its record. Where the root of the tree is of
/// its class, it gives the root what it records for the root's tag; else it
/// lets each class nested in it resolve the tree, handing its record down.
/// Then it resolves the tree of every child of the root, handing nothing down.
/// The only failure is a default whose value has not the shape that its key
/// needs; the tests of sizes that guard the steps always hold, as
/// [`lemma_resolved_sound`] shows.
pub open spec fn resolved(scope: NodeView, body: NodeView, inherited: Option<TagAttrs>) -> Result<
    (NodeView, NodeView),
    ModelError,
>
    decreases size(body), size(scope), 1nat, 0nat,
{
    let scope1 = inheriting(scope, inherited);
    let found = if class_of(body) == scope_class(scope1) {
        match applied(scope1, body) {
            Err(e) => Err(e),
            Ok(b) => Ok((scope1, b)),
        }
    } else {
        searched(scope1, body, scope1.children.len())
    };
    match found {
        Err(e) => Err(e),
        Ok((s2, b2)) => if size(b2) == size(body) && size(s2) == size(scope) {
            match descended(s2, b2.children, b2.children.len()) {
                Err(e) => Err(e),
                Ok((s3, cs)) => Ok((s3, NodeView { children: cs, ..b2 })),
            }
        } else {
            Err(ModelError::Structure)
        },
    }
}

#[verifier::opaque]
/// A class and a tree after the first `k` classes nested in the class
/// resolved the tree, one after the other.
pub open spec fn searched(scope: NodeView, body: NodeView, k: nat) -> Result<
    (NodeView, NodeView),
    ModelError,
>
    decreases size(body), size(scope), 0nat, k,
{
    if k == 0 || k > scope.children.len() {
        Ok((scope, body))
    } else {
        match searched(scope, body, (k - 1) as nat) {
            Err(e) => Err(e),
            Ok((s, b)) => if size(b) == size(body) && size(s) == size(scope) && s.children.len()
                == scope.children.len() {
                let c = s.children[k - 1];
                if c.kind == NodeKind::Defaults {
                    proof {
                        lemma_size_first(s.children, s.children.len(), k - 1);
                    }
                    match resolved(c, b, Some(s.element_attrs)) {
                        Err(e) => Err(e),
                        Ok((c2, b2)) => Ok(
                            (NodeView { children: s.children.update(k - 1, c2), ..s }, b2),
                        ),
                    }
                } else {
                    Ok((s, b))
                }
            } else {
                Err(ModelError::Structure)
            },
        }
    }
}

#[verifier::opaque]
/// A class and a list of trees after the class resolved the first `k` of
/// them, one after the other.
pub open spec fn descended(scope: NodeView, nodes: Seq<NodeView>, k: nat) -> Result<
    (NodeView, Seq<NodeView>),
    ModelError,
>
    decreases size_all(nodes), size(scope), 2nat, k,
{
    if k == 0 || k > nodes.len() {
        Ok((scope, nodes))
    } else {
        match descended(scope, nodes, (k - 1) as nat) {
            Err(e) => Err(e),
            Ok((s, cs)) => if size_all(cs) == size_all(nodes) && size(s) == size(scope) && cs.len()
                == nodes.len() {
                proof {
                    lemma_size_first(cs, cs.len(), k - 1);
                }
                match resolved(s, cs[k - 1], None) {
                    Err(e) => Err(e),
                    Ok((s2, c2)) => Ok((s2, cs.update(k - 1, c2))),
                }
            } else {
                Err(ModelError::Structure)
            },
        }
    }
}

/// What [`resolved`] is, in one step.
pub proof fn lemma_resolved_step(scope: NodeView, body: NodeView, inherited: Option<TagAttrs>)
    ensures
        resolved(scope, body, inherited) == ({
            let scope1 = inheriting(scope, inherited);
            let found = if class_of(body) == scope_class(scope1) {
                match applied(scope1, body) {
                    Err(e) => Err(e),
                    Ok(b) => Ok((scope1, b)),
                }
            } else {
                searched(scope1, body, scope1.children.len())
            };
            match found {
                Err(e) => Err(e),
                Ok((s2, b2)) => if size(b2) == size(body) && size(s2) == size(scope) {
                    match descended(s2, b2.children, b2.children.len()) {
                        Err(e) => Err(e),
                        Ok((s3, cs)) => Ok((s3, NodeView { children: cs, ..b2 })),
                    }
                } else {
                    Err(ModelError::Structure)
                },
            }
        }),
{
    reveal_with_fuel(resolved, 1);
    reveal_with_fuel(searched, 1);
    reveal_with_fuel(descended, 1);
}

/// What [`searched`] is, in one step.
pub proof fn lemma_searched_step(scope: NodeView, body: NodeView, k: nat)
    ensures
        searched(scope, body, k) == (if k == 0 || k > scope.children.len() {
            Ok((scope, body))
        } else {
            match searched(scope, body, (k - 1) as nat) {
                Err(e) => Err(e),
                Ok((s, b)) => if size(b) == size(body) && size(s) == size(scope)
                    && s.children.len() == scope.children.len() {
                    let c = s.children[k - 1];
                    if c.kind == NodeKind::Defaults {
                        match resolved(c, b, Some(s.element_attrs)) {
                            Err(e) => Err(e),
                            Ok((c2, b2)) => Ok(
                                (NodeView { children: s.children.update(k - 1, c2), ..s }, b2),
                            ),
                        }
                    } else {
                        Ok((s, b))
                    }
                } else {
                    Err(ModelError::Structure)
                },
            }
        }),
{
    reveal_with_fuel(resolved, 1);
    reveal_with_fuel(searched, 1);
    reveal_with_fuel(descended, 1);
}

/// What [`descended`] is, in one step.
pub proof fn lemma_descended_step(scope: NodeView, nodes: Seq<NodeView>, k: nat)
    ensures
        descended(scope, nodes, k) == (if k == 0 || k > nodes.len() {
            Ok((scope, nodes))
        } else {
            match descended(scope, nodes, (k - 1) as nat) {
                Err(e) => Err(e),
                Ok((s, cs)) => if size_all(cs) == size_all(nodes) && size(s) == size(scope)
                    && cs.len() == nodes.len() {
                    match resolved(s, cs[k - 1], None) {
                        Err(e) => Err(e),
                        Ok((s2, c2)) => Ok((s2, cs.update(k - 1, c2))),
                    }
                } else {
                    Err(ModelError::Structure)
                },
            }
        }),
{
    reveal_with_fuel(resolved, 1);
    reveal_with_fuel(searched, 1);
    reveal_with_fuel(descended, 1);
}

/// What a record that may be missing holds.
pub open spec fn option_tags(tags: Option<&Vec<(String, AttrMap)>>) -> Option<TagAttrs> {
    match tags {
        Some(t) => Some(tag_views(t@)),
        None => None,
    }
}

/// Sets every pair of `inherited` on `own` whose key has no value there.
pub fn merge_attrs(own: &mut AttrMap, inherited: &AttrMap)
    ensures
        final(own)@ == merged_attrs(old(own)@, inherited@, inherited@.len()),
{
    let mut k: usize = 0;
    while k < inherited.len()
        invariant
            k <= inherited@.len(),
            own@ == merged_attrs(old(own)@, inherited@, k as nat),
        decreases inherited@.len() - k,
    {
        own.set(inherited.key(k).clone(), inherited.value(k).clone());
        k += 1;
    }
}

/// Replacing trees of a list by trees of the same sizes keeps the size of the list.
pub proof fn lemma_size_update(s: Seq<NodeView>, i: int, c: NodeView)
    requires
        0 <= i < s.len(),
        size(c) == size(s[i]),
    ensures
        size_all(s.update(i, c)) == size_all(s),
{
    lemma_size_same(s.update(i, c), s, s.len());
}

impl Defaults {
    /// The name of the class.
    pub fn class_name(&self) -> (r: String)
        ensures
            r@ == scope_class(self@),
    {
        match self.attrs_map.get("class") {
            Some(c) => c.clone(),
            None => "main".to_owned(),
        }
    }

    /// Merges what the class inherits into its record: see [`merged_tags`].
    pub fn set_element_attrs(&mut self, parent_element_attrs: &Vec<(String, AttrMap)>)
        ensures
            final(self)@ == inheriting(old(self)@, Some(tag_views(parent_element_attrs@))),
            final(self).children == old(self).children,
            final(self).attrs_map == old(self).attrs_map,
    {
        let ghost inherited = tag_views(parent_element_attrs@);
        let mut k: usize = 0;
        while k < parent_element_attrs.len()
            invariant
                k <= parent_element_attrs.len(),
                inherited == tag_views(parent_element_attrs@),
                self.children == old(self).children,
                self.attrs_map == old(self).attrs_map,
                tag_views(self.element_attrs@) == merged_tags(
                    tag_views(old(self).element_attrs@),
                    inherited,
                    k as nat,
                ),
            decreases parent_element_attrs.len() - k,
        {
            let ghost prev = tag_views(self.element_attrs@);
            assert(inherited[k as int] == (
                parent_element_attrs[k as int].0@,
                parent_element_attrs[k as int].1@,
            ));
            let i = tag_position(&self.element_attrs, parent_element_attrs[k].0.as_str());
            if i < self.element_attrs.len() {
                assert(prev[i as int] == (self.element_attrs[i as int].0@, self.element_attrs[i as int].1@));
                let mut merged = self.element_attrs[i].1.copy();
                merge_attrs(&mut merged, &parent_element_attrs[k].1);
                let tag = self.element_attrs[i].0.clone();
                self.element_attrs[i] = (tag, merged);
                assert(tag_views(self.element_attrs@) =~= prev.update(
                    i as int,
                    (prev[i as int].0, merged@),
                ));
            } else {
                self.element_attrs.push(
                    (parent_element_attrs[k].0.clone(), parent_element_attrs[k].1.copy()),
                );
                assert(tag_views(self.element_attrs@) =~= prev.push(inherited[k as int]));
            }
            k += 1;
        }
    }

    /// Resolves a tree against this class and the classes nested in it: see
    /// [`resolved`]. Whatever the classes hold, an attribute that was set on
    /// an element of the tree keeps its value.
    pub fn apply_defaults(
        &mut self,
        body: &mut Node,
        parent_element_attrs: Option<&Vec<(String, AttrMap)>>,
    ) -> (r: Result<(), ModelError>)
        ensures
            match resolved(old(self)@, old(body)@, option_tags(parent_element_attrs)) {
                Ok((s, b)) => r is Ok && final(self)@ == s && final(body)@ == b,
                Err(e) => r == Err::<(), ModelError>(e),
            },
            r is Ok ==> extends(final(body)@, old(body)@),
            r is Ok ==> size(final(body)@) == size(old(body)@) && size(final(self)@) == size(
                old(self)@,
            ),
            r is Ok ==> final(self)@.children.len() == old(self)@.children.len(),
            r is Err ==> r == Err::<(), ModelError>(ModelError::AttributeValue),
        decreases size(old(body)@), size(old(self)@), 1nat, 0nat,
    {
        proof {
            lemma_resolved_sound(old(self)@, old(body)@, option_tags(parent_element_attrs));
        }
        if let Some(e) = parent_element_attrs {
            self.set_element_attrs(e);
        }
        let ghost scope1 = self@;
        let ghost body0 = body@;
        proof {
            assert(scope1 == inheriting(old(self)@, option_tags(parent_element_attrs)));
            assert(size(scope1) == size(old(self)@));
            lemma_extends_refl(body0);
            lemma_views_of(self.children@);
            lemma_resolved_step(old(self)@, old(body)@, option_tags(parent_element_attrs));
        }
        let body_class = body.get_class();
        let own_class = self.class_name();
        if same_text(body_class.as_str(), own_class.as_str()) {
            match self.apply_own(body) {
                Err(e) => {
                    return Err(e);
                },
                Ok(()) => {},
            }
        } else {
            match self.search(body) {
                Err(e) => {
                    return Err(e);
                },
                Ok(()) => {},
            }
        }
        let ghost s2 = self@;
        let ghost b2 = body@;
        let r = self.descend_into(body);
        proof {
            if r is Ok {
                lemma_extends_trans(body0, b2, body@);
            }
        }
        r
    }

    /// Resolves the tree of every child of an element, one after the other.
    pub fn descend_into(&mut self, body: &mut Node) -> (r: Result<(), ModelError>)
        ensures
            match descended(old(self)@, old(body)@.children, old(body)@.children.len()) {
                Ok((s, cs)) => r is Ok && final(self)@ == s && final(body)@ == (NodeView {
                    children: cs,
                    ..old(body)@
                }),
                Err(e) => r == Err::<(), ModelError>(e),
            },
            r is Ok ==> extends(final(body)@, old(body)@),
            r is Ok ==> size(final(body)@) == size(old(body)@) && size(final(self)@) == size(
                old(self)@,
            ),
            r is Ok ==> final(self)@.children.len() == old(self)@.children.len(),
        decreases size(old(body)@), size(old(self)@), 0nat, 1nat,
    {
        let ghost s2 = self@;
        let ghost b2 = body@;
        proof {
            lemma_node_view(*body);
            lemma_node_children(*body);
        }
        let r = match body {
            Node::WorldBody(e) => self.descend(&mut e.children),
            Node::Body(e) => self.descend(&mut e.children),
            Node::Defaults(e) => self.descend(&mut e.children),
            Node::Assets(e) => self.descend(&mut e.children),
            _ => {
                proof {
                    lemma_descended_step(s2, b2.children, 0);
                    lemma_extends_refl(b2);
                }
                Ok(())
            },
        };
        proof {
            lemma_node_view(*body);
            lemma_node_children(*body);
            if r is Ok {
                assert(body@ =~= (NodeView { children: body@.children, ..b2 }));
                assert(body@.children.len() == b2.children.len());
                lemma_extends_children(b2, body@);
            }
        }
        r
    }

    /// Gives an element what this class records for its tag.
    pub fn apply_own(&self, body: &mut Node) -> (r: Result<(), ModelError>)
        ensures
            match applied(self@, old(body)@) {
                Ok(b) => r is Ok && final(body)@ == b,
                Err(e) => r == Err::<(), ModelError>(e),
            },
            r is Ok ==> extends(final(body)@, old(body)@) && size(final(body)@) == size(old(body)@),
    {
        proof {
            lemma_extends_refl(body@);
        }
        let tag = body.get_node_name();
        let i = tag_position(&self.element_attrs, tag.as_str());
        if i < self.element_attrs.len() {
            let pairs = copy_pairs(&self.element_attrs[i].1.entries);
            assert(tag_views(self.element_attrs@)[i as int].1 == self.element_attrs[i as int].1@);
            proof {
                lemma_offered_list(body@, crate::attrs::pair_views(pairs@), pairs@.len());
            }
            body.add_attrs(pairs)
        } else {
            Ok(())
        }
    }

    /// Lets each class nested in this one resolve a tree, one after the other.
    pub fn search(&mut self, body: &mut Node) -> (r: Result<(), ModelError>)
        ensures
            match searched(old(self)@, old(body)@, old(self)@.children.len()) {
                Ok((s, b)) => r is Ok && final(self)@ == s && final(body)@ == b,
                Err(e) => r == Err::<(), ModelError>(e),
            },
            r is Ok ==> extends(final(body)@, old(body)@),
            r is Ok ==> size(final(body)@) == size(old(body)@) && size(final(self)@) == size(
                old(self)@,
            ),
            r is Ok ==> final(self)@.children.len() == old(self)@.children.len(),
        decreases size(old(body)@), size(old(self)@), 0nat, 0nat,
    {
        let ghost scope1 = self@;
        let ghost body0 = body@;
        let n = self.children.len();
        proof {
            lemma_extends_refl(body0);
            lemma_views_of(self.children@);
            lemma_searched_step(scope1, body0, 0);
        }
        let mut k: usize = 0;
        while k < n
            invariant
                k <= n,
                n == self.children.len(),
                n == scope1.children.len(),
                scope1 == old(self)@,
                body0 == old(body)@,
                searched(scope1, body0, k as nat) == Ok::<(NodeView, NodeView), ModelError>(
                    (self@, body@),
                ),
                size(self@) == size(scope1),
                size(body@) == size(body0),
                extends(body@, body0),
            decreases n - k,
        {
            let ghost s = self@;
            let ghost b = body@;
            let ghost kids = self.children@;
            proof {
                lemma_views_of(kids);
                lemma_size_first(s.children, s.children.len(), k as int);
                lemma_node_view(kids[k as int]);
                lemma_searched_step(scope1, body0, (k + 1) as nat);
                lemma_extends_refl(b);
            }
            match &mut self.children[k] {
                Node::Defaults(e) => {
                    match e.apply_defaults(body, Some(&self.element_attrs)) {
                        Err(err) => {
                            proof {
                                lemma_searched_err(scope1, body0, (k + 1) as nat, n as nat);
                            }
                            return Err(err);
                        },
                        Ok(()) => {},
                    }
                },
                _ => {},
            }
            proof {
                lemma_views_of(self.children@);
                lemma_node_view(self.children[k as int]);
                let c2 = self.children[k as int]@;
                assert(self@.children =~= s.children.update(k as int, c2));
                assert(self@ =~= (NodeView { children: s.children.update(k as int, c2), ..s }));
                lemma_size_update(s.children, k as int, c2);
                lemma_extends_trans(body0, b, body@);
                if !(kids[k as int] is Defaults) {
                    assert(s.children.update(k as int, c2) =~= s.children);
                }
            }
            k += 1;
        }
        proof {
            lemma_views_of(self.children@);
        }
        Ok(())
    }

    /// Resolves each tree of a list against this class, one after the other.
    pub fn descend(&mut self, nodes: &mut Vec<Node>) -> (r: Result<(), ModelError>)
        ensures
            match descended(old(self)@, views_of(old(nodes)@), old(nodes)@.len()) {
                Ok((s, cs)) => r is Ok && final(self)@ == s && views_of(final(nodes)@) == cs,
                Err(e) => r == Err::<(), ModelError>(e),
            },
            r is Ok ==> final(nodes)@.len() == old(nodes)@.len(),
            r is Ok ==> forall|i: int|
                0 <= i < old(nodes)@.len() ==> extends(
                    #[trigger] views_of(final(nodes)@)[i],
                    views_of(old(nodes)@)[i],
                ),
            r is Ok ==> size_all(views_of(final(nodes)@)) == size_all(views_of(old(nodes)@))
                && size(final(self)@) == size(old(self)@),
            r is Ok ==> final(self)@.children.len() == old(self)@.children.len(),
        decreases size_all(views_of(old(nodes)@)), size(old(self)@), 2nat, 0nat,
    {
        let n = nodes.len();
        let ghost scope0 = self@;
        let ghost nodes0 = views_of(nodes@);
        proof {
            lemma_views_of(nodes@);
            assert forall|i: int| 0 <= i < n implies extends(#[trigger] nodes0[i], nodes0[i]) by {
                lemma_extends_refl(nodes0[i]);
            }
            lemma_descended_step(scope0, nodes0, 0);
        }
        let mut k: usize = 0;
        while k < n
            invariant
                k <= n,
                n == nodes.len(),
                n == nodes0.len(),
                n == old(nodes)@.len(),
                scope0 == old(self)@,
                nodes0 == views_of(old(nodes)@),
                descended(scope0, nodes0, k as nat) == Ok::<(NodeView, Seq<NodeView>), ModelError>(
                    (self@, views_of(nodes@)),
                ),
                size(self@) == size(scope0),
                self@.children.len() == scope0.children.len(),
                size_all(views_of(nodes@)) == size_all(nodes0),
                forall|i: int|
                    0 <= i < n ==> extends(#[trigger] views_of(nodes@)[i], nodes0[i]),
            decreases n - k,
        {
            let ghost cs = views_of(nodes@);
            proof {
                lemma_views_of(nodes@);
                lemma_size_first(cs, cs.len(), k as int);
                lemma_descended_step(scope0, nodes0, (k + 1) as nat);
            }
            match self.apply_defaults(&mut nodes[k], None) {
                Err(err) => {
                    proof {
                        lemma_descended_err(scope0, nodes0, (k + 1) as nat, n as nat);
                    }
                    return Err(err);
                },
                Ok(()) => {},
            }
            proof {
                lemma_views_of(nodes@);
                let c2 = nodes[k as int]@;
                assert(views_of(nodes@) =~= cs.update(k as int, c2));
                lemma_size_update(cs, k as int, c2);
                lemma_extends_trans(nodes0[k as int], cs[k as int], c2);
            }
            k += 1;
        }
        Ok(())
    }
}

/// The children of an element are as many as its view has.
pub proof fn lemma_node_children(n: Node)
    ensures
        match n {
            Node::WorldBody(e) => n@.children.len() == e.children@.len(),
            Node::Body(e) => n@.children.len() == e.children@.len(),
            Node::Defaults(e) => n@.children.len() == e.children@.len(),
            Node::Assets(e) => n@.children.len() == e.children@.len(),
            _ => n@.children.len() == 0,
        },
{
    lemma_node_view(n);
    match n {
        Node::WorldBody(e) => lemma_views_of(e.children@),
        Node::Body(e) => lemma_views_of(e.children@),
        Node::Defaults(e) => lemma_views_of(e.children@),
        Node::Assets(e) => lemma_views_of(e.children@),
        _ => {},
    }
}

/// A tree whose children were replaced by trees that take nothing away from
/// them takes nothing away.
pub proof fn lemma_extends_children(old_tree: NodeView, new_tree: NodeView)
    requires
        new_tree == (NodeView { children: new_tree.children, ..old_tree }),
        new_tree.children.len() == old_tree.children.len(),
        forall|i: int|
            0 <= i < old_tree.children.len() ==> extends(
                #[trigger] new_tree.children[i],
                old_tree.children[i],
            ),
    ensures
        extends(new_tree, old_tree),
{
}

/// An error met by the classes nested in a class stays the result.
pub proof fn lemma_searched_err(scope: NodeView, body: NodeView, k: nat, n: nat)
    requires
        k <= n <= scope.children.len(),
        searched(scope, body, k) is Err,
    ensures
        searched(scope, body, n) == searched(scope, body, k),
    decreases n - k,
{
    if k < n {
        lemma_searched_err(scope, body, k, (n - 1) as nat);
        lemma_searched_step(scope, body, n);
    }
}

/// An error met in a tree of a list stays the result.
pub proof fn lemma_descended_err(scope: NodeView, nodes: Seq<NodeView>, k: nat, n: nat)
    requires
        k <= n <= nodes.len(),
        descended(scope, nodes, k) is Err,
    ensures
        descended(scope, nodes, n) == descended(scope, nodes, k),
    decreases n - k,
{
    if k < n {
        lemma_descended_err(scope, nodes, k, (n - 1) as nat);
        lemma_descended_step(scope, nodes, n);
    }
}

/// Offering a list of pairs fails only on a value that has not the shape
/// its key needs.
pub proof fn lemma_offered_list_error(v: NodeView, pairs: Attrs, k: nat)
    requires
        k <= pairs.len(),
        offered_list(v, pairs, k) is Err,
    ensures
        offered_list(v, pairs, k)->Err_0 == ModelError::AttributeValue,
    decreases k,
{
    if k > 0 && offered_list(v, pairs, (k - 1) as nat) is Err {
        lemma_offered_list_error(v, pairs, (k - 1) as nat);
    }
}

/// What resolving leaves of a class and a tree: both keep their sizes and
/// the numbers of their children.
pub open spec fn sizes_kept(
    result: Result<(NodeView, NodeView), ModelError>,
    scope: NodeView,
    body: NodeView,
) -> bool {
    match result {
        Ok((s, b)) => size(s) == size(scope) && size(b) == size(body) && s.children.len()
            == scope.children.len() && b.children.len() == body.children.len(),
        Err(e) => e == ModelError::AttributeValue,
    }
}

/// Resolving a tree fails on nothing but a default whose value has not the
/// shape that its key needs: the error is never one of structure, and the
/// branches of [`resolved`] that test the sizes of the trees are never left
/// by the side of failure. Where it succeeds, the class and the tree keep
/// their sizes and the numbers of their children.
pub proof fn lemma_resolved_sound(scope: NodeView, body: NodeView, inherited: Option<TagAttrs>)
    ensures
        sizes_kept(resolved(scope, body, inherited), scope, body),
        resolved(scope, body, inherited) != Err::<(NodeView, NodeView), ModelError>(
            ModelError::Structure,
        ),
    decreases size(body), size(scope), 1nat, 0nat,
{
    lemma_resolved_step(scope, body, inherited);
    let scope1 = inheriting(scope, inherited);
    assert(size(scope1) == size(scope));
    let found = if class_of(body) == scope_class(scope1) {
        match applied(scope1, body) {
            Err(e) => Err(e),
            Ok(b) => Ok((scope1, b)),
        }
    } else {
        searched(scope1, body, scope1.children.len())
    };
    if class_of(body) == scope_class(scope1) {
        let i = tag_at(scope1.element_attrs, tag_of(body.kind), 0);
        if i < scope1.element_attrs.len() {
            let pairs = scope1.element_attrs[i].1;
            lemma_offered_list(body, pairs, pairs.len());
            if offered_list(body, pairs, pairs.len()) is Err {
                lemma_offered_list_error(body, pairs, pairs.len());
            }
        }
    } else {
        lemma_searched_sound(scope1, body, scope1.children.len());
    }
    assert(sizes_kept(found, scope1, body));
    match found {
        Err(e) => {},
        Ok((s2, b2)) => {
            lemma_descended_sound(s2, b2.children, b2.children.len());
            match descended(s2, b2.children, b2.children.len()) {
                Err(e) => {},
                Ok((s3, cs)) => {
                    let b3 = NodeView { children: cs, ..b2 };
                    assert(size(b3) == 1 + size_all(cs));
                    assert(size(b2) == 1 + size_all(b2.children));
                },
            }
        },
    }
}

/// The classes nested in a class fail on nothing but a malformed default,
/// and keep the sizes of the class and of the tree.
pub proof fn lemma_searched_sound(scope: NodeView, body: NodeView, k: nat)
    requires
        k <= scope.children.len(),
    ensures
        sizes_kept(searched(scope, body, k), scope, body),
    decreases size(body), size(scope), 0nat, k,
{
    lemma_searched_step(scope, body, k);
    if k > 0 {
        lemma_searched_sound(scope, body, (k - 1) as nat);
        match searched(scope, body, (k - 1) as nat) {
            Err(e) => {},
            Ok((s, b)) => {
                let c = s.children[k - 1];
                if c.kind == NodeKind::Defaults {
                    lemma_size_first(s.children, s.children.len(), k - 1);
                    lemma_resolved_sound(c, b, Some(s.element_attrs));
                    match resolved(c, b, Some(s.element_attrs)) {
                        Err(e) => {},
                        Ok((c2, b2)) => {
                            lemma_size_update(s.children, k - 1, c2);
                            let s2 = NodeView { children: s.children.update(k - 1, c2), ..s };
                            assert(size(s2) == 1 + size_all(s.children.update(k - 1, c2)));
                            assert(size(s) == 1 + size_all(s.children));
                        },
                    }
                }
            },
        }
    }
}

/// Resolving the trees of a list fails on nothing but a malformed default,
/// and keeps the size of the class, the number of the trees and their size.
pub proof fn lemma_descended_sound(scope: NodeView, nodes: Seq<NodeView>, k: nat)
    requires
        k <= nodes.len(),
    ensures
        match descended(scope, nodes, k) {
            Ok((s, cs)) => size(s) == size(scope) && s.children.len() == scope.children.len()
                && cs.len() == nodes.len() && size_all(cs) == size_all(nodes),
            Err(e) => e == ModelError::AttributeValue,
        },
    decreases size_all(nodes), size(scope), 2nat, k,
{
    lemma_descended_step(scope, nodes, k);
    if k > 0 {
        lemma_descended_sound(scope, nodes, (k - 1) as nat);
        match descended(scope, nodes, (k - 1) as nat) {
            Err(e) => {},
            Ok((s, cs)) => {
                lemma_size_first(cs, cs.len(), k - 1);
                lemma_resolved_sound(s, cs[k - 1], None);
                match resolved(s, cs[k - 1], None) {
                    Err(e) => {},
                    Ok((s2, c2)) => {
                        lemma_size_update(cs, k - 1, c2);
                    },
                }
            },
        }
    }
}

} // verus!
