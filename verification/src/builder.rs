//! From a stream of element events to the trees of a scene.
//!
//! The elements that are open stand on a stack. An element that closes is
//! given to the one below it as a child, or, where none is below it, becomes
//! a root of the scene.

use vstd::prelude::*;
use crate::attrs::{Attrs, pair_views};
use crate::error::ModelError;
use crate::node::{Node, NodeView, blank, views_of, lemma_views_of};
use crate::rules::{offered_list, stamped, with_child};
use crate::schema::{NodeKind, kind_named, kind_of_tag};

verus! {

/// A step of a document.
#[derive(Debug)]
pub enum ElementEvent {
    /// A start tag with its attributes.
    Start(String, Vec<(String, String)>),
    /// A tag of an element without content, with its attributes.
    Empty(String, Vec<(String, String)>),
    /// An end tag.
    End(String),
}

/// What an [`ElementEvent`] holds.
pub enum EventView {
    Start(Seq<char>, Attrs),
    Empty(Seq<char>, Attrs),
    End(Seq<char>),
}

impl View for ElementEvent {
    type V = EventView;

    open spec fn view(&self) -> EventView {
        match self {
            ElementEvent::Start(t, a) => EventView::Start(t@, pair_views(a@)),
            ElementEvent::Empty(t, a) => EventView::Empty(t@, pair_views(a@)),
            ElementEvent::End(t) => EventView::End(t@),
        }
    }
}

/// The views of a list of events.
pub open spec fn event_views(v: Seq<ElementEvent>) -> Seq<EventView> {
    Seq::new(v.len(), |i: int| v[i]@)
}

/// A scene under construction: the open elements, the outermost first, and
/// the roots that are closed.
pub struct Building {
    pub stack: Seq<NodeView>,
    pub world_body: Option<NodeView>,
    pub defaults: Option<NodeView>,
    pub assets: Option<NodeView>,
}

/// The kinds that may stand at the root of a document.
pub open spec fn is_root_kind(kind: NodeKind) -> bool {
    kind == NodeKind::WorldBody || kind == NodeKind::Defaults || kind == NodeKind::Assets
}

/// The kinds that an element without content may have.
pub open spec fn is_leaf_kind(kind: NodeKind) -> bool {
    kind == NodeKind::Geom || kind == NodeKind::Joint || kind == NodeKind::Mesh || kind
        == NodeKind::Texture || kind == NodeKind::Material
}

/// Nothing open, nothing closed.
pub open spec fn start_of_building() -> Building {
    Building { stack: Seq::empty(), world_body: None, defaults: None, assets: None }
}

/// A new element of a kind with the attributes of its tag, as the element
/// that is open gives it to itself.
pub open spec fn fresh(st: Building, kind: NodeKind, attrs: Attrs) -> Result<NodeView, ModelError> {
    match offered_list(blank(kind), attrs, attrs.len()) {
        Err(e) => Err(e),
        Ok(node) => if st.stack.len() > 0 && (st.stack.last().kind == NodeKind::Body
            || st.stack.last().kind == NodeKind::WorldBody) {
            Ok(stamped(st.stack.last().attrs, node))
        } else {
            Ok(node)
        },
    }
}

/// A start tag. A tag that names no kind is passed over. A root kind may
/// open a document; the registry of assets may do nothing else; every other
/// element needs an open one to stand in.
pub open spec fn opened(st: Building, tag: Seq<char>, attrs: Attrs) -> Result<
    Building,
    ModelError,
> {
    match kind_named(tag) {
        None => Ok(st),
        Some(kind) => if st.stack.len() == 0 && !is_root_kind(kind) {
            Err(ModelError::Structure)
        } else if st.stack.len() > 0 && kind == NodeKind::Assets {
            Err(ModelError::Structure)
        } else {
            match fresh(st, kind, attrs) {
                Err(e) => Err(e),
                Ok(node) => Ok(Building { stack: st.stack.push(node), ..st }),
            }
        },
    }
}

/// The innermost open element closes: it becomes a child of the one below
/// it, or a root where none is below it.
pub open spec fn folded(st: Building) -> Building {
    if st.stack.len() == 0 {
        st
    } else {
        let top = st.stack.last();
        let rest = st.stack.drop_last();
        if rest.len() == 0 {
            match top.kind {
                NodeKind::WorldBody => Building { stack: rest, world_body: Some(top), ..st },
                NodeKind::Defaults => Building { stack: rest, defaults: Some(top), ..st },
                NodeKind::Assets => Building { stack: rest, assets: Some(top), ..st },
                _ => Building { stack: rest, ..st },
            }
        } else {
            Building { stack: rest.update(rest.len() - 1, with_child(rest.last(), top)), ..st }
        }
    }
}

/// An end tag. A tag that names no kind is passed over, and so is one that
/// comes when nothing is open. The kind must be that of the innermost open
/// element.
pub open spec fn closed(st: Building, tag: Seq<char>) -> Result<Building, ModelError> {
    match kind_named(tag) {
        None => Ok(st),
        Some(kind) => if st.stack.len() == 0 {
            Ok(st)
        } else if st.stack.last().kind != kind {
            Err(ModelError::Structure)
        } else {
            Ok(folded(st))
        },
    }
}

/// The tag of an element without content. Only the leaf kinds are read; the
/// element becomes a child of the innermost open one at once.
pub open spec fn placed(st: Building, tag: Seq<char>, attrs: Attrs) -> Result<
    Building,
    ModelError,
> {
    match kind_named(tag) {
        None => Ok(st),
        Some(kind) => if !is_leaf_kind(kind) {
            Ok(st)
        } else if st.stack.len() == 0 {
            Err(ModelError::Structure)
        } else {
            match offered_list(blank(kind), attrs, attrs.len()) {
                Err(e) => Err(e),
                Ok(node) => Ok(
                    Building {
                        stack: st.stack.update(
                            st.stack.len() - 1,
                            with_child(st.stack.last(), node),
                        ),
                        ..st
                    },
                ),
            }
        },
    }
}

/// One event.
pub open spec fn stepped(st: Building, event: EventView) -> Result<Building, ModelError> {
    match event {
        EventView::Start(tag, attrs) => opened(st, tag, attrs),
        EventView::Empty(tag, attrs) => placed(st, tag, attrs),
        EventView::End(tag) => closed(st, tag),
    }
}

/// The first `k` events of a list, from the start of a building.
pub open spec fn ran(events: Seq<EventView>, k: nat) -> Result<Building, ModelError>
    decreases k,
{
    if k == 0 || k > events.len() {
        Ok(start_of_building())
    } else {
        match ran(events, (k - 1) as nat) {
            Err(e) => Err(e),
            Ok(st) => stepped(st, events[k - 1]),
        }
    }
}

/// Everything that is still open closes, the innermost first.
pub open spec fn settled(st: Building) -> Building
    decreases st.stack.len(),
{
    if st.stack.len() == 0 {
        st
    } else {
        settled(folded(st))
    }
}

/// The trees that a list of events builds.
pub open spec fn built(events: Seq<EventView>) -> Result<Building, ModelError> {
    match ran(events, events.len()) {
        Err(e) => Err(e),
        Ok(st) => Ok(settled(st)),
    }
}

/// The view of an element that may be missing.
pub open spec fn option_view(n: Option<Node>) -> Option<NodeView> {
    match n {
        Some(n) => Some(n@),
        None => None,
    }
}

/// The trees of a scene while they are built.
pub struct TreeBuilder {
    pub stack: Vec<Node>,
    pub world_body: Option<Node>,
    pub defaults: Option<Node>,
    pub assets: Option<Node>,
}

impl View for TreeBuilder {
    type V = Building;

    open spec fn view(&self) -> Building {
        Building {
            stack: views_of(self.stack@),
            world_body: option_view(self.world_body),
            defaults: option_view(self.defaults),
            assets: option_view(self.assets),
        }
    }
}

impl TreeBuilder {
    /// Nothing open, nothing closed.
    pub fn new() -> (r: TreeBuilder)
        ensures
            r@ == start_of_building(),
    {
        TreeBuilder { stack: Vec::new(), world_body: None, defaults: None, assets: None }
    }

    /// Closes the innermost open element.
    pub fn fold(&mut self)
        ensures
            final(self)@ == folded(old(self)@),
    {
        proof {
            lemma_views_of(self.stack@);
        }
        match self.stack.pop() {
            None => {},
            Some(top) => {
                proof {
                    lemma_views_of(self.stack@);
                    assert(views_of(self.stack@) =~= old(self)@.stack.drop_last());
                }
                let n = self.stack.len();
                if n == 0 {
                    match top.kind() {
                        NodeKind::WorldBody => {
                            self.world_body = Some(top);
                        },
                        NodeKind::Defaults => {
                            self.defaults = Some(top);
                        },
                        NodeKind::Assets => {
                            self.assets = Some(top);
                        },
                        _ => {},
                    }
                } else {
                    let ghost rest = self.stack@;
                    self.stack[n - 1].add_child(top);
                    proof {
                        lemma_views_of(self.stack@);
                        assert(views_of(self.stack@) =~= views_of(rest).update(
                            n - 1,
                            with_child(rest[n - 1]@, top@),
                        ));
                    }
                }
            },
        }
    }

    /// Takes one event.
    pub fn step(&mut self, event: &ElementEvent) -> (r: Result<(), ModelError>)
        ensures
            match stepped(old(self)@, event@) {
                Ok(st) => r is Ok && final(self)@ == st,
                Err(e) => r == Err::<(), ModelError>(e),
            },
    {
        proof {
            lemma_views_of(self.stack@);
        }
        let n = self.stack.len();
        match event {
            ElementEvent::Start(tag, attrs) => {
                match kind_of_tag(tag.as_str()) {
                    None => Ok(()),
                    Some(kind) => {
                        let root = match kind {
                            NodeKind::WorldBody | NodeKind::Defaults | NodeKind::Assets => true,
                            _ => false,
                        };
                        if n == 0 && !root {
                            return Err(ModelError::Structure);
                        }
                        if n > 0 && kind == NodeKind::Assets {
                            return Err(ModelError::Structure);
                        }
                        let mut node = Node::new(kind);
                        match node.add_attrs(copy_pairs(attrs)) {
                            Err(e) => {
                                return Err(e);
                            },
                            Ok(()) => {},
                        }
                        if n > 0 {
                            self.stack[n - 1].stamp(&mut node);
                        }
                        let ghost before = self.stack@;
                        self.stack.push(node);
                        proof {
                            lemma_views_of(self.stack@);
                            assert(views_of(self.stack@) =~= views_of(before).push(node@));
                        }
                        Ok(())
                    },
                }
            },
            ElementEvent::Empty(tag, attrs) => {
                match kind_of_tag(tag.as_str()) {
                    None => Ok(()),
                    Some(kind) => {
                        let leaf = match kind {
                            NodeKind::Geom
                            | NodeKind::Joint
                            | NodeKind::Mesh
                            | NodeKind::Texture
                            | NodeKind::Material => true,
                            _ => false,
                        };
                        if !leaf {
                            return Ok(());
                        }
                        if n == 0 {
                            return Err(ModelError::Structure);
                        }
                        let mut node = Node::new(kind);
                        match node.add_attrs(copy_pairs(attrs)) {
                            Err(e) => {
                                return Err(e);
                            },
                            Ok(()) => {},
                        }
                        let ghost before = self.stack@;
                        self.stack[n - 1].add_child(node);
                        proof {
                            lemma_views_of(self.stack@);
                            assert(views_of(self.stack@) =~= views_of(before).update(
                                n - 1,
                                with_child(before[n - 1]@, node@),
                            ));
                        }
                        Ok(())
                    },
                }
            },
            ElementEvent::End(tag) => {
                match kind_of_tag(tag.as_str()) {
                    None => Ok(()),
                    Some(kind) => {
                        if n == 0 {
                            return Ok(());
                        }
                        if self.stack[n - 1].kind() != kind {
                            return Err(ModelError::Structure);
                        }
                        self.fold();
                        Ok(())
                    },
                }
            },
        }
    }

    /// Closes everything that is still open.
    pub fn settle(&mut self)
        ensures
            final(self)@ == settled(old(self)@),
            final(self).stack@.len() == 0,
    {
        proof {
            lemma_views_of(self.stack@);
        }
        while self.stack.len() > 0
            invariant
                settled(self@) == settled(old(self)@),
            decreases self.stack.len(),
        {
            proof {
                lemma_views_of(self.stack@);
            }
            self.fold();
            proof {
                lemma_views_of(self.stack@);
            }
        }
        proof {
            lemma_views_of(self.stack@);
        }
    }
}

/// A copy of a list of pairs.
pub fn copy_pairs(pairs: &Vec<(String, String)>) -> (r: Vec<(String, String)>)
    ensures
        pair_views(r@) == pair_views(pairs@),
{
    let mut r: Vec<(String, String)> = Vec::new();
    let mut i: usize = 0;
    while i < pairs.len()
        invariant
            i <= pairs.len(),
            r.len() == i,
            forall|j: int|
                0 <= j < i ==> (#[trigger] r[j]).0@ == pairs[j].0@ && r[j].1@ == pairs[j].1@,
        decreases pairs.len() - i,
    {
        r.push((pairs[i].0.clone(), pairs[i].1.clone()));
        i += 1;
    }
    assert(pair_views(r@) =~= pair_views(pairs@));
    r
}

/// Builds the trees of a scene from the events of its document.
pub fn build(events: &Vec<ElementEvent>) -> (r: Result<TreeBuilder, ModelError>)
    ensures
        match built(event_views(events@)) {
            Ok(st) => r is Ok && r->Ok_0@ == st && r->Ok_0.stack@.len() == 0,
            Err(e) => r == Err::<TreeBuilder, ModelError>(e),
        },
        r is Ok ==> roots_fit(r->Ok_0@),
{
    proof {
        if built(event_views(events@)) is Ok {
            lemma_built_roots(event_views(events@));
        }
    }
    let mut builder = TreeBuilder::new();
    let ghost evs = event_views(events@);
    let mut i: usize = 0;
    while i < events.len()
        invariant
            i <= events.len(),
            evs == event_views(events@),
            ran(evs, i as nat) == Ok::<Building, ModelError>(builder@),
        decreases events.len() - i,
    {
        assert(evs[i as int] == events[i as int]@);
        match builder.step(&events[i]) {
            Err(e) => {
                proof {
                    lemma_ran_err(evs, (i + 1) as nat, events@.len());
                }
                return Err(e);
            },
            Ok(()) => {},
        }
        i += 1;
    }
    builder.settle();
    Ok(builder)
}

/// An error met while running events stays the result, however many follow.
pub proof fn lemma_ran_err(events: Seq<EventView>, k: nat, n: nat)
    requires
        k <= n <= events.len(),
        ran(events, k) is Err,
    ensures
        ran(events, n) == ran(events, k),
    decreases n - k,
{
    if k < n {
        lemma_ran_err(events, k, (n - 1) as nat);
    }
}

/// Whether each root that is closed is of the kind of its place.
pub open spec fn roots_fit(st: Building) -> bool {
    &&& st.world_body is Some ==> st.world_body->0.kind == NodeKind::WorldBody
    &&& st.defaults is Some ==> st.defaults->0.kind == NodeKind::Defaults
    &&& st.assets is Some ==> st.assets->0.kind == NodeKind::Assets
}

/// An event keeps the roots in their places.
pub proof fn lemma_stepped_roots(st: Building, event: EventView)
    requires
        roots_fit(st),
        stepped(st, event) is Ok,
    ensures
        roots_fit(stepped(st, event)->Ok_0),
{
}

/// Whatever the events, a root of the bodies is a root of bodies, a root of
/// the default classes is a default class and a root of the assets is a
/// registry of assets.
pub proof fn lemma_ran_roots(events: Seq<EventView>, k: nat)
    requires
        k <= events.len(),
        ran(events, k) is Ok,
    ensures
        roots_fit(ran(events, k)->Ok_0),
    decreases k,
{
    if k > 0 {
        lemma_ran_roots(events, (k - 1) as nat);
        lemma_stepped_roots(ran(events, (k - 1) as nat)->Ok_0, events[k - 1]);
    }
}

/// Closing what is open keeps the roots in their places, and leaves nothing
/// open.
pub proof fn lemma_settled_roots(st: Building)
    requires
        roots_fit(st),
    ensures
        roots_fit(settled(st)),
        settled(st).stack.len() == 0,
    decreases st.stack.len(),
{
    if st.stack.len() > 0 {
        lemma_settled_roots(folded(st));
    }
}

/// The roots of what a document builds are of the kinds of their places.
pub proof fn lemma_built_roots(events: Seq<EventView>)
    requires
        built(events) is Ok,
    ensures
        roots_fit(built(events)->Ok_0),
        built(events)->Ok_0.stack.len() == 0,
{
    lemma_ran_roots(events, events.len());
    lemma_settled_roots(ran(events, events.len())->Ok_0);
}

} // verus!
