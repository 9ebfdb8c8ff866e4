//! A compiled scene: the tree of bodies with defaults resolved and assets
//! bound, the default classes, the registry of assets, and the images that
//! were read for it.

use vstd::prelude::*;
use crate::assets::{bound, file_of, textures_of, texture_views};
use crate::binding::{keys_of, tree_bound, asks_material, assets_after, lemma_tree_bound_extends};
use crate::rules::{extends, lemma_extends_refl, lemma_extends_trans};
use crate::builder::{ElementEvent, EventView, event_views, TreeBuilder, built, build, option_view};
use crate::defaults::resolved;
use crate::error::ModelError;
use crate::node::{Node, NodeView, AssetsManager, Texture, lemma_node_view, lemma_views_of};
use crate::plan::{
    MeshJob, JobView, job_views, jobs_of, lemma_bound_tree_has_jobs, lemma_jobs_after_binding,
};
use crate::schema::NodeKind;
use crate::text::same_text;
use crate::xml::{read_events, document_events};

verus! {

/// What a file that was read holds.
#[derive(Clone, Copy, PartialEq, Eq, Structural, Debug)]
pub enum FileType {
    /// An image of a width and a height.
    Image(u32, u32),
}

/// A compiled scene.
#[derive(Debug)]
pub struct Model {
    pub world_body: Option<Node>,
    pub defaults: Option<Node>,
    pub asset_manager: Option<AssetsManager>,
    /// The images that were read: for a file, its size and its bytes.
    pub asset_files: Vec<(String, (FileType, Vec<u8>))>,
}

/// The trees of a compiled scene.
pub struct ModelView {
    pub world_body: Option<NodeView>,
    pub defaults: Option<NodeView>,
    pub asset_manager: Option<NodeView>,
}

impl View for Model {
    type V = ModelView;

    open spec fn view(&self) -> ModelView {
        ModelView {
            world_body: option_view(self.world_body),
            defaults: option_view(self.defaults),
            asset_manager: match self.asset_manager {
                Some(a) => Some(a@),
                None => None,
            },
        }
    }
}

/// A root that is of the kind of its place.
pub open spec fn root_of(root: Option<NodeView>, kind: NodeKind) -> Option<NodeView> {
    match root {
        Some(v) => if v.kind == kind {
            Some(v)
        } else {
            None
        },
        None => None,
    }
}

/// The scene after its default classes resolved its bodies, where it has
/// both.
pub open spec fn with_defaults(m: ModelView) -> Result<ModelView, ModelError> {
    match (m.defaults, m.world_body) {
        (Some(d), Some(w)) => if d.kind == NodeKind::Defaults {
            match resolved(d, w, None) {
                Err(e) => Err(e),
                Ok((d2, w2)) => Ok(ModelView { defaults: Some(d2), world_body: Some(w2), ..m }),
            }
        } else {
            Ok(m)
        },
        _ => Ok(m),
    }
}

/// The scene after the assets that its geoms refer to were bound, where it
/// has bodies and assets.
pub open spec fn with_assets(m: ModelView) -> Result<ModelView, ModelError> {
    match (m.asset_manager, m.world_body) {
        (Some(a), Some(w)) => match tree_bound(w, keys_of(a.children)) {
            Err(e) => Err(e),
            Ok(w2) => Ok(
                ModelView {
                    world_body: Some(w2),
                    asset_manager: Some(
                        NodeView { children: assets_after(asks_material(w), a.children), ..a },
                    ),
                    ..m
                },
            ),
        },
        _ => Ok(m),
    }
}

/// The scene that a list of events compiles to: the trees are built, then
/// the default classes resolve the bodies, then the assets are bound.
pub open spec fn compiled(events: Seq<EventView>) -> Result<ModelView, ModelError> {
    match built(events) {
        Err(e) => Err(e),
        Ok(st) => match with_defaults(
            ModelView {
                world_body: st.world_body,
                defaults: st.defaults,
                asset_manager: root_of(st.assets, NodeKind::Assets),
            },
        ) {
            Err(e) => Err(e),
            Ok(m) => with_assets(m),
        },
    }
}

impl Model {
    /// Compiles the events of a document: see [`compiled`].
    pub fn from_events(events: &Vec<ElementEvent>) -> (r: Result<Model, ModelError>)
        ensures
            match compiled(event_views(events@)) {
                Ok(m) => r is Ok && r->Ok_0@ == m && r->Ok_0.asset_files@.len() == 0,
                Err(e) => r == Err::<Model, ModelError>(e),
            },
            r is Ok && r->Ok_0@.asset_manager is Some ==> model_jobs(r->Ok_0@) is Ok,
            r is Ok ==> kept(r->Ok_0@.world_body, built(event_views(events@))->Ok_0.world_body),
    {
        let builder = match build(events) {
            Err(e) => {
                return Err(e);
            },
            Ok(b) => b,
        };
        let TreeBuilder { stack: _, world_body, defaults, assets } = builder;
        let asset_manager: Option<AssetsManager> = match assets {
            Some(n) => {
                proof {
                    lemma_node_view(n);
                }
                match n {
                    Node::Assets(a) => Some(a),
                    _ => None,
                }
            },
            None => None,
        };
        let mut model = Model { world_body, defaults, asset_manager, asset_files: Vec::new() };
        let ghost first = model@.world_body;
        match model.apply_defaults() {
            Err(e) => {
                return Err(e);
            },
            Ok(()) => {},
        }
        let ghost second = model@.world_body;
        match model.apply_assets() {
            Err(e) => {
                return Err(e);
            },
            Ok(()) => {},
        }
        proof {
            if first is Some {
                lemma_extends_trans(first->0, second->0, model@.world_body->0);
            }
        }
        Ok(model)
    }

    /// Lets the default classes resolve the bodies: see [`with_defaults`].
    pub fn apply_defaults(&mut self) -> (r: Result<(), ModelError>)
        ensures
            match with_defaults(old(self)@) {
                Ok(m) => r is Ok && final(self)@ == m,
                Err(e) => r == Err::<(), ModelError>(e),
            },
            final(self).asset_files == old(self).asset_files,
            r is Ok ==> kept(final(self)@.world_body, old(self)@.world_body),
    {
        proof {
            if self.world_body is Some {
                lemma_extends_refl(self@.world_body->0);
            }
        }
        let r = match &mut self.defaults {
            Some(Node::Defaults(d)) => match &mut self.world_body {
                Some(w) => d.apply_defaults(w, None),
                None => Ok(()),
            },
            _ => Ok(()),
        };
        proof {
            lemma_root_view(old(self).defaults);
            lemma_root_view(self.defaults);
        }
        r
    }

    /// Binds the assets that the geoms refer to: see [`with_assets`].
    pub fn apply_assets(&mut self) -> (r: Result<(), ModelError>)
        ensures
            match with_assets(old(self)@) {
                Ok(m) => r is Ok && final(self)@ == m,
                Err(e) => r == Err::<(), ModelError>(e),
            },
            final(self).asset_files == old(self).asset_files,
            r is Ok && old(self)@.asset_manager is Some ==> model_jobs(final(self)@) is Ok,
            r is Ok ==> kept(final(self)@.world_body, old(self)@.world_body),
    {
        proof {
            if with_assets(self@) is Ok {
                lemma_with_assets_keeps(self@);
            }
        }
        proof {
            if self.asset_manager is Some {
                lemma_views_of(self.asset_manager->0.children@);
                assert(self.asset_manager->0.children.len() <= usize::MAX);
                if with_assets(self@) is Ok {
                    lemma_bound_scene_has_jobs(self@);
                }
            }
        }
        let r = match &mut self.asset_manager {
            Some(a) => match &mut self.world_body {
                Some(w) => w.apply_assets(a),
                None => Ok(()),
            },
            None => Ok(()),
        };
        proof {
            if r is Ok {
                assert(self@ =~= with_assets(old(self)@)->Ok_0);
            }
        }
        r
    }

    /// Compiles a document: reads its elements, then compiles them as
    /// [`compiled`] says. A document that the reader rejects is a parse error.
    /// No image is read yet, and where the scene has assets, making its jobs
    /// cannot fail.
    pub fn load_model(contents: &str) -> (r: Result<Model, ModelError>)
        ensures
            match document_events(contents@) {
                None => r == Err::<Model, ModelError>(ModelError::Parse),
                Some(events) => match compiled(events) {
                    Ok(m) => r is Ok && r->Ok_0@ == m && r->Ok_0.asset_files@.len() == 0,
                    Err(e) => r == Err::<Model, ModelError>(e),
                },
            },
            r is Ok && r->Ok_0@.asset_manager is Some ==> model_jobs(r->Ok_0@) is Ok,
    {
        match read_events(contents) {
            Err(e) => Err(e),
            Ok(events) => Model::from_events(&events),
        }
    }

    /// The jobs of the scene, in drawing order: those of its bodies, and
    /// none where it has no bodies.
    pub fn jobs(&self) -> (r: Result<Vec<MeshJob>, ModelError>)
        ensures
            match model_jobs(self@) {
                Ok(jobs) => r is Ok && job_views(r->Ok_0@) == jobs,
                Err(e) => r == Err::<Vec<MeshJob>, ModelError>(e),
            },
    {
        let none = AssetsManager::new();
        let assets: &AssetsManager = match &self.asset_manager {
            Some(a) => a,
            None => &none,
        };
        match &self.world_body {
            Some(Node::WorldBody(w)) => {
                proof {
                    lemma_node_view(self.world_body->0);
                }
                w.getAllGeometries(assets)
            },
            Some(n) => {
                proof {
                    lemma_node_view(*n);
                }
                let empty: Vec<MeshJob> = Vec::new();
                assert(job_views(empty@) =~= Seq::<JobView>::empty());
                Ok(empty)
            },
            None => {
                let empty: Vec<MeshJob> = Vec::new();
                assert(job_views(empty@) =~= Seq::<JobView>::empty());
                Ok(empty)
            },
        }
    }
}

/// Whether the bodies of a scene are there as before, with nothing taken
/// away: every attribute that was set on an element still has its value.
pub open spec fn kept(later: Option<NodeView>, earlier: Option<NodeView>) -> bool {
    match earlier {
        Some(e) => later is Some && extends(later->0, e),
        None => later is None,
    }
}

/// Binding the assets of a scene takes nothing away from its bodies.
pub proof fn lemma_with_assets_keeps(m: ModelView)
    requires
        with_assets(m) is Ok,
    ensures
        kept(with_assets(m)->Ok_0.world_body, m.world_body),
{
    match (m.asset_manager, m.world_body) {
        (Some(a), Some(w)) => {
            lemma_tree_bound_extends(w, keys_of(a.children));
        },
        (_, Some(w)) => {
            lemma_extends_refl(w);
        },
        _ => {},
    }
}

/// Once the assets of a scene are bound, making its jobs cannot fail: every
/// geom with the form of a mesh has one.
pub proof fn lemma_bound_scene_has_jobs(m: ModelView)
    requires
        m.asset_manager is Some,
        m.asset_manager->0.children.len() <= usize::MAX,
        with_assets(m) is Ok,
    ensures
        model_jobs(with_assets(m)->Ok_0) is Ok,
{
    match m.world_body {
        Some(w) => {
            let a = m.asset_manager->0;
            lemma_bound_tree_has_jobs(w, a.children);
            if asks_material(w) {
                lemma_jobs_after_binding(tree_bound(w, keys_of(a.children))->Ok_0, a.children);
            }
        },
        None => {},
    }
}

/// The view of a root is the view of what its variant holds.
pub proof fn lemma_root_view(root: Option<Node>)
    ensures
        match root {
            Some(Node::Defaults(d)) => option_view(root) == Some(d@),
            Some(n) => n@.kind != NodeKind::Defaults,
            None => true,
        },
{
    match root {
        Some(n) => lemma_node_view(n),
        None => {},
    }
}

/// The jobs of a scene.
pub open spec fn model_jobs(m: ModelView) -> Result<Seq<JobView>, ModelError> {
    match m.world_body {
        Some(w) => if w.kind == NodeKind::WorldBody {
            jobs_of(
                w,
                match m.asset_manager {
                    Some(a) => a.children,
                    None => Seq::empty(),
                },
            )
        } else {
            Ok(Seq::empty())
        },
        None => Ok(Seq::empty()),
    }
}

/// The images of a scene: pairs of a file and what was read from it.
pub type Images = Seq<(Seq<char>, (FileType, Seq<u8>))>;

/// The views of a list of owned images.
pub open spec fn image_views(v: Seq<(String, (FileType, Vec<u8>))>) -> Images {
    Seq::new(v.len(), |i: int| (v[i].0@, (v[i].1.0, v[i].1.1@)))
}

/// The first index at or after `from` whose image has the file, or the length.
pub open spec fn image_at(images: Images, file: Seq<char>, from: int) -> int
    decreases images.len() - from,
{
    if from < 0 || from >= images.len() {
        images.len() as int
    } else if images[from].0 == file {
        from
    } else {
        image_at(images, file, from + 1)
    }
}

/// Of the first `k` textures of a list those whose file was read, each with
/// the bytes of its file as its image.
pub open spec fn with_images(textures: Seq<NodeView>, images: Images, k: nat) -> Seq<NodeView>
    decreases k,
{
    if k == 0 || k > textures.len() {
        Seq::empty()
    } else {
        let before = with_images(textures, images, (k - 1) as nat);
        let at = image_at(images, file_of(textures[k - 1])->0, 0);
        if at < images.len() {
            before.push(NodeView { file_data: images[at].1.1, ..textures[k - 1] })
        } else {
            before
        }
    }
}

impl Model {
    /// The textures of the scene whose files were read, each with the bytes
    /// of its file as its image.
    pub fn get_textures_data(&self) -> (r: Vec<Texture>)
        ensures
            texture_views(r@) == match self@.asset_manager {
                Some(a) => with_images(
                    textures_of(a.children, a.children.len()),
                    image_views(self.asset_files@),
                    textures_of(a.children, a.children.len()).len(),
                ),
                None => Seq::empty(),
            },
    {
        let mut out: Vec<Texture> = Vec::new();
        proof {
            assert(texture_views(out@) =~= Seq::<NodeView>::empty());
        }
        match &self.asset_manager {
            None => {},
            Some(a) => {
                let mut textures = a.get_textures_data();
                let ghost all = texture_views(textures@);
                let ghost images = image_views(self.asset_files@);
                let n = textures.len();
                let mut k: usize = 0;
                while k < n
                    invariant
                        k <= n,
                        n == textures.len(),
                        all.len() == n,
                        images == image_views(self.asset_files@),
                        forall|j: int| k <= j < n ==> (#[trigger] textures[j])@ == all[j],
                        texture_views(out@) == with_images(all, images, k as nat),
                    decreases n - k,
                {
                    let file = textures[k].get_file();
                    let mut i: usize = 0;
                    while i < self.asset_files.len() && !same_text(
                        self.asset_files[i].0.as_str(),
                        file.as_str(),
                    )
                        invariant
                            i <= self.asset_files.len(),
                            images == image_views(self.asset_files@),
                            image_at(images, file@, i as int) == image_at(images, file@, 0),
                        decreases self.asset_files.len() - i,
                    {
                        assert(images[i as int].0 == self.asset_files[i as int].0@);
                        i += 1;
                    }
                    if i < self.asset_files.len() {
                        assert(images[i as int] == (
                            self.asset_files[i as int].0@,
                            (self.asset_files[i as int].1.0, self.asset_files[i as int].1.1@),
                        ));
                        let mut t = textures[k].copy();
                        let mut data: Vec<u8> = Vec::new();
                        let src = &self.asset_files[i].1.1;
                        let mut b: usize = 0;
                        while b < src.len()
                            invariant
                                b <= src.len(),
                                data@ == src@.take(b as int),
                            decreases src.len() - b,
                        {
                            data.push(src[b]);
                            assert(data@ =~= src@.take(b + 1));
                            b += 1;
                        }
                        assert(src@.take(src.len() as int) =~= src@);
                        t.file_data = data;
                        let ghost before = texture_views(out@);
                        out.push(t);
                        assert(texture_views(out@) =~= before.push(t@));
                    }
                    k += 1;
                }
            },
        }
        out
    }
}

} // verus!
