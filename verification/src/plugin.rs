//! Plugins: what may work on a scene once it is loaded, and in each round of
//! a simulation.

use vstd::prelude::*;
use crate::node::{Node, NodeView};
use crate::rubiks::{RubiksCube, CubeMove, cube_ready, Slots, played, opening_moves};

verus! {

/// What a plugin takes part in.
#[derive(Clone, Copy, PartialEq, Eq, Structural, Debug)]
pub struct PluginCapabilities {
    pub process_model_load: bool,
    pub process_sim_loop: bool,
    pub load_model: bool,
}

impl PluginCapabilities {
    /// A plugin takes part in the loading of a scene and in nothing else.
    pub fn default() -> (r: PluginCapabilities)
        ensures
            r == (PluginCapabilities {
                process_model_load: true,
                process_sim_loop: false,
                load_model: false,
            }),
    {
        PluginCapabilities { process_model_load: true, process_sim_loop: false, load_model: false }
    }
}

/// Something that works on the bodies of a scene.
pub trait Plugin {
    /// What the plugin knows, as far as its work depends on it.
    type State;

    /// Whether the plugin is in a state to work.
    spec fn ready(&self) -> bool;

    /// What the plugin knows.
    spec fn state(&self) -> Self::State;

    /// What a plugin knows and the bodies of a scene after one round of a
    /// simulation.
    spec fn after_sim_loop(state: Self::State, world: NodeView) -> (Self::State, NodeView);

    /// What a plugin knows and the bodies of a scene after the scene was
    /// loaded.
    spec fn after_model_load(state: Self::State, world: NodeView) -> (Self::State, NodeView);

    /// One round of a simulation.
    fn process_sim_loop(&mut self, worldbody: &mut Node)
        requires
            old(self).ready(),
        ensures
            final(self).ready(),
            (final(self).state(), final(worldbody)@) == Self::after_sim_loop(
                old(self).state(),
                old(worldbody)@,
            ),
    ;

    /// A scene was loaded.
    fn process_model_load(&mut self, worldbody: &mut Node)
        requires
            old(self).ready(),
        ensures
            final(self).ready(),
            (final(self).state(), final(worldbody)@) == Self::after_model_load(
                old(self).state(),
                old(worldbody)@,
            ),
    ;
}

impl Plugin for RubiksCube {
    type State = Slots;

    open spec fn ready(&self) -> bool {
        cube_ready(self@)
    }

    open spec fn state(&self) -> Slots {
        self@
    }

    open spec fn after_sim_loop(state: Slots, world: NodeView) -> (Slots, NodeView) {
        (state, world)
    }

    open spec fn after_model_load(state: Slots, world: NodeView) -> (Slots, NodeView) {
        played(state, world, opening_moves(), opening_moves().len())
    }

    /// A cube has nothing to do in a round of a simulation.
    fn process_sim_loop(&mut self, worldbody: &mut Node) {
    }

    /// Scrambles the cube of the scene with the opening moves: see
    /// [`played`].
    fn process_model_load(&mut self, worldbody: &mut Node) {
        let moves: Vec<CubeMove> = vec![
            CubeMove::FPlus,
            CubeMove::BPlus,
            CubeMove::UPlus,
            CubeMove::RPlus,
            CubeMove::DPlus,
            CubeMove::LPlus,
            CubeMove::RPlus,
            CubeMove::RPlus,
            CubeMove::DPlus,
            CubeMove::FPlus,
        ];
        assert(moves@ =~= opening_moves());
        let mut i: usize = 0;
        while i < moves.len()
            invariant
                i <= moves.len(),
                moves@ == opening_moves(),
                cube_ready(self@),
                (self@, worldbody@) == played(old(self)@, old(worldbody)@, opening_moves(), i as nat),
            decreases moves.len() - i,
        {
            self.apply_move(moves[i], worldbody);
            i += 1;
        }
    }
}

/// A plugin with what it takes part in.
pub struct Registered<P: Plugin> {
    pub capabilities: PluginCapabilities,
    pub plugin: P,
}

/// The plugins of a viewer.
pub struct PluginManager<P: Plugin> {
    pub registered_plugins: Vec<Registered<P>>,
}

/// Whether every plugin of a list is ready.
pub open spec fn all_ready<P: Plugin>(plugins: Seq<Registered<P>>) -> bool {
    forall|i: int| 0 <= i < plugins.len() ==> (#[trigger] plugins[i]).plugin.ready()
}

/// What the plugins of a list know, one for one.
pub open spec fn states_of<P: Plugin>(plugins: Seq<Registered<P>>) -> Seq<P::State> {
    Seq::new(plugins.len(), |i: int| plugins[i].plugin.state())
}

/// What the plugins of a list take part in, one for one.
pub open spec fn capabilities_of<P: Plugin>(plugins: Seq<Registered<P>>) -> Seq<
    PluginCapabilities,
> {
    Seq::new(plugins.len(), |i: int| plugins[i].capabilities)
}

/// What the plugins know and the bodies of a scene after the first `k`
/// plugins had their turn in a round of a simulation, in their order: each
/// that takes part in the rounds works on the bodies as the plugins before
/// it left them.
pub open spec fn after_rounds<P: Plugin>(
    states: Seq<P::State>,
    capabilities: Seq<PluginCapabilities>,
    world: NodeView,
    k: nat,
) -> (Seq<P::State>, NodeView)
    decreases k,
{
    if k == 0 || k > states.len() {
        (states, world)
    } else {
        let (s, w) = after_rounds::<P>(states, capabilities, world, (k - 1) as nat);
        if capabilities[k - 1].process_sim_loop {
            let (next, turned) = P::after_sim_loop(s[k - 1], w);
            (s.update(k - 1, next), turned)
        } else {
            (s, w)
        }
    }
}

/// What the plugins know and the bodies of a scene after the first `k`
/// plugins had their turn at the loading of the scene, in their order: each
/// that takes part in the loading works on the bodies as the plugins before
/// it left them.
pub open spec fn after_loads<P: Plugin>(
    states: Seq<P::State>,
    capabilities: Seq<PluginCapabilities>,
    world: NodeView,
    k: nat,
) -> (Seq<P::State>, NodeView)
    decreases k,
{
    if k == 0 || k > states.len() {
        (states, world)
    } else {
        let (s, w) = after_loads::<P>(states, capabilities, world, (k - 1) as nat);
        if capabilities[k - 1].process_model_load {
            let (next, turned) = P::after_model_load(s[k - 1], w);
            (s.update(k - 1, next), turned)
        } else {
            (s, w)
        }
    }
}

/// The turns of the first `k` plugins leave what the others know as it was.
pub proof fn lemma_after_rounds<P: Plugin>(
    states: Seq<P::State>,
    capabilities: Seq<PluginCapabilities>,
    world: NodeView,
    k: nat,
)
    requires
        k <= states.len(),
    ensures
        after_rounds::<P>(states, capabilities, world, k).0.len() == states.len(),
        forall|j: int|
            k <= j < states.len() ==> (#[trigger] after_rounds::<P>(
                states,
                capabilities,
                world,
                k,
            ).0[j]) == states[j],
    decreases k,
{
    if k > 0 {
        lemma_after_rounds::<P>(states, capabilities, world, (k - 1) as nat);
    }
}

/// The turns of the first `k` plugins leave what the others know as it was.
pub proof fn lemma_after_loads<P: Plugin>(
    states: Seq<P::State>,
    capabilities: Seq<PluginCapabilities>,
    world: NodeView,
    k: nat,
)
    requires
        k <= states.len(),
    ensures
        after_loads::<P>(states, capabilities, world, k).0.len() == states.len(),
        forall|j: int|
            k <= j < states.len() ==> (#[trigger] after_loads::<P>(
                states,
                capabilities,
                world,
                k,
            ).0[j]) == states[j],
    decreases k,
{
    if k > 0 {
        lemma_after_loads::<P>(states, capabilities, world, (k - 1) as nat);
    }
}

impl<P: Plugin> PluginManager<P> {
    /// A manager without plugins.
    pub fn new() -> (r: PluginManager<P>)
        ensures
            r.registered_plugins@.len() == 0,
    {
        PluginManager { registered_plugins: Vec::new() }
    }

    /// Takes a plugin in, behind those taken in before.
    pub fn register_plugin(&mut self, plugin: P, cap: PluginCapabilities)
        ensures
            final(self).registered_plugins@ == old(self).registered_plugins@.push(
                Registered { capabilities: cap, plugin },
            ),
    {
        self.registered_plugins.push(Registered { capabilities: cap, plugin });
    }

    /// Lets every plugin that takes part in the rounds of a simulation work
    /// on the bodies, in the order in which they were taken in: see
    /// [`after_rounds`]. A plugin that takes no part stays as it is.
    pub fn process_sim_loop(&mut self, worldbody: &mut Node)
        requires
            all_ready(old(self).registered_plugins@),
        ensures
            all_ready(final(self).registered_plugins@),
            (states_of(final(self).registered_plugins@), final(worldbody)@) == after_rounds::<P>(
                states_of(old(self).registered_plugins@),
                capabilities_of(old(self).registered_plugins@),
                old(worldbody)@,
                old(self).registered_plugins@.len(),
            ),
            capabilities_of(final(self).registered_plugins@) == capabilities_of(
                old(self).registered_plugins@,
            ),
            forall|i: int|
                0 <= i < old(self).registered_plugins@.len() && !old(self).registered_plugins@[i].capabilities.process_sim_loop ==> (
                #[trigger] final(self).registered_plugins@[i]) == old(self).registered_plugins@[i],
    {
        let n = self.registered_plugins.len();
        let ghost states = states_of(self.registered_plugins@);
        let ghost caps = capabilities_of(self.registered_plugins@);
        let ghost world = worldbody@;
        let mut i: usize = 0;
        while i < n
            invariant
                i <= n,
                n == self.registered_plugins.len(),
                n == old(self).registered_plugins@.len(),
                states == states_of(old(self).registered_plugins@),
                caps == capabilities_of(old(self).registered_plugins@),
                world == old(worldbody)@,
                all_ready(self.registered_plugins@),
                capabilities_of(self.registered_plugins@) == caps,
                (states_of(self.registered_plugins@), worldbody@) == after_rounds::<P>(
                    states,
                    caps,
                    world,
                    i as nat,
                ),
                forall|j: int|
                    0 <= j < n && !old(self).registered_plugins@[j].capabilities.process_sim_loop
                        ==> (#[trigger] self.registered_plugins@[j]) == old(self).registered_plugins@[j],
            decreases n - i,
        {
            let ghost before = self.registered_plugins@;
            proof {
                lemma_after_rounds::<P>(states, caps, world, i as nat);
                assert(caps[i as int] == before[i as int].capabilities);
                assert(states_of(before)[i as int] == before[i as int].plugin.state());
            }
            if self.registered_plugins[i].capabilities.process_sim_loop {
                assert(self.registered_plugins@[i as int].plugin.ready());
                self.registered_plugins[i].plugin.process_sim_loop(worldbody);
                proof {
                    let now = self.registered_plugins@;
                    assert(states_of(now) =~= states_of(before).update(
                        i as int,
                        now[i as int].plugin.state(),
                    ));
                    assert(capabilities_of(now) =~= capabilities_of(before));
                }
            }
            i += 1;
        }
    }

    /// Lets every plugin that takes part in the loading of a scene work on
    /// the bodies, in the order in which they were taken in: see
    /// [`after_loads`]. A plugin that takes no part stays as it is.
    pub fn process_model_load(&mut self, worldbody: &mut Node)
        requires
            all_ready(old(self).registered_plugins@),
        ensures
            all_ready(final(self).registered_plugins@),
            (states_of(final(self).registered_plugins@), final(worldbody)@) == after_loads::<P>(
                states_of(old(self).registered_plugins@),
                capabilities_of(old(self).registered_plugins@),
                old(worldbody)@,
                old(self).registered_plugins@.len(),
            ),
            capabilities_of(final(self).registered_plugins@) == capabilities_of(
                old(self).registered_plugins@,
            ),
            forall|i: int|
                0 <= i < old(self).registered_plugins@.len() && !old(self).registered_plugins@[i].capabilities.process_model_load ==> (
                #[trigger] final(self).registered_plugins@[i]) == old(self).registered_plugins@[i],
    {
        let n = self.registered_plugins.len();
        let ghost states = states_of(self.registered_plugins@);
        let ghost caps = capabilities_of(self.registered_plugins@);
        let ghost world = worldbody@;
        let mut i: usize = 0;
        while i < n
            invariant
                i <= n,
                n == self.registered_plugins.len(),
                n == old(self).registered_plugins@.len(),
                states == states_of(old(self).registered_plugins@),
                caps == capabilities_of(old(self).registered_plugins@),
                world == old(worldbody)@,
                all_ready(self.registered_plugins@),
                capabilities_of(self.registered_plugins@) == caps,
                (states_of(self.registered_plugins@), worldbody@) == after_loads::<P>(
                    states,
                    caps,
                    world,
                    i as nat,
                ),
                forall|j: int|
                    0 <= j < n && !old(self).registered_plugins@[j].capabilities.process_model_load
                        ==> (#[trigger] self.registered_plugins@[j]) == old(self).registered_plugins@[j],
            decreases n - i,
        {
            let ghost before = self.registered_plugins@;
            proof {
                lemma_after_loads::<P>(states, caps, world, i as nat);
                assert(caps[i as int] == before[i as int].capabilities);
                assert(states_of(before)[i as int] == before[i as int].plugin.state());
            }
            if self.registered_plugins[i].capabilities.process_model_load {
                assert(self.registered_plugins@[i as int].plugin.ready());
                self.registered_plugins[i].plugin.process_model_load(worldbody);
                proof {
                    let now = self.registered_plugins@;
                    assert(states_of(now) =~= states_of(before).update(
                        i as int,
                        now[i as int].plugin.state(),
                    ));
                    assert(capabilities_of(now) =~= capabilities_of(before));
                }
            }
            i += 1;
        }
    }
}

} // verus!
