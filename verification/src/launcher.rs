use crate::draw::{font_after, typeset_from, DrawOp, Font};
use crate::entity::{as_items, reaction, Entity, PlatformRequest};
use crate::render::script;
use crate::input::InputEvent;
use crate::launch::{config_text, prepare_config};
use crate::reducer::{Action, SaveState};
use crate::state::{Rom, Screen, State, StateView};
use crate::store::{Effect, Progress, Store, StoreAction, StoreView};
use crate::tree::{entities_of, keys_of, node_key, shown, EntityTree};
use id_tree::NodeId;
use vstd::prelude::*;

verus! {

/// The entities stored under those of `keys` that are keys of `nodes`, in the order of `keys`.
pub open spec fn present(nodes: Map<int, (Entity, Seq<int>)>, keys: Seq<int>) -> Seq<Entity>
    decreases keys.len(),
{
    if keys.len() == 0 {
        Seq::empty()
    } else {
        (if nodes.contains_key(keys[0]) {
            seq![nodes[keys[0]].0]
        } else {
            Seq::empty()
        }) + present(nodes, keys.drop_first())
    }
}

/// What the entities ask of the store in answer to `event`, one entity
/// after the other, all of them looking at the same state `s`.
pub open spec fn asked_actions(entities: Seq<Entity>, s: StateView, event: InputEvent) -> Seq<Action>
    decreases entities.len(),
{
    if entities.len() == 0 {
        Seq::empty()
    } else {
        reaction(entities[0], s, event).actions + asked_actions(entities.drop_first(), s, event)
    }
}

/// What the entities ask of the platform in answer to `event`.
pub open spec fn asked_platform(entities: Seq<Entity>, s: StateView, event: InputEvent) -> Seq<
    PlatformRequest,
>
    decreases entities.len(),
{
    if entities.len() == 0 {
        Seq::empty()
    } else {
        reaction(entities[0], s, event).platform + asked_platform(entities.drop_first(), s, event)
    }
}

/// What the entities draw in state `s`, one after the other, each
/// starting with the font as the one before left it.
pub open spec fn rendered(entities: Seq<Entity>, s: StateView, font: Font) -> Seq<DrawOp>
    decreases entities.len(),
{
    if entities.len() == 0 {
        Seq::empty()
    } else {
        typeset_from(font, script(entities[0], s), 0) + rendered(
            entities.drop_first(),
            s,
            font_after(font, script(entities[0], s), 0),
        )
    }
}

/// The font as the entities leave it after drawing in state `s`.
pub open spec fn font_rendered(entities: Seq<Entity>, s: StateView, font: Font) -> Font
    decreases entities.len(),
{
    if entities.len() == 0 {
        font
    } else {
        font_rendered(entities.drop_first(), s, font_after(font, script(entities[0], s), 0))
    }
}

/// The launcher without its window: the store and the tree of entities.
pub struct ROMLauncher {
    store: Store,
    tree: EntityTree,
}

impl ROMLauncher {
    /// The store as contracts see it.
    pub closed spec fn store(&self) -> StoreView {
        self.store@
    }

    pub closed spec fn tree(&self) -> EntityTree {
        self.tree
    }

    pub closed spec fn wf(&self) -> bool {
        self.store.wf()
    }

    /// A launcher with a fresh store. Where a snapshot is given, loading
    /// it is the first thing queued; an emulator step of zero follows, which
    /// lists the ROMs of the selected emulator. Nothing is processed yet.
    pub fn new(saved: Option<SaveState>) -> (r: ROMLauncher)
        ensures
            r.wf(),
            crate::store::is_initial(r.store().state),
            r.store().baseline is None,
            r.store().queue == (match saved {
                Some(save) => seq![
                    StoreAction::Simple(Action::Initialize(0, save)),
                    StoreAction::Simple(Action::NextEmulator { timestamp: 0, step: 0 }),
                ],
                None => seq![StoreAction::Simple(Action::NextEmulator { timestamp: 0, step: 0 })],
            }),
    {
        let mut store = Store::new();
        match saved {
            Some(save) => {
                store.dispatch(Action::Initialize(0, save));
            },
            None => {},
        }
        store.dispatch(Action::NextEmulator { timestamp: 0, step: 0 });
        let r = ROMLauncher { store, tree: EntityTree::new() };
        assert(r.store().queue =~= (match saved {
            Some(save) => seq![
                StoreAction::Simple(Action::Initialize(0, save)),
                StoreAction::Simple(Action::NextEmulator { timestamp: 0, step: 0 }),
            ],
            None => seq![StoreAction::Simple(Action::NextEmulator { timestamp: 0, step: 0 })],
        }));
        r
    }

    pub fn get_state(&self) -> (r: &State)
        requires
            self.wf(),
        ensures
            r@ == self.store().state,
            r@.wf(),
    {
        self.store.get_state()
    }

    pub fn dispatch(&mut self, action: Action)
        requires
            old(self).wf(),
        ensures
            final(self).wf(),
            final(self).tree() == old(self).tree(),
            final(self).store() == (StoreView {
                queue: old(self).store().queue.push(StoreAction::Simple(action)),
                ..old(self).store()
            }),
    {
        self.store.dispatch(action);
    }

    /// Answers a pending listing of ROMs.
    pub fn resolve(&mut self, roms: Result<Vec<Rom>, String>)
        requires
            old(self).wf(),
        ensures
            final(self).wf(),
            final(self).tree() == old(self).tree(),
            final(self).store() == (StoreView {
                queue: old(self).store().queue.push(
                    StoreAction::Simple(Action::LoadRoms { roms }),
                ),
                ..old(self).store()
            }),
    {
        self.store.resolve(roms);
    }

    /// Drains the store's queue until it is empty or outside work is pending.
    pub fn process(&mut self) -> (r: Progress)
        requires
            old(self).wf(),
        ensures
            final(self).wf(),
            final(self).tree() == old(self).tree(),
            final(self).store() == old(self).store().processed().0,
            r is Pending == old(self).store().processed().1 is Some,
            r matches Progress::Done { changed } ==> changed == old(self).store().processed().2
                && final(self).store().queue.len() == 0
                && final(self).store().state.selection_in_page(),
            r matches Progress::Pending(Effect::ListRoms { path, extensions, exclude }) ==> {
                let emulator = final(self).store().state.emulator();
                &&& path@ == emulator.path@
                &&& extensions@ == emulator.extensions@
                &&& exclude@ == emulator.exclude@
            },
    {
        self.store.process()
    }

    /// The nodes that render and receive events in the current state, in
    /// pre-order. One such list serves one iteration of the event loop,
    /// for rendering and for dispatching alike.
    pub fn collect_entities(&self) -> (r: Vec<NodeId>)
        requires
            self.wf(),
        ensures
            keys_of(r@) == self.tree().eligible(self.store().state),
            entities_of(self.tree().nodes(), keys_of(r@)) == shown(self.store().state),
            present(self.tree().nodes(), keys_of(r@)) == shown(self.store().state),
    {
        let r = self.tree.collect_entities(self.store.get_state());
        proof {
            lemma_present_all(self.tree.nodes(), keys_of(r@));
        }
        r
    }

    /// Lets each of the given nodes answer to `event`, in their order and
    /// all in view of the state as it is, then drains the store once.
    /// Handles that designate no node of the tree are passed over.
    pub fn apply_event(&mut self, event: &InputEvent, node_ids: &Vec<NodeId>) -> (r: (
        Vec<PlatformRequest>,
        Progress,
    ))
        requires
            old(self).wf(),
        ensures
            final(self).wf(),
            final(self).tree() == old(self).tree(),
            ({
                let entities = present(old(self).tree().nodes(), keys_of(node_ids@));
                let state = old(self).store().state;
                let queued = StoreView {
                    queue: old(self).store().queue + as_items(asked_actions(entities, state, *event)),
                    ..old(self).store()
                };
                &&& r.0@ == asked_platform(entities, state, *event)
                &&& final(self).store() == queued.processed().0
                &&& r.1 is Pending == queued.processed().1 is Some
                &&& r.1 matches Progress::Done { changed } ==> changed == queued.processed().2
            }),
            r.1 matches Progress::Done { changed } ==> final(self).store().queue.len() == 0
                && final(self).store().state.selection_in_page(),
            r.1 matches Progress::Pending(Effect::ListRoms { path, extensions, exclude }) ==> {
                let emulator = final(self).store().state.emulator();
                &&& path@ == emulator.path@
                &&& extensions@ == emulator.extensions@
                &&& exclude@ == emulator.exclude@
            },
    {
        let ghost nodes = self.tree.nodes();
        let ghost keys = keys_of(node_ids@);
        let ghost state = self.store@.state;
        let ghost before = self.store@;
        let mut platform: Vec<PlatformRequest> = Vec::new();
        let mut i: usize = 0;
        proof {
            assert(keys.subrange(0, keys.len() as int) =~= keys);
            assert(as_items(Seq::<Action>::empty()) =~= Seq::<StoreAction>::empty());
            assert(before.queue + Seq::<StoreAction>::empty() =~= before.queue);
        }
        let ghost mut asked: Seq<Action> = Seq::empty();
        while i < node_ids.len()
            invariant
                i <= node_ids@.len(),
                self.store.wf(),
                self.tree == old(self).tree,
                nodes == self.tree.nodes(),
                keys == keys_of(node_ids@),
                self.store@ == (StoreView { queue: before.queue + as_items(asked), ..before }),
                state == before.state,
                asked + asked_actions(
                    present(nodes, keys.subrange(i as int, keys.len() as int)),
                    state,
                    *event,
                ) == asked_actions(present(nodes, keys), state, *event),
                platform@ + asked_platform(
                    present(nodes, keys.subrange(i as int, keys.len() as int)),
                    state,
                    *event,
                ) == asked_platform(present(nodes, keys), state, *event),
            decreases node_ids@.len() - i,
        {
            let ghost todo = keys.subrange(i as int, keys.len() as int);
            let ghost later = keys.subrange(i + 1, keys.len() as int);
            proof {
                assert(todo.drop_first() =~= later);
                assert(todo[0] == node_key(node_ids@[i as int]));
            }
            match self.tree.entity(&node_ids[i]) {
                Some(entity) => {
                    let mut more = entity.apply_event(event, &mut self.store);
                    proof {
                        let mine = reaction(entity, state, *event);
                        let rest = present(nodes, later);
                        let here = present(nodes, todo);
                        assert(here =~= seq![entity] + rest);
                        assert(here.drop_first() =~= rest);
                        assert(as_items(asked + mine.actions) =~= as_items(asked) + as_items(
                            mine.actions,
                        ));
                        assert(before.queue + as_items(asked + mine.actions) =~= (before.queue
                            + as_items(asked)) + as_items(mine.actions));
                        assert((asked + mine.actions) + asked_actions(rest, state, *event) =~= asked
                            + (mine.actions + asked_actions(rest, state, *event)));
                        assert((platform@ + mine.platform) + asked_platform(rest, state, *event)
                            =~= platform@ + (mine.platform + asked_platform(rest, state, *event)));
                        asked = asked + mine.actions;
                    }
                    platform.append(&mut more);
                },
                None => {
                    proof {
                        assert(present(nodes, todo) =~= present(nodes, later));
                    }
                },
            }
            i += 1;
        }
        proof {
            assert(keys.subrange(keys.len() as int, keys.len() as int) =~= Seq::<int>::empty());
            assert(asked + Seq::<Action>::empty() =~= asked);
            assert(platform@ + Seq::<PlatformRequest>::empty() =~= platform@);
        }
        let progress = self.store.process();
        (platform, progress)
    }

    /// Lets each of the given nodes draw, in their order: later nodes draw
    /// over earlier ones. Handles that designate no node of the tree are
    /// passed over.
    pub fn render(&self, node_ids: &Vec<NodeId>, font: &mut Font) -> (r: Vec<DrawOp>)
        requires
            self.wf(),
        ensures
            r@ == rendered(
                present(self.tree().nodes(), keys_of(node_ids@)),
                self.store().state,
                *old(font),
            ),
            *final(font) == font_rendered(
                present(self.tree().nodes(), keys_of(node_ids@)),
                self.store().state,
                *old(font),
            ),
    {
        let state = self.store.get_state();
        let ghost nodes = self.tree.nodes();
        let ghost keys = keys_of(node_ids@);
        let ghost s = state@;
        let mut out: Vec<DrawOp> = Vec::new();
        let mut i: usize = 0;
        proof {
            assert(keys.subrange(0, keys.len() as int) =~= keys);
            assert(out@ + rendered(present(nodes, keys), s, *font) =~= rendered(
                present(nodes, keys),
                s,
                *font,
            ));
        }
        while i < node_ids.len()
            invariant
                i <= node_ids@.len(),
                nodes == self.tree.nodes(),
                keys == keys_of(node_ids@),
                s == state@,
                s.wf(),
                out@ + rendered(
                    present(nodes, keys.subrange(i as int, keys.len() as int)),
                    s,
                    *font,
                ) == rendered(present(nodes, keys), s, *old(font)),
                font_rendered(
                    present(nodes, keys.subrange(i as int, keys.len() as int)),
                    s,
                    *font,
                ) == font_rendered(present(nodes, keys), s, *old(font)),
            decreases node_ids@.len() - i,
        {
            let ghost todo = keys.subrange(i as int, keys.len() as int);
            let ghost later = keys.subrange(i + 1, keys.len() as int);
            proof {
                assert(todo.drop_first() =~= later);
                assert(todo[0] == node_key(node_ids@[i as int]));
            }
            match self.tree.entity(&node_ids[i]) {
                Some(entity) => {
                    let ghost before = out@;
                    let ghost start = *font;
                    let ops = entity.render(state);
                    let mut drawn = font.typeset(&ops);
                    proof {
                        let rest = present(nodes, later);
                        let here = present(nodes, todo);
                        assert(here =~= seq![entity] + rest);
                        assert(here.drop_first() =~= rest);
                        assert((before + drawn@) + rendered(rest, s, *font) =~= before + (drawn@
                            + rendered(rest, s, *font)));
                    }
                    out.append(&mut drawn);
                },
                None => {
                    proof {
                        assert(present(nodes, todo) =~= present(nodes, later));
                    }
                },
            }
            i += 1;
        }
        proof {
            assert(keys.subrange(keys.len() as int, keys.len() as int) =~= Seq::<int>::empty());
            assert(out@ + Seq::<DrawOp>::empty() =~= out@);
        }
        out
    }

    /// What is handed to the emulator once the event loop has ended.
    pub fn prepare_config(&self) -> (r: Option<(Vec<String>, String, String)>)
        requires
            self.wf(),
        ensures
            r is Some == (self.store().state.screen == Screen::GameLauncher
                && self.store().state.has_rom()),
            r matches Some((command, config, rom)) ==> {
                &&& command@ == self.store().state.emulator().command@
                &&& config@ == config_text(self.store().state)
                &&& rom@ == self.store().state.rom().path@
            },
    {
        prepare_config(self.store.get_state())
    }

    /// What is worth keeping of the state from this run to the next.
    pub fn dump(&self) -> (r: SaveState)
        requires
            self.wf(),
        ensures
            crate::store::is_dump_of(r, self.store().state),
    {
        self.store.dump()
    }
}

/// Where every key is the key of a node, no entity is passed over.
pub proof fn lemma_present_all(nodes: Map<int, (Entity, Seq<int>)>, keys: Seq<int>)
    requires
        forall|i: int| 0 <= i < keys.len() ==> nodes.contains_key(#[trigger] keys[i]),
    ensures
        present(nodes, keys) == entities_of(nodes, keys),
    decreases keys.len(),
{
    if keys.len() > 0 {
        lemma_present_all(nodes, keys.drop_first());
        assert(entities_of(nodes, keys) =~= seq![nodes[keys[0]].0] + entities_of(
            nodes,
            keys.drop_first(),
        ));
    } else {
        assert(entities_of(nodes, keys) =~= Seq::<Entity>::empty());
    }
}

} // verus!
