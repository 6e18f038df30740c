use crate::bindings::{HatState, JoystickEvent};
use crate::input::{
    confirms, direction, direction_of, is_confirm, is_lock_open, lock_open, lock_window, split_index,
    split_of, split_width, stroke, stroke_of, width_of, window_of, InputEvent, Stroke,
};
use crate::reducer::Action;
use crate::state::{Screen, State, StateView, PLAYER_SLOTS};
use crate::store::{Store, StoreAction, StoreView};
use vstd::prelude::*;

verus! {

/// A behaviour node of the launcher. Each kind decides from the state alone
/// whether it is active, and from state and event what it asks for.
#[derive(Clone, Copy, Debug, PartialEq, Eq, Structural)]
pub enum Entity {
    /// Quitting, and controllers coming and going.
    Root,
    /// The ROM list: rows, pages, emulators, launching.
    List,
    /// The launcher screen: players joining.
    GameLauncher,
    /// The menu of the player in one slot.
    PlayerMenu { player_index: usize },
    /// The capture session of the player in one slot.
    PlayerGrabInput { player_index: usize },
    /// The host's capture of the hotkey and menu-toggle buttons.
    PlayerGrabEmulatorButtons,
}

/// What an entity asks of the platform, which the store cannot do.
#[derive(Clone, Copy, Debug, PartialEq, Eq, Structural)]
pub enum PlatformRequest {
    /// End the event loop.
    Quit,
    /// Open the controller with device index `which`, and dispatch
    /// `AddJoystick` with `timestamp` and what the controller reports.
    OpenJoystick { which: u32, timestamp: u32 },
    /// Close the controller with instance handle `which`.
    CloseJoystick { which: i32 },
}

/// What an entity asks for in answer to one event.
#[derive(Debug)]
pub struct Reaction {
    /// Actions for the store, in the order in which they are to be dispatched.
    pub actions: Vec<Action>,
    /// Requests for the platform.
    pub platform: Vec<PlatformRequest>,
}

/// A reaction as contracts see it.
pub struct ReactionView {
    pub actions: Seq<Action>,
    pub platform: Seq<PlatformRequest>,
}

impl View for Reaction {
    type V = ReactionView;

    open spec fn view(&self) -> ReactionView {
        ReactionView { actions: self.actions@, platform: self.platform@ }
    }
}

pub open spec fn nothing() -> ReactionView {
    ReactionView { actions: Seq::empty(), platform: Seq::empty() }
}

pub open spec fn only(action: Action) -> ReactionView {
    ReactionView { actions: seq![action], platform: Seq::empty() }
}

/// Whether the entity is active in state `s`, its ancestors left aside.
pub open spec fn active(entity: Entity, s: StateView) -> bool {
    match entity {
        Entity::Root => true,
        Entity::List => s.screen == Screen::List,
        Entity::GameLauncher => s.screen == Screen::GameLauncher,
        Entity::PlayerMenu { player_index } => {
            &&& player_index < PLAYER_SLOTS
            &&& s.players[player_index as int] matches Some(p)
            &&& p.grab_input is None
            &&& p.grab_emulator_buttons is None
        },
        Entity::PlayerGrabInput { player_index } => {
            &&& player_index < PLAYER_SLOTS
            &&& s.players[player_index as int] matches Some(p)
            &&& p.grab_input is Some
        },
        Entity::PlayerGrabEmulatorButtons => s.host_grabs_buttons(),
    }
}

/// The stroke comes from the controller split of the player in slot `i`.
pub open spec fn targets(s: StateView, i: usize, which: i32, split: u32) -> bool {
    &&& i < PLAYER_SLOTS
    &&& s.players[i as int] matches Some(p)
    &&& p.joystick == which
    &&& p.joystick_split == split
}

pub open spec fn list_meaning(s: StateView, k: Stroke, split: u32, width: u32) -> ReactionView {
    let timestamp = k.timestamp;
    match direction_of(k.event) {
        Some(HatState::Down) => only(Action::NextRom { timestamp, step: 1 }),
        Some(HatState::Up) => only(Action::NextRom { timestamp, step: -1i32 }),
        Some(HatState::Right) => if s.rom_selected == -1 {
            only(Action::NextEmulator { timestamp, step: 1 })
        } else {
            only(Action::NextPage { timestamp, step: 1 })
        },
        Some(HatState::Left) => if s.rom_selected == -1 {
            only(Action::NextEmulator { timestamp, step: -1i32 })
        } else {
            only(Action::NextPage { timestamp, step: -1i32 })
        },
        None => if is_confirm(k.event, width) && s.rom_selected > -1 {
            only(Action::LaunchGame(timestamp, k.which, split))
        } else {
            nothing()
        },
    }
}

pub open spec fn menu_meaning(s: StateView, i: usize, k: Stroke, split: u32, width: u32) -> ReactionView {
    if !targets(s, i, k.which, split) {
        nothing()
    } else {
        match direction_of(k.event) {
            Some(HatState::Right) => only(Action::NextPlayerMenu(k.timestamp, k.which, split)),
            Some(HatState::Left) => only(Action::PrevPlayerMenu(k.timestamp, k.which, split)),
            Some(_) => nothing(),
            None => if is_confirm(k.event, width) {
                only(Action::GoPlayerMenu(k.timestamp, k.which, split))
            } else {
                nothing()
            },
        }
    }
}

/// The host's capture of the two emulator buttons: the first button is the
/// hotkey; a second, different button is the menu toggle and ends the event
/// loop, which launches the game; the hotkey pressed again calls everything off.
pub open spec fn buttons_meaning(s: StateView, k: Stroke, split: u32) -> ReactionView {
    if !targets(s, 0, k.which, split) || !(k.event is Button)
        || s.players[0].unwrap().grab_emulator_buttons is None {
        nothing()
    } else {
        match s.players[0].unwrap().grab_emulator_buttons.unwrap().0 {
            None => only(Action::BindEmulatorButton(k.timestamp, k.event)),
            Some(hotkey) => if hotkey == k.event {
                ReactionView { actions: seq![Action::Quit], platform: seq![PlatformRequest::Quit] }
            } else {
                ReactionView {
                    actions: seq![Action::BindEmulatorButton(k.timestamp, k.event)],
                    platform: seq![PlatformRequest::Quit],
                }
            },
        }
    }
}

/// What the entity asks for when stroke `k`, which belongs to split `split`
/// of a controller whose splits own `width` buttons, is accepted.
pub open spec fn meaning(entity: Entity, s: StateView, k: Stroke, split: u32, width: u32) -> ReactionView {
    match entity {
        Entity::Root => nothing(),
        Entity::List => list_meaning(s, k, split, width),
        Entity::GameLauncher => if is_confirm(k.event, width) && !s.seated(k.which, split) {
            only(Action::AddPlayer(k.timestamp, k.which, split))
        } else {
            nothing()
        },
        Entity::PlayerMenu { player_index } => menu_meaning(s, player_index, k, split, width),
        Entity::PlayerGrabInput { player_index } => if targets(s, player_index, k.which, split) {
            only(Action::BindPlayerJoystickEvent(k.timestamp, player_index, k.event))
        } else {
            nothing()
        },
        Entity::PlayerGrabEmulatorButtons => buttons_meaning(s, k, split),
    }
}

pub open spec fn root_reaction(event: InputEvent) -> ReactionView {
    match event {
        InputEvent::Quit => ReactionView {
            actions: seq![Action::Quit],
            platform: seq![PlatformRequest::Quit],
        },
        InputEvent::JoyDeviceAdded { which, timestamp } => ReactionView {
            actions: Seq::empty(),
            platform: seq![PlatformRequest::OpenJoystick { which, timestamp }],
        },
        InputEvent::JoyDeviceRemoved { which, timestamp } => ReactionView {
            actions: seq![Action::RemoveJoystick(timestamp, which)],
            platform: seq![PlatformRequest::CloseJoystick { which }],
        },
        _ => nothing(),
    }
}

/// What the entity asks for in answer to `event` in state `s`.
///
/// The root answers to quitting and to controllers coming and going. Every
/// other entity answers to strokes: where the stroke means something to it
/// and the lock of the controller split is open, it first moves the lock to
/// the stroke's timestamp and then asks for what the stroke means.
pub open spec fn reaction(entity: Entity, s: StateView, event: InputEvent) -> ReactionView {
    if entity is Root {
        root_reaction(event)
    } else {
        match stroke_of(event) {
            None => nothing(),
            Some(k) => {
                let width = width_of(s, k.which);
                match split_of(k.event, width) {
                    None => nothing(),
                    Some(split) => {
                        let m = meaning(entity, s, k, split, width);
                        if (m.actions.len() > 0 || m.platform.len() > 0) && lock_open(
                            s,
                            k.which,
                            split,
                            k.timestamp,
                            window_of(k.event),
                        ) {
                            ReactionView {
                                actions: seq![
                                    Action::UpdateJoystickLastAction(k.timestamp, k.which, split),
                                ] + m.actions,
                                platform: m.platform,
                            }
                        } else {
                            nothing()
                        }
                    },
                }
            },
        }
    }
}

/// While the lock of a controller split is closed, no entity but the root
/// answers to a stroke of that split.
pub proof fn lemma_closed_lock_silences(entity: Entity, s: StateView, event: InputEvent)
    requires
        !(entity is Root),
        stroke_of(event) is Some,
        split_of(stroke_of(event).unwrap().event, width_of(s, stroke_of(event).unwrap().which)) is Some,
        ({
            let k = stroke_of(event).unwrap();
            !lock_open(
                s,
                k.which,
                split_of(k.event, width_of(s, k.which)).unwrap(),
                k.timestamp,
                window_of(k.event),
            )
        }),
    ensures
        reaction(entity, s, event) == nothing(),
{
}

/// An entity that answers to a stroke first moves the lock of the
/// controller split to the timestamp of the stroke.
pub proof fn lemma_answer_moves_lock(entity: Entity, s: StateView, event: InputEvent)
    requires
        !(entity is Root),
        reaction(entity, s, event) != nothing(),
    ensures
        stroke_of(event) is Some,
        ({
            let k = stroke_of(event).unwrap();
            let split = split_of(k.event, width_of(s, k.which));
            &&& split is Some
            &&& lock_open(s, k.which, split.unwrap(), k.timestamp, window_of(k.event))
            &&& reaction(entity, s, event).actions.len() > 0
            &&& reaction(entity, s, event).actions[0] == Action::UpdateJoystickLastAction(
                k.timestamp,
                k.which,
                split.unwrap(),
            )
        }),
{
}

/// No action but `UpdateJoystickLastAction` moves a lock.
pub proof fn lemma_only_update_moves_locks(s: StateView, a: Action)
    requires
        !(a is UpdateJoystickLastAction),
    ensures
        crate::reducer::reduce_spec(s, a).last_joystick_action == s.last_joystick_action,
{
}

/// The actions as items of the store's queue.
pub open spec fn as_items(actions: Seq<Action>) -> Seq<StoreAction> {
    Seq::new(actions.len(), |i: int| StoreAction::Simple(actions[i]))
}

fn no_reaction() -> (r: Reaction)
    ensures
        r@ == nothing(),
{
    Reaction { actions: Vec::new(), platform: Vec::new() }
}

fn one_action(action: Action) -> (r: Reaction)
    ensures
        r@ == only(action),
{
    let mut actions: Vec<Action> = Vec::new();
    actions.push(action);
    let r = Reaction { actions, platform: Vec::new() };
    assert(r@.actions =~= seq![action]);
    r
}

fn action_and_quit(action: Action) -> (r: Reaction)
    ensures
        r@ == (ReactionView { actions: seq![action], platform: seq![PlatformRequest::Quit] }),
{
    let mut actions: Vec<Action> = Vec::new();
    actions.push(action);
    let mut platform: Vec<PlatformRequest> = Vec::new();
    platform.push(PlatformRequest::Quit);
    let r = Reaction { actions, platform };
    assert(r@.actions =~= seq![action]);
    assert(r@.platform =~= seq![PlatformRequest::Quit]);
    r
}

fn player_targeted(state: &State, i: usize, which: i32, split: u32) -> (r: bool)
    ensures
        r == targets(state@, i, which, split),
{
    if i < PLAYER_SLOTS {
        match &state.players[i] {
            Some(p) => p.joystick == which && p.joystick_split == split,
            None => false,
        }
    } else {
        false
    }
}

impl Entity {
    pub fn is_active(&self, state: &State) -> (r: bool)
        ensures
            r == active(*self, state@),
    {
        match self {
            Entity::Root => true,
            Entity::List => state.screen == Screen::List,
            Entity::GameLauncher => state.screen == Screen::GameLauncher,
            Entity::PlayerMenu { player_index } => {
                if *player_index < PLAYER_SLOTS {
                    match &state.players[*player_index] {
                        Some(p) => p.grab_input.is_none() && p.grab_emulator_buttons.is_none(),
                        None => false,
                    }
                } else {
                    false
                }
            },
            Entity::PlayerGrabInput { player_index } => {
                if *player_index < PLAYER_SLOTS {
                    match &state.players[*player_index] {
                        Some(p) => p.grab_input.is_some(),
                        None => false,
                    }
                } else {
                    false
                }
            },
            Entity::PlayerGrabEmulatorButtons => match &state.players[0] {
                Some(p) => p.grab_emulator_buttons.is_some(),
                None => false,
            },
        }
    }

    fn list_meaning(state: &State, k: Stroke, split: u32, width: u32) -> (r: Reaction)
        ensures
            r@ == list_meaning(state@, k, split, width),
    {
        let timestamp = k.timestamp;
        match direction(k.event) {
            Some(HatState::Down) => one_action(Action::NextRom { timestamp, step: 1 }),
            Some(HatState::Up) => one_action(Action::NextRom { timestamp, step: -1 }),
            Some(HatState::Right) => if state.rom_selected == -1 {
                one_action(Action::NextEmulator { timestamp, step: 1 })
            } else {
                one_action(Action::NextPage { timestamp, step: 1 })
            },
            Some(HatState::Left) => if state.rom_selected == -1 {
                one_action(Action::NextEmulator { timestamp, step: -1 })
            } else {
                one_action(Action::NextPage { timestamp, step: -1 })
            },
            None => if confirms(k.event, width) && state.rom_selected > -1 {
                one_action(Action::LaunchGame(timestamp, k.which, split))
            } else {
                no_reaction()
            },
        }
    }

    fn menu_meaning(state: &State, i: usize, k: Stroke, split: u32, width: u32) -> (r: Reaction)
        ensures
            r@ == menu_meaning(state@, i, k, split, width),
    {
        if !player_targeted(state, i, k.which, split) {
            return no_reaction();
        }
        match direction(k.event) {
            Some(HatState::Right) => one_action(Action::NextPlayerMenu(k.timestamp, k.which, split)),
            Some(HatState::Left) => one_action(Action::PrevPlayerMenu(k.timestamp, k.which, split)),
            Some(_) => no_reaction(),
            None => if confirms(k.event, width) {
                one_action(Action::GoPlayerMenu(k.timestamp, k.which, split))
            } else {
                no_reaction()
            },
        }
    }

    fn buttons_meaning(state: &State, k: Stroke, split: u32) -> (r: Reaction)
        ensures
            r@ == buttons_meaning(state@, k, split),
    {
        if !player_targeted(state, 0, k.which, split) {
            return no_reaction();
        }
        let is_button = match k.event {
            JoystickEvent::Button(_) => true,
            _ => false,
        };
        if !is_button {
            return no_reaction();
        }
        let grabbed = match &state.players[0] {
            Some(p) => p.grab_emulator_buttons,
            None => None,
        };
        match grabbed {
            None => no_reaction(),
            Some((None, _)) => one_action(Action::BindEmulatorButton(k.timestamp, k.event)),
            Some((Some(hotkey), _)) => if hotkey == k.event {
                action_and_quit(Action::Quit)
            } else {
                action_and_quit(Action::BindEmulatorButton(k.timestamp, k.event))
            },
        }
    }

    fn meaning(&self, state: &State, k: Stroke, split: u32, width: u32) -> (r: Reaction)
        ensures
            r@ == meaning(*self, state@, k, split, width),
    {
        match self {
            Entity::Root => no_reaction(),
            Entity::List => Self::list_meaning(state, k, split, width),
            Entity::GameLauncher => if confirms(k.event, width) && state.find_player(
                k.which,
                split,
            ).is_none() {
                one_action(Action::AddPlayer(k.timestamp, k.which, split))
            } else {
                no_reaction()
            },
            Entity::PlayerMenu { player_index } => Self::menu_meaning(
                state,
                *player_index,
                k,
                split,
                width,
            ),
            Entity::PlayerGrabInput { player_index } => if player_targeted(
                state,
                *player_index,
                k.which,
                split,
            ) {
                one_action(Action::BindPlayerJoystickEvent(k.timestamp, *player_index, k.event))
            } else {
                no_reaction()
            },
            Entity::PlayerGrabEmulatorButtons => Self::buttons_meaning(state, k, split),
        }
    }

    fn root_reaction(event: &InputEvent) -> (r: Reaction)
        ensures
            r@ == root_reaction(*event),
    {
        match event {
            InputEvent::Quit => action_and_quit(Action::Quit),
            InputEvent::JoyDeviceAdded { which, timestamp } => {
                let mut platform: Vec<PlatformRequest> = Vec::new();
                platform.push(PlatformRequest::OpenJoystick { which: *which, timestamp: *timestamp });
                let r = Reaction { actions: Vec::new(), platform };
                assert(r@.platform =~= root_reaction(*event).platform);
                r
            },
            InputEvent::JoyDeviceRemoved { which, timestamp } => {
                let mut actions: Vec<Action> = Vec::new();
                actions.push(Action::RemoveJoystick(*timestamp, *which));
                let mut platform: Vec<PlatformRequest> = Vec::new();
                platform.push(PlatformRequest::CloseJoystick { which: *which });
                let r = Reaction { actions, platform };
                assert(r@.actions =~= root_reaction(*event).actions);
                assert(r@.platform =~= root_reaction(*event).platform);
                r
            },
            _ => no_reaction(),
        }
    }

    /// What the entity asks for in answer to `event` in `state`.
    pub fn reaction(&self, state: &State, event: &InputEvent) -> (r: Reaction)
        ensures
            r@ == reaction(*self, state@, *event),
    {
        match self {
            Entity::Root => {
                return Self::root_reaction(event);
            },
            _ => {},
        }
        let k = match stroke(event) {
            Some(k) => k,
            None => {
                return no_reaction();
            },
        };
        let width = split_width(state, k.which);
        let split = match split_index(k.event, width) {
            Some(split) => split,
            None => {
                return no_reaction();
            },
        };
        let m = self.meaning(state, k, split, width);
        if (m.actions.len() > 0 || m.platform.len() > 0) && is_lock_open(
            state,
            k.which,
            split,
            k.timestamp,
            lock_window(k.event),
        ) {
            let mut actions: Vec<Action> = Vec::new();
            actions.push(Action::UpdateJoystickLastAction(k.timestamp, k.which, split));
            let mut rest = m.actions;
            let ghost asked = rest@;
            actions.append(&mut rest);
            assert(actions@ =~= seq![
                Action::UpdateJoystickLastAction(k.timestamp, k.which, split),
            ] + asked);
            Reaction { actions, platform: m.platform }
        } else {
            no_reaction()
        }
    }

    /// Lets the entity answer to `event`: what it asks of the store joins
    /// the store's queue, what it asks of the platform is handed back.
    pub fn apply_event(&self, event: &InputEvent, store: &mut Store) -> (r: Vec<PlatformRequest>)
        requires
            old(store).wf(),
        ensures
            final(store).wf(),
            final(store)@ == (StoreView {
                queue: old(store)@.queue + as_items(
                    reaction(*self, old(store)@.state, *event).actions,
                ),
                ..old(store)@
            }),
            r@ == reaction(*self, old(store)@.state, *event).platform,
    {
        let Reaction { actions, platform } = self.reaction(store.get_state(), event);
        let mut actions = actions;
        let ghost asked = actions@;
        let ghost before = store@;
        let mut done: Ghost<int> = Ghost(0);
        while actions.len() > 0
            invariant
                store.wf(),
                0 <= done@ <= asked.len(),
                actions@ == asked.subrange(done@, asked.len() as int),
                store@ == (StoreView {
                    queue: before.queue + as_items(asked.subrange(0, done@)),
                    ..before
                }),
            decreases actions@.len(),
        {
            let action = actions.remove(0);
            store.dispatch(action);
            proof {
                assert(action == asked[done@]);
                assert(before.queue + as_items(asked.subrange(0, done@ + 1)) =~= (before.queue
                    + as_items(asked.subrange(0, done@))).push(StoreAction::Simple(action)));
                assert(actions@ =~= asked.subrange(done@ + 1, asked.len() as int));
                done@ = done@ + 1;
            }
        }
        assert(asked.subrange(0, done@) =~= asked);
        platform
    }
}

} // verus!
