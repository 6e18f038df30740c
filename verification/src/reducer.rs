use crate::bindings::{JoystickConfig, JoystickEvent};
use crate::joystick::JoystickInfo;
use crate::state::{
    Emulator, GrabControl, Player, PlayerMenu, PlayerView, Rom, Screen, State, StateView,
    PAGE_SIZE, PLAYER_SLOTS, no_duplicate_binding, pages_for, player_views,
};
use vstd::prelude::*;

verus! {

/// What is kept from one run to the next.
#[derive(Debug)]
pub struct SaveState {
    pub emulator_selected: i32,
    pub emulators: Vec<Emulator>,
    pub console_configs: JoystickConfig,
    pub game_configs: JoystickConfig,
}

/// A copy of `emulators` with the same content.
pub fn clone_emulators(emulators: &Vec<Emulator>) -> (r: Vec<Emulator>)
    ensures
        crate::state::emulators_view(r@) == crate::state::emulators_view(emulators@),
{
    let mut r: Vec<Emulator> = Vec::new();
    let mut i: usize = 0;
    while i < emulators.len()
        invariant
            i <= emulators@.len(),
            r@.len() == i,
            forall|j: int| 0 <= j < i ==> r@[j]@ == emulators@[j]@,
        decreases emulators@.len() - i,
    {
        r.push(emulators[i].duplicate());
        i += 1;
    }
    assert(crate::state::emulators_view(r@) =~= crate::state::emulators_view(emulators@));
    r
}

impl Clone for SaveState {
    fn clone(&self) -> (r: Self)
        ensures
            r.emulator_selected == self.emulator_selected,
            crate::state::emulators_view(r.emulators@) == crate::state::emulators_view(
                self.emulators@,
            ),
            r.console_configs@ == self.console_configs@,
            r.game_configs@ == self.game_configs@,
    {
        SaveState {
            emulator_selected: self.emulator_selected,
            emulators: clone_emulators(&self.emulators),
            console_configs: self.console_configs.duplicate(),
            game_configs: self.game_configs.duplicate(),
        }
    }
}

/// All the actions that the reducer understands.
#[derive(Debug)]
pub enum Action {
    Initialize(u32, SaveState),
    LoadRoms { roms: Result<Vec<Rom>, String> },
    NextRom { timestamp: u32, step: i32 },
    NextPage { timestamp: u32, step: i32 },
    NextEmulator { timestamp: u32, step: i32 },
    AddJoystick(u32, JoystickInfo),
    RemoveJoystick(u32, i32),
    LaunchGame(u32, i32, u32),
    AddPlayer(u32, i32, u32),
    NextPlayerMenu(u32, i32, u32),
    PrevPlayerMenu(u32, i32, u32),
    GoPlayerMenu(u32, i32, u32),
    BindPlayerJoystickEvent(u32, usize, JoystickEvent),
    UpdateJoystickLastAction(u32, i32, u32),
    BindEmulatorButton(u32, JoystickEvent),
    Quit,
}

fn clone_roms(roms: &Vec<Rom>) -> (r: Vec<Rom>)
    ensures
        r@.len() == roms@.len(),
{
    let mut r: Vec<Rom> = Vec::new();
    let mut i: usize = 0;
    while i < roms.len()
        invariant
            i <= roms@.len(),
            r@.len() == i,
        decreases roms@.len() - i,
    {
        r.push(
            Rom {
                path: roms[i].path.clone(),
                name: roms[i].name.clone(),
                file_name: roms[i].file_name.clone(),
            },
        );
        i += 1;
    }
    r
}

impl Clone for Action {
    fn clone(&self) -> (r: Self)
        ensures
            !(self is Initialize) && !(self is LoadRoms) ==> r == *self,
    {
        match self {
            Action::Initialize(timestamp, save) => Action::Initialize(*timestamp, save.clone()),
            Action::LoadRoms { roms } => Action::LoadRoms {
                roms: match roms {
                    Ok(listing) => Ok(clone_roms(listing)),
                    Err(reason) => Err(reason.clone()),
                },
            },
            Action::NextRom { timestamp, step } => Action::NextRom {
                timestamp: *timestamp,
                step: *step,
            },
            Action::NextPage { timestamp, step } => Action::NextPage {
                timestamp: *timestamp,
                step: *step,
            },
            Action::NextEmulator { timestamp, step } => Action::NextEmulator {
                timestamp: *timestamp,
                step: *step,
            },
            Action::AddJoystick(timestamp, info) => Action::AddJoystick(*timestamp, *info),
            Action::RemoveJoystick(timestamp, joystick) => Action::RemoveJoystick(
                *timestamp,
                *joystick,
            ),
            Action::LaunchGame(timestamp, joystick, split) => Action::LaunchGame(
                *timestamp,
                *joystick,
                *split,
            ),
            Action::AddPlayer(timestamp, joystick, split) => Action::AddPlayer(
                *timestamp,
                *joystick,
                *split,
            ),
            Action::NextPlayerMenu(timestamp, joystick, split) => Action::NextPlayerMenu(
                *timestamp,
                *joystick,
                *split,
            ),
            Action::PrevPlayerMenu(timestamp, joystick, split) => Action::PrevPlayerMenu(
                *timestamp,
                *joystick,
                *split,
            ),
            Action::GoPlayerMenu(timestamp, joystick, split) => Action::GoPlayerMenu(
                *timestamp,
                *joystick,
                *split,
            ),
            Action::BindPlayerJoystickEvent(timestamp, i, event) => {
                Action::BindPlayerJoystickEvent(*timestamp, *i, *event)
            },
            Action::UpdateJoystickLastAction(timestamp, joystick, split) => {
                Action::UpdateJoystickLastAction(*timestamp, *joystick, *split)
            },
            Action::BindEmulatorButton(timestamp, event) => Action::BindEmulatorButton(
                *timestamp,
                *event,
            ),
            Action::Quit => Action::Quit,
        }
    }
}

/// `x` where it lies between `lo` and `hi`, else the nearer of the two.
pub open spec fn clamp(x: int, lo: int, hi: int) -> int {
    if x < lo {
        lo
    } else if x > hi {
        hi
    } else {
        x
    }
}

/// Ten empty slots.
pub open spec fn empty_slots() -> Seq<Option<PlayerView>> {
    Seq::new(PLAYER_SLOTS as nat, |i: int| None)
}

/// The slots once every player bound to controller `joystick` has left.
pub open spec fn without_joystick(players: Seq<Option<PlayerView>>, joystick: i32) -> Seq<
    Option<PlayerView>,
> {
    Seq::new(
        players.len(),
        |i: int|
            if players[i] matches Some(p) && p.joystick == joystick {
                None
            } else {
                players[i]
            },
    )
}

/// The menu entry to the right of `menu` for the player in slot `i`. From
/// `Controls` the way to `Ready` is barred while the player needs to set up
/// its controls, and for the host while another player is not ready.
pub open spec fn next_menu(s: StateView, i: int, menu: PlayerMenu) -> PlayerMenu {
    match menu {
        PlayerMenu::Ready => PlayerMenu::Leave,
        PlayerMenu::Controls => if s.player_needs_setup_controls(i) || (i == 0
            && !s.all_players_are_ready()) {
            PlayerMenu::Leave
        } else {
            PlayerMenu::Ready
        },
        PlayerMenu::ConsoleControls => PlayerMenu::GameControls,
        PlayerMenu::GameControls => if s.player_has_game_controls(i) {
            PlayerMenu::ClearConsoleControls
        } else {
            PlayerMenu::ControlsExit
        },
        PlayerMenu::ClearConsoleControls => PlayerMenu::ControlsExit,
        _ => menu,
    }
}

/// The menu entry to the left of `menu` for the player in slot `i`.
pub open spec fn prev_menu(s: StateView, i: int, menu: PlayerMenu) -> PlayerMenu {
    match menu {
        PlayerMenu::Leave => if s.player_needs_setup_controls(i) || (i == 0
            && !s.all_players_are_ready()) {
            PlayerMenu::Controls
        } else {
            PlayerMenu::Ready
        },
        PlayerMenu::Ready => PlayerMenu::Controls,
        PlayerMenu::GameControls => PlayerMenu::ConsoleControls,
        PlayerMenu::ClearConsoleControls => PlayerMenu::GameControls,
        PlayerMenu::ControlsExit => if s.player_has_game_controls(i) {
            PlayerMenu::ClearConsoleControls
        } else {
            PlayerMenu::GameControls
        },
        _ => menu,
    }
}

/// What a capture session appends for `event`: the event itself, or the
/// placeholder where the session holds the event already.
pub open spec fn captured(mapping: Seq<JoystickEvent>, event: JoystickEvent) -> JoystickEvent {
    if mapping.contains(event) {
        JoystickEvent::Unassigned
    } else {
        event
    }
}

/// `Initialize`: the snapshot replaces the selected emulator, the emulator
/// descriptors and both stores of mappings.
pub open spec fn initialize(s: StateView, timestamp: u32, save: SaveState) -> StateView {
    StateView {
        timestamp,
        emulator_selected: save.emulator_selected,
        emulators: save.emulators,
        console_configs: save.console_configs@,
        game_configs: save.game_configs@,
        ..s
    }
}

/// `LoadRoms`: the listing replaces the old one; the first page is shown
/// and no row is selected.
pub open spec fn load_roms(s: StateView, roms: Result<Vec<Rom>, String>) -> StateView {
    let rom_count = match roms {
        Ok(r) => r@.len() as int,
        Err(_) => 0,
    };
    StateView {
        page_count: pages_for(rom_count) as i32,
        page_index: 0,
        rom_selected: -1i32,
        rom_count: rom_count as i32,
        roms,
        ..s
    }
}

/// `NextRom`: the selected row moves by `step` and stays between none and
/// the last row of the page. Nothing changes while the listing failed.
pub open spec fn next_rom(s: StateView, timestamp: u32, step: i32) -> StateView {
    if s.roms is Err {
        s
    } else {
        StateView {
            timestamp,
            rom_selected: clamp(s.rom_selected + step, -1, s.rows_on_page() - 1) as i32,
            ..s
        }
    }
}

/// `NextPage`: the page index moves by `step` and stays among the pages.
/// Nothing changes while the listing failed.
pub open spec fn next_page(s: StateView, timestamp: u32, step: i32) -> StateView {
    if s.roms is Err {
        s
    } else {
        StateView {
            timestamp,
            page_index: clamp(s.page_index + step, 0, s.page_count - 1) as i32,
            ..s
        }
    }
}

/// `NextEmulator`: the selected emulator moves by `step`, wrapping around.
pub open spec fn next_emulator(s: StateView, timestamp: u32, step: i32) -> StateView {
    StateView {
        timestamp,
        emulator_selected: ((s.emulator_selected + step) % (s.emulators@.len() as int)) as i32,
        ..s
    }
}

/// `AddJoystick`: the controller is attached under its instance handle.
pub open spec fn add_joystick(s: StateView, timestamp: u32, info: JoystickInfo) -> StateView {
    StateView { timestamp, joysticks: s.joysticks.insert(info.instance_id, info), ..s }
}

/// `RemoveJoystick`: the controller is detached and its players leave;
/// where no player is left, the list screen comes back.
pub open spec fn remove_joystick(s: StateView, timestamp: u32, joystick: i32) -> StateView {
    let players = without_joystick(s.players, joystick);
    StateView {
        timestamp,
        joysticks: s.joysticks.remove(joystick),
        players,
        screen: if (forall|i: int| 0 <= i < players.len() ==> players[i] is None) {
            Screen::List
        } else {
            s.screen
        },
        ..s
    }
}

/// `LaunchGame`: the launcher screen opens with all slots empty.
pub open spec fn launch_game(s: StateView, timestamp: u32) -> StateView {
    StateView { timestamp, screen: Screen::GameLauncher, players: empty_slots(), ..s }
}

/// `AddPlayer`: the player takes the first free slot, in `Controls` where
/// it has no mapping yet and in `Ready` where it has one. Nothing changes
/// where no slot is free or the host captures the emulator buttons.
pub open spec fn add_player(s: StateView, timestamp: u32, joystick: i32, split: u32) -> StateView {
    if !s.has_free_slot() || s.host_grabs_buttons() {
        s
    } else {
        let player = PlayerView {
            joystick,
            joystick_split: split,
            menu: if s.joystick_needs_setup_controls(joystick, split) {
                PlayerMenu::Controls
            } else {
                PlayerMenu::Ready
            },
            grab_input: None,
            grab_emulator_buttons: None,
        };
        StateView { timestamp, players: s.players.update(s.first_free_slot(), Some(player)), ..s }
    }
}

/// `NextPlayerMenu`: the menu of the player moves one entry to the right.
pub open spec fn next_player_menu(s: StateView, timestamp: u32, joystick: i32, split: u32) -> StateView {
    let i = s.player_index(joystick, split);
    let p = s.players[i].unwrap();
    StateView {
        timestamp,
        players: s.players.update(i, Some(PlayerView { menu: next_menu(s, i, p.menu), ..p })),
        ..s
    }
}

/// `PrevPlayerMenu`: the menu of the player moves one entry to the left.
pub open spec fn prev_player_menu(s: StateView, timestamp: u32, joystick: i32, split: u32) -> StateView {
    let i = s.player_index(joystick, split);
    let p = s.players[i].unwrap();
    StateView {
        timestamp,
        players: s.players.update(i, Some(PlayerView { menu: prev_menu(s, i, p.menu), ..p })),
        ..s
    }
}

/// State `s` at time `timestamp` with player `q` in slot `i`.
pub open spec fn set_player(s: StateView, timestamp: u32, i: int, q: PlayerView) -> StateView {
    StateView { timestamp, players: s.players.update(i, Some(q)), ..s }
}

/// `GoPlayerMenu`: the player confirms the entry that its menu stands on.
pub open spec fn go_player_menu(s: StateView, timestamp: u32, joystick: i32, split: u32) -> StateView {
    if !s.seated(joystick, split) {
        StateView { timestamp, ..s }
    } else {
        let i = s.player_index(joystick, split);
        let p = s.players[i].unwrap();
        match p.menu {
            PlayerMenu::Ready => if i == 0 {
                set_player(
                    s,
                    timestamp,
                    i,
                    PlayerView { grab_emulator_buttons: Some((None, None)), ..p },
                )
            } else {
                set_player(s, timestamp, i, PlayerView { menu: PlayerMenu::Waiting, ..p })
            },
            PlayerMenu::Waiting => set_player(
                s,
                timestamp,
                i,
                PlayerView { menu: PlayerMenu::Ready, ..p },
            ),
            PlayerMenu::Controls => set_player(
                s,
                timestamp,
                i,
                PlayerView { menu: PlayerMenu::ConsoleControls, ..p },
            ),
            PlayerMenu::ControlsExit => set_player(
                s,
                timestamp,
                i,
                PlayerView { menu: PlayerMenu::Controls, ..p },
            ),
            PlayerMenu::Leave => if i == 0 {
                StateView { timestamp, screen: Screen::List, players: empty_slots(), ..s }
            } else {
                StateView { timestamp, players: s.players.update(i, None), ..s }
            },
            PlayerMenu::ConsoleControls => set_player(
                s,
                timestamp,
                i,
                PlayerView {
                    grab_input: Some((GrabControl::Console, Seq::<JoystickEvent>::empty())),
                    ..p
                },
            ),
            PlayerMenu::ClearConsoleControls => StateView {
                timestamp,
                players: s.players.update(
                    i,
                    Some(PlayerView { menu: PlayerMenu::ControlsExit, ..p }),
                ),
                game_configs: s.game_configs.remove(s.game_key(joystick, split)),
                ..s
            },
            PlayerMenu::GameControls => set_player(
                s,
                timestamp,
                i,
                PlayerView {
                    grab_input: Some((GrabControl::Game, Seq::<JoystickEvent>::empty())),
                    ..p
                },
            ),
        }
    }
}

/// `BindPlayerJoystickEvent`: the capture session of the player in slot
/// `i` takes one more event; once it has one per control it is committed
/// to the store that it was started for, and ends.
pub open spec fn bind_player_joystick_event(
    s: StateView,
    timestamp: u32,
    i: int,
    event: JoystickEvent,
) -> StateView {
    match s.players[i] {
        None => StateView { timestamp, ..s },
        Some(p) => {
            let (control, mapping) = p.grab_input.unwrap();
            if mapping.len() < s.controls_len() {
                let longer = mapping.push(captured(mapping, event));
                if longer.len() == s.controls_len() {
                    let players = s.players.update(i, Some(PlayerView { grab_input: None, ..p }));
                    match control {
                        GrabControl::Console => StateView {
                            timestamp,
                            players,
                            console_configs: s.console_configs.insert(
                                s.console_key(p.joystick, p.joystick_split),
                                longer,
                            ),
                            ..s
                        },
                        GrabControl::Game => StateView {
                            timestamp,
                            players,
                            game_configs: s.game_configs.insert(
                                s.game_key(p.joystick, p.joystick_split),
                                longer,
                            ),
                            ..s
                        },
                    }
                } else {
                    StateView {
                        timestamp,
                        players: s.players.update(
                            i,
                            Some(PlayerView { grab_input: Some((control, longer)), ..p }),
                        ),
                        ..s
                    }
                }
            } else {
                StateView {
                    timestamp,
                    players: s.players.update(i, Some(PlayerView { grab_input: None, ..p })),
                    ..s
                }
            }
        },
    }
}

/// `UpdateJoystickLastAction`: the lock of the controller split moves to `timestamp`.
pub open spec fn update_joystick_last_action(
    s: StateView,
    timestamp: u32,
    joystick: i32,
    split: u32,
) -> StateView {
    StateView {
        timestamp,
        last_joystick_action: s.last_joystick_action.insert((joystick, split), timestamp),
        ..s
    }
}

/// `BindEmulatorButton`: the host's capture takes the hotkey first and the
/// menu toggle second; with both taken, the host waits.
pub open spec fn bind_emulator_button(s: StateView, timestamp: u32, event: JoystickEvent) -> StateView {
    match s.players[0] {
        None => StateView { timestamp, ..s },
        Some(p) => {
            let (hotkey, menu) = p.grab_emulator_buttons.unwrap();
            let q = if hotkey is None {
                PlayerView { grab_emulator_buttons: Some((Some(event), menu)), ..p }
            } else if menu is None {
                PlayerView {
                    grab_emulator_buttons: Some((hotkey, Some(event))),
                    menu: PlayerMenu::Waiting,
                    ..p
                }
            } else {
                PlayerView { grab_emulator_buttons: None, ..p }
            };
            StateView { timestamp, players: s.players.update(0, Some(q)), ..s }
        },
    }
}

/// `Quit`: the list screen comes back and all players leave.
pub open spec fn quit(s: StateView) -> StateView {
    StateView { screen: Screen::List, players: empty_slots(), ..s }
}

/// Whether `a` can be applied in state `s`: the state holds what the
/// action refers to, and the emulators do not change under a capture session.
pub open spec fn applicable(s: StateView, a: Action) -> bool {
    match a {
        Action::Initialize(_, save) => {
            &&& 1 <= save.emulators@.len() <= i32::MAX
            &&& 0 <= save.emulator_selected < save.emulators@.len()
            &&& s.capture_free()
        },
        Action::NextEmulator { .. } => s.capture_free(),
        Action::LoadRoms { roms } => roms matches Ok(r) ==> r@.len() <= i32::MAX,
        Action::AddPlayer(_, joystick, split) => {
            &&& s.joysticks.contains_key(joystick)
            &&& s.has_rom()
            &&& !s.seated(joystick, split)
        },
        Action::NextPlayerMenu(_, joystick, split) => s.seated(joystick, split) && s.has_rom(),
        Action::PrevPlayerMenu(_, joystick, split) => s.seated(joystick, split) && s.has_rom(),
        Action::GoPlayerMenu(_, _, _) => s.has_rom(),
        Action::BindPlayerJoystickEvent(_, i, _) => {
            &&& i < PLAYER_SLOTS
            &&& s.has_rom()
            &&& s.players[i as int] matches Some(p) ==> p.grab_input is Some
        },
        Action::BindEmulatorButton(_, _) => s.players[0] matches Some(p)
            ==> p.grab_emulator_buttons is Some,
        _ => true,
    }
}

/// The state that follows `s` under `a`.
pub open spec fn reduce_spec(s: StateView, a: Action) -> StateView {
    match a {
        Action::Initialize(timestamp, save) => initialize(s, timestamp, save),
        Action::LoadRoms { roms } => load_roms(s, roms),
        Action::NextRom { timestamp, step } => next_rom(s, timestamp, step),
        Action::NextPage { timestamp, step } => next_page(s, timestamp, step),
        Action::NextEmulator { timestamp, step } => next_emulator(s, timestamp, step),
        Action::AddJoystick(timestamp, info) => add_joystick(s, timestamp, info),
        Action::RemoveJoystick(timestamp, joystick) => remove_joystick(s, timestamp, joystick),
        Action::LaunchGame(timestamp, _, _) => launch_game(s, timestamp),
        Action::AddPlayer(timestamp, joystick, split) => add_player(s, timestamp, joystick, split),
        Action::NextPlayerMenu(timestamp, joystick, split) => next_player_menu(
            s,
            timestamp,
            joystick,
            split,
        ),
        Action::PrevPlayerMenu(timestamp, joystick, split) => prev_player_menu(
            s,
            timestamp,
            joystick,
            split,
        ),
        Action::GoPlayerMenu(timestamp, joystick, split) => go_player_menu(
            s,
            timestamp,
            joystick,
            split,
        ),
        Action::BindPlayerJoystickEvent(timestamp, i, event) => bind_player_joystick_event(
            s,
            timestamp,
            i as int,
            event,
        ),
        Action::UpdateJoystickLastAction(timestamp, joystick, split) => update_joystick_last_action(
            s,
            timestamp,
            joystick,
            split,
        ),
        Action::BindEmulatorButton(timestamp, event) => bind_emulator_button(s, timestamp, event),
        Action::Quit => quit(s),
    }
}

proof fn lemma_wrap_negative(x: int, n: int)
    requires
        x < 0,
        n > 0,
    ensures
        x % n == (if (-x) % n == 0 {
            0
        } else {
            n - (-x) % n
        }),
{
    let q = (-x) / n;
    let back = (-x) % n;
    assert(-x == q * n + back) by (nonlinear_arith)
        requires
            q == (-x) / n,
            back == (-x) % n,
            n > 0,
    ;
    if back == 0 {
        assert(x == (-q) * n) by (nonlinear_arith)
            requires
                -x == q * n + back,
                back == 0,
        ;
        vstd::arithmetic::div_mod::lemma_fundamental_div_mod_converse(x, n, -q, 0);
    } else {
        assert(x == (-q - 1) * n + (n - back)) by (nonlinear_arith)
            requires
                -x == q * n + back,
        ;
        vstd::arithmetic::div_mod::lemma_fundamental_div_mod_converse(x, n, -q - 1, n - back);
    }
}

fn no_players() -> (r: [Option<Player>; 10])
    ensures
        crate::state::player_views(r@) == empty_slots(),
{
    let r: [Option<Player>; 10] = [None, None, None, None, None, None, None, None, None, None];
    assert(crate::state::player_views(r@) =~= empty_slots());
    r
}

fn reduce_initialize(state: State, timestamp: u32, save: SaveState) -> (r: State)
    ensures
        r@ == initialize(state@, timestamp, save),
{
    let mut state = state;
    state.timestamp = timestamp;
    state.emulator_selected = save.emulator_selected;
    state.emulators = save.emulators;
    state.console_configs = save.console_configs;
    state.game_configs = save.game_configs;
    state
}

fn reduce_load_roms(state: State, roms: Result<Vec<Rom>, String>) -> (r: State)
    requires
        roms matches Ok(listing) ==> listing@.len() <= i32::MAX,
    ensures
        r@ == load_roms(state@, roms),
{
    let mut state = state;
    let rom_count: i32 = match &roms {
        Ok(listing) => listing.len() as i32,
        Err(_) => 0,
    };
    state.page_count = if rom_count == 0 {
        1
    } else {
        (rom_count - 1) / PAGE_SIZE + 1
    };
    state.page_index = 0;
    state.rom_selected = -1;
    state.rom_count = rom_count;
    state.roms = roms;
    state
}

fn reduce_next_rom(state: State, timestamp: u32, step: i32) -> (r: State)
    requires
        state@.wf(),
    ensures
        r@ == next_rom(state@, timestamp, step),
{
    let mut state = state;
    if state.roms.is_err() {
        return state;
    }
    let max: i32 = if state.page_index < state.page_count - 1 {
        PAGE_SIZE
    } else if state.rom_count > 0 && state.rom_count % PAGE_SIZE == 0 {
        PAGE_SIZE
    } else {
        state.rom_count % PAGE_SIZE
    };
    assert(max == state@.rows_on_page());
    let target: i64 = state.rom_selected as i64 + step as i64;
    state.rom_selected = if target < -1 {
        -1
    } else if target >= max as i64 {
        max - 1
    } else {
        target as i32
    };
    state.timestamp = timestamp;
    state
}

fn reduce_next_page(state: State, timestamp: u32, step: i32) -> (r: State)
    requires
        state@.wf(),
    ensures
        r@ == next_page(state@, timestamp, step),
{
    let mut state = state;
    if state.roms.is_err() {
        return state;
    }
    let target: i64 = state.page_index as i64 + step as i64;
    state.page_index = if target < 0 {
        0
    } else if target > state.page_count as i64 - 1 {
        state.page_count - 1
    } else {
        target as i32
    };
    state.timestamp = timestamp;
    state
}

fn reduce_next_emulator(state: State, timestamp: u32, step: i32) -> (r: State)
    requires
        state@.wf(),
    ensures
        r@ == next_emulator(state@, timestamp, step),
{
    let mut state = state;
    let count: i64 = state.emulators.len() as i64;
    let target: i64 = state.emulator_selected as i64 + step as i64;
    let wrapped: i64 = if target >= 0 {
        target % count
    } else {
        let back: i64 = (-target) % count;
        proof {
            lemma_wrap_negative(target as int, count as int);
        }
        if back == 0 {
            0
        } else {
            count - back
        }
    };
    state.emulator_selected = wrapped as i32;
    state.timestamp = timestamp;
    state
}

fn reduce_add_joystick(state: State, timestamp: u32, info: JoystickInfo) -> (r: State)
    ensures
        r@ == add_joystick(state@, timestamp, info),
{
    let mut state = state;
    state.joysticks.insert(info.instance_id, info);
    state.timestamp = timestamp;
    state
}

fn reduce_launch_game(state: State, timestamp: u32) -> (r: State)
    ensures
        r@ == launch_game(state@, timestamp),
{
    let mut state = state;
    state.players = no_players();
    state.screen = Screen::GameLauncher;
    state.timestamp = timestamp;
    state
}

fn reduce_update_joystick_last_action(state: State, timestamp: u32, joystick: i32, split: u32) -> (r:
    State)
    ensures
        r@ == update_joystick_last_action(state@, timestamp, joystick, split),
{
    let mut state = state;
    state.last_joystick_action.insert((joystick, split), timestamp);
    state.timestamp = timestamp;
    state
}

/// Empties every slot bound to controller `joystick`; tells whether no player is left.
fn vacate(players: &mut [Option<Player>; 10], joystick: i32) -> (none_left: bool)
    ensures
        player_views(final(players)@) == without_joystick(player_views(old(players)@), joystick),
        none_left == (forall|i: int|
            0 <= i < 10 ==> (#[trigger] without_joystick(player_views(old(players)@), joystick)[i])
                is None),
{
    let ghost before = player_views(players@);
    let mut none_left = true;
    let mut i: usize = 0;
    while i < 10
        invariant
            i <= 10,
            before.len() == 10,
            forall|j: int| 0 <= j < i ==> player_views(players@)[j] == without_joystick(before, joystick)[j],
            forall|j: int| i <= j < 10 ==> player_views(players@)[j] == before[j],
            none_left == (forall|j: int|
                0 <= j < i ==> (#[trigger] without_joystick(before, joystick)[j]) is None),
        decreases 10 - i,
    {
        let bound = match &players[i] {
            Some(p) => p.joystick == joystick,
            None => false,
        };
        if bound {
            players[i] = None;
        }
        if players[i].is_some() {
            assert(without_joystick(before, joystick)[i as int] is Some);
            none_left = false;
        }
        i += 1;
    }
    assert(player_views(players@) =~= without_joystick(before, joystick));
    none_left
}

fn reduce_remove_joystick(state: State, timestamp: u32, joystick: i32) -> (r: State)
    ensures
        r@ == remove_joystick(state@, timestamp, joystick),
{
    let mut state = state;
    state.joysticks.remove(&joystick);
    let ghost before = state@;
    let none_left = vacate(&mut state.players, joystick);
    if none_left {
        state.screen = Screen::List;
    }
    state.timestamp = timestamp;
    proof {
        let players = without_joystick(before.players, joystick);
        assert(players.len() == 10);
        assert(none_left == (forall|i: int| 0 <= i < players.len() ==> players[i] is None));
    }
    state
}

fn reduce_add_player(state: State, timestamp: u32, joystick: i32, split: u32) -> (r: State)
    requires
        state@.wf(),
        applicable(state@, Action::AddPlayer(timestamp, joystick, split)),
    ensures
        r@ == add_player(state@, timestamp, joystick, split),
{
    let mut state = state;
    match state.free_slot() {
        None => state,
        Some(free) => {
            let host_grabs = match &state.players[0] {
                Some(p) => p.grab_emulator_buttons.is_some(),
                None => false,
            };
            if host_grabs {
                return state;
            }
            let needs_setup = state.joystick_needs_setup_controls(joystick, split);
            let ghost before = state@;
            state.players[free] = Some(
                Player {
                    joystick,
                    joystick_split: split,
                    menu: if needs_setup {
                        PlayerMenu::Controls
                    } else {
                        PlayerMenu::Ready
                    },
                    grab_input: None,
                    grab_emulator_buttons: None,
                },
            );
            state.timestamp = timestamp;
            assert(state@.players =~= add_player(before, timestamp, joystick, split).players);
            state
        },
    }
}

fn reduce_next_player_menu(state: State, timestamp: u32, joystick: i32, split: u32) -> (r: State)
    requires
        state@.wf(),
        applicable(state@, Action::NextPlayerMenu(timestamp, joystick, split)),
    ensures
        r@ == next_player_menu(state@, timestamp, joystick, split),
{
    let mut state = state;
    let ghost before = state@;
    let i = state.get_player_index(joystick, split);
    let needs_setup = state.player_needs_setup_controls(i);
    let has_game_controls = state.player_has_game_controls(i);
    let all_ready = state.all_players_are_ready();
    match &mut state.players[i] {
        Some(player) => {
            player.menu = match player.menu {
                PlayerMenu::Ready => PlayerMenu::Leave,
                PlayerMenu::Controls => if needs_setup || (i == 0 && !all_ready) {
                    PlayerMenu::Leave
                } else {
                    PlayerMenu::Ready
                },
                PlayerMenu::ConsoleControls => PlayerMenu::GameControls,
                PlayerMenu::GameControls => if has_game_controls {
                    PlayerMenu::ClearConsoleControls
                } else {
                    PlayerMenu::ControlsExit
                },
                PlayerMenu::ClearConsoleControls => PlayerMenu::ControlsExit,
                other => other,
            };
        },
        None => {},
    }
    state.timestamp = timestamp;
    assert(state@.players =~= next_player_menu(before, timestamp, joystick, split).players);
    state
}

fn reduce_prev_player_menu(state: State, timestamp: u32, joystick: i32, split: u32) -> (r: State)
    requires
        state@.wf(),
        applicable(state@, Action::PrevPlayerMenu(timestamp, joystick, split)),
    ensures
        r@ == prev_player_menu(state@, timestamp, joystick, split),
{
    let mut state = state;
    let ghost before = state@;
    let i = state.get_player_index(joystick, split);
    let needs_setup = state.player_needs_setup_controls(i);
    let has_game_controls = state.player_has_game_controls(i);
    let all_ready = state.all_players_are_ready();
    match &mut state.players[i] {
        Some(player) => {
            player.menu = match player.menu {
                PlayerMenu::Leave => if needs_setup || (i == 0 && !all_ready) {
                    PlayerMenu::Controls
                } else {
                    PlayerMenu::Ready
                },
                PlayerMenu::Ready => PlayerMenu::Controls,
                PlayerMenu::GameControls => PlayerMenu::ConsoleControls,
                PlayerMenu::ClearConsoleControls => PlayerMenu::GameControls,
                PlayerMenu::ControlsExit => if has_game_controls {
                    PlayerMenu::ClearConsoleControls
                } else {
                    PlayerMenu::GameControls
                },
                other => other,
            };
        },
        None => {},
    }
    state.timestamp = timestamp;
    assert(state@.players =~= prev_player_menu(before, timestamp, joystick, split).players);
    state
}

fn reduce_go_player_menu(state: State, timestamp: u32, joystick: i32, split: u32) -> (r: State)
    requires
        state@.wf(),
        applicable(state@, Action::GoPlayerMenu(timestamp, joystick, split)),
    ensures
        r@ == go_player_menu(state@, timestamp, joystick, split),
{
    let mut state = state;
    let ghost before = state@;
    let i = match state.find_player(joystick, split) {
        Some(i) => i,
        None => {
            state.timestamp = timestamp;
            return state;
        },
    };
    state.timestamp = timestamp;
    assert(before.players[i as int] is Some);
    let menu = match &state.players[i] {
        Some(player) => player.menu,
        None => PlayerMenu::Ready,
    };
    match menu {
        PlayerMenu::Leave => {
            if i == 0 {
                state.screen = Screen::List;
                state.players = no_players();
            } else {
                state.players[i] = None;
            }
        },
        PlayerMenu::ClearConsoleControls => {
            let rom = state.get_rom().file_name.clone();
            let guid = match state.joysticks.get(&joystick) {
                Some(info) => info.guid,
                None => vstd::pervasive::unreached(),
            };
            state.game_configs.remove(guid, split, rom);
            match &mut state.players[i] {
                Some(player) => {
                    player.menu = PlayerMenu::ControlsExit;
                },
                None => {},
            }
        },
        _ => {
            match &mut state.players[i] {
                Some(player) => {
                    match menu {
                        PlayerMenu::Ready => {
                            if i == 0 {
                                player.grab_emulator_buttons = Some((None, None));
                            } else {
                                player.menu = PlayerMenu::Waiting;
                            }
                        },
                        PlayerMenu::Waiting => {
                            player.menu = PlayerMenu::Ready;
                        },
                        PlayerMenu::Controls => {
                            player.menu = PlayerMenu::ConsoleControls;
                        },
                        PlayerMenu::ControlsExit => {
                            player.menu = PlayerMenu::Controls;
                        },
                        PlayerMenu::ConsoleControls => {
                            player.grab_input = Some((GrabControl::Console, Vec::new()));
                        },
                        PlayerMenu::GameControls => {
                            player.grab_input = Some((GrabControl::Game, Vec::new()));
                        },
                        _ => {},
                    }
                },
                None => {},
            }
        },
    }
    assert(state@.players =~= go_player_menu(before, timestamp, joystick, split).players);
    state
}

/// Whether `event` occurs in `mapping`.
pub fn holds_event(mapping: &Vec<JoystickEvent>, event: JoystickEvent) -> (r: bool)
    ensures
        r == mapping@.contains(event),
{
    let mut i: usize = 0;
    while i < mapping.len()
        invariant
            i <= mapping@.len(),
            forall|j: int| 0 <= j < i ==> mapping@[j] != event,
        decreases mapping@.len() - i,
    {
        if mapping[i] == event {
            return true;
        }
        i += 1;
    }
    false
}

fn reduce_bind_player_joystick_event(state: State, timestamp: u32, i: usize, event: JoystickEvent) -> (r:
    State)
    requires
        state@.wf(),
        applicable(state@, Action::BindPlayerJoystickEvent(timestamp, i, event)),
    ensures
        r@ == bind_player_joystick_event(state@, timestamp, i as int, event),
{
    let mut state = state;
    let ghost before = state@;
    state.timestamp = timestamp;
    let controls_len = state.get_controls().len();
    let (joystick, split) = match &state.players[i] {
        Some(player) => (player.joystick, player.joystick_split),
        None => {
            return state;
        },
    };
    assert(before.players[i as int] is Some);
    let guid = match state.joysticks.get(&joystick) {
        Some(info) => info.guid,
        None => vstd::pervasive::unreached(),
    };
    let mut taken: Option<(GrabControl, Vec<JoystickEvent>)> = None;
    match &mut state.players[i] {
        Some(player) => {
            std::mem::swap(&mut taken, &mut player.grab_input);
        },
        None => {},
    }
    match taken {
        Some((control, mapping)) => {
            let mut mapping = mapping;
            if mapping.len() < controls_len {
                if holds_event(&mapping, event) {
                    mapping.push(JoystickEvent::Unassigned);
                } else {
                    mapping.push(event);
                }
                if mapping.len() == controls_len {
                    match control {
                        GrabControl::Console => {
                            let emulator_id = state.get_emulator().id.clone();
                            state.console_configs.insert(guid, split, emulator_id, mapping);
                        },
                        GrabControl::Game => {
                            let rom = state.get_rom().file_name.clone();
                            state.game_configs.insert(guid, split, rom, mapping);
                        },
                    }
                } else {
                    match &mut state.players[i] {
                        Some(player) => {
                            player.grab_input = Some((control, mapping));
                        },
                        None => {},
                    }
                }
            }
        },
        None => {},
    }
    assert(state@.players =~= bind_player_joystick_event(before, timestamp, i as int, event).players);
    state
}

fn reduce_bind_emulator_button(state: State, timestamp: u32, event: JoystickEvent) -> (r: State)
    requires
        applicable(state@, Action::BindEmulatorButton(timestamp, event)),
    ensures
        r@ == bind_emulator_button(state@, timestamp, event),
{
    let mut state = state;
    let ghost before = state@;
    state.timestamp = timestamp;
    match &mut state.players[0] {
        Some(player) => {
            match player.grab_emulator_buttons {
                Some((hotkey, menu)) => {
                    if hotkey.is_none() {
                        player.grab_emulator_buttons = Some((Some(event), menu));
                    } else if menu.is_none() {
                        player.grab_emulator_buttons = Some((hotkey, Some(event)));
                        player.menu = PlayerMenu::Waiting;
                    } else {
                        player.grab_emulator_buttons = None;
                    }
                },
                None => {},
            }
        },
        None => {},
    }
    assert(state@.players =~= bind_emulator_button(before, timestamp, event).players);
    state
}

fn reduce_quit(state: State) -> (r: State)
    ensures
        r@ == quit(state@),
{
    let mut state = state;
    state.players = no_players();
    state.screen = Screen::List;
    state
}

/// Whether `action` can be applied in `state`.
pub fn is_applicable(state: &State, action: &Action) -> (r: bool)
    ensures
        r == applicable(state@, *action),
{
    match action {
        Action::Initialize(_, save) => {
            let count = save.emulators.len();
            1 <= count && count <= i32::MAX as usize && 0 <= save.emulator_selected
                && (save.emulator_selected as usize) < count && state.is_capture_free()
        },
        Action::NextEmulator { .. } => state.is_capture_free(),
        Action::LoadRoms { roms } => match roms {
            Ok(listing) => listing.len() <= i32::MAX as usize,
            Err(_) => true,
        },
        Action::AddPlayer(_, joystick, split) => {
            state.joysticks.contains_key(joystick) && state.has_selected_rom() && state.find_player(
                *joystick,
                *split,
            ).is_none()
        },
        Action::NextPlayerMenu(_, joystick, split) => {
            state.find_player(*joystick, *split).is_some() && state.has_selected_rom()
        },
        Action::PrevPlayerMenu(_, joystick, split) => {
            state.find_player(*joystick, *split).is_some() && state.has_selected_rom()
        },
        Action::GoPlayerMenu(_, _, _) => state.has_selected_rom(),
        Action::BindPlayerJoystickEvent(_, i, _) => {
            if *i < PLAYER_SLOTS && state.has_selected_rom() {
                match &state.players[*i] {
                    Some(player) => player.grab_input.is_some(),
                    None => true,
                }
            } else {
                false
            }
        },
        Action::BindEmulatorButton(_, _) => match &state.players[0] {
            Some(player) => player.grab_emulator_buttons.is_some(),
            None => true,
        },
        _ => true,
    }
}

proof fn lemma_free_slot_below(s: StateView, k: int)
    requires
        0 <= k < s.players.len(),
        s.players[k] is None,
    ensures
        exists|i: int| s.is_first_free(i),
    decreases k,
{
    if forall|j: int| 0 <= j < k ==> s.players[j] is Some {
        assert(s.is_first_free(k));
    } else {
        let j = choose|j: int| 0 <= j < k && !(s.players[j] is Some);
        lemma_free_slot_below(s, j);
    }
}

/// Where a slot is free, the first free slot is free and every slot before it is taken.
pub proof fn lemma_first_free_slot(s: StateView)
    requires
        s.has_free_slot(),
    ensures
        s.is_first_free(s.first_free_slot()),
{
    let k = choose|i: int| 0 <= i < s.players.len() && s.players[i] is None;
    lemma_free_slot_below(s, k);
}

proof fn lemma_wf_listing(s: StateView, a: Action)
    requires
        s.wf(),
        applicable(s, a),
        a is Initialize || a is NextRom || a is NextPage || a is NextEmulator || a is LoadRoms,
    ensures
        reduce_spec(s, a).wf(),
{
    match a {
        Action::NextEmulator { timestamp, step } => {
            let n = s.emulators@.len() as int;
            assert(0 <= (s.emulator_selected + step) % n < n) by (nonlinear_arith)
                requires
                    n > 0,
            ;
        },
        Action::LoadRoms { roms } => {
            let n = match roms {
                Ok(listing) => listing@.len() as int,
                Err(_) => 0,
            };
            assert(1 <= pages_for(n) <= n + 1);
        },
        _ => {},
    }
}

proof fn lemma_wf_add_player(s: StateView, timestamp: u32, joystick: i32, split: u32)
    requires
        s.wf(),
        applicable(s, Action::AddPlayer(timestamp, joystick, split)),
    ensures
        add_player(s, timestamp, joystick, split).wf(),
{
    let r = add_player(s, timestamp, joystick, split);
    if s.has_free_slot() && !s.host_grabs_buttons() {
        let free = s.first_free_slot();
        lemma_first_free_slot(s);
        assert forall|i: int| 0 <= i < 10 && #[trigger] r.players[i] is Some && i != free implies !(
        r.players[i].unwrap().joystick == joystick && r.players[i].unwrap().joystick_split
            == split) by {
            if r.players[i].unwrap().joystick == joystick && r.players[i].unwrap().joystick_split
                == split {
                assert(s.seated_at(i, joystick, split));
            }
        }
    }
}

proof fn lemma_wf_menu(s: StateView, a: Action)
    requires
        s.wf(),
        applicable(s, a),
        a is NextPlayerMenu || a is PrevPlayerMenu,
    ensures
        reduce_spec(s, a).wf(),
{
    match a {
        Action::NextPlayerMenu(timestamp, joystick, split) => {
            let i = s.player_index(joystick, split);
            assert(s.seated_at(i, joystick, split));
        },
        Action::PrevPlayerMenu(timestamp, joystick, split) => {
            let i = s.player_index(joystick, split);
            assert(s.seated_at(i, joystick, split));
        },
        _ => {},
    }
}

proof fn lemma_wf_go(s: StateView, timestamp: u32, joystick: i32, split: u32)
    requires
        s.wf(),
    ensures
        go_player_menu(s, timestamp, joystick, split).wf(),
{
    if s.seated(joystick, split) {
        let i = s.player_index(joystick, split);
        assert(s.seated_at(i, joystick, split));
        assert(no_duplicate_binding(Seq::<JoystickEvent>::empty()));
    }
}

proof fn lemma_wf_bind(s: StateView, timestamp: u32, i: usize, event: JoystickEvent)
    requires
        s.wf(),
        applicable(s, Action::BindPlayerJoystickEvent(timestamp, i, event)),
    ensures
        bind_player_joystick_event(s, timestamp, i as int, event).wf(),
{
    if s.players[i as int] is Some {
        let p = s.players[i as int].unwrap();
        let (control, mapping) = p.grab_input.unwrap();
        assert(no_duplicate_binding(mapping));
        lemma_capture_keeps_bindings_distinct(mapping, event);
    }
}

proof fn lemma_wf_slots(s: StateView, a: Action)
    requires
        s.wf(),
        applicable(s, a),
        a is AddJoystick || a is RemoveJoystick || a is LaunchGame || a is UpdateJoystickLastAction
            || a is BindEmulatorButton || a is Quit,
    ensures
        reduce_spec(s, a).wf(),
{
}

/// Applying an applicable action to a well-formed state gives a well-formed state.
pub proof fn lemma_reduce_preserves_wf(s: StateView, a: Action)
    requires
        s.wf(),
        applicable(s, a),
    ensures
        reduce_spec(s, a).wf(),
{
    match a {
        Action::AddPlayer(timestamp, joystick, split) => {
            lemma_wf_add_player(s, timestamp, joystick, split);
        },
        Action::NextPlayerMenu(..) | Action::PrevPlayerMenu(..) => {
            lemma_wf_menu(s, a);
        },
        Action::GoPlayerMenu(timestamp, joystick, split) => {
            lemma_wf_go(s, timestamp, joystick, split);
        },
        Action::BindPlayerJoystickEvent(timestamp, i, event) => {
            lemma_wf_bind(s, timestamp, i, event);
        },
        Action::Initialize(..) | Action::NextRom { .. } | Action::NextPage { .. }
        | Action::NextEmulator { .. } | Action::LoadRoms { .. } => {
            lemma_wf_listing(s, a);
        },
        _ => {
            lemma_wf_slots(s, a);
        },
    }
}

/// A capture session that has no duplicate binding has none after one more event.
pub proof fn lemma_capture_keeps_bindings_distinct(mapping: Seq<JoystickEvent>, event: JoystickEvent)
    requires
        no_duplicate_binding(mapping),
    ensures
        no_duplicate_binding(mapping.push(captured(mapping, event))),
{
    let longer = mapping.push(captured(mapping, event));
    assert forall|i: int, j: int| 0 <= i < j < longer.len() && longer[i] == longer[j] implies longer[i]
        == JoystickEvent::Unassigned by {
        if j == mapping.len() {
            assert(longer[i] == mapping[i]);
            if mapping.contains(event) {
            } else {
                assert(mapping[i] != event);
            }
        } else {
            assert(longer[i] == mapping[i] && longer[j] == mapping[j]);
        }
    }
}

/// A step of zero rows leaves the selected row where it is, in every state
/// whose selected row lies on the current page.
pub proof fn lemma_next_rom_zero_keeps_selection(s: StateView, timestamp: u32)
    requires
        s.wf(),
        s.selection_in_page(),
    ensures
        next_rom(s, timestamp, 0).rom_selected == s.rom_selected,
{
}

/// A step of zero rows, taken twice, gives what it gives when taken once.
pub proof fn lemma_next_rom_zero_idempotent(s: StateView, timestamp: u32)
    requires
        s.wf(),
    ensures
        next_rom(next_rom(s, timestamp, 0), timestamp, 0) == next_rom(s, timestamp, 0),
{
}

/// Stepping through rows leaves the selected row on the current page,
/// whatever the step and wherever the selection was.
pub proof fn lemma_next_rom_selects_in_page(s: StateView, timestamp: u32, step: i32)
    requires
        s.wf(),
    ensures
        next_rom(s, timestamp, step).selection_in_page(),
        0 <= next_rom(s, timestamp, step).page_index < next_rom(s, timestamp, step).page_count,
{
}

/// Stepping through pages or emulators leaves the page index among the pages.
pub proof fn lemma_navigation_keeps_page_in_range(s: StateView, a: Action)
    requires
        s.wf(),
        a is NextRom || a is NextPage || a is NextEmulator,
    ensures
        0 <= reduce_spec(s, a).page_index < reduce_spec(s, a).page_count,
        -1 <= reduce_spec(s, a).rom_selected < PAGE_SIZE,
{
    if applicable(s, a) {
        lemma_reduce_preserves_wf(s, a);
    }
}

/// A mapping is complete for state `s` when it has one entry per control of
/// the active emulator and no event but the placeholder twice.
pub open spec fn complete_mapping(s: StateView, mapping: Seq<JoystickEvent>) -> bool {
    mapping.len() == s.controls_len() && no_duplicate_binding(mapping)
}

/// Every mapping that an action other than `Initialize` stores is complete:
/// a capture session commits nothing shorter than the control list, and
/// nothing with a duplicate binding.
pub proof fn lemma_commits_are_complete(s: StateView, a: Action, k: crate::bindings::ConfigKey)
    requires
        s.wf(),
        applicable(s, a),
        !(a is Initialize),
    ensures
        ({
            let r = reduce_spec(s, a);
            &&& r.console_configs.contains_key(k) ==> (s.console_configs.contains_key(k)
                && s.console_configs[k] == r.console_configs[k]) || complete_mapping(
                s,
                r.console_configs[k],
            )
            &&& r.game_configs.contains_key(k) ==> (s.game_configs.contains_key(k)
                && s.game_configs[k] == r.game_configs[k]) || complete_mapping(
                s,
                r.game_configs[k],
            )
        }),
{
    match a {
        Action::BindPlayerJoystickEvent(timestamp, i, event) => {
            if s.players[i as int] is Some {
                let p = s.players[i as int].unwrap();
                let (control, mapping) = p.grab_input.unwrap();
                lemma_capture_keeps_bindings_distinct(mapping, event);
            }
        },
        Action::GoPlayerMenu(timestamp, joystick, split) => {},
        _ => {},
    }
}

/// A capture session with room left grows by exactly one entry per event,
/// and that entry is the placeholder exactly when the event was captured before.
pub proof fn lemma_capture_advances(s: StateView, timestamp: u32, i: usize, event: JoystickEvent)
    requires
        s.wf(),
        applicable(s, Action::BindPlayerJoystickEvent(timestamp, i, event)),
        s.players[i as int] is Some,
        s.players[i as int].unwrap().grab_input.unwrap().1.len() + 1 < s.controls_len(),
    ensures
        ({
            let mapping = s.players[i as int].unwrap().grab_input.unwrap().1;
            let r = bind_player_joystick_event(s, timestamp, i as int, event);
            &&& r.players[i as int].unwrap().grab_input is Some
            &&& r.players[i as int].unwrap().grab_input.unwrap().1 == mapping.push(
                captured(mapping, event),
            )
            &&& r.console_configs == s.console_configs
            &&& r.game_configs == s.game_configs
        }),
{
}

/// Detaching the controller to which every seated player is bound returns to the list.
pub proof fn lemma_last_controller_leaves_launcher(s: StateView, timestamp: u32, joystick: i32)
    requires
        s.wf(),
        forall|i: int|
            0 <= i < s.players.len() && s.players[i] is Some ==> (
            #[trigger] s.players[i]).unwrap().joystick == joystick,
    ensures
        remove_joystick(s, timestamp, joystick).screen == Screen::List,
        remove_joystick(s, timestamp, joystick).no_players(),
{
}

/// The reducer: the state that follows `state` under `action`.
pub fn reduce(state: State, action: Action) -> (r: State)
    requires
        state@.wf(),
        applicable(state@, action),
    ensures
        r@ == reduce_spec(state@, action),
        r@.wf(),
{
    proof {
        lemma_reduce_preserves_wf(state@, action);
    }
    match action {
        Action::Initialize(timestamp, save) => reduce_initialize(state, timestamp, save),
        Action::LoadRoms { roms } => reduce_load_roms(state, roms),
        Action::NextRom { timestamp, step } => reduce_next_rom(state, timestamp, step),
        Action::NextPage { timestamp, step } => reduce_next_page(state, timestamp, step),
        Action::NextEmulator { timestamp, step } => reduce_next_emulator(state, timestamp, step),
        Action::AddJoystick(timestamp, info) => reduce_add_joystick(state, timestamp, info),
        Action::RemoveJoystick(timestamp, joystick) => reduce_remove_joystick(
            state,
            timestamp,
            joystick,
        ),
        Action::LaunchGame(timestamp, _, _) => reduce_launch_game(state, timestamp),
        Action::AddPlayer(timestamp, joystick, split) => reduce_add_player(
            state,
            timestamp,
            joystick,
            split,
        ),
        Action::NextPlayerMenu(timestamp, joystick, split) => reduce_next_player_menu(
            state,
            timestamp,
            joystick,
            split,
        ),
        Action::PrevPlayerMenu(timestamp, joystick, split) => reduce_prev_player_menu(
            state,
            timestamp,
            joystick,
            split,
        ),
        Action::GoPlayerMenu(timestamp, joystick, split) => reduce_go_player_menu(
            state,
            timestamp,
            joystick,
            split,
        ),
        Action::BindPlayerJoystickEvent(timestamp, i, event) => reduce_bind_player_joystick_event(
            state,
            timestamp,
            i,
            event,
        ),
        Action::UpdateJoystickLastAction(timestamp, joystick, split) => {
            reduce_update_joystick_last_action(state, timestamp, joystick, split)
        },
        Action::BindEmulatorButton(timestamp, event) => reduce_bind_emulator_button(
            state,
            timestamp,
            event,
        ),
        Action::Quit => reduce_quit(state),
    }
}

} // verus!
