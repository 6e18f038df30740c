use crate::bindings::{ConfigKey, JoystickConfig, JoystickEvent};
use crate::joystick::JoystickInfo;
use crate::vec_map::VecMap;
use vstd::prelude::*;

verus! {

/// Number of ROM rows on a full page.
pub const PAGE_SIZE: i32 = 15;

/// Number of player slots.
pub const PLAYER_SLOTS: usize = 10;

#[derive(Clone, Copy, Debug, PartialEq, Eq, Structural)]
pub enum Screen {
    List,
    GameLauncher,
}

#[derive(Clone, Debug)]
pub struct Emulator {
    pub id: String,
    pub name: String,
    pub path: String,
    /// Pairs of configuration key and display label, one per control, in capture order.
    pub controls: Vec<(String, String)>,
    pub command: Vec<String>,
    pub extensions: Vec<String>,
    pub exclude: Vec<String>,
}

/// An emulator descriptor as contracts see it.
pub struct EmulatorView {
    pub id: Seq<char>,
    pub name: Seq<char>,
    pub path: Seq<char>,
    pub controls: Seq<(Seq<char>, Seq<char>)>,
    pub command: Seq<Seq<char>>,
    pub extensions: Seq<Seq<char>>,
    pub exclude: Seq<Seq<char>>,
}

pub open spec fn strings_view(v: Seq<String>) -> Seq<Seq<char>> {
    Seq::new(v.len(), |i: int| v[i]@)
}

pub open spec fn pairs_view(v: Seq<(String, String)>) -> Seq<(Seq<char>, Seq<char>)> {
    Seq::new(v.len(), |i: int| (v[i].0@, v[i].1@))
}

pub open spec fn emulators_view(v: Seq<Emulator>) -> Seq<EmulatorView> {
    Seq::new(v.len(), |i: int| v[i]@)
}

impl View for Emulator {
    type V = EmulatorView;

    open spec fn view(&self) -> EmulatorView {
        EmulatorView {
            id: self.id@,
            name: self.name@,
            path: self.path@,
            controls: pairs_view(self.controls@),
            command: strings_view(self.command@),
            extensions: strings_view(self.extensions@),
            exclude: strings_view(self.exclude@),
        }
    }
}

/// A copy of `v` with the same strings.
pub fn clone_strings(v: &Vec<String>) -> (r: Vec<String>)
    ensures
        r@ == v@,
{
    let mut r: Vec<String> = Vec::new();
    let mut i: usize = 0;
    while i < v.len()
        invariant
            i <= v@.len(),
            r@ == v@.subrange(0, i as int),
        decreases v@.len() - i,
    {
        r.push(v[i].clone());
        assert(r@ =~= v@.subrange(0, i + 1));
        i += 1;
    }
    assert(r@ =~= v@);
    r
}

impl Emulator {
    /// A copy with the same content.
    pub fn duplicate(&self) -> (r: Emulator)
        ensures
            r@ == self@,
    {
        let mut controls: Vec<(String, String)> = Vec::new();
        let mut i: usize = 0;
        while i < self.controls.len()
            invariant
                i <= self.controls@.len(),
                controls@ == self.controls@.subrange(0, i as int),
            decreases self.controls@.len() - i,
        {
            controls.push((self.controls[i].0.clone(), self.controls[i].1.clone()));
            assert(controls@ =~= self.controls@.subrange(0, i + 1));
            i += 1;
        }
        assert(controls@ =~= self.controls@);
        Emulator {
            id: self.id.clone(),
            name: self.name.clone(),
            path: self.path.clone(),
            controls,
            command: clone_strings(&self.command),
            extensions: clone_strings(&self.extensions),
            exclude: clone_strings(&self.exclude),
        }
    }
}

#[derive(Clone, Debug)]
pub struct Rom {
    pub path: String,
    pub name: String,
    pub file_name: String,
}

#[derive(Clone, Copy, Debug, PartialEq, Eq, Structural)]
pub enum PlayerMenu {
    Controls,
    Ready,
    Leave,
    Waiting,
    ConsoleControls,
    GameControls,
    ClearConsoleControls,
    ControlsExit,
}

/// Which store a capture session commits to.
#[derive(Clone, Copy, Debug, PartialEq, Eq, Structural)]
pub enum GrabControl {
    Console,
    Game,
}

#[derive(Clone, Debug)]
pub struct Player {
    pub joystick: i32,
    pub joystick_split: u32,
    pub menu: PlayerMenu,
    pub grab_input: Option<(GrabControl, Vec<JoystickEvent>)>,
    pub grab_emulator_buttons: Option<(Option<JoystickEvent>, Option<JoystickEvent>)>,
}

/// A player slot as contracts see it.
pub struct PlayerView {
    pub joystick: i32,
    pub joystick_split: u32,
    pub menu: PlayerMenu,
    pub grab_input: Option<(GrabControl, Seq<JoystickEvent>)>,
    pub grab_emulator_buttons: Option<(Option<JoystickEvent>, Option<JoystickEvent>)>,
}

impl View for Player {
    type V = PlayerView;

    open spec fn view(&self) -> PlayerView {
        PlayerView {
            joystick: self.joystick,
            joystick_split: self.joystick_split,
            menu: self.menu,
            grab_input: match self.grab_input {
                Some((control, mapping)) => Some((control, mapping@)),
                None => None,
            },
            grab_emulator_buttons: self.grab_emulator_buttons,
        }
    }
}

/// The state of the application.
#[derive(Debug)]
pub struct State {
    pub timestamp: u32,
    pub screen: Screen,
    pub page_index: i32,
    pub page_count: i32,
    pub emulator_selected: i32,
    pub emulators: Vec<Emulator>,
    pub roms: Result<Vec<Rom>, String>,
    pub rom_selected: i32,
    pub rom_count: i32,
    pub joysticks: VecMap<i32, JoystickInfo>,
    pub last_joystick_action: VecMap<(i32, u32), u32>,
    pub players: [Option<Player>; 10],
    pub console_configs: JoystickConfig,
    pub game_configs: JoystickConfig,
}

/// The state as contracts see it: maps and sequences in place of containers.
pub struct StateView {
    pub timestamp: u32,
    pub screen: Screen,
    pub page_index: i32,
    pub page_count: i32,
    pub emulator_selected: i32,
    pub emulators: Vec<Emulator>,
    pub roms: Result<Vec<Rom>, String>,
    pub rom_selected: i32,
    pub rom_count: i32,
    pub joysticks: Map<i32, JoystickInfo>,
    pub last_joystick_action: Map<(i32, u32), u32>,
    pub players: Seq<Option<PlayerView>>,
    pub console_configs: Map<ConfigKey, Seq<JoystickEvent>>,
    pub game_configs: Map<ConfigKey, Seq<JoystickEvent>>,
}

pub open spec fn player_views(players: Seq<Option<Player>>) -> Seq<Option<PlayerView>> {
    Seq::new(
        players.len(),
        |i: int|
            match players[i] {
                Some(p) => Some(p@),
                None => None,
            },
    )
}

impl View for State {
    type V = StateView;

    open spec fn view(&self) -> StateView {
        StateView {
            timestamp: self.timestamp,
            screen: self.screen,
            page_index: self.page_index,
            page_count: self.page_count,
            emulator_selected: self.emulator_selected,
            emulators: self.emulators,
            roms: self.roms,
            rom_selected: self.rom_selected,
            rom_count: self.rom_count,
            joysticks: self.joysticks@,
            last_joystick_action: self.last_joystick_action@,
            players: player_views(self.players@),
            console_configs: self.console_configs@,
            game_configs: self.game_configs@,
        }
    }
}

/// Number of pages that `rom_count` ROMs fill; an empty listing still has one page.
pub open spec fn pages_for(rom_count: int) -> int {
    if rom_count <= 0 {
        1
    } else {
        (rom_count - 1) / (PAGE_SIZE as int) + 1
    }
}

/// No event other than `Unassigned` occurs twice in `mapping`.
pub open spec fn no_duplicate_binding(mapping: Seq<JoystickEvent>) -> bool {
    forall|i: int, j: int|
        0 <= i < j < mapping.len() && mapping[i] == mapping[j] ==> mapping[i]
            == JoystickEvent::Unassigned
}

impl StateView {
    /// Number of ROMs in the listing; a failed listing counts as empty.
    pub open spec fn listed(&self) -> int {
        match self.roms {
            Ok(roms) => roms@.len() as int,
            Err(_) => 0,
        }
    }

    /// Number of rows on the current page: what is left of the listing
    /// from the start of the page on, up to a full page.
    pub open spec fn rows_on_page(&self) -> int {
        let left = self.rom_count - self.page_index * PAGE_SIZE;
        if left >= PAGE_SIZE {
            PAGE_SIZE as int
        } else if left < 0 {
            0
        } else {
            left
        }
    }

    /// The selected row is none (-1) or a row of the current page.
    pub open spec fn selection_in_page(&self) -> bool {
        -1 <= self.rom_selected <= self.rows_on_page() - 1
    }

    /// Position in the listing of the selected ROM.
    pub open spec fn rom_index(&self) -> int {
        self.page_index as int * (PAGE_SIZE as int) + self.rom_selected as int
    }

    /// A ROM of the listing is selected.
    pub open spec fn has_rom(&self) -> bool {
        &&& self.roms is Ok
        &&& 0 <= self.rom_selected
        &&& 0 <= self.rom_index() < self.roms->Ok_0@.len()
    }

    pub open spec fn rom(&self) -> Rom {
        self.roms->Ok_0@[self.rom_index()]
    }

    pub open spec fn emulator(&self) -> Emulator {
        self.emulators@[self.emulator_selected as int]
    }

    pub open spec fn controls_len(&self) -> int {
        self.emulator().controls@.len() as int
    }

    /// Slot `i` holds a player bound to the controller and split.
    pub open spec fn seated_at(&self, i: int, joystick: i32, split: u32) -> bool {
        &&& 0 <= i < self.players.len()
        &&& self.players[i] matches Some(p)
        &&& p.joystick == joystick
        &&& p.joystick_split == split
    }

    pub open spec fn seated(&self, joystick: i32, split: u32) -> bool {
        exists|i: int| self.seated_at(i, joystick, split)
    }

    /// The first slot that holds a player bound to the controller and split.
    pub open spec fn player_index(&self, joystick: i32, split: u32) -> int {
        choose|i: int|
            self.seated_at(i, joystick, split) && forall|j: int|
                0 <= j < i ==> !self.seated_at(j, joystick, split)
    }

    pub open spec fn console_key(&self, joystick: i32, split: u32) -> ConfigKey {
        (self.joysticks[joystick].guid@, split, self.emulator().id@)
    }

    pub open spec fn game_key(&self, joystick: i32, split: u32) -> ConfigKey {
        (self.joysticks[joystick].guid@, split, self.rom().file_name@)
    }

    /// Neither a game-level nor a console-level mapping is stored for the controller and split.
    pub open spec fn joystick_needs_setup_controls(&self, joystick: i32, split: u32) -> bool {
        &&& !self.console_configs.contains_key(self.console_key(joystick, split))
        &&& !self.game_configs.contains_key(self.game_key(joystick, split))
    }

    pub open spec fn joystick_has_game_controls(&self, joystick: i32, split: u32) -> bool {
        self.game_configs.contains_key(self.game_key(joystick, split))
    }

    pub open spec fn player_needs_setup_controls(&self, i: int) -> bool {
        match self.players[i] {
            Some(p) => self.joystick_needs_setup_controls(p.joystick, p.joystick_split),
            None => false,
        }
    }

    pub open spec fn player_has_game_controls(&self, i: int) -> bool {
        match self.players[i] {
            Some(p) => self.joystick_has_game_controls(p.joystick, p.joystick_split),
            None => false,
        }
    }

    /// The player in slot `i`, if there is one, waits and has its controls set up.
    pub open spec fn slot_ready(&self, i: int) -> bool {
        match self.players[i] {
            Some(p) => p.menu == PlayerMenu::Waiting && !self.player_needs_setup_controls(i),
            None => true,
        }
    }

    /// Every player but the host is ready.
    pub open spec fn all_players_are_ready(&self) -> bool {
        forall|i: int| 1 <= i < self.players.len() ==> self.slot_ready(i)
    }

    pub open spec fn no_players(&self) -> bool {
        forall|i: int| 0 <= i < self.players.len() ==> self.players[i] is None
    }

    /// The host is capturing the hotkey and menu-toggle buttons.
    pub open spec fn host_grabs_buttons(&self) -> bool {
        self.players[0] matches Some(p) && p.grab_emulator_buttons is Some
    }

    pub open spec fn is_first_free(&self, i: int) -> bool {
        &&& 0 <= i < self.players.len()
        &&& self.players[i] is None
        &&& forall|j: int| 0 <= j < i ==> self.players[j] is Some
    }

    pub open spec fn first_free_slot(&self) -> int {
        choose|i: int| self.is_first_free(i)
    }

    pub open spec fn has_free_slot(&self) -> bool {
        exists|i: int| 0 <= i < self.players.len() && self.players[i] is None
    }

    /// No player is in a capture session.
    pub open spec fn capture_free(&self) -> bool {
        forall|i: int|
            0 <= i < self.players.len() && self.players[i] is Some ==> (
            #[trigger] self.players[i]).unwrap().grab_input is None
    }

    /// What holds of every state that the store ever reaches.
    pub open spec fn wf(&self) -> bool {
        &&& 1 <= self.emulators@.len() <= i32::MAX
        &&& 0 <= self.emulator_selected < self.emulators@.len()
        &&& self.rom_count == self.listed()
        &&& self.page_count == pages_for(self.rom_count as int)
        &&& 0 <= self.page_index < self.page_count
        &&& -1 <= self.rom_selected < PAGE_SIZE
        &&& self.roms is Err ==> self.rom_selected == -1
        &&& self.players.len() == PLAYER_SLOTS
        &&& forall|i: int|
            0 <= i < self.players.len() && self.players[i] is Some
                ==> self.joysticks.contains_key((#[trigger] self.players[i]).unwrap().joystick)
        &&& forall|i: int, j: int|
            0 <= i < self.players.len() && 0 <= j < self.players.len() && self.players[i] is Some
                && self.players[j] is Some && (#[trigger] self.players[i]).unwrap().joystick == (
            #[trigger] self.players[j]).unwrap().joystick && self.players[i].unwrap().joystick_split
                == self.players[j].unwrap().joystick_split ==> i == j
        &&& forall|i: int|
            0 <= i < self.players.len() && self.players[i] is Some && (
            #[trigger] self.players[i]).unwrap().grab_input is Some ==> no_duplicate_binding(
                self.players[i].unwrap().grab_input.unwrap().1,
            ) && self.players[i].unwrap().grab_input.unwrap().1.len() <= self.controls_len()
    }
}

impl State {
    pub fn get_emulator(&self) -> (r: &Emulator)
        requires
            0 <= self.emulator_selected < self.emulators@.len(),
        ensures
            *r == self@.emulator(),
    {
        &self.emulators[self.emulator_selected as usize]
    }

    pub fn get_controls(&self) -> (r: &Vec<(String, String)>)
        requires
            0 <= self.emulator_selected < self.emulators@.len(),
        ensures
            *r == self@.emulator().controls,
    {
        &self.get_emulator().controls
    }

    /// The first slot that holds a player bound to the controller and split, if any does.
    pub fn find_player(&self, joystick_id: i32, split: u32) -> (r: Option<usize>)
        ensures
            r is Some == self@.seated(joystick_id, split),
            r is Some ==> r.unwrap() == self@.player_index(joystick_id, split),
            r is Some ==> self@.seated_at(r.unwrap() as int, joystick_id, split),
    {
        let mut i: usize = 0;
        while i < 10
            invariant
                i <= 10,
                forall|j: int| 0 <= j < i ==> !self@.seated_at(j, joystick_id, split),
            decreases 10 - i,
        {
            let hit = match &self.players[i] {
                Some(p) => p.joystick == joystick_id && p.joystick_split == split,
                None => false,
            };
            if hit {
                assert(self@.seated_at(i as int, joystick_id, split));
                return Some(i);
            }
            i += 1;
        }
        None
    }

    pub fn get_player_index(&self, joystick_id: i32, split: u32) -> (r: usize)
        requires
            self@.seated(joystick_id, split),
        ensures
            r == self@.player_index(joystick_id, split),
            self@.seated_at(r as int, joystick_id, split),
    {
        match self.find_player(joystick_id, split) {
            Some(i) => i,
            None => 0,
        }
    }

    /// Whether no player is in a capture session.
    pub fn is_capture_free(&self) -> (r: bool)
        ensures
            r == self@.capture_free(),
    {
        let mut i: usize = 0;
        while i < 10
            invariant
                i <= 10,
                forall|j: int|
                    0 <= j < i && self@.players[j] is Some ==> (
                    #[trigger] self@.players[j]).unwrap().grab_input is None,
            decreases 10 - i,
        {
            let capturing = match &self.players[i] {
                Some(player) => player.grab_input.is_some(),
                None => false,
            };
            if capturing {
                assert(self@.players[i as int].unwrap().grab_input is Some);
                return false;
            }
            i += 1;
        }
        true
    }

    /// The lowest empty slot, if there is one.
    pub fn free_slot(&self) -> (r: Option<usize>)
        ensures
            r is Some == self@.has_free_slot(),
            r is Some ==> r.unwrap() == self@.first_free_slot() && self@.is_first_free(
                r.unwrap() as int,
            ),
    {
        let mut i: usize = 0;
        while i < 10
            invariant
                i <= 10,
                forall|j: int| 0 <= j < i ==> self@.players[j] is Some,
            decreases 10 - i,
        {
            if self.players[i].is_none() {
                assert(self@.is_first_free(i as int));
                return Some(i);
            }
            i += 1;
        }
        None
    }

    /// Whether a ROM of the listing is selected.
    pub fn has_selected_rom(&self) -> (r: bool)
        ensures
            r == self@.has_rom(),
    {
        match &self.roms {
            Ok(roms) => {
                let at: i64 = self.page_index as i64 * 15 + self.rom_selected as i64;
                self.rom_selected >= 0 && at >= 0 && (at as u64) < roms.len() as u64
            },
            Err(_) => false,
        }
    }

    pub fn get_rom(&self) -> (r: &Rom)
        requires
            self@.has_rom(),
        ensures
            *r == self@.rom(),
    {
        let at: i64 = self.page_index as i64 * 15 + self.rom_selected as i64;
        match &self.roms {
            Ok(roms) => {
                let n = roms.len();
                assert(0 <= at < n);
                let idx: usize = at as usize;
                assert(idx == self@.rom_index());
                &roms[idx]
            },
            Err(_) => vstd::pervasive::unreached(),
        }
    }

    pub fn joystick_needs_setup_controls(&self, joystick_id: i32, split: u32) -> (r: bool)
        requires
            0 <= self.emulator_selected < self.emulators@.len(),
            self@.has_rom(),
            self@.joysticks.contains_key(joystick_id),
        ensures
            r == self@.joystick_needs_setup_controls(joystick_id, split),
    {
        match self.joysticks.get(&joystick_id) {
            Some(info) => {
                let emulator_id = self.get_emulator().id.as_str();
                let rom = self.get_rom().file_name.as_str();
                !self.console_configs.contains_key(&info.guid, &split, emulator_id)
                    && !self.game_configs.contains_key(&info.guid, &split, rom)
            },
            None => false,
        }
    }

    pub fn player_needs_setup_controls(&self, player_index: usize) -> (r: bool)
        requires
            self@.wf(),
            self@.has_rom(),
            player_index < PLAYER_SLOTS,
        ensures
            r == self@.player_needs_setup_controls(player_index as int),
    {
        match &self.players[player_index] {
            Some(player) => {
                assert(self@.players[player_index as int] is Some);
                self.joystick_needs_setup_controls(player.joystick, player.joystick_split)
            },
            None => false,
        }
    }

    pub fn all_players_are_ready(&self) -> (r: bool)
        requires
            self@.wf(),
            self@.has_rom(),
        ensures
            r == self@.all_players_are_ready(),
    {
        let mut i: usize = 1;
        while i < 10
            invariant
                1 <= i <= 10,
                self@.wf(),
                self@.has_rom(),
                forall|j: int| 1 <= j < i ==> self@.slot_ready(j),
            decreases 10 - i,
        {
            let ready = match &self.players[i] {
                Some(player) => {
                    let waiting = match player.menu {
                        PlayerMenu::Waiting => true,
                        _ => false,
                    };
                    waiting && !self.player_needs_setup_controls(i)
                },
                None => true,
            };
            if !ready {
                assert(!self@.slot_ready(i as int));
                return false;
            }
            i += 1;
        }
        true
    }

    pub fn player_has_game_controls(&self, player_index: usize) -> (r: bool)
        requires
            self@.wf(),
            self@.has_rom(),
            player_index < PLAYER_SLOTS,
        ensures
            r == self@.player_has_game_controls(player_index as int),
    {
        match &self.players[player_index] {
            Some(player) => {
                assert(self@.players[player_index as int] is Some);
                self.joystick_has_game_controls(player.joystick, player.joystick_split)
            },
            None => false,
        }
    }

    pub fn joystick_has_game_controls(&self, joystick_id: i32, split: u32) -> (r: bool)
        requires
            self@.has_rom(),
            self@.joysticks.contains_key(joystick_id),
        ensures
            r == self@.joystick_has_game_controls(joystick_id, split),
    {
        match self.joysticks.get(&joystick_id) {
            Some(info) => {
                let rom = self.get_rom().file_name.as_str();
                self.game_configs.contains_key(&info.guid, &split, rom)
            },
            None => false,
        }
    }
}

} // verus!
