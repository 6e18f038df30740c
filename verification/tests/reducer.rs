use meldnafen::bindings::{AxisState, HatState, JoystickConfig, JoystickEvent};
use meldnafen::joystick::{JoystickGuid, JoystickInfo};
use meldnafen::reducer::{holds_event, is_applicable, reduce, Action, SaveState};
use meldnafen::state::{
    Emulator, GrabControl, Player, PlayerMenu, Rom, Screen, State, PAGE_SIZE, PLAYER_SLOTS,
};
use meldnafen::vec_map::VecMap;

fn guid(tag: u8) -> JoystickGuid {
    let mut bytes = [0u8; 16];
    bytes[15] = tag;
    JoystickGuid(bytes)
}

fn emulator(id: &str, controls: usize) -> Emulator {
    Emulator {
        id: id.to_string(),
        name: format!("{} console", id),
        path: format!("~/{}_roms", id),
        controls: (0..controls)
            .map(|i| (format!("c{}", i), format!("C{}", i)))
            .collect(),
        command: vec!["retroarch".to_string()],
        extensions: vec![id.to_string()],
        exclude: vec![],
    }
}

fn roms(count: usize) -> Vec<Rom> {
    (0..count)
        .map(|i| Rom {
            path: format!("/roms/game{:02}.pce", i),
            name: format!("game{:02}", i),
            file_name: format!("game{:02}.pce", i),
        })
        .collect()
}

fn state_with(emulators: Vec<Emulator>) -> State {
    State {
        timestamp: 0,
        screen: Screen::List,
        page_index: 0,
        page_count: 1,
        emulator_selected: 0,
        emulators,
        roms: Ok(vec![]),
        rom_selected: -1,
        rom_count: 0,
        joysticks: VecMap::new(),
        last_joystick_action: VecMap::new(),
        players: [None, None, None, None, None, None, None, None, None, None],
        console_configs: JoystickConfig::new(),
        game_configs: JoystickConfig::new(),
    }
}

fn listed(count: usize) -> State {
    let state = state_with(vec![emulator("pce", 3), emulator("md", 2), emulator("nes", 4)]);
    reduce(state, Action::LoadRoms { roms: Ok(roms(count)) })
}

/// A state on the launcher screen with controller 7 attached and the first ROM selected.
fn launcher_state() -> State {
    let state = listed(3);
    let state = reduce(
        state,
        Action::AddJoystick(1, JoystickInfo::new(7, guid(1), 0, 12, 2)),
    );
    let state = reduce(state, Action::NextRom { timestamp: 2, step: 1 });
    reduce(state, Action::LaunchGame(3, 7, 0))
}

fn menu_of(state: &State, slot: usize) -> PlayerMenu {
    state.players[slot].as_ref().unwrap().menu
}

#[test]
fn fifteen_roms_fill_one_page() {
    let state = listed(15);
    assert_eq!(state.page_count, 1);
    assert_eq!(state.rom_count, 15);
    assert_eq!(state.page_index, 0);
    assert_eq!(state.rom_selected, -1);
}

#[test]
fn sixteen_roms_need_two_pages_and_last_page_has_one_row() {
    let state = listed(16);
    assert_eq!(state.page_count, 2);
    let state = reduce(state, Action::NextPage { timestamp: 1, step: 1 });
    assert_eq!(state.page_index, 1);
    let state = reduce(state, Action::NextRom { timestamp: 2, step: 1 });
    assert_eq!(state.rom_selected, 0);
    let state = reduce(state, Action::NextRom { timestamp: 3, step: 1 });
    assert_eq!(state.rom_selected, 0);
    assert_eq!(state.timestamp, 3);
}

#[test]
fn page_counts_for_some_listing_sizes() {
    assert_eq!(listed(0).page_count, 1);
    assert_eq!(listed(1).page_count, 1);
    assert_eq!(listed(30).page_count, 2);
    assert_eq!(listed(31).page_count, 3);
}

#[test]
fn next_rom_clamps_at_both_ends() {
    let state = listed(4);
    let state = reduce(state, Action::NextRom { timestamp: 1, step: -1 });
    assert_eq!(state.rom_selected, -1);
    let state = reduce(state, Action::NextRom { timestamp: 2, step: 3 });
    assert_eq!(state.rom_selected, 2);
    let state = reduce(state, Action::NextRom { timestamp: 3, step: 10 });
    assert_eq!(state.rom_selected, 3);
    let state = reduce(state, Action::NextRom { timestamp: 4, step: -100 });
    assert_eq!(state.rom_selected, -1);
    let state = reduce(
        state,
        Action::NextRom {
            timestamp: 5,
            step: i32::MAX,
        },
    );
    assert_eq!(state.rom_selected, 3);
}

#[test]
fn next_rom_with_step_zero_keeps_selection() {
    let state = listed(20);
    let state = reduce(state, Action::NextRom { timestamp: 1, step: 8 });
    assert_eq!(state.rom_selected, 7);
    let state = reduce(state, Action::NextRom { timestamp: 2, step: 0 });
    assert_eq!(state.rom_selected, 7);
    assert_eq!(state.timestamp, 2);
}

#[test]
fn next_rom_with_step_zero_brings_selection_onto_short_page() {
    let state = listed(16);
    let state = reduce(state, Action::NextRom { timestamp: 1, step: 10 });
    let state = reduce(state, Action::NextPage { timestamp: 2, step: 1 });
    assert_eq!(state.rom_selected, 9);
    let state = reduce(state, Action::NextRom { timestamp: 2, step: 0 });
    assert_eq!(state.rom_selected, 0);
}

#[test]
fn next_page_clamps_to_the_pages() {
    let state = listed(40);
    assert_eq!(state.page_count, 3);
    let state = reduce(state, Action::NextPage { timestamp: 1, step: -1 });
    assert_eq!(state.page_index, 0);
    let state = reduce(state, Action::NextPage { timestamp: 2, step: 1 });
    assert_eq!(state.page_index, 1);
    let state = reduce(state, Action::NextPage { timestamp: 3, step: 5 });
    assert_eq!(state.page_index, 2);
    let state = reduce(state, Action::NextPage { timestamp: 4, step: 1 });
    assert_eq!(state.page_index, 2);
    let state = reduce(state, Action::NextPage { timestamp: 5, step: -7 });
    assert_eq!(state.page_index, 0);
}

#[test]
fn failed_listing_makes_row_and_page_steps_do_nothing() {
    let state = state_with(vec![emulator("pce", 3)]);
    let state = reduce(
        state,
        Action::LoadRoms {
            roms: Err("no such directory".to_string()),
        },
    );
    assert_eq!(state.page_count, 1);
    assert_eq!(state.rom_count, 0);
    assert_eq!(state.roms.as_ref().err(), Some(&"no such directory".to_string()));
    let state = reduce(state, Action::NextRom { timestamp: 9, step: 1 });
    assert_eq!(state.rom_selected, -1);
    assert_eq!(state.timestamp, 0);
    let state = reduce(state, Action::NextPage { timestamp: 10, step: 1 });
    assert_eq!(state.page_index, 0);
    assert_eq!(state.timestamp, 0);
}

#[test]
fn next_emulator_wraps_modulo_the_emulator_count() {
    let state = listed(1);
    let state = reduce(state, Action::NextEmulator { timestamp: 1, step: -1 });
    assert_eq!(state.emulator_selected, 2);
    let state = reduce(state, Action::NextEmulator { timestamp: 2, step: 1 });
    assert_eq!(state.emulator_selected, 0);
    let state = reduce(state, Action::NextEmulator { timestamp: 3, step: 5 });
    assert_eq!(state.emulator_selected, 2);
    let state = reduce(state, Action::NextEmulator { timestamp: 4, step: -7 });
    assert_eq!(state.emulator_selected, 1);
    let state = reduce(state, Action::NextEmulator { timestamp: 5, step: 0 });
    assert_eq!(state.emulator_selected, 1);
    assert_eq!(state.timestamp, 5);
}

#[test]
fn initialize_takes_over_the_snapshot() {
    let mut console = JoystickConfig::new();
    console.insert(guid(1), 0, "md".to_string(), vec![JoystickEvent::Button(2)]);
    let save = SaveState {
        emulator_selected: 1,
        emulators: vec![emulator("pce", 3), emulator("md", 1)],
        console_configs: console,
        game_configs: JoystickConfig::new(),
    };
    let state = listed(5);
    let state = reduce(state, Action::Initialize(11, save));
    assert_eq!(state.timestamp, 11);
    assert_eq!(state.emulator_selected, 1);
    assert_eq!(state.emulators.len(), 2);
    assert_eq!(state.emulators[1].id, "md");
    assert_eq!(
        state.console_configs.get(&guid(1), &0, "md"),
        Some(&vec![JoystickEvent::Button(2)])
    );
    assert_eq!(state.rom_count, 5);
}

#[test]
fn initialize_with_a_bad_snapshot_is_not_applicable() {
    let state = listed(5);
    let empty = SaveState {
        emulator_selected: 0,
        emulators: vec![],
        console_configs: JoystickConfig::new(),
        game_configs: JoystickConfig::new(),
    };
    assert!(!is_applicable(&state, &Action::Initialize(1, empty)));
    let out_of_range = SaveState {
        emulator_selected: 2,
        emulators: vec![emulator("pce", 3), emulator("md", 1)],
        console_configs: JoystickConfig::new(),
        game_configs: JoystickConfig::new(),
    };
    assert!(!is_applicable(&state, &Action::Initialize(1, out_of_range)));
    let negative = SaveState {
        emulator_selected: -1,
        emulators: vec![emulator("pce", 3)],
        console_configs: JoystickConfig::new(),
        game_configs: JoystickConfig::new(),
    };
    assert!(!is_applicable(&state, &Action::Initialize(1, negative)));
}

#[test]
fn add_and_remove_joystick() {
    let state = listed(1);
    let info = JoystickInfo::new(7, guid(1), 0, 12, 2);
    let state = reduce(state, Action::AddJoystick(5, info));
    assert_eq!(state.timestamp, 5);
    assert_eq!(state.joysticks.get(&7).map(|x| x.guid), Some(guid(1)));
    let state = reduce(state, Action::RemoveJoystick(6, 7));
    assert_eq!(state.timestamp, 6);
    assert!(state.joysticks.get(&7).is_none());
    assert_eq!(state.screen, Screen::List);
}

#[test]
fn launch_game_opens_the_launcher_with_empty_slots() {
    let state = launcher_state();
    assert_eq!(state.screen, Screen::GameLauncher);
    assert_eq!(state.timestamp, 3);
    assert!(state.players.iter().all(|x| x.is_none()));
}

#[test]
fn first_player_with_fresh_controller_starts_at_controls() {
    let state = launcher_state();
    assert!(is_applicable(&state, &Action::AddPlayer(4, 7, 0)));
    let state = reduce(state, Action::AddPlayer(4, 7, 0));
    let player = state.players[0].as_ref().unwrap();
    assert_eq!(player.joystick, 7);
    assert_eq!(player.joystick_split, 0);
    assert_eq!(player.menu, PlayerMenu::Controls);
    assert!(player.grab_input.is_none());
    assert!(player.grab_emulator_buttons.is_none());
    assert_eq!(state.timestamp, 4);
}

#[test]
fn player_with_stored_console_mapping_starts_ready() {
    let mut state = launcher_state();
    state.console_configs.insert(
        guid(1),
        0,
        "pce".to_string(),
        vec![JoystickEvent::Button(0); 3],
    );
    let state = reduce(state, Action::AddPlayer(4, 7, 0));
    assert_eq!(menu_of(&state, 0), PlayerMenu::Ready);
}

#[test]
fn player_with_stored_game_mapping_starts_ready() {
    let mut state = launcher_state();
    state.game_configs.insert(
        guid(1),
        1,
        "game00.pce".to_string(),
        vec![JoystickEvent::Button(0); 3],
    );
    let state = reduce(state, Action::AddPlayer(4, 7, 1));
    assert_eq!(menu_of(&state, 0), PlayerMenu::Ready);
    let state = reduce(state, Action::AddPlayer(5, 7, 0));
    assert_eq!(menu_of(&state, 1), PlayerMenu::Controls);
}

#[test]
fn add_player_is_not_applicable_twice_for_one_split() {
    let state = launcher_state();
    let state = reduce(state, Action::AddPlayer(4, 7, 0));
    assert!(!is_applicable(&state, &Action::AddPlayer(5, 7, 0)));
    assert!(is_applicable(&state, &Action::AddPlayer(5, 7, 1)));
    assert!(!is_applicable(&state, &Action::AddPlayer(5, 8, 0)));
}

#[test]
fn add_player_does_nothing_without_a_free_slot() {
    let mut state = launcher_state();
    for split in 0..10 {
        state = reduce(state, Action::AddPlayer(10 + split, 7, split));
    }
    assert!(state.players.iter().all(|x| x.is_some()));
    assert_eq!(state.timestamp, 19);
    let state = reduce(state, Action::AddPlayer(99, 7, 10));
    assert_eq!(state.timestamp, 19);
    assert_eq!(
        state
            .players
            .iter()
            .filter(|x| x.as_ref().unwrap().joystick_split == 10)
            .count(),
        0
    );
}

#[test]
fn add_player_does_nothing_while_host_grabs_buttons() {
    let mut state = launcher_state();
    state.console_configs.insert(
        guid(1),
        0,
        "pce".to_string(),
        vec![JoystickEvent::Button(0); 3],
    );
    let state = reduce(state, Action::AddPlayer(4, 7, 0));
    let state = reduce(state, Action::GoPlayerMenu(5, 7, 0));
    assert_eq!(
        state.players[0].as_ref().unwrap().grab_emulator_buttons,
        Some((None, None))
    );
    let state = reduce(state, Action::AddPlayer(6, 7, 1));
    assert!(state.players[1].is_none());
    assert_eq!(state.timestamp, 5);
}

#[test]
fn disconnecting_the_only_player_returns_to_the_list() {
    let state = launcher_state();
    let state = reduce(state, Action::AddPlayer(4, 7, 0));
    assert_eq!(state.screen, Screen::GameLauncher);
    let state = reduce(state, Action::RemoveJoystick(5, 7));
    assert_eq!(state.screen, Screen::List);
    assert!(state.players.iter().all(|x| x.is_none()));
    assert!(state.joysticks.get(&7).is_none());
}

#[test]
fn disconnecting_one_of_two_controllers_keeps_the_launcher() {
    let state = launcher_state();
    let state = reduce(
        state,
        Action::AddJoystick(4, JoystickInfo::new(8, guid(2), 0, 12, 1)),
    );
    let state = reduce(state, Action::AddPlayer(5, 7, 0));
    let state = reduce(state, Action::AddPlayer(6, 8, 0));
    let state = reduce(state, Action::AddPlayer(7, 7, 1));
    let state = reduce(state, Action::RemoveJoystick(8, 7));
    assert_eq!(state.screen, Screen::GameLauncher);
    assert!(state.players[0].is_none());
    assert_eq!(state.players[1].as_ref().unwrap().joystick, 8);
    assert!(state.players[2].is_none());
}

#[test]
fn menu_walk_for_a_player_that_needs_setup() {
    let state = launcher_state();
    let state = reduce(state, Action::AddPlayer(4, 7, 0));
    // Controls cannot go to Ready while no mapping is stored.
    let state = reduce(state, Action::NextPlayerMenu(5, 7, 0));
    assert_eq!(menu_of(&state, 0), PlayerMenu::Leave);
    let state = reduce(state, Action::PrevPlayerMenu(6, 7, 0));
    assert_eq!(menu_of(&state, 0), PlayerMenu::Controls);
    let state = reduce(state, Action::GoPlayerMenu(7, 7, 0));
    assert_eq!(menu_of(&state, 0), PlayerMenu::ConsoleControls);
    let state = reduce(state, Action::NextPlayerMenu(8, 7, 0));
    assert_eq!(menu_of(&state, 0), PlayerMenu::GameControls);
    let state = reduce(state, Action::NextPlayerMenu(9, 7, 0));
    assert_eq!(menu_of(&state, 0), PlayerMenu::ControlsExit);
    let state = reduce(state, Action::PrevPlayerMenu(10, 7, 0));
    assert_eq!(menu_of(&state, 0), PlayerMenu::GameControls);
    let state = reduce(state, Action::PrevPlayerMenu(11, 7, 0));
    assert_eq!(menu_of(&state, 0), PlayerMenu::ConsoleControls);
    let state = reduce(state, Action::NextPlayerMenu(12, 7, 0));
    let state = reduce(state, Action::NextPlayerMenu(13, 7, 0));
    let state = reduce(state, Action::GoPlayerMenu(14, 7, 0));
    assert_eq!(menu_of(&state, 0), PlayerMenu::Controls);
    assert_eq!(state.timestamp, 14);
}

#[test]
fn menu_walk_with_game_controls_passes_clear() {
    let mut state = launcher_state();
    state.game_configs.insert(
        guid(1),
        0,
        "game00.pce".to_string(),
        vec![JoystickEvent::Button(0); 3],
    );
    let mut state = reduce(state, Action::AddPlayer(4, 7, 0));
    state.players[0].as_mut().unwrap().menu = PlayerMenu::GameControls;
    let state = reduce(state, Action::NextPlayerMenu(5, 7, 0));
    assert_eq!(menu_of(&state, 0), PlayerMenu::ClearConsoleControls);
    let state = reduce(state, Action::NextPlayerMenu(6, 7, 0));
    assert_eq!(menu_of(&state, 0), PlayerMenu::ControlsExit);
    let state = reduce(state, Action::PrevPlayerMenu(7, 7, 0));
    assert_eq!(menu_of(&state, 0), PlayerMenu::ClearConsoleControls);
    let state = reduce(state, Action::GoPlayerMenu(8, 7, 0));
    assert_eq!(menu_of(&state, 0), PlayerMenu::ControlsExit);
    assert!(!state.game_configs.contains_key(&guid(1), &0, "game00.pce"));
    assert_eq!(state.game_configs.by_guid().len(), 0);
}

#[test]
fn host_waits_for_the_other_players() {
    let mut state = launcher_state();
    state.console_configs.insert(
        guid(1),
        0,
        "pce".to_string(),
        vec![JoystickEvent::Button(0); 3],
    );
    state.console_configs.insert(
        guid(1),
        1,
        "pce".to_string(),
        vec![JoystickEvent::Button(6); 3],
    );
    let state = reduce(state, Action::AddPlayer(4, 7, 0));
    let state = reduce(state, Action::AddPlayer(5, 7, 1));
    assert_eq!(menu_of(&state, 0), PlayerMenu::Ready);
    assert_eq!(menu_of(&state, 1), PlayerMenu::Ready);
    assert!(!state.all_players_are_ready());
    // The host cannot pass from Controls to Ready while player two is not waiting.
    let state = reduce(state, Action::PrevPlayerMenu(6, 7, 0));
    assert_eq!(menu_of(&state, 0), PlayerMenu::Controls);
    let state = reduce(state, Action::NextPlayerMenu(7, 7, 0));
    assert_eq!(menu_of(&state, 0), PlayerMenu::Leave);
    let state = reduce(state, Action::PrevPlayerMenu(8, 7, 0));
    assert_eq!(menu_of(&state, 0), PlayerMenu::Controls);
    // Player two confirms Ready and waits.
    let state = reduce(state, Action::GoPlayerMenu(9, 7, 1));
    assert_eq!(menu_of(&state, 1), PlayerMenu::Waiting);
    assert!(state.all_players_are_ready());
    let state = reduce(state, Action::NextPlayerMenu(10, 7, 0));
    assert_eq!(menu_of(&state, 0), PlayerMenu::Ready);
    // Waiting goes back to Ready on confirm.
    let state = reduce(state, Action::GoPlayerMenu(11, 7, 1));
    assert_eq!(menu_of(&state, 1), PlayerMenu::Ready);
}

#[test]
fn leaving_players_free_their_slot_and_host_leaves_the_launcher() {
    let state = launcher_state();
    let state = reduce(state, Action::AddPlayer(4, 7, 0));
    let state = reduce(state, Action::AddPlayer(5, 7, 1));
    let state = reduce(state, Action::NextPlayerMenu(6, 7, 1));
    assert_eq!(menu_of(&state, 1), PlayerMenu::Leave);
    let state = reduce(state, Action::GoPlayerMenu(7, 7, 1));
    assert!(state.players[1].is_none());
    assert_eq!(state.screen, Screen::GameLauncher);
    let state = reduce(state, Action::NextPlayerMenu(8, 7, 0));
    let state = reduce(state, Action::GoPlayerMenu(9, 7, 0));
    assert_eq!(state.screen, Screen::List);
    assert!(state.players.iter().all(|x| x.is_none()));
}

fn capturing(control: GrabControl) -> State {
    let state = launcher_state();
    let mut state = reduce(state, Action::AddPlayer(4, 7, 1));
    state.players[0].as_mut().unwrap().menu = match control {
        GrabControl::Console => PlayerMenu::ConsoleControls,
        GrabControl::Game => PlayerMenu::GameControls,
    };
    reduce(state, Action::GoPlayerMenu(5, 7, 1))
}

#[test]
fn capture_starts_empty() {
    let state = capturing(GrabControl::Console);
    assert_eq!(
        state.players[0].as_ref().unwrap().grab_input,
        Some((GrabControl::Console, vec![]))
    );
    let state = capturing(GrabControl::Game);
    assert_eq!(
        state.players[0].as_ref().unwrap().grab_input,
        Some((GrabControl::Game, vec![]))
    );
}

#[test]
fn binding_button_three_twice_stores_unassigned_and_completes() {
    let state = capturing(GrabControl::Console);
    let state = reduce(
        state,
        Action::BindPlayerJoystickEvent(6, 0, JoystickEvent::Button(3)),
    );
    let state = reduce(
        state,
        Action::BindPlayerJoystickEvent(7, 0, JoystickEvent::Button(3)),
    );
    assert_eq!(
        state.players[0].as_ref().unwrap().grab_input,
        Some((
            GrabControl::Console,
            vec![JoystickEvent::Button(3), JoystickEvent::Unassigned]
        ))
    );
    assert!(!state.console_configs.contains_key(&guid(1), &1, "pce"));
    let state = reduce(
        state,
        Action::BindPlayerJoystickEvent(8, 0, JoystickEvent::Hat(1, HatState::Up)),
    );
    assert!(state.players[0].as_ref().unwrap().grab_input.is_none());
    assert_eq!(
        state.console_configs.get(&guid(1), &1, "pce"),
        Some(&vec![
            JoystickEvent::Button(3),
            JoystickEvent::Unassigned,
            JoystickEvent::Hat(1, HatState::Up)
        ])
    );
    assert!(!state.game_configs.contains_key(&guid(1), &1, "game00.pce"));
    assert_eq!(state.timestamp, 8);
    assert_eq!(menu_of(&state, 0), PlayerMenu::ConsoleControls);
}

#[test]
fn game_capture_commits_under_the_rom_file_name() {
    let state = capturing(GrabControl::Game);
    let state = reduce(
        state,
        Action::BindPlayerJoystickEvent(6, 0, JoystickEvent::Axis(2, AxisState::Negative)),
    );
    let state = reduce(
        state,
        Action::BindPlayerJoystickEvent(7, 0, JoystickEvent::Axis(2, AxisState::Positive)),
    );
    let state = reduce(
        state,
        Action::BindPlayerJoystickEvent(8, 0, JoystickEvent::Unassigned),
    );
    assert_eq!(
        state.game_configs.get(&guid(1), &1, "game00.pce"),
        Some(&vec![
            JoystickEvent::Axis(2, AxisState::Negative),
            JoystickEvent::Axis(2, AxisState::Positive),
            JoystickEvent::Unassigned
        ])
    );
    assert!(!state.console_configs.contains_key(&guid(1), &1, "pce"));
    assert_eq!(state.console_configs.by_guid().len(), 0);
}

#[test]
fn capture_is_dropped_when_it_is_already_as_long_as_the_controls() {
    let mut state = capturing(GrabControl::Console);
    state.players[0].as_mut().unwrap().grab_input = Some((
        GrabControl::Console,
        vec![
            JoystickEvent::Button(0),
            JoystickEvent::Button(1),
            JoystickEvent::Button(2),
        ],
    ));
    let state = reduce(
        state,
        Action::BindPlayerJoystickEvent(9, 0, JoystickEvent::Button(3)),
    );
    assert!(state.players[0].as_ref().unwrap().grab_input.is_none());
    assert_eq!(state.console_configs.by_guid().len(), 0);
}

#[test]
fn bind_is_not_applicable_without_a_capture_session() {
    let state = launcher_state();
    let state = reduce(state, Action::AddPlayer(4, 7, 0));
    assert!(!is_applicable(
        &state,
        &Action::BindPlayerJoystickEvent(5, 0, JoystickEvent::Button(1))
    ));
    assert!(!is_applicable(
        &state,
        &Action::BindPlayerJoystickEvent(5, PLAYER_SLOTS, JoystickEvent::Button(1))
    ));
    assert!(is_applicable(
        &state,
        &Action::BindPlayerJoystickEvent(5, 1, JoystickEvent::Button(1))
    ));
    assert!(!is_applicable(
        &state,
        &Action::BindEmulatorButton(5, JoystickEvent::Button(1))
    ));
}

#[test]
fn menu_actions_need_a_seated_player_and_a_rom() {
    let state = launcher_state();
    assert!(!is_applicable(&state, &Action::NextPlayerMenu(4, 7, 0)));
    assert!(!is_applicable(&state, &Action::PrevPlayerMenu(4, 7, 0)));
    assert!(is_applicable(&state, &Action::GoPlayerMenu(4, 7, 0)));
    let state = reduce(state, Action::GoPlayerMenu(4, 7, 0));
    assert_eq!(state.timestamp, 4);
    let unselected = listed(3);
    assert!(!is_applicable(&unselected, &Action::GoPlayerMenu(4, 7, 0)));
    assert!(!is_applicable(&unselected, &Action::AddPlayer(4, 7, 0)));
}

#[test]
fn emulator_buttons_are_captured_in_two_steps() {
    let mut state = launcher_state();
    state.console_configs.insert(
        guid(1),
        0,
        "pce".to_string(),
        vec![JoystickEvent::Button(0); 3],
    );
    let state = reduce(state, Action::AddPlayer(4, 7, 0));
    let state = reduce(state, Action::GoPlayerMenu(5, 7, 0));
    let state = reduce(state, Action::BindEmulatorButton(6, JoystickEvent::Button(4)));
    assert_eq!(
        state.players[0].as_ref().unwrap().grab_emulator_buttons,
        Some((Some(JoystickEvent::Button(4)), None))
    );
    assert_eq!(menu_of(&state, 0), PlayerMenu::Ready);
    let state = reduce(state, Action::BindEmulatorButton(7, JoystickEvent::Button(5)));
    assert_eq!(
        state.players[0].as_ref().unwrap().grab_emulator_buttons,
        Some((
            Some(JoystickEvent::Button(4)),
            Some(JoystickEvent::Button(5))
        ))
    );
    assert_eq!(menu_of(&state, 0), PlayerMenu::Waiting);
    assert_eq!(state.timestamp, 7);
}

#[test]
fn second_player_ready_goes_to_waiting_not_to_button_capture() {
    let mut state = launcher_state();
    state.console_configs.insert(
        guid(1),
        1,
        "pce".to_string(),
        vec![JoystickEvent::Button(0); 3],
    );
    let state = reduce(state, Action::AddPlayer(4, 7, 0));
    let state = reduce(state, Action::AddPlayer(5, 7, 1));
    let state = reduce(state, Action::GoPlayerMenu(6, 7, 1));
    let player = state.players[1].as_ref().unwrap();
    assert_eq!(player.menu, PlayerMenu::Waiting);
    assert!(player.grab_emulator_buttons.is_none());
}

#[test]
fn update_joystick_last_action_records_the_timestamp() {
    let state = listed(1);
    let state = reduce(state, Action::UpdateJoystickLastAction(1234, 7, 2));
    assert_eq!(state.timestamp, 1234);
    assert_eq!(state.last_joystick_action.get(&(7, 2)), Some(&1234));
    assert_eq!(state.last_joystick_action.get(&(7, 1)), None);
    let state = reduce(state, Action::UpdateJoystickLastAction(2000, 7, 2));
    assert_eq!(state.last_joystick_action.get(&(7, 2)), Some(&2000));
    assert_eq!(state.last_joystick_action.len(), 1);
}

#[test]
fn quit_returns_to_the_list_and_keeps_the_timestamp() {
    let state = launcher_state();
    let state = reduce(state, Action::AddPlayer(4, 7, 0));
    let state = reduce(state, Action::Quit);
    assert_eq!(state.screen, Screen::List);
    assert_eq!(state.timestamp, 4);
    assert!(state.players.iter().all(|x| x.is_none()));
}

#[test]
fn state_lookups() {
    let state = launcher_state();
    let state = reduce(state, Action::AddPlayer(4, 7, 1));
    assert_eq!(state.get_emulator().id, "pce");
    assert_eq!(state.get_controls().len(), 3);
    assert_eq!(state.get_rom().file_name, "game00.pce");
    assert!(state.has_selected_rom());
    assert_eq!(state.find_player(7, 1), Some(0));
    assert_eq!(state.find_player(7, 0), None);
    assert_eq!(state.get_player_index(7, 1), 0);
    assert_eq!(state.free_slot(), Some(1));
    assert!(state.player_needs_setup_controls(0));
    assert!(!state.player_needs_setup_controls(1));
    assert!(state.joystick_needs_setup_controls(7, 0));
    assert!(!state.player_has_game_controls(0));
    assert!(!state.joystick_has_game_controls(7, 1));
    assert!(!listed(3).has_selected_rom());
}

#[test]
fn rom_lookup_follows_page_and_row() {
    let state = listed(20);
    let state = reduce(state, Action::NextPage { timestamp: 1, step: 1 });
    let state = reduce(state, Action::NextRom { timestamp: 2, step: 3 });
    assert_eq!(state.page_index, 1);
    assert_eq!(state.rom_selected, 2);
    assert_eq!(state.get_rom().name, "game17");
    assert_eq!(PAGE_SIZE, 15);
}

#[test]
fn holds_event_finds_events() {
    let mapping = vec![JoystickEvent::Button(3), JoystickEvent::Unassigned];
    assert!(holds_event(&mapping, JoystickEvent::Button(3)));
    assert!(holds_event(&mapping, JoystickEvent::Unassigned));
    assert!(!holds_event(&mapping, JoystickEvent::Button(4)));
    assert!(!holds_event(&vec![], JoystickEvent::Button(3)));
}

#[test]
fn player_struct_can_be_built_by_hand() {
    let player = Player {
        joystick: 1,
        joystick_split: 0,
        menu: PlayerMenu::Ready,
        grab_input: None,
        grab_emulator_buttons: None,
    };
    let mut state = launcher_state();
    state.players[3] = Some(player);
    assert_eq!(state.find_player(1, 0), Some(3));
    assert_eq!(state.free_slot(), Some(0));
}
