use meldnafen::bindings::{JoystickConfig, JoystickEvent};
use meldnafen::joystick::{JoystickGuid, JoystickInfo};
use meldnafen::reducer::{Action, SaveState};
use meldnafen::state::{Emulator, PlayerMenu, Rom, Screen};
use meldnafen::store::{Effect, Progress, Store, Thunk};

fn guid(tag: u8) -> JoystickGuid {
    let mut bytes = [0u8; 16];
    bytes[0] = tag;
    JoystickGuid(bytes)
}

fn roms(count: usize) -> Vec<Rom> {
    (0..count)
        .map(|i| Rom {
            path: format!("/roms/game{:02}.pce", i),
            name: format!("game{:02}", i),
            file_name: format!("game{:02}.pce", i),
        })
        .collect()
}

/// Drains the store, answering every listing with `count` ROMs; tells
/// whether the timestamp moved and what was asked to be listed.
fn settle(store: &mut Store, count: usize) -> (bool, Vec<String>) {
    let mut listed = vec![];
    loop {
        match store.process() {
            Progress::Done { changed } => return (changed, listed),
            Progress::Pending(Effect::ListRoms { path, .. }) => {
                listed.push(path);
                store.resolve(Ok(roms(count)));
            }
        }
    }
}

fn emulator(id: &str) -> Emulator {
    Emulator {
        id: id.to_string(),
        name: id.to_uppercase(),
        path: format!("/{}", id),
        controls: vec![("a".to_string(), "A".to_string())],
        command: vec!["run".to_string(), id.to_string()],
        extensions: vec![id.to_string()],
        exclude: vec!["bios.bin".to_string()],
    }
}

#[test]
fn fresh_store_holds_the_initial_state() {
    let store = Store::new();
    let state = store.get_state();
    assert_eq!(state.timestamp, 0);
    assert_eq!(state.screen, Screen::List);
    assert_eq!(state.page_index, 0);
    assert_eq!(state.page_count, 1);
    assert_eq!(state.emulator_selected, 0);
    assert_eq!(state.rom_selected, -1);
    assert_eq!(state.rom_count, 0);
    assert_eq!(state.roms.as_ref().map(|x| x.len()).ok(), Some(0));
    assert_eq!(state.joysticks.len(), 0);
    assert_eq!(state.last_joystick_action.len(), 0);
    assert!(state.players.iter().all(|x| x.is_none()));
    assert_eq!(state.emulators.len(), 2);
    let pce = &state.emulators[0];
    assert_eq!(pce.id, "pce");
    assert_eq!(pce.name, "PC Engine");
    assert_eq!(pce.path, "~/pce_roms");
    assert_eq!(pce.controls.len(), 8);
    assert_eq!(pce.controls[4], ("a".to_string(), "I".to_string()));
    assert_eq!(pce.controls[7], ("start".to_string(), "Run".to_string()));
    assert_eq!(pce.command, vec!["retroarch".to_string()]);
    assert_eq!(pce.extensions, vec!["pce".to_string()]);
    assert_eq!(pce.exclude, vec!["syscard3.pce".to_string()]);
    let md = &state.emulators[1];
    assert_eq!(md.id, "md");
    assert_eq!(md.name, "Mega Drive");
    assert_eq!(md.path, "~/md_roms");
    assert_eq!(md.controls[4], ("y".to_string(), "A".to_string()));
    assert_eq!(md.controls[6], ("a".to_string(), "C".to_string()));
    assert_eq!(md.extensions, vec!["bin".to_string(), "smd".to_string()]);
    assert!(md.exclude.is_empty());
}

#[test]
fn process_on_an_empty_queue_reports_no_change() {
    let mut store = Store::new();
    assert!(matches!(store.process(), Progress::Done { changed: false }));
}

#[test]
fn next_emulator_asks_for_a_listing_of_the_new_emulator() {
    let mut store = Store::new();
    store.dispatch(Action::NextEmulator {
        timestamp: 5,
        step: 1,
    });
    match store.process() {
        Progress::Pending(Effect::ListRoms {
            path,
            extensions,
            exclude,
        }) => {
            assert_eq!(path, "~/md_roms");
            assert_eq!(extensions, vec!["bin".to_string(), "smd".to_string()]);
            assert!(exclude.is_empty());
        }
        other => panic!("expected a pending listing, got {:?}", other),
    }
    assert_eq!(store.get_state().emulator_selected, 1);
    store.resolve(Ok(roms(16)));
    assert!(matches!(store.process(), Progress::Done { changed: true }));
    let state = store.get_state();
    assert_eq!(state.rom_count, 16);
    assert_eq!(state.page_count, 2);
    assert_eq!(state.rom_selected, -1);
    assert_eq!(state.timestamp, 5);
}

#[test]
fn next_page_is_followed_by_a_row_step_that_clamps() {
    let mut store = Store::new();
    store.dispatch(Action::LoadRoms { roms: Ok(roms(16)) });
    store.dispatch(Action::NextRom {
        timestamp: 1,
        step: 12,
    });
    store.dispatch(Action::NextPage {
        timestamp: 2,
        step: 1,
    });
    let (changed, listed) = settle(&mut store, 0);
    assert!(changed);
    assert!(listed.is_empty());
    let state = store.get_state();
    assert_eq!(state.page_index, 1);
    assert_eq!(state.rom_selected, 0);
    assert_eq!(state.timestamp, 2);
}

#[test]
fn navigation_keeps_row_and_page_in_range() {
    let mut store = Store::new();
    store.dispatch(Action::LoadRoms { roms: Ok(roms(31)) });
    settle(&mut store, 31);
    let mut seed: u32 = 12345;
    for round in 0..300u32 {
        seed = seed.wrapping_mul(1664525).wrapping_add(1013904223);
        let step = ((seed >> 8) % 7) as i32 - 3;
        let action = match (seed >> 4) % 3 {
            0 => Action::NextRom {
                timestamp: round,
                step,
            },
            1 => Action::NextPage {
                timestamp: round,
                step,
            },
            _ => Action::NextEmulator {
                timestamp: round,
                step,
            },
        };
        store.dispatch(action);
        let count = [0usize, 1, 15, 16, 31, 45][(seed >> 16) as usize % 6];
        settle(&mut store, count);
        let state = store.get_state();
        assert!(0 <= state.page_index && state.page_index < state.page_count);
        let rows = (state.rom_count - state.page_index * 15).min(15);
        assert!(-1 <= state.rom_selected && state.rom_selected <= rows - 1);
        assert!(0 <= state.emulator_selected && state.emulator_selected < 2);
    }
}

#[test]
fn row_step_of_zero_never_moves_the_selection() {
    let mut store = Store::new();
    store.dispatch(Action::LoadRoms { roms: Ok(roms(20)) });
    settle(&mut store, 20);
    for step in [1, 5, 20, -3, 1, 1] {
        store.dispatch(Action::NextRom { timestamp: 1, step });
        settle(&mut store, 20);
        let before = store.get_state().rom_selected;
        store.dispatch(Action::NextRom {
            timestamp: 2,
            step: 0,
        });
        settle(&mut store, 20);
        assert_eq!(store.get_state().rom_selected, before);
    }
}

#[test]
fn launch_game_seats_the_launching_player() {
    let mut store = Store::new();
    store.dispatch(Action::LoadRoms { roms: Ok(roms(3)) });
    store.dispatch(Action::AddJoystick(
        1,
        JoystickInfo::new(4, guid(9), 0, 10, 1),
    ));
    store.dispatch(Action::NextRom {
        timestamp: 2,
        step: 1,
    });
    store.dispatch(Action::LaunchGame(3, 4, 0));
    let (changed, _) = settle(&mut store, 3);
    assert!(changed);
    let state = store.get_state();
    assert_eq!(state.screen, Screen::GameLauncher);
    let player = state.players[0].as_ref().unwrap();
    assert_eq!((player.joystick, player.joystick_split), (4, 0));
    assert_eq!(player.menu, PlayerMenu::Controls);
}

#[test]
fn actions_that_do_not_apply_are_dropped() {
    let mut store = Store::new();
    store.dispatch(Action::NextPlayerMenu(5, 1, 0));
    store.dispatch(Action::AddPlayer(6, 1, 0));
    store.dispatch(Action::GoPlayerMenu(7, 1, 0));
    store.dispatch(Action::PrevPlayerMenu(8, 1, 0));
    store.dispatch(Action::BindPlayerJoystickEvent(
        9,
        12,
        JoystickEvent::Button(1),
    ));
    store.dispatch(Action::Initialize(
        10,
        SaveState {
            emulator_selected: 3,
            emulators: vec![emulator("a")],
            console_configs: JoystickConfig::new(),
            game_configs: JoystickConfig::new(),
        },
    ));
    let (changed, listed) = settle(&mut store, 0);
    assert!(!changed);
    assert!(listed.is_empty());
    let state = store.get_state();
    assert_eq!(state.timestamp, 0);
    assert_eq!(state.emulators.len(), 2);
    assert!(state.players.iter().all(|x| x.is_none()));
}

#[test]
fn a_thunk_stops_the_drain_until_it_is_answered() {
    let mut store = Store::new();
    store.dispatch_thunk(Thunk::RescanRoms);
    store.dispatch(Action::NextRom {
        timestamp: 4,
        step: 1,
    });
    match store.process() {
        Progress::Pending(Effect::ListRoms { path, .. }) => assert_eq!(path, "~/pce_roms"),
        other => panic!("expected a pending listing, got {:?}", other),
    }
    // The row step has not had its turn yet.
    assert_eq!(store.get_state().timestamp, 0);
    store.resolve(Ok(roms(2)));
    assert!(matches!(store.process(), Progress::Done { changed: true }));
    let state = store.get_state();
    // The row step ran before the listing arrived, on the empty list.
    assert_eq!(state.rom_selected, -1);
    assert_eq!(state.rom_count, 2);
    assert_eq!(state.timestamp, 4);
}

#[test]
fn change_is_reported_against_the_start_of_the_drain() {
    let mut store = Store::new();
    store.dispatch(Action::NextEmulator {
        timestamp: 0,
        step: 0,
    });
    let (changed, listed) = settle(&mut store, 4);
    assert!(!changed);
    assert_eq!(listed, vec!["~/pce_roms".to_string()]);
    assert_eq!(store.get_state().rom_count, 4);
    store.dispatch(Action::NextEmulator {
        timestamp: 9,
        step: 0,
    });
    let (changed, _) = settle(&mut store, 4);
    assert!(changed);
}

#[test]
fn failed_listing_is_kept_as_the_error() {
    let mut store = Store::new();
    store.dispatch(Action::NextEmulator {
        timestamp: 1,
        step: 1,
    });
    assert!(matches!(store.process(), Progress::Pending(_)));
    store.resolve(Err("permission denied".to_string()));
    assert!(matches!(store.process(), Progress::Done { changed: true }));
    let state = store.get_state();
    assert_eq!(
        state.roms.as_ref().err(),
        Some(&"permission denied".to_string())
    );
    assert_eq!(state.rom_count, 0);
    assert_eq!(state.page_count, 1);
}

#[test]
fn dump_and_load_restore_selection_and_mappings() {
    let mut store = Store::new();
    store.dispatch(Action::NextEmulator {
        timestamp: 1,
        step: 1,
    });
    store.dispatch(Action::AddJoystick(
        2,
        JoystickInfo::new(4, guid(9), 0, 10, 1),
    ));
    settle(&mut store, 3);
    store.dispatch(Action::NextRom {
        timestamp: 3,
        step: 1,
    });
    store.dispatch(Action::LaunchGame(4, 4, 0));
    // The player is seated by what the launch enqueues, one turn later.
    settle(&mut store, 3);
    store.dispatch(Action::GoPlayerMenu(5, 4, 0));
    store.dispatch(Action::GoPlayerMenu(6, 4, 0));
    settle(&mut store, 3);
    for button in 0..8u8 {
        store.dispatch(Action::BindPlayerJoystickEvent(
            7,
            0,
            JoystickEvent::Button(button),
        ));
    }
    settle(&mut store, 3);
    let expected: Vec<JoystickEvent> = (0..8u8).map(JoystickEvent::Button).collect();
    assert_eq!(
        store.get_state().console_configs.get(&guid(9), &0, "md"),
        Some(&expected)
    );
    let save = store.dump();
    assert_eq!(save.emulator_selected, 1);
    assert_eq!(save.emulators.len(), 2);
    assert_eq!(save.emulators[1].controls[4].1, "A");
    assert_eq!(save.console_configs.get(&guid(9), &0, "md"), Some(&expected));

    let mut other = Store::new();
    let first = other.load(save);
    assert!(matches!(first, Progress::Pending(_)));
    other.resolve(Ok(roms(1)));
    settle(&mut other, 1);
    let state = other.get_state();
    assert_eq!(state.emulator_selected, 1);
    assert_eq!(state.console_configs.get(&guid(9), &0, "md"), Some(&expected));
    assert_eq!(state.game_configs.by_guid().len(), 0);
    assert_eq!(state.rom_count, 1);
}

#[test]
fn load_lists_the_roms_of_the_restored_emulator() {
    let mut store = Store::new();
    let save = SaveState {
        emulator_selected: 1,
        emulators: vec![emulator("nes"), emulator("gb")],
        console_configs: JoystickConfig::new(),
        game_configs: JoystickConfig::new(),
    };
    match store.load(save) {
        Progress::Pending(Effect::ListRoms {
            path,
            extensions,
            exclude,
        }) => {
            assert_eq!(path, "/gb");
            assert_eq!(extensions, vec!["gb".to_string()]);
            assert_eq!(exclude, vec!["bios.bin".to_string()]);
        }
        other => panic!("expected a pending listing, got {:?}", other),
    }
}

#[test]
fn emulators_do_not_change_under_a_capture_session() {
    let mut store = Store::new();
    store.dispatch(Action::LoadRoms { roms: Ok(roms(3)) });
    store.dispatch(Action::AddJoystick(
        1,
        JoystickInfo::new(4, guid(9), 0, 10, 1),
    ));
    store.dispatch(Action::NextRom {
        timestamp: 2,
        step: 1,
    });
    store.dispatch(Action::LaunchGame(3, 4, 0));
    settle(&mut store, 3);
    store.dispatch(Action::GoPlayerMenu(4, 4, 0));
    store.dispatch(Action::GoPlayerMenu(5, 4, 0));
    store.dispatch(Action::BindPlayerJoystickEvent(
        6,
        0,
        JoystickEvent::Button(1),
    ));
    settle(&mut store, 3);
    assert!(!store.get_state().is_capture_free());
    store.dispatch(Action::NextEmulator {
        timestamp: 7,
        step: 1,
    });
    let (changed, listed) = settle(&mut store, 3);
    assert!(!changed);
    assert!(listed.is_empty());
    assert_eq!(store.get_state().emulator_selected, 0);
    assert_eq!(store.get_state().timestamp, 6);
}
