use meldnafen::bindings::{AxisState, HatState, JoystickEvent};
use meldnafen::entity::{Entity, PlatformRequest, Reaction};
use meldnafen::input::{
    axis_side, confirms, direction, hat_direction, is_lock_open, lock_window, split_index,
    split_width, stroke, HatPosition, InputEvent, Stroke, AXIS_THRESHOLD, JOYSTICK_LOCK_TIME,
    JOYSTICK_LOCK_TIME_AXIS,
};
use meldnafen::joystick::{JoystickGuid, JoystickInfo};
use meldnafen::reducer::Action;
use meldnafen::state::{PlayerMenu, Rom, Screen};
use meldnafen::store::{Effect, Progress, Store};

fn guid(tag: u8) -> JoystickGuid {
    let mut bytes = [0u8; 16];
    bytes[3] = tag;
    JoystickGuid(bytes)
}

fn roms(count: usize) -> Vec<Rom> {
    (0..count)
        .map(|i| Rom {
            path: format!("/roms/game{:02}.pce", i),
            name: format!("game{:02}", i),
            file_name: format!("game{:02}.pce", i),
        })
        .collect()
}

fn settle(store: &mut Store) -> bool {
    loop {
        match store.process() {
            Progress::Done { changed } => return changed,
            Progress::Pending(Effect::ListRoms { .. }) => store.resolve(Ok(roms(20))),
        }
    }
}

/// A store with 20 ROMs listed and controller 7 attached: 12 buttons, shared by two players.
fn list_store() -> Store {
    let mut store = Store::new();
    store.dispatch(Action::LoadRoms { roms: Ok(roms(20)) });
    store.dispatch(Action::AddJoystick(
        0,
        JoystickInfo::new(7, guid(1), 0, 12, 2),
    ));
    settle(&mut store);
    store
}

/// A store on the launcher screen: player one on split 0 of controller 7.
fn launcher_store() -> Store {
    let mut store = list_store();
    store.dispatch(Action::NextRom {
        timestamp: 1,
        step: 1,
    });
    store.dispatch(Action::LaunchGame(2, 7, 0));
    settle(&mut store);
    store
}

fn button(which: i32, button_idx: u8, timestamp: u32) -> InputEvent {
    InputEvent::JoyButtonUp {
        which,
        button_idx,
        timestamp,
    }
}

fn hat(which: i32, hat_idx: u8, position: HatPosition, timestamp: u32) -> InputEvent {
    InputEvent::JoyHatMotion {
        which,
        hat_idx,
        position,
        timestamp,
    }
}

fn axis(which: i32, axis_idx: u8, value: i16, timestamp: u32) -> InputEvent {
    InputEvent::JoyAxisMotion {
        which,
        axis_idx,
        value,
        timestamp,
    }
}

fn actions_of(reaction: &Reaction) -> Vec<String> {
    reaction.actions.iter().map(|a| format!("{:?}", a)).collect()
}

fn expect(reaction: Reaction, actions: &[&str], platform: &[PlatformRequest]) {
    let wanted: Vec<String> = actions.iter().map(|a| a.to_string()).collect();
    assert_eq!(actions_of(&reaction), wanted);
    assert_eq!(reaction.platform, platform.to_vec());
}

#[test]
fn constants_have_their_values() {
    assert_eq!(AXIS_THRESHOLD, 0x4fff);
    assert_eq!(JOYSTICK_LOCK_TIME, 200);
    assert_eq!(JOYSTICK_LOCK_TIME_AXIS, 400);
}

#[test]
fn only_cardinal_hat_positions_have_a_direction() {
    assert_eq!(hat_direction(HatPosition::Up), Some(HatState::Up));
    assert_eq!(hat_direction(HatPosition::Down), Some(HatState::Down));
    assert_eq!(hat_direction(HatPosition::Left), Some(HatState::Left));
    assert_eq!(hat_direction(HatPosition::Right), Some(HatState::Right));
    for position in [
        HatPosition::Centered,
        HatPosition::RightUp,
        HatPosition::RightDown,
        HatPosition::LeftUp,
        HatPosition::LeftDown,
    ] {
        assert_eq!(hat_direction(position), None);
    }
}

#[test]
fn axis_counts_from_the_threshold_on() {
    assert_eq!(axis_side(0x4fff), Some(AxisState::Positive));
    assert_eq!(axis_side(0x4ffe), None);
    assert_eq!(axis_side(0), None);
    assert_eq!(axis_side(-0x4ffe), None);
    assert_eq!(axis_side(-0x4fff), Some(AxisState::Negative));
    assert_eq!(axis_side(i16::MAX), Some(AxisState::Positive));
    assert_eq!(axis_side(i16::MIN), Some(AxisState::Negative));
}

#[test]
fn strokes_of_events() {
    assert_eq!(
        stroke(&button(3, 9, 77)),
        Some(Stroke {
            which: 3,
            timestamp: 77,
            event: JoystickEvent::Button(9)
        })
    );
    assert_eq!(
        stroke(&hat(3, 1, HatPosition::Left, 78)),
        Some(Stroke {
            which: 3,
            timestamp: 78,
            event: JoystickEvent::Hat(1, HatState::Left)
        })
    );
    assert_eq!(stroke(&hat(3, 1, HatPosition::LeftUp, 78)), None);
    assert_eq!(
        stroke(&axis(3, 5, -30000, 79)),
        Some(Stroke {
            which: 3,
            timestamp: 79,
            event: JoystickEvent::Axis(5, AxisState::Negative)
        })
    );
    assert_eq!(stroke(&axis(3, 5, 100, 79)), None);
    assert_eq!(stroke(&InputEvent::Quit), None);
    assert_eq!(stroke(&InputEvent::Other), None);
    assert_eq!(
        stroke(&InputEvent::JoyDeviceAdded {
            which: 1,
            timestamp: 2
        }),
        None
    );
}

#[test]
fn directions_of_events() {
    assert_eq!(
        direction(JoystickEvent::Hat(4, HatState::Up)),
        Some(HatState::Up)
    );
    assert_eq!(
        direction(JoystickEvent::Axis(0, AxisState::Positive)),
        Some(HatState::Right)
    );
    assert_eq!(
        direction(JoystickEvent::Axis(2, AxisState::Negative)),
        Some(HatState::Left)
    );
    assert_eq!(
        direction(JoystickEvent::Axis(1, AxisState::Positive)),
        Some(HatState::Down)
    );
    assert_eq!(
        direction(JoystickEvent::Axis(3, AxisState::Negative)),
        Some(HatState::Up)
    );
    assert_eq!(direction(JoystickEvent::Button(0)), None);
    assert_eq!(direction(JoystickEvent::Unassigned), None);
}

#[test]
fn split_addressing() {
    // 12 buttons shared by two players: six buttons each.
    assert_eq!(split_index(JoystickEvent::Button(0), 6), Some(0));
    assert_eq!(split_index(JoystickEvent::Button(5), 6), Some(0));
    assert_eq!(split_index(JoystickEvent::Button(6), 6), Some(1));
    assert_eq!(split_index(JoystickEvent::Button(11), 6), Some(1));
    assert_eq!(split_index(JoystickEvent::Button(3), 0), None);
    assert_eq!(split_index(JoystickEvent::Hat(2, HatState::Up), 6), Some(2));
    assert_eq!(split_index(JoystickEvent::Hat(2, HatState::Up), 0), Some(2));
    assert_eq!(
        split_index(JoystickEvent::Axis(0, AxisState::Positive), 6),
        Some(0)
    );
    assert_eq!(
        split_index(JoystickEvent::Axis(1, AxisState::Positive), 6),
        Some(0)
    );
    assert_eq!(
        split_index(JoystickEvent::Axis(5, AxisState::Negative), 6),
        Some(2)
    );
    assert_eq!(split_index(JoystickEvent::Unassigned, 6), None);
    assert!(confirms(JoystickEvent::Button(0), 6));
    assert!(confirms(JoystickEvent::Button(6), 6));
    assert!(!confirms(JoystickEvent::Button(7), 6));
    assert!(!confirms(JoystickEvent::Button(0), 0));
    assert!(!confirms(JoystickEvent::Hat(0, HatState::Up), 6));
}

#[test]
fn split_width_of_controllers() {
    let mut store = list_store();
    store.dispatch(Action::AddJoystick(
        1,
        JoystickInfo::new(8, guid(2), 0, 10, 0),
    ));
    store.dispatch(Action::AddJoystick(
        1,
        JoystickInfo::new(9, guid(3), 0, 3, 4),
    ));
    store.dispatch(Action::AddJoystick(
        1,
        JoystickInfo::new(10, guid(3), 1, 13, 4),
    ));
    settle(&mut store);
    let state = store.get_state();
    assert_eq!(split_width(state, 7), 6);
    assert_eq!(split_width(state, 8), 0);
    assert_eq!(split_width(state, 9), 0);
    assert_eq!(split_width(state, 10), 3);
    assert_eq!(split_width(state, 11), 0);
    assert_eq!(JoystickInfo::new(1, guid(1), 0, 13, 4).split_width(), 3);
}

#[test]
fn lock_windows() {
    assert_eq!(lock_window(JoystickEvent::Button(1)), 200);
    assert_eq!(lock_window(JoystickEvent::Hat(1, HatState::Up)), 200);
    assert_eq!(lock_window(JoystickEvent::Axis(1, AxisState::Positive)), 400);
}

#[test]
fn two_digital_events_inside_the_window_give_one_transition() {
    let t = 1000;
    let mut store = list_store();
    let first = Entity::List.reaction(store.get_state(), &hat(7, 0, HatPosition::Down, t));
    assert_eq!(first.actions.len(), 2);
    Entity::List.apply_event(&hat(7, 0, HatPosition::Down, t), &mut store);
    settle(&mut store);
    assert_eq!(store.get_state().rom_selected, 0);
    let late = t + JOYSTICK_LOCK_TIME - 1;
    Entity::List.apply_event(&hat(7, 0, HatPosition::Down, late), &mut store);
    settle(&mut store);
    assert_eq!(store.get_state().rom_selected, 0);
    assert_eq!(store.get_state().timestamp, t);
}

#[test]
fn two_digital_events_a_window_apart_give_two_transitions() {
    let t = 1000;
    let mut store = list_store();
    Entity::List.apply_event(&hat(7, 0, HatPosition::Down, t), &mut store);
    settle(&mut store);
    Entity::List.apply_event(
        &hat(7, 0, HatPosition::Down, t + JOYSTICK_LOCK_TIME),
        &mut store,
    );
    settle(&mut store);
    assert_eq!(store.get_state().rom_selected, 1);
    assert_eq!(store.get_state().timestamp, t + JOYSTICK_LOCK_TIME);
}

#[test]
fn axis_events_use_the_long_window() {
    let t = 1000;
    let mut store = list_store();
    Entity::List.apply_event(&axis(7, 1, 32000, t), &mut store);
    settle(&mut store);
    assert_eq!(store.get_state().rom_selected, 0);
    Entity::List.apply_event(&axis(7, 1, 32000, t + 399), &mut store);
    settle(&mut store);
    assert_eq!(store.get_state().rom_selected, 0);
    Entity::List.apply_event(&axis(7, 1, 32000, t + 400), &mut store);
    settle(&mut store);
    assert_eq!(store.get_state().rom_selected, 1);
}

#[test]
fn locks_are_kept_per_controller_and_split() {
    let t = 1000;
    let mut store = list_store();
    Entity::List.apply_event(&hat(7, 0, HatPosition::Down, t), &mut store);
    settle(&mut store);
    let state = store.get_state();
    assert!(!is_lock_open(state, 7, 0, t + 10, 200));
    assert!(is_lock_open(state, 7, 1, t + 10, 200));
    assert!(is_lock_open(state, 8, 0, t + 10, 200));
    assert!(is_lock_open(state, 7, 0, t + 200, 200));
    assert!(!is_lock_open(state, 7, 0, 0, 200));
    assert!(is_lock_open(state, 9, 9, 200, 200));
    assert!(!is_lock_open(state, 9, 9, 199, 200));
    assert!(!is_lock_open(state, 7, 0, u32::MAX, u32::MAX));
}

#[test]
fn list_reacts_to_directions() {
    let store = list_store();
    let state = store.get_state();
    expect(
        Entity::List.reaction(state, &hat(7, 1, HatPosition::Up, 500)),
        &[
            "UpdateJoystickLastAction(500, 7, 1)",
            "NextRom { timestamp: 500, step: -1 }",
        ],
        &[],
    );
    expect(
        Entity::List.reaction(state, &hat(7, 0, HatPosition::Right, 500)),
        &[
            "UpdateJoystickLastAction(500, 7, 0)",
            "NextEmulator { timestamp: 500, step: 1 }",
        ],
        &[],
    );
    expect(
        Entity::List.reaction(state, &axis(7, 2, -20480, 500)),
        &[
            "UpdateJoystickLastAction(500, 7, 1)",
            "NextEmulator { timestamp: 500, step: -1 }",
        ],
        &[],
    );
    expect(
        Entity::List.reaction(state, &axis(7, 3, 20478, 500)),
        &[],
        &[],
    );
    expect(Entity::List.reaction(state, &hat(7, 0, HatPosition::Up, 199)), &[], &[]);
    expect(
        Entity::List.reaction(state, &hat(7, 0, HatPosition::RightDown, 500)),
        &[],
        &[],
    );
    // No ROM is selected yet: the confirm button does nothing.
    expect(Entity::List.reaction(state, &button(7, 0, 500)), &[], &[]);
    expect(Entity::List.reaction(state, &InputEvent::Quit), &[], &[]);
}

#[test]
fn list_turns_pages_once_a_rom_is_selected_and_launches() {
    let mut store = list_store();
    store.dispatch(Action::NextRom {
        timestamp: 1,
        step: 1,
    });
    settle(&mut store);
    let state = store.get_state();
    expect(
        Entity::List.reaction(state, &hat(7, 0, HatPosition::Right, 500)),
        &[
            "UpdateJoystickLastAction(500, 7, 0)",
            "NextPage { timestamp: 500, step: 1 }",
        ],
        &[],
    );
    expect(
        Entity::List.reaction(state, &hat(7, 0, HatPosition::Left, 500)),
        &[
            "UpdateJoystickLastAction(500, 7, 0)",
            "NextPage { timestamp: 500, step: -1 }",
        ],
        &[],
    );
    expect(
        Entity::List.reaction(state, &button(7, 6, 500)),
        &[
            "UpdateJoystickLastAction(500, 7, 1)",
            "LaunchGame(500, 7, 1)",
        ],
        &[],
    );
    expect(Entity::List.reaction(state, &button(7, 7, 500)), &[], &[]);
    expect(Entity::List.reaction(state, &button(12, 0, 500)), &[], &[]);
}

#[test]
fn root_reacts_to_quit_and_hotplug() {
    let store = list_store();
    let state = store.get_state();
    expect(
        Entity::Root.reaction(state, &InputEvent::Quit),
        &["Quit"],
        &[PlatformRequest::Quit],
    );
    expect(
        Entity::Root.reaction(
            state,
            &InputEvent::JoyDeviceAdded {
                which: 2,
                timestamp: 40,
            },
        ),
        &[],
        &[PlatformRequest::OpenJoystick {
            which: 2,
            timestamp: 40,
        }],
    );
    expect(
        Entity::Root.reaction(
            state,
            &InputEvent::JoyDeviceRemoved {
                which: 7,
                timestamp: 41,
            },
        ),
        &["RemoveJoystick(41, 7)"],
        &[PlatformRequest::CloseJoystick { which: 7 }],
    );
    expect(Entity::Root.reaction(state, &button(7, 0, 500)), &[], &[]);
    expect(Entity::Root.reaction(state, &InputEvent::Other), &[], &[]);
}

#[test]
fn launcher_lets_unseated_splits_join() {
    let mut store = launcher_store();
    {
        let state = store.get_state();
        assert_eq!(state.screen, Screen::GameLauncher);
        // Split 0 is seated already.
        expect(Entity::GameLauncher.reaction(state, &button(7, 0, 500)), &[], &[]);
        expect(
            Entity::GameLauncher.reaction(state, &button(7, 6, 500)),
            &[
                "UpdateJoystickLastAction(500, 7, 1)",
                "AddPlayer(500, 7, 1)",
            ],
            &[],
        );
        expect(Entity::GameLauncher.reaction(state, &button(7, 8, 500)), &[], &[]);
        expect(
            Entity::GameLauncher.reaction(state, &hat(7, 1, HatPosition::Up, 500)),
            &[],
            &[],
        );
    }
    let platform = Entity::GameLauncher.apply_event(&button(7, 6, 500), &mut store);
    assert!(platform.is_empty());
    assert!(settle(&mut store));
    let state = store.get_state();
    let player = state.players[1].as_ref().unwrap();
    assert_eq!((player.joystick, player.joystick_split), (7, 1));
    assert_eq!(state.last_joystick_action.get(&(7, 1)), Some(&500));
}

#[test]
fn player_menu_reacts_to_its_own_split_only() {
    let store = launcher_store();
    let state = store.get_state();
    let menu = Entity::PlayerMenu { player_index: 0 };
    expect(
        menu.reaction(state, &hat(7, 0, HatPosition::Right, 500)),
        &[
            "UpdateJoystickLastAction(500, 7, 0)",
            "NextPlayerMenu(500, 7, 0)",
        ],
        &[],
    );
    expect(
        menu.reaction(state, &axis(7, 0, -32000, 500)),
        &[
            "UpdateJoystickLastAction(500, 7, 0)",
            "PrevPlayerMenu(500, 7, 0)",
        ],
        &[],
    );
    expect(
        menu.reaction(state, &button(7, 0, 500)),
        &[
            "UpdateJoystickLastAction(500, 7, 0)",
            "GoPlayerMenu(500, 7, 0)",
        ],
        &[],
    );
    expect(menu.reaction(state, &button(7, 1, 500)), &[], &[]);
    expect(menu.reaction(state, &button(7, 6, 500)), &[], &[]);
    expect(menu.reaction(state, &hat(7, 1, HatPosition::Right, 500)), &[], &[]);
    expect(menu.reaction(state, &hat(7, 0, HatPosition::Up, 500)), &[], &[]);
    expect(menu.reaction(state, &axis(7, 1, 32000, 500)), &[], &[]);
    expect(menu.reaction(state, &hat(8, 0, HatPosition::Right, 500)), &[], &[]);
    let other = Entity::PlayerMenu { player_index: 1 };
    expect(other.reaction(state, &button(7, 0, 500)), &[], &[]);
    let beyond = Entity::PlayerMenu { player_index: 10 };
    expect(beyond.reaction(state, &button(7, 0, 500)), &[], &[]);
}

#[test]
fn capture_binds_filtered_events_of_its_split() {
    let mut store = launcher_store();
    store.dispatch(Action::GoPlayerMenu(3, 7, 0));
    store.dispatch(Action::GoPlayerMenu(4, 7, 0));
    settle(&mut store);
    let state = store.get_state();
    assert!(state.players[0].as_ref().unwrap().grab_input.is_some());
    let capture = Entity::PlayerGrabInput { player_index: 0 };
    expect(
        capture.reaction(state, &button(7, 3, 500)),
        &[
            "UpdateJoystickLastAction(500, 7, 0)",
            "BindPlayerJoystickEvent(500, 0, Button(3))",
        ],
        &[],
    );
    expect(capture.reaction(state, &button(7, 9, 500)), &[], &[]);
    expect(
        capture.reaction(state, &hat(7, 0, HatPosition::Down, 500)),
        &[
            "UpdateJoystickLastAction(500, 7, 0)",
            "BindPlayerJoystickEvent(500, 0, Hat(0, Down))",
        ],
        &[],
    );
    expect(
        capture.reaction(state, &hat(7, 0, HatPosition::Centered, 500)),
        &[],
        &[],
    );
    expect(
        capture.reaction(state, &axis(7, 1, -32768, 500)),
        &[
            "UpdateJoystickLastAction(500, 7, 0)",
            "BindPlayerJoystickEvent(500, 0, Axis(1, Negative))",
        ],
        &[],
    );
    expect(capture.reaction(state, &axis(7, 1, -32768, 399)), &[], &[]);
    expect(capture.reaction(state, &axis(7, 2, 32767, 500)), &[], &[]);
}

#[test]
fn host_button_capture_binds_launches_and_cancels() {
    let mut store = launcher_store();
    // Give the host a mapping, so that its menu can reach Ready.
    store.dispatch(Action::GoPlayerMenu(3, 7, 0));
    store.dispatch(Action::GoPlayerMenu(4, 7, 0));
    for b in 0..8u8 {
        store.dispatch(Action::BindPlayerJoystickEvent(
            5,
            0,
            JoystickEvent::Button(b),
        ));
    }
    store.dispatch(Action::NextPlayerMenu(6, 7, 0));
    store.dispatch(Action::NextPlayerMenu(7, 7, 0));
    store.dispatch(Action::GoPlayerMenu(8, 7, 0));
    store.dispatch(Action::NextPlayerMenu(9, 7, 0));
    settle(&mut store);
    assert_eq!(
        store.get_state().players[0].as_ref().unwrap().menu,
        PlayerMenu::Ready
    );
    store.dispatch(Action::GoPlayerMenu(10, 7, 0));
    settle(&mut store);
    let grab = Entity::PlayerGrabEmulatorButtons;
    assert!(grab.is_active(store.get_state()));
    expect(
        grab.reaction(store.get_state(), &button(7, 4, 1000)),
        &[
            "UpdateJoystickLastAction(1000, 7, 0)",
            "BindEmulatorButton(1000, Button(4))",
        ],
        &[],
    );
    expect(
        grab.reaction(store.get_state(), &hat(7, 0, HatPosition::Up, 1000)),
        &[],
        &[],
    );
    expect(grab.reaction(store.get_state(), &button(7, 7, 1000)), &[], &[]);
    grab.apply_event(&button(7, 4, 1000), &mut store);
    settle(&mut store);
    // A different second button is the menu toggle and launches.
    expect(
        grab.reaction(store.get_state(), &button(7, 5, 2000)),
        &[
            "UpdateJoystickLastAction(2000, 7, 0)",
            "BindEmulatorButton(2000, Button(5))",
        ],
        &[PlatformRequest::Quit],
    );
    // The hotkey again calls everything off.
    expect(
        grab.reaction(store.get_state(), &button(7, 4, 2000)),
        &["UpdateJoystickLastAction(2000, 7, 0)", "Quit"],
        &[PlatformRequest::Quit],
    );
    expect(grab.reaction(store.get_state(), &button(7, 4, 1100)), &[], &[]);
    let platform = grab.apply_event(&button(7, 4, 2000), &mut store);
    assert_eq!(platform, vec![PlatformRequest::Quit]);
    settle(&mut store);
    assert_eq!(store.get_state().screen, Screen::List);
    assert!(store.get_state().players[0].is_none());
}

#[test]
fn entities_are_active_in_their_states() {
    let mut store = list_store();
    {
        let state = store.get_state();
        assert!(Entity::Root.is_active(state));
        assert!(Entity::List.is_active(state));
        assert!(!Entity::GameLauncher.is_active(state));
        assert!(!Entity::PlayerMenu { player_index: 0 }.is_active(state));
        assert!(!Entity::PlayerGrabInput { player_index: 0 }.is_active(state));
        assert!(!Entity::PlayerGrabEmulatorButtons.is_active(state));
    }
    store.dispatch(Action::NextRom {
        timestamp: 1,
        step: 1,
    });
    store.dispatch(Action::LaunchGame(2, 7, 0));
    settle(&mut store);
    {
        let state = store.get_state();
        assert!(Entity::Root.is_active(state));
        assert!(!Entity::List.is_active(state));
        assert!(Entity::GameLauncher.is_active(state));
        assert!(Entity::PlayerMenu { player_index: 0 }.is_active(state));
        assert!(!Entity::PlayerMenu { player_index: 1 }.is_active(state));
        assert!(!Entity::PlayerMenu { player_index: 10 }.is_active(state));
        assert!(!Entity::PlayerGrabInput { player_index: 0 }.is_active(state));
        assert!(!Entity::PlayerGrabInput { player_index: 99 }.is_active(state));
    }
    store.dispatch(Action::GoPlayerMenu(3, 7, 0));
    store.dispatch(Action::GoPlayerMenu(4, 7, 0));
    settle(&mut store);
    let state = store.get_state();
    assert!(!Entity::PlayerMenu { player_index: 0 }.is_active(state));
    assert!(Entity::PlayerGrabInput { player_index: 0 }.is_active(state));
}
