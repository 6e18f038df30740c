use crate::bindings::{AxisState, HatState, JoystickEvent};
use crate::joystick::{JoystickGuid, JoystickInfo};
use crate::state::{clone_strings, PlayerView, Screen, State, StateView, PLAYER_SLOTS};
use crate::text::{decimal, push_decimal};
use crate::vec_map::{distinct_keys, has_key, index_of, lemma_entry, Key};
use vstd::prelude::*;

verus! {

/// The name of a hat direction in a binding.
pub open spec fn hat_name(direction: HatState) -> Seq<char> {
    match direction {
        HatState::Up => "up"@,
        HatState::Down => "down"@,
        HatState::Left => "left"@,
        HatState::Right => "right"@,
    }
}

/// The right-hand part of a binding line: the kind of input and the
/// expression that names the button, hat direction or axis side. The
/// placeholder has none.
pub open spec fn binding_text(event: JoystickEvent) -> Seq<char> {
    match event {
        JoystickEvent::Button(x) => "btn = "@ + decimal(x as nat),
        JoystickEvent::Hat(x, direction) => "btn = h"@ + decimal(x as nat) + hat_name(direction),
        JoystickEvent::Axis(x, AxisState::Positive) => "axis = +"@ + decimal(x as nat),
        JoystickEvent::Axis(x, AxisState::Negative) => "axis = -"@ + decimal(x as nat),
        JoystickEvent::Unassigned => Seq::empty(),
    }
}

/// The line for one control of the player with ordinal `ordinal`: a
/// binding, or a comment where the control is unassigned.
pub open spec fn control_line(ordinal: nat, control: Seq<char>, event: JoystickEvent) -> Seq<char> {
    if event is Unassigned {
        "// input_player"@ + decimal(ordinal) + "_"@ + control + " unassigned\n"@
    } else {
        "input_player"@ + decimal(ordinal) + "_"@ + control + "_"@ + binding_text(event) + "\n"@
    }
}

/// The lines for the controls from position `from` on: one per control
/// that the mapping has an entry for.
pub open spec fn control_lines(
    ordinal: nat,
    mapping: Seq<JoystickEvent>,
    controls: Seq<(String, String)>,
    from: int,
) -> Seq<char>
    decreases mapping.len() - from,
{
    if from < 0 || from >= mapping.len() || from >= controls.len() {
        Seq::empty()
    } else {
        control_line(ordinal, controls[from].0@, mapping[from]) + control_lines(
            ordinal,
            mapping,
            controls,
            from + 1,
        )
    }
}

/// The two lines for the hotkey and the menu toggle, where both were captured.
pub open spec fn emulator_button_lines(
    grabbed: Option<(Option<JoystickEvent>, Option<JoystickEvent>)>,
) -> Seq<char> {
    match grabbed {
        Some((Some(hotkey), Some(menu))) => if hotkey is Unassigned || menu is Unassigned {
            Seq::empty()
        } else {
            "input_enable_hotkey_"@ + binding_text(hotkey) + "\n"@ + "input_menu_toggle_"@
                + binding_text(menu) + "\n"@
        },
        _ => Seq::empty(),
    }
}

/// Position of controller `joystick` among the attached controllers in the
/// order of their instance handles: the number of attached handles below it.
pub open spec fn joystick_order(joysticks: Map<i32, JoystickInfo>, joystick: i32) -> nat {
    joysticks.dom().filter(|k: i32| k < joystick).len()
}

/// The mapping that applies to a player: the one stored for the selected
/// ROM, else the one stored for the selected emulator.
pub open spec fn resolved_mapping(s: StateView, joystick: i32, split: u32) -> Option<
    Seq<JoystickEvent>,
> {
    if s.game_configs.contains_key(s.game_key(joystick, split)) {
        Some(s.game_configs[s.game_key(joystick, split)])
    } else if s.console_configs.contains_key(s.console_key(joystick, split)) {
        Some(s.console_configs[s.console_key(joystick, split)])
    } else {
        None
    }
}

/// The section of one player: the index of its controller, a line per
/// control, the emulator buttons where it captured them, and an empty line.
pub open spec fn player_section(s: StateView, ordinal: nat, p: PlayerView) -> Seq<char> {
    "input_player"@ + decimal(ordinal) + "_joypad_index = "@ + decimal(
        joystick_order(s.joysticks, p.joystick),
    ) + "\n"@ + (match resolved_mapping(s, p.joystick, p.joystick_split) {
        Some(mapping) => control_lines(ordinal, mapping, s.emulator().controls@, 0),
        None => Seq::empty(),
    }) + emulator_button_lines(p.grab_emulator_buttons) + "\n"@
}

/// The sections of the players in the slots from `from` on, where the
/// first of them has ordinal `ordinal`.
pub open spec fn player_sections(s: StateView, from: int, ordinal: nat) -> Seq<char>
    decreases PLAYER_SLOTS - from,
{
    if from < 0 || from >= PLAYER_SLOTS {
        Seq::empty()
    } else {
        match s.players[from] {
            Some(p) => player_section(s, ordinal, p) + player_sections(s, from + 1, ordinal + 1),
            None => player_sections(s, from + 1, ordinal),
        }
    }
}

/// The configuration text that is handed to the emulator.
pub open spec fn config_text(s: StateView) -> Seq<char> {
    player_sections(s, 0, 1) + "config_save_on_exit = false\n"@
}

fn push_binding(out: &mut String, event: JoystickEvent)
    ensures
        final(out)@ == old(out)@ + binding_text(event),
{
    match event {
        JoystickEvent::Button(x) => {
            out.append("btn = ");
            push_decimal(out, x as u64);
            assert(final(out)@ =~= old(out)@ + binding_text(event));
        },
        JoystickEvent::Hat(x, direction) => {
            out.append("btn = h");
            push_decimal(out, x as u64);
            out.append(
                match direction {
                    HatState::Up => "up",
                    HatState::Down => "down",
                    HatState::Left => "left",
                    HatState::Right => "right",
                },
            );
            assert(final(out)@ =~= old(out)@ + binding_text(event));
        },
        JoystickEvent::Axis(x, side) => {
            match side {
                AxisState::Positive => {
                    out.append("axis = +");
                },
                AxisState::Negative => {
                    out.append("axis = -");
                },
            }
            push_decimal(out, x as u64);
            assert(final(out)@ =~= old(out)@ + binding_text(event));
        },
        JoystickEvent::Unassigned => {
            assert(final(out)@ =~= old(out)@ + binding_text(event));
        },
    }
}

fn push_control_line(out: &mut String, ordinal: u64, control: &str, event: JoystickEvent)
    ensures
        final(out)@ == old(out)@ + control_line(ordinal as nat, control@, event),
{
    match event {
        JoystickEvent::Unassigned => {
            out.append("// input_player");
            push_decimal(out, ordinal);
            out.append("_");
            out.append(control);
            out.append(" unassigned\n");
        },
        _ => {
            out.append("input_player");
            push_decimal(out, ordinal);
            out.append("_");
            out.append(control);
            out.append("_");
            push_binding(out, event);
            out.append("\n");
        },
    }
    assert(final(out)@ =~= old(out)@ + control_line(ordinal as nat, control@, event));
}

fn push_control_lines(
    out: &mut String,
    ordinal: u64,
    mapping: &Vec<JoystickEvent>,
    controls: &Vec<(String, String)>,
)
    ensures
        final(out)@ == old(out)@ + control_lines(ordinal as nat, mapping@, controls@, 0),
{
    let mut i: usize = 0;
    while i < mapping.len() && i < controls.len()
        invariant
            i <= mapping@.len(),
            out@ + control_lines(ordinal as nat, mapping@, controls@, i as int) == old(out)@
                + control_lines(ordinal as nat, mapping@, controls@, 0),
        decreases mapping@.len() - i,
    {
        let ghost before = out@;
        push_control_line(out, ordinal, controls[i].0.as_str(), mapping[i]);
        proof {
            let line = control_line(ordinal as nat, controls@[i as int].0@, mapping@[i as int]);
            let rest = control_lines(ordinal as nat, mapping@, controls@, i + 1);
            assert((before + line) + rest =~= before + (line + rest));
        }
        i += 1;
    }
    assert(out@ + Seq::<char>::empty() =~= out@);
}

fn push_emulator_button_lines(
    out: &mut String,
    grabbed: Option<(Option<JoystickEvent>, Option<JoystickEvent>)>,
)
    ensures
        final(out)@ == old(out)@ + emulator_button_lines(grabbed),
{
    match grabbed {
        Some((Some(hotkey), Some(menu))) => {
            let unassigned = match hotkey {
                JoystickEvent::Unassigned => true,
                _ => match menu {
                    JoystickEvent::Unassigned => true,
                    _ => false,
                },
            };
            if !unassigned {
                out.append("input_enable_hotkey_");
                push_binding(out, hotkey);
                out.append("\n");
                out.append("input_menu_toggle_");
                push_binding(out, menu);
                out.append("\n");
            }
        },
        _ => {},
    }
    assert(final(out)@ =~= old(out)@ + emulator_button_lines(grabbed));
}

/// The handles among the keys of `entries` whose entry meets `wanted`.
pub open spec fn handles_where(
    entries: Seq<(i32, JoystickInfo)>,
    wanted: spec_fn(i32, JoystickInfo) -> bool,
) -> Set<i32> {
    Set::new(|k: i32| has_key(entries, k) && wanted(k, entries[index_of(entries, k)].1))
}

/// Taking one more entry into account adds its handle where the entry meets `wanted`.
pub proof fn lemma_handles_step(
    entries: Seq<(i32, JoystickInfo)>,
    wanted: spec_fn(i32, JoystickInfo) -> bool,
    i: int,
)
    requires
        distinct_keys(entries),
        0 <= i < entries.len(),
        handles_where(entries.subrange(0, i), wanted).finite(),
    ensures
        handles_where(entries.subrange(0, i + 1), wanted).finite(),
        handles_where(entries.subrange(0, i + 1), wanted).len() == handles_where(
            entries.subrange(0, i),
            wanted,
        ).len() + (if wanted(entries[i].0, entries[i].1) {
            1nat
        } else {
            0nat
        }),
{
    let before = entries.subrange(0, i);
    let after = entries.subrange(0, i + 1);
    let key = entries[i].0;
    assert(distinct_keys(before)) by {
        assert forall|a: int, b: int|
            0 <= a < before.len() && 0 <= b < before.len() && #[trigger] before[a].0.model()
                == #[trigger] before[b].0.model() implies a == b by {
            assert(entries[a].0.model() == entries[b].0.model());
        }
    }
    assert(distinct_keys(after)) by {
        assert forall|a: int, b: int|
            0 <= a < after.len() && 0 <= b < after.len() && #[trigger] after[a].0.model()
                == #[trigger] after[b].0.model() implies a == b by {
            assert(entries[a].0.model() == entries[b].0.model());
        }
    }
    assert(!has_key(before, key)) by {
        if has_key(before, key) {
            let a = index_of(before, key);
            assert(entries[a].0.model() == entries[i].0.model());
        }
    }
    assert forall|k: i32| has_key(after, k) == (has_key(before, k) || k == key) by {
        if has_key(after, k) {
            let a = index_of(after, k);
            if a < i {
                assert(before[a].0.model() == k);
            }
        }
        if has_key(before, k) {
            let a = index_of(before, k);
            assert(after[a].0.model() == k);
        }
        if k == key {
            assert(after[i].0.model() == k);
        }
    }
    assert forall|k: i32| has_key(before, k) implies after[index_of(after, k)].1 == before[index_of(
        before,
        k,
    )].1 by {
        let a = index_of(before, k);
        assert(after[a].0.model() == k);
        lemma_entry(after, a);
        lemma_entry(before, a);
    }
    lemma_entry(after, i);
    if wanted(key, entries[i].1) {
        assert(handles_where(after, wanted) =~= handles_where(before, wanted).insert(key));
    } else {
        assert(handles_where(after, wanted) =~= handles_where(before, wanted));
    }
}

/// Position of controller `joystick` among the attached controllers in the
/// order of their instance handles.
pub fn controller_order(state: &State, joystick: i32) -> (r: usize)
    ensures
        r == joystick_order(state@.joysticks, joystick),
{
    state.joysticks.distinct();
    let ghost entries = state.joysticks.entries();
    let ghost wanted = |k: i32, info: JoystickInfo| k < joystick;
    let n = state.joysticks.len();
    let mut count: usize = 0;
    let mut i: usize = 0;
    assert(handles_where(entries.subrange(0, 0), wanted) =~= Set::<i32>::empty());
    while i < n
        invariant
            i <= n,
            n == entries.len(),
            entries == state.joysticks.entries(),
            distinct_keys(entries),
            wanted == |k: i32, info: JoystickInfo| k < joystick,
            count <= i,
            handles_where(entries.subrange(0, i as int), wanted).finite(),
            count == handles_where(entries.subrange(0, i as int), wanted).len(),
        decreases n - i,
    {
        let key = *state.joysticks.key_at(i);
        proof {
            lemma_handles_step(entries, wanted, i as int);
        }
        if key < joystick {
            count += 1;
        }
        i += 1;
    }
    proof {
        assert(entries.subrange(0, n as int) =~= entries);
        assert(handles_where(entries, wanted) =~= state@.joysticks.dom().filter(
            |k: i32| k < joystick,
        ));
    }
    count
}

/// Number of attached controllers with identity `guid`.
pub open spec fn sharing(joysticks: Map<i32, JoystickInfo>, guid: Seq<u8>) -> nat {
    joysticks.dom().filter(|k: i32| joysticks[k].guid@ == guid).len()
}

/// The index that tells a newly attached controller with identity `guid`
/// from the attached controllers of the same identity: their number.
pub fn next_index(state: &State, guid: &JoystickGuid) -> (r: usize)
    ensures
        r == sharing(state@.joysticks, guid@),
{
    state.joysticks.distinct();
    let ghost entries = state.joysticks.entries();
    let ghost wanted = |k: i32, info: JoystickInfo| info.guid@ == guid@;
    let n = state.joysticks.len();
    let mut count: usize = 0;
    let mut i: usize = 0;
    assert(handles_where(entries.subrange(0, 0), wanted) =~= Set::<i32>::empty());
    while i < n
        invariant
            i <= n,
            n == entries.len(),
            entries == state.joysticks.entries(),
            distinct_keys(entries),
            wanted == |k: i32, info: JoystickInfo| info.guid@ == guid@,
            count <= i,
            handles_where(entries.subrange(0, i as int), wanted).finite(),
            count == handles_where(entries.subrange(0, i as int), wanted).len(),
        decreases n - i,
    {
        let info = state.joysticks.value_at(i);
        proof {
            lemma_handles_step(entries, wanted, i as int);
        }
        if info.guid.same_bytes(guid) {
            count += 1;
        }
        i += 1;
    }
    proof {
        assert(entries.subrange(0, n as int) =~= entries);
        assert forall|k: i32| handles_where(entries, wanted).contains(k) == state@.joysticks.dom().filter(
            |k: i32| state@.joysticks[k].guid@ == guid@,
        ).contains(k) by {
            if has_key(entries, k) {
                lemma_entry(entries, index_of(entries, k));
            }
        }
        assert(handles_where(entries, wanted) =~= state@.joysticks.dom().filter(
            |k: i32| state@.joysticks[k].guid@ == guid@,
        ));
    }
    count
}

fn mapping_for(state: &State, joystick: i32, split: u32) -> (r: Option<&Vec<JoystickEvent>>)
    requires
        state@.wf(),
        state@.has_rom(),
        state@.joysticks.contains_key(joystick),
    ensures
        r is Some == resolved_mapping(state@, joystick, split) is Some,
        r is Some ==> r.unwrap()@ == resolved_mapping(state@, joystick, split).unwrap(),
{
    let guid = match state.joysticks.get(&joystick) {
        Some(info) => info.guid,
        None => vstd::pervasive::unreached(),
    };
    match state.game_configs.get(&guid, &split, state.get_rom().file_name.as_str()) {
        Some(mapping) => Some(mapping),
        None => state.console_configs.get(&guid, &split, state.get_emulator().id.as_str()),
    }
}

fn push_player_section(out: &mut String, state: &State, ordinal: u64, slot: usize)
    requires
        state@.wf(),
        state@.has_rom(),
        slot < PLAYER_SLOTS,
        state@.players[slot as int] is Some,
    ensures
        final(out)@ == old(out)@ + player_section(
            state@,
            ordinal as nat,
            state@.players[slot as int].unwrap(),
        ),
{
    match &state.players[slot] {
        Some(player) => {
            let order = controller_order(state, player.joystick);
            out.append("input_player");
            push_decimal(out, ordinal);
            out.append("_joypad_index = ");
            push_decimal(out, order as u64);
            out.append("\n");
            match mapping_for(state, player.joystick, player.joystick_split) {
                Some(mapping) => {
                    push_control_lines(out, ordinal, mapping, state.get_controls());
                },
                None => {},
            }
            push_emulator_button_lines(out, player.grab_emulator_buttons);
            out.append("\n");
            assert(final(out)@ =~= old(out)@ + player_section(
                state@,
                ordinal as nat,
                state@.players[slot as int].unwrap(),
            ));
        },
        None => {},
    }
}

/// What is handed to the emulator when the event loop ends on the launcher
/// screen with a ROM selected: the launch command, the configuration text,
/// and the path of the ROM. Nothing is launched otherwise.
pub fn prepare_config(state: &State) -> (r: Option<(Vec<String>, String, String)>)
    requires
        state@.wf(),
    ensures
        r is Some == (state@.screen == Screen::GameLauncher && state@.has_rom()),
        r matches Some((command, config, rom)) ==> {
            &&& command@ == state@.emulator().command@
            &&& config@ == config_text(state@)
            &&& rom@ == state@.rom().path@
        },
{
    let launching = match state.screen {
        Screen::GameLauncher => true,
        Screen::List => false,
    };
    if !launching || !state.has_selected_rom() {
        return None;
    }
    let mut config = String::new();
    let mut ordinal: u64 = 1;
    let mut slot: usize = 0;
    assert(config@ + player_sections(state@, 0, 1) =~= player_sections(state@, 0, 1));
    while slot < PLAYER_SLOTS
        invariant
            slot <= PLAYER_SLOTS,
            1 <= ordinal <= slot + 1,
            state@.wf(),
            state@.has_rom(),
            config@ + player_sections(state@, slot as int, ordinal as nat) == player_sections(
                state@,
                0,
                1,
            ),
        decreases PLAYER_SLOTS - slot,
    {
        if state.players[slot].is_some() {
            let ghost before = config@;
            push_player_section(&mut config, state, ordinal, slot);
            proof {
                let section = player_section(
                    state@,
                    ordinal as nat,
                    state@.players[slot as int].unwrap(),
                );
                let rest = player_sections(state@, slot + 1, (ordinal + 1) as nat);
                assert((before + section) + rest =~= before + (section + rest));
            }
            ordinal += 1;
        }
        slot += 1;
    }
    assert(config@ + Seq::<char>::empty() =~= config@);
    config.append("config_save_on_exit = false\n");
    let command = clone_strings(&state.get_emulator().command);
    let rom = state.get_rom().path.clone();
    Some((command, config, rom))
}

} // verus!
