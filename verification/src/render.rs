use crate::draw::{script_view, TextOp, TextOpView};
use crate::entity::Entity;
use crate::state::{
    PlayerMenu, PlayerView, Rom, State, StateView, PAGE_SIZE, PLAYER_SLOTS,
};
use crate::text::{
    centre, centred, decimal, flush_right, flushed_right, push_decimal, shorten, shortened,
};
use vstd::prelude::*;

verus! {

/// Characters of a ROM name that the list shows before it cuts the name.
pub const NAME_LIMIT: usize = 39;

pub open spec fn white() -> TextOpView {
    TextOpView::Color(255, 255, 255)
}

pub open spec fn yellow() -> TextOpView {
    TextOpView::Color(255, 255, 0)
}

pub open spec fn black() -> TextOpView {
    TextOpView::Color(0, 0, 0)
}

pub open spec fn red() -> TextOpView {
    TextOpView::Color(255, 0, 0)
}

/// A menu entry: marked with angle brackets where it is the chosen one.
pub open spec fn highlight(chosen: bool, text: Seq<char>) -> Seq<TextOpView> {
    if chosen {
        seq![TextOpView::Print("> "@), TextOpView::Print(text), TextOpView::Print(" <"@)]
    } else {
        seq![TextOpView::Print("  "@), TextOpView::Print(text), TextOpView::Print("  "@)]
    }
}

/// Number of occupied slots before slot `slot`.
pub open spec fn seated_before(players: Seq<Option<PlayerView>>, slot: int) -> nat
    decreases slot,
{
    if slot <= 0 {
        0
    } else {
        seated_before(players, slot - 1) + (if players[slot - 1] is Some {
            1nat
        } else {
            0nat
        })
    }
}

/// The number under which the player in slot `slot` is shown, right-aligned in two characters.
pub open spec fn ordinal_text(s: StateView, slot: int) -> Seq<char> {
    flushed_right(decimal(seated_before(s.players, slot) + 1), 2)
}

/// The line of one ROM: its name, cut where it is too long, in yellow where the row is selected.
pub open spec fn rom_row(s: StateView, rom: Rom, row: int) -> Seq<TextOpView> {
    if row == s.rom_selected {
        seq![yellow(), TextOpView::Println(shortened(rom.name@, NAME_LIMIT as int)), white()]
    } else {
        seq![TextOpView::Println(shortened(rom.name@, NAME_LIMIT as int))]
    }
}

/// The lines of the ROMs of the current page from row `row` on.
pub open spec fn rom_rows(s: StateView, roms: Seq<Rom>, row: int) -> Seq<TextOpView>
    decreases PAGE_SIZE - row,
{
    if row < 0 || row >= PAGE_SIZE || s.page_index * PAGE_SIZE + row >= roms.len() {
        Seq::empty()
    } else {
        rom_row(s, roms[s.page_index * PAGE_SIZE + row], row) + rom_rows(s, roms, row + 1)
    }
}

/// `count` empty lines.
pub open spec fn empty_lines(count: int) -> Seq<TextOpView> {
    Seq::new(
        if count < 0 {
            0
        } else {
            count as nat
        },
        |i: int| TextOpView::Println(Seq::empty()),
    )
}

/// The line below the list: which page of how many, and how many ROMs.
pub open spec fn page_line(s: StateView, listed: nat) -> Seq<char> {
    flushed_right(
        "Page "@ + decimal((s.page_index + 1) as nat) + " of "@ + decimal(s.page_count as nat)
            + " ("@ + decimal(listed) + " roms)"@,
        42,
    )
}

/// The ROM list: the selected emulator between angle brackets, in yellow
/// while no row is selected; the ROMs of the current page, filled up with
/// empty lines to a full page; and the page line. Where the listing
/// failed, the reason in red takes the place of the list.
pub open spec fn list_script(s: StateView) -> Seq<TextOpView> {
    seq![
        TextOpView::LineSpacing { numerator: 3, denominator: 4 },
        TextOpView::Position { x: 0, y: 0 },
        if s.rom_selected == -1 {
            yellow()
        } else {
            white()
        },
        TextOpView::Println("< "@ + centred(s.emulator().name@, 38) + " >"@),
        TextOpView::Println(Seq::empty()),
        white(),
    ] + (match s.roms {
        Ok(roms) => rom_rows(s, roms@, 0) + empty_lines(
            PAGE_SIZE - (roms@.len() - s.page_index * PAGE_SIZE),
        ) + seq![
            TextOpView::Println(Seq::empty()),
            TextOpView::Println(page_line(s, roms@.len())),
        ],
        Err(reason) => seq![red(), TextOpView::Println(reason@)],
    })
}

/// The bars of the occupied slots from slot `slot` on.
pub open spec fn bars(s: StateView, slot: int) -> Seq<TextOpView>
    decreases PLAYER_SLOTS - slot,
{
    if slot < 0 || slot >= PLAYER_SLOTS {
        Seq::empty()
    } else {
        (if s.players[slot] is Some {
            seq![TextOpView::Bar(slot as usize)]
        } else {
            Seq::empty()
        }) + bars(s, slot + 1)
    }
}

/// The launcher screen: a bar in its colour for each occupied slot.
pub open spec fn launcher_script(s: StateView) -> Seq<TextOpView> {
    seq![TextOpView::LineSpacing { numerator: 3, denominator: 2 }] + bars(s, 0)
}

/// The player in slot `slot` cannot be ready yet: its controls are not
/// set up, or it is the host and another player is not ready.
pub open spec fn held_back(s: StateView, slot: int) -> bool {
    s.has_rom() && ((slot == 0 && !s.all_players_are_ready()) || s.player_needs_setup_controls(
        slot,
    ))
}

/// What opens the line of the player in slot `slot`.
pub open spec fn slot_opening(s: StateView, slot: usize) -> Seq<TextOpView> {
    seq![TextOpView::LineSpacing { numerator: 3, denominator: 2 }, white(), TextOpView::Slot(slot)]
}

/// The entries of the top menu: controls, start or ready, exit or leave.
/// The middle entry is blacked out while the player is held back.
pub open spec fn top_entries(s: StateView, slot: int, menu: PlayerMenu) -> Seq<TextOpView> {
    highlight(menu == PlayerMenu::Controls, "Controls"@) + (if held_back(s, slot) {
        seq![black()]
    } else {
        Seq::empty()
    }) + highlight(
        menu == PlayerMenu::Ready,
        if slot == 0 {
            "Start"@
        } else {
            "Ready"@
        },
    ) + seq![TextOpView::Print("        "@), white()] + highlight(
        menu == PlayerMenu::Leave,
        if slot == 0 {
            "Exit"@
        } else {
            "Leave"@
        },
    )
}

/// The entries of the controls menu: console, game, clear, back. The
/// third entry is blacked out while no mapping is stored for the game.
pub open spec fn controls_entries(s: StateView, slot: int, menu: PlayerMenu) -> Seq<TextOpView> {
    highlight(menu == PlayerMenu::ConsoleControls, "Console"@) + highlight(
        menu == PlayerMenu::GameControls,
        "Game"@,
    ) + (if s.has_rom() && s.player_has_game_controls(slot) {
        Seq::empty()
    } else {
        seq![black()]
    }) + highlight(menu == PlayerMenu::ClearConsoleControls, "Clear"@) + seq![
        TextOpView::Print(" "@),
        white(),
    ] + highlight(menu == PlayerMenu::ControlsExit, "Back"@)
}

/// What a player sees that waits for the others.
pub open spec fn waiting_entries() -> Seq<TextOpView> {
    seq![TextOpView::Print("   "@)] + highlight(true, "Waiting for other players..."@)
}

/// The entries of the menu in which the player in slot `slot` stands.
pub open spec fn menu_entries(s: StateView, slot: int, menu: PlayerMenu) -> Seq<TextOpView> {
    match menu {
        PlayerMenu::Controls | PlayerMenu::Ready | PlayerMenu::Leave => top_entries(s, slot, menu),
        PlayerMenu::Waiting => waiting_entries(),
        _ => controls_entries(s, slot, menu),
    }
}

/// The menu line of the player in slot `slot`: its number and the entries of its menu.
pub open spec fn menu_script(s: StateView, slot: usize) -> Seq<TextOpView> {
    if slot < PLAYER_SLOTS && s.players[slot as int] is Some {
        slot_opening(s, slot) + seq![TextOpView::Print(ordinal_text(s, slot as int) + " "@)]
            + menu_entries(s, slot as int, s.players[slot as int].unwrap().menu)
    } else {
        Seq::empty()
    }
}

/// The label of the control that the capture session of `p` waits for.
pub open spec fn awaited_label(s: StateView, p: PlayerView) -> Seq<char> {
    let captured = p.grab_input.unwrap().1.len();
    if captured < s.emulator().controls@.len() {
        s.emulator().controls@[captured as int].1@
    } else {
        Seq::empty()
    }
}

/// The line of a capture session: the player's number and the control to press a button for.
pub open spec fn capture_script(s: StateView, slot: usize) -> Seq<TextOpView> {
    if slot < PLAYER_SLOTS && s.players[slot as int] is Some
        && s.players[slot as int].unwrap().grab_input is Some {
        slot_opening(s, slot) + seq![
            TextOpView::Print(
                ordinal_text(s, slot as int) + "   Press button for:   "@ + awaited_label(
                    s,
                    s.players[slot as int].unwrap(),
                ),
            ),
        ]
    } else {
        Seq::empty()
    }
}

/// The line of the host's capture of the emulator buttons: which of the two it waits for.
pub open spec fn buttons_script(s: StateView) -> Seq<TextOpView> {
    if s.host_grabs_buttons() {
        let grabbed = s.players[0].unwrap().grab_emulator_buttons.unwrap();
        slot_opening(s, 0) + (if grabbed.0 is None {
            seq![TextOpView::Println("    Press button for: emulator hotkey"@)]
        } else if grabbed.1 is None {
            seq![TextOpView::Println("    Press button for: emulator menu"@)]
        } else {
            Seq::empty()
        })
    } else {
        Seq::empty()
    }
}

/// What the entity puts on screen in state `s`.
pub open spec fn script(entity: Entity, s: StateView) -> Seq<TextOpView> {
    match entity {
        Entity::Root => seq![TextOpView::Clear],
        Entity::List => list_script(s),
        Entity::GameLauncher => launcher_script(s),
        Entity::PlayerMenu { player_index } => menu_script(s, player_index),
        Entity::PlayerGrabInput { player_index } => capture_script(s, player_index),
        Entity::PlayerGrabEmulatorButtons => buttons_script(s),
    }
}

fn push_op(out: &mut Vec<TextOp>, op: TextOp)
    ensures
        script_view(final(out)@) == script_view(old(out)@).push(op@),
{
    out.push(op);
    assert(script_view(out@) =~= script_view(old(out)@).push(op@));
}

fn push_print(out: &mut Vec<TextOp>, text: &str)
    ensures
        script_view(final(out)@) == script_view(old(out)@).push(TextOpView::Print(text@)),
{
    push_op(out, TextOp::Print(text.to_owned()));
}

fn push_println(out: &mut Vec<TextOp>, text: &str)
    ensures
        script_view(final(out)@) == script_view(old(out)@).push(TextOpView::Println(text@)),
{
    push_op(out, TextOp::Println(text.to_owned()));
}

fn push_highlight(out: &mut Vec<TextOp>, chosen: bool, text: &str)
    ensures
        script_view(final(out)@) == script_view(old(out)@) + highlight(chosen, text@),
{
    if chosen {
        push_print(out, "> ");
        push_print(out, text);
        push_print(out, " <");
    } else {
        push_print(out, "  ");
        push_print(out, text);
        push_print(out, "  ");
    }
    assert(script_view(out@) =~= script_view(old(out)@) + highlight(chosen, text@));
}

fn push_rom_rows(out: &mut Vec<TextOp>, state: &State, roms: &Vec<Rom>)
    requires
        state@.wf(),
    ensures
        script_view(final(out)@) == script_view(old(out)@) + rom_rows(state@, roms@, 0),
{
    let first: usize = state.page_index as usize * 15;
    let mut row: usize = 0;
    assert(script_view(out@) + rom_rows(state@, roms@, 0) =~= script_view(old(out)@) + rom_rows(
        state@,
        roms@,
        0,
    ));
    while row < 15 && first + row < roms.len()
        invariant
            row <= 15,
            state@.wf(),
            first == state.page_index * PAGE_SIZE,
            script_view(out@) + rom_rows(state@, roms@, row as int) == script_view(old(out)@)
                + rom_rows(state@, roms@, 0),
        decreases 15 - row,
    {
        let ghost before = script_view(out@);
        let rom = &roms[first + row];
        let selected = row as i32 == state.rom_selected;
        if selected {
            push_op(out, TextOp::Color(255, 255, 0));
        }
        push_op(out, TextOp::Println(shorten(rom.name.as_str(), NAME_LIMIT)));
        if selected {
            push_op(out, TextOp::Color(255, 255, 255));
        }
        proof {
            let line = rom_row(state@, *rom, row as int);
            let rest = rom_rows(state@, roms@, row + 1);
            assert(script_view(out@) =~= before + line);
            assert((before + line) + rest =~= before + (line + rest));
        }
        row += 1;
    }
    assert(script_view(out@) + Seq::<TextOpView>::empty() =~= script_view(out@));
}

fn push_empty_lines(out: &mut Vec<TextOp>, count: usize)
    ensures
        script_view(final(out)@) == script_view(old(out)@) + empty_lines(count as int),
{
    let mut i: usize = 0;
    assert(script_view(out@) =~= script_view(old(out)@) + empty_lines(0));
    while i < count
        invariant
            i <= count,
            script_view(out@) == script_view(old(out)@) + empty_lines(i as int),
        decreases count - i,
    {
        push_println(out, "");
        proof {
            assert(""@ =~= Seq::<char>::empty()) by {
                reveal_strlit("");
            }
            assert(script_view(out@) =~= script_view(old(out)@) + empty_lines(i + 1));
        }
        i += 1;
    }
}

fn page_line_text(state: &State, listed: usize) -> (r: String)
    requires
        state@.wf(),
    ensures
        r@ == page_line(state@, listed as nat),
{
    let mut line = String::new();
    line.append("Page ");
    push_decimal(&mut line, (state.page_index + 1) as u64);
    line.append(" of ");
    push_decimal(&mut line, state.page_count as u64);
    line.append(" (");
    push_decimal(&mut line, listed as u64);
    line.append(" roms)");
    assert(line@ =~= "Page "@ + decimal((state.page_index + 1) as nat) + " of "@ + decimal(
        state.page_count as nat,
    ) + " ("@ + decimal(listed as nat) + " roms)"@);
    flush_right(line.as_str(), 42)
}

fn render_list(state: &State) -> (r: Vec<TextOp>)
    requires
        state@.wf(),
    ensures
        script_view(r@) == list_script(state@),
{
    let mut out: Vec<TextOp> = Vec::new();
    assert(script_view(out@) =~= Seq::<TextOpView>::empty());
    push_op(&mut out, TextOp::LineSpacing { numerator: 3, denominator: 4 });
    push_op(&mut out, TextOp::Position { x: 0, y: 0 });
    if state.rom_selected == -1 {
        push_op(&mut out, TextOp::Color(255, 255, 0));
    } else {
        push_op(&mut out, TextOp::Color(255, 255, 255));
    }
    let mut title = String::new();
    title.append("< ");
    title.append(centre(state.get_emulator().name.as_str(), 38).as_str());
    title.append(" >");
    assert(title@ =~= "< "@ + centred(state@.emulator().name@, 38) + " >"@);
    push_op(&mut out, TextOp::Println(title));
    push_println(&mut out, "");
    push_op(&mut out, TextOp::Color(255, 255, 255));
    proof {
        reveal_strlit("");
        assert(""@ =~= Seq::<char>::empty());
    }
    let ghost head = script_view(out@);
    match &state.roms {
        Ok(roms) => {
            push_rom_rows(&mut out, state, roms);
            let on_page: i64 = roms.len() as i64 - state.page_index as i64 * 15;
            let missing: usize = if on_page >= 15 {
                0
            } else if on_page < 0 {
                15
            } else {
                (15 - on_page) as usize
            };
            assert(empty_lines(missing as int) =~= empty_lines(
                PAGE_SIZE - (roms@.len() - state@.page_index * PAGE_SIZE),
            )) by {
                assert(on_page >= 0);
            }
            push_empty_lines(&mut out, missing);
            push_println(&mut out, "");
            push_op(&mut out, TextOp::Println(page_line_text(state, roms.len())));
            assert(script_view(out@) =~= head + (rom_rows(state@, roms@, 0) + empty_lines(
                PAGE_SIZE - (roms@.len() - state@.page_index * PAGE_SIZE),
            ) + seq![
                TextOpView::Println(Seq::empty()),
                TextOpView::Println(page_line(state@, roms@.len())),
            ]));
        },
        Err(reason) => {
            push_op(&mut out, TextOp::Color(255, 0, 0));
            push_println(&mut out, reason.as_str());
            assert(script_view(out@) =~= head + seq![red(), TextOpView::Println(reason@)]);
        },
    }
    assert(head =~= seq![
        TextOpView::LineSpacing { numerator: 3, denominator: 4 },
        TextOpView::Position { x: 0, y: 0 },
        if state@.rom_selected == -1 {
            yellow()
        } else {
            white()
        },
        TextOpView::Println("< "@ + centred(state@.emulator().name@, 38) + " >"@),
        TextOpView::Println(Seq::empty()),
        white(),
    ]);
    out
}

fn render_launcher(state: &State) -> (r: Vec<TextOp>)
    ensures
        script_view(r@) == launcher_script(state@),
{
    let mut out: Vec<TextOp> = Vec::new();
    assert(script_view(out@) =~= Seq::<TextOpView>::empty());
    push_op(&mut out, TextOp::LineSpacing { numerator: 3, denominator: 2 });
    let ghost head = script_view(out@);
    let mut slot: usize = 0;
    assert(script_view(out@) + bars(state@, 0) =~= head + bars(state@, 0));
    while slot < PLAYER_SLOTS
        invariant
            slot <= PLAYER_SLOTS,
            script_view(out@) + bars(state@, slot as int) == head + bars(state@, 0),
        decreases PLAYER_SLOTS - slot,
    {
        let ghost before = script_view(out@);
        if state.players[slot].is_some() {
            push_op(&mut out, TextOp::Bar(slot));
            assert((before + seq![TextOpView::Bar(slot)]) + bars(state@, slot + 1) =~= before + (
            seq![TextOpView::Bar(slot)] + bars(state@, slot + 1)));
            assert(before.push(TextOpView::Bar(slot)) =~= before + seq![TextOpView::Bar(slot)]);
        } else {
            assert(Seq::<TextOpView>::empty() + bars(state@, slot + 1) =~= bars(state@, slot + 1));
        }
        slot += 1;
    }
    assert(script_view(out@) + Seq::<TextOpView>::empty() =~= script_view(out@));
    assert(head =~= seq![TextOpView::LineSpacing { numerator: 3, denominator: 2 }]);
    out
}

/// Number of occupied slots before slot `slot`.
pub fn players_before(state: &State, slot: usize) -> (r: usize)
    requires
        slot <= PLAYER_SLOTS,
    ensures
        r == seated_before(state@.players, slot as int),
        r <= slot,
{
    let mut count: usize = 0;
    let mut i: usize = 0;
    while i < slot
        invariant
            i <= slot,
            slot <= PLAYER_SLOTS,
            count <= i,
            count == seated_before(state@.players, i as int),
        decreases slot - i,
    {
        if state.players[i].is_some() {
            count += 1;
        }
        i += 1;
    }
    count
}

fn ordinal_string(state: &State, slot: usize) -> (r: String)
    requires
        slot < PLAYER_SLOTS,
    ensures
        r@ == ordinal_text(state@, slot as int),
{
    let mut number = String::new();
    push_decimal(&mut number, players_before(state, slot) as u64 + 1);
    assert(number@ =~= decimal(seated_before(state@.players, slot as int) + 1));
    flush_right(number.as_str(), 2)
}

fn push_slot_opening(out: &mut Vec<TextOp>, state: &State, slot: usize)
    ensures
        script_view(final(out)@) == script_view(old(out)@) + slot_opening(state@, slot),
{
    push_op(out, TextOp::LineSpacing { numerator: 3, denominator: 2 });
    push_op(out, TextOp::Color(255, 255, 255));
    push_op(out, TextOp::Slot(slot));
    assert(script_view(out@) =~= script_view(old(out)@) + slot_opening(state@, slot));
}

fn push_top_entries(out: &mut Vec<TextOp>, state: &State, slot: usize, menu: PlayerMenu)
    requires
        state@.wf(),
        slot < PLAYER_SLOTS,
    ensures
        script_view(final(out)@) == script_view(old(out)@) + top_entries(state@, slot as int, menu),
{
    let held = state.has_selected_rom() && ((slot == 0 && !state.all_players_are_ready())
        || state.player_needs_setup_controls(slot));
    let ghost s0 = script_view(out@);
    push_highlight(
        out,
        match menu {
            PlayerMenu::Controls => true,
            _ => false,
        },
        "Controls",
    );
    let ghost s1 = script_view(out@);
    if held {
        push_op(out, TextOp::Color(0, 0, 0));
    }
    let ghost s2 = script_view(out@);
    push_highlight(
        out,
        match menu {
            PlayerMenu::Ready => true,
            _ => false,
        },
        if slot == 0 {
            "Start"
        } else {
            "Ready"
        },
    );
    let ghost s3 = script_view(out@);
    push_print(out, "        ");
    push_op(out, TextOp::Color(255, 255, 255));
    let ghost s4 = script_view(out@);
    push_highlight(
        out,
        match menu {
            PlayerMenu::Leave => true,
            _ => false,
        },
        if slot == 0 {
            "Exit"
        } else {
            "Leave"
        },
    );
    proof {
        let a = highlight(menu == PlayerMenu::Controls, "Controls"@);
        let b = if held_back(state@, slot as int) {
            seq![black()]
        } else {
            Seq::<TextOpView>::empty()
        };
        let c = highlight(
            menu == PlayerMenu::Ready,
            if slot == 0 {
                "Start"@
            } else {
                "Ready"@
            },
        );
        let d = seq![TextOpView::Print("        "@), white()];
        let e = highlight(
            menu == PlayerMenu::Leave,
            if slot == 0 {
                "Exit"@
            } else {
                "Leave"@
            },
        );
        assert(s1 == s0 + a);
        assert(s2 =~= s1 + b);
        assert(s3 == s2 + c);
        assert(s4 =~= s3 + d);
        assert(script_view(out@) == s4 + e);
        assert(s0 + a + b + c + d + e =~= s0 + (a + b + c + d + e));
    }
}

fn push_controls_entries(out: &mut Vec<TextOp>, state: &State, slot: usize, menu: PlayerMenu)
    requires
        state@.wf(),
        slot < PLAYER_SLOTS,
    ensures
        script_view(final(out)@) == script_view(old(out)@) + controls_entries(
            state@,
            slot as int,
            menu,
        ),
{
    let has_game = state.has_selected_rom() && state.player_has_game_controls(slot);
    let ghost s0 = script_view(out@);
    push_highlight(
        out,
        match menu {
            PlayerMenu::ConsoleControls => true,
            _ => false,
        },
        "Console",
    );
    let ghost s1 = script_view(out@);
    push_highlight(
        out,
        match menu {
            PlayerMenu::GameControls => true,
            _ => false,
        },
        "Game",
    );
    let ghost s2 = script_view(out@);
    if !has_game {
        push_op(out, TextOp::Color(0, 0, 0));
    }
    let ghost s3 = script_view(out@);
    push_highlight(
        out,
        match menu {
            PlayerMenu::ClearConsoleControls => true,
            _ => false,
        },
        "Clear",
    );
    let ghost s4 = script_view(out@);
    push_print(out, " ");
    push_op(out, TextOp::Color(255, 255, 255));
    let ghost s5 = script_view(out@);
    push_highlight(
        out,
        match menu {
            PlayerMenu::ControlsExit => true,
            _ => false,
        },
        "Back",
    );
    proof {
        let a = highlight(menu == PlayerMenu::ConsoleControls, "Console"@);
        let b = highlight(menu == PlayerMenu::GameControls, "Game"@);
        let c = if state@.has_rom() && state@.player_has_game_controls(slot as int) {
            Seq::<TextOpView>::empty()
        } else {
            seq![black()]
        };
        let d = highlight(menu == PlayerMenu::ClearConsoleControls, "Clear"@);
        let e = seq![TextOpView::Print(" "@), white()];
        let f = highlight(menu == PlayerMenu::ControlsExit, "Back"@);
        assert(s1 == s0 + a);
        assert(s2 == s1 + b);
        assert(s3 =~= s2 + c);
        assert(s4 == s3 + d);
        assert(s5 =~= s4 + e);
        assert(script_view(out@) == s5 + f);
        assert(s0 + a + b + c + d + e + f =~= s0 + (a + b + c + d + e + f));
    }
}

fn push_menu_entries(out: &mut Vec<TextOp>, state: &State, slot: usize, menu: PlayerMenu)
    requires
        state@.wf(),
        slot < PLAYER_SLOTS,
    ensures
        script_view(final(out)@) == script_view(old(out)@) + menu_entries(
            state@,
            slot as int,
            menu,
        ),
{
    match menu {
        PlayerMenu::Controls | PlayerMenu::Ready | PlayerMenu::Leave => {
            push_top_entries(out, state, slot, menu);
        },
        PlayerMenu::Waiting => {
            let ghost s0 = script_view(out@);
            push_print(out, "   ");
            push_highlight(out, true, "Waiting for other players...");
            assert(script_view(out@) =~= s0 + waiting_entries());
        },
        _ => {
            push_controls_entries(out, state, slot, menu);
        },
    }
}

fn render_menu(state: &State, slot: usize) -> (r: Vec<TextOp>)
    requires
        state@.wf(),
    ensures
        script_view(r@) == menu_script(state@, slot),
{
    let mut out: Vec<TextOp> = Vec::new();
    assert(script_view(out@) =~= Seq::<TextOpView>::empty());
    if slot < PLAYER_SLOTS {
        match &state.players[slot] {
            Some(player) => {
                push_slot_opening(&mut out, state, slot);
                let mut number = ordinal_string(state, slot);
                number.append(" ");
                push_op(&mut out, TextOp::Print(number));
                push_menu_entries(&mut out, state, slot, player.menu);
                assert(script_view(out@) =~= menu_script(state@, slot));
            },
            None => {},
        }
    }
    out
}

fn render_capture(state: &State, slot: usize) -> (r: Vec<TextOp>)
    requires
        state@.wf(),
    ensures
        script_view(r@) == capture_script(state@, slot),
{
    let mut out: Vec<TextOp> = Vec::new();
    assert(script_view(out@) =~= Seq::<TextOpView>::empty());
    if slot < PLAYER_SLOTS {
        match &state.players[slot] {
            Some(player) => match &player.grab_input {
                Some((_, mapping)) => {
                    push_slot_opening(&mut out, state, slot);
                    let mut line = ordinal_string(state, slot);
                    line.append("   Press button for:   ");
                    let controls = state.get_controls();
                    if mapping.len() < controls.len() {
                        line.append(controls[mapping.len()].1.as_str());
                    }
                    assert(line@ =~= ordinal_text(state@, slot as int)
                        + "   Press button for:   "@ + awaited_label(
                        state@,
                        state@.players[slot as int].unwrap(),
                    ));
                    push_op(&mut out, TextOp::Print(line));
                    assert(script_view(out@) =~= capture_script(state@, slot));
                },
                None => {},
            },
            None => {},
        }
    }
    out
}

fn render_buttons(state: &State) -> (r: Vec<TextOp>)
    ensures
        script_view(r@) == buttons_script(state@),
{
    let mut out: Vec<TextOp> = Vec::new();
    assert(script_view(out@) =~= Seq::<TextOpView>::empty());
    match &state.players[0] {
        Some(player) => match player.grab_emulator_buttons {
            Some((hotkey, menu)) => {
                push_slot_opening(&mut out, state, 0);
                if hotkey.is_none() {
                    push_println(&mut out, "    Press button for: emulator hotkey");
                } else if menu.is_none() {
                    push_println(&mut out, "    Press button for: emulator menu");
                }
                assert(script_view(out@) =~= buttons_script(state@));
            },
            None => {},
        },
        None => {},
    }
    out
}

impl Entity {
    /// What the entity puts on screen in `state`, as a script for the font.
    pub fn render(&self, state: &State) -> (r: Vec<TextOp>)
        requires
            state@.wf(),
        ensures
            script_view(r@) == script(*self, state@),
    {
        match self {
            Entity::Root => {
                let mut out: Vec<TextOp> = Vec::new();
                out.push(TextOp::Clear);
                assert(script_view(out@) =~= seq![TextOpView::Clear]);
                out
            },
            Entity::List => render_list(state),
            Entity::GameLauncher => render_launcher(state),
            Entity::PlayerMenu { player_index } => render_menu(state, *player_index),
            Entity::PlayerGrabInput { player_index } => render_capture(state, *player_index),
            Entity::PlayerGrabEmulatorButtons => render_buttons(state),
        }
    }
}

} // verus!
