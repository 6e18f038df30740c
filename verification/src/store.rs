pub use crate::bindings::{AxisState, HatState, JoystickConfig, JoystickEvent};
use crate::joystick::JoystickInfo;
use crate::reducer::{
    applicable, is_applicable, lemma_next_rom_selects_in_page, lemma_reduce_preserves_wf, reduce,
    reduce_spec,
};
pub use crate::reducer::{Action, SaveState};
use crate::state::{emulators_view, pairs_view, strings_view, EmulatorView, StateView};
pub use crate::state::{
    Emulator, GrabControl, Player, PlayerMenu, Rom, Screen, State, PAGE_SIZE,
};
use crate::vec_map::VecMap;
use vstd::prelude::*;

verus! {

/// A deferred computation that consults the state when its turn comes.
#[derive(Clone, Copy, Debug, PartialEq, Eq, Structural)]
pub enum Thunk {
    /// List the ROMs of the emulator that is selected by then.
    RescanRoms,
}

/// What waits in the store's queue.
#[derive(Debug)]
pub enum StoreAction {
    Simple(Action),
    Thunk(Thunk),
}

/// Work that the store cannot do itself and hands to its caller.
#[derive(Debug)]
pub enum Effect {
    /// List the files under `path` that have one of `extensions` and are not in `exclude`.
    ListRoms { path: String, extensions: Vec<String>, exclude: Vec<String> },
}

/// How a call of [`Store::process`] ended.
#[derive(Debug)]
pub enum Progress {
    /// The queue is empty; `changed` tells whether the timestamp moved since the drain began.
    Done { changed: bool },
    /// A thunk came up: the caller does the work and answers with [`Store::resolve`].
    Pending(Effect),
}

/// The store as contracts see it.
pub struct StoreView {
    pub state: StateView,
    pub queue: Seq<StoreAction>,
    /// Timestamp at the start of a drain that has not ended yet.
    pub baseline: Option<u32>,
}

/// What the middleware enqueues when `a` passes.
pub open spec fn side_effects(a: Action) -> Seq<StoreAction> {
    match a {
        Action::Initialize(timestamp, _) => seq![
            StoreAction::Thunk(Thunk::RescanRoms),
            StoreAction::Simple(Action::NextRom { timestamp, step: 0 }),
        ],
        Action::NextEmulator { timestamp, step } => seq![
            StoreAction::Thunk(Thunk::RescanRoms),
            StoreAction::Simple(Action::NextRom { timestamp, step: 0 }),
        ],
        Action::NextPage { timestamp, step } => seq![
            StoreAction::Simple(Action::NextRom { timestamp, step: 0 }),
        ],
        Action::LaunchGame(timestamp, joystick, split) => seq![
            StoreAction::Simple(Action::AddPlayer(timestamp, joystick, split)),
        ],
        _ => Seq::empty(),
    }
}

/// Number of steps that an item can cause: itself and what it enqueues.
pub open spec fn item_weight(item: StoreAction) -> nat {
    match item {
        StoreAction::Simple(Action::Initialize(..)) => 3,
        StoreAction::Simple(Action::NextEmulator { .. }) => 3,
        StoreAction::Simple(Action::NextPage { .. }) => 2,
        StoreAction::Simple(Action::LaunchGame(..)) => 2,
        _ => 1,
    }
}

/// Bound on the number of steps that draining `q` takes.
pub open spec fn weight(q: Seq<StoreAction>) -> nat
    decreases q.len(),
{
    if q.len() == 0 {
        0
    } else {
        weight(q.drop_last()) + item_weight(q.last())
    }
}

pub proof fn lemma_weight_concat(a: Seq<StoreAction>, b: Seq<StoreAction>)
    ensures
        weight(a + b) == weight(a) + weight(b),
    decreases b.len(),
{
    if b.len() == 0 {
        assert(a + b =~= a);
    } else {
        assert((a + b).drop_last() =~= a + b.drop_last());
        lemma_weight_concat(a, b.drop_last());
    }
}

pub proof fn lemma_weight_drop_first(q: Seq<StoreAction>)
    requires
        q.len() > 0,
    ensures
        weight(q) == item_weight(q[0]) + weight(q.drop_first()),
{
    reveal_with_fuel(weight, 2);
    let head = seq![q[0]];
    assert(q =~= head + q.drop_first());
    lemma_weight_concat(head, q.drop_first());
    assert(head.drop_last() =~= Seq::<StoreAction>::empty());
    assert(weight(head) == item_weight(q[0]));
}

pub proof fn lemma_side_effects_weight(a: Action)
    ensures
        weight(side_effects(a)) + 1 == item_weight(StoreAction::Simple(a)),
{
    reveal_with_fuel(weight, 3);
    let e = side_effects(a);
    if e.len() == 1 {
        assert(e.drop_last() =~= Seq::<StoreAction>::empty());
    } else if e.len() == 2 {
        assert(e.drop_last().drop_last() =~= Seq::<StoreAction>::empty());
        assert(e.drop_last().len() == 1);
        assert(weight(e.drop_last()) == weight(e.drop_last().drop_last()) + item_weight(
            e.drop_last().last(),
        ));
    }
}

/// State and queue once the item `a` at the head of the queue has had its
/// turn: an action that is not applicable is dropped, any other is reduced
/// and its side effects join the queue.
pub open spec fn after_action(state: StateView, rest: Seq<StoreAction>, a: Action) -> (
    StateView,
    Seq<StoreAction>,
) {
    if applicable(state, a) {
        (reduce_spec(state, a), rest + side_effects(a))
    } else {
        (state, rest)
    }
}

/// Where draining ends when it starts from `state` with `queue`: the state
/// and queue reached, and the thunk at which it stopped, if it met one.
pub open spec fn run(state: StateView, queue: Seq<StoreAction>) -> (
    StateView,
    Seq<StoreAction>,
    Option<Thunk>,
)
    decreases weight(queue),
{
    if queue.len() == 0 {
        (state, queue, None)
    } else {
        match queue[0] {
            StoreAction::Thunk(thunk) => (state, queue.drop_first(), Some(thunk)),
            StoreAction::Simple(a) => {
                let next = after_action(state, queue.drop_first(), a);
                proof {
                    lemma_weight_drop_first(queue);
                    lemma_weight_concat(queue.drop_first(), side_effects(a));
                    lemma_side_effects_weight(a);
                }
                run(next.0, next.1)
            },
        }
    }
}

/// Where draining ends when it goes batch by batch: the items of `batch`
/// have their turns in order while what they enqueue gathers in `queue`;
/// when the batch is used up, what has gathered is the next batch.
pub open spec fn run_batches(state: StateView, batch: Seq<StoreAction>, queue: Seq<StoreAction>) -> (
    StateView,
    Seq<StoreAction>,
    Option<Thunk>,
)
    decreases weight(batch + queue), (if batch.len() == 0 { 1nat } else { 0nat }),
{
    if batch.len() == 0 {
        if queue.len() == 0 {
            (state, queue, None)
        } else {
            proof {
                assert(queue + Seq::<StoreAction>::empty() =~= batch + queue);
            }
            run_batches(state, queue, Seq::empty())
        }
    } else {
        match batch[0] {
            StoreAction::Thunk(thunk) => (state, batch.drop_first() + queue, Some(thunk)),
            StoreAction::Simple(a) => {
                let next = after_action(state, queue, a);
                proof {
                    lemma_batch_step(batch, queue, a);
                }
                run_batches(next.0, batch.drop_first(), next.1)
            },
        }
    }
}

/// One turn of a batch takes one step off the bound on the steps left.
pub proof fn lemma_batch_step(batch: Seq<StoreAction>, queue: Seq<StoreAction>, a: Action)
    requires
        batch.len() > 0,
        batch[0] == StoreAction::Simple(a),
    ensures
        weight(batch.drop_first() + (queue + side_effects(a))) < weight(batch + queue),
        weight(batch.drop_first() + queue) < weight(batch + queue),
        (batch + queue).drop_first() == batch.drop_first() + queue,
        (batch + queue).drop_first() + side_effects(a) == batch.drop_first() + (queue
            + side_effects(a)),
{
    let all = batch + queue;
    assert(all.drop_first() =~= batch.drop_first() + queue);
    assert(all.drop_first() + side_effects(a) =~= batch.drop_first() + (queue + side_effects(a)));
    lemma_weight_drop_first(all);
    lemma_weight_concat(all.drop_first(), side_effects(a));
    lemma_side_effects_weight(a);
}

/// Draining batch by batch ends where draining the one queue in order
/// ends: what an item enqueues waits behind all that was queued before it, either way.
pub proof fn lemma_batches_drain_in_order(
    state: StateView,
    batch: Seq<StoreAction>,
    queue: Seq<StoreAction>,
)
    ensures
        run_batches(state, batch, queue) == run(state, batch + queue),
    decreases weight(batch + queue), (if batch.len() == 0 { 1nat } else { 0nat }),
{
    if batch.len() == 0 {
        assert(batch + queue =~= queue);
        if queue.len() > 0 {
            assert(queue + Seq::<StoreAction>::empty() =~= queue);
            lemma_batches_drain_in_order(state, queue, Seq::empty());
        }
    } else {
        let all = batch + queue;
        assert(all[0] == batch[0]);
        match batch[0] {
            StoreAction::Thunk(thunk) => {
                assert(all.drop_first() =~= batch.drop_first() + queue);
            },
            StoreAction::Simple(a) => {
                lemma_batch_step(batch, queue, a);
                let next = after_action(state, queue, a);
                lemma_batches_drain_in_order(next.0, batch.drop_first(), next.1);
            },
        }
    }
}

/// The queue holds a row step, which brings the selected row back onto the page.
pub open spec fn holds_row_step(queue: Seq<StoreAction>) -> bool {
    exists|i: int| 0 <= i < queue.len() && #[trigger] is_row_step(queue[i])
}

pub open spec fn is_row_step(item: StoreAction) -> bool {
    item matches StoreAction::Simple(a) && a is NextRom
}

impl StoreView {
    /// What holds of the store between any two calls.
    pub open spec fn wf(&self) -> bool {
        &&& self.state.wf()
        &&& self.state.selection_in_page() || holds_row_step(self.queue)
    }

    /// The outcome of [`Store::process`]: the store that it leaves, whether it
    /// stopped at a thunk, and whether the timestamp moved since the drain began.
    pub open spec fn processed(&self) -> (StoreView, Option<Thunk>, bool) {
        let base = match self.baseline {
            Some(t) => t,
            None => self.state.timestamp,
        };
        let end = run(self.state, self.queue);
        (
            StoreView {
                state: end.0,
                queue: end.1,
                baseline: if end.2 is Some {
                    Some(base)
                } else {
                    None
                },
            },
            end.2,
            base != end.0.timestamp,
        )
    }
}

/// One turn keeps the store well formed: the state stays well formed, and the
/// selected row is on the page or a row step still waits in the queue.
pub proof fn lemma_turn_keeps_wf(state: StateView, queue: Seq<StoreAction>)
    requires
        state.wf(),
        state.selection_in_page() || holds_row_step(queue),
        queue.len() > 0,
        queue[0] is Simple,
    ensures
        ({
            let next = after_action(state, queue.drop_first(), queue[0]->Simple_0);
            &&& next.0.wf()
            &&& next.0.selection_in_page() || holds_row_step(next.1)
        }),
{
    let a = queue[0]->Simple_0;
    let rest = queue.drop_first();
    let next = after_action(state, rest, a);
    if applicable(state, a) {
        lemma_reduce_preserves_wf(state, a);
    }
    if a is NextRom {
        lemma_next_rom_selects_in_page(state, a->NextRom_timestamp, a->NextRom_step);
    } else if a is NextPage && applicable(state, a) {
        let e = side_effects(a);
        assert(is_row_step(e[0]));
        assert(next.1[rest.len() as int] == e[0]);
    } else if state.selection_in_page() {
        assert(next.0.selection_in_page());
    } else {
        let i = choose|i: int| 0 <= i < queue.len() && #[trigger] is_row_step(queue[i]);
        assert(i > 0);
        assert(rest[i - 1] == queue[i]);
        assert(next.1[i - 1] == queue[i]);
        assert(is_row_step(next.1[i - 1]));
    }
}

/// Draining keeps the state well formed, so the page index stays among the
/// pages; and where draining ends with an empty queue, the selected row is
/// none or a row of the current page. This holds whatever the queue holds.
pub proof fn lemma_drain_settles(state: StateView, queue: Seq<StoreAction>)
    requires
        state.wf(),
        state.selection_in_page() || holds_row_step(queue),
    ensures
        ({
            let end = run(state, queue);
            &&& end.0.wf()
            &&& 0 <= end.0.page_index < end.0.page_count
            &&& end.2 is None ==> end.1.len() == 0 && end.0.selection_in_page()
        }),
    decreases weight(queue),
{
    if queue.len() > 0 {
        match queue[0] {
            StoreAction::Thunk(_) => {},
            StoreAction::Simple(a) => {
                let next = after_action(state, queue.drop_first(), a);
                lemma_turn_keeps_wf(state, queue);
                lemma_weight_drop_first(queue);
                lemma_weight_concat(queue.drop_first(), side_effects(a));
                lemma_side_effects_weight(a);
                lemma_drain_settles(next.0, next.1);
            },
        }
    }
}

/// In a settled store, a row step of zero leaves the selected row where it is.
pub proof fn lemma_row_step_zero_changes_nothing(state: StateView, timestamp: u32)
    requires
        state.wf(),
        state.selection_in_page(),
    ensures
        ({
            let end = run(
                state,
                seq![StoreAction::Simple(Action::NextRom { timestamp, step: 0 })],
            );
            &&& end.0.rom_selected == state.rom_selected
            &&& end.0.page_index == state.page_index
            &&& end.1.len() == 0
            &&& end.2 is None
        }),
{
    reveal_with_fuel(run, 3);
    let a = Action::NextRom { timestamp, step: 0 };
    let queue = seq![StoreAction::Simple(a)];
    assert(queue.drop_first() + side_effects(a) =~= Seq::<StoreAction>::empty());
}

/// Loading a snapshot restores its selected emulator and its stored
/// mappings: draining stops at the rescan that the load asks for, in a state
/// that holds exactly what the snapshot held.
pub proof fn lemma_load_restores_snapshot(state: StateView, timestamp: u32, save: SaveState)
    requires
        state.wf(),
        applicable(state, Action::Initialize(timestamp, save)),
    ensures
        ({
            let end = run(
                state,
                seq![StoreAction::Simple(Action::Initialize(timestamp, save))],
            );
            &&& end.0.emulator_selected == save.emulator_selected
            &&& end.0.emulators == save.emulators
            &&& end.0.console_configs == save.console_configs@
            &&& end.0.game_configs == save.game_configs@
            &&& end.2 == Some(Thunk::RescanRoms)
        }),
{
    reveal_with_fuel(run, 3);
    let a = Action::Initialize(timestamp, save);
    let queue = seq![StoreAction::Simple(a)];
    assert(queue.drop_first() + side_effects(a) =~= side_effects(a));
}

/// `save` keeps what is worth keeping of `state`.
pub open spec fn is_dump_of(save: SaveState, state: StateView) -> bool {
    &&& save.emulator_selected == state.emulator_selected
    &&& emulators_view(save.emulators@) == emulators_view(state.emulators@)
    &&& save.console_configs@ == state.console_configs
    &&& save.game_configs@ == state.game_configs
}

/// Dumping a state and loading the dump, into that store or another in
/// which no capture session is under way, gives a state with the same
/// selected emulator, the same emulator descriptors and the same stored mappings.
pub proof fn lemma_dump_load_round_trip(
    dumped: StateView,
    save: SaveState,
    target: StateView,
    timestamp: u32,
)
    requires
        dumped.wf(),
        target.wf(),
        target.capture_free(),
        is_dump_of(save, dumped),
    ensures
        ({
            let end = run(
                target,
                seq![StoreAction::Simple(Action::Initialize(timestamp, save))],
            );
            &&& end.0.emulator_selected == dumped.emulator_selected
            &&& emulators_view(end.0.emulators@) == emulators_view(dumped.emulators@)
            &&& end.0.console_configs == dumped.console_configs
            &&& end.0.game_configs == dumped.game_configs
        }),
{
    assert(emulators_view(save.emulators@).len() == emulators_view(dumped.emulators@).len());
    lemma_load_restores_snapshot(target, timestamp, save);
}

/// The PC Engine descriptor that a fresh store starts with.
pub open spec fn pc_engine() -> EmulatorView {
    EmulatorView {
        id: "pce"@,
        name: "PC Engine"@,
        path: "~/pce_roms"@,
        controls: seq![
            ("up"@, "Up"@),
            ("down"@, "Down"@),
            ("left"@, "Left"@),
            ("right"@, "Right"@),
            ("a"@, "I"@),
            ("b"@, "II"@),
            ("select"@, "Select"@),
            ("start"@, "Run"@),
        ],
        command: seq!["retroarch"@],
        extensions: seq!["pce"@],
        exclude: seq!["syscard3.pce"@],
    }
}

/// The Mega Drive descriptor that a fresh store starts with.
pub open spec fn mega_drive() -> EmulatorView {
    EmulatorView {
        id: "md"@,
        name: "Mega Drive"@,
        path: "~/md_roms"@,
        controls: seq![
            ("up"@, "Up"@),
            ("down"@, "Down"@),
            ("left"@, "Left"@),
            ("right"@, "Right"@),
            ("y"@, "A"@),
            ("b"@, "B"@),
            ("a"@, "C"@),
            ("start"@, "Start"@),
        ],
        command: seq!["retroarch"@],
        extensions: seq!["bin"@, "smd"@],
        exclude: Seq::empty(),
    }
}

/// The state of a fresh store: the list screen, nothing listed, nobody attached or seated.
pub open spec fn is_initial(s: StateView) -> bool {
    &&& s.timestamp == 0
    &&& s.screen == Screen::List
    &&& s.page_index == 0
    &&& s.page_count == 1
    &&& s.emulator_selected == 0
    &&& emulators_view(s.emulators@) == seq![pc_engine(), mega_drive()]
    &&& s.roms matches Ok(listing) && listing@.len() == 0
    &&& s.rom_selected == -1
    &&& s.rom_count == 0
    &&& s.joysticks == Map::<i32, JoystickInfo>::empty()
    &&& s.last_joystick_action == Map::<(i32, u32), u32>::empty()
    &&& s.players == crate::reducer::empty_slots()
    &&& s.console_configs == Map::<crate::bindings::ConfigKey, Seq<crate::bindings::JoystickEvent>>::empty()
    &&& s.game_configs == Map::<crate::bindings::ConfigKey, Seq<crate::bindings::JoystickEvent>>::empty()
}

fn control(key: &str, label: &str) -> (r: (String, String))
    ensures
        r.0@ == key@,
        r.1@ == label@,
{
    (key.to_owned(), label.to_owned())
}

fn one_string(s: &str) -> (r: Vec<String>)
    ensures
        strings_view(r@) == seq![s@],
{
    let mut r: Vec<String> = Vec::new();
    r.push(s.to_owned());
    assert(strings_view(r@) =~= seq![s@]);
    r
}

fn initial_pc_engine() -> (r: Emulator)
    ensures
        r@ == pc_engine(),
{
    let mut controls: Vec<(String, String)> = Vec::new();
    controls.push(control("up", "Up"));
    controls.push(control("down", "Down"));
    controls.push(control("left", "Left"));
    controls.push(control("right", "Right"));
    controls.push(control("a", "I"));
    controls.push(control("b", "II"));
    controls.push(control("select", "Select"));
    controls.push(control("start", "Run"));
    assert(pairs_view(controls@) =~= pc_engine().controls);
    Emulator {
        id: "pce".to_owned(),
        name: "PC Engine".to_owned(),
        path: "~/pce_roms".to_owned(),
        controls,
        command: one_string("retroarch"),
        extensions: one_string("pce"),
        exclude: one_string("syscard3.pce"),
    }
}

fn initial_mega_drive() -> (r: Emulator)
    ensures
        r@ == mega_drive(),
{
    let mut controls: Vec<(String, String)> = Vec::new();
    controls.push(control("up", "Up"));
    controls.push(control("down", "Down"));
    controls.push(control("left", "Left"));
    controls.push(control("right", "Right"));
    controls.push(control("y", "A"));
    controls.push(control("b", "B"));
    controls.push(control("a", "C"));
    controls.push(control("start", "Start"));
    assert(pairs_view(controls@) =~= mega_drive().controls);
    let mut extensions: Vec<String> = Vec::new();
    extensions.push("bin".to_owned());
    extensions.push("smd".to_owned());
    assert(strings_view(extensions@) =~= mega_drive().extensions);
    let exclude: Vec<String> = Vec::new();
    assert(strings_view(exclude@) =~= mega_drive().exclude);
    Emulator {
        id: "md".to_owned(),
        name: "Mega Drive".to_owned(),
        path: "~/md_roms".to_owned(),
        controls,
        command: one_string("retroarch"),
        extensions,
        exclude,
    }
}

/// The single authoritative state, with the queue of what is still to be applied to it.
#[derive(Debug)]
pub struct Store {
    state: Option<State>,
    queue: Vec<StoreAction>,
    baseline: Option<u32>,
}

impl View for Store {
    type V = StoreView;

    closed spec fn view(&self) -> StoreView {
        StoreView { state: self.state.unwrap()@, queue: self.queue@, baseline: self.baseline }
    }
}

/// The middleware: enqueues what `action` brings about besides its own reduction.
fn trigger_middleware(queue: &mut Vec<StoreAction>, action: &Action)
    ensures
        final(queue)@ == old(queue)@ + side_effects(*action),
{
    match action {
        Action::Initialize(timestamp, _) => {
            queue.push(StoreAction::Thunk(Thunk::RescanRoms));
            queue.push(StoreAction::Simple(Action::NextRom { timestamp: *timestamp, step: 0 }));
        },
        Action::NextEmulator { timestamp, step: _ } => {
            queue.push(StoreAction::Thunk(Thunk::RescanRoms));
            queue.push(StoreAction::Simple(Action::NextRom { timestamp: *timestamp, step: 0 }));
        },
        Action::NextPage { timestamp, step: _ } => {
            queue.push(StoreAction::Simple(Action::NextRom { timestamp: *timestamp, step: 0 }));
        },
        Action::LaunchGame(timestamp, joystick, split) => {
            queue.push(StoreAction::Simple(Action::AddPlayer(*timestamp, *joystick, *split)));
        },
        _ => {},
    }
    assert(queue@ =~= old(queue)@ + side_effects(*action));
}

impl Store {
    /// The store holds its state, as it does between any two calls.
    pub closed spec fn ready(&self) -> bool {
        self.state is Some
    }

    pub open spec fn wf(&self) -> bool {
        self.ready() && self@.wf()
    }

    pub fn new() -> (r: Store)
        ensures
            r.wf(),
            is_initial(r@.state),
            r@.queue.len() == 0,
            r@.baseline is None,
    {
        Store { state: Some(Self::get_initial_state()), queue: Vec::new(), baseline: None }
    }

    fn get_initial_state() -> (r: State)
        ensures
            is_initial(r@),
            r@.wf(),
            r@.selection_in_page(),
    {
        let mut emulators: Vec<Emulator> = Vec::new();
        emulators.push(initial_pc_engine());
        emulators.push(initial_mega_drive());
        assert(emulators_view(emulators@) =~= seq![pc_engine(), mega_drive()]);
        let players: [Option<Player>; 10] = [None, None, None, None, None, None, None, None, None, None];
        assert(crate::state::player_views(players@) =~= crate::reducer::empty_slots());
        State {
            timestamp: 0,
            screen: Screen::List,
            emulators,
            page_index: 0,
            page_count: 1,
            emulator_selected: 0,
            roms: Ok(Vec::new()),
            rom_selected: -1,
            rom_count: 0,
            joysticks: VecMap::new(),
            last_joystick_action: VecMap::new(),
            players,
            console_configs: JoystickConfig::new(),
            game_configs: JoystickConfig::new(),
        }
    }

    /// What is worth keeping of the state: the selected emulator, the
    /// emulator descriptors and both stores of mappings.
    pub fn dump(&self) -> (r: SaveState)
        requires
            self.wf(),
        ensures
            is_dump_of(r, self@.state),
    {
        let state = self.get_state();
        SaveState {
            emulator_selected: state.emulator_selected,
            emulators: crate::reducer::clone_emulators(&state.emulators),
            console_configs: state.console_configs.duplicate(),
            game_configs: state.game_configs.duplicate(),
        }
    }

    /// Brings a kept snapshot back: an `Initialize` action with timestamp
    /// zero joins the queue and the queue is drained as by [`Store::process`].
    pub fn load(&mut self, save_state: SaveState) -> (r: Progress)
        requires
            old(self).wf(),
        ensures
            final(self).wf(),
            ({
                let queued = StoreView {
                    queue: old(self)@.queue.push(
                        StoreAction::Simple(Action::Initialize(0, save_state)),
                    ),
                    ..old(self)@
                };
                &&& final(self)@ == queued.processed().0
                &&& r is Pending == queued.processed().1 is Some
                &&& r matches Progress::Done { changed } ==> changed == queued.processed().2
            }),
            r matches Progress::Done { changed } ==> final(self)@.queue.len() == 0
                && final(self)@.state.selection_in_page(),
            r matches Progress::Pending(Effect::ListRoms { path, extensions, exclude }) ==> {
                let emulator = final(self)@.state.emulator();
                &&& path@ == emulator.path@
                &&& extensions@ == emulator.extensions@
                &&& exclude@ == emulator.exclude@
            },
    {
        self.dispatch(Action::Initialize(0, save_state));
        self.process()
    }

    pub fn dispatch(&mut self, action: Action)
        requires
            old(self).wf(),
        ensures
            final(self).wf(),
            final(self)@ == (StoreView {
                queue: old(self)@.queue.push(StoreAction::Simple(action)),
                ..old(self)@
            }),
    {
        proof {
            if holds_row_step(self.queue@) {
                let i = choose|i: int| 0 <= i < self.queue@.len() && #[trigger] is_row_step(self.queue@[i]);
                assert(is_row_step(self.queue@.push(StoreAction::Simple(action))[i]));
            }
        }
        self.queue.push(StoreAction::Simple(action));
    }

    pub fn dispatch_thunk(&mut self, thunk: Thunk)
        requires
            old(self).wf(),
        ensures
            final(self).wf(),
            final(self)@ == (StoreView {
                queue: old(self)@.queue.push(StoreAction::Thunk(thunk)),
                ..old(self)@
            }),
    {
        proof {
            if holds_row_step(self.queue@) {
                let i = choose|i: int| 0 <= i < self.queue@.len() && #[trigger] is_row_step(self.queue@[i]);
                assert(is_row_step(self.queue@.push(StoreAction::Thunk(thunk))[i]));
            }
        }
        self.queue.push(StoreAction::Thunk(thunk));
    }

    /// Answers a pending [`Effect::ListRoms`]: the listing joins the queue as a `LoadRoms` action.
    pub fn resolve(&mut self, roms: Result<Vec<Rom>, String>)
        requires
            old(self).wf(),
        ensures
            final(self).wf(),
            final(self)@ == (StoreView {
                queue: old(self)@.queue.push(StoreAction::Simple(Action::LoadRoms { roms })),
                ..old(self)@
            }),
    {
        self.dispatch(Action::LoadRoms { roms });
    }

    /// Drains the queue in order until it is empty or a thunk comes up.
    ///
    /// What an item enqueues waits behind everything that was queued before
    /// it, so one pass over the queue is the same as draining it batch by batch.
    pub fn process(&mut self) -> (r: Progress)
        requires
            old(self).wf(),
        ensures
            final(self).wf(),
            final(self)@ == old(self)@.processed().0,
            r is Pending == old(self)@.processed().1 is Some,
            r matches Progress::Done { changed } ==> changed == old(self)@.processed().2
                && final(self)@.queue.len() == 0 && final(self)@.state.selection_in_page(),
            r matches Progress::Pending(Effect::ListRoms { path, extensions, exclude }) ==> {
                let emulator = final(self)@.state.emulator();
                &&& path@ == emulator.path@
                &&& extensions@ == emulator.extensions@
                &&& exclude@ == emulator.exclude@
            },
    {
        let mut state = match self.state.take() {
            Some(state) => state,
            None => vstd::pervasive::unreached(),
        };
        let mut queue: Vec<StoreAction> = Vec::new();
        std::mem::swap(&mut queue, &mut self.queue);
        let base = match self.baseline {
            Some(t) => t,
            None => state.timestamp,
        };
        let ghost start = old(self)@;
        let mut outcome: Option<Progress> = None;
        while outcome.is_none()
            invariant
                state@.wf(),
                state@.selection_in_page() || holds_row_step(queue@),
                outcome is None ==> run(state@, queue@) == run(start.state, start.queue),
                outcome is Some ==> (state@, queue@, outcome.unwrap() is Pending) == (
                    run(start.state, start.queue).0,
                    run(start.state, start.queue).1,
                    run(start.state, start.queue).2 is Some,
                ),
                outcome matches Some(Progress::Done { changed }) ==> changed == (base
                    != state.timestamp) && queue@.len() == 0,
                outcome matches Some(Progress::Pending(Effect::ListRoms { path, extensions, exclude }))
                    ==> {
                    let emulator = state@.emulator();
                    &&& path@ == emulator.path@
                    &&& extensions@ == emulator.extensions@
                    &&& exclude@ == emulator.exclude@
                },
            decreases (if outcome is None { 1nat } else { 0nat }), weight(queue@),
        {
            if queue.len() == 0 {
                outcome = Some(Progress::Done { changed: base != state.timestamp });
            } else {
                let ghost before = queue@;
                proof {
                    lemma_weight_drop_first(before);
                }
                let item = queue.remove(0);
                assert(queue@ =~= before.drop_first());
                match item {
                    StoreAction::Thunk(_) => {
                        proof {
                            if holds_row_step(before) {
                                let i = choose|i: int|
                                    0 <= i < before.len() && #[trigger] is_row_step(before[i]);
                                assert(is_row_step(queue@[i - 1]));
                            }
                        }
                        let emulator = state.get_emulator();
                        outcome = Some(
                            Progress::Pending(
                                Effect::ListRoms {
                                    path: emulator.path.clone(),
                                    extensions: crate::state::clone_strings(&emulator.extensions),
                                    exclude: crate::state::clone_strings(&emulator.exclude),
                                },
                            ),
                        );
                    },
                    StoreAction::Simple(action) => {
                        proof {
                            lemma_turn_keeps_wf(state@, before);
                            lemma_weight_concat(before.drop_first(), side_effects(action));
                            lemma_side_effects_weight(action);
                        }
                        if is_applicable(&state, &action) {
                            trigger_middleware(&mut queue, &action);
                            state = reduce(state, action);
                        }
                    },
                }
            }
        }
        let r = match outcome {
            Some(r) => r,
            None => vstd::pervasive::unreached(),
        };
        self.baseline = match &r {
            Progress::Done { .. } => None,
            Progress::Pending(_) => Some(base),
        };
        self.state = Some(state);
        self.queue = queue;
        r
    }

    pub fn get_state(&self) -> (r: &State)
        requires
            self.wf(),
        ensures
            r@ == self@.state,
            r@.wf(),
    {
        match &self.state {
            Some(state) => state,
            None => vstd::pervasive::unreached(),
        }
    }
}

} // verus!
