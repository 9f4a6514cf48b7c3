use vstd::prelude::*;

use crate::config::{BlockConfig, BlockView, ConfigView, ExecutorConfig, DEFAULT_INTERVAL};
use crate::text::{decimal_chars, format_u64, parse_u64, parse_unsigned};

verus! {

/// The text of each string, by value.
pub open spec fn strings_view(v: Seq<String>) -> Seq<Seq<char>> {
    v.map_values(|s: String| s@)
}

/// `s` cut or extended to length `n`, extended with copies of `fill`.
pub open spec fn resized<A>(s: Seq<A>, n: nat, fill: A) -> Seq<A> {
    Seq::new(n, |i: int| if i < s.len() { s[i] } else { fill })
}

/// `s` with the elements at `i` and `j` exchanged.
pub open spec fn swapped<A>(s: Seq<A>, i: int, j: int) -> Seq<A> {
    s.update(i, s[j]).update(j, s[i])
}

/// The interval that an interval field of the editor stands for: the number
/// it reads as, or 5 seconds when it reads as none.
pub open spec fn interval_of_text(t: Seq<char>) -> u64 {
    match parse_unsigned(t, u64::MAX as nat) {
        Some(v) => v as u64,
        None => DEFAULT_INTERVAL,
    }
}

/// The text that a new interval field of the editor starts with.
pub open spec fn default_interval_text() -> Seq<char> {
    seq!['5']
}

/// A command to run for the block at `index` of the configuration.
#[derive(Clone, Debug)]
pub struct CommandRun {
    pub index: usize,
    pub command: String,
}

/// Each command to run, by value.
pub open spec fn runs_view(v: Seq<CommandRun>) -> Seq<(usize, Seq<char>)> {
    v.map_values(|r: CommandRun| (r.index, r.command@))
}

/// What the applet is told: the events of the panel, of its popup and of
/// the commands it runs.
#[derive(Clone, Debug)]
pub enum Message {
    /// A second has passed; the configuration as read from its file now.
    Tick(ExecutorConfig),
    /// The command of block `.0` printed `.1` (already turned into its
    /// report).
    Output(usize, String),
    /// The panel button was pressed.
    TogglePopup,
    /// The pause before opening the popup is over; `.0` is a fresh window
    /// id for it.
    OpenPopupDelayed(u64),
    /// The window with this id was closed.
    PopupClosed(u64),
    EditCommand(usize, String),
    EditInterval(usize, String),
    EditSeparator(String),
    AddBlock,
    RemoveBlock(usize),
    MoveBlockUp(usize),
    MoveBlockDown(usize),
    /// Keep the edited blocks and separator as the configuration.
    Save,
}

/// What the application around the applet does next.
#[derive(Clone, Debug)]
pub enum Action {
    Nothing,
    /// Run these commands, each in the background, and report each output
    /// with `Message::Output`.
    RunCommands(Vec<CommandRun>),
    /// Close the popup window with this id.
    DestroyPopup(u64),
    /// The editor was filled from the configuration; open the popup after a
    /// short pause, with `Message::OpenPopupDelayed`.
    OpenPopupAfterDelay,
    /// Open the popup in a window with this id.
    CreatePopup(u64),
    /// Write this configuration to its file, then run these commands.
    SaveAndRun(ExecutorConfig, Vec<CommandRun>),
}

/// An action, by value.
pub enum ActionView {
    Nothing,
    RunCommands(Seq<(usize, Seq<char>)>),
    DestroyPopup(u64),
    OpenPopupAfterDelay,
    CreatePopup(u64),
    SaveAndRun(ConfigView, Seq<(usize, Seq<char>)>),
}

impl View for Action {
    type V = ActionView;

    open spec fn view(&self) -> ActionView {
        match self {
            Action::Nothing => ActionView::Nothing,
            Action::RunCommands(r) => ActionView::RunCommands(runs_view(r@)),
            Action::DestroyPopup(id) => ActionView::DestroyPopup(*id),
            Action::OpenPopupAfterDelay => ActionView::OpenPopupAfterDelay,
            Action::CreatePopup(id) => ActionView::CreatePopup(*id),
            Action::SaveAndRun(c, r) => ActionView::SaveAndRun(c@, runs_view(r@)),
        }
    }
}

/// The state of the applet: its configuration, the last output of each
/// block, how many seconds each block has waited, the open popup, and the
/// editor's copy of the blocks and separator. (The panel's geometry and the
/// font sizes are kept by the application around this library.)
#[derive(Debug)]
pub struct ExecutorApplet {
    pub config: ExecutorConfig,
    pub outputs: Vec<String>,
    pub ticks: Vec<u64>,
    pub popup: Option<u64>,
    pub edit_commands: Vec<String>,
    pub edit_intervals: Vec<String>,
    pub edit_separator: String,
}

/// The applet's state, by value.
#[verifier::ext_equal]
pub struct AppletView {
    pub config: ConfigView,
    pub outputs: Seq<Seq<char>>,
    pub ticks: Seq<u64>,
    pub popup: Option<u64>,
    pub edit_commands: Seq<Seq<char>>,
    pub edit_intervals: Seq<Seq<char>>,
    pub edit_separator: Seq<char>,
}

impl View for ExecutorApplet {
    type V = AppletView;

    open spec fn view(&self) -> AppletView {
        AppletView {
            config: self.config@,
            outputs: strings_view(self.outputs@),
            ticks: self.ticks@,
            popup: self.popup,
            edit_commands: strings_view(self.edit_commands@),
            edit_intervals: strings_view(self.edit_intervals@),
            edit_separator: self.edit_separator@,
        }
    }
}

/// What every state of the applet keeps: one output and one counter per
/// block, counters below `u64::MAX`, and one interval field per command
/// field in the editor.
pub open spec fn well_formed(s: AppletView) -> bool {
    &&& s.outputs.len() == s.config.blocks.len()
    &&& s.ticks.len() == s.config.blocks.len()
    &&& forall|i: int| 0 <= i < s.ticks.len() ==> s.ticks[i] < u64::MAX
    &&& s.edit_commands.len() == s.edit_intervals.len()
}

/// Every block of a configuration, to run.
pub open spec fn all_runs(blocks: Seq<BlockView>) -> Seq<(usize, Seq<char>)> {
    Seq::new(blocks.len(), |i: int| (i as usize, blocks[i].command))
}

/// The editor, filled from the configuration: its commands, its intervals
/// written in decimal, and its separator.
pub open spec fn synced(s: AppletView) -> AppletView {
    AppletView {
        edit_commands: s.config.blocks.map_values(|b: BlockView| b.command),
        edit_intervals: s.config.blocks.map_values(|b: BlockView| decimal_chars(b.interval as nat)),
        edit_separator: s.config.separator,
        ..s
    }
}

/// The state of a freshly started applet.
pub open spec fn initial_state(config: ConfigView) -> AppletView {
    synced(
        AppletView {
            config,
            outputs: Seq::new(config.blocks.len(), |i: int| Seq::<char>::empty()),
            ticks: Seq::new(config.blocks.len(), |i: int| 0u64),
            popup: None,
            edit_commands: Seq::empty(),
            edit_intervals: Seq::empty(),
            edit_separator: Seq::empty(),
        },
    )
}

/// A block whose counter stands at `t` is due at this tick.
pub open spec fn is_due(t: u64, interval: u64) -> bool {
    t + 1 >= interval
}

/// The counter of a block after a tick: back to 0 when it was due, one more
/// otherwise.
pub open spec fn counter_after(t: u64, interval: u64) -> u64 {
    if is_due(t, interval) {
        0
    } else {
        (t + 1) as u64
    }
}

/// The blocks among the first `k` that are due, with their counters `ticks`.
pub open spec fn due_runs(ticks: Seq<u64>, blocks: Seq<BlockView>, k: int) -> Seq<
    (usize, Seq<char>),
>
    decreases k,
{
    if k <= 0 {
        Seq::empty()
    } else {
        due_runs(ticks, blocks, k - 1) + if is_due(ticks[k - 1], blocks[k - 1].interval) {
            seq![((k - 1) as usize, blocks[k - 1].command)]
        } else {
            Seq::empty()
        }
    }
}

/// The counters before a tick with `config`: the old ones, cut or extended
/// with zeros to one per block.
pub open spec fn counters_before_tick(s: AppletView, config: ConfigView) -> Seq<u64> {
    resized(s.ticks, config.blocks.len(), 0u64)
}

/// The state after a tick with the configuration `config`.
pub open spec fn tick_state(s: AppletView, config: ConfigView) -> AppletView {
    let n = config.blocks.len();
    let t = counters_before_tick(s, config);
    AppletView {
        config,
        outputs: resized(s.outputs, n, Seq::<char>::empty()),
        ticks: Seq::new(n, |i: int| counter_after(t[i], config.blocks[i].interval)),
        ..s
    }
}

/// The blocks that the editor holds, in its order: one for each non-empty
/// command field, with the interval its interval field stands for.
pub open spec fn saved_blocks(commands: Seq<Seq<char>>, intervals: Seq<Seq<char>>, k: int) -> Seq<
    BlockView,
>
    decreases k,
{
    if k <= 0 {
        Seq::empty()
    } else {
        saved_blocks(commands, intervals, k - 1) + if commands[k - 1].len() > 0 {
            seq![
                BlockView {
                    command: commands[k - 1],
                    interval: if k - 1 < intervals.len() {
                        interval_of_text(intervals[k - 1])
                    } else {
                        DEFAULT_INTERVAL
                    },
                },
            ]
        } else {
            Seq::empty()
        }
    }
}

/// The configuration that the editor holds.
pub open spec fn saved_config(s: AppletView) -> ConfigView {
    ConfigView {
        blocks: saved_blocks(s.edit_commands, s.edit_intervals, s.edit_commands.len() as int),
        separator: s.edit_separator,
    }
}

/// The state after saving the editor.
pub open spec fn save_state(s: AppletView) -> AppletView {
    let config = saved_config(s);
    let n = config.blocks.len();
    AppletView {
        config,
        outputs: resized(s.outputs, n, Seq::<char>::empty()),
        ticks: Seq::new(n, |i: int| 0u64),
        ..s
    }
}

/// The next state and the action that a message gives.
pub open spec fn step(s: AppletView, msg: Message) -> (AppletView, ActionView) {
    match msg {
        Message::Tick(config) => (
            tick_state(s, config@),
            ActionView::RunCommands(
                due_runs(counters_before_tick(s, config@), config@.blocks, config@.blocks.len() as int),
            ),
        ),
        Message::Output(i, output) => (
            if i < s.outputs.len() {
                AppletView { outputs: s.outputs.update(i as int, output@), ..s }
            } else {
                s
            },
            ActionView::Nothing,
        ),
        Message::TogglePopup => match s.popup {
            Some(id) => (AppletView { popup: None, ..s }, ActionView::DestroyPopup(id)),
            None => (synced(s), ActionView::OpenPopupAfterDelay),
        },
        Message::OpenPopupDelayed(id) => if s.popup is Some {
            (s, ActionView::Nothing)
        } else {
            (AppletView { popup: Some(id), ..s }, ActionView::CreatePopup(id))
        },
        Message::PopupClosed(id) => (
            if s.popup == Some(id) {
                AppletView { popup: None, ..s }
            } else {
                s
            },
            ActionView::Nothing,
        ),
        Message::EditCommand(i, v) => (
            if i < s.edit_commands.len() {
                AppletView { edit_commands: s.edit_commands.update(i as int, v@), ..s }
            } else {
                s
            },
            ActionView::Nothing,
        ),
        Message::EditInterval(i, v) => (
            if i < s.edit_intervals.len() {
                AppletView { edit_intervals: s.edit_intervals.update(i as int, v@), ..s }
            } else {
                s
            },
            ActionView::Nothing,
        ),
        Message::EditSeparator(v) => (AppletView { edit_separator: v@, ..s }, ActionView::Nothing),
        Message::AddBlock => (
            AppletView {
                edit_commands: s.edit_commands.push(Seq::empty()),
                edit_intervals: s.edit_intervals.push(default_interval_text()),
                ..s
            },
            ActionView::Nothing,
        ),
        Message::RemoveBlock(i) => (
            if i < s.edit_commands.len() {
                AppletView {
                    edit_commands: s.edit_commands.remove(i as int),
                    edit_intervals: s.edit_intervals.remove(i as int),
                    ..s
                }
            } else {
                s
            },
            ActionView::Nothing,
        ),
        Message::MoveBlockUp(i) => (
            if 0 < i < s.edit_commands.len() {
                AppletView {
                    edit_commands: swapped(s.edit_commands, i as int, i - 1),
                    edit_intervals: swapped(s.edit_intervals, i as int, i - 1),
                    ..s
                }
            } else {
                s
            },
            ActionView::Nothing,
        ),
        Message::MoveBlockDown(i) => (
            if i + 1 < s.edit_commands.len() {
                AppletView {
                    edit_commands: swapped(s.edit_commands, i as int, i + 1),
                    edit_intervals: swapped(s.edit_intervals, i as int, i + 1),
                    ..s
                }
            } else {
                s
            },
            ActionView::Nothing,
        ),
        Message::Save => {
            let next = save_state(s);
            (next, ActionView::SaveAndRun(next.config, all_runs(next.config.blocks)))
        },
    }
}

/// Messages that the applet accepts: moving a block down from the last
/// possible index overflows.
pub open spec fn accepts(msg: Message) -> bool {
    msg matches Message::MoveBlockDown(i) ==> i < usize::MAX
}


/// The interval that an interval field of the editor stands for: the number
/// it reads as, or 5 seconds.
pub fn interval_value(text: &str) -> (v: u64)
    ensures
        v == interval_of_text(text@),
{
    match parse_u64(text) {
        Some(v) => v,
        None => DEFAULT_INTERVAL,
    }
}

/// Cuts `v` to `n` strings, or extends it with empty ones.
fn resize_strings(v: &mut Vec<String>, n: usize)
    ensures
        strings_view(final(v)@) == resized(strings_view(old(v)@), n as nat, Seq::<char>::empty()),
{
    let ghost initial = strings_view(v@);
    v.truncate(n);
    assert(strings_view(v@) =~= resized(initial, v.len() as nat, Seq::<char>::empty()));
    while v.len() < n
        invariant
            v.len() <= n,
            strings_view(v@) == resized(initial, v.len() as nat, Seq::<char>::empty()),
            n <= initial.len() ==> v.len() == n,
            initial.len() <= v.len() || v.len() == n,
        decreases n - v.len(),
    {
        let ghost before = strings_view(v@);
        let empty = String::new();
        v.push(empty);
        assert(strings_view(v@) =~= before.push(Seq::<char>::empty()));
        assert(strings_view(v@) =~= resized(initial, v.len() as nat, Seq::<char>::empty()));
    }
}

/// Cuts `v` to `n` counters, or extends it with zeros.
fn resize_counters(v: &mut Vec<u64>, n: usize)
    ensures
        final(v)@ == resized(old(v)@, n as nat, 0u64),
{
    let ghost initial = v@;
    v.truncate(n);
    assert(v@ =~= resized(initial, v.len() as nat, 0u64));
    while v.len() < n
        invariant
            v.len() <= n,
            v@ == resized(initial, v.len() as nat, 0u64),
            n <= initial.len() ==> v.len() == n,
            initial.len() <= v.len() || v.len() == n,
        decreases n - v.len(),
    {
        v.push(0);
        assert(v@ =~= resized(initial, v.len() as nat, 0u64));
    }
}

/// Every block of `blocks`, to run.
fn runs_of_all(blocks: &Vec<BlockConfig>) -> (r: Vec<CommandRun>)
    ensures
        runs_view(r@) == all_runs(crate::config::blocks_view(blocks@)),
{
    let ghost bv = crate::config::blocks_view(blocks@);
    let mut runs: Vec<CommandRun> = Vec::new();
    assert(bv.len() == blocks.len());
    for i in 0..blocks.len()
        invariant
            bv == crate::config::blocks_view(blocks@),
            bv.len() == blocks.len(),
            runs_view(runs@) == all_runs(bv).take(i as int),
    {
        let ghost before = runs_view(runs@);
        let command = blocks[i].command.clone();
        assert(bv[i as int].command == command@);
        runs.push(CommandRun { index: i, command });
        assert(runs_view(runs@) =~= before.push((i, bv[i as int].command)));
        assert(all_runs(bv).take(i + 1) =~= all_runs(bv).take(i as int).push((i, bv[i as int].command)));
    }
    assert(all_runs(bv).take(blocks.len() as int) =~= all_runs(bv));
    runs
}

impl ExecutorApplet {
    /// Fills the editor from the configuration.
    pub fn sync_edit_state(&mut self)
        ensures
            final(self)@ == synced(old(self)@),
    {
        let ghost blocks = self.config@.blocks;
        let mut commands: Vec<String> = Vec::new();
        let mut intervals: Vec<String> = Vec::new();
        assert(blocks.len() == self.config.blocks.len());
        for i in 0..self.config.blocks.len()
            invariant
                blocks == self.config@.blocks,
                blocks.len() == self.config.blocks.len(),
                strings_view(commands@) == blocks.map_values(|b: BlockView| b.command).take(i as int),
                strings_view(intervals@) == blocks.map_values(
                    |b: BlockView| decimal_chars(b.interval as nat),
                ).take(i as int),
        {
            let ghost before_commands = strings_view(commands@);
            let ghost before_intervals = strings_view(intervals@);
            let command = self.config.blocks[i].command.clone();
            let interval = format_u64(self.config.blocks[i].interval);
            assert(blocks[i as int] == self.config.blocks@[i as int]@);
            commands.push(command);
            intervals.push(interval);
            assert(strings_view(commands@) =~= before_commands.push(blocks[i as int].command));
            assert(strings_view(intervals@) =~= before_intervals.push(decimal_chars(blocks[i as int].interval as nat)));
            assert(strings_view(commands@) =~= blocks.map_values(|b: BlockView| b.command).take(i + 1));
            assert(strings_view(intervals@) =~= blocks.map_values(
                |b: BlockView| decimal_chars(b.interval as nat),
            ).take(i + 1));
        }
        assert(blocks.map_values(|b: BlockView| b.command).take(blocks.len() as int) =~= blocks.map_values(|b: BlockView| b.command));
        assert(blocks.map_values(|b: BlockView| decimal_chars(b.interval as nat)).take(blocks.len() as int) =~= blocks.map_values(|b: BlockView| decimal_chars(b.interval as nat)));
        self.edit_commands = commands;
        self.edit_intervals = intervals;
        self.edit_separator = self.config.separator.clone();
    }

    /// The applet as it starts with `config`, and the commands of all its
    /// blocks to run.
    pub fn new(config: ExecutorConfig) -> (r: (ExecutorApplet, Action))
        ensures
            r.0@ == initial_state(config@),
            well_formed(r.0@),
            r.1@ == ActionView::RunCommands(all_runs(config@.blocks)),
    {
        let n = config.blocks.len();
        let mut outputs: Vec<String> = Vec::new();
        resize_strings(&mut outputs, n);
        let mut ticks: Vec<u64> = Vec::new();
        resize_counters(&mut ticks, n);
        let runs = runs_of_all(&config.blocks);
        let mut applet = ExecutorApplet {
            config,
            outputs,
            ticks,
            popup: None,
            edit_commands: Vec::new(),
            edit_intervals: Vec::new(),
            edit_separator: String::new(),
        };
        applet.sync_edit_state();
        assert(applet@.outputs =~= Seq::new(n as nat, |i: int| Seq::<char>::empty()));
        assert(applet@.ticks =~= Seq::new(n as nat, |i: int| 0u64));
        (applet, Action::RunCommands(runs))
    }
}

/// Exchanges the strings at `i` and `j`.
fn swap_strings(v: &mut Vec<String>, i: usize, j: usize)
    requires
        i < old(v).len(),
        j < old(v).len(),
    ensures
        strings_view(final(v)@) == swapped(strings_view(old(v)@), i as int, j as int),
{
    let ghost before = strings_view(v@);
    let a = v[i].clone();
    let b = v[j].clone();
    v.set(i, b);
    v.set(j, a);
    assert(strings_view(v@) =~= swapped(before, i as int, j as int));
}

/// Removes the string at `i`.
fn remove_string(v: &mut Vec<String>, i: usize)
    requires
        i < old(v).len(),
    ensures
        strings_view(final(v)@) == strings_view(old(v)@).remove(i as int),
{
    let ghost before = strings_view(v@);
    v.remove(i);
    assert(strings_view(v@) =~= before.remove(i as int));
}

/// Replaces the string at `i` with `value`.
fn set_string(v: &mut Vec<String>, i: usize, value: String)
    requires
        i < old(v).len(),
    ensures
        strings_view(final(v)@) == strings_view(old(v)@).update(i as int, value@),
{
    let ghost before = strings_view(v@);
    let ghost text = value@;
    v.set(i, value);
    assert(strings_view(v@) =~= before.update(i as int, text));
}

impl ExecutorApplet {
    /// Takes `config` as the configuration, counts a second for every block,
    /// and gives the commands of the blocks that are due.
    fn tick(&mut self, config: ExecutorConfig) -> (runs: Vec<CommandRun>)
        requires
            well_formed(old(self)@),
        ensures
            final(self)@ == tick_state(old(self)@, config@),
            runs_view(runs@) == due_runs(
                counters_before_tick(old(self)@, config@),
                config@.blocks,
                config@.blocks.len() as int,
            ),
    {
        let ghost s0 = self@;
        let ghost cv = config@;
        self.config = config;
        let n = self.config.blocks.len();
        resize_strings(&mut self.outputs, n);
        resize_counters(&mut self.ticks, n);
        let ghost t0 = self.ticks@;
        assert(t0 == counters_before_tick(s0, cv));
        assert(forall|j: int| 0 <= j < n ==> t0[j] < u64::MAX);
        let mut runs: Vec<CommandRun> = Vec::new();
        for i in 0..n
            invariant
                self.config@ == cv,
                n == cv.blocks.len(),
                n == self.config.blocks.len(),
                self.ticks@.len() == n,
                forall|j: int| 0 <= j < n ==> t0[j] < u64::MAX,
                forall|j: int|
                    0 <= j < i ==> self.ticks@[j] == counter_after(t0[j], cv.blocks[j].interval),
                forall|j: int| i <= j < n ==> self.ticks@[j] == t0[j],
                runs_view(runs@) == due_runs(t0, cv.blocks, i as int),
                self@.outputs == resized(s0.outputs, n as nat, Seq::<char>::empty()),
                self@.popup == s0.popup,
                self@.edit_commands == s0.edit_commands,
                self@.edit_intervals == s0.edit_intervals,
                self@.edit_separator == s0.edit_separator,
        {
            let block = &self.config.blocks[i];
            assert(cv.blocks[i as int] == block@);
            assert(self.ticks@[i as int] == t0[i as int]);
            let counted = self.ticks[i] + 1;
            let ghost before = runs_view(runs@);
            if counted >= block.interval {
                self.ticks.set(i, 0);
                let command = block.command.clone();
                runs.push(CommandRun { index: i, command });
                assert(runs_view(runs@) =~= before.push((i, cv.blocks[i as int].command)));
            } else {
                self.ticks.set(i, counted);
                assert(runs_view(runs@) =~= before + Seq::empty());
            }
        }
        assert(self@.ticks =~= tick_state(s0, cv).ticks);
        assert(self@ =~= tick_state(s0, cv));
        runs
    }

    /// Takes the editor's blocks and separator as the configuration and
    /// starts every block afresh; gives the configuration to write and the
    /// commands to run.
    fn save(&mut self) -> (r: (ExecutorConfig, Vec<CommandRun>))
        requires
            well_formed(old(self)@),
        ensures
            final(self)@ == save_state(old(self)@),
            r.0@ == saved_config(old(self)@),
            runs_view(r.1@) == all_runs(r.0@.blocks),
    {
        let ghost s0 = self@;
        let mut blocks: Vec<BlockConfig> = Vec::new();
        for i in 0..self.edit_commands.len()
            invariant
                self@ == s0,
                crate::config::blocks_view(blocks@) == saved_blocks(
                    s0.edit_commands,
                    s0.edit_intervals,
                    i as int,
                ),
        {
            let ghost before = crate::config::blocks_view(blocks@);
            let command = &self.edit_commands[i];
            assert(s0.edit_commands[i as int] == command@);
            if !command.as_str().is_empty() {
                let interval = if i < self.edit_intervals.len() {
                    interval_value(self.edit_intervals[i].as_str())
                } else {
                    DEFAULT_INTERVAL
                };
                blocks.push(BlockConfig { command: command.clone(), interval });
                assert(crate::config::blocks_view(blocks@) =~= saved_blocks(
                    s0.edit_commands,
                    s0.edit_intervals,
                    i + 1,
                ));
            } else {
                assert(crate::config::blocks_view(blocks@) =~= saved_blocks(
                    s0.edit_commands,
                    s0.edit_intervals,
                    i + 1,
                ));
            }
        }
        let config = ExecutorConfig { blocks, separator: self.edit_separator.clone() };
        let n = config.blocks.len();
        resize_strings(&mut self.outputs, n);
        let mut ticks: Vec<u64> = Vec::new();
        resize_counters(&mut ticks, n);
        self.ticks = ticks;
        let runs = runs_of_all(&config.blocks);
        self.config = config.copy();
        assert(self@.ticks =~= save_state(s0).ticks);
        assert(self@ =~= save_state(s0));
        (config, runs)
    }

    /// Handles one message: the next state of the applet, and what the
    /// application around it does next.
    pub fn update(&mut self, message: Message) -> (action: Action)
        requires
            well_formed(old(self)@),
            accepts(message),
        ensures
            (final(self)@, action@) == step(old(self)@, message),
            well_formed(final(self)@),
    {
        let ghost s0 = self@;
        let ghost m = message;
        proof {
            lemma_step_well_formed(s0, m);
        }
        match message {
            Message::Tick(config) => {
                let runs = self.tick(config);
                Action::RunCommands(runs)
            },
            Message::Output(i, output) => {
                if i < self.outputs.len() {
                    set_string(&mut self.outputs, i, output);
                }
                assert(self@ =~= step(s0, m).0);
                Action::Nothing
            },
            Message::TogglePopup => {
                match self.popup.take() {
                    Some(id) => {
                        assert(self@ =~= step(s0, m).0);
                        Action::DestroyPopup(id)
                    },
                    None => {
                        self.sync_edit_state();
                        Action::OpenPopupAfterDelay
                    },
                }
            },
            Message::OpenPopupDelayed(id) => {
                if self.popup.is_some() {
                    Action::Nothing
                } else {
                    self.popup = Some(id);
                    assert(self@ =~= step(s0, m).0);
                    Action::CreatePopup(id)
                }
            },
            Message::PopupClosed(id) => {
                if self.popup == Some(id) {
                    self.popup = None;
                }
                assert(self@ =~= step(s0, m).0);
                Action::Nothing
            },
            Message::EditCommand(i, value) => {
                if i < self.edit_commands.len() {
                    set_string(&mut self.edit_commands, i, value);
                }
                assert(self@ =~= step(s0, m).0);
                Action::Nothing
            },
            Message::EditInterval(i, value) => {
                if i < self.edit_intervals.len() {
                    set_string(&mut self.edit_intervals, i, value);
                }
                assert(self@ =~= step(s0, m).0);
                Action::Nothing
            },
            Message::EditSeparator(value) => {
                self.edit_separator = value;
                assert(self@ =~= step(s0, m).0);
                Action::Nothing
            },
            Message::AddBlock => {
                let ghost before_commands = strings_view(self.edit_commands@);
                let ghost before_intervals = strings_view(self.edit_intervals@);
                self.edit_commands.push(String::new());
                let mut interval = String::new();
                proof {
                    reveal_strlit("5");
                }
                interval.append("5");
                assert(interval@ =~= default_interval_text());
                self.edit_intervals.push(interval);
                assert(strings_view(self.edit_commands@) =~= before_commands.push(Seq::empty()));
                assert(strings_view(self.edit_intervals@) =~= before_intervals.push(default_interval_text()));
                assert(self@ =~= step(s0, m).0);
                Action::Nothing
            },
            Message::RemoveBlock(i) => {
                if i < self.edit_commands.len() {
                    remove_string(&mut self.edit_commands, i);
                    remove_string(&mut self.edit_intervals, i);
                }
                assert(self@ =~= step(s0, m).0);
                Action::Nothing
            },
            Message::MoveBlockUp(i) => {
                if i > 0 && i < self.edit_commands.len() {
                    swap_strings(&mut self.edit_commands, i, i - 1);
                    swap_strings(&mut self.edit_intervals, i, i - 1);
                }
                assert(self@ =~= step(s0, m).0);
                Action::Nothing
            },
            Message::MoveBlockDown(i) => {
                if i + 1 < self.edit_commands.len() {
                    swap_strings(&mut self.edit_commands, i, i + 1);
                    swap_strings(&mut self.edit_intervals, i, i + 1);
                }
                assert(self@ =~= step(s0, m).0);
                Action::Nothing
            },
            Message::Save => {
                let (config, runs) = self.save();
                Action::SaveAndRun(config, runs)
            },
        }
    }
}

/// Every message that the applet accepts keeps its state well formed: one
/// output and one counter per block, counters below `u64::MAX`, and as many
/// interval fields as command fields in the editor.
pub proof fn lemma_step_well_formed(s: AppletView, msg: Message)
    requires
        well_formed(s),
        accepts(msg),
    ensures
        well_formed(step(s, msg).0),
{
    match msg {
        Message::Tick(config) => lemma_tick_well_formed(s, config@),
        _ => {},
    }
}

pub(crate) proof fn lemma_tick_well_formed(s: AppletView, config: ConfigView)
    requires
        well_formed(s),
    ensures
        well_formed(tick_state(s, config)),
{
    let next = tick_state(s, config);
    let t = counters_before_tick(s, config);
    assert forall|i: int| 0 <= i < next.ticks.len() implies next.ticks[i] < u64::MAX by {
        assert(next.ticks[i] == counter_after(t[i], config.blocks[i].interval));
    }
}

} // verus!
