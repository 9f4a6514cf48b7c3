use vstd::prelude::*;

use crate::applet::{
    all_runs, counters_before_tick, due_runs, interval_of_text, is_due, lemma_tick_well_formed,
    saved_blocks, saved_config, step, synced, tick_state, well_formed, ActionView, AppletView,
    Message,
};
use crate::config::{BlockView, ConfigView, ExecutorConfig};
use crate::panel::decreased_interval_value;
use crate::panel::display_separator;
use crate::text::{decimal_chars, lemma_parse_decimal_chars, trim_chars};

verus! {

/// Moving a block up and then back down leaves the editor as it was.
pub proof fn lemma_move_up_then_down(s: AppletView, i: usize)
    requires
        well_formed(s),
        0 < i < s.edit_commands.len(),
    ensures
        step(step(s, Message::MoveBlockUp(i)).0, Message::MoveBlockDown((i - 1) as usize)).0 == s,
{
    let moved = step(s, Message::MoveBlockUp(i)).0;
    let back = step(moved, Message::MoveBlockDown((i - 1) as usize)).0;
    assert(back.edit_commands =~= s.edit_commands);
    assert(back.edit_intervals =~= s.edit_intervals);
    assert(back =~= s);
}

/// Moving a block down and then back up leaves the editor as it was.
pub proof fn lemma_move_down_then_up(s: AppletView, i: usize)
    requires
        well_formed(s),
        i + 1 < s.edit_commands.len() <= usize::MAX,
    ensures
        step(step(s, Message::MoveBlockDown(i)).0, Message::MoveBlockUp((i + 1) as usize)).0 == s,
{
    let moved = step(s, Message::MoveBlockDown(i)).0;
    let back = step(moved, Message::MoveBlockUp((i + 1) as usize)).0;
    assert(back.edit_commands =~= s.edit_commands);
    assert(back.edit_intervals =~= s.edit_intervals);
    assert(back =~= s);
}

/// Adding a block and then removing the last one leaves the editor as it
/// was.
pub proof fn lemma_add_then_remove(s: AppletView)
    requires
        well_formed(s),
        s.edit_commands.len() < usize::MAX,
    ensures
        step(
            step(s, Message::AddBlock).0,
            Message::RemoveBlock(s.edit_commands.len() as usize),
        ).0 == s,
{
    let added = step(s, Message::AddBlock).0;
    let back = step(added, Message::RemoveBlock(s.edit_commands.len() as usize)).0;
    assert(back.edit_commands =~= s.edit_commands);
    assert(back.edit_intervals =~= s.edit_intervals);
    assert(back =~= s);
}

/// A block added in the editor and left without a command is not kept when
/// the editor is saved.
pub proof fn lemma_empty_block_not_saved(s: AppletView)
    requires
        well_formed(s),
    ensures
        saved_config(step(s, Message::AddBlock).0) == saved_config(s),
{
    let added = step(s, Message::AddBlock).0;
    let n = s.edit_commands.len() as int;
    lemma_saved_blocks_prefix(s.edit_commands, s.edit_intervals, added.edit_commands, added.edit_intervals, n);
    assert(added.edit_commands[n].len() == 0);
}

proof fn lemma_saved_blocks_prefix(
    c1: Seq<Seq<char>>,
    i1: Seq<Seq<char>>,
    c2: Seq<Seq<char>>,
    i2: Seq<Seq<char>>,
    k: int,
)
    requires
        0 <= k <= c1.len(),
        k <= c2.len(),
        c1.len() == i1.len(),
        c2.len() == i2.len(),
        forall|j: int| 0 <= j < k ==> c1[j] == c2[j] && i1[j] == i2[j],
    ensures
        saved_blocks(c1, i1, k) == saved_blocks(c2, i2, k),
    decreases k,
{
    if k > 0 {
        lemma_saved_blocks_prefix(c1, i1, c2, i2, k - 1);
    }
}

/// Every block that saving the editor keeps has a non-empty command.
pub proof fn lemma_saved_commands_not_empty(s: AppletView, k: int)
    requires
        0 <= k <= s.edit_commands.len(),
    ensures
        forall|j: int|
            0 <= j < saved_blocks(s.edit_commands, s.edit_intervals, k).len() ==> (#[trigger] saved_blocks(
                s.edit_commands,
                s.edit_intervals,
                k,
            )[j]).command.len() > 0,
    decreases k,
{
    if k > 0 {
        lemma_saved_commands_not_empty(s, k - 1);
        let prev = saved_blocks(s.edit_commands, s.edit_intervals, k - 1);
        let all = saved_blocks(s.edit_commands, s.edit_intervals, k);
        assert forall|j: int| 0 <= j < all.len() implies (#[trigger] all[j]).command.len() > 0 by {
            if j < prev.len() {
                assert(all[j] == prev[j]);
            }
        }
    }
}

/// Filling the editor from a configuration whose commands are all non-empty
/// and saving it at once gives back that configuration.
pub proof fn lemma_sync_then_save(s: AppletView)
    requires
        well_formed(s),
        forall|j: int| 0 <= j < s.config.blocks.len() ==> (#[trigger] s.config.blocks[j]).command.len() > 0,
    ensures
        saved_config(synced(s)) == s.config,
{
    let e = synced(s);
    let n = s.config.blocks.len() as int;
    lemma_saved_synced(s, n);
    assert(s.config.blocks.take(n) =~= s.config.blocks);
}

proof fn lemma_saved_synced(s: AppletView, k: int)
    requires
        0 <= k <= s.config.blocks.len(),
        forall|j: int| 0 <= j < s.config.blocks.len() ==> (#[trigger] s.config.blocks[j]).command.len() > 0,
    ensures
        saved_blocks(synced(s).edit_commands, synced(s).edit_intervals, k) == s.config.blocks.take(k),
    decreases k,
{
    if k > 0 {
        lemma_saved_synced(s, k - 1);
        let b = s.config.blocks[k - 1];
        lemma_parse_decimal_chars(b.interval as nat, u64::MAX as nat);
        assert(interval_of_text(synced(s).edit_intervals[k - 1]) == b.interval);
        assert(s.config.blocks.take(k) =~= s.config.blocks.take(k - 1).push(b));
    } else {
        assert(s.config.blocks.take(0) =~= Seq::<BlockView>::empty());
    }
}

/// A block whose interval is at most one second runs at every tick.
pub proof fn lemma_short_interval_runs_every_tick(s: AppletView, config: ConfigView, i: int)
    requires
        well_formed(s),
        0 <= i < config.blocks.len() <= usize::MAX,
        config.blocks[i].interval <= 1,
    ensures
        due_runs(
            counters_before_tick(s, config),
            config.blocks,
            config.blocks.len() as int,
        ).contains((i as usize, config.blocks[i].command)),
        tick_state(s, config).ticks[i] == 0,
{
    let t = counters_before_tick(s, config);
    lemma_due_runs(t, config.blocks, config.blocks.len() as int);
    assert(is_due(t[i], config.blocks[i].interval));
}

/// The commands that a tick runs are exactly those of the due blocks, in
/// the order of the blocks.
pub proof fn lemma_due_runs(ticks: Seq<u64>, blocks: Seq<BlockView>, k: int)
    requires
        0 <= k <= blocks.len(),
        k <= ticks.len(),
        k <= usize::MAX,
    ensures
        forall|j: int|
            0 <= j < k ==> (is_due(ticks[j], blocks[j].interval) <==> due_runs(ticks, blocks, k).contains(
                (j as usize, blocks[j].command),
            )),
        forall|r: (usize, Seq<char>)|
            #[trigger] due_runs(ticks, blocks, k).contains(r) ==> r.0 < k && r.1 == blocks[r.0 as int].command
                && is_due(ticks[r.0 as int], blocks[r.0 as int].interval),
    decreases k,
{
    if k > 0 {
        lemma_due_runs(ticks, blocks, k - 1);
        let prev = due_runs(ticks, blocks, k - 1);
        let last = if is_due(ticks[k - 1], blocks[k - 1].interval) {
            seq![((k - 1) as usize, blocks[k - 1].command)]
        } else {
            Seq::empty()
        };
        assert(due_runs(ticks, blocks, k) == prev + last);
        assert forall|j: int|
            0 <= j < k implies (is_due(ticks[j], blocks[j].interval) <==> due_runs(ticks, blocks, k).contains(
                (j as usize, blocks[j].command),
            )) by {
            if j < k - 1 {
                if prev.contains((j as usize, blocks[j].command)) {
                    let w = choose|w: int| 0 <= w < prev.len() && prev[w] == (j as usize, blocks[j].command);
                    assert((prev + last)[w] == prev[w]);
                }
                if (prev + last).contains((j as usize, blocks[j].command)) {
                    let w = choose|w: int| 0 <= w < (prev + last).len() && (prev + last)[w] == (j as usize, blocks[j].command);
                    if w >= prev.len() {
                        assert(last[w - prev.len()] == (j as usize, blocks[j].command));
                    } else {
                        assert(prev.contains((j as usize, blocks[j].command)));
                    }
                }
            } else {
                if is_due(ticks[j], blocks[j].interval) {
                    assert((prev + last)[prev.len() as int] == (j as usize, blocks[j].command));
                }
                if (prev + last).contains((j as usize, blocks[j].command)) {
                    let w = choose|w: int| 0 <= w < (prev + last).len() && (prev + last)[w] == (j as usize, blocks[j].command);
                    if w < prev.len() {
                        assert(prev.contains((j as usize, blocks[j].command)));
                    }
                }
            }
        }
        assert forall|r: (usize, Seq<char>)|
            #[trigger] due_runs(ticks, blocks, k).contains(r) implies r.0 < k && r.1 == blocks[r.0 as int].command
                && is_due(ticks[r.0 as int], blocks[r.0 as int].interval) by {
            let w = choose|w: int| 0 <= w < (prev + last).len() && (prev + last)[w] == r;
            if w < prev.len() {
                assert(prev.contains(r));
            }
        }
    }
}

/// The state after `m` ticks, all with the configuration `config`.
pub open spec fn ticked(s: AppletView, config: ConfigView, m: nat) -> AppletView
    decreases m,
{
    if m == 0 {
        s
    } else {
        tick_state(ticked(s, config, (m - 1) as nat), config)
    }
}

/// Under an unchanged configuration, a block whose counter stands at 0 and
/// whose interval is `k` seconds counts up one per tick, and is due at its
/// `k`-th tick and at no earlier one.
pub proof fn lemma_tick_period(s: AppletView, config: ConfigView, i: int, m: nat)
    requires
        well_formed(s),
        s.config.blocks.len() == config.blocks.len(),
        0 <= i < config.blocks.len(),
        s.ticks[i] == 0,
        m < config.blocks[i].interval,
    ensures
        ticked(s, config, m).ticks[i] == m,
        ticked(s, config, m).ticks.len() == config.blocks.len(),
        is_due(ticked(s, config, m).ticks[i], config.blocks[i].interval) <==> m + 1
            == config.blocks[i].interval,
    decreases m,
{
    if m > 0 {
        lemma_tick_period(s, config, i, (m - 1) as nat);
        let prev = ticked(s, config, (m - 1) as nat);
        assert(counters_before_tick(prev, config)[i] == prev.ticks[i]);
    }
}

/// Opening the popup, and then pressing the panel button again, closes the
/// window that was opened: the button fills the editor and asks for the
/// popup after a pause, the pause gives it a window, and the next press
/// closes that window.
pub proof fn lemma_popup_round_trip(s: AppletView, id: u64)
    requires
        well_formed(s),
        s.popup is None,
    ensures
        step(s, Message::TogglePopup) == (synced(s), ActionView::OpenPopupAfterDelay),
        step(synced(s), Message::OpenPopupDelayed(id)) == (
            AppletView { popup: Some(id), ..synced(s) },
            ActionView::CreatePopup(id),
        ),
        step(AppletView { popup: Some(id), ..synced(s) }, Message::TogglePopup) == (
            synced(s),
            ActionView::DestroyPopup(id),
        ),
{
    assert(AppletView { popup: None, ..AppletView { popup: Some(id), ..synced(s) } } =~= synced(
        s,
    ));
}

/// Closing a window other than the popup changes nothing; closing the popup
/// forgets it.
pub proof fn lemma_popup_closed(s: AppletView, id: u64)
    ensures
        s.popup != Some(id) ==> step(s, Message::PopupClosed(id)).0 == s,
        s.popup == Some(id) ==> step(s, Message::PopupClosed(id)).0.popup is None,
{
}

/// A tick takes the configuration read from its file at once, and keeps the
/// last output of each block that is still there.
pub proof fn lemma_tick_reloads(s: AppletView, config: ConfigView)
    requires
        well_formed(s),
    ensures
        tick_state(s, config).config == config,
        well_formed(tick_state(s, config)),
        forall|j: int|
            0 <= j < s.outputs.len() && j < config.blocks.len() ==> #[trigger] tick_state(
                s,
                config,
            ).outputs[j] == s.outputs[j],
{
    lemma_tick_well_formed(s, config);
}

/// The `+` button of an editor row sets an interval field that stands for one
/// second more, and the `−` button one that stands for one second less, but
/// never less than one second.
pub proof fn lemma_interval_buttons(v: u64)
    ensures
        v < u64::MAX ==> interval_of_text(decimal_chars((v + 1) as nat)) == v + 1,
        interval_of_text(decimal_chars(decreased_interval_value(v) as nat))
            == decreased_interval_value(v),
        decreased_interval_value(v) >= 1,
        v > 1 ==> decreased_interval_value(v) == v - 1,
{
    if v < u64::MAX {
        lemma_parse_decimal_chars((v + 1) as nat, u64::MAX as nat);
    }
    lemma_parse_decimal_chars(decreased_interval_value(v) as nat, u64::MAX as nat);
}

/// At every tick with a configuration `config`, a block whose counted
/// seconds, one more than its counter stood at (0 for a block new to the
/// configuration), reach or exceed its interval runs and starts counting
/// again from 0; any other block does not run and counts one more second.
/// This holds whatever the counter stood at when the configuration changed.
pub proof fn lemma_tick_runs_due_blocks(s: AppletView, config: ExecutorConfig, i: int)
    requires
        well_formed(s),
        0 <= i < config@.blocks.len(),
        config@.blocks.len() <= usize::MAX,
    ensures
        ({
            let counted = (if i < s.ticks.len() { s.ticks[i] } else { 0 }) + 1;
            let interval = config@.blocks[i].interval;
            let (next, action) = step(s, Message::Tick(config));
            &&& action matches ActionView::RunCommands(runs) && (runs.contains(
                (i as usize, config@.blocks[i].command),
            ) <==> counted >= interval)
            &&& next.ticks[i] == (if counted >= interval { 0 } else { counted })
            &&& next.config == config@
        }),
{
    let t = counters_before_tick(s, config@);
    lemma_due_runs(t, config@.blocks, config@.blocks.len() as int);
    assert(t[i] == (if i < s.ticks.len() { s.ticks[i] } else { 0 }));
}

/// Every command that a tick runs is that of a block of the new
/// configuration, named by its index.
pub proof fn lemma_tick_runs_only_blocks(s: AppletView, config: ExecutorConfig)
    requires
        well_formed(s),
        config@.blocks.len() <= usize::MAX,
    ensures
        step(s, Message::Tick(config)).1 matches ActionView::RunCommands(runs) && forall|r: (usize, Seq<char>)|
            #[trigger] runs.contains(r) ==> r.0 < config@.blocks.len() && r.1 == config@.blocks[r.0 as int].command,
{
    lemma_due_runs(counters_before_tick(s, config@), config@.blocks, config@.blocks.len() as int);
}

/// The rows of the editor, in order, whose command field is not empty.
pub open spec fn filled_rows(commands: Seq<Seq<char>>) -> Seq<int> {
    Seq::new(commands.len(), |i: int| i).filter(|i: int| commands[i].len() > 0)
}

proof fn lemma_saved_blocks_rows(commands: Seq<Seq<char>>, intervals: Seq<Seq<char>>, k: int)
    requires
        0 <= k <= commands.len(),
        commands.len() == intervals.len(),
    ensures
        ({
            let rows = Seq::new(k as nat, |i: int| i).filter(|i: int| commands[i].len() > 0);
            let blocks = saved_blocks(commands, intervals, k);
            &&& blocks.len() == rows.len()
            &&& forall|j: int|
                0 <= j < rows.len() ==> 0 <= #[trigger] rows[j] < k && blocks[j] == BlockView {
                    command: commands[rows[j]],
                    interval: interval_of_text(intervals[rows[j]]),
                }
        }),
    decreases k,
{
    let f = |i: int| commands[i].len() > 0;
    let all = Seq::new(k as nat, |i: int| i);
    if k > 0 {
        lemma_saved_blocks_rows(commands, intervals, k - 1);
        assert(all.drop_last() =~= Seq::new((k - 1) as nat, |i: int| i));
        assert(all.last() == k - 1);
        let prev_rows = Seq::new((k - 1) as nat, |i: int| i).filter(f);
        reveal_with_fuel(Seq::<_>::filter, 1);
        assert(all.filter(f) == (if f(k - 1) { prev_rows.push(k - 1) } else { prev_rows }));
    } else {
        reveal_with_fuel(Seq::<_>::filter, 1);
        assert(all.filter(f) =~= Seq::<int>::empty());
    }
}

/// Saving the editor keeps, in their order, exactly the rows whose command
/// field is not empty: the block made from row `i` has that row's command
/// and the interval that row's interval field stands for. The configuration
/// saved is the one the applet then uses, and every block of it is run.
pub proof fn lemma_save_keeps_filled_rows(s: AppletView)
    requires
        well_formed(s),
    ensures
        ({
            let (next, action) = step(s, Message::Save);
            let rows = filled_rows(s.edit_commands);
            &&& next.config.blocks.len() == rows.len()
            &&& forall|j: int|
                0 <= j < rows.len() ==> 0 <= #[trigger] rows[j] < s.edit_commands.len()
                    && next.config.blocks[j] == BlockView {
                    command: s.edit_commands[rows[j]],
                    interval: interval_of_text(s.edit_intervals[rows[j]]),
                }
            &&& next.config.separator == s.edit_separator
            &&& action == ActionView::SaveAndRun(next.config, all_runs(next.config.blocks))
        }),
{
    lemma_saved_blocks_rows(s.edit_commands, s.edit_intervals, s.edit_commands.len() as int);
}

/// The separator shown between two blocks is the whole separator without
/// its surrounding white space, with exactly one space before and one after.
pub proof fn lemma_separator_shown_whole(separator: Seq<char>)
    ensures
        display_separator(separator).len() == trim_chars(separator).len() + 2,
        display_separator(separator)[0] == ' ',
        display_separator(separator).last() == ' ',
        display_separator(separator).subrange(1, display_separator(separator).len() - 1)
            == trim_chars(separator),
{
    assert(display_separator(separator).subrange(1, display_separator(separator).len() - 1)
        =~= trim_chars(separator));
}

/// Editing the command of any row of the editor, the last one included,
/// replaces that row's command and changes nothing else.
pub proof fn lemma_edit_command(s: AppletView, i: usize, value: String)
    requires
        i < s.edit_commands.len(),
    ensures
        ({
            let (next, action) = step(s, Message::EditCommand(i, value));
            &&& next.edit_commands.len() == s.edit_commands.len()
            &&& next.edit_commands[i as int] == value@
            &&& forall|j: int|
                0 <= j < s.edit_commands.len() && j != i ==> #[trigger] next.edit_commands[j]
                    == s.edit_commands[j]
            &&& next == AppletView { edit_commands: next.edit_commands, ..s }
            &&& action == ActionView::Nothing
        }),
{
}

/// Editing the interval of any row of the editor replaces that row's
/// interval field and changes nothing else.
pub proof fn lemma_edit_interval(s: AppletView, i: usize, value: String)
    requires
        i < s.edit_intervals.len(),
    ensures
        ({
            let (next, action) = step(s, Message::EditInterval(i, value));
            &&& next.edit_intervals.len() == s.edit_intervals.len()
            &&& next.edit_intervals[i as int] == value@
            &&& forall|j: int|
                0 <= j < s.edit_intervals.len() && j != i ==> #[trigger] next.edit_intervals[j]
                    == s.edit_intervals[j]
            &&& next == AppletView { edit_intervals: next.edit_intervals, ..s }
            &&& action == ActionView::Nothing
        }),
{
}

/// Editing the separator replaces the editor's separator and changes
/// nothing else.
pub proof fn lemma_edit_separator(s: AppletView, value: String)
    ensures
        step(s, Message::EditSeparator(value)) == (
            AppletView { edit_separator: value@, ..s },
            ActionView::Nothing,
        ),
{
}

/// The output of a command replaces the output of its block, whichever
/// block it is, and changes nothing else.
pub proof fn lemma_output_replaces(s: AppletView, i: usize, text: String)
    requires
        i < s.outputs.len(),
    ensures
        ({
            let (next, action) = step(s, Message::Output(i, text));
            &&& next.outputs.len() == s.outputs.len()
            &&& next.outputs[i as int] == text@
            &&& forall|j: int|
                0 <= j < s.outputs.len() && j != i ==> #[trigger] next.outputs[j] == s.outputs[j]
            &&& next == AppletView { outputs: next.outputs, ..s }
            &&& action == ActionView::Nothing
        }),
{
}

/// Removing any row of the editor takes out that row's command and interval
/// fields and keeps the others in order.
pub proof fn lemma_remove_row(s: AppletView, i: usize)
    requires
        well_formed(s),
        i < s.edit_commands.len(),
    ensures
        ({
            let next = step(s, Message::RemoveBlock(i)).0;
            &&& next.edit_commands.len() == s.edit_commands.len() - 1
            &&& next.edit_intervals.len() == s.edit_intervals.len() - 1
            &&& forall|j: int|
                0 <= j < next.edit_commands.len() ==> #[trigger] next.edit_commands[j] == s.edit_commands[
                    if j < i { j } else { j + 1 }
                ] && next.edit_intervals[j] == s.edit_intervals[if j < i { j } else { j + 1 }]
        }),
{
}

/// Moving row `i` up exchanges it with the row above, command and interval
/// together, and leaves every other row where it was.
pub proof fn lemma_move_up_exchanges(s: AppletView, i: usize)
    requires
        well_formed(s),
        0 < i < s.edit_commands.len(),
    ensures
        ({
            let next = step(s, Message::MoveBlockUp(i)).0;
            &&& next.edit_commands.len() == s.edit_commands.len()
            &&& next.edit_intervals.len() == s.edit_intervals.len()
            &&& next.edit_commands[i - 1] == s.edit_commands[i as int]
            &&& next.edit_commands[i as int] == s.edit_commands[i - 1]
            &&& next.edit_intervals[i - 1] == s.edit_intervals[i as int]
            &&& next.edit_intervals[i as int] == s.edit_intervals[i - 1]
            &&& forall|j: int|
                0 <= j < s.edit_commands.len() && j != i && j != i - 1 ==> #[trigger] next.edit_commands[j]
                    == s.edit_commands[j] && next.edit_intervals[j] == s.edit_intervals[j]
        }),
{
}

/// Moving row `i` down exchanges it with the row below, command and
/// interval together, and leaves every other row where it was.
pub proof fn lemma_move_down_exchanges(s: AppletView, i: usize)
    requires
        well_formed(s),
        i + 1 < s.edit_commands.len(),
    ensures
        ({
            let next = step(s, Message::MoveBlockDown(i)).0;
            &&& next.edit_commands.len() == s.edit_commands.len()
            &&& next.edit_intervals.len() == s.edit_intervals.len()
            &&& next.edit_commands[i + 1] == s.edit_commands[i as int]
            &&& next.edit_commands[i as int] == s.edit_commands[i + 1]
            &&& next.edit_intervals[i + 1] == s.edit_intervals[i as int]
            &&& next.edit_intervals[i as int] == s.edit_intervals[i + 1]
            &&& forall|j: int|
                0 <= j < s.edit_commands.len() && j != i && j != i + 1 ==> #[trigger] next.edit_commands[j]
                    == s.edit_commands[j] && next.edit_intervals[j] == s.edit_intervals[j]
        }),
{
}

/// Adding a block appends a row with an empty command and an interval field
/// that stands for 5 seconds, after the rows already there.
pub proof fn lemma_add_block_appends(s: AppletView)
    requires
        well_formed(s),
    ensures
        ({
            let next = step(s, Message::AddBlock).0;
            let n = s.edit_commands.len() as int;
            &&& next.edit_commands.len() == n + 1
            &&& next.edit_intervals.len() == n + 1
            &&& next.edit_commands[n].len() == 0
            &&& interval_of_text(next.edit_intervals[n]) == 5
            &&& next.edit_commands.take(n) == s.edit_commands
            &&& next.edit_intervals.take(n) == s.edit_intervals
        }),
{
    let next = step(s, Message::AddBlock).0;
    let n = s.edit_commands.len() as int;
    lemma_parse_decimal_chars(5, u64::MAX as nat);
    assert(decimal_chars(5) =~= seq!['5']);
    assert(next.edit_commands.take(n) =~= s.edit_commands);
    assert(next.edit_intervals.take(n) =~= s.edit_intervals);
}

/// Opening the editor fills it with one row per block of the
/// configuration: the block's command, and an interval field that stands
/// for the block's interval; and with the configuration's separator.
pub proof fn lemma_open_editor_fills_rows(s: AppletView)
    requires
        well_formed(s),
        s.popup is None,
    ensures
        ({
            let next = step(s, Message::TogglePopup).0;
            &&& next.edit_commands.len() == s.config.blocks.len()
            &&& next.edit_intervals.len() == s.config.blocks.len()
            &&& forall|j: int|
                0 <= j < s.config.blocks.len() ==> #[trigger] next.edit_commands[j]
                    == s.config.blocks[j].command && interval_of_text(next.edit_intervals[j])
                    == s.config.blocks[j].interval
            &&& next.edit_separator == s.config.separator
            &&& next.config == s.config
            &&& next.outputs == s.outputs
            &&& next.ticks == s.ticks
        }),
{
    let next = step(s, Message::TogglePopup).0;
    assert forall|j: int| 0 <= j < s.config.blocks.len() implies #[trigger] next.edit_commands[j]
        == s.config.blocks[j].command && interval_of_text(next.edit_intervals[j])
        == s.config.blocks[j].interval by {
        lemma_parse_decimal_chars(s.config.blocks[j].interval as nat, u64::MAX as nat);
    }
}

/// After a tick, there is one output per block of the new configuration:
/// the last output of each block that was there before, and an empty one
/// for each new block.
pub proof fn lemma_tick_outputs(s: AppletView, config: ExecutorConfig)
    requires
        well_formed(s),
    ensures
        ({
            let next = step(s, Message::Tick(config)).0;
            &&& next.outputs.len() == config@.blocks.len()
            &&& forall|j: int|
                0 <= j < config@.blocks.len() ==> #[trigger] next.outputs[j] == (if j
                    < s.outputs.len() {
                    s.outputs[j]
                } else {
                    Seq::<char>::empty()
                })
            &&& next.edit_commands == s.edit_commands
            &&& next.edit_intervals == s.edit_intervals
            &&& next.popup == s.popup
        }),
{
}

/// Pressing the panel button while the popup is open closes that popup and
/// changes nothing else; a fresh window for the popup while one is open is
/// ignored.
pub proof fn lemma_popup_open(s: AppletView, id: u64, other: u64)
    requires
        s.popup == Some(id),
    ensures
        step(s, Message::TogglePopup) == (
            AppletView { popup: None, ..s },
            ActionView::DestroyPopup(id),
        ),
        step(s, Message::OpenPopupDelayed(other)) == (s, ActionView::Nothing),
{
}

} // verus!
