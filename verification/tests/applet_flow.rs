use applet_executor::ansi::AnsiColor;
use applet_executor::applet::{interval_value, Action, CommandRun, ExecutorApplet, Message};
use applet_executor::panel::separator_text;
use applet_executor::config::{BlockConfig, ExecutorConfig};

fn config(blocks: &[(&str, u64)], separator: &str) -> ExecutorConfig {
    ExecutorConfig {
        blocks: blocks
            .iter()
            .map(|(c, i)| BlockConfig { command: c.to_string(), interval: *i })
            .collect(),
        separator: separator.to_string(),
    }
}

fn runs(action: &Action) -> Vec<(usize, String)> {
    match action {
        Action::RunCommands(r) => r.iter().map(|r: &CommandRun| (r.index, r.command.clone())).collect(),
        Action::SaveAndRun(_, r) => r.iter().map(|r: &CommandRun| (r.index, r.command.clone())).collect(),
        other => panic!("no commands in {other:?}"),
    }
}

fn started(blocks: &[(&str, u64)]) -> ExecutorApplet {
    ExecutorApplet::new(config(blocks, "|")).0
}

#[test]
fn start_runs_every_block() {
    let (applet, action) = ExecutorApplet::new(config(&[("date", 1), ("uptime", 3)], "|"));
    assert_eq!(runs(&action), vec![(0, "date".to_string()), (1, "uptime".to_string())]);
    assert_eq!(applet.outputs, vec![String::new(), String::new()]);
    assert_eq!(applet.ticks, vec![0, 0]);
    assert_eq!(applet.popup, None);
    assert_eq!(applet.edit_commands, vec!["date".to_string(), "uptime".to_string()]);
    assert_eq!(applet.edit_intervals, vec!["1".to_string(), "3".to_string()]);
    assert_eq!(applet.edit_separator, "|");
}

#[test]
fn blocks_run_at_their_own_interval() {
    let blocks = [("date", 1), ("uptime", 3), ("never", 0)];
    let mut applet = started(&blocks);
    let mut seen = Vec::new();
    for _ in 0..6 {
        let action = applet.update(Message::Tick(config(&blocks, "|")));
        seen.push(runs(&action).into_iter().map(|(i, _)| i).collect::<Vec<_>>());
    }
    assert_eq!(
        seen,
        vec![vec![0, 2], vec![0, 2], vec![0, 1, 2], vec![0, 2], vec![0, 2], vec![0, 1, 2]]
    );
}

#[test]
fn tick_follows_the_reloaded_configuration() {
    let mut applet = started(&[("a", 5)]);
    applet.update(Message::Tick(config(&[("a", 5)], "|")));
    applet.update(Message::Tick(config(&[("a", 5)], "|")));
    assert_eq!(applet.ticks, vec![2]);
    applet.update(Message::Output(0, "out".to_string()));
    let action = applet.update(Message::Tick(config(&[("a", 3), ("b", 2)], "|")));
    assert_eq!(runs(&action), vec![(0, "a".to_string())]);
    assert_eq!(applet.ticks, vec![0, 1]);
    assert_eq!(applet.outputs, vec!["out".to_string(), String::new()]);
    let action = applet.update(Message::Tick(config(&[], "|")));
    assert_eq!(runs(&action), vec![]);
    assert!(applet.outputs.is_empty());
    assert!(applet.ticks.is_empty());
}

#[test]
fn output_replaces_the_block_output() {
    let mut applet = started(&[("a", 1), ("b", 1)]);
    applet.update(Message::Output(1, "hello".to_string()));
    assert_eq!(applet.outputs, vec![String::new(), "hello".to_string()]);
    applet.update(Message::Output(7, "lost".to_string()));
    assert_eq!(applet.outputs, vec![String::new(), "hello".to_string()]);
}

#[test]
fn popup_opens_and_closes() {
    let mut applet = started(&[("a", 1)]);
    applet.edit_commands[0] = "changed".to_string();
    let action = applet.update(Message::TogglePopup);
    assert!(matches!(action, Action::OpenPopupAfterDelay));
    assert_eq!(applet.edit_commands, vec!["a".to_string()]);
    let action = applet.update(Message::OpenPopupDelayed(42));
    assert!(matches!(action, Action::CreatePopup(42)));
    assert_eq!(applet.popup, Some(42));
    let action = applet.update(Message::OpenPopupDelayed(43));
    assert!(matches!(action, Action::Nothing));
    assert_eq!(applet.popup, Some(42));
    let action = applet.update(Message::TogglePopup);
    assert!(matches!(action, Action::DestroyPopup(42)));
    assert_eq!(applet.popup, None);
}

#[test]
fn closing_another_window_keeps_the_popup() {
    let mut applet = started(&[]);
    applet.update(Message::OpenPopupDelayed(7));
    applet.update(Message::PopupClosed(8));
    assert_eq!(applet.popup, Some(7));
    applet.update(Message::PopupClosed(7));
    assert_eq!(applet.popup, None);
}

#[test]
fn editing_and_saving() {
    let mut applet = started(&[("date", 1), ("uptime", 3)]);
    applet.update(Message::EditCommand(0, "echo hi".to_string()));
    applet.update(Message::EditInterval(0, "7".to_string()));
    applet.update(Message::EditInterval(1, "soon".to_string()));
    applet.update(Message::EditSeparator(" :: ".to_string()));
    applet.update(Message::AddBlock);
    assert_eq!(applet.edit_intervals[2], "5");
    applet.update(Message::EditCommand(9, "ignored".to_string()));
    let action = applet.update(Message::Save);
    match &action {
        Action::SaveAndRun(saved, r) => {
            assert_eq!(saved.separator, " :: ");
            let b: Vec<(String, u64)> = saved.blocks.iter().map(|b| (b.command.clone(), b.interval)).collect();
            assert_eq!(b, vec![("echo hi".to_string(), 7), ("uptime".to_string(), 5)]);
            assert_eq!(r.len(), 2);
        }
        other => panic!("unexpected {other:?}"),
    }
    assert_eq!(runs(&action), vec![(0, "echo hi".to_string()), (1, "uptime".to_string())]);
    assert_eq!(applet.config.separator, " :: ");
    assert_eq!(applet.config.blocks.len(), 2);
    assert_eq!(applet.ticks, vec![0, 0]);
    assert_eq!(applet.outputs.len(), 2);
    assert_eq!(applet.edit_commands.len(), 3);
}

#[test]
fn save_right_after_sync_keeps_the_configuration() {
    let mut applet = started(&[("a", 1), ("b", 30), ("c", 0)]);
    applet.update(Message::TogglePopup);
    let action = applet.update(Message::Save);
    match action {
        Action::SaveAndRun(saved, _) => {
            let b: Vec<(String, u64)> = saved.blocks.iter().map(|b| (b.command.clone(), b.interval)).collect();
            assert_eq!(b, vec![("a".to_string(), 1), ("b".to_string(), 30), ("c".to_string(), 0)]);
            assert_eq!(saved.separator, "|");
        }
        other => panic!("unexpected {other:?}"),
    }
}

#[test]
fn moving_blocks() {
    let mut applet = started(&[("a", 1), ("b", 2), ("c", 3)]);
    applet.update(Message::MoveBlockUp(2));
    assert_eq!(applet.edit_commands, vec!["a", "c", "b"]);
    assert_eq!(applet.edit_intervals, vec!["1", "3", "2"]);
    applet.update(Message::MoveBlockDown(1));
    assert_eq!(applet.edit_commands, vec!["a", "b", "c"]);
    applet.update(Message::MoveBlockUp(0));
    applet.update(Message::MoveBlockDown(2));
    applet.update(Message::MoveBlockUp(3));
    assert_eq!(applet.edit_commands, vec!["a", "b", "c"]);
    applet.update(Message::MoveBlockDown(0));
    assert_eq!(applet.edit_commands, vec!["b", "a", "c"]);
}

#[test]
fn adding_and_removing_blocks() {
    let mut applet = started(&[("a", 1), ("b", 2)]);
    applet.update(Message::AddBlock);
    assert_eq!(applet.edit_commands, vec!["a", "b", ""]);
    assert_eq!(applet.edit_intervals, vec!["1", "2", "5"]);
    applet.update(Message::RemoveBlock(2));
    assert_eq!(applet.edit_commands, vec!["a", "b"]);
    applet.update(Message::RemoveBlock(0));
    assert_eq!(applet.edit_commands, vec!["b"]);
    assert_eq!(applet.edit_intervals, vec!["2"]);
    applet.update(Message::RemoveBlock(5));
    assert_eq!(applet.edit_commands, vec!["b"]);
}

#[test]
fn panel_label() {
    let mut applet = ExecutorApplet::new(config(&[("a", 1), ("b", 1)], "  |  ")).0;
    applet.update(Message::Output(0, "\x1b[32mOK\x1b[0m".to_string()));
    applet.update(Message::Output(1, "12:00".to_string()));
    let label = applet.label();
    assert_eq!(
        label,
        vec![
            vec![("OK".to_string(), Some(AnsiColor::Green))],
            vec![(" | ".to_string(), None)],
            vec![("12:00".to_string(), None)],
        ]
    );
    let empty = started(&[]).label();
    assert!(empty.is_empty());
}

#[test]
fn default_separator_shows_with_spaces() {
    assert_eq!(separator_text("|"), " | ");
    assert_eq!(separator_text(" | "), " | ");
    assert_eq!(separator_text(""), "  ");
}

#[test]
fn editor_rows() {
    let mut applet = started(&[("a", 1), ("b", 0), ("c", 9)]);
    applet.update(Message::EditInterval(2, "x".to_string()));
    let first = applet.editor_row(0);
    assert!(!first.move_up);
    assert!(first.move_down);
    assert_eq!(first.decreased_interval, "1");
    assert_eq!(first.increased_interval, "2");
    let second = applet.editor_row(1);
    assert!(second.move_up && second.move_down);
    assert_eq!(second.decreased_interval, "1");
    assert_eq!(second.increased_interval, "1");
    let last = applet.editor_row(2);
    assert!(last.move_up);
    assert!(!last.move_down);
    assert_eq!(last.decreased_interval, "4");
    assert_eq!(last.increased_interval, "6");
}

#[test]
fn interval_text_values() {
    assert_eq!(interval_value("12"), 12);
    assert_eq!(interval_value(""), 5);
    assert_eq!(interval_value(" 3"), 5);
    assert_eq!(interval_value("+3"), 3);
}

#[test]
fn interval_buttons_step_by_one() {
    let mut applet = started(&[("a", 7), ("b", 0)]);
    let row = applet.editor_row(0);
    applet.update(Message::EditInterval(0, row.increased_interval));
    assert_eq!(interval_value(&applet.edit_intervals[0]), 8);
    let row = applet.editor_row(1);
    applet.update(Message::EditInterval(1, row.decreased_interval));
    assert_eq!(interval_value(&applet.edit_intervals[1]), 1);
    let row = applet.editor_row(1);
    assert_eq!(row.decreased_interval, "1");
    applet.update(Message::EditInterval(1, "3".to_string()));
    let row = applet.editor_row(1);
    assert_eq!(row.decreased_interval, "2");
}

#[test]
fn label_puts_separator_between_every_two_outputs() {
    let mut applet = ExecutorApplet::new(config(&[("a", 1), ("b", 1), ("c", 1)], "/")).0;
    for (i, text) in ["x", "y", "z"].iter().enumerate() {
        applet.update(Message::Output(i, text.to_string()));
    }
    let label = applet.label();
    assert_eq!(label.len(), 5);
    assert_eq!(label[1], vec![(" / ".to_string(), None)]);
    assert_eq!(label[3], vec![(" / ".to_string(), None)]);
    assert_eq!(label[4], vec![("z".to_string(), None)]);
}
