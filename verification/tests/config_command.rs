use applet_executor::command::{command_report, error_report, report_from_text};
use applet_executor::config::{BlockConfig, ExecutorConfig};

fn blocks(config: &ExecutorConfig) -> Vec<(String, u64)> {
    config.blocks.iter().map(|b: &BlockConfig| (b.command.clone(), b.interval)).collect()
}

#[test]
fn readme_example_config() {
    let text = r#"{
  "separator": " | ",
  "font_size": 14.0,
  "blocks": [
    { "command": "date +%H:%M:%S", "interval": 1 },
    { "command": "sensors | grep Package | head -c23 | cut -d' ' -f5", "interval": 3 },
    { "command": "ip -br a | grep eth0 | awk '{print $3}'", "interval": 10 }
  ]
}"#;
    let config = ExecutorConfig::config(Some(text));
    assert_eq!(config.separator, " | ");
    assert_eq!(
        blocks(&config),
        vec![
            ("date +%H:%M:%S".to_string(), 1),
            ("sensors | grep Package | head -c23 | cut -d' ' -f5".to_string(), 3),
            ("ip -br a | grep eth0 | awk '{print $3}'".to_string(), 10),
        ]
    );
}

#[test]
fn missing_file_gives_default() {
    let config = ExecutorConfig::config(None);
    assert_eq!(config.separator, " | ");
    assert!(config.blocks.is_empty());
    let default = ExecutorConfig::default();
    assert_eq!(default.separator, " | ");
    assert!(default.blocks.is_empty());
}

#[test]
fn invalid_json_gives_default() {
    let config = ExecutorConfig::config(Some("{ not json"));
    assert_eq!(config.separator, " | ");
    assert!(config.blocks.is_empty());
}

#[test]
fn json_that_is_not_an_object() {
    let config = ExecutorConfig::config(Some("[1, 2, 3]"));
    assert_eq!(config.separator, " | ");
    assert!(config.blocks.is_empty());
}

#[test]
fn missing_fields_take_defaults() {
    let config = ExecutorConfig::config(Some(r#"{"blocks": [{"command": "uptime"}]}"#));
    assert_eq!(config.separator, " | ");
    assert_eq!(blocks(&config), vec![("uptime".to_string(), 5)]);
}

#[test]
fn entries_without_a_usable_command_are_dropped() {
    let text = r#"{"separator": 7, "blocks": [
        {"command": "", "interval": 2},
        {"interval": 3},
        {"command": 12},
        "loose",
        {"command": "a", "interval": -1},
        {"command": "b", "interval": 2.5},
        {"command": "c", "interval": 18446744073709551615}
    ]}"#;
    let config = ExecutorConfig::config(Some(text));
    assert_eq!(config.separator, " | ");
    assert_eq!(
        blocks(&config),
        vec![("a".to_string(), 5), ("b".to_string(), 5), ("c".to_string(), u64::MAX)]
    );
}

#[test]
fn blocks_that_is_not_an_array() {
    let config = ExecutorConfig::config(Some(r#"{"separator": "::", "blocks": {"command": "x"}}"#));
    assert_eq!(config.separator, "::");
    assert!(config.blocks.is_empty());
}

#[test]
fn copy_keeps_everything() {
    let config = ExecutorConfig::config(Some(r#"{"separator": "/", "blocks": [{"command": "x", "interval": 9}]}"#));
    let copy = config.copy();
    assert_eq!(copy.separator, "/");
    assert_eq!(blocks(&copy), vec![("x".to_string(), 9)]);
}

#[test]
fn successful_command_shows_trimmed_output() {
    assert_eq!(command_report(true, b"  12:30:05\n", b"ignored"), "12:30:05");
}

#[test]
fn failed_command_shows_trimmed_errors() {
    assert_eq!(command_report(false, b"out", b"sh: 1: nope: not found\n"), "Error: sh: 1: nope: not found");
}

#[test]
fn invalid_utf8_is_replaced() {
    assert_eq!(command_report(true, &[b'a', 0xff, b'b'], b""), "a\u{fffd}b");
}

#[test]
fn report_from_decoded_text() {
    assert_eq!(report_from_text(true, "\tok \n", "x"), "ok");
    assert_eq!(report_from_text(false, "x", "  "), "Error: ");
}

#[test]
fn error_report_keeps_detail() {
    assert_eq!(error_report("No such file or directory (os error 2)"), "Error: No such file or directory (os error 2)");
    assert_eq!(error_report(" spaced "), "Error:  spaced ");
}
