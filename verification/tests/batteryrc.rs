use batteryrc::config::Config;
use batteryrc::monitor::observe_power;
use batteryrc::monitor::power_status_changed;
use batteryrc::monitor::transition_dispatch;
use batteryrc::monitor::PowerState;
use batteryrc::shell_command::ParseError;
use batteryrc::shell_command::ShellCommand;

#[test]
fn config_parse() {
    let config_str = "@ac\ntestcmd 1\ncmdtest 2\n@battery\nbattest 1\nbattest 2\nbattest 3";
    let config = Config::parse_config(config_str).unwrap();

    // Test number of commands on AC and battery
    assert_eq!(config.on_ac_cmds.len(), 2);
    assert_eq!(config.on_bat_cmds.len(), 3);

    // Test AC commands
    assert_eq!(config.on_ac_cmds[0].name, "testcmd");
    assert_eq!(config.on_ac_cmds[0].args, vec!["1".to_string()]);
    assert_eq!(config.on_ac_cmds[1].name, "cmdtest");
    assert_eq!(config.on_ac_cmds[1].args, vec!["2".to_string()]);

    // Test battery commands
    assert_eq!(config.on_bat_cmds[0].name, "battest");
    assert_eq!(config.on_bat_cmds[0].args, vec!["1".to_string()]);
    assert_eq!(config.on_bat_cmds[1].name, "battest");
    assert_eq!(config.on_bat_cmds[1].args, vec!["2".to_string()]);
    assert_eq!(config.on_bat_cmds[2].name, "battest");
    assert_eq!(config.on_bat_cmds[2].args, vec!["3".to_string()]);
}

#[test]
fn shell_parse() {
    let command = "testcmd \"first arg\" 1 second third";
    let shell_cmd = ShellCommand::try_from(command);
    assert_eq!(
        shell_cmd.unwrap(),
        ShellCommand {
            name: "testcmd".to_string(),
            args: vec![
                "first arg".to_string(),
                "1".to_string(),
                "second".to_string(),
                "third".to_string()
            ]
        }
    );
}

#[test]
fn tokenizer_strips_quotes_and_keeps_inner_whitespace() {
    let cmd = ShellCommand::try_from("name arg1 \"arg two\" arg3").unwrap();
    assert_eq!(cmd.name, "name");
    assert_eq!(
        cmd.args,
        vec!["arg1".to_string(), "arg two".to_string(), "arg3".to_string()]
    );

    let single = ShellCommand::try_from("name 'one  two' tail").unwrap();
    assert_eq!(single.name, "name");
    assert_eq!(single.args, vec!["one  two".to_string(), "tail".to_string()]);
}

#[test]
fn tokenizer_joins_adjacent_quoted_parts() {
    let cmd = ShellCommand::try_from("echo a\"b c\"d").unwrap();
    assert_eq!(cmd.name, "echo");
    assert_eq!(cmd.args, vec!["ab cd".to_string()]);
}

#[test]
fn tokenizer_rejects_unterminated_quote() {
    assert_eq!(
        ShellCommand::try_from("foo \"bar"),
        Err(ParseError::MalformedQuoting)
    );
    assert_eq!(
        ShellCommand::try_from("foo 'bar baz"),
        Err(ParseError::MalformedQuoting)
    );
    assert_eq!(ShellCommand::try_from("\""), Err(ParseError::MalformedQuoting));
}

#[test]
fn tokenizer_rejects_wordless_line() {
    assert_eq!(ShellCommand::try_from(""), Err(ParseError::EmptyCommand));
    assert_eq!(ShellCommand::try_from("   \t  "), Err(ParseError::EmptyCommand));
}

#[test]
fn empty_quotes_make_an_empty_token() {
    let cmd = ShellCommand::try_from("prog '' x").unwrap();
    assert_eq!(cmd.name, "prog");
    assert_eq!(cmd.args, vec!["".to_string(), "x".to_string()]);
}

#[test]
fn empty_first_word_is_rejected() {
    assert_eq!(ShellCommand::try_from("''"), Err(ParseError::EmptyCommand));
    assert_eq!(ShellCommand::try_from("\"\""), Err(ParseError::EmptyCommand));
    assert_eq!(ShellCommand::try_from("'' x"), Err(ParseError::EmptyCommand));
}

#[test]
fn backslash_escapes_outside_quotes() {
    // An escaped space joins two halves into one word; before an ordinary
    // character the backslash is simply dropped.
    let cmd = ShellCommand::try_from("a\\ b").unwrap();
    assert_eq!(cmd.name, "a b");
    assert_eq!(cmd.args.len(), 0);

    let cmd = ShellCommand::try_from("cp a\\tb c").unwrap();
    assert_eq!(cmd.name, "cp");
    assert_eq!(cmd.args, vec!["atb".to_string(), "c".to_string()]);

    let cmd = ShellCommand::try_from("echo \\\"x").unwrap();
    assert_eq!(cmd.name, "echo");
    assert_eq!(cmd.args, vec!["\"x".to_string()]);
}

#[test]
fn backslash_inside_double_quotes() {
    // Inside double quotes a backslash escapes a quote or backslash, and
    // stands for itself before anything else.
    let cmd = ShellCommand::try_from("echo \"a\\\"b\"").unwrap();
    assert_eq!(cmd.args, vec!["a\"b".to_string()]);

    let cmd = ShellCommand::try_from("echo \"a\\\\b\"").unwrap();
    assert_eq!(cmd.args, vec!["a\\b".to_string()]);

    let cmd = ShellCommand::try_from("echo \"x\\yz\"").unwrap();
    assert_eq!(cmd.args, vec!["x\\yz".to_string()]);
}

#[test]
fn trailing_backslash_is_literal() {
    let cmd = ShellCommand::try_from("a\\").unwrap();
    assert_eq!(cmd.name, "a\\");
    assert_eq!(cmd.args.len(), 0);
}

#[test]
fn unicode_whitespace_is_trimmed() {
    // A marker padded with a no-break space is still recognized.
    let config = Config::parse_config("\u{00A0}@ac\u{00A0}\ncmd 1").unwrap();
    assert_eq!(config.on_ac_cmds.len(), 1);
    assert_eq!(config.on_ac_cmds[0].name, "cmd");
}

#[test]
fn vertical_tab_separates_words() {
    let cmd = ShellCommand::try_from("a\u{000B}b").unwrap();
    assert_eq!(cmd.name, "a");
    assert_eq!(cmd.args, vec!["b".to_string()]);
}

#[test]
fn command_before_any_marker_is_dropped() {
    let config = Config::parse_config("stray 1\nstray 2\n@ac\nkept 3").unwrap();
    assert_eq!(config.on_ac_cmds.len(), 1);
    assert_eq!(config.on_ac_cmds[0].name, "kept");
    assert_eq!(config.on_bat_cmds.len(), 0);
}

#[test]
fn bad_line_is_skipped_but_siblings_are_kept() {
    let config = Config::parse_config("@ac\ngood 1\nbad \"oops\ngood 2").unwrap();
    assert_eq!(config.on_ac_cmds.len(), 2);
    assert_eq!(config.on_ac_cmds[0].name, "good");
    assert_eq!(config.on_ac_cmds[0].args, vec!["1".to_string()]);
    assert_eq!(config.on_ac_cmds[1].name, "good");
    assert_eq!(config.on_ac_cmds[1].args, vec!["2".to_string()]);
    assert_eq!(config.on_bat_cmds.len(), 0);
}

#[test]
fn reload_of_same_text_is_identical() {
    let text = "@ac\na 1\n@battery\nb \"two words\"";
    let first = Config::parse_config(text).unwrap();
    let second = Config::parse_config(text).unwrap();
    assert_eq!(first.on_ac_cmds, second.on_ac_cmds);
    assert_eq!(first.on_bat_cmds, second.on_bat_cmds);
}

#[test]
fn end_to_end_two_section_config() {
    let config = Config::parse_config("@ac\nnotify-send hi\n@battery\necho \"bye now\"").unwrap();
    assert_eq!(config.on_ac_cmds.len(), 1);
    assert_eq!(config.on_ac_cmds[0].name, "notify-send");
    assert_eq!(config.on_ac_cmds[0].args, vec!["hi".to_string()]);
    assert_eq!(config.on_bat_cmds.len(), 1);
    assert_eq!(config.on_bat_cmds[0].name, "echo");
    assert_eq!(config.on_bat_cmds[0].args, vec!["bye now".to_string()]);
}

#[test]
fn markers_match_case_insensitively_and_trimmed() {
    let config = Config::parse_config("  @AC  \nup 1\n@Battery\ndown 2").unwrap();
    assert_eq!(config.on_ac_cmds.len(), 1);
    assert_eq!(config.on_ac_cmds[0].name, "up");
    assert_eq!(config.on_bat_cmds.len(), 1);
    assert_eq!(config.on_bat_cmds[0].name, "down");
}

#[test]
fn empty_text_gives_empty_lists() {
    let config = Config::parse_config("").unwrap();
    assert_eq!(config.on_ac_cmds.len(), 0);
    assert_eq!(config.on_bat_cmds.len(), 0);

    let blank = Config::parse_config("\n   \n\t\n").unwrap();
    assert_eq!(blank.on_ac_cmds.len(), 0);
    assert_eq!(blank.on_bat_cmds.len(), 0);
}

#[test]
fn repeated_samples_dispatch_once() {
    // A loop already settled on AC power sees OnAC, OnAC, OnBattery: only
    // the last sample is a transition, and it selects the battery list.
    let config =
        Config::parse_config("@ac\nac-cmd 1\n@battery\nbat-cmd 2").unwrap();
    let samples = [PowerState::OnAC, PowerState::OnAC, PowerState::OnBattery];
    let mut stored = Some(PowerState::OnAC);
    let mut dispatched = Vec::new();
    for sample in samples {
        let (next, transition) = observe_power(stored, Some(sample));
        stored = next;
        if transition {
            let cmds = power_status_changed(&config, sample == PowerState::OnAC);
            dispatched.push(cmds);
        }
    }
    assert_eq!(dispatched.len(), 1);
    assert_eq!(dispatched[0].len(), 1);
    assert_eq!(dispatched[0][0].name, "bat-cmd");
    assert_eq!(stored, Some(PowerState::OnBattery));
}

#[test]
fn failed_query_keeps_state_and_never_transitions() {
    let (next, transition) = observe_power(Some(PowerState::OnAC), None);
    assert_eq!(next, Some(PowerState::OnAC));
    assert!(!transition);

    let (first, seeded) = observe_power(None, Some(PowerState::OnBattery));
    assert_eq!(first, Some(PowerState::OnBattery));
    assert!(seeded);
}

#[test]
fn failed_reload_skips_dispatch_but_commits_state() {
    // A real transition whose configuration reload fails: nothing runs,
    // yet the new state is kept, so the next identical sample is quiet.
    let (next, transition) = observe_power(Some(PowerState::OnAC), Some(PowerState::OnBattery));
    assert_eq!(next, Some(PowerState::OnBattery));
    assert!(transition);

    let plan = transition_dispatch(None, false);
    assert!(plan.is_none());

    let (again, retransition) = observe_power(next, Some(PowerState::OnBattery));
    assert_eq!(again, Some(PowerState::OnBattery));
    assert!(!retransition);
}

#[test]
fn successful_reload_dispatches_matching_list() {
    let config = Config::parse_config("@ac\nplug 1\n@battery\nunplug 2").unwrap();
    let plan = transition_dispatch(Some(&config), true).unwrap();
    assert_eq!(plan.len(), 1);
    assert_eq!(plan[0].name, "plug");
    let plan = transition_dispatch(Some(&config), false).unwrap();
    assert_eq!(plan.len(), 1);
    assert_eq!(plan[0].name, "unplug");
}
