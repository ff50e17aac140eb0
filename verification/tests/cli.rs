use termina::cli::{
    capitalize, cli_outcome, cli_request, format_list, format_logs, format_output, format_settings,
    format_status_str, format_timestamp, parse_command_type, CliCommand, ClientReply, ListRow, LogRow, ReplyData,
    StatusField,
};
use termina::protocol::CliRequest;
use termina::types::CommandType;

fn texts(lines: &[termina::cli::OutputLine]) -> Vec<(bool, String)> {
    lines.iter().map(|l| (l.to_stderr, l.text.clone())).collect()
}

fn empty_data() -> ReplyData {
    ReplyData { text: None, name: None, rows: None, logs: None, shell_path: None, init_script: None }
}

#[test]
fn command_types_are_parsed_without_case() {
    assert_eq!(parse_command_type("process"), Ok(CommandType::Process));
    assert_eq!(parse_command_type("Process"), Ok(CommandType::Process));
    assert_eq!(parse_command_type("onetime"), Ok(CommandType::OneTime));
    assert_eq!(parse_command_type("One-Time"), Ok(CommandType::OneTime));
    assert_eq!(parse_command_type("ONE_TIME"), Ok(CommandType::OneTime));
    assert_eq!(
        parse_command_type("daemon"),
        Err("Invalid type 'daemon'. Use 'process' or 'onetime'".to_string())
    );
}

#[test]
fn timestamps_show_time_of_day() {
    assert_eq!(format_timestamp(0), "00:00:00");
    assert_eq!(format_timestamp(3_723_000), "01:02:03");
    assert_eq!(format_timestamp(86_399_999), "23:59:59");
    assert_eq!(format_timestamp(86_400_000 + 61_000), "00:01:01");
}

#[test]
fn capitalize_uppercases_first_character() {
    assert_eq!(capitalize("started"), "Started");
    assert_eq!(capitalize(""), "");
    assert_eq!(capitalize("ßx"), "SSx");
}

#[test]
fn status_labels() {
    let f = |k: Option<&str>, c: Option<i64>| Some(StatusField { kind: k.map(|s| s.to_string()), code: c });
    assert_eq!(format_status_str(&f(Some("Running"), None)), "Running");
    assert_eq!(format_status_str(&f(Some("Stopped"), None)), "Stopped");
    assert_eq!(format_status_str(&f(Some("Exited"), Some(-1))), "Exited(-1)");
    assert_eq!(format_status_str(&f(Some("Exited"), None)), "Exited");
    assert_eq!(format_status_str(&f(Some("Error"), None)), "Error");
    assert_eq!(format_status_str(&f(Some("Bogus"), None)), "Unknown");
    assert_eq!(format_status_str(&f(None, None)), "Unknown");
    assert_eq!(format_status_str(&None), "Unknown");
}

#[test]
fn list_is_a_padded_table() {
    let rows = vec![
        ListRow {
            name: Some("web".to_string()),
            status: Some(StatusField { kind: Some("Running".to_string()), code: None }),
            kind: Some("Process".to_string()),
            command: Some("npm run dev".to_string()),
        },
        ListRow { name: None, status: None, kind: None, command: None },
    ];
    let out = texts(&format_list(&Some(rows)));
    assert_eq!(out.len(), 3);
    assert_eq!(out[0].1, "NAME  STATUS   TYPE     COMMAND");
    assert_eq!(out[1].1, "web   Running  Process  npm run dev");
    assert_eq!(out[2].1, "?     Unknown  Process  ");
    assert_eq!(texts(&format_list(&Some(vec![]))), vec![(false, "No commands configured".to_string())]);
    assert_eq!(texts(&format_list(&None)), vec![(false, "No commands".to_string())]);
}

#[test]
fn list_widths_count_bytes() {
    let rows = vec![ListRow {
        name: Some("café".to_string()),
        status: Some(StatusField { kind: Some("Exited".to_string()), code: Some(1) }),
        kind: Some("OneTime".to_string()),
        command: Some("x".to_string()),
    }];
    let out = texts(&format_list(&Some(rows)));
    assert_eq!(out[0].1, "NAME   STATUS     TYPE     COMMAND");
    assert_eq!(out[1].1, "café   Exited(1)  OneTime  x");
}

#[test]
fn logs_show_time_and_stream() {
    let logs = vec![
        LogRow { text: Some("hello".to_string()), stream: Some("stdout".to_string()), timestamp: Some(1000) },
        LogRow { text: Some("bad".to_string()), stream: Some("stderr".to_string()), timestamp: Some(3_600_000) },
        LogRow { text: None, stream: None, timestamp: None },
    ];
    assert_eq!(
        texts(&format_logs(&Some(logs))),
        vec![
            (false, "00:00:01 hello".to_string()),
            (true, "01:00:00 [err] bad".to_string()),
            (false, "00:00:00 ".to_string()),
        ]
    );
    assert_eq!(texts(&format_logs(&Some(vec![]))), vec![(false, "No logs".to_string())]);
    assert!(format_logs(&None).is_empty());
}

#[test]
fn settings_show_defaults() {
    assert_eq!(
        texts(&format_settings(&None, &Some(String::new()))),
        vec![(false, "Shell:       (default)".to_string()), (false, "Init script: (none)".to_string())]
    );
    assert_eq!(
        texts(&format_settings(&Some("/bin/zsh".to_string()), &Some("eval x".to_string()))),
        vec![(false, "Shell:       /bin/zsh".to_string()), (false, "Init script: eval x".to_string())]
    );
}

#[test]
fn requests_follow_subcommands() {
    assert!(matches!(cli_request(&CliCommand::List), CliRequest::List));
    match cli_request(&CliCommand::Logs { name: "web".to_string(), n: 7 }) {
        CliRequest::Logs { name_or_id, tail } => {
            assert_eq!(name_or_id, "web");
            assert_eq!(tail, Some(7));
        }
        _ => panic!("expected logs"),
    }
    let add = CliCommand::Add {
        name: "x".to_string(),
        dir: "/d".to_string(),
        cmd: "c".to_string(),
        command_type: CommandType::OneTime,
        tag: vec![],
    };
    match cli_request(&add) {
        CliRequest::Add { name, dir, command, command_type, tags } => {
            assert_eq!((name.as_str(), dir.as_str(), command.as_str()), ("x", "/d", "c"));
            assert_eq!(command_type, Some(CommandType::OneTime));
            assert!(tags.is_none());
        }
        _ => panic!("expected add"),
    }
    assert!(matches!(
        cli_request(&CliCommand::Settings { shell: None, init_script: None }),
        CliRequest::GetSettings
    ));
    match cli_request(&CliCommand::Settings { shell: Some("/bin/sh".to_string()), init_script: None }) {
        CliRequest::SetSettings { shell_path, init_script } => {
            assert_eq!(shell_path.as_deref(), Some("/bin/sh"));
            assert!(init_script.is_none());
        }
        _ => panic!("expected set settings"),
    }
}

#[test]
fn outcomes_print_and_exit() {
    let start = CliCommand::Start { name: "web".to_string() };
    let mut data = empty_data();
    data.text = Some("started".to_string());
    let out = cli_outcome(&start, Ok(ClientReply::Success(data)));
    assert_eq!(out.exit_code, 0);
    assert_eq!(texts(&out.lines), vec![(false, "Started".to_string())]);
    let out = cli_outcome(&start, Ok(ClientReply::Failure("Command not found".to_string())));
    assert_eq!(out.exit_code, 1);
    assert_eq!(texts(&out.lines), vec![(true, "Error: Command not found".to_string())]);
    let out = cli_outcome(&start, Err("Termina app is not running (socket not found)".to_string()));
    assert_eq!(out.exit_code, 1);
    assert_eq!(texts(&out.lines), vec![(true, "Termina app is not running (socket not found)".to_string())]);
}

#[test]
fn add_output_names_the_command() {
    let add = CliCommand::Add {
        name: "x".to_string(),
        dir: "/".to_string(),
        cmd: "c".to_string(),
        command_type: CommandType::Process,
        tag: vec!["t".to_string()],
    };
    let mut data = empty_data();
    data.name = Some("api".to_string());
    assert_eq!(texts(&format_output(&add, &data)), vec![(false, "Added command 'api'".to_string())]);
    assert_eq!(texts(&format_output(&add, &empty_data())), vec![(false, "Command added".to_string())]);
    let set = CliCommand::Settings { shell: Some("/bin/sh".to_string()), init_script: None };
    let mut data = empty_data();
    data.text = Some("settings updated".to_string());
    assert_eq!(texts(&format_output(&set, &data)), vec![(false, "Settings updated".to_string())]);
}
