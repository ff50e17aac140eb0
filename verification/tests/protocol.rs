use termina::protocol::{saved_command_reply, CliRequest, CliResponse, NextStep, ResponseData};
use termina::state::AppState;
use termina::table::KeyedTable;
use termina::types::{CommandEntry, CommandType, LogLine, ProcessCheckResult, ProcessStatus, ShellSettings};

fn entry(id: &str, name: &str) -> CommandEntry {
    CommandEntry {
        id: id.to_string(),
        name: name.to_string(),
        cwd: "/srv".to_string(),
        command: format!("run {}", name),
        enabled: false,
        env: vec![],
        health_check_url: None,
        command_type: CommandType::Process,
        tags: vec!["t".to_string()],
    }
}

fn state() -> AppState {
    AppState::new(
        vec![entry("id-1", "Web"), entry("id-2", "Api")],
        ShellSettings { shell_path: Some("/bin/bash".to_string()), init_script: None },
    )
}

fn no_polls() -> KeyedTable<ProcessCheckResult> {
    KeyedTable::new()
}

fn text_of(step: &NextStep) -> Option<String> {
    match step {
        NextStep::Reply(CliResponse::Success { data: ResponseData::Text(t) }) => Some(t.clone()),
        _ => None,
    }
}

fn error_of(step: &NextStep) -> Option<String> {
    match step {
        NextStep::Reply(CliResponse::Failure { message }) => Some(message.clone()),
        _ => None,
    }
}

#[test]
fn ping_answers_pong() {
    let mut s = state();
    let step = s.handle_request(CliRequest::Ping, &no_polls(), None);
    assert!(step.kill.is_none());
    assert_eq!(text_of(&step.next), Some("pong".to_string()));
}

#[test]
fn start_by_name_then_finish() {
    let mut s = state();
    let step = s.handle_request(CliRequest::Start { name_or_id: "web".to_string() }, &no_polls(), None);
    let (id, restart) = match step.next {
        NextStep::Launch { id, plan, restart } => {
            assert_eq!(plan.script, "run Web");
            assert_eq!(plan.shell, "/bin/bash");
            (id, restart)
        }
        _ => panic!("expected a launch"),
    };
    assert_eq!(id, "id-1");
    assert!(!restart);
    let (reply, pgids) = s.finish_launch(&id, restart, Ok(900));
    assert!(matches!(reply, CliResponse::Success { data: ResponseData::Text(ref t) } if t == "started"));
    assert_eq!(pgids, Some(vec![900]));
    let mut polls = KeyedTable::new();
    polls.insert("id-1".to_string(), ProcessCheckResult::Running);
    let again = s.handle_request(CliRequest::Start { name_or_id: "id-1".to_string() }, &polls, None);
    assert_eq!(error_of(&again.next), Some("Command is already running".to_string()));
}

#[test]
fn failed_launch_is_reported() {
    let mut s = state();
    let (reply, pgids) = s.finish_launch("id-1", false, Err("No such file or directory".to_string()));
    assert!(matches!(reply, CliResponse::Failure { ref message } if message == "No such file or directory"));
    assert!(pgids.is_none());
    assert!(s.running_pgids().is_empty());
}

#[test]
fn unknown_names_are_errors() {
    let mut s = state();
    let step = s.handle_request(CliRequest::Stop { name_or_id: "db".to_string() }, &no_polls(), None);
    assert_eq!(error_of(&step.next), Some("No command found matching 'db'".to_string()));
}

#[test]
fn stop_kills_and_persists() {
    let mut s = state();
    s.do_start_command("id-2", ProcessCheckResult::Running, None).unwrap();
    s.record_spawned("id-2", 321);
    let step = s.handle_request(CliRequest::Stop { name_or_id: "API".to_string() }, &no_polls(), None);
    assert_eq!(step.kill, Some(321));
    match step.next {
        NextStep::PersistPids { pgids, reply } => {
            assert!(pgids.is_empty());
            assert!(matches!(reply, CliResponse::Success { data: ResponseData::Text(ref t) } if t == "stopped"));
        }
        _ => panic!("expected pid file update"),
    }
}

#[test]
fn restart_kills_and_relaunches() {
    let mut s = state();
    s.do_start_command("id-1", ProcessCheckResult::Running, None).unwrap();
    s.record_spawned("id-1", 5);
    let step = s.handle_request(CliRequest::Restart { name_or_id: "id-1".to_string() }, &no_polls(), None);
    assert_eq!(step.kill, Some(5));
    assert!(matches!(step.next, NextStep::Launch { restart: true, .. }));
    let (reply, _) = s.finish_launch("id-1", true, Ok(6));
    assert!(matches!(reply, CliResponse::Success { data: ResponseData::Text(ref t) } if t == "restarted"));
}

#[test]
fn list_reports_each_command_with_status() {
    let mut s = state();
    s.do_start_command("id-2", ProcessCheckResult::Running, None).unwrap();
    s.record_spawned("id-2", 44);
    let mut polls = KeyedTable::new();
    polls.insert("id-2".to_string(), ProcessCheckResult::Exited(Some(1)));
    let step = s.handle_request(CliRequest::List, &polls, None);
    match step.next {
        NextStep::Reply(CliResponse::Success { data: ResponseData::Entries(es) }) => {
            assert_eq!(es.len(), 2);
            assert_eq!(es[0].name, "Web");
            assert_eq!(es[0].status, ProcessStatus::Stopped);
            assert_eq!(es[1].status, ProcessStatus::Exited { code: Some(1) });
            assert_eq!(es[1].tags, vec!["t".to_string()]);
        }
        _ => panic!("expected entries"),
    }
    assert!(s.running_pgids().is_empty());
    assert_eq!(s.do_get_status("id-2", ProcessCheckResult::Running), ProcessStatus::Exited { code: Some(1) });
}

#[test]
fn logs_are_tailed() {
    let mut s = state();
    s.do_start_command("id-1", ProcessCheckResult::Running, None).unwrap();
    for i in 0..5 {
        s.append_log("id-1", LogLine::captured(format!("l{}", i), false, i));
    }
    let step = s.handle_request(CliRequest::Logs { name_or_id: "web".to_string(), tail: Some(2) }, &no_polls(), None);
    match step.next {
        NextStep::Reply(CliResponse::Success { data: ResponseData::Logs(ls) }) => {
            assert_eq!(ls.iter().map(|l| l.text.clone()).collect::<Vec<_>>(), vec!["l3", "l4"]);
        }
        _ => panic!("expected logs"),
    }
    let step = s.handle_request(CliRequest::Logs { name_or_id: "web".to_string(), tail: None }, &no_polls(), None);
    match step.next {
        NextStep::Reply(CliResponse::Success { data: ResponseData::Logs(ls) }) => assert_eq!(ls.len(), 5),
        _ => panic!("expected logs"),
    }
}

#[test]
fn add_and_settings_are_handed_back_for_saving() {
    let mut s = state();
    let step = s.handle_request(
        CliRequest::Add {
            name: "Db".to_string(),
            dir: "/db".to_string(),
            command: "pg".to_string(),
            command_type: Some(CommandType::OneTime),
            tags: Some(vec!["x".to_string()]),
        },
        &no_polls(),
        None,
    );
    match step.next {
        NextStep::SaveCommands { entry } => {
            assert_eq!(entry.name, "Db");
            assert_eq!(entry.cwd, "/db");
            assert_eq!(entry.command_type, CommandType::OneTime);
        }
        _ => panic!("expected save"),
    }
    assert_eq!(s.do_get_commands().len(), 3);
    let step = s.handle_request(CliRequest::GetSettings, &no_polls(), None);
    assert!(matches!(
        step.next,
        NextStep::Reply(CliResponse::Success { data: ResponseData::Settings(ref st) })
            if st.shell_path.as_deref() == Some("/bin/bash")
    ));
    let step = s.handle_request(
        CliRequest::SetSettings { shell_path: None, init_script: Some("a".to_string()) },
        &no_polls(),
        None,
    );
    assert!(matches!(step.next, NextStep::SaveSettings { shell_path: None, .. }));
}

#[test]
fn saved_settings_take_effect_only_when_written() {
    let mut s = state();
    let r = s.finish_save_settings(Some("/bin/zsh".to_string()), None, Err("disk full".to_string()));
    assert!(matches!(r, CliResponse::Failure { ref message } if message == "disk full"));
    assert_eq!(s.do_get_shell_settings().shell_path, Some("/bin/bash".to_string()));
    let r = s.finish_save_settings(Some("/bin/zsh".to_string()), Some("nvm use".to_string()), Ok(()));
    assert!(matches!(r, CliResponse::Success { data: ResponseData::Text(ref t) } if t == "settings updated"));
    assert_eq!(s.do_get_shell_settings().shell_path, Some("/bin/zsh".to_string()));
    assert_eq!(s.do_get_shell_settings().init_script, Some("nvm use".to_string()));
}

#[test]
fn added_command_is_answered_once_written() {
    let r = saved_command_reply(entry("id-9", "Db"), Ok(()));
    assert!(matches!(r, CliResponse::Success { data: ResponseData::Command(ref e) } if e.id == "id-9"));
    let r = saved_command_reply(entry("id-9", "Db"), Err("Failed to write config: denied".to_string()));
    assert!(matches!(r, CliResponse::Failure { ref message } if message == "Failed to write config: denied"));
}
