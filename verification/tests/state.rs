use termina::state::{
    collect_health_updates, health_of_response, AppState, HealthAction, HealthUpdate, LOG_CAPACITY,
};
use termina::table::KeyedTable;
use termina::types::{
    CommandEntry, CommandType, EnvVar, HealthStatus, LogLine, ProcessCheckResult, ProcessStatus, ShellSettings,
};

fn entry(id: &str, name: &str, enabled: bool, kind: CommandType) -> CommandEntry {
    CommandEntry {
        id: id.to_string(),
        name: name.to_string(),
        cwd: format!("/work/{}", name),
        command: format!("run {}", name),
        enabled,
        env: vec![EnvVar { key: "PORT".to_string(), value: "3000".to_string() }],
        health_check_url: None,
        command_type: kind,
        tags: vec![],
    }
}

fn settings(shell: Option<&str>, init: Option<&str>) -> ShellSettings {
    ShellSettings { shell_path: shell.map(|s| s.to_string()), init_script: init.map(|s| s.to_string()) }
}

fn sample() -> AppState {
    AppState::new(
        vec![
            entry("a1", "Web", true, CommandType::Process),
            entry("b2", "Worker", false, CommandType::Process),
            entry("c3", "Migrate", true, CommandType::OneTime),
        ],
        settings(Some("/bin/bash"), Some("source ~/.env")),
    )
}

fn running() -> ProcessCheckResult {
    ProcessCheckResult::Running
}

#[test]
fn start_plans_the_launch_with_shell_and_init_script() {
    let mut s = sample();
    let plan = s.do_start_command("a1", running(), Some("/bin/zsh".to_string())).unwrap();
    assert_eq!(plan.shell, "/bin/bash");
    assert_eq!(plan.script, "source ~/.env; run Web");
    assert_eq!(plan.cwd, "/work/Web");
    assert_eq!(plan.env.len(), 1);
    assert_eq!(plan.env[0].key, "PORT");
    assert!(s.do_get_logs("a1").is_empty());
}

#[test]
fn start_without_init_script_runs_the_command_alone() {
    let mut s = AppState::new(vec![entry("a1", "Web", false, CommandType::Process)], settings(Some(""), Some("")));
    let plan = s.do_start_command("a1", running(), Some("/bin/fish".to_string())).unwrap();
    assert_eq!(plan.shell, "/bin/fish");
    assert_eq!(plan.script, "run Web");
    let mut t = AppState::new(vec![entry("a1", "Web", false, CommandType::Process)], settings(None, None));
    let plan = t.do_start_command("a1", running(), None).unwrap();
    assert_eq!(plan.shell, "/bin/sh");
}

#[test]
fn start_of_unknown_command_fails() {
    let mut s = sample();
    assert_eq!(s.do_start_command("zz", running(), None).err(), Some("Command not found".to_string()));
}

#[test]
fn start_of_running_command_is_refused() {
    let mut s = sample();
    s.do_start_command("a1", running(), None).unwrap();
    s.record_spawned("a1", 4242);
    assert_eq!(
        s.do_start_command("a1", running(), None).err(),
        Some("Command is already running".to_string())
    );
    assert_eq!(s.do_get_status("a1", running()), ProcessStatus::Running);
}

#[test]
fn start_replaces_a_finished_process() {
    let mut s = sample();
    s.do_start_command("a1", running(), None).unwrap();
    s.record_spawned("a1", 10);
    assert!(s.do_start_command("a1", ProcessCheckResult::Exited(Some(1)), None).is_ok());
    assert!(s.running_pgids().is_empty());
    assert_eq!(s.record_spawned("a1", 11), vec![11]);
}

#[test]
fn status_follows_the_process() {
    let mut s = sample();
    assert_eq!(s.do_get_status("a1", running()), ProcessStatus::Stopped);
    s.do_start_command("a1", running(), None).unwrap();
    assert_eq!(s.record_spawned("a1", 77), vec![77]);
    assert_eq!(s.do_get_status("a1", running()), ProcessStatus::Running);
    assert_eq!(s.do_get_status("a1", ProcessCheckResult::Exited(Some(3))), ProcessStatus::Exited { code: Some(3) });
    assert!(s.running_pgids().is_empty());
    assert_eq!(s.do_get_status("a1", running()), ProcessStatus::Exited { code: Some(3) });
}

#[test]
fn stop_forgets_process_and_exit_record() {
    let mut s = sample();
    s.do_start_command("a1", running(), None).unwrap();
    s.record_spawned("a1", 55);
    assert_eq!(s.do_stop_command("a1"), Some(55));
    assert_eq!(s.do_get_status("a1", running()), ProcessStatus::Stopped);
    assert_eq!(s.do_stop_command("a1"), None);
    assert!(s.running_pgids().is_empty());
}

#[test]
fn restart_kills_then_plans_again() {
    let mut s = sample();
    s.do_start_command("b2", running(), None).unwrap();
    s.record_spawned("b2", 31);
    let (kill, plan) = s.do_restart_command("b2", None);
    assert_eq!(kill, Some(31));
    assert_eq!(plan.unwrap().script, "source ~/.env; run Worker");
    let (kill, plan) = s.do_restart_command("nope", None);
    assert_eq!(kill, None);
    assert_eq!(plan.err(), Some("Command not found".to_string()));
}

#[test]
fn logs_are_captured_only_for_commands_with_a_buffer() {
    let mut s = sample();
    s.append_log("a1", LogLine::captured("early".to_string(), false, 1));
    assert!(s.do_get_logs("a1").is_empty());
    s.do_start_command("a1", running(), None).unwrap();
    s.append_log("a1", LogLine::captured("hello".to_string(), false, 1));
    s.append_log("a1", LogLine::captured("oops".to_string(), true, 2));
    let logs = s.do_get_logs("a1");
    assert_eq!(logs.len(), 2);
    assert_eq!(logs[0].text, "hello");
    assert_eq!(logs[1].stream, "stderr");
    for i in 0..(LOG_CAPACITY + 5) {
        s.append_log("a1", LogLine::captured(i.to_string(), false, 3));
    }
    let logs = s.do_get_logs("a1");
    assert_eq!(logs.len(), LOG_CAPACITY);
    assert_eq!(logs[0].text, "5");
    assert_eq!(s.tail_logs("a1", 2).iter().map(|l| l.text.clone()).collect::<Vec<_>>(), vec!["503", "504"]);
    assert_eq!(s.tail_logs("zz", 2).len(), 0);
}

#[test]
fn add_command_uses_defaults_and_a_fresh_uuid() {
    let mut s = sample();
    let e = s.do_add_command("Api".to_string(), "/srv".to_string(), "npm start".to_string(), None, None);
    assert_eq!(e.id.len(), 36);
    assert_eq!(&e.id[14..15], "4");
    assert!(uuid::Uuid::parse_str(&e.id).is_ok());
    assert!(!e.enabled);
    assert!(e.env.is_empty());
    assert_eq!(e.command_type, CommandType::Process);
    assert!(e.tags.is_empty());
    let cmds = s.do_get_commands();
    assert_eq!(cmds.len(), 4);
    assert_eq!(cmds[3].name, "Api");
    let f = s.add_command(
        "Db".to_string(),
        "/db".to_string(),
        "pg".to_string(),
        Some(vec![EnvVar { key: "A".to_string(), value: "1".to_string() }]),
        Some("http://localhost:5432".to_string()),
        Some(CommandType::OneTime),
        Some(vec!["infra".to_string()]),
    );
    assert_ne!(f.id, e.id);
    assert_eq!(f.health_check_url.as_deref(), Some("http://localhost:5432"));
    assert_eq!(f.command_type, CommandType::OneTime);
    assert_eq!(f.tags, vec!["infra".to_string()]);
}

#[test]
fn update_command_replaces_fields_and_keeps_id() {
    let mut s = sample();
    assert!(s
        .update_command("b2", "Jobs".to_string(), "/j".to_string(), "jobs".to_string(), true, None, None, None, None)
        .is_ok());
    let cmds = s.do_get_commands();
    assert_eq!(cmds[1].id, "b2");
    assert_eq!(cmds[1].name, "Jobs");
    assert!(cmds[1].enabled);
    assert!(cmds[1].env.is_empty());
    assert_eq!(
        s.update_command("zz", "x".to_string(), "x".to_string(), "x".to_string(), false, None, None, None, None),
        Err("Command not found".to_string())
    );
}

#[test]
fn delete_command_removes_every_trace() {
    let mut s = sample();
    s.do_start_command("a1", running(), None).unwrap();
    s.record_spawned("a1", 9);
    s.apply_health_updates(&vec![HealthUpdate { id: "a1".to_string(), status: HealthStatus::Healthy }]);
    assert_eq!(s.delete_command("a1"), Some(9));
    assert_eq!(s.do_get_commands().len(), 2);
    assert!(s.find_command("a1").is_none());
    assert_eq!(s.get_health("a1"), HealthStatus::Unknown);
    assert!(s.do_get_logs("a1").is_empty());
    assert_eq!(s.do_get_status("a1", running()), ProcessStatus::Stopped);
    assert_eq!(s.delete_command("a1"), None);
}

#[test]
fn running_commands_are_named_in_start_order() {
    let mut s = sample();
    s.do_start_command("c3", running(), None).unwrap();
    s.record_spawned("c3", 3);
    s.do_start_command("a1", running(), None).unwrap();
    s.record_spawned("a1", 1);
    assert_eq!(s.get_running_commands(), vec!["Migrate".to_string(), "Web".to_string()]);
    assert_eq!(s.running_pgids(), vec![3, 1]);
    let items = s.running_menu_items();
    assert_eq!(items[0].id, "c3");
    assert_eq!(items[1].name, "Web");
    assert_eq!(s.drain_processes(), vec![3, 1]);
    assert!(s.get_running_commands().is_empty());
}

#[test]
fn monitor_records_exits_and_notifies_on_failure() {
    let mut s = sample();
    for (id, pg) in [("a1", 1), ("b2", 2), ("c3", 3)] {
        s.do_start_command(id, running(), None).unwrap();
        s.record_spawned(id, pg);
    }
    let mut polls = KeyedTable::new();
    polls.insert("a1".to_string(), ProcessCheckResult::Exited(Some(0)));
    polls.insert("b2".to_string(), ProcessCheckResult::Running);
    polls.insert("c3".to_string(), ProcessCheckResult::Exited(Some(2)));
    let events = s.monitor_tick(&polls);
    assert_eq!(events.len(), 2);
    assert_eq!(events[0].id, "a1");
    assert_eq!(events[0].notification, None);
    assert_eq!(events[1].name, "Migrate");
    assert_eq!(events[1].notification.as_deref(), Some("\"Migrate\" exited with code 2"));
    assert_eq!(s.running_pgids(), vec![2]);
    assert_eq!(s.do_get_status("c3", running()), ProcessStatus::Exited { code: Some(2) });
    let mut polls = KeyedTable::new();
    polls.insert("b2".to_string(), ProcessCheckResult::Exited(None));
    let events = s.monitor_tick(&polls);
    assert_eq!(events[0].notification.as_deref(), Some("\"Worker\" was terminated"));
    let negative = {
        let mut t = sample();
        t.do_start_command("a1", running(), None).unwrap();
        t.record_spawned("a1", 1);
        let mut p = KeyedTable::new();
        p.insert("a1".to_string(), ProcessCheckResult::Exited(Some(-9)));
        t.monitor_tick(&p)
    };
    assert_eq!(negative[0].notification.as_deref(), Some("\"Web\" exited with code -9"));
}

#[test]
fn health_checks_are_planned_and_applied() {
    let mut a = entry("a1", "Web", false, CommandType::Process);
    a.health_check_url = Some("http://localhost:3000/health".to_string());
    let mut b = entry("b2", "Worker", false, CommandType::Process);
    b.health_check_url = Some("file:///etc/passwd".to_string());
    let mut c = entry("c3", "Idle", false, CommandType::Process);
    c.health_check_url = Some("https://example.com".to_string());
    let d = entry("d4", "None", false, CommandType::Process);
    let mut s = AppState::new(vec![a, b, c, d], settings(None, None));
    for (id, pg) in [("a1", 1), ("b2", 2)] {
        s.do_start_command(id, running(), None).unwrap();
        s.record_spawned(id, pg);
    }
    let plan = s.plan_health_checks();
    assert_eq!(plan.len(), 3);
    assert!(matches!(&plan[0].action, HealthAction::Probe(u) if u == "http://localhost:3000/health"));
    assert!(matches!(plan[1].action, HealthAction::Record(HealthStatus::Unhealthy)));
    assert!(matches!(plan[2].action, HealthAction::Record(HealthStatus::Unknown)));
    let updates = collect_health_updates(&plan, &vec![Some(204), None, None]);
    assert_eq!(updates[0].status, HealthStatus::Healthy);
    s.apply_health_updates(&updates);
    assert_eq!(s.get_health("a1"), HealthStatus::Healthy);
    assert_eq!(s.get_health("b2"), HealthStatus::Unhealthy);
    assert_eq!(s.get_health("c3"), HealthStatus::Unknown);
    assert_eq!(s.get_health("d4"), HealthStatus::Unknown);
}

#[test]
fn health_of_response_statuses() {
    assert_eq!(health_of_response(Some(200)), HealthStatus::Healthy);
    assert_eq!(health_of_response(Some(399)), HealthStatus::Healthy);
    assert_eq!(health_of_response(Some(400)), HealthStatus::Unhealthy);
    assert_eq!(health_of_response(Some(199)), HealthStatus::Unhealthy);
    assert_eq!(health_of_response(None), HealthStatus::Unhealthy);
}

#[test]
fn auto_start_takes_enabled_processes_only() {
    let mut s = sample();
    let starts = s.auto_start_enabled_commands(Some("/bin/zsh".to_string()));
    assert_eq!(starts.len(), 1);
    assert_eq!(starts[0].id, "a1");
    assert_eq!(starts[0].plan.shell, "/bin/bash");
    assert!(s.do_get_logs("a1").is_empty());
}

#[test]
fn resolve_prefers_ids_then_names_without_case() {
    let mut s = sample();
    assert_eq!(s.resolve_command_id("b2"), Ok("b2".to_string()));
    assert_eq!(s.resolve_command_id("web"), Ok("a1".to_string()));
    assert_eq!(s.resolve_command_id("WORKER"), Ok("b2".to_string()));
    assert_eq!(s.resolve_command_id("nope"), Err("No command found matching 'nope'".to_string()));
    s.update_command("c3", "web".to_string(), "/".to_string(), "x".to_string(), false, None, None, None, None)
        .unwrap();
    assert_eq!(
        s.resolve_command_id("WEB"),
        Err("Ambiguous name 'WEB'. Matches:\n  Web (a1)\n  web (c3)".to_string())
    );
}

#[test]
fn shell_settings_are_replaced() {
    let mut s = sample();
    assert_eq!(s.do_get_shell_settings().shell_path.as_deref(), Some("/bin/bash"));
    s.do_update_shell_settings(None, Some("export A=1".to_string()));
    let st = s.do_get_shell_settings();
    assert_eq!(st.shell_path, None);
    assert_eq!(st.effective_init_script(), "export A=1");
    assert_eq!(st.effective_shell(None), "/bin/sh");
    assert_eq!(st.effective_shell(Some("/bin/zsh".to_string())), "/bin/zsh");
}

#[test]
fn default_command_type_is_process() {
    assert_eq!(CommandType::default(), CommandType::Process);
    let d = ShellSettings::default();
    assert!(d.shell_path.is_none() && d.init_script.is_none());
    assert_eq!(d.effective_init_script(), "");
}
