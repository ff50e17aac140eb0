use termina::config::{
    get_config_path, get_pids_path, join_path, load_commands, load_running_pids, load_shell_settings,
    save_commands, save_running_pids, save_shell_settings, socket_path, Config,
};
use termina::types::{CommandEntry, CommandType, ShellSettings};

fn entry(id: &str) -> CommandEntry {
    CommandEntry {
        id: id.to_string(),
        name: format!("n{}", id),
        cwd: "/".to_string(),
        command: "true".to_string(),
        enabled: false,
        env: vec![],
        health_check_url: None,
        command_type: CommandType::Process,
        tags: vec![],
    }
}

fn config(ids: &[&str], shell: Option<&str>) -> Config {
    Config {
        commands: ids.iter().map(|i| entry(i)).collect(),
        shell_settings: ShellSettings { shell_path: shell.map(|s| s.to_string()), init_script: None },
    }
}

#[test]
fn missing_config_gives_defaults() {
    assert!(load_commands(None).is_empty());
    let s = load_shell_settings(None);
    assert!(s.shell_path.is_none() && s.init_script.is_none());
}

#[test]
fn saving_commands_keeps_shell_settings() {
    let written = save_commands(Some(config(&["x"], Some("/bin/zsh"))), &vec![entry("a"), entry("b")]);
    assert_eq!(written.shell_settings.shell_path.as_deref(), Some("/bin/zsh"));
    let back = load_commands(Some(written));
    assert_eq!(back.iter().map(|c| c.id.clone()).collect::<Vec<_>>(), vec!["a", "b"]);
    let fresh = save_commands(None, &vec![entry("c")]);
    assert!(fresh.shell_settings.shell_path.is_none());
}

#[test]
fn saving_shell_settings_keeps_commands() {
    let settings = ShellSettings { shell_path: None, init_script: Some("eval x".to_string()) };
    let written = save_shell_settings(Some(config(&["k"], Some("/bin/zsh"))), &settings);
    assert_eq!(written.commands.len(), 1);
    assert_eq!(written.commands[0].id, "k");
    assert_eq!(load_shell_settings(Some(written)).init_script.as_deref(), Some("eval x"));
    assert!(save_shell_settings(None, &settings).commands.is_empty());
}

#[test]
fn pid_file_holds_a_json_array() {
    assert_eq!(save_running_pids(&vec![]), None);
    assert_eq!(save_running_pids(&vec![12, -3, 2147483647]), Some("[12,-3,2147483647]".to_string()));
    assert_eq!(save_running_pids(&vec![i32::MIN]), Some("[-2147483648]".to_string()));
}

#[test]
fn pid_file_round_trips() {
    for pids in [vec![], vec![1], vec![4, 5, 6]] {
        let written = save_running_pids(&pids);
        assert_eq!(load_running_pids(written), pids);
    }
}

#[test]
fn unreadable_pid_file_gives_nothing() {
    assert!(load_running_pids(None).is_empty());
    assert!(load_running_pids(Some("not json".to_string())).is_empty());
    assert_eq!(load_running_pids(Some(" [ 7 , 8 ] ".to_string())), vec![7, 8]);
}

#[test]
fn paths_are_joined_like_pathbuf() {
    assert_eq!(join_path(&b"/home/u/.config".to_vec(), "termina"), b"/home/u/.config/termina".to_vec());
    assert_eq!(join_path(&b"/home/u/.config/".to_vec(), "termina"), b"/home/u/.config/termina".to_vec());
    assert_eq!(join_path(&Vec::new(), "termina"), b"termina".to_vec());
}

#[test]
fn paths_that_are_not_unicode_are_kept() {
    let base: Vec<u8> = vec![b'/', b'h', 0xff, 0xfe, b'x'];
    let mut expected = base.clone();
    expected.extend_from_slice(b"/termina");
    assert_eq!(join_path(&base, "termina"), expected);
}

#[test]
fn application_files_live_in_the_termina_directory() {
    if let Some(p) = get_config_path() {
        assert!(p.ends_with(b"/termina/config.json"));
    }
    if let Some(p) = get_pids_path() {
        assert!(p.ends_with(b"/termina/running_pids.json"));
    }
    if let Some(p) = socket_path() {
        assert!(p.ends_with(b"/termina/termina.sock"));
    }
}
