use termina::process::{check_open_url, is_spawned_shell_line, orphans_to_kill};
use termina::tray::{app_menu_action, menu_item_id, tray_action, AppMenuAction, TrayAction};

#[test]
fn only_https_urls_open() {
    assert_eq!(check_open_url("https://github.com/x"), Ok(()));
    assert_eq!(check_open_url("http://x"), Err("Only https:// URLs are allowed".to_string()));
    assert_eq!(check_open_url("file:///etc/passwd"), Err("Only https:// URLs are allowed".to_string()));
}

#[test]
fn spawned_shells_are_recognised() {
    assert!(is_spawned_shell_line("  sh -c npm run dev\n"));
    assert!(!is_spawned_shell_line("/usr/sbin/sshd -D"));
    assert!(!is_spawned_shell_line(""));
}

#[test]
fn orphans_are_alive_spawned_shells() {
    let pgids = vec![1, 2, 3, 4];
    let alive = vec![true, false, true, true];
    let outs = vec![Some("sh -c x".to_string()), Some("sh -c y".to_string()), Some("postgres".to_string()), None];
    assert_eq!(orphans_to_kill(&pgids, &alive, &outs), vec![1]);
}

#[test]
fn tray_menu_entries() {
    assert!(matches!(tray_action("quit"), TrayAction::Quit));
    assert!(matches!(tray_action("show"), TrayAction::Show));
    assert!(matches!(tray_action(&menu_item_id("abc")), TrayAction::OpenCommand(ref id) if id == "abc"));
    assert!(matches!(tray_action("no-active"), TrayAction::Ignore));
    assert!(matches!(app_menu_action("app-quit"), AppMenuAction::ConfirmQuit));
    assert!(matches!(app_menu_action("app-hide"), AppMenuAction::Hide));
    assert!(matches!(app_menu_action("other"), AppMenuAction::Ignore));
}
