use termina::ports::{accept_port_pids, lsof_pids, parse_ports, select_pids_to_check, select_termina_pids};

#[test]
fn single_port() {
    assert_eq!(parse_ports("3000"), Ok(vec![3000]));
}

#[test]
fn range_of_ports() {
    assert_eq!(parse_ports("3000-3003"), Ok(vec![3000, 3001, 3002, 3003]));
}

#[test]
fn list_of_ports() {
    assert_eq!(parse_ports("3000,3001,8080"), Ok(vec![3000, 3001, 8080]));
}

#[test]
fn ranges_and_ports_mixed_with_spaces() {
    assert_eq!(parse_ports(" 3000 - 3002 , 8080 "), Ok(vec![3000, 3001, 3002, 8080]));
}

#[test]
fn blank_items_are_skipped() {
    assert_eq!(parse_ports(""), Ok(vec![]));
    assert_eq!(parse_ports(",, ,"), Ok(vec![]));
    assert_eq!(parse_ports("80,,443,"), Ok(vec![80, 443]));
}

#[test]
fn plus_sign_is_accepted_as_std_parse_does() {
    assert_eq!(parse_ports("+80"), Ok(vec![80]));
}

#[test]
fn single_port_range() {
    assert_eq!(parse_ports("5-5"), Ok(vec![5]));
    assert_eq!(parse_ports("65535-65535"), Ok(vec![65535]));
}

#[test]
fn invalid_port_is_reported_trimmed() {
    assert_eq!(parse_ports(" abc "), Err("Invalid port: abc".to_string()));
    assert_eq!(parse_ports("70000"), Err("Invalid port: 70000".to_string()));
    assert_eq!(parse_ports("-5"), Err("Invalid port: ".to_string()));
}

#[test]
fn invalid_range_ends_are_reported() {
    assert_eq!(parse_ports("a - 5"), Err("Invalid port: a".to_string()));
    assert_eq!(parse_ports("5-b"), Err("Invalid port: b".to_string()));
    assert_eq!(parse_ports("1-2-3"), Err("Invalid port: 2-3".to_string()));
}

#[test]
fn reversed_range_is_an_error() {
    assert_eq!(parse_ports("3005-3000"), Err("Invalid range: 3005-3000".to_string()));
}

#[test]
fn first_error_wins() {
    assert_eq!(parse_ports("80,x,9-1"), Err("Invalid port: x".to_string()));
}

#[test]
fn lsof_output_lines_are_parsed() {
    assert_eq!(lsof_pids("123\n456\n"), vec![123, 456]);
    assert_eq!(lsof_pids("12\r\nabc\n -5 \n"), vec![12, -5]);
    assert_eq!(lsof_pids(""), Vec::<i32>::new());
}

#[test]
fn pids_to_check_are_positive_new_and_unique() {
    assert_eq!(select_pids_to_check(&vec![5, -1, 0, 7, 5, 9], &vec![9]), vec![5, 7]);
}

#[test]
fn only_pids_in_known_groups_are_selected() {
    let pids = vec![10, 11, 12, 13];
    let groups = vec![Some(100), None, Some(200), Some(100)];
    assert_eq!(select_termina_pids(&pids, &groups, &vec![100]), vec![10, 13]);
    assert_eq!(select_termina_pids(&pids, &groups, &vec![]), Vec::<i32>::new());
}

#[test]
fn own_process_is_accepted_only_when_its_group_is_known() {
    let me = nix::unistd::getpid().as_raw();
    let group = nix::unistd::getpgid(None).unwrap().as_raw();
    let output = format!("{}\n{}\n", me, me);
    let mut accepted = Vec::new();
    assert_eq!(accept_port_pids(&output, &vec![group + 1], &mut accepted), Vec::<i32>::new());
    assert!(accepted.is_empty());
    assert_eq!(accept_port_pids(&output, &vec![group], &mut accepted), vec![me]);
    assert_eq!(accepted, vec![me]);
    assert_eq!(accept_port_pids(&output, &vec![group], &mut accepted), Vec::<i32>::new());
    assert_eq!(accepted, vec![me]);
}
