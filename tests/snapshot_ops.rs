use crossport::classify::{ancestor_dirs, determine_kind, find_git_root, nearest_marked, resolve_user};
use crossport::config::{confirm_before_kill, parse_range, scan_bounds, skip_for_permissions, Config};
use crossport::kill::{kill_process, parse_signal, signal_from_upper, Action, Answer, KillError, Outcome, Phase, Signal};
use crossport::ops::{scan_ports, suggest_port, SuggestError};
use crossport::process::{ProcessInfo, ProcessKind};
use crossport::snapshot::{ProcessRow, SystemSnapshot};
use crossport::tui_state::{refresh_due, AppState, InputMode};
use std::collections::HashMap;

fn record(pid: u32, port: u16) -> ProcessInfo {
    ProcessInfo {
        pid,
        user: "u".to_string(),
        uid: None,
        cmd: "node".to_string(),
        cwd: "/srv".to_string(),
        project_root: None,
        container_name: None,
        kind: ProcessKind::Other,
        port,
    }
}

fn snapshot_of(records: Vec<ProcessInfo>) -> SystemSnapshot {
    let mut m: HashMap<u16, Vec<ProcessInfo>> = HashMap::new();
    for r in records {
        m.entry(r.port).or_default().push(r);
    }
    SystemSnapshot { processes_by_port: m }
}

fn row(pid: u32, uid: Option<u32>, cmd: &str, cwd: &str) -> ProcessRow {
    ProcessRow { pid, uid, cmd: cmd.to_string(), cwd: cwd.to_string() }
}

#[test]
fn scan_returns_both_records_of_a_shared_port_in_order() {
    let snap = snapshot_of(vec![record(10, 3000), record(20, 3000)]);
    let out = scan_ports(&snap, 3000, 3000);
    assert_eq!(out.len(), 2);
    assert_eq!(out[0].pid, 10);
    assert_eq!(out[1].pid, 20);
    assert!(out.iter().all(|r| r.port == 3000));
}

#[test]
fn scan_is_sorted_and_limited_to_the_range() {
    let snap = snapshot_of(vec![record(1, 9000), record(2, 3000), record(3, 5000), record(4, 80)]);
    let ports: Vec<u16> = scan_ports(&snap, 1000, 9000).iter().map(|r| r.port).collect();
    assert_eq!(ports, vec![3000, 5000, 9000]);
    assert!(scan_ports(&snap, 9001, 9000).is_empty());
    let all: Vec<u32> = scan_ports(&snap, 0, 65535).iter().map(|r| r.pid).collect();
    assert_eq!(all, vec![4, 2, 3, 1]);
}

#[test]
fn scan_of_empty_snapshot_is_empty() {
    let snap = snapshot_of(vec![]);
    assert!(scan_ports(&snap, 0, 65535).is_empty());
}

#[test]
fn lookup_gives_the_port_list_or_nothing() {
    let snap = snapshot_of(vec![record(10, 3000), record(20, 3000)]);
    let l = snap.get_process_info(3000);
    assert_eq!(l.iter().map(|r| r.pid).collect::<Vec<_>>(), vec![10, 20]);
    assert!(snap.get_process_info(3001).is_empty());
}

#[test]
fn capture_join_drops_gone_pids_and_marks_containers() {
    let rows = vec![
        row(10, Some(501), "node", "/Users/a/_projects/app"),
        row(20, Some(0), "sshd", "/usr/sbin"),
        row(30, None, "com.docker.backend", "/"),
    ];
    let users = vec![(501u32, "alice".to_string()), (0, "root".to_string())];
    let listeners = vec![(10u32, 3000u16), (99, 4000), (20, 22), (30, 8080), (10, 3000)];
    let mut containers = HashMap::new();
    containers.insert(22u16, "sshbox".to_string());
    let snap = SystemSnapshot::from_sources(&rows, &users, &listeners, &containers);
    assert_eq!(snap.processes_by_port.len(), 3);
    assert!(snap.processes_by_port.values().all(|v| !v.is_empty()));
    let on_3000 = snap.get_process_info(3000);
    assert_eq!(on_3000.len(), 2);
    assert_eq!(on_3000[0].user, "alice");
    assert_eq!(on_3000[0].kind, ProcessKind::Dev);
    assert_eq!(on_3000[0].container_name, None);
    let on_22 = snap.get_process_info(22);
    assert_eq!(on_22[0].kind, ProcessKind::Docker);
    assert_eq!(on_22[0].container_name.as_deref(), Some("sshbox"));
    assert_eq!(on_22[0].user, "root");
    let on_8080 = snap.get_process_info(8080);
    assert_eq!(on_8080[0].kind, ProcessKind::Docker);
    assert_eq!(on_8080[0].user, "unknown");
    assert!(snap.get_process_info(4000).is_empty());
    for list in snap.processes_by_port.values() {
        for r in list {
            assert!(r.container_name.is_none() || r.kind == ProcessKind::Docker);
        }
    }
}

#[test]
fn classification_rules_in_order() {
    assert_eq!(determine_kind("containerd", "/_workspace/x/", "u"), ProcessKind::Docker);
    assert_eq!(determine_kind("node", "/home/a/_workspace/x", "u"), ProcessKind::Dev);
    assert_eq!(determine_kind("node", "/usr/sbin/_projects/x", "u"), ProcessKind::Dev);
    assert_eq!(determine_kind("launchd", "/System/Library", "u"), ProcessKind::System);
    assert_eq!(determine_kind("redis", "/opt/homebrew/var", "u"), ProcessKind::Brew);
    assert_eq!(determine_kind("pg", "/usr/local/Cellar/pg", "u"), ProcessKind::Brew);
    assert_eq!(determine_kind("x", "/home/usr/sbin", "u"), ProcessKind::Other);
    assert_eq!(determine_kind("x", "", "u"), ProcessKind::Other);
}

#[test]
fn user_names_resolve_or_are_unknown() {
    let users = vec![(1u32, "a".to_string()), (1, "b".to_string())];
    assert_eq!(resolve_user(Some(1), &users), "a");
    assert_eq!(resolve_user(Some(2), &users), "unknown");
    assert_eq!(resolve_user(None, &users), "unknown");
}

#[test]
fn project_root_of_empty_or_unmarked_path_is_none() {
    assert_eq!(find_git_root(""), None);
    assert_eq!(find_git_root("/nonexistent-crossport-dir/a/b"), None);
}

#[test]
fn suggestion_takes_the_first_bindable_port() {
    assert_eq!(suggest_port(3000, 3005, &vec![false, false, true]), Ok(3002));
    assert_eq!(suggest_port(3000, 3000, &vec![true]), Ok(3000));
    assert_eq!(suggest_port(3000, 3001, &vec![false, false]), Err(SuggestError::NotFound));
    assert_eq!(suggest_port(3000, 3001, &vec![false, false, true]), Err(SuggestError::NotFound));
    assert_eq!(suggest_port(3001, 3000, &vec![true]), Err(SuggestError::NotFound));
    assert_eq!(suggest_port(65535, 65535, &vec![true]), Ok(65535));
}

#[test]
fn dry_run_reports_pid_and_sends_nothing() {
    let p = kill_process(42, Some("bogus"), true, true).unwrap();
    assert_eq!(p, Phase::Done(Outcome::WouldKill(42)));
    assert_eq!(p.action(), Action::Finish(Outcome::WouldKill(42)));
    assert_eq!(p.next(Answer::Yes), p);
}

#[test]
fn force_sends_one_kill_and_finishes() {
    let p = kill_process(7, Some("INT"), true, false).unwrap();
    assert_eq!(p.action(), Action::Send(Signal::Kill));
    let done = p.next(Answer::Yes);
    assert_eq!(done, Phase::Done(Outcome::Sent(Signal::Kill)));
    assert_eq!(done.action(), Action::Finish(Outcome::Sent(Signal::Kill)));
    assert_eq!(p.next(Answer::No), Phase::Done(Outcome::NotFound));
    assert_eq!(p.next(Answer::Denied), Phase::Done(Outcome::SendFailed(Signal::Kill)));
}

#[test]
fn graduated_path_escalates_step_by_step() {
    let p = kill_process(7, None, false, false).unwrap();
    assert_eq!(p.action(), Action::Send(Signal::Interrupt));
    assert_eq!(p.next(Answer::No), Phase::Done(Outcome::NotFound));
    assert_eq!(p.next(Answer::Denied), Phase::Done(Outcome::SendFailed(Signal::Interrupt)));
    let p = p.next(Answer::Yes);
    assert_eq!(p.action(), Action::WaitAndProbe);
    assert_eq!(p.next(Answer::Denied), Phase::Terminate);
    assert_eq!(p.next(Answer::No), Phase::Done(Outcome::ExitedAfterInterrupt));
    let p = p.next(Answer::Yes);
    assert_eq!(p.action(), Action::Send(Signal::Terminate));
    let p = p.next(Answer::Yes);
    assert_eq!(p.action(), Action::WaitAndProbe);
    assert_eq!(p.next(Answer::No), Phase::Done(Outcome::ExitedAfterTerminate));
    let p = p.next(Answer::Yes);
    assert_eq!(p.action(), Action::Send(Signal::Kill));
    assert_eq!(p.next(Answer::Yes), Phase::Done(Outcome::ForcedAfterGraduated));
}

#[test]
fn signal_names_in_any_case() {
    assert_eq!(parse_signal("term"), Some(Signal::Terminate));
    assert_eq!(parse_signal("Int"), Some(Signal::Interrupt));
    assert_eq!(parse_signal("KILL"), Some(Signal::Kill));
    assert_eq!(parse_signal("hup"), None);
    assert_eq!(signal_from_upper("term"), None);
    assert_eq!(signal_from_upper("TERM"), Some(Signal::Terminate));
    assert_eq!(kill_process(1, Some("term"), false, false), Ok(Phase::Direct(Signal::Terminate)));
    assert_eq!(kill_process(1, Some("usr1"), false, false), Err(KillError::UnknownSignal));
}

#[test]
fn ranges_and_defaults() {
    assert_eq!(parse_range("3000-9999"), (Some(3000), Some(9999)));
    assert_eq!(parse_range("80-x"), (Some(80), None));
    assert_eq!(parse_range("1-2-3"), (None, None));
    assert_eq!(parse_range("70000-1"), (None, Some(1)));
    let config = Config::default();
    assert_eq!(scan_bounds(None, None, &config), (3000, 9999));
    assert_eq!(scan_bounds(Some(10), None, &config), (10, 9999));
    let mut other = Config::default();
    other.scan.default_range = Some("100-200".to_string());
    assert_eq!(scan_bounds(None, Some(150), &other), (100, 150));
    other.scan.default_range = None;
    assert_eq!(scan_bounds(None, None, &other), (3000, 9999));
    assert!(confirm_before_kill(None, &config));
    other.kill.confirm = Some(false);
    assert!(!confirm_before_kill(None, &other));
    assert!(confirm_before_kill(Some(true), &other));
    let mut sys = record(1, 22);
    sys.kind = ProcessKind::System;
    assert!(skip_for_permissions(&sys, false));
    assert!(!skip_for_permissions(&sys, true));
    assert!(!skip_for_permissions(&record(1, 22), false));
}

#[test]
fn table_selection_wraps_and_survives_refresh() {
    let snap = snapshot_of(vec![record(1, 80), record(2, 443), record(3, 8080)]);
    let mut app = AppState::new(&snap);
    assert_eq!(app.selected, Some(0));
    app.previous();
    assert_eq!(app.selected, Some(2));
    app.next();
    assert_eq!(app.selected, Some(0));
    app.next();
    assert_eq!(app.selected, Some(1));
    app.kill_selected();
    assert_eq!(app.input_mode, InputMode::ConfirmKill(2));
    assert_eq!(app.confirm_kill(), Some(2));
    assert_eq!(app.input_mode, InputMode::Normal);
    app.kill_selected();
    app.cancel_kill();
    assert_eq!(app.input_mode, InputMode::Normal);
    let later = snapshot_of(vec![record(2, 443), record(9, 22)]);
    app.refresh(&later);
    assert_eq!(app.selected, Some(1));
    let gone = snapshot_of(vec![record(5, 1)]);
    app.refresh(&gone);
    assert_eq!(app.selected, Some(0));
    assert!(refresh_due(true, 0));
    assert!(!refresh_due(false, 1999));
    assert!(refresh_due(false, 2000));
}

#[test]
fn ancestors_run_from_the_path_to_the_root() {
    assert_eq!(ancestor_dirs("/a/b"), vec!["/a/b".to_string(), "/a".to_string(), "/".to_string()]);
    assert_eq!(ancestor_dirs("/"), vec!["/".to_string()]);
    assert!(ancestor_dirs("").is_empty());
}

#[test]
fn nearest_marked_takes_the_first_yes() {
    let dirs = vec!["/a/b".to_string(), "/a".to_string(), "/".to_string()];
    assert_eq!(nearest_marked(&dirs, &vec![false, true]), Some("/a".to_string()));
    assert_eq!(nearest_marked(&dirs, &vec![false, true, true]), Some("/a".to_string()));
    assert_eq!(nearest_marked(&dirs, &vec![false, false, false]), None);
    assert_eq!(nearest_marked(&dirs, &vec![]), None);
}
