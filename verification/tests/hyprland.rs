use hypr_recall::collections::TextSet;
use hypr_recall::hyprland::{
    colresize, focus_window, focus_workspace, get_active_workspace_id, get_clients,
    get_monitor_widths, get_workspace_clients_sorted, move_to_workspace_silent, parse_event_line,
    runtime_socket, socket2_path, swapcol_left, wait_deadline, EventStream, HyprClient, HyprEvent,
    RawActiveWorkspace, RawClient, RawMonitor, RawWorkspaceRef, Received, Wait, WaitAction,
};

#[test]
fn parses_openwindow_event() {
    let ev = parse_event_line("openwindow>>0xdeadbeef,1,firefox,Mozilla Firefox").unwrap();
    assert!(matches!(ev, HyprEvent::WindowOpen { ref class, .. } if class == "firefox"));
}

#[test]
fn parses_openwindow_captures_address() {
    let ev = parse_event_line("openwindow>>0xdeadbeef,1,firefox,Mozilla Firefox").unwrap();
    assert!(matches!(ev, HyprEvent::WindowOpen { ref address, .. } if address == "0xdeadbeef"));
}

#[test]
fn parses_dotted_class_name() {
    let ev = parse_event_line("openwindow>>0x1,2,com.mitchellh.ghostty,Ghostty").unwrap();
    assert!(
        matches!(ev, HyprEvent::WindowOpen { ref class, .. } if class == "com.mitchellh.ghostty")
    );
}

#[test]
fn parses_closewindow_event() {
    let ev = parse_event_line("closewindow>>0xdeadbeef").unwrap();
    assert!(matches!(ev, HyprEvent::WindowClose { ref address } if address == "0xdeadbeef"));
}

#[test]
fn ignores_unrecognised_events() {
    assert!(parse_event_line("activewindow>>firefox,Firefox").is_none());
    assert!(parse_event_line("").is_none());
}

#[test]
fn ignores_openwindow_without_a_class() {
    assert!(parse_event_line("openwindow>>0x1,1").is_none());
}

#[test]
fn update_stable_resets_when_above_target() {
    // Simulates Discord: splash opens (net=1=target), real window opens (net=2>target),
    // splash closes (net=1=target again). Timer must NOT fire while net is above target.
    let mut open = TextSet::new();
    let mut stable_since: Option<u64> = None;

    open.insert("splash".into());
    EventStream::update_stable(&open, 1, &mut stable_since, 10);
    assert!(stable_since.is_some(), "timer should start at net=1=target");

    open.insert("real".into());
    EventStream::update_stable(&open, 1, &mut stable_since, 20);
    assert!(stable_since.is_none(), "timer must reset when net=2>target");

    open.remove("splash");
    EventStream::update_stable(&open, 1, &mut stable_since, 30);
    assert!(
        stable_since.is_some(),
        "timer should restart after splash closes (net=1=target)"
    );
}

#[test]
fn update_stable_keeps_a_running_timer() {
    let mut open = TextSet::new();
    open.insert("a".into());
    let mut stable_since: Option<u64> = None;
    EventStream::update_stable(&open, 1, &mut stable_since, 10);
    EventStream::update_stable(&open, 1, &mut stable_since, 20);
    assert_eq!(stable_since, Some(10));
}

#[test]
fn title_with_commas_doesnt_affect_class() {
    let ev = parse_event_line("openwindow>>0x1,1,firefox,Page, with, commas").unwrap();
    assert!(matches!(ev, HyprEvent::WindowOpen { ref class, .. } if class == "firefox"));
}

const MS: u64 = 1_000_000;

fn open(address: &str, class: &str) -> Received {
    Received::Event(HyprEvent::WindowOpen {
        address: address.to_owned(),
        class: class.to_owned(),
    })
}

fn close(address: &str) -> Received {
    Received::Event(HyprEvent::WindowClose {
        address: address.to_owned(),
    })
}

/// Runs a wait on a clock that only the script moves: each item is an event and
/// the time at which it comes.
fn run_wait(stream: &mut EventStream, mut wait: Wait, script: &[(u64, Received)]) -> (usize, u64) {
    let mut now: u64 = 0;
    let mut next = 0;
    loop {
        match stream.poll(&mut wait, now) {
            WaitAction::Done(n) => return (n, now),
            WaitAction::Again => {}
            WaitAction::CheckChild => {
                EventStream::child_polled(&mut wait, false, now);
                let timeout = EventStream::receive_timeout(&wait);
                now += timeout;
                stream.receive(&mut wait, Received::TimedOut, now);
            }
            WaitAction::Receive(timeout) => {
                let received = if next < script.len() && script[next].0 <= now + timeout {
                    now = now.max(script[next].0);
                    next += 1;
                    script[next - 1].1.clone()
                } else {
                    now += timeout;
                    Received::TimedOut
                };
                if let Some(n) = stream.receive(&mut wait, received, now) {
                    return (n, now);
                }
            }
        }
    }
}

#[test]
fn wait_ends_once_the_count_has_settled() {
    let mut stream = EventStream::new();
    let wait = stream.wait_for_count("app", 1, 20_000 * MS, false, 0);
    let (n, at) = run_wait(&mut stream, wait, &[(100 * MS, open("0x1", "app"))]);
    assert_eq!(n, 1);
    assert_eq!(at, 600 * MS, "half a second after the window opened");
}

#[test]
fn splash_window_is_not_taken_for_the_real_one() {
    let mut stream = EventStream::new();
    let wait = stream.wait_for_count("app", 1, 20_000 * MS, false, 0);
    let (n, at) = run_wait(
        &mut stream,
        wait,
        &[
            (100 * MS, open("splash", "app")),
            (300 * MS, open("real", "app")),
            (900 * MS, close("splash")),
        ],
    );
    assert_eq!(n, 1);
    assert_eq!(at, 1400 * MS);
}

#[test]
fn windows_are_waited_for_twenty_seconds() {
    assert_eq!(wait_deadline(5 * MS), 20_005 * MS);
    assert_eq!(wait_deadline(u64::MAX - 1), u64::MAX);
    let mut stream = EventStream::new();
    let wait = stream.wait_for_count("app", 1, wait_deadline(0), false, 0);
    let (n, at) = run_wait(&mut stream, wait, &[]);
    assert_eq!(n, 0);
    assert_eq!(at, 20_000 * MS);
}

#[test]
fn wait_ends_at_the_deadline() {
    let mut stream = EventStream::new();
    let wait = stream.wait_for_count("app", 2, 1000 * MS, false, 0);
    let (n, at) = run_wait(&mut stream, wait, &[(100 * MS, open("0x1", "app"))]);
    assert_eq!(n, 1);
    assert_eq!(at, 1000 * MS);
}

#[test]
fn wait_ends_where_the_events_end() {
    let mut stream = EventStream::new();
    let wait = stream.wait_for_count("app", 1, 1000 * MS, false, 0);
    let (n, _) = run_wait(&mut stream, wait, &[(10 * MS, Received::Closed)]);
    assert_eq!(n, 0);
}

#[test]
fn windows_of_other_classes_are_kept_for_later_waits() {
    let mut stream = EventStream::new();
    let first = stream.wait_for_count("app", 1, 20_000 * MS, false, 0);
    run_wait(
        &mut stream,
        first,
        &[
            (10 * MS, open("0x2", "other")),
            (20 * MS, open("0x1", "app")),
        ],
    );
    let second = stream.wait_for_count("other", 1, 20_000 * MS, false, 0);
    let (n, at) = run_wait(&mut stream, second, &[]);
    assert_eq!(n, 1);
    assert_eq!(at, 500 * MS);
}

#[test]
fn a_process_that_ends_at_once_gets_more_time() {
    let stream = EventStream::new();
    let mut wait = stream.wait_for_count("app", 1, 1000 * MS, true, 0);
    let told = EventStream::child_polled(&mut wait, true, 700 * MS);
    assert_eq!(
        told.unwrap(),
        "  app: quick exit (700ms) — single-instance handoff, extending wait to 8s"
    );
    let mut stream = stream;
    let (n, at) = run_wait(&mut stream, wait, &[]);
    assert_eq!(n, 0);
    assert_eq!(at, 8700 * MS);
}

#[test]
fn a_process_that_ends_later_changes_nothing() {
    let stream = EventStream::new();
    let mut wait = stream.wait_for_count("app", 1, 20_000 * MS, true, 0);
    assert!(EventStream::child_polled(&mut wait, true, 1500 * MS).is_none());
}

fn raw(address: &str, x: i32, workspace: i32, floating: bool, mapped: bool) -> RawClient {
    RawClient {
        address: address.to_owned(),
        mapped,
        floating,
        workspace: RawWorkspaceRef { id: workspace },
        at: [x, 7],
        size: [640, 480],
        initial_class: "app".to_owned(),
        pid: 42,
        monitor: 1,
    }
}

#[test]
fn clients_are_taken_over() {
    let clients: Vec<HyprClient> = get_clients(vec![raw("0x1", 5, 2, false, true)]);
    assert_eq!(clients.len(), 1);
    assert_eq!(clients[0].address, "0x1");
    assert_eq!(clients[0].initial_class, "app");
    assert_eq!(clients[0].x, 5);
    assert_eq!(clients[0].width, 640);
    assert_eq!(clients[0].workspace_id, 2);
    assert_eq!(clients[0].pid, 42);
    assert_eq!(clients[0].monitor, 1);
    assert!(!clients[0].floating);
    assert!(clients[0].mapped);
}

#[test]
fn tiled_clients_come_from_left_to_right() {
    let clients = get_clients(vec![
        raw("right", 20, 1, false, true),
        raw("floating", 0, 1, true, true),
        raw("left", 10, 1, false, true),
        raw("elsewhere", 0, 2, false, true),
        raw("unmapped", 0, 1, false, false),
        raw("beside", 10, 1, false, true),
    ]);
    let sorted = get_workspace_clients_sorted(clients, 1);
    let addresses: Vec<&str> = sorted.iter().map(|c| c.address.as_str()).collect();
    assert_eq!(addresses, vec!["left", "beside", "right"]);
}

#[test]
fn monitor_widths_by_id() {
    let widths = get_monitor_widths(&vec![
        RawMonitor { id: 0, width: 1920 },
        RawMonitor { id: 1, width: 2560 },
    ]);
    assert_eq!(widths.len(), 2);
    assert_eq!(widths[&0], 1920);
    assert_eq!(widths[&1], 2560);
    assert_eq!(get_active_workspace_id(RawActiveWorkspace { id: 3 }), 3);
}

#[test]
fn dispatch_expressions() {
    assert_eq!(focus_workspace(-3), "hl.dsp.focus({workspace = -3})");
    assert_eq!(
        focus_window("0x1"),
        "hl.dsp.focus({ window = \"address:0x1\" })"
    );
    assert_eq!(
        move_to_workspace_silent("0x1", 4),
        "hl.dsp.window.move({workspace = 4, follow = false, window = \"address:0x1\"})"
    );
    assert_eq!(swapcol_left(), "hl.dsp.layout(\"swapcol l\")");
    assert_eq!(colresize("0.500"), "hl.dsp.layout(\"colresize 0.500\")");
}

#[test]
fn event_socket_path() {
    assert_eq!(
        runtime_socket("/run/user/1000", "sig"),
        "/run/user/1000/hypr/sig/.socket2.sock"
    );
    let sig = Some("sig".to_owned());
    let dir = Some("/run/user/1000".to_owned());
    assert_eq!(
        socket2_path(sig.clone(), dir.clone(), true).unwrap(),
        "/run/user/1000/hypr/sig/.socket2.sock"
    );
    assert_eq!(
        socket2_path(sig.clone(), dir.clone(), false).unwrap(),
        "/tmp/hypr/sig/.socket2.sock"
    );
    assert_eq!(
        socket2_path(sig, None, true).unwrap(),
        "/tmp/hypr/sig/.socket2.sock"
    );
    assert!(socket2_path(None, dir, true).is_none());
}
